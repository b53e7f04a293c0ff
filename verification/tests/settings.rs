use clipit::settings::{apply_setting_value, as_i64, as_u64, read_stored_value, JsonValue, Settings};

fn fresh() -> Settings {
    Settings::default()
}

#[test]
fn defaults_differ_only_in_the_hotkey() {
    let mac = Settings::platform_default(true);
    let other = Settings::platform_default(false);
    assert_eq!(mac.hotkey, "Cmd+Shift+P");
    assert_eq!(other.hotkey, "Ctrl+Shift+P");
    assert_eq!(Settings::default().hotkey, "Ctrl+Shift+P");
    assert_eq!(mac.max_items, other.max_items);
    assert_eq!(mac.polling_interval_ms, 400);
    assert_eq!(mac.window_opacity, 78);
    assert!(mac.blur_close && mac.capture_enabled && mac.colored_icons);
}

#[test]
fn polling_interval_is_clamped_to_100_and_5000() {
    let mut s = fresh();
    apply_setting_value(&mut s, "polling_interval_ms", JsonValue::from_u64(250));
    assert_eq!(s.polling_interval_ms, 250);
    apply_setting_value(&mut s, "polling_interval_ms", JsonValue::from_u64(5));
    assert_eq!(s.polling_interval_ms, 100);
    apply_setting_value(&mut s, "polling_interval_ms", JsonValue::from_u64(u64::MAX));
    assert_eq!(s.polling_interval_ms, 5000);
    apply_setting_value(&mut s, "polling_interval_ms", JsonValue::from_i64(-1));
    assert_eq!(s.polling_interval_ms, 5000);
}

#[test]
fn max_items_is_clamped_to_10_and_5000() {
    let mut s = fresh();
    apply_setting_value(&mut s, "max_items", JsonValue::from_u64(42));
    assert_eq!(s.max_items, 42);
    apply_setting_value(&mut s, "max_items", JsonValue::from_i64(-7));
    assert_eq!(s.max_items, 10);
    apply_setting_value(&mut s, "max_items", JsonValue::from_u64(5001));
    assert_eq!(s.max_items, 5000);
    apply_setting_value(&mut s, "max_items", JsonValue::from_u64(9));
    assert_eq!(s.max_items, 10);
    apply_setting_value(&mut s, "max_items", JsonValue::from_u64(u64::MAX));
    assert_eq!(s.max_items, 10);
}

#[test]
fn window_opacity_is_clamped_to_35_and_100() {
    let mut s = fresh();
    apply_setting_value(&mut s, "window_opacity", JsonValue::from_u64(50));
    assert_eq!(s.window_opacity, 50);
    apply_setting_value(&mut s, "window_opacity", JsonValue::from_u64(0));
    assert_eq!(s.window_opacity, 35);
    apply_setting_value(&mut s, "window_opacity", JsonValue::from_u64(101));
    assert_eq!(s.window_opacity, 100);
    apply_setting_value(&mut s, "window_opacity", JsonValue::from_i64(i64::MIN));
    assert_eq!(s.window_opacity, 35);
}

#[test]
fn switches_take_booleans_only() {
    let mut s = fresh();
    apply_setting_value(&mut s, "blur_close", JsonValue::Bool(false));
    apply_setting_value(&mut s, "capture_enabled", JsonValue::Bool(false));
    apply_setting_value(&mut s, "colored_icons", JsonValue::Bool(false));
    assert!(!s.blur_close && !s.capture_enabled && !s.colored_icons);
    apply_setting_value(&mut s, "blur_close", JsonValue::from_u64(1));
    apply_setting_value(&mut s, "capture_enabled", JsonValue::Text("true".to_string()));
    apply_setting_value(&mut s, "colored_icons", JsonValue::Null);
    assert!(!s.blur_close && !s.capture_enabled && !s.colored_icons);
}

#[test]
fn hotkey_takes_a_text_only() {
    let mut s = fresh();
    apply_setting_value(&mut s, "hotkey", JsonValue::Text("Alt+Q".to_string()));
    assert_eq!(s.hotkey, "Alt+Q");
    apply_setting_value(&mut s, "hotkey", JsonValue::Bool(true));
    apply_setting_value(&mut s, "hotkey", JsonValue::Array);
    assert_eq!(s.hotkey, "Alt+Q");
}

#[test]
fn values_of_the_wrong_type_and_unknown_keys_change_nothing() {
    let mut s = fresh();
    apply_setting_value(&mut s, "max_items", JsonValue::OtherNumber);
    apply_setting_value(&mut s, "max_items", JsonValue::Text("12".to_string()));
    apply_setting_value(&mut s, "window_opacity", JsonValue::Object);
    apply_setting_value(&mut s, "Max_Items", JsonValue::from_u64(99));
    apply_setting_value(&mut s, "", JsonValue::from_u64(99));
    assert_eq!(s.max_items, 15);
    assert_eq!(s.window_opacity, 78);
}

#[test]
fn stored_json_is_read_by_type() {
    assert!(matches!(read_stored_value("null"), JsonValue::Null));
    assert!(matches!(read_stored_value("true"), JsonValue::Bool(true)));
    assert!(matches!(read_stored_value("42"), JsonValue::Integer(42)));
    assert!(matches!(read_stored_value("0"), JsonValue::Integer(0)));
    assert!(matches!(read_stored_value("-42"), JsonValue::Integer(-42)));
    assert!(matches!(
        read_stored_value("18446744073709551615"),
        JsonValue::Integer(18446744073709551615)
    ));
    assert!(matches!(
        read_stored_value("-9223372036854775808"),
        JsonValue::Integer(-9223372036854775808)
    ));
    assert!(matches!(read_stored_value("1.5"), JsonValue::OtherNumber));
    assert!(matches!(read_stored_value("18446744073709551616"), JsonValue::OtherNumber));
    assert!(matches!(read_stored_value("[1, 2]"), JsonValue::Array));
    assert!(matches!(read_stored_value("{\"a\": 1}"), JsonValue::Object));
    match read_stored_value("\"a\\nb\"") {
        JsonValue::Text(t) => assert_eq!(t, "a\nb"),
        other => panic!("unexpected value {:?}", other),
    }
}

#[test]
fn integers_are_built_as_they_are_read() {
    assert!(matches!(JsonValue::from_u64(7), JsonValue::Integer(7)));
    assert!(matches!(
        JsonValue::from_u64(u64::MAX),
        JsonValue::Integer(18446744073709551615)
    ));
    assert!(matches!(JsonValue::from_i64(7), JsonValue::Integer(7)));
    assert!(matches!(JsonValue::from_i64(-7), JsonValue::Integer(-7)));
}

#[test]
fn integers_beyond_64_bits_are_no_setting() {
    assert_eq!(as_u64(&JsonValue::Integer(1 << 64)), None);
    assert_eq!(as_i64(&JsonValue::Integer(1 << 64)), None);
    assert_eq!(as_i64(&JsonValue::Integer(-(1 << 63) - 1)), None);
    assert_eq!(as_i64(&JsonValue::Integer(-(1 << 63))), Some(i64::MIN));
    assert_eq!(as_u64(&JsonValue::Integer(-1)), None);
}

#[test]
fn text_that_is_no_json_reads_as_null() {
    assert!(matches!(read_stored_value(""), JsonValue::Null));
    assert!(matches!(read_stored_value("nul"), JsonValue::Null));
    assert!(matches!(read_stored_value("42 43"), JsonValue::Null));
}

#[test]
fn integers_are_read_as_far_as_they_fit() {
    assert_eq!(as_u64(&JsonValue::from_u64(7)), Some(7));
    assert_eq!(as_u64(&JsonValue::from_i64(-7)), None);
    assert_eq!(as_u64(&JsonValue::from_i64(7)), Some(7));
    assert_eq!(as_u64(&JsonValue::OtherNumber), None);
    assert_eq!(as_i64(&JsonValue::from_u64(7)), Some(7));
    assert_eq!(as_i64(&JsonValue::from_u64(i64::MAX as u64)), Some(i64::MAX));
    assert_eq!(as_i64(&JsonValue::from_u64(i64::MAX as u64 + 1)), None);
    assert_eq!(as_i64(&JsonValue::from_i64(-7)), Some(-7));
    assert_eq!(as_i64(&JsonValue::Bool(true)), None);
}
