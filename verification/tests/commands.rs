use clipit::capture::{capture_once, CaptureOutcome, ClipboardReading, LastWritten};
use clipit::commands::{
    plan_clipboard_write, record_write, resolve_item_path, set_setting, ClipboardWrite,
    OpenPathError, WriteError,
};
use clipit::fingerprint::{image_fingerprint, tagged_fingerprint};
use clipit::settings::Settings;
use clipit::storage::Storage;

#[test]
fn a_file_item_opens_its_first_path() {
    let mut storage = Storage::new();
    let id = storage
        .insert_item_at(1, "file", Some("\n  file:///tmp/My%20Folder/a.txt \n/second"), "f", None, None, None)
        .unwrap();
    assert_eq!(resolve_item_path(&storage, id), Ok("/tmp/My Folder/a.txt".to_string()));
}

#[test]
fn only_visible_file_items_with_a_path_can_be_opened() {
    let mut storage = Storage::new();
    let text = storage.insert_item_at(1, "text", Some("/tmp/a"), "t", None, None, None).unwrap();
    let blank = storage.insert_item_at(2, "file", Some(" \n\n"), "b", None, None, None).unwrap();
    let none = storage.insert_item_at(3, "file", None, "n", None, None, None).unwrap();
    let gone = storage.insert_item_at(4, "file", Some("/tmp/a"), "g", None, None, None).unwrap();
    storage.delete_item(gone);
    assert_eq!(resolve_item_path(&storage, text), Err(OpenPathError::NotAFile));
    assert_eq!(resolve_item_path(&storage, blank), Err(OpenPathError::EmptyPath));
    assert_eq!(resolve_item_path(&storage, none), Err(OpenPathError::EmptyPath));
    assert_eq!(resolve_item_path(&storage, gone), Err(OpenPathError::NotFound));
    assert_eq!(resolve_item_path(&storage, 99), Err(OpenPathError::NotFound));
}

#[test]
fn open_path_errors_have_messages() {
    assert_eq!(OpenPathError::NotFound.message(), "item not found");
    assert_eq!(OpenPathError::NotAFile.message(), "item is not a file/folder path");
    assert_eq!(OpenPathError::EmptyPath.message(), "empty file path");
}

#[test]
fn write_errors_have_messages() {
    assert_eq!(WriteError::NotFound.message(), "item not found");
    assert_eq!(WriteError::ImageMissing.message(), "image payload missing");
    assert_eq!(WriteError::WidthMissing.message(), "image width missing");
    assert_eq!(WriteError::HeightMissing.message(), "image height missing");
    assert_eq!(WriteError::BadDimensions.message(), "image dimensions out of range");
}

#[test]
fn a_text_item_is_written_back_normalized() {
    let mut storage = Storage::new();
    let id = storage.insert_item_at(1, "text", Some("\nhi\0 there\n"), "t", None, None, None).unwrap();
    match plan_clipboard_write(&storage, id) {
        Ok(ClipboardWrite::Text { text, fingerprint }) => {
            assert_eq!(text, "hi there");
            assert_eq!(fingerprint, tagged_fingerprint("text", "hi there"));
        }
        other => panic!("unexpected plan {:?}", other),
    }
}

#[test]
fn a_file_item_is_written_back_under_its_own_kind() {
    let mut storage = Storage::new();
    let id = storage.insert_item_at(1, "file", Some("/tmp/a"), "t", None, None, None).unwrap();
    match plan_clipboard_write(&storage, id) {
        Ok(ClipboardWrite::Text { text, fingerprint }) => {
            assert_eq!(text, "/tmp/a");
            assert_eq!(fingerprint, tagged_fingerprint("file", "/tmp/a"));
        }
        other => panic!("unexpected plan {:?}", other),
    }
}

#[test]
fn an_item_without_text_writes_nothing() {
    let mut storage = Storage::new();
    let blank = storage.insert_item_at(1, "text", Some("\n\0"), "t", None, None, None).unwrap();
    let none = storage.insert_item_at(2, "text", None, "n", None, None, None).unwrap();
    assert!(matches!(plan_clipboard_write(&storage, blank), Ok(ClipboardWrite::Nothing)));
    assert!(matches!(plan_clipboard_write(&storage, none), Ok(ClipboardWrite::Nothing)));
}

#[test]
fn an_image_item_is_written_back_with_its_dimensions() {
    let mut storage = Storage::new();
    let pixels = [5u8; 8];
    let id = storage.insert_item_at(1, "image", None, "i", Some(&pixels), Some(2), Some(1)).unwrap();
    match plan_clipboard_write(&storage, id) {
        Ok(ClipboardWrite::Image { rgba, width, height, fingerprint }) => {
            assert_eq!(rgba, pixels.to_vec());
            assert_eq!((width, height), (2, 1));
            assert_eq!(fingerprint, image_fingerprint(2, 1, &pixels));
        }
        other => panic!("unexpected plan {:?}", other),
    }
}

#[test]
fn an_incomplete_image_item_cannot_be_written_back() {
    let mut storage = Storage::new();
    let pixels = [5u8; 4];
    let no_pixels = storage.insert_item_at(1, "image", None, "a", None, Some(1), Some(1)).unwrap();
    let no_width = storage.insert_item_at(2, "image", None, "b", Some(&pixels), None, Some(1)).unwrap();
    let no_height = storage.insert_item_at(3, "image", None, "c", Some(&pixels), Some(1), None).unwrap();
    let negative = storage.insert_item_at(4, "image", None, "d", Some(&pixels), Some(-1), Some(1)).unwrap();
    let nothing = storage.insert_item_at(5, "image", None, "e", None, None, None).unwrap();
    let err = |id: i64| plan_clipboard_write(&storage, id).err();
    assert_eq!(err(no_pixels), Some(WriteError::ImageMissing));
    assert_eq!(err(no_width), Some(WriteError::WidthMissing));
    assert_eq!(err(no_height), Some(WriteError::HeightMissing));
    assert_eq!(err(negative), Some(WriteError::BadDimensions));
    assert_eq!(err(nothing), Some(WriteError::ImageMissing));
    assert_eq!(err(42), Some(WriteError::NotFound));
}

#[test]
fn a_write_is_recorded_with_its_time() {
    let mut last: Option<LastWritten> = None;
    record_write(&mut last, &ClipboardWrite::Nothing, 5);
    assert!(last.is_none());
    let write = ClipboardWrite::Text { text: "a".to_string(), fingerprint: "fp-a".to_string() };
    record_write(&mut last, &write, 6);
    let seen = last.clone().expect("recorded");
    assert_eq!((seen.fingerprint.as_str(), seen.written_at_ms), ("fp-a", 6));
    record_write(&mut last, &ClipboardWrite::Nothing, 7);
    assert_eq!(last.clone().expect("kept").written_at_ms, 6);
    let image = ClipboardWrite::Image {
        rgba: vec![0; 4],
        width: 1,
        height: 1,
        fingerprint: "fp-i".to_string(),
    };
    record_write(&mut last, &image, 8);
    let seen = last.expect("recorded");
    assert_eq!((seen.fingerprint.as_str(), seen.written_at_ms), ("fp-i", 8));
}

#[test]
fn a_written_item_is_not_captured_again_right_away() {
    let mut storage = Storage::new();
    let settings = Settings::platform_default(false);
    let reading = |t: &str| ClipboardReading { files: None, text: Some(t.to_string()), image: None };
    capture_once(&mut storage, &settings, false, &None, reading("old words"), 100);
    capture_once(&mut storage, &settings, false, &None, reading("new words"), 200);
    let write = plan_clipboard_write(&storage, 1).expect("plan");
    let mut last = None;
    record_write(&mut last, &write, 1_000);
    let echo = capture_once(&mut storage, &settings, false, &last, reading("old words"), 1_500);
    assert!(matches!(echo, CaptureOutcome::Echo));
    assert_eq!(storage.items().len(), 2);
    let later = capture_once(&mut storage, &settings, false, &last, reading("old words"), 3_000);
    assert!(matches!(later, CaptureOutcome::Stored(_)));
    assert_eq!(storage.items().len(), 3);
}

#[test]
fn a_changed_setting_is_applied_and_stored() {
    let mut storage = Storage::new();
    let mut settings = Settings::platform_default(false);
    assert!(!set_setting(&mut storage, &mut settings, "window_opacity", "90"));
    assert_eq!(settings.window_opacity, 90);
    assert!(set_setting(&mut storage, &mut settings, "hotkey", "\"Alt+Z\""));
    assert_eq!(settings.hotkey, "Alt+Z");
    assert!(!set_setting(&mut storage, &mut settings, "mystery", "{\"a\":1}"));
    let keys: Vec<&str> = storage.setting_entries().iter().map(|e| e.key.as_str()).collect();
    assert_eq!(keys, vec!["window_opacity", "hotkey", "mystery"]);
    assert_eq!(storage.setting_entries()[2].value_json, "{\"a\":1}");
    let loaded = storage.load_settings(Settings::platform_default(false));
    assert_eq!(loaded.window_opacity, 90);
    assert_eq!(loaded.hotkey, "Alt+Z");
}

#[test]
fn a_new_retention_limit_is_enforced_at_once() {
    let mut storage = Storage::new();
    let mut settings = Settings::platform_default(false);
    for i in 0..15 {
        storage.insert_item_at(i, "text", Some("t"), "fp", None, None, None).unwrap();
    }
    set_setting(&mut storage, &mut settings, "max_items", "3");
    assert_eq!(settings.max_items, 10);
    assert_eq!(storage.items().iter().filter(|it| !it.deleted).count(), 10);
    assert_eq!(storage.setting_entries()[0].value_json, "3");
    set_setting(&mut storage, &mut settings, "max_items", "\"many\"");
    assert_eq!(settings.max_items, 10);
}
