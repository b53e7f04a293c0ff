use clipit::item::ClipboardItem;
use clipit::settings::Settings;
use clipit::storage::{SettingEntry, Storage, StorageError};

fn visible_ids(storage: &Storage) -> Vec<i64> {
    storage.items().iter().filter(|it| !it.deleted).map(|it| it.id).collect()
}

fn plain_row(id: i64, created_at: i64, fingerprint: &str) -> ClipboardItem {
    ClipboardItem {
        id,
        created_at,
        kind: "text".to_string(),
        text: Some(format!("row {}", id)),
        image_rgba: None,
        image_width: None,
        image_height: None,
        fingerprint: fingerprint.to_string(),
        favorite: false,
        pinned: false,
        deleted: false,
    }
}

#[test]
fn search_filter_favorites_and_pinned() {
    let mut storage = Storage::new();
    let a = storage
        .insert_item("text", Some("alpha"), "fp-a", None, None, None)
        .expect("insert a");
    let b = storage
        .insert_item("text", Some("beta"), "fp-b", None, None, None)
        .expect("insert b");

    storage.set_favorite(a, true);
    storage.pin_item(b, true);

    let fav = storage.search_items("", 50, 0, "favorites");
    assert_eq!(fav.items.len(), 1);
    assert_eq!(fav.items[0].id, a);

    let pinned = storage.search_items("", 50, 0, "pinned");
    assert_eq!(pinned.items.len(), 1);
    assert_eq!(pinned.items[0].id, b);
}

#[test]
fn ids_start_at_one_and_count_up() {
    let mut storage = Storage::new();
    assert_eq!(storage.insert_item_at(5, "text", Some("a"), "fa", None, None, None), Ok(1));
    assert_eq!(storage.insert_item_at(5, "text", Some("b"), "fb", None, None, None), Ok(2));
    assert_eq!(storage.insert_item_at(4, "text", Some("c"), "fc", None, None, None), Ok(3));
    let row = &storage.items()[2];
    assert_eq!(row.created_at, 4);
    assert_eq!(row.kind, "text");
    assert_eq!(row.text.as_deref(), Some("c"));
    assert_eq!(row.fingerprint, "fc");
    assert!(!row.favorite && !row.pinned && !row.deleted);
}

#[test]
fn insert_fails_when_ids_are_used_up() {
    let rows = vec![plain_row(i64::MAX, 1, "last")];
    let mut storage = Storage::restore(rows, Vec::new()).expect("restore");
    assert_eq!(
        storage.insert_item_at(2, "text", Some("x"), "fx", None, None, None),
        Err(StorageError::IdsExhausted)
    );
    assert_eq!(storage.items().len(), 1);
}

#[test]
fn last_fingerprint_returns_what_was_inserted() {
    let mut storage = Storage::new();
    assert_eq!(storage.last_fingerprint(), None);
    storage.insert_item_at(10, "text", Some("a"), "fp-1", None, None, None).expect("insert");
    assert_eq!(storage.last_fingerprint().as_deref(), Some("fp-1"));
    storage.insert_item_at(10, "file", Some("/b"), "fp-2", None, None, None).expect("insert");
    assert_eq!(storage.last_fingerprint().as_deref(), Some("fp-2"));
    storage.insert_item("text", Some("c"), "fp-3", None, None, None).expect("insert");
    assert_eq!(storage.last_fingerprint().as_deref(), Some("fp-3"));
}

#[test]
fn last_fingerprint_after_a_clock_read_insert() {
    let mut storage = Storage::new();
    storage.insert_item("text", Some("a"), "fp-a", None, None, None).expect("insert");
    assert_eq!(storage.last_fingerprint().as_deref(), Some("fp-a"));
    storage.insert_item("text", Some("b"), "fp-b", None, None, None).expect("insert");
    assert_eq!(storage.last_fingerprint().as_deref(), Some("fp-b"));
    assert!(storage.items()[0].created_at > 1_600_000_000_000);
}

#[test]
fn last_fingerprint_goes_by_what_was_stored_last_not_by_the_clock() {
    let mut storage = Storage::new();
    storage.insert_item_at(10, "text", Some("a"), "fp-a", None, None, None).unwrap();
    storage.insert_item_at(5, "text", Some("b"), "fp-b", None, None, None).unwrap();
    assert_eq!(storage.last_fingerprint().as_deref(), Some("fp-b"));
    storage.insert_item_at(i64::MIN, "text", Some("c"), "fp-c", None, None, None).unwrap();
    assert_eq!(storage.last_fingerprint().as_deref(), Some("fp-c"));
}

#[test]
fn last_fingerprint_skips_deleted_rows() {
    let mut storage = Storage::new();
    let a = storage.insert_item_at(30, "text", Some("a"), "fp-a", None, None, None).unwrap();
    let b = storage.insert_item_at(20, "text", Some("b"), "fp-b", None, None, None).unwrap();
    let c = storage.insert_item_at(40, "text", Some("c"), "fp-c", None, None, None).unwrap();
    assert_eq!(storage.last_fingerprint().as_deref(), Some("fp-c"));
    storage.delete_item(c);
    assert_eq!(storage.last_fingerprint().as_deref(), Some("fp-b"));
    storage.delete_item(b);
    assert_eq!(storage.last_fingerprint().as_deref(), Some("fp-a"));
    storage.delete_item(a);
    assert_eq!(storage.last_fingerprint(), None);
}

#[test]
fn last_fingerprint_is_the_inserted_one_whatever_the_store_held() {
    let rows = vec![plain_row(3, 900, "old"), plain_row(9, 5000, "pinned")];
    let mut storage = Storage::restore(rows, Vec::new()).expect("restore");
    storage.pin_item(9, true);
    storage.delete_item(3);
    storage.insert_item_at(1, "image", None, "fp-new", Some(&[0u8; 4]), Some(1), Some(1)).unwrap();
    assert_eq!(storage.last_fingerprint().as_deref(), Some("fp-new"));
}

#[test]
fn retention_keeps_the_newest_and_evicts_the_oldest_first() {
    let max_items = 10;
    let extra = 4;
    let mut storage = Storage::new();
    for i in 0..(max_items + extra) {
        let fp = format!("fp-{}", i);
        storage.insert_item_at(100 + i, "text", Some("t"), &fp, None, None, None).unwrap();
        storage.enforce_max_items(max_items);
    }
    let expected: Vec<i64> = ((extra + 1)..=(max_items + extra)).collect();
    assert_eq!(visible_ids(&storage), expected);
    assert_eq!(storage.items().len() as i64, max_items + extra);
}

#[test]
fn retention_in_one_go_keeps_the_newest_by_time() {
    let mut storage = Storage::new();
    let stamps = [50, 10, 40, 20, 30];
    for (i, t) in stamps.iter().enumerate() {
        let fp = format!("fp-{}", i);
        storage.insert_item_at(*t, "text", Some("t"), &fp, None, None, None).unwrap();
    }
    storage.enforce_max_items(2);
    assert_eq!(visible_ids(&storage), vec![1, 3]);
}

#[test]
fn retention_breaks_ties_in_favour_of_the_later_insert() {
    let mut storage = Storage::new();
    for i in 0..3 {
        let fp = format!("fp-{}", i);
        storage.insert_item_at(7, "text", Some("t"), &fp, None, None, None).unwrap();
    }
    storage.enforce_max_items(1);
    assert_eq!(visible_ids(&storage), vec![3]);
}

#[test]
fn retention_never_evicts_pinned_or_favorited_items() {
    let mut storage = Storage::new();
    let pinned = storage.insert_item_at(1, "text", Some("p"), "fp-p", None, None, None).unwrap();
    let fav = storage.insert_item_at(2, "text", Some("f"), "fp-f", None, None, None).unwrap();
    storage.pin_item(pinned, true);
    storage.set_favorite(fav, true);
    for i in 0..25 {
        let fp = format!("fp-{}", i);
        storage.insert_item_at(10 + i, "text", Some("t"), &fp, None, None, None).unwrap();
        storage.enforce_max_items(10);
    }
    let visible = visible_ids(&storage);
    assert!(visible.contains(&pinned));
    assert!(visible.contains(&fav));
    assert_eq!(visible.len(), 12);
    assert_eq!(&visible[2..], &(18..=27).collect::<Vec<i64>>()[..]);
}

#[test]
fn retention_with_a_limit_of_zero_or_less_does_nothing() {
    let mut storage = Storage::new();
    for i in 0..5 {
        storage.insert_item_at(i, "text", Some("t"), "fp", None, None, None).unwrap();
    }
    storage.enforce_max_items(0);
    assert_eq!(visible_ids(&storage).len(), 5);
    storage.enforce_max_items(-3);
    assert_eq!(visible_ids(&storage).len(), 5);
}

#[test]
fn deleting_and_clearing_only_set_the_flag() {
    let mut storage = Storage::new();
    let a = storage.insert_item_at(1, "text", Some("a"), "fa", None, None, None).unwrap();
    let b = storage.insert_item_at(2, "text", Some("b"), "fb", None, None, None).unwrap();
    let c = storage.insert_item_at(3, "text", Some("c"), "fc", None, None, None).unwrap();
    let d = storage.insert_item_at(4, "text", Some("d"), "fd", None, None, None).unwrap();
    storage.pin_item(b, true);
    storage.set_favorite(c, true);
    storage.delete_item(a);
    storage.delete_item(a);
    storage.delete_item(999);
    assert_eq!(visible_ids(&storage), vec![b, c, d]);
    storage.clear_history();
    assert_eq!(visible_ids(&storage), vec![b, c]);
    storage.clear_history();
    assert_eq!(visible_ids(&storage), vec![b, c]);
    storage.clear_all_history();
    assert_eq!(visible_ids(&storage), Vec::<i64>::new());
    assert_eq!(storage.items().len(), 4);
    assert!(storage.items()[1].pinned);
    assert!(storage.items()[2].favorite);
}

#[test]
fn flags_can_be_set_and_cleared() {
    let mut storage = Storage::new();
    let a = storage.insert_item_at(1, "text", Some("a"), "fa", None, None, None).unwrap();
    storage.set_favorite(a, true);
    storage.pin_item(a, true);
    assert!(storage.items()[0].favorite && storage.items()[0].pinned);
    storage.set_favorite(a, false);
    assert!(!storage.items()[0].favorite && storage.items()[0].pinned);
    storage.pin_item(a, false);
    assert!(!storage.items()[0].favorite && !storage.items()[0].pinned);
}

#[test]
fn payload_and_preview_of_a_text_item() {
    let mut storage = Storage::new();
    let a = storage.insert_item_at(1, "text", Some("hello"), "fa", None, None, None).unwrap();
    let payload = storage.get_item_clipboard_payload(a).expect("payload");
    assert_eq!(payload.kind, "text");
    assert_eq!(payload.text.as_deref(), Some("hello"));
    assert_eq!(payload.image_rgba, None);
    let preview = storage.get_item_preview(a).expect("preview");
    assert_eq!(preview.kind, "text");
    assert_eq!(preview.text, "hello");
}

#[test]
fn payload_and_preview_of_an_image_item() {
    let mut storage = Storage::new();
    let pixels = [9u8, 8, 7, 6];
    let a = storage
        .insert_item_at(1, "image", None, "fi", Some(&pixels), Some(1), Some(1))
        .unwrap();
    let payload = storage.get_item_clipboard_payload(a).expect("payload");
    assert_eq!(payload.kind, "image");
    assert_eq!(payload.text, None);
    assert_eq!(payload.image_rgba.as_deref(), Some(&pixels[..]));
    assert_eq!(payload.image_width, Some(1));
    assert_eq!(payload.image_height, Some(1));
    let preview = storage.get_item_preview(a).expect("preview");
    assert_eq!(preview.text, "");
    assert_eq!(preview.image_rgba.as_deref(), Some(&pixels[..]));
}

#[test]
fn deleted_and_unknown_items_are_not_found() {
    let mut storage = Storage::new();
    let a = storage.insert_item_at(1, "text", Some("hello"), "fa", None, None, None).unwrap();
    storage.delete_item(a);
    assert!(storage.get_item_clipboard_payload(a).is_none());
    assert!(storage.get_item_preview(a).is_none());
    assert!(storage.get_item_clipboard_payload(77).is_none());
    assert!(storage.get_item_preview(77).is_none());
}

#[test]
fn search_clamps_the_limit_to_200() {
    let mut storage = Storage::new();
    for i in 0..250 {
        storage.insert_item_at(i, "text", Some("t"), "fp", None, None, None).unwrap();
    }
    let resp = storage.search_items("", 500, 0, "all");
    assert_eq!(resp.items.len(), 200);
    assert_eq!(resp.total, 250);
    assert_eq!(resp.items[0].id, 250);
    assert_eq!(resp.items[199].id, 51);
}

#[test]
fn search_raises_a_limit_of_zero_to_one() {
    let mut storage = Storage::new();
    for i in 0..3 {
        storage.insert_item_at(i, "text", Some("t"), "fp", None, None, None).unwrap();
    }
    let resp = storage.search_items("", 0, 0, "all");
    assert_eq!(resp.items.len(), 1);
    assert_eq!(resp.total, 3);
}

#[test]
fn search_pages_by_offset() {
    let mut storage = Storage::new();
    for i in 0..7 {
        storage.insert_item_at(i, "text", Some("t"), "fp", None, None, None).unwrap();
    }
    let ids = |resp: clipit::search::SearchResponse| -> Vec<i64> {
        resp.items.iter().map(|it| it.id).collect()
    };
    assert_eq!(ids(storage.search_items("", 3, 0, "all")), vec![7, 6, 5]);
    assert_eq!(ids(storage.search_items("", 3, 3, "all")), vec![4, 3, 2]);
    assert_eq!(ids(storage.search_items("", 3, 6, "all")), vec![1]);
    assert_eq!(ids(storage.search_items("", 3, 7, "all")), Vec::<i64>::new());
    assert_eq!(ids(storage.search_items("", 3, u32::MAX, "all")), Vec::<i64>::new());
    assert_eq!(storage.search_items("", 3, 100, "all").total, 7);
}

#[test]
fn search_lists_pinned_then_favorites_then_newest() {
    let mut storage = Storage::new();
    let a = storage.insert_item_at(10, "text", Some("a"), "fa", None, None, None).unwrap();
    let b = storage.insert_item_at(20, "text", Some("b"), "fb", None, None, None).unwrap();
    let c = storage.insert_item_at(30, "text", Some("c"), "fc", None, None, None).unwrap();
    let d = storage.insert_item_at(40, "text", Some("d"), "fd", None, None, None).unwrap();
    let e = storage.insert_item_at(50, "text", Some("e"), "fe", None, None, None).unwrap();
    let f = storage.insert_item_at(60, "text", Some("f"), "ff", None, None, None).unwrap();
    storage.pin_item(a, true);
    storage.set_favorite(b, true);
    storage.pin_item(c, true);
    storage.set_favorite(c, true);
    storage.set_favorite(d, true);
    storage.delete_item(f);
    let resp = storage.search_items("", 50, 0, "all");
    let ids: Vec<i64> = resp.items.iter().map(|it| it.id).collect();
    assert_eq!(ids, vec![c, a, d, b, e]);
    assert_eq!(resp.total, 5);
    let pinned = storage.search_items("", 50, 0, "pinned");
    let ids: Vec<i64> = pinned.items.iter().map(|it| it.id).collect();
    assert_eq!(ids, vec![c, a]);
    assert!(pinned.items.iter().all(|it| it.pinned));
    let favorites = storage.search_items("", 50, 0, "favorites");
    let ids: Vec<i64> = favorites.items.iter().map(|it| it.id).collect();
    assert_eq!(ids, vec![c, d, b]);
}

#[test]
fn search_treats_an_unknown_filter_as_all() {
    let mut storage = Storage::new();
    storage.insert_item_at(1, "text", Some("a"), "fa", None, None, None).unwrap();
    storage.insert_item_at(2, "text", Some("b"), "fb", None, None, None).unwrap();
    assert_eq!(storage.search_items("", 50, 0, "starred").items.len(), 2);
    assert_eq!(storage.search_items("", 50, 0, "").items.len(), 2);
    assert_eq!(storage.search_items("", 50, 0, "Pinned").items.len(), 2);
}

#[test]
fn search_matches_words_by_prefix() {
    let mut storage = Storage::new();
    let a = storage
        .insert_item_at(1, "text", Some("Hello wonderful world"), "fa", None, None, None)
        .unwrap();
    let b = storage.insert_item_at(2, "text", Some("shell script"), "fb", None, None, None).unwrap();
    let c = storage.insert_item_at(3, "text", Some("won-der"), "fc", None, None, None).unwrap();
    let ids = |q: &str| -> Vec<i64> {
        storage.search_items(q, 50, 0, "all").items.iter().map(|it| it.id).collect()
    };
    assert_eq!(ids("won"), vec![c, a]);
    assert_eq!(ids("hell"), vec![a]);
    assert_eq!(ids("HELLO"), vec![a]);
    assert_eq!(ids("ell"), Vec::<i64>::new());
    assert_eq!(ids("wonderful wor"), vec![a]);
    assert_eq!(ids("wor hel"), vec![a]);
    assert_eq!(ids("sh helix"), Vec::<i64>::new());
    assert_eq!(ids("  script  "), vec![b]);
    assert_eq!(ids("der"), vec![c]);
    assert_eq!(ids("   "), vec![c, b, a]);
    assert_eq!(ids("!?"), Vec::<i64>::new());
    assert_eq!(storage.search_items("won", 1, 0, "all").total, 2);
}

#[test]
fn search_matches_a_term_with_punctuation_as_a_phrase() {
    let mut storage = Storage::new();
    let texts = [
        "b a",
        "a b",
        "see a-b here",
        "a bc",
        "ab",
        "my foo.txt file",
        "txt foo",
        "fool txt",
        "foo, TXTs",
    ];
    for (i, text) in texts.iter().enumerate() {
        storage.insert_item_at(i as i64, "text", Some(text), "fp", None, None, None).unwrap();
    }
    let ids = |q: &str| -> Vec<i64> {
        let mut v: Vec<i64> =
            storage.search_items(q, 50, 0, "all").items.iter().map(|it| it.id).collect();
        v.sort();
        v
    };
    assert_eq!(ids("a-b"), vec![2, 3, 4]);
    assert_eq!(ids("b-a"), vec![1]);
    assert_eq!(ids("a b"), vec![1, 2, 3, 4]);
    assert_eq!(ids("foo.txt"), vec![6, 9]);
    assert_eq!(ids("FOO.TXT"), vec![6, 9]);
    assert_eq!(ids("txt.foo"), vec![7]);
    assert_eq!(ids("foo.txt my"), vec![6]);
    assert_eq!(ids("foo.txt -"), Vec::<i64>::new());
    assert_eq!(ids("a-b-c"), Vec::<i64>::new());
}

#[test]
fn search_with_a_query_respects_filter_and_deletion() {
    let mut storage = Storage::new();
    let a = storage.insert_item_at(1, "text", Some("apple pie"), "fa", None, None, None).unwrap();
    let b = storage.insert_item_at(2, "text", Some("apple tart"), "fb", None, None, None).unwrap();
    let c = storage.insert_item_at(3, "text", Some("apple cake"), "fc", None, None, None).unwrap();
    storage.pin_item(a, true);
    storage.delete_item(c);
    let all = storage.search_items("apple", 50, 0, "all");
    let ids: Vec<i64> = all.items.iter().map(|it| it.id).collect();
    assert_eq!(ids, vec![a, b]);
    let pinned = storage.search_items("apple", 50, 0, "pinned");
    let ids: Vec<i64> = pinned.items.iter().map(|it| it.id).collect();
    assert_eq!(ids, vec![a]);
    assert_eq!(pinned.total, 1);
}

#[test]
fn search_items_carry_the_row_and_a_preview() {
    let mut storage = Storage::new();
    let pixels = [0u8; 4];
    storage.insert_item_at(5, "text", Some("line one\nline two"), "fa", None, None, None).unwrap();
    storage.insert_item_at(6, "image", None, "fi", Some(&pixels), Some(1), Some(1)).unwrap();
    let resp = storage.search_items("", 50, 0, "all");
    assert_eq!(resp.items[0].kind, "image");
    assert_eq!(resp.items[0].text, "");
    assert_eq!(resp.items[0].preview_text, "Image");
    assert_eq!(resp.items[0].image_width, Some(1));
    assert_eq!(resp.items[0].image_height, Some(1));
    assert_eq!(resp.items[1].created_at, 5);
    assert_eq!(resp.items[1].text, "line one\nline two");
    assert_eq!(resp.items[1].preview_text, "line one line two");
    assert!(!resp.items[1].favorite && !resp.items[1].pinned);
}

#[test]
fn settings_load_as_defaults_when_nothing_is_stored() {
    let storage = Storage::new();
    let s = storage.load_settings(Settings::platform_default(false));
    assert_eq!(s.hotkey, "Ctrl+Shift+P");
    assert!(s.blur_close);
    assert_eq!(s.polling_interval_ms, 400);
    assert!(s.capture_enabled);
    assert_eq!(s.max_items, 15);
    assert_eq!(s.window_opacity, 78);
    assert!(s.colored_icons);
}

#[test]
fn stored_settings_overlay_the_defaults() {
    let mut storage = Storage::new();
    storage.upsert_setting("max_items", "50");
    storage.upsert_setting("hotkey", "\"Alt+V\"");
    storage.upsert_setting("blur_close", "false");
    storage.upsert_setting("unknown_key", "[1,2]");
    storage.upsert_setting("window_opacity", "not json at all");
    storage.upsert_setting("polling_interval_ms", "\"fast\"");
    let s = storage.load_settings(Settings::platform_default(true));
    assert_eq!(s.max_items, 50);
    assert_eq!(s.hotkey, "Alt+V");
    assert!(!s.blur_close);
    assert_eq!(s.window_opacity, 78);
    assert_eq!(s.polling_interval_ms, 400);
    assert!(s.capture_enabled);
}

#[test]
fn upsert_overwrites_the_value_of_a_key() {
    let mut storage = Storage::new();
    storage.upsert_setting("max_items", "50");
    storage.upsert_setting("blur_close", "false");
    storage.upsert_setting("max_items", "70");
    let entries = storage.setting_entries();
    assert_eq!(entries.len(), 2);
    assert_eq!(entries[0].key, "max_items");
    assert_eq!(entries[0].value_json, "70");
    assert_eq!(entries[1].key, "blur_close");
    assert_eq!(storage.load_settings(Settings::platform_default(false)).max_items, 70);
}

#[test]
fn restore_takes_rows_with_increasing_ids() {
    let rows = vec![plain_row(2, 10, "a"), plain_row(5, 9, "b"), plain_row(6, 11, "c")];
    let entries = vec![
        SettingEntry { key: "max_items".to_string(), value_json: "20".to_string() },
        SettingEntry { key: "hotkey".to_string(), value_json: "\"Ctrl+J\"".to_string() },
    ];
    let mut storage = Storage::restore(rows, entries).expect("restore");
    assert_eq!(storage.last_fingerprint().as_deref(), Some("c"));
    assert_eq!(storage.insert_item_at(12, "text", Some("d"), "d", None, None, None), Ok(7));
    assert_eq!(storage.load_settings(Settings::platform_default(false)).max_items, 20);
}

#[test]
fn restore_refuses_repeated_or_descending_ids_and_repeated_keys() {
    assert!(Storage::restore(vec![plain_row(1, 1, "a"), plain_row(1, 2, "b")], Vec::new()).is_none());
    assert!(Storage::restore(vec![plain_row(3, 1, "a"), plain_row(2, 2, "b")], Vec::new()).is_none());
    let entries = vec![
        SettingEntry { key: "k".to_string(), value_json: "1".to_string() },
        SettingEntry { key: "k".to_string(), value_json: "2".to_string() },
    ];
    assert!(Storage::restore(Vec::new(), entries).is_none());
}
