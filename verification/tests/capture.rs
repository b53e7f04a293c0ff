use clipit::capture::{
    acquire_payload, capture_once, choose_payload, echoes, file_payload, image_payload,
    join_file_paths, may_capture, notification_text, process_capture, text_candidate,
    text_payload, wants_image, CaptureOutcome, ClipboardImage, ClipboardReading, LastWritten,
};
use clipit::fingerprint::{image_fingerprint, tagged_fingerprint};
use clipit::item::ClipboardItem;
use clipit::settings::Settings;
use clipit::storage::Storage;

fn text_reading(text: &str) -> ClipboardReading {
    ClipboardReading { files: None, text: Some(text.to_string()), image: None }
}

fn visible(storage: &Storage) -> usize {
    storage.items().iter().filter(|it| !it.deleted).count()
}

#[test]
fn two_captures_of_the_same_text_store_one_row() {
    let mut storage = Storage::new();
    let settings = Settings::platform_default(false);
    let first = capture_once(&mut storage, &settings, false, &None, text_reading("hello"), 1000);
    assert!(matches!(first, CaptureOutcome::Stored(_)));
    let second =
        capture_once(&mut storage, &settings, false, &None, text_reading("\nhello\0\r\n"), 1500);
    assert!(matches!(second, CaptureOutcome::Duplicate));
    assert_eq!(storage.items().len(), 1);
}

#[test]
fn only_the_last_item_counts_as_a_duplicate() {
    let mut storage = Storage::new();
    let settings = Settings::platform_default(false);
    for (i, text) in ["alpha", "beta", "alpha"].iter().enumerate() {
        let outcome =
            capture_once(&mut storage, &settings, false, &None, text_reading(text), 10 + i as i64);
        assert!(matches!(outcome, CaptureOutcome::Stored(_)));
    }
    assert_eq!(storage.items().len(), 3);
}

#[test]
fn own_write_is_discarded_within_the_window_and_accepted_after_it() {
    let written_at = 50_000;
    let fingerprint = tagged_fingerprint("text", "restored");
    let last = Some(LastWritten { fingerprint, written_at_ms: written_at });
    let settings = Settings::platform_default(false);

    let mut storage = Storage::new();
    let soon = capture_once(
        &mut storage,
        &settings,
        false,
        &last,
        text_reading("restored"),
        written_at + 1000,
    );
    assert!(matches!(soon, CaptureOutcome::Echo));
    assert_eq!(storage.items().len(), 0);

    let later = capture_once(
        &mut storage,
        &settings,
        false,
        &last,
        text_reading("restored"),
        written_at + 3000,
    );
    assert!(matches!(later, CaptureOutcome::Stored(_)));
    assert_eq!(storage.items().len(), 1);
}

#[test]
fn the_echo_window_is_2000_ms_exclusive() {
    let last = Some(LastWritten { fingerprint: "fp".to_string(), written_at_ms: 10 });
    assert!(echoes(&last, "fp", 10));
    assert!(echoes(&last, "fp", 2009));
    assert!(!echoes(&last, "fp", 2010));
    assert!(!echoes(&last, "other", 11));
    assert!(echoes(&last, "fp", 5));
    assert!(!echoes(&None, "fp", 11));
    let far = Some(LastWritten { fingerprint: "fp".to_string(), written_at_ms: i64::MIN });
    assert!(!echoes(&far, "fp", i64::MAX));
    let ahead = Some(LastWritten { fingerprint: "fp".to_string(), written_at_ms: i64::MAX });
    assert!(echoes(&ahead, "fp", i64::MIN));
}

#[test]
fn nothing_is_captured_while_disabled_or_paused() {
    let mut storage = Storage::new();
    let mut settings = Settings::platform_default(false);
    let paused = capture_once(&mut storage, &settings, true, &None, text_reading("a"), 1);
    assert!(matches!(paused, CaptureOutcome::Disabled));
    settings.capture_enabled = false;
    let disabled = capture_once(&mut storage, &settings, false, &None, text_reading("a"), 2);
    assert!(matches!(disabled, CaptureOutcome::Disabled));
    assert_eq!(storage.items().len(), 0);
}

#[test]
fn an_empty_clipboard_captures_nothing() {
    let mut storage = Storage::new();
    let settings = Settings::platform_default(false);
    let empty = ClipboardReading { files: None, text: None, image: None };
    assert!(matches!(
        capture_once(&mut storage, &settings, false, &None, empty, 1),
        CaptureOutcome::Nothing
    ));
    let blank = text_reading("\r\n\0\n");
    assert!(matches!(
        capture_once(&mut storage, &settings, false, &None, blank, 2),
        CaptureOutcome::Nothing
    ));
    assert_eq!(storage.items().len(), 0);
}

#[test]
fn a_stored_capture_reports_the_new_item() {
    let mut storage = Storage::new();
    let settings = Settings::platform_default(false);
    let outcome =
        capture_once(&mut storage, &settings, false, &None, text_reading("first\nsecond"), 77);
    match outcome {
        CaptureOutcome::Stored(event) => {
            assert_eq!(event.id, 1);
            assert_eq!(event.created_at, 77);
            assert!(!event.pinned);
            assert_eq!(event.preview_text, "first second");
        }
        other => panic!("unexpected outcome {:?}", other),
    }
    let row = &storage.items()[0];
    assert_eq!(row.kind, "text");
    assert_eq!(row.text.as_deref(), Some("first\nsecond"));
    assert_eq!(row.created_at, 77);
    assert_eq!(row.fingerprint, tagged_fingerprint("text", "first\nsecond"));
}

#[test]
fn capture_applies_retention_with_the_current_limit() {
    let mut storage = Storage::new();
    let mut settings = Settings::platform_default(false);
    settings.max_items = 10;
    for i in 0..13 {
        let text = format!("text {}", i);
        let outcome =
            capture_once(&mut storage, &settings, false, &None, text_reading(&text), 100 + i);
        assert!(matches!(outcome, CaptureOutcome::Stored(_)));
    }
    assert_eq!(storage.items().len(), 13);
    assert_eq!(visible(&storage), 10);
    assert!(storage.items()[..3].iter().all(|it| it.deleted));
}

#[test]
fn a_native_file_list_wins_over_text_and_image() {
    let image = ClipboardImage { width: 1, height: 1, bytes: vec![0, 0, 0, 0] };
    let reading = ClipboardReading {
        files: Some("/a/b\n/c".to_string()),
        text: Some("plain words".to_string()),
        image: Some(image),
    };
    let payload = acquire_payload(reading).expect("payload");
    assert_eq!(payload.kind, "file");
    assert_eq!(payload.text.as_deref(), Some("/a/b\n/c"));
    assert_eq!(payload.fingerprint, tagged_fingerprint("file", "/a/b\n/c"));
    assert_eq!(payload.image_rgba, None);
}

#[test]
fn a_text_of_paths_is_taken_as_a_file_list() {
    let payload = acquire_payload(text_reading("\n/usr/local/bin\n~/notes.txt\n")).expect("payload");
    assert_eq!(payload.kind, "file");
    assert_eq!(payload.text.as_deref(), Some("/usr/local/bin\n~/notes.txt"));
    assert_eq!(payload.fingerprint, tagged_fingerprint("file", "/usr/local/bin\n~/notes.txt"));
}

#[test]
fn an_ordinary_text_is_taken_as_text() {
    let payload = acquire_payload(text_reading("some words that name no file")).expect("payload");
    assert_eq!(payload.kind, "text");
    assert_eq!(payload.fingerprint, tagged_fingerprint("text", "some words that name no file"));
}

#[test]
fn an_image_is_taken_when_there_is_no_text() {
    let pixels = vec![1u8, 2, 3, 4, 5, 6, 7, 8];
    let reading = ClipboardReading {
        files: None,
        text: Some("\n\n".to_string()),
        image: Some(ClipboardImage { width: 2, height: 1, bytes: pixels.clone() }),
    };
    let payload = acquire_payload(reading).expect("payload");
    assert_eq!(payload.kind, "image");
    assert_eq!(payload.text, None);
    assert_eq!(payload.image_rgba, Some(pixels.clone()));
    assert_eq!(payload.image_width, Some(2));
    assert_eq!(payload.image_height, Some(1));
    assert_eq!(payload.fingerprint, image_fingerprint(2, 1, &pixels));
}

#[test]
fn choose_payload_follows_the_verdict_on_the_text() {
    let as_file = choose_payload(None, Some("C:/x".to_string()), true, None).expect("payload");
    assert_eq!(as_file.kind, "file");
    let as_text = choose_payload(None, Some("C:/x".to_string()), false, None).expect("payload");
    assert_eq!(as_text.kind, "text");
    assert_ne!(as_file.fingerprint, as_text.fingerprint);
    assert!(choose_payload(None, None, true, None).is_none());
}

#[test]
fn payload_builders_fill_the_fields_of_their_kind() {
    let f = file_payload("/a".to_string());
    assert_eq!((f.kind.as_str(), f.text.as_deref()), ("file", Some("/a")));
    let t = text_payload("a".to_string());
    assert_eq!((t.kind.as_str(), t.text.as_deref()), ("text", Some("a")));
    let i = image_payload(ClipboardImage { width: 0, height: 0, bytes: Vec::new() }).expect("image");
    assert_eq!(i.kind, "image");
    assert_eq!(i.image_width, Some(0));
    assert_eq!(i.fingerprint, image_fingerprint(0, 0, &[]));
}

#[test]
fn text_candidate_is_the_normal_form_unless_empty() {
    assert_eq!(text_candidate(Some("\n a \n".to_string())).as_deref(), Some(" a "));
    assert_eq!(text_candidate(Some("\n\0\n".to_string())), None);
    assert_eq!(text_candidate(None), None);
}

#[test]
fn notification_text_depends_on_the_kind() {
    assert_eq!(notification_text("image", &None), "Image copied");
    assert_eq!(notification_text("image", &Some("ignored".to_string())), "Image copied");
    assert_eq!(notification_text("file", &Some("/a\n/b".to_string())), "/a\n/b");
    assert_eq!(notification_text("file", &None), "");
    assert_eq!(notification_text("text", &Some("a\r\nb".to_string())), "a  b");
    let long = "z".repeat(200);
    assert_eq!(notification_text("text", &Some(long)), "z".repeat(140));
}

#[test]
fn process_capture_stores_images_with_their_dimensions() {
    let mut storage = Storage::new();
    let pixels = vec![7u8; 16];
    let payload =
        image_payload(ClipboardImage { width: 2, height: 2, bytes: pixels.clone() }).expect("image");
    let outcome = process_capture(&mut storage, &None, 15, payload, 9);
    match outcome {
        CaptureOutcome::Stored(event) => assert_eq!(event.preview_text, "Image copied"),
        other => panic!("unexpected outcome {:?}", other),
    }
    let row = &storage.items()[0];
    assert_eq!(row.kind, "image");
    assert_eq!(row.text, None);
    assert_eq!(row.image_rgba.as_deref(), Some(&pixels[..]));
    assert_eq!((row.image_width, row.image_height), (Some(2), Some(2)));
}

#[test]
fn capturing_needs_the_switch_on_and_no_pause() {
    let mut settings = Settings::platform_default(false);
    assert!(may_capture(&settings, false));
    assert!(!may_capture(&settings, true));
    settings.capture_enabled = false;
    assert!(!may_capture(&settings, false));
    assert!(!may_capture(&settings, true));
}

#[test]
fn the_image_is_wanted_only_as_a_last_resort() {
    assert!(wants_image(&None, &None));
    assert!(wants_image(&None, &Some("\n\0".to_string())));
    assert!(!wants_image(&None, &Some("a".to_string())));
    assert!(!wants_image(&Some("/a".to_string()), &None));
    assert!(wants_image(&Some(String::new()), &None));
    assert!(!wants_image(&Some(String::new()), &Some("a".to_string())));
}

#[test]
fn an_empty_file_list_is_passed_over() {
    let reading = ClipboardReading {
        files: Some(String::new()),
        text: Some("just words, no path".to_string()),
        image: None,
    };
    let payload = acquire_payload(reading).expect("payload");
    assert_eq!(payload.kind, "text");
    assert_eq!(payload.text.as_deref(), Some("just words, no path"));
}

#[test]
fn a_store_without_ids_left_takes_nothing() {
    let last_row = ClipboardItem {
        id: i64::MAX,
        created_at: 1,
        kind: "text".to_string(),
        text: Some("last".to_string()),
        image_rgba: None,
        image_width: None,
        image_height: None,
        fingerprint: "fp-last".to_string(),
        favorite: false,
        pinned: false,
        deleted: false,
    };
    let mut storage = Storage::restore(vec![last_row], Vec::new()).expect("restore");
    let settings = Settings::platform_default(false);
    let outcome = capture_once(&mut storage, &settings, false, &None, text_reading("more"), 2);
    assert!(matches!(outcome, CaptureOutcome::Full));
    assert_eq!(storage.items().len(), 1);
}

#[test]
fn reported_paths_are_joined_one_per_line() {
    let paths = vec!["/a/b".to_string(), String::new(), "/c d".to_string(), String::new()];
    assert_eq!(join_file_paths(&paths).as_deref(), Some("/a/b\n/c d"));
    assert_eq!(join_file_paths(&vec!["/only".to_string()]).as_deref(), Some("/only"));
    let three = vec!["1".to_string(), "2".to_string(), "3".to_string()];
    assert_eq!(join_file_paths(&three).as_deref(), Some("1\n2\n3"));
}

#[test]
fn no_reported_path_gives_no_file_list() {
    assert_eq!(join_file_paths(&Vec::new()), None);
    assert_eq!(join_file_paths(&vec![String::new(), String::new()]), None);
}

#[test]
fn the_same_payload_is_stored_once_though_the_clock_stepped_back() {
    let mut storage = Storage::new();
    let settings = Settings::platform_default(false);
    capture_once(&mut storage, &settings, false, &None, text_reading("earlier"), 10);
    let first = capture_once(&mut storage, &settings, false, &None, text_reading("again"), 5);
    assert!(matches!(first, CaptureOutcome::Stored(_)));
    let second = capture_once(&mut storage, &settings, false, &None, text_reading("again"), 6);
    assert!(matches!(second, CaptureOutcome::Duplicate));
    assert_eq!(storage.items().len(), 2);
}
