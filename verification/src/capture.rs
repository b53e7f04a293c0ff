//! The capture pipeline: from what was read off the clipboard to a stored
//! item or a reason for storing none.
//!
//! Reading the clipboard and sending notifications is the caller's part. The
//! decisions are made here: which payload is taken, whether it is the
//! application's own write coming back, whether it repeats the last stored
//! item, and what the store holds afterwards.

use vstd::prelude::*;
use vstd::string::StringExecFns;
use crate::events::ClipboardItemAddedEvent;
use crate::fingerprint::{
    fingerprint_of, image_fingerprint, image_preimage, tagged_fingerprint, tagged_preimage,
};
use crate::item::{
    ItemView, ids_increase, opt_bytes_view, opt_int_view, opt_str_view,
};
use crate::retention::after_retention;
use crate::settings::Settings;
use crate::storage::{Storage, fresh_row, last_fingerprint_of, next_id};
use crate::text::{
    flatten_newlines, is_file_kind, is_image_kind, is_possible_verdict, kind_file, kind_image,
    kind_text, looks_like_file_payload, normalize_text, normalized, push_char, PREVIEW_CHARS,
};

verus! {

/// The content that the application itself put on the clipboard last, and
/// when. Capture reads it to tell the application's write from a new copy.
#[derive(Debug, Clone)]
pub struct LastWritten {
    pub fingerprint: String,
    pub written_at_ms: i64,
}

/// For how long after a write the same content counts as the write coming
/// back, in milliseconds.
pub const ECHO_WINDOW_MS: i64 = 2000;

/// An image as read from the clipboard: RGBA bytes with their dimensions.
#[derive(Debug, Clone)]
pub struct ClipboardImage {
    pub width: usize,
    pub height: usize,
    pub bytes: Vec<u8>,
}

/// What one look at the clipboard found: a native file list, a text, an
/// image, each where the clipboard offered it.
#[derive(Debug, Clone)]
pub struct ClipboardReading {
    pub files: Option<String>,
    pub text: Option<String>,
    pub image: Option<ClipboardImage>,
}

/// A classified payload with its fingerprint, ready to be stored.
#[derive(Debug, Clone)]
pub struct CapturedPayload {
    pub kind: String,
    pub text: Option<String>,
    pub image_rgba: Option<Vec<u8>>,
    pub image_width: Option<i64>,
    pub image_height: Option<i64>,
    pub fingerprint: String,
}

/// The mathematical content of a payload.
pub struct PayloadView {
    pub kind: Seq<char>,
    pub text: Option<Seq<char>>,
    pub image_rgba: Option<Seq<u8>>,
    pub image_width: Option<int>,
    pub image_height: Option<int>,
    pub fingerprint: Seq<char>,
}

impl View for CapturedPayload {
    type V = PayloadView;

    open spec fn view(&self) -> PayloadView {
        PayloadView {
            kind: self.kind@,
            text: opt_str_view(self.text),
            image_rgba: opt_bytes_view(self.image_rgba),
            image_width: opt_int_view(self.image_width),
            image_height: opt_int_view(self.image_height),
            fingerprint: self.fingerprint@,
        }
    }
}

/// The content of an optional payload.
pub open spec fn opt_payload_view(p: Option<CapturedPayload>) -> Option<PayloadView> {
    match p {
        Some(c) => Some(c@),
        None => None,
    }
}

/// The payload for a list of file paths.
pub open spec fn file_payload_of(paths: Seq<char>) -> PayloadView {
    PayloadView {
        kind: kind_file(),
        text: Some(paths),
        image_rgba: None,
        image_width: None,
        image_height: None,
        fingerprint: fingerprint_of(tagged_preimage(kind_file(), paths)),
    }
}

/// The payload for a normalized text.
pub open spec fn text_payload_of(text: Seq<char>) -> PayloadView {
    PayloadView {
        kind: kind_text(),
        text: Some(text),
        image_rgba: None,
        image_width: None,
        image_height: None,
        fingerprint: fingerprint_of(tagged_preimage(kind_text(), text)),
    }
}

/// The payload for an image.
pub open spec fn image_payload_of(width: int, height: int, bytes: Seq<u8>) -> PayloadView {
    PayloadView {
        kind: kind_image(),
        text: None,
        image_rgba: Some(bytes),
        image_width: Some(width),
        image_height: Some(height),
        fingerprint: fingerprint_of(image_preimage(width as u64, height as u64, bytes)),
    }
}

/// The text that a raw clipboard text offers: its normal form, unless that
/// is empty.
pub open spec fn text_candidate_of(raw: Option<Seq<char>>) -> Option<Seq<char>> {
    match raw {
        Some(t) => if normalized(t).len() > 0 {
            Some(normalized(t))
        } else {
            None
        },
        None => None,
    }
}

/// The file list that a native reading offers: the list, unless it is
/// empty.
pub open spec fn file_candidate_of(files: Option<Seq<char>>) -> Option<Seq<char>> {
    match files {
        Some(paths) => if paths.len() > 0 {
            Some(paths)
        } else {
            None
        },
        None => None,
    }
}

/// Whether an image can be stored: both dimensions fit a signed 64-bit
/// integer.
pub open spec fn image_fits(width: int, height: int) -> bool {
    width <= i64::MAX && height <= i64::MAX
}

/// The payload that is taken from what the clipboard offers, empty offers
/// left out. A native file list comes first; then the text, as a file list
/// where it was judged to be one and as text otherwise; then the image.
/// Nothing is taken when nothing of these is on offer.
pub open spec fn chosen_payload(
    files: Option<Seq<char>>,
    candidate: Option<Seq<char>>,
    text_is_file: bool,
    image: Option<(int, int, Seq<u8>)>,
) -> Option<PayloadView> {
    match files {
        Some(paths) => Some(file_payload_of(paths)),
        None => match candidate {
            Some(t) => if text_is_file {
                Some(file_payload_of(t))
            } else {
                Some(text_payload_of(t))
            },
            None => match image {
                Some(img) => if image_fits(img.0, img.1) {
                    Some(image_payload_of(img.0, img.1, img.2))
                } else {
                    None
                },
                None => None,
            },
        },
    }
}

/// The content of an optional clipboard image.
pub open spec fn opt_image_view(image: Option<ClipboardImage>) -> Option<(int, int, Seq<u8>)> {
    match image {
        Some(img) => Some((img.width as int, img.height as int, img.bytes@)),
        None => None,
    }
}

/// What the file heuristic may answer for a text: the verdict of the rule
/// `is_file_list` on the lines of the text, for some way in which the file
/// system may have answered about them.
pub open spec fn verdict_allowed(text: Seq<char>, verdict: bool) -> bool {
    is_possible_verdict(text, verdict)
}

fn kind_string_file() -> (s: String)
    ensures
        s@ == kind_file(),
{
    let mut s = String::new();
    push_char(&mut s, 'f');
    push_char(&mut s, 'i');
    push_char(&mut s, 'l');
    push_char(&mut s, 'e');
    assert(s@ =~= kind_file());
    s
}

fn kind_string_text() -> (s: String)
    ensures
        s@ == kind_text(),
{
    let mut s = String::new();
    push_char(&mut s, 't');
    push_char(&mut s, 'e');
    push_char(&mut s, 'x');
    push_char(&mut s, 't');
    assert(s@ =~= kind_text());
    s
}

fn kind_string_image() -> (s: String)
    ensures
        s@ == kind_image(),
{
    let mut s = String::new();
    push_char(&mut s, 'i');
    push_char(&mut s, 'm');
    push_char(&mut s, 'a');
    push_char(&mut s, 'g');
    push_char(&mut s, 'e');
    assert(s@ =~= kind_image());
    s
}

/// The payload for a list of file paths.
pub fn file_payload(paths: String) -> (p: CapturedPayload)
    ensures
        p@ == file_payload_of(paths@),
{
    let kind = kind_string_file();
    let fingerprint = tagged_fingerprint(kind.as_str(), paths.as_str());
    CapturedPayload {
        kind,
        text: Some(paths),
        image_rgba: None,
        image_width: None,
        image_height: None,
        fingerprint,
    }
}

/// The payload for a normalized text.
pub fn text_payload(text: String) -> (p: CapturedPayload)
    ensures
        p@ == text_payload_of(text@),
{
    let kind = kind_string_text();
    let fingerprint = tagged_fingerprint(kind.as_str(), text.as_str());
    CapturedPayload {
        kind,
        text: Some(text),
        image_rgba: None,
        image_width: None,
        image_height: None,
        fingerprint,
    }
}

/// The payload for an image, or `None` when a dimension does not fit a
/// signed 64-bit integer.
pub fn image_payload(image: ClipboardImage) -> (p: Option<CapturedPayload>)
    ensures
        opt_payload_view(p) == if image_fits(image.width as int, image.height as int) {
            Some(image_payload_of(image.width as int, image.height as int, image.bytes@))
        } else {
            None
        },
{
    let width = image.width as u64;
    let height = image.height as u64;
    if width > 0x7fff_ffff_ffff_ffff || height > 0x7fff_ffff_ffff_ffff {
        return None;
    }
    let fingerprint = image_fingerprint(width, height, image.bytes.as_slice());
    Some(
        CapturedPayload {
            kind: kind_string_image(),
            text: None,
            image_rgba: Some(image.bytes),
            image_width: Some(width as i64),
            image_height: Some(height as i64),
            fingerprint,
        },
    )
}

/// The lines joined by line feeds, with none after the last.
pub open spec fn joined_lines(lines: Seq<Seq<char>>) -> Seq<char>
    decreases lines.len(),
{
    if lines.len() == 0 {
        Seq::empty()
    } else if lines.len() == 1 {
        lines[0]
    } else {
        joined_lines(lines.drop_last()) + seq!['\n'] + lines.last()
    }
}

/// Selects the paths that are not empty.
pub open spec fn nonempty_pred() -> spec_fn(Seq<char>) -> bool {
    |path: Seq<char>| path.len() > 0
}

/// The file list for the paths that the system reports: the paths that are
/// not empty, one per line, or nothing when none is left.
pub open spec fn joined_paths(paths: Seq<Seq<char>>) -> Option<Seq<char>> {
    let kept = paths.filter(nonempty_pred());
    if kept.len() == 0 {
        None
    } else {
        Some(joined_lines(kept))
    }
}

/// Builds the native file list from the paths that the system reports; see
/// `joined_paths`.
pub fn join_file_paths(paths: &Vec<String>) -> (r: Option<String>)
    ensures
        opt_str_view(r) == joined_paths(crate::text::string_views(paths@)),
{
    let ghost views = crate::text::string_views(paths@);
    let mut out = String::new();
    let mut kept: usize = 0;
    let mut i: usize = 0;
    assert(views.take(0).filter(nonempty_pred()) =~= Seq::<Seq<char>>::empty());
    while i < paths.len()
        invariant
            i <= paths.len(),
            kept <= i,
            views == crate::text::string_views(paths@),
            kept == views.take(i as int).filter(nonempty_pred()).len(),
            out@ == joined_lines(views.take(i as int).filter(nonempty_pred())),
        decreases paths.len() - i,
    {
        let path = paths[i].as_str();
        let ghost before = views.take(i as int).filter(nonempty_pred());
        proof {
            assert(path@ == views[i as int]);
            assert(views.take(i + 1) =~= views.take(i as int).push(views[i as int]));
            crate::seq_facts::lemma_filter_push(
                views.take(i as int),
                views[i as int],
                nonempty_pred(),
            );
        }
        if path.unicode_len() > 0 {
            let ghost joined = out@;
            if kept > 0 {
                push_char(&mut out, '\n');
            }
            out.append(path);
            kept += 1;
            proof {
                let now = before.push(path@);
                assert(now.drop_last() =~= before);
                assert(now.last() == path@);
                if before.len() == 0 {
                    assert(joined =~= Seq::<char>::empty());
                    assert(out@ =~= path@);
                } else {
                    assert(out@ =~= joined + seq!['\n'] + path@);
                }
            }
        }
        i += 1;
    }
    assert(views.take(paths.len() as int) =~= views);
    if kept == 0 {
        None
    } else {
        Some(out)
    }
}

/// Hands a native file list on unless it is empty.
pub fn file_candidate(files: Option<String>) -> (r: Option<String>)
    ensures
        opt_str_view(r) == file_candidate_of(opt_str_view(files)),
{
    match files {
        Some(paths) => {
            if paths.as_str().unicode_len() > 0 {
                Some(paths)
            } else {
                None
            }
        },
        None => None,
    }
}

/// Normalizes a raw clipboard text and hands it on unless nothing is left.
pub fn text_candidate(raw: Option<String>) -> (r: Option<String>)
    ensures
        opt_str_view(r) == text_candidate_of(opt_str_view(raw)),
{
    match raw {
        Some(t) => {
            let n = normalize_text(t.as_str());
            if n.as_str().unicode_len() > 0 {
                Some(n)
            } else {
                None
            }
        },
        None => None,
    }
}

/// Chooses the payload among what the clipboard offers, given the verdict
/// of the file heuristic on the text; see `chosen_payload`.
pub fn choose_payload(
    files: Option<String>,
    candidate: Option<String>,
    text_is_file: bool,
    image: Option<ClipboardImage>,
) -> (p: Option<CapturedPayload>)
    ensures
        opt_payload_view(p) == chosen_payload(
            opt_str_view(files),
            opt_str_view(candidate),
            text_is_file,
            opt_image_view(image),
        ),
{
    match files {
        Some(paths) => Some(file_payload(paths)),
        None => match candidate {
            Some(t) => if text_is_file {
                Some(file_payload(t))
            } else {
                Some(text_payload(t))
            },
            None => match image {
                Some(img) => image_payload(img),
                None => None,
            },
        },
    }
}

/// Chooses the payload of a reading. The text is normalized and, where no
/// native file list is on offer, judged by the file heuristic, which may
/// consult the file system; the rest is `chosen_payload`.
pub fn acquire_payload(reading: ClipboardReading) -> (p: Option<CapturedPayload>)
    ensures
        exists|verdict: bool|
            acquired(
                opt_payload_view(p),
                opt_str_view(reading.files),
                opt_str_view(reading.text),
                opt_image_view(reading.image),
                verdict,
            ),
{
    let ghost files = opt_str_view(reading.files);
    let ghost text = opt_str_view(reading.text);
    let ghost image = opt_image_view(reading.image);
    let listed = file_candidate(reading.files);
    let candidate = text_candidate(reading.text);
    let verdict = match (&listed, &candidate) {
        (None, Some(t)) => looks_like_file_payload(t.as_str()),
        _ => false,
    };
    let p = choose_payload(listed, candidate, verdict, reading.image);
    assert(acquired(opt_payload_view(p), files, text, image, verdict));
    p
}

/// Whether `payload` is what is taken from a reading when the file
/// heuristic answers `verdict` for the text. Where the heuristic is consulted,
/// the verdict is one that it may give.
pub open spec fn acquired(
    payload: Option<PayloadView>,
    files: Option<Seq<char>>,
    text: Option<Seq<char>>,
    image: Option<(int, int, Seq<u8>)>,
    verdict: bool,
) -> bool {
    &&& payload == chosen_payload(
        file_candidate_of(files),
        text_candidate_of(text),
        verdict,
        image,
    )
    &&& file_candidate_of(files) is None && text_candidate_of(text) is Some ==> verdict_allowed(
        text_candidate_of(text)->0,
        verdict,
    )
}

/// What capture decides about a payload.
#[derive(Debug, Clone, Copy, PartialEq, Eq, Structural)]
pub enum Decision {
    /// The payload is the application's own write coming back.
    Echo,
    /// The payload repeats the visible item that was stored last.
    Duplicate,
    /// The store has no id left to give.
    Full,
    /// The payload is stored.
    Store,
}

/// How one capture ended.
#[derive(Debug, Clone)]
pub enum CaptureOutcome {
    /// Capturing is switched off or paused.
    Disabled,
    /// The clipboard offered nothing to take.
    Nothing,
    /// The payload was the application's own write coming back.
    Echo,
    /// The payload repeated the visible item that was stored last.
    Duplicate,
    /// The store had no id left to give.
    Full,
    /// The payload was stored; the event is what the interface is told.
    Stored(ClipboardItemAddedEvent),
}

/// The content of the record of the last write.
pub open spec fn last_written_view(last: Option<LastWritten>) -> Option<(Seq<char>, int)> {
    match last {
        Some(l) => Some((l.fingerprint@, l.written_at_ms as int)),
        None => None,
    }
}

/// Echo suppression: the fingerprint is the one written last, and less than
/// the echo window has passed since that write.
pub open spec fn is_echo(last: Option<(Seq<char>, int)>, fingerprint: Seq<char>, now: int) -> bool {
    match last {
        Some(l) => l.0 == fingerprint && now - l.1 < ECHO_WINDOW_MS,
        None => false,
    }
}

/// Immediate-duplicate suppression: the fingerprint is that of the visible
/// row that was stored last. Older rows are not looked at.
pub open spec fn is_duplicate(rows: Seq<ItemView>, fingerprint: Seq<char>) -> bool {
    last_fingerprint_of(rows) == Some(fingerprint)
}

/// What is decided about a payload with the given fingerprint at time `now`.
pub open spec fn decision_for(
    rows: Seq<ItemView>,
    last: Option<(Seq<char>, int)>,
    fingerprint: Seq<char>,
    now: int,
) -> Decision {
    if is_echo(last, fingerprint, now) {
        Decision::Echo
    } else if is_duplicate(rows, fingerprint) {
        Decision::Duplicate
    } else if next_id(rows) > i64::MAX {
        Decision::Full
    } else {
        Decision::Store
    }
}

/// The row that a stored payload becomes.
pub open spec fn row_of(id: int, now: int, p: PayloadView) -> ItemView {
    fresh_row(id, now, p.kind, p.text, p.fingerprint, p.image_rgba, p.image_width, p.image_height)
}

/// The history after a payload was processed at time `now`: with the new
/// row and retention applied where the payload is stored, unchanged
/// otherwise.
pub open spec fn rows_after_capture(
    rows: Seq<ItemView>,
    last: Option<(Seq<char>, int)>,
    max_items: int,
    p: PayloadView,
    now: int,
) -> Seq<ItemView> {
    if decision_for(rows, last, p.fingerprint, now) == Decision::Store {
        after_retention(rows.push(row_of(next_id(rows), now, p)), max_items)
    } else {
        rows
    }
}

/// The text of the notification for a stored payload: a fixed label for an
/// image, the paths for a file list, and for a text its first 140 characters
/// on one line.
pub open spec fn notification_preview(kind: Seq<char>, text: Option<Seq<char>>) -> Seq<char> {
    let t = match text {
        Some(t) => t,
        None => Seq::empty(),
    };
    if kind == kind_image() {
        "Image copied"@
    } else if kind == kind_file() {
        t
    } else if t.len() > PREVIEW_CHARS {
        flatten_newlines(t).take(PREVIEW_CHARS as int)
    } else {
        flatten_newlines(t)
    }
}

/// Whether an outcome reports a decision, with the event that belongs to a
/// stored payload.
pub open spec fn outcome_reports(
    outcome: CaptureOutcome,
    decision: Decision,
    id: int,
    now: int,
    p: PayloadView,
) -> bool {
    match decision {
        Decision::Echo => outcome is Echo,
        Decision::Duplicate => outcome is Duplicate,
        Decision::Full => outcome is Full,
        Decision::Store => {
            &&& outcome is Stored
            &&& outcome->Stored_0.id == id
            &&& outcome->Stored_0.created_at == now
            &&& !outcome->Stored_0.pinned
            &&& outcome->Stored_0.preview_text@ == notification_preview(p.kind, p.text)
        },
    }
}

/// Builds the text of the notification for a stored payload.
pub fn notification_text(kind: &str, text: &Option<String>) -> (out: String)
    ensures
        out@ == notification_preview(kind@, opt_str_view(*text)),
{
    if is_image_kind(kind) {
        return String::from_str("Image copied");
    }
    let t = match text {
        Some(t) => t.as_str(),
        None => "",
    };
    proof {
        reveal_strlit("");
        assert(""@ =~= Seq::<char>::empty());
    }
    if is_file_kind(kind) {
        return String::from_str(t);
    }
    let mut out = String::new();
    let n = crate::text::push_flattened(&mut out, t, PREVIEW_CHARS);
    proof {
        let flat = flatten_newlines(t@);
        if n <= PREVIEW_CHARS {
            assert(flat.take(n as int) =~= flat);
        }
        assert(Seq::<char>::empty() + flat.take(
            if n < PREVIEW_CHARS {
                n as int
            } else {
                PREVIEW_CHARS as int
            },
        ) =~= flat.take(
            if n < PREVIEW_CHARS {
                n as int
            } else {
                PREVIEW_CHARS as int
            },
        ));
    }
    out
}

/// Whether the time given is within the echo window of the last write of
/// the same fingerprint.
pub fn echoes(last: &Option<LastWritten>, fingerprint: &str, now: i64) -> (r: bool)
    ensures
        r == is_echo(last_written_view(*last), fingerprint@, now as int),
{
    match last {
        Some(l) => {
            crate::text::str_equals(l.fingerprint.as_str(), fingerprint) && (now as i128)
                - (l.written_at_ms as i128) < ECHO_WINDOW_MS as i128
        },
        None => false,
    }
}

/// Processes a classified payload at time `now`: suppresses the
/// application's own write and an immediate duplicate, and otherwise stores
/// the payload and applies retention with the limit `max_items`.
pub fn process_capture(
    store: &mut Storage,
    last_written: &Option<LastWritten>,
    max_items: i64,
    payload: CapturedPayload,
    now: i64,
) -> (outcome: CaptureOutcome)
    ensures
        outcome_reports(
            outcome,
            decision_for(
                old(store).rows(),
                last_written_view(*last_written),
                payload.fingerprint@,
                now as int,
            ),
            next_id(old(store).rows()),
            now as int,
            payload@,
        ),
        final(store).rows() == rows_after_capture(
            old(store).rows(),
            last_written_view(*last_written),
            max_items as int,
            payload@,
            now as int,
        ),
        final(store).setting_rows() == old(store).setting_rows(),
{
    if echoes(last_written, payload.fingerprint.as_str(), now) {
        return CaptureOutcome::Echo;
    }
    let newest = store.last_fingerprint();
    let repeated = match &newest {
        Some(fp) => crate::text::str_equals(fp.as_str(), payload.fingerprint.as_str()),
        None => false,
    };
    if repeated {
        return CaptureOutcome::Duplicate;
    }
    let text = match &payload.text {
        Some(t) => Some(t.as_str()),
        None => None,
    };
    let image = match &payload.image_rgba {
        Some(b) => Some(b.as_slice()),
        None => None,
    };
    let inserted = store.insert_item_at(
        now,
        payload.kind.as_str(),
        text,
        payload.fingerprint.as_str(),
        image,
        payload.image_width,
        payload.image_height,
    );
    match inserted {
        Ok(id) => {
            store.enforce_max_items(max_items);
            let preview_text = notification_text(payload.kind.as_str(), &payload.text);
            CaptureOutcome::Stored(
                ClipboardItemAddedEvent { id, preview_text, created_at: now, pinned: false },
            )
        },
        Err(_) => CaptureOutcome::Full,
    }
}

/// Whether capturing is allowed: it is switched on and not paused.
pub open spec fn capture_allowed(capture_enabled: bool, paused: bool) -> bool {
    capture_enabled && !paused
}

/// Tells whether capturing is allowed; see `capture_allowed`. While it is
/// not, the clipboard need not be read at all.
pub fn may_capture(settings: &Settings, paused: bool) -> (r: bool)
    ensures
        r == capture_allowed(settings.capture_enabled, paused),
{
    settings.capture_enabled && !paused
}

/// Whether the image matters for the choice of the payload: neither a
/// native file list nor a text is on offer.
pub open spec fn image_matters(files: Option<Seq<char>>, text: Option<Seq<char>>) -> bool {
    file_candidate_of(files) is None && text_candidate_of(text) is None
}

/// Tells whether the image is to be read off the clipboard; see
/// `image_matters`. Where it is not, the payload is chosen without it.
pub fn wants_image(files: &Option<String>, text: &Option<String>) -> (r: bool)
    ensures
        r == image_matters(opt_str_view(*files), opt_str_view(*text)),
{
    let listed = match files {
        Some(paths) => paths.as_str().unicode_len() > 0,
        None => false,
    };
    if listed {
        return false;
    }
    match text {
        Some(t) => {
            let n = normalize_text(t.as_str());
            n.as_str().unicode_len() == 0
        },
        None => true,
    }
}

/// Where the image does not matter, the chosen payload is the same with
/// and without it.
pub proof fn lemma_image_is_last_resort(
    files: Option<Seq<char>>,
    text: Option<Seq<char>>,
    text_is_file: bool,
    image: Option<(int, int, Seq<u8>)>,
)
    requires
        !image_matters(files, text),
    ensures
        chosen_payload(
            file_candidate_of(files),
            text_candidate_of(text),
            text_is_file,
            image,
        ) == chosen_payload(
            file_candidate_of(files),
            text_candidate_of(text),
            text_is_file,
            None,
        ),
{
}

/// A chosen payload agrees with its kind: a file list or a text carries a
/// text and no image, an image carries pixels with both dimensions and no
/// text. So does the row that it becomes.
pub proof fn lemma_chosen_payload_matches_kind(
    files: Option<Seq<char>>,
    candidate: Option<Seq<char>>,
    text_is_file: bool,
    image: Option<(int, int, Seq<u8>)>,
    id: int,
    now: int,
)
    requires
        chosen_payload(files, candidate, text_is_file, image) is Some,
    ensures
        crate::item::payload_matches_kind(
            row_of(id, now, chosen_payload(files, candidate, text_is_file, image)->0),
        ),
{
    let p = chosen_payload(files, candidate, text_is_file, image)->0;
    assert(kind_file().len() == 4 && kind_text().len() == 4 && kind_image().len() == 5);
    assert(kind_file()[0] == 'f' && kind_text()[0] == 't');
}

/// Whether every row of a table agrees with its kind.
pub open spec fn all_match_kind(rows: Seq<ItemView>) -> bool {
    forall|i: int| 0 <= i < rows.len() ==> crate::item::payload_matches_kind(#[trigger] rows[i])
}

/// Capture keeps the table consistent: when every row agrees with its kind
/// and so does the payload, every row does afterwards.
pub proof fn lemma_capture_keeps_kinds(
    rows: Seq<ItemView>,
    last: Option<(Seq<char>, int)>,
    max_items: int,
    p: PayloadView,
    now: int,
)
    requires
        all_match_kind(rows),
        crate::item::payload_matches_kind(row_of(next_id(rows), now, p)),
    ensures
        all_match_kind(rows_after_capture(rows, last, max_items, p, now)),
{
    let after = rows_after_capture(rows, last, max_items, p, now);
    if decision_for(rows, last, p.fingerprint, now) == Decision::Store {
        let pushed = rows.push(row_of(next_id(rows), now, p));
        crate::retention::lemma_retention_only_soft_deletes(pushed, max_items);
        assert forall|i: int| 0 <= i < after.len() implies crate::item::payload_matches_kind(
            #[trigger] after[i],
        ) by {
            assert(after[i] == pushed[i] || after[i] == crate::item::as_deleted(pushed[i]));
            if i < rows.len() {
                assert(crate::item::payload_matches_kind(rows[i]));
            }
        }
    }
}

/// Whether a whole capture went as it must, given the verdict of the file
/// heuristic: nothing happens while capturing is not allowed or nothing is on
/// offer; otherwise the chosen payload is processed.
pub open spec fn captured(
    before: Seq<ItemView>,
    after: Seq<ItemView>,
    outcome: CaptureOutcome,
    capture_enabled: bool,
    max_items: int,
    paused: bool,
    last: Option<(Seq<char>, int)>,
    files: Option<Seq<char>>,
    text: Option<Seq<char>>,
    image: Option<(int, int, Seq<u8>)>,
    now: int,
    verdict: bool,
) -> bool {
    if !capture_allowed(capture_enabled, paused) {
        outcome is Disabled && after == before
    } else {
        &&& file_candidate_of(files) is None && text_candidate_of(text) is Some
            ==> verdict_allowed(text_candidate_of(text)->0, verdict)
        &&& match chosen_payload(
            file_candidate_of(files),
            text_candidate_of(text),
            verdict,
            image,
        ) {
            None => outcome is Nothing && after == before,
            Some(p) => {
                &&& outcome_reports(
                    outcome,
                    decision_for(before, last, p.fingerprint, now),
                    next_id(before),
                    now,
                    p,
                )
                &&& after == rows_after_capture(before, last, max_items, p, now)
            },
        }
    }
}

/// Runs one capture on what was read off the clipboard at time `now`.
///
/// Nothing happens while capturing is switched off or paused, or when the
/// clipboard offered nothing. Otherwise the payload is chosen, checked against
/// the application's last write and the item stored last, stored, and
/// retention is applied with the current limit. The file heuristic may consult
/// the file system, so the contract holds for one of the verdicts that the
/// heuristic may give.
pub fn capture_once(
    store: &mut Storage,
    settings: &Settings,
    paused: bool,
    last_written: &Option<LastWritten>,
    reading: ClipboardReading,
    now: i64,
) -> (outcome: CaptureOutcome)
    ensures
        exists|verdict: bool|
            captured(
                old(store).rows(),
                final(store).rows(),
                outcome,
                settings.capture_enabled,
                settings.max_items as int,
                paused,
                last_written_view(*last_written),
                opt_str_view(reading.files),
                opt_str_view(reading.text),
                opt_image_view(reading.image),
                now as int,
                verdict,
            ),
        final(store).setting_rows() == old(store).setting_rows(),
{
    let ghost before = store.rows();
    let ghost files = opt_str_view(reading.files);
    let ghost text = opt_str_view(reading.text);
    let ghost image = opt_image_view(reading.image);
    let ghost last = last_written_view(*last_written);
    if !may_capture(settings, paused) {
        assert(captured(
            before,
            store.rows(),
            CaptureOutcome::Disabled,
            settings.capture_enabled,
            settings.max_items as int,
            paused,
            last,
            files,
            text,
            image,
            now as int,
            false,
        ));
        return CaptureOutcome::Disabled;
    }
    let payload = acquire_payload(reading);
    let ghost verdict = choose|verdict: bool|
        acquired(opt_payload_view(payload), files, text, image, verdict);
    let outcome = match payload {
        Some(p) => process_capture(store, last_written, settings.max_items, p, now),
        None => CaptureOutcome::Nothing,
    };
    assert(captured(
        before,
        store.rows(),
        outcome,
        settings.capture_enabled,
        settings.max_items as int,
        paused,
        last,
        files,
        text,
        image,
        now as int,
        verdict,
    ));
    outcome
}

/// Echo suppression, spelled out: a payload is taken for the application's
/// own write exactly when it carries the fingerprint written last and less
/// than 2000 ms have passed since that write.
pub proof fn lemma_echo_window(
    rows: Seq<ItemView>,
    written: Seq<char>,
    written_at: int,
    fingerprint: Seq<char>,
    now: int,
)
    ensures
        decision_for(rows, Some((written, written_at)), fingerprint, now) == Decision::Echo <==> (
        fingerprint == written && now - written_at < 2000),
        decision_for(rows, None, fingerprint, now) != Decision::Echo,
{
}

/// Whether the row that a stored payload becomes is still visible once
/// retention was applied: retention, which goes by creation time, did not
/// evict it at once.
pub open spec fn new_row_survives(rows: Seq<ItemView>, max_items: int, p: PayloadView, now: int)
    -> bool {
    !crate::retention::is_evicted(
        rows.push(row_of(next_id(rows), now, p)),
        max_items,
        row_of(next_id(rows), now, p),
    )
}

/// The row just stored survives retention where the table has room: fewer
/// evictable rows than the limit, or no limit at all.
pub proof fn lemma_room_keeps_new_row(rows: Seq<ItemView>, max_items: int, p: PayloadView, now: int)
    requires
        max_items <= 0 || crate::retention::evictable_rows(rows).len() < max_items,
    ensures
        new_row_survives(rows, max_items, p, now),
{
    let row = row_of(next_id(rows), now, p);
    let among = crate::retention::evictable_rows(rows);
    crate::seq_facts::lemma_filter_push(rows, row, crate::retention::evictable_pred());
    crate::seq_facts::lemma_filter_push(among, row, crate::retention::newer_pred(row));
    crate::seq_facts::lemma_filter_len_bound(among, crate::retention::newer_pred(row));
}

/// The row just stored survives retention where the clock did not step
/// back: no evictable row is stamped later than it.
pub proof fn lemma_clock_keeps_new_row(rows: Seq<ItemView>, max_items: int, p: PayloadView, now: int)
    requires
        ids_increase(rows),
        forall|j: int|
            0 <= j < rows.len() && crate::item::is_evictable(#[trigger] rows[j])
                ==> rows[j].created_at <= now,
    ensures
        new_row_survives(rows, max_items, p, now),
{
    let n = rows.len() as int;
    let row = row_of(next_id(rows), now, p);
    let pushed = rows.push(row);
    let among = crate::retention::evictable_rows(pushed);
    assert forall|k: int| 0 <= k < among.len() implies !crate::retention::newer_pred(row)(
        #[trigger] among[k],
    ) by {
        crate::seq_facts::lemma_filter_members(pushed, crate::retention::evictable_pred(), k);
        let w = choose|w: int| 0 <= w < pushed.len() && pushed[w] == among[k];
        if w < n {
            assert(crate::item::is_evictable(rows[w]));
            if w < n - 1 {
                assert(rows[w].id < rows[n - 1].id);
            }
        }
    }
    crate::seq_facts::lemma_filter_none(among, crate::retention::newer_pred(row));
}

/// Deduplication: once a payload was stored, capturing the same payload
/// again right away is discarded, whenever it happens, whatever the clock
/// read and whatever was written in between. The history then holds the
/// payload once. The one premise is that retention did not evict the stored
/// row at once; `lemma_room_keeps_new_row` and `lemma_clock_keeps_new_row` say
/// when it does not.
pub proof fn lemma_repeated_capture_is_discarded(
    rows: Seq<ItemView>,
    last: Option<(Seq<char>, int)>,
    max_items: int,
    p: PayloadView,
    now: int,
    last_again: Option<(Seq<char>, int)>,
    now_again: int,
)
    requires
        decision_for(rows, last, p.fingerprint, now) == Decision::Store,
        new_row_survives(rows, max_items, p, now),
    ensures
        is_duplicate(rows_after_capture(rows, last, max_items, p, now), p.fingerprint),
        decision_for(
            rows_after_capture(rows, last, max_items, p, now),
            last_again,
            p.fingerprint,
            now_again,
        ) != Decision::Store,
        rows_after_capture(
            rows_after_capture(rows, last, max_items, p, now),
            last_again,
            max_items,
            p,
            now_again,
        ) == rows_after_capture(rows, last, max_items, p, now),
{
    let n = rows.len() as int;
    let row = row_of(next_id(rows), now, p);
    let pushed = rows.push(row);
    let after = after_retention(pushed, max_items);
    assert(pushed[n] == row);
    assert(after[n] == row);
    assert(after.last() == row);
}

/// Acceptance after the echo window: a payload that the application itself
/// wrote is stored like any other once 2000 ms have passed since the write,
/// unless it repeats the item stored last or no id is left. Its row is
/// appended with the payload's fingerprint, and the rows before it are as they
/// were or soft-deleted by retention.
pub proof fn lemma_capture_after_window_is_stored(
    rows: Seq<ItemView>,
    written: Seq<char>,
    written_at: int,
    max_items: int,
    p: PayloadView,
    now: int,
)
    requires
        now - written_at >= ECHO_WINDOW_MS,
        !is_duplicate(rows, p.fingerprint),
        next_id(rows) <= i64::MAX,
    ensures
        decision_for(rows, Some((written, written_at)), p.fingerprint, now) == Decision::Store,
        ({
            let after = rows_after_capture(rows, Some((written, written_at)), max_items, p, now);
            &&& after.len() == rows.len() + 1
            &&& after.last().id == next_id(rows)
            &&& after.last().fingerprint == p.fingerprint
            &&& forall|i: int|
                0 <= i < rows.len() ==> (#[trigger] after[i]) == rows[i] || after[i]
                    == crate::item::as_deleted(rows[i])
        }),
{
    let row = row_of(next_id(rows), now, p);
    let pushed = rows.push(row);
    crate::retention::lemma_retention_only_soft_deletes(pushed, max_items);
    let after = after_retention(pushed, max_items);
    assert(after[rows.len() as int] == pushed[rows.len() as int] || after[rows.len() as int]
        == crate::item::as_deleted(pushed[rows.len() as int]));
    assert forall|i: int| 0 <= i < rows.len() implies (#[trigger] after[i]) == rows[i] || after[i]
        == crate::item::as_deleted(rows[i]) by {
        assert(pushed[i] == rows[i]);
    }
}

} // verus!
