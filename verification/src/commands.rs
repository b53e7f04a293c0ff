//! What the commands of the user interface decide: which path an item
//! opens, what goes back onto the clipboard, and what a changed setting
//! entails. Carrying the decisions out is the caller's part.

use vstd::prelude::*;
use vstd::string::StringExecFns;
use crate::capture::LastWritten;
use crate::fingerprint::{
    fingerprint_of, image_fingerprint, image_preimage, tagged_fingerprint, tagged_preimage,
};
use crate::item::ItemView;
use crate::retention::after_retention;
use crate::settings::{Settings, applied, apply_setting_value, read_stored_value, stored_value};
use crate::storage::{Storage, upserted, visible_row};
use crate::text::{
    is_file_kind, is_image_kind, kind_file, kind_image, normalize_path, normalize_text,
    normalized, normalized_path, payload_lines, payload_lines_of, str_equals, string_views,
};

verus! {

/// Why an item has no path to open.
#[derive(Debug, Clone, Copy, PartialEq, Eq, Structural)]
pub enum OpenPathError {
    /// No visible item has the id.
    NotFound,
    /// The item is no file item.
    NotAFile,
    /// The item's text holds no path.
    EmptyPath,
}

impl OpenPathError {
    /// The message shown to the user.
    pub fn message(&self) -> (s: String)
        ensures
            s@ == match *self {
                OpenPathError::NotFound => "item not found"@,
                OpenPathError::NotAFile => "item is not a file/folder path"@,
                OpenPathError::EmptyPath => "empty file path"@,
            },
    {
        match self {
            OpenPathError::NotFound => String::from_str("item not found"),
            OpenPathError::NotAFile => String::from_str("item is not a file/folder path"),
            OpenPathError::EmptyPath => String::from_str("empty file path"),
        }
    }
}

/// The text of a row, empty where it has none.
pub open spec fn text_or_empty(row: ItemView) -> Seq<char> {
    match row.text {
        Some(t) => t,
        None => Seq::empty(),
    }
}

/// The path that the item with the given id opens: the first non-empty
/// trimmed line of a visible file item, as a plain path.
pub open spec fn item_path_of(rows: Seq<ItemView>, id: int) -> Result<Seq<char>, OpenPathError> {
    match visible_row(rows, id) {
        None => Err(OpenPathError::NotFound),
        Some(row) => if row.kind != kind_file() {
            Err(OpenPathError::NotAFile)
        } else if payload_lines_of(text_or_empty(row)).len() == 0 {
            Err(OpenPathError::EmptyPath)
        } else {
            Ok(normalized_path(payload_lines_of(text_or_empty(row))[0]))
        },
    }
}

/// The characters of a path result.
pub open spec fn path_result_view(r: Result<String, OpenPathError>) -> Result<
    Seq<char>,
    OpenPathError,
> {
    match r {
        Ok(s) => Ok(s@),
        Err(e) => Err(e),
    }
}

/// Finds the path that an item opens; see `item_path_of`.
pub fn resolve_item_path(store: &Storage, item_id: i64) -> (r: Result<String, OpenPathError>)
    ensures
        path_result_view(r) == item_path_of(store.rows(), item_id as int),
{
    let payload = match store.get_item_clipboard_payload(item_id) {
        Some(p) => p,
        None => {
            return Err(OpenPathError::NotFound);
        },
    };
    if !is_file_kind(payload.kind.as_str()) {
        return Err(OpenPathError::NotAFile);
    }
    let raw = match &payload.text {
        Some(t) => t.as_str(),
        None => "",
    };
    proof {
        reveal_strlit("");
        assert(""@ =~= Seq::<char>::empty());
    }
    let lines = payload_lines(raw);
    if lines.len() == 0 {
        return Err(OpenPathError::EmptyPath);
    }
    assert(lines@[0]@ == string_views(lines@)[0]);
    Ok(normalize_path(lines[0].as_str()))
}

/// Why an item cannot be put back on the clipboard.
#[derive(Debug, Clone, Copy, PartialEq, Eq, Structural)]
pub enum WriteError {
    /// No visible item has the id.
    NotFound,
    /// An image item without pixel data.
    ImageMissing,
    /// An image item without a width.
    WidthMissing,
    /// An image item without a height.
    HeightMissing,
    /// An image item whose width or height is negative or too large for
    /// this machine.
    BadDimensions,
}

impl WriteError {
    /// The message shown to the user.
    pub fn message(&self) -> (s: String)
        ensures
            s@ == match *self {
                WriteError::NotFound => "item not found"@,
                WriteError::ImageMissing => "image payload missing"@,
                WriteError::WidthMissing => "image width missing"@,
                WriteError::HeightMissing => "image height missing"@,
                WriteError::BadDimensions => "image dimensions out of range"@,
            },
    {
        match self {
            WriteError::NotFound => String::from_str("item not found"),
            WriteError::ImageMissing => String::from_str("image payload missing"),
            WriteError::WidthMissing => String::from_str("image width missing"),
            WriteError::HeightMissing => String::from_str("image height missing"),
            WriteError::BadDimensions => String::from_str("image dimensions out of range"),
        }
    }
}

/// What is to be put on the clipboard for an item.
#[derive(Debug, Clone)]
pub enum ClipboardWrite {
    /// Nothing: the item's text is empty once normalized.
    Nothing,
    /// A text, with the fingerprint under which capture will see it.
    Text { text: String, fingerprint: String },
    /// An image, with the fingerprint under which capture will see it.
    Image { rgba: Vec<u8>, width: usize, height: usize, fingerprint: String },
}

/// The mathematical content of a planned write.
pub enum WriteView {
    Nothing,
    Text { text: Seq<char>, fingerprint: Seq<char> },
    Image { rgba: Seq<u8>, width: int, height: int, fingerprint: Seq<char> },
}

impl View for ClipboardWrite {
    type V = WriteView;

    open spec fn view(&self) -> WriteView {
        match self {
            ClipboardWrite::Nothing => WriteView::Nothing,
            ClipboardWrite::Text { text, fingerprint } => WriteView::Text {
                text: text@,
                fingerprint: fingerprint@,
            },
            ClipboardWrite::Image { rgba, width, height, fingerprint } => WriteView::Image {
                rgba: rgba@,
                width: *width as int,
                height: *height as int,
                fingerprint: fingerprint@,
            },
        }
    }
}

/// The content of the result of planning a write.
pub open spec fn write_result_view(r: Result<ClipboardWrite, WriteError>) -> Result<
    WriteView,
    WriteError,
> {
    match r {
        Ok(w) => Ok(w@),
        Err(e) => Err(e),
    }
}

/// Whether a stored dimension can be handed to the clipboard on this
/// machine.
pub open spec fn dimension_fits(d: int) -> bool {
    0 <= d <= usize::MAX && d <= u64::MAX
}

/// What is put on the clipboard for the item with the given id.
///
/// An image item is written as its pixels; it must have pixels, a width and
/// a height, asked for in this order. Any other item is written as its
/// normalized text, or not at all when that is empty. The fingerprint is the
/// one that a capture of the written content computes, with the item's own
/// kind for a text.
pub open spec fn planned_write(rows: Seq<ItemView>, id: int) -> Result<WriteView, WriteError> {
    match visible_row(rows, id) {
        None => Err(WriteError::NotFound),
        Some(row) => if row.kind == kind_image() {
            if row.image_rgba is None {
                Err(WriteError::ImageMissing)
            } else if row.image_width is None {
                Err(WriteError::WidthMissing)
            } else if row.image_height is None {
                Err(WriteError::HeightMissing)
            } else if !dimension_fits(row.image_width->0) || !dimension_fits(row.image_height->0) {
                Err(WriteError::BadDimensions)
            } else {
                Ok(
                    WriteView::Image {
                        rgba: row.image_rgba->0,
                        width: row.image_width->0,
                        height: row.image_height->0,
                        fingerprint: fingerprint_of(
                            image_preimage(
                                row.image_width->0 as u64,
                                row.image_height->0 as u64,
                                row.image_rgba->0,
                            ),
                        ),
                    },
                )
            }
        } else if normalized(text_or_empty(row)).len() == 0 {
            Ok(WriteView::Nothing)
        } else {
            Ok(
                WriteView::Text {
                    text: normalized(text_or_empty(row)),
                    fingerprint: fingerprint_of(
                        tagged_preimage(row.kind, normalized(text_or_empty(row))),
                    ),
                },
            )
        },
    }
}

fn dimension(d: i64) -> (r: Option<usize>)
    ensures
        match r {
            Some(u) => dimension_fits(d as int) && u == d,
            None => !dimension_fits(d as int),
        },
{
    if d < 0 {
        None
    } else if d as u64 > usize::MAX as u64 {
        None
    } else {
        Some(d as usize)
    }
}

/// Plans putting an item back on the clipboard; see `planned_write`.
pub fn plan_clipboard_write(store: &Storage, item_id: i64) -> (r: Result<
    ClipboardWrite,
    WriteError,
>)
    ensures
        write_result_view(r) == planned_write(store.rows(), item_id as int),
{
    let payload = match store.get_item_clipboard_payload(item_id) {
        Some(p) => p,
        None => {
            return Err(WriteError::NotFound);
        },
    };
    if is_image_kind(payload.kind.as_str()) {
        let rgba = match payload.image_rgba {
            Some(b) => b,
            None => {
                return Err(WriteError::ImageMissing);
            },
        };
        let stored_width = match payload.image_width {
            Some(w) => w,
            None => {
                return Err(WriteError::WidthMissing);
            },
        };
        let stored_height = match payload.image_height {
            Some(h) => h,
            None => {
                return Err(WriteError::HeightMissing);
            },
        };
        let width = match dimension(stored_width) {
            Some(w) => w,
            None => {
                return Err(WriteError::BadDimensions);
            },
        };
        let height = match dimension(stored_height) {
            Some(h) => h,
            None => {
                return Err(WriteError::BadDimensions);
            },
        };
        let fingerprint = image_fingerprint(width as u64, height as u64, rgba.as_slice());
        return Ok(ClipboardWrite::Image { rgba, width, height, fingerprint });
    }
    let raw = match &payload.text {
        Some(t) => t.as_str(),
        None => "",
    };
    proof {
        reveal_strlit("");
        assert(""@ =~= Seq::<char>::empty());
    }
    let text = normalize_text(raw);
    if text.as_str().unicode_len() == 0 {
        return Ok(ClipboardWrite::Nothing);
    }
    let fingerprint = tagged_fingerprint(payload.kind.as_str(), text.as_str());
    Ok(ClipboardWrite::Text { text, fingerprint })
}

/// The record of the last write once `write` was carried out at time `now`:
/// the new write where something was written, the old record otherwise.
pub open spec fn recorded(
    previous: Option<(Seq<char>, int)>,
    write: WriteView,
    now: int,
) -> Option<(Seq<char>, int)> {
    match write {
        WriteView::Nothing => previous,
        WriteView::Text { text, fingerprint } => Some((fingerprint, now)),
        WriteView::Image { rgba, width, height, fingerprint } => Some((fingerprint, now)),
    }
}

/// Records that `write` was carried out at time `now`; see `recorded`.
pub fn record_write(last_written: &mut Option<LastWritten>, write: &ClipboardWrite, now: i64)
    ensures
        crate::capture::last_written_view(*final(last_written)) == recorded(
            crate::capture::last_written_view(*old(last_written)),
            write@,
            now as int,
        ),
{
    match write {
        ClipboardWrite::Nothing => {},
        ClipboardWrite::Text { text, fingerprint } => {
            *last_written = Some(
                LastWritten { fingerprint: fingerprint.clone(), written_at_ms: now },
            );
        },
        ClipboardWrite::Image { rgba, width, height, fingerprint } => {
            *last_written = Some(
                LastWritten { fingerprint: fingerprint.clone(), written_at_ms: now },
            );
        },
    }
}

/// The key of the retention limit.
pub open spec fn key_max_items() -> Seq<char> {
    "max_items"@
}

/// The key of the hotkey.
pub open spec fn key_hotkey() -> Seq<char> {
    "hotkey"@
}

/// Changes a setting: the value, given as JSON text, is applied to the live
/// settings and stored under its key, whatever the key and the value are. A
/// new retention limit is enforced at once. Returns whether the hotkey was
/// addressed, so that the caller can register it anew.
pub fn set_setting(
    store: &mut Storage,
    settings: &mut Settings,
    key: &str,
    value_json: &str,
) -> (hotkey: bool)
    ensures
        final(settings)@ == applied(old(settings)@, key@, stored_value(value_json@)),
        final(store).setting_rows() == upserted(old(store).setting_rows(), key@, value_json@),
        final(store).rows() == if key@ == key_max_items() {
            after_retention(old(store).rows(), final(settings)@.max_items)
        } else {
            old(store).rows()
        },
        hotkey == (key@ == key_hotkey()),
{
    let value = read_stored_value(value_json);
    apply_setting_value(settings, key, value);
    store.upsert_setting(key, value_json);
    if str_equals(key, "max_items") {
        store.enforce_max_items(settings.max_items);
    }
    str_equals(key, "hotkey")
}

/// Echo suppression end to end: when a text item was written back to the
/// clipboard and the same text is read off it within the echo window, the
/// capture is discarded as the application's own write, whatever the history
/// holds by then.
pub proof fn lemma_written_text_is_suppressed(
    rows: Seq<ItemView>,
    id: int,
    previous: Option<(Seq<char>, int)>,
    written_at: int,
    rows_later: Seq<ItemView>,
    image: Option<(int, int, Seq<u8>)>,
    now: int,
)
    requires
        visible_row(rows, id) matches Some(row) && row.kind == crate::text::kind_text(),
        planned_write(rows, id) matches Ok(w) && w is Text,
        now - written_at < crate::capture::ECHO_WINDOW_MS,
    ensures
        ({
            let write = planned_write(rows, id)->Ok_0;
            let read_back = crate::capture::chosen_payload(
                None,
                crate::capture::text_candidate_of(Some(write->Text_text)),
                false,
                image,
            );
            &&& read_back is Some
            &&& crate::capture::decision_for(
                rows_later,
                recorded(previous, write, written_at),
                read_back->0.fingerprint,
                now,
            ) == crate::capture::Decision::Echo
        }),
{
    let row = visible_row(rows, id)->0;
    crate::text::lemma_normalized_is_fixed(text_or_empty(row));
}

} // verus!
