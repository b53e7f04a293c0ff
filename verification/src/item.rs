//! The rows of the clipboard history and the orders in which they are read.

use vstd::prelude::*;

verus! {

/// One row of the clipboard history.
///
/// `text` is present for text and file items, the three image fields for
/// image items. `favorite` and `pinned` are set by the user; `deleted` marks a
/// row that is no longer shown. Rows are never removed.
#[derive(Debug, Clone)]
pub struct ClipboardItem {
    pub id: i64,
    pub created_at: i64,
    pub kind: String,
    pub text: Option<String>,
    pub image_rgba: Option<Vec<u8>>,
    pub image_width: Option<i64>,
    pub image_height: Option<i64>,
    pub fingerprint: String,
    pub favorite: bool,
    pub pinned: bool,
    pub deleted: bool,
}

/// The mathematical content of a row.
pub struct ItemView {
    pub id: int,
    pub created_at: int,
    pub kind: Seq<char>,
    pub text: Option<Seq<char>>,
    pub image_rgba: Option<Seq<u8>>,
    pub image_width: Option<int>,
    pub image_height: Option<int>,
    pub fingerprint: Seq<char>,
    pub favorite: bool,
    pub pinned: bool,
    pub deleted: bool,
}

/// The characters of an optional string.
pub open spec fn opt_str_view(s: Option<String>) -> Option<Seq<char>> {
    match s {
        Some(t) => Some(t@),
        None => None,
    }
}

/// The bytes of an optional byte vector.
pub open spec fn opt_bytes_view(b: Option<Vec<u8>>) -> Option<Seq<u8>> {
    match b {
        Some(v) => Some(v@),
        None => None,
    }
}

/// An optional machine integer as a mathematical one.
pub open spec fn opt_int_view(n: Option<i64>) -> Option<int> {
    match n {
        Some(v) => Some(v as int),
        None => None,
    }
}

/// An optional unsigned machine integer as a mathematical one.
pub open spec fn opt_u64_view(n: Option<u64>) -> Option<int> {
    match n {
        Some(v) => Some(v as int),
        None => None,
    }
}

impl View for ClipboardItem {
    type V = ItemView;

    open spec fn view(&self) -> ItemView {
        ItemView {
            id: self.id as int,
            created_at: self.created_at as int,
            kind: self.kind@,
            text: opt_str_view(self.text),
            image_rgba: opt_bytes_view(self.image_rgba),
            image_width: opt_int_view(self.image_width),
            image_height: opt_int_view(self.image_height),
            fingerprint: self.fingerprint@,
            favorite: self.favorite,
            pinned: self.pinned,
            deleted: self.deleted,
        }
    }
}

/// The contents of a list of rows.
pub open spec fn item_views(items: Seq<ClipboardItem>) -> Seq<ItemView> {
    Seq::new(items.len(), |i: int| items[i]@)
}

/// A row is visible until it is soft-deleted.
pub open spec fn is_visible(it: ItemView) -> bool {
    !it.deleted
}

/// A row that retention may evict: visible, neither pinned nor favorited.
pub open spec fn is_evictable(it: ItemView) -> bool {
    !it.deleted && !it.pinned && !it.favorite
}

/// Recency: `a` was captured after `b`. Rows captured in the same millisecond
/// are told apart by their ids, the later insert counting as newer.
pub open spec fn is_newer(a: ItemView, b: ItemView) -> bool {
    a.created_at > b.created_at || (a.created_at == b.created_at && a.id > b.id)
}

/// Listing order: `a` is shown before `b`. Pinned rows come first, then
/// favorited ones, then newer before older.
pub open spec fn outranks(a: ItemView, b: ItemView) -> bool {
    if a.pinned != b.pinned {
        a.pinned
    } else if a.favorite != b.favorite {
        a.favorite
    } else {
        is_newer(a, b)
    }
}

/// Rows of a table carry strictly increasing ids, so no id occurs twice and
/// a later insert has the larger id.
pub open spec fn ids_increase(rows: Seq<ItemView>) -> bool {
    forall|i: int, j: int| 0 <= i < j < rows.len() ==> rows[i].id < rows[j].id
}

/// The same row, soft-deleted.
pub open spec fn as_deleted(it: ItemView) -> ItemView {
    ItemView { deleted: true, ..it }
}

/// Whether a row's payload agrees with its kind: text and file rows carry a
/// text and no image, image rows an image with its dimensions and no text.
pub open spec fn payload_matches_kind(it: ItemView) -> bool {
    if it.kind == crate::text::kind_image() {
        it.text is None && it.image_rgba is Some && it.image_width is Some
            && it.image_height is Some
    } else if it.kind == crate::text::kind_text() || it.kind == crate::text::kind_file() {
        it.text is Some && it.image_rgba is None && it.image_width is None
            && it.image_height is None
    } else {
        false
    }
}

/// Executable form of `is_newer`.
pub fn newer_than(a: &ClipboardItem, b: &ClipboardItem) -> (r: bool)
    ensures
        r == is_newer(a@, b@),
{
    a.created_at > b.created_at || (a.created_at == b.created_at && a.id > b.id)
}

/// Executable form of `outranks`.
pub fn listed_before(a: &ClipboardItem, b: &ClipboardItem) -> (r: bool)
    ensures
        r == outranks(a@, b@),
{
    if a.pinned != b.pinned {
        a.pinned
    } else if a.favorite != b.favorite {
        a.favorite
    } else {
        newer_than(a, b)
    }
}

} // verus!
