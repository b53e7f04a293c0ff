//! The history store: a table of clipboard items and a table of settings,
//! with the operations that capture, commands and retention perform on them.
//!
//! Items are only ever added or flagged. Deleting, clearing and retention all
//! set the `deleted` flag and leave the row in place.
//!
//! The store lives in memory. Keeping it on disk is the caller's part:
//! `restore` takes rows that were read from disk, and `items` and
//! `setting_entries` hand out what is to be written.

use vstd::prelude::*;
use vstd::slice::slice_to_vec;
use vstd::string::StringExecFns;
use crate::item::{
    ClipboardItem, ItemView, ids_increase, is_visible, item_views,
    opt_bytes_view, opt_int_view, opt_str_view,
};
use crate::retention::{after_retention, enforce_retention};
use crate::search::{SearchResponse, answers, is_listing, is_page_of, search_rows, shown_text};
use crate::settings::{
    Settings, SettingsView, applied, apply_setting_value, read_stored_value, stored_value,
};
use crate::text::str_equals;

verus! {

/// Why the store could not take an item.
#[derive(Debug, Clone, Copy, PartialEq, Eq, Structural)]
pub enum StorageError {
    /// The newest row carries the largest id there is.
    IdsExhausted,
}

/// What `get_item_clipboard_payload` hands out: everything needed to put an
/// item back on the clipboard.
#[derive(Debug)]
pub struct ClipboardPayload {
    pub kind: String,
    pub text: Option<String>,
    pub image_rgba: Option<Vec<u8>>,
    pub image_width: Option<i64>,
    pub image_height: Option<i64>,
}

/// What `get_item_preview` hands out: the full content of an item for display.
#[derive(Debug, Clone)]
pub struct ItemPreview {
    pub kind: String,
    pub text: String,
    pub image_rgba: Option<Vec<u8>>,
    pub image_width: Option<i64>,
    pub image_height: Option<i64>,
}

/// One row of the settings table: a key and its value as JSON text.
#[derive(Debug, Clone)]
pub struct SettingEntry {
    pub key: String,
    pub value_json: String,
}

/// The contents of the settings table: keys with their JSON texts.
pub open spec fn entry_views(entries: Seq<SettingEntry>) -> Seq<(Seq<char>, Seq<char>)> {
    Seq::new(entries.len(), |i: int| (entries[i].key@, entries[i].value_json@))
}

/// No key occurs twice in a settings table.
pub open spec fn keys_unique(entries: Seq<(Seq<char>, Seq<char>)>) -> bool {
    forall|i: int, j: int|
        0 <= i < entries.len() && 0 <= j < entries.len() && i != j ==> (#[trigger] entries[i]).0 != (
        #[trigger] entries[j]).0
}

/// The id that the next inserted row gets: one more than the newest row's,
/// or 1 in an empty table.
pub open spec fn next_id(rows: Seq<ItemView>) -> int {
    if rows.len() == 0 {
        1
    } else {
        rows.last().id + 1
    }
}

/// The characters of an optional string slice.
pub open spec fn opt_slice_view(s: Option<&str>) -> Option<Seq<char>> {
    match s {
        Some(t) => Some(t@),
        None => None,
    }
}

/// The bytes of an optional byte slice.
pub open spec fn opt_byte_slice_view(b: Option<&[u8]>) -> Option<Seq<u8>> {
    match b {
        Some(v) => Some(v@),
        None => None,
    }
}

/// A freshly inserted row: not favorited, not pinned, not deleted.
pub open spec fn fresh_row(
    id: int,
    created_at: int,
    kind: Seq<char>,
    text: Option<Seq<char>>,
    fingerprint: Seq<char>,
    image_rgba: Option<Seq<u8>>,
    image_width: Option<int>,
    image_height: Option<int>,
) -> ItemView {
    ItemView {
        id,
        created_at,
        kind,
        text,
        image_rgba,
        image_width,
        image_height,
        fingerprint,
        favorite: false,
        pinned: false,
        deleted: false,
    }
}

/// The position of the visible row that was stored last, if any row is
/// visible. Rows stand in the order in which they were stored, so it is the
/// last visible row of the table. Time stamps play no part in it.
pub open spec fn last_visible(rows: Seq<ItemView>) -> Option<int>
    decreases rows.len(),
{
    if rows.len() == 0 {
        None
    } else if is_visible(rows.last()) {
        Some(rows.len() - 1)
    } else {
        last_visible(rows.drop_last())
    }
}

/// The fingerprint of the visible row that was stored last.
pub open spec fn last_fingerprint_of(rows: Seq<ItemView>) -> Option<Seq<char>> {
    match last_visible(rows) {
        Some(i) => Some(rows[i].fingerprint),
        None => None,
    }
}

/// The visible row with the given id, if there is one.
pub open spec fn visible_row(rows: Seq<ItemView>, id: int) -> Option<ItemView>
    decreases rows.len(),
{
    if rows.len() == 0 {
        None
    } else if rows.last().id == id {
        if is_visible(rows.last()) {
            Some(rows.last())
        } else {
            None
        }
    } else {
        visible_row(rows.drop_last(), id)
    }
}

/// Which rows a command addresses.
#[derive(Debug, Clone, Copy)]
pub enum Scope {
    /// The row with this id.
    Id(i64),
    /// Every row that is neither pinned nor favorited.
    Unprotected,
    /// Every row.
    All,
}

/// What a command does to the rows it addresses.
#[derive(Debug, Clone, Copy)]
pub enum Change {
    Favorite(bool),
    Pin(bool),
    Delete,
}

/// Whether a row is addressed.
pub open spec fn in_scope(it: ItemView, scope: Scope) -> bool {
    match scope {
        Scope::Id(id) => it.id == id,
        Scope::Unprotected => !it.pinned && !it.favorite,
        Scope::All => true,
    }
}

/// A row after a change.
pub open spec fn changed(it: ItemView, change: Change) -> ItemView {
    match change {
        Change::Favorite(f) => ItemView { favorite: f, ..it },
        Change::Pin(p) => ItemView { pinned: p, ..it },
        Change::Delete => ItemView { deleted: true, ..it },
    }
}

/// The table after a command: addressed rows are changed, all others are as
/// they were.
pub open spec fn updated(rows: Seq<ItemView>, scope: Scope, change: Change) -> Seq<ItemView> {
    Seq::new(
        rows.len(),
        |i: int|
            if in_scope(rows[i], scope) {
                changed(rows[i], change)
            } else {
                rows[i]
            },
    )
}

/// The position of a key in a settings table.
pub open spec fn key_position(entries: Seq<(Seq<char>, Seq<char>)>, key: Seq<char>) -> Option<int>
    decreases entries.len(),
{
    if entries.len() == 0 {
        None
    } else {
        match key_position(entries.drop_last(), key) {
            Some(i) => Some(i),
            None => if entries.last().0 == key {
                Some(entries.len() - 1)
            } else {
                None
            },
        }
    }
}

/// The settings table after a value is stored under a key: the key's row is
/// overwritten, or a new row is added when the key had none.
pub open spec fn upserted(
    entries: Seq<(Seq<char>, Seq<char>)>,
    key: Seq<char>,
    value_json: Seq<char>,
) -> Seq<(Seq<char>, Seq<char>)> {
    match key_position(entries, key) {
        Some(i) => entries.update(i, (key, value_json)),
        None => entries.push((key, value_json)),
    }
}

/// The settings that result from applying every stored row, in table order,
/// to `base`.
pub open spec fn loaded(entries: Seq<(Seq<char>, Seq<char>)>, base: SettingsView) -> SettingsView
    decreases entries.len(),
{
    if entries.len() == 0 {
        base
    } else {
        applied(
            loaded(entries.drop_last(), base),
            entries.last().0,
            stored_value(entries.last().1),
        )
    }
}

/// The clipboard payload of a row.
pub open spec fn payload_shows(p: ClipboardPayload, row: ItemView) -> bool {
    &&& p.kind@ == row.kind
    &&& opt_str_view(p.text) == row.text
    &&& opt_bytes_view(p.image_rgba) == row.image_rgba
    &&& opt_int_view(p.image_width) == row.image_width
    &&& opt_int_view(p.image_height) == row.image_height
}

/// The preview of a row.
pub open spec fn preview_shows(p: ItemPreview, row: ItemView) -> bool {
    &&& p.kind@ == row.kind
    &&& p.text@ == shown_text(row)
    &&& opt_bytes_view(p.image_rgba) == row.image_rgba
    &&& opt_int_view(p.image_width) == row.image_width
    &&& opt_int_view(p.image_height) == row.image_height
}

/// What an insert at time `now` does: with an id to give, the new row is
/// appended and its id returned; without one, nothing changes.
pub open spec fn insert_outcome(
    before: Seq<ItemView>,
    after: Seq<ItemView>,
    r: Result<i64, StorageError>,
    now: i64,
    kind: Seq<char>,
    text: Option<Seq<char>>,
    fingerprint: Seq<char>,
    image_rgba: Option<Seq<u8>>,
    image_width: Option<int>,
    image_height: Option<int>,
) -> bool {
    if next_id(before) <= i64::MAX {
        &&& r is Ok
        &&& r->Ok_0 == next_id(before)
        &&& after == before.push(
            fresh_row(
                next_id(before),
                now as int,
                kind,
                text,
                fingerprint,
                image_rgba,
                image_width,
                image_height,
            ),
        )
    } else {
        &&& r == Err::<i64, StorageError>(StorageError::IdsExhausted)
        &&& after == before
    }
}

fn copy_opt_bytes(b: &Option<Vec<u8>>) -> (r: Option<Vec<u8>>)
    ensures
        opt_bytes_view(r) == opt_bytes_view(*b),
{
    match b {
        Some(v) => Some(slice_to_vec(v.as_slice())),
        None => None,
    }
}

/// Applies a change to the addressed rows of a table.
pub fn update_rows(items: &mut Vec<ClipboardItem>, scope: Scope, change: Change)
    ensures
        item_views(final(items)@) == updated(item_views(old(items)@), scope, change),
{
    let ghost rows = item_views(items@);
    let ghost goal = updated(rows, scope, change);
    let len = items.len();
    let mut i: usize = 0;
    while i < len
        invariant
            i <= len,
            len == items.len(),
            len == rows.len(),
            goal == updated(rows, scope, change),
            forall|j: int| 0 <= j < i ==> (#[trigger] items@[j])@ == goal[j],
            forall|j: int| i <= j < len ==> (#[trigger] items@[j])@ == rows[j],
        decreases len - i,
    {
        let addressed = match scope {
            Scope::Id(id) => items[i].id == id,
            Scope::Unprotected => !items[i].pinned && !items[i].favorite,
            Scope::All => true,
        };
        if addressed {
            match change {
                Change::Favorite(f) => {
                    items[i].favorite = f;
                },
                Change::Pin(p) => {
                    items[i].pinned = p;
                },
                Change::Delete => {
                    items[i].deleted = true;
                },
            }
        }
        i += 1;
    }
    assert(item_views(items@) =~= goal);
}

/// A command keeps ids in place, so increasing ids stay increasing.
pub proof fn lemma_updated_keeps_ids(rows: Seq<ItemView>, scope: Scope, change: Change)
    ensures
        updated(rows, scope, change).len() == rows.len(),
        forall|i: int|
            0 <= i < rows.len() ==> (#[trigger] updated(rows, scope, change)[i]).id == rows[i].id,
        ids_increase(rows) ==> ids_increase(updated(rows, scope, change)),
{
}

/// `last_visible` finds a visible row after which no row is visible, and
/// finds none only when no row is visible. In a table whose ids increase it is
/// the visible row with the largest id.
pub proof fn lemma_last_visible(rows: Seq<ItemView>)
    ensures
        match last_visible(rows) {
            Some(last) => {
                &&& 0 <= last < rows.len()
                &&& is_visible(rows[last])
                &&& forall|j: int| last < j < rows.len() ==> !is_visible(#[trigger] rows[j])
                &&& ids_increase(rows) ==> forall|j: int|
                    0 <= j < rows.len() && is_visible(#[trigger] rows[j]) ==> rows[j].id
                        <= rows[last].id
            },
            None => forall|j: int| 0 <= j < rows.len() ==> !is_visible(#[trigger] rows[j]),
        },
    decreases rows.len(),
{
    if rows.len() > 0 && !is_visible(rows.last()) {
        let front = rows.drop_last();
        lemma_last_visible(front);
        assert forall|j: int| 0 <= j < front.len() implies front[j] == rows[j] by {}
        match last_visible(front) {
            Some(last) => {
                assert forall|j: int| last < j < rows.len() implies !is_visible(
                    #[trigger] rows[j],
                ) by {
                    if j < front.len() {
                        assert(!is_visible(front[j]));
                    }
                }
                if ids_increase(rows) {
                    assert forall|j: int|
                        0 <= j < rows.len() && is_visible(#[trigger] rows[j]) implies rows[j].id
                        <= rows[last].id by {
                        if j > last {
                            assert(!is_visible(rows[j]));
                        } else if j < last {
                            assert(rows[j].id < rows[last].id);
                        }
                    }
                }
            },
            None => {
                assert forall|j: int| 0 <= j < rows.len() implies !is_visible(
                    #[trigger] rows[j],
                ) by {
                    if j < front.len() {
                        assert(!is_visible(front[j]));
                    }
                }
            },
        }
    } else if rows.len() > 0 {
        let last = rows.len() - 1;
        if ids_increase(rows) {
            assert forall|j: int|
                0 <= j < rows.len() && is_visible(#[trigger] rows[j]) implies rows[j].id
                <= rows[last].id by {
                if j < last {
                    assert(rows[j].id < rows[last].id);
                }
            }
        }
    }
}

/// The clipboard history and the stored settings.
pub struct Storage {
    items: Vec<ClipboardItem>,
    entries: Vec<SettingEntry>,
}

impl Storage {
    #[verifier::type_invariant]
    spec fn well_formed(self) -> bool {
        &&& ids_increase(item_views(self.items@))
        &&& keys_unique(entry_views(self.entries@))
    }

    /// The rows of the history, oldest insert first.
    pub closed spec fn rows(&self) -> Seq<ItemView> {
        item_views(self.items@)
    }

    /// The rows of the settings table.
    pub closed spec fn setting_rows(&self) -> Seq<(Seq<char>, Seq<char>)> {
        entry_views(self.entries@)
    }

    /// An empty store.
    pub fn new() -> (s: Storage)
        ensures
            s.rows() == Seq::<ItemView>::empty(),
            s.setting_rows() == Seq::<(Seq<char>, Seq<char>)>::empty(),
    {
        let s = Storage { items: Vec::new(), entries: Vec::new() };
        assert(s.rows() =~= Seq::<ItemView>::empty());
        assert(s.setting_rows() =~= Seq::<(Seq<char>, Seq<char>)>::empty());
        s
    }

    /// The rows of the history, oldest insert first. Their ids increase.
    pub fn items(&self) -> (v: &Vec<ClipboardItem>)
        ensures
            item_views(v@) == self.rows(),
            ids_increase(self.rows()),
    {
        proof {
            use_type_invariant(self);
        }
        &self.items
    }

    /// The rows of the settings table. No key occurs twice.
    pub fn setting_entries(&self) -> (v: &Vec<SettingEntry>)
        ensures
            entry_views(v@) == self.setting_rows(),
            keys_unique(self.setting_rows()),
    {
        proof {
            use_type_invariant(self);
        }
        &self.entries
    }

    /// Soft-deletes every evictable row beyond the newest `max_items`; see
    /// `after_retention`. Pinned and favorited rows are never evicted, so more
    /// than `max_items` rows may stay visible. A limit of zero or less does
    /// nothing.
    pub fn enforce_max_items(&mut self, max_items: i64)
        ensures
            final(self).rows() == after_retention(old(self).rows(), max_items as int),
            final(self).setting_rows() == old(self).setting_rows(),
    {
        proof {
            use_type_invariant(&*self);
            crate::retention::lemma_retention_only_soft_deletes(self.rows(), max_items as int);
        }
        let mut items: Vec<ClipboardItem> = Vec::new();
        std::mem::swap(&mut self.items, &mut items);
        enforce_retention(&mut items, max_items);
        std::mem::swap(&mut self.items, &mut items);
    }

    /// Adds an item captured at time `now` and returns its id; see
    /// `insert_outcome`. Fails only when the ids are used up.
    pub fn insert_item_at(
        &mut self,
        now: i64,
        kind: &str,
        text: Option<&str>,
        fingerprint: &str,
        image_rgba: Option<&[u8]>,
        image_width: Option<i64>,
        image_height: Option<i64>,
    ) -> (r: Result<i64, StorageError>)
        ensures
            insert_outcome(
                old(self).rows(),
                final(self).rows(),
                r,
                now,
                kind@,
                opt_slice_view(text),
                fingerprint@,
                opt_byte_slice_view(image_rgba),
                opt_int_view(image_width),
                opt_int_view(image_height),
            ),
            r is Ok ==> last_fingerprint_of(final(self).rows()) == Some(fingerprint@),
            final(self).setting_rows() == old(self).setting_rows(),
    {
        proof {
            use_type_invariant(&*self);
        }
        let ghost before = self.rows();
        let n = self.items.len();
        let id: i64 = if n == 0 {
            1
        } else {
            let last = self.items[n - 1].id;
            assert(last == before.last().id);
            if last == i64::MAX {
                return Err(StorageError::IdsExhausted);
            }
            last + 1
        };
        let row = ClipboardItem {
            id,
            created_at: now,
            kind: String::from_str(kind),
            text: match text {
                Some(t) => Some(String::from_str(t)),
                None => None,
            },
            image_rgba: match image_rgba {
                Some(b) => Some(slice_to_vec(b)),
                None => None,
            },
            image_width,
            image_height,
            fingerprint: String::from_str(fingerprint),
            favorite: false,
            pinned: false,
            deleted: false,
        };
        let mut items: Vec<ClipboardItem> = Vec::new();
        std::mem::swap(&mut self.items, &mut items);
        items.push(row);
        proof {
            assert(item_views(items@) =~= before.push(row@));
            assert forall|i: int, j: int| 0 <= i < j < items@.len() implies item_views(
                items@,
            )[i].id < item_views(items@)[j].id by {
                if j == n {
                    if i < n {
                        assert(before[i].id <= before.last().id);
                    }
                }
            }
        }
        std::mem::swap(&mut self.items, &mut items);
        Ok(id)
    }

    /// Adds an item captured now and returns its id. The row is stamped with
    /// the clock's reading, whatever that is; for the rest see `insert_outcome`.
    pub fn insert_item(
        &mut self,
        kind: &str,
        text: Option<&str>,
        fingerprint: &str,
        image_rgba: Option<&[u8]>,
        image_width: Option<i64>,
        image_height: Option<i64>,
    ) -> (r: Result<i64, StorageError>)
        ensures
            exists|now: i64|
                insert_outcome(
                    old(self).rows(),
                    final(self).rows(),
                    r,
                    now,
                    kind@,
                    opt_slice_view(text),
                    fingerprint@,
                    opt_byte_slice_view(image_rgba),
                    opt_int_view(image_width),
                    opt_int_view(image_height),
                ),
            r is Ok ==> last_fingerprint_of(final(self).rows()) == Some(fingerprint@),
            final(self).setting_rows() == old(self).setting_rows(),
    {
        let now = crate::clock::unix_ms();
        self.insert_item_at(now, kind, text, fingerprint, image_rgba, image_width, image_height)
    }

    /// The fingerprint of the visible item that was stored last, if any is
    /// visible.
    pub fn last_fingerprint(&self) -> (r: Option<String>)
        ensures
            opt_str_view(r) == last_fingerprint_of(self.rows()),
    {
        let ghost rows = self.rows();
        let n = self.items.len();
        let mut k: usize = n;
        assert(rows.take(n as int) =~= rows);
        while k > 0
            invariant
                k <= n,
                n == self.items.len(),
                rows == item_views(self.items@),
                last_visible(rows) == last_visible(rows.take(k as int)),
            decreases k,
        {
            proof {
                assert(rows.take(k as int).last() == rows[k - 1]);
                assert(rows.take(k as int).drop_last() =~= rows.take(k - 1));
            }
            if !self.items[k - 1].deleted {
                return Some(self.items[k - 1].fingerprint.clone());
            }
            k -= 1;
        }
        None
    }

    /// Finds the visible row with the given id.
    fn find_visible(&self, item_id: i64) -> (r: Option<usize>)
        ensures
            match r {
                Some(i) => i < self.items.len() && visible_row(self.rows(), item_id as int) == Some(
                    self.rows()[i as int],
                ),
                None => visible_row(self.rows(), item_id as int) is None,
            },
    {
        let ghost rows = self.rows();
        let n = self.items.len();
        let mut k: usize = n;
        assert(rows.take(n as int) =~= rows);
        while k > 0
            invariant
                k <= n,
                n == self.items.len(),
                rows == item_views(self.items@),
                visible_row(rows, item_id as int) == visible_row(rows.take(k as int), item_id as int),
            decreases k,
        {
            let it = &self.items[k - 1];
            proof {
                assert(rows.take(k as int).last() == rows[k - 1]);
                assert(rows.take(k as int).drop_last() =~= rows.take(k - 1));
            }
            if it.id == item_id {
                if it.deleted {
                    return None;
                }
                return Some(k - 1);
            }
            k -= 1;
        }
        None
    }

    /// Everything needed to put an item back on the clipboard, for a visible
    /// item; `None` when the id is unknown or the item is deleted.
    pub fn get_item_clipboard_payload(&self, item_id: i64) -> (r: Option<ClipboardPayload>)
        ensures
            match r {
                Some(p) => visible_row(self.rows(), item_id as int) is Some && payload_shows(
                    p,
                    visible_row(self.rows(), item_id as int)->0,
                ),
                None => visible_row(self.rows(), item_id as int) is None,
            },
    {
        match self.find_visible(item_id) {
            Some(i) => {
                let row = &self.items[i];
                Some(
                    ClipboardPayload {
                        kind: row.kind.clone(),
                        text: match &row.text {
                            Some(t) => Some(t.clone()),
                            None => None,
                        },
                        image_rgba: copy_opt_bytes(&row.image_rgba),
                        image_width: row.image_width,
                        image_height: row.image_height,
                    },
                )
            },
            None => None,
        }
    }

    /// The full content of a visible item for display, its text empty where it
    /// has none; `None` when the id is unknown or the item is deleted.
    pub fn get_item_preview(&self, item_id: i64) -> (r: Option<ItemPreview>)
        ensures
            match r {
                Some(p) => visible_row(self.rows(), item_id as int) is Some && preview_shows(
                    p,
                    visible_row(self.rows(), item_id as int)->0,
                ),
                None => visible_row(self.rows(), item_id as int) is None,
            },
    {
        match self.find_visible(item_id) {
            Some(i) => {
                let row = &self.items[i];
                Some(
                    ItemPreview {
                        kind: row.kind.clone(),
                        text: match &row.text {
                            Some(t) => t.clone(),
                            None => String::new(),
                        },
                        image_rgba: copy_opt_bytes(&row.image_rgba),
                        image_width: row.image_width,
                        image_height: row.image_height,
                    },
                )
            },
            None => None,
        }
    }

    /// Answers a search request with one page of the listing of the rows
    /// that the request selects.
    ///
    /// `filter` is `favorites`, `pinned` or anything else for all rows, and
    /// `limit` is clamped to 1..=200. The listing holds exactly the visible
    /// rows that the filter lets through and the query selects, each once,
    /// pinned rows first, then favorited ones, then newer before older; see
    /// `is_listing`. A query selects a row when each of its terms stands in
    /// the row's text as a phrase; see `row_selected`. The page starts at
    /// `offset`; `total` counts the listing.
    pub fn search_items(&self, query: &str, limit: u32, offset: u32, filter: &str) -> (resp:
        SearchResponse)
        ensures
            forall|hits: Seq<int>|
                #[trigger] is_listing(self.rows(), filter@, query@, hits) ==> is_page_of(
                    resp,
                    self.rows(),
                    hits,
                    limit,
                    offset,
                ),
            answers(resp, self.rows(), query@, limit, offset, filter@),
    {
        proof {
            use_type_invariant(self);
            assert forall|hits: Seq<int>|
                #[trigger] is_listing(self.rows(), filter@, query@, hits) implies hits
                == crate::search::search_hits(self.rows(), filter@, query@) by {
                crate::search::lemma_listing_is_search_hits(self.rows(), filter@, query@, hits);
            }
        }
        search_rows(&self.items, query, limit, offset, filter)
    }

    /// Applies a change to the addressed rows; see `updated`.
    fn update(&mut self, scope: Scope, change: Change)
        ensures
            final(self).rows() == updated(old(self).rows(), scope, change),
            final(self).setting_rows() == old(self).setting_rows(),
    {
        proof {
            use_type_invariant(&*self);
            lemma_updated_keeps_ids(self.rows(), scope, change);
        }
        let mut items: Vec<ClipboardItem> = Vec::new();
        std::mem::swap(&mut self.items, &mut items);
        update_rows(&mut items, scope, change);
        std::mem::swap(&mut self.items, &mut items);
    }

    /// Sets or clears the favorite flag of the item with the given id. An
    /// unknown id changes nothing.
    pub fn set_favorite(&mut self, item_id: i64, favorite: bool)
        ensures
            final(self).rows() == updated(
                old(self).rows(),
                Scope::Id(item_id),
                Change::Favorite(favorite),
            ),
            final(self).setting_rows() == old(self).setting_rows(),
    {
        self.update(Scope::Id(item_id), Change::Favorite(favorite));
    }

    /// Sets or clears the pinned flag of the item with the given id. An
    /// unknown id changes nothing.
    pub fn pin_item(&mut self, item_id: i64, pinned: bool)
        ensures
            final(self).rows() == updated(old(self).rows(), Scope::Id(item_id), Change::Pin(pinned)),
            final(self).setting_rows() == old(self).setting_rows(),
    {
        self.update(Scope::Id(item_id), Change::Pin(pinned));
    }

    /// Soft-deletes the item with the given id. An unknown id changes nothing.
    pub fn delete_item(&mut self, item_id: i64)
        ensures
            final(self).rows() == updated(old(self).rows(), Scope::Id(item_id), Change::Delete),
            final(self).setting_rows() == old(self).setting_rows(),
    {
        self.update(Scope::Id(item_id), Change::Delete);
    }

    /// Soft-deletes every item that is neither pinned nor favorited.
    pub fn clear_history(&mut self)
        ensures
            final(self).rows() == updated(old(self).rows(), Scope::Unprotected, Change::Delete),
            final(self).setting_rows() == old(self).setting_rows(),
    {
        self.update(Scope::Unprotected, Change::Delete);
    }

    /// Soft-deletes every item.
    pub fn clear_all_history(&mut self)
        ensures
            final(self).rows() == updated(old(self).rows(), Scope::All, Change::Delete),
            final(self).setting_rows() == old(self).setting_rows(),
    {
        self.update(Scope::All, Change::Delete);
    }

    /// The settings that result from applying every stored row to `defaults`;
    /// see `loaded`. Unknown keys and values of the wrong type are passed over.
    pub fn load_settings(&self, defaults: Settings) -> (s: Settings)
        ensures
            s@ == loaded(self.setting_rows(), defaults@),
    {
        let ghost entries = self.setting_rows();
        let ghost base = defaults@;
        let mut settings = defaults;
        let n = self.entries.len();
        let mut k: usize = 0;
        while k < n
            invariant
                k <= n,
                n == self.entries.len(),
                entries == entry_views(self.entries@),
                settings@ == loaded(entries.take(k as int), base),
            decreases n - k,
        {
            proof {
                assert(entries.take(k + 1).drop_last() =~= entries.take(k as int));
                assert(entries.take(k + 1).last() == entries[k as int]);
            }
            let entry = &self.entries[k];
            let value = read_stored_value(entry.value_json.as_str());
            apply_setting_value(&mut settings, entry.key.as_str(), value);
            k += 1;
        }
        assert(entries.take(n as int) =~= entries);
        settings
    }

    /// Stores a value, given as JSON text, under a key; see `upserted`.
    pub fn upsert_setting(&mut self, key: &str, value_json: &str)
        ensures
            final(self).setting_rows() == upserted(old(self).setting_rows(), key@, value_json@),
            final(self).rows() == old(self).rows(),
    {
        proof {
            use_type_invariant(&*self);
        }
        let ghost before = self.setting_rows();
        let mut entries: Vec<SettingEntry> = Vec::new();
        std::mem::swap(&mut self.entries, &mut entries);
        let n = entries.len();
        let mut k: usize = 0;
        let mut found: Option<usize> = None;
        assert(n == 0 ==> before.take(0) =~= before);
        while k < n
            invariant_except_break
                k <= n,
                found is None,
                key_position(before.take(k as int), key@) is None,
                k == n ==> key_position(before, key@) is None,
            invariant
                n == entries.len(),
                before == entry_views(entries@),
            ensures
                n == entries.len(),
                before == entry_views(entries@),
                match found {
                    Some(i) => i < n && key_position(before, key@) == Some(i as int),
                    None => key_position(before, key@) is None,
                },
            decreases n - k,
        {
            proof {
                assert(before.take(k + 1).drop_last() =~= before.take(k as int));
                assert(before.take(k + 1).last() == before[k as int]);
            }
            if str_equals(entries[k].key.as_str(), key) {
                found = Some(k);
                proof {
                    lemma_key_position_prefix(before, key@, k as int);
                }
                break ;
            }
            k += 1;
            assert(k == n ==> before.take(k as int) =~= before);
        }
        let entry = SettingEntry { key: String::from_str(key), value_json: String::from_str(value_json) };
        match found {
            Some(i) => {
                entries.set(i, entry);
                proof {
                    assert(entry_views(entries@) =~= before.update(i as int, (key@, value_json@)));
                    assert forall|a: int, b: int|
                        0 <= a < n && 0 <= b < n && a != b implies (#[trigger] entry_views(
                        entries@,
                    )[a]).0 != (#[trigger] entry_views(entries@)[b]).0 by {
                        lemma_key_position_found(before, key@);
                        assert(before[a].0 != before[b].0);
                    }
                }
            },
            None => {
                entries.push(entry);
                proof {
                    assert(entry_views(entries@) =~= before.push((key@, value_json@)));
                    lemma_key_position_absent(before, key@);
                    assert forall|a: int, b: int|
                        0 <= a <= n && 0 <= b <= n && a != b implies (#[trigger] entry_views(
                        entries@,
                    )[a]).0 != (#[trigger] entry_views(entries@)[b]).0 by {
                        if a < n && b < n {
                            assert(before[a].0 != before[b].0);
                        }
                    }
                }
            },
        }
        std::mem::swap(&mut self.entries, &mut entries);
    }

    /// Builds a store from rows that were kept elsewhere. The rows are taken
    /// when the item ids increase strictly and no settings key occurs twice, and
    /// refused otherwise.
    pub fn restore(items: Vec<ClipboardItem>, entries: Vec<SettingEntry>) -> (r: Option<Storage>)
        ensures
            r is Some <==> ids_increase(item_views(items@)) && keys_unique(entry_views(entries@)),
            r matches Some(s) ==> s.rows() == item_views(items@) && s.setting_rows() == entry_views(
                entries@,
            ),
    {
        let ghost rows = item_views(items@);
        let ghost keys = entry_views(entries@);
        let mut i: usize = 1;
        while i < items.len()
            invariant
                1 <= i,
                rows == item_views(items@),
                forall|a: int| 0 < a < i && a < rows.len() ==> (#[trigger] rows[a - 1]).id < rows[a].id,
            decreases items.len() - i,
        {
            if items[i - 1].id >= items[i].id {
                assert(rows[i - 1].id >= rows[i as int].id);
                return None;
            }
            i += 1;
        }
        proof {
            lemma_adjacent_ids(rows);
        }
        let mut a: usize = 0;
        while a < entries.len()
            invariant
                a <= entries.len(),
                keys == entry_views(entries@),
                forall|x: int, y: int| 0 <= x < a && x < y < keys.len() ==> (#[trigger] keys[x]).0 != (
                #[trigger] keys[y]).0,
            decreases entries.len() - a,
        {
            let mut b: usize = a + 1;
            while b < entries.len()
                invariant
                    a < b <= entries.len(),
                    keys == entry_views(entries@),
                    forall|y: int| a < y < b ==> keys[a as int].0 != (#[trigger] keys[y]).0,
                decreases entries.len() - b,
            {
                if str_equals(entries[a].key.as_str(), entries[b].key.as_str()) {
                    assert(keys[a as int].0 == keys[b as int].0);
                    return None;
                }
                b += 1;
            }
            a += 1;
        }
        assert(keys_unique(keys)) by {
            assert forall|x: int, y: int|
                0 <= x < keys.len() && 0 <= y < keys.len() && x != y implies (#[trigger] keys[x]).0 != (
            #[trigger] keys[y]).0 by {
                if x < y {
                    assert(keys[x].0 != keys[y].0);
                } else {
                    assert(keys[y].0 != keys[x].0);
                }
            }
        }
        Some(Storage { items, entries })
    }
}

/// Ids that increase from each row to the next increase throughout.
proof fn lemma_adjacent_ids(rows: Seq<ItemView>)
    requires
        forall|a: int| 0 < a < rows.len() ==> (#[trigger] rows[a - 1]).id < rows[a].id,
    ensures
        ids_increase(rows),
{
    assert forall|i: int, j: int| 0 <= i < j < rows.len() implies rows[i].id < rows[j].id by {
        lemma_ids_chain(rows, i, j);
    }
}

proof fn lemma_ids_chain(rows: Seq<ItemView>, i: int, j: int)
    requires
        forall|a: int| 0 < a < rows.len() ==> (#[trigger] rows[a - 1]).id < rows[a].id,
        0 <= i < j < rows.len(),
    ensures
        rows[i].id < rows[j].id,
    decreases j - i,
{
    assert(rows[j - 1].id < rows[j].id);
    if i < j - 1 {
        lemma_ids_chain(rows, i, j - 1);
    }
}

/// A key found in a prefix of the table is found at the same place in the
/// whole table.
proof fn lemma_key_position_prefix(entries: Seq<(Seq<char>, Seq<char>)>, key: Seq<char>, k: int)
    requires
        0 <= k < entries.len(),
        key_position(entries.take(k), key) is None,
        entries[k].0 == key,
    ensures
        key_position(entries, key) == Some(k),
    decreases entries.len() - k,
{
    if k == entries.len() - 1 {
        assert(entries.drop_last() =~= entries.take(k));
    } else {
        let front = entries.drop_last();
        assert(front.take(k) =~= entries.take(k));
        lemma_key_position_prefix(front, key, k);
    }
}

/// A key that `key_position` finds stands at the place found.
proof fn lemma_key_position_found(entries: Seq<(Seq<char>, Seq<char>)>, key: Seq<char>)
    ensures
        key_position(entries, key) matches Some(i) ==> 0 <= i < entries.len() && entries[i].0 == key,
    decreases entries.len(),
{
    if entries.len() > 0 {
        lemma_key_position_found(entries.drop_last(), key);
    }
}

/// A key that `key_position` does not find stands nowhere in the table.
proof fn lemma_key_position_absent(entries: Seq<(Seq<char>, Seq<char>)>, key: Seq<char>)
    requires
        key_position(entries, key) is None,
    ensures
        forall|i: int| 0 <= i < entries.len() ==> (#[trigger] entries[i]).0 != key,
    decreases entries.len(),
{
    if entries.len() > 0 {
        let front = entries.drop_last();
        lemma_key_position_absent(front, key);
        assert forall|i: int| 0 <= i < entries.len() implies (#[trigger] entries[i]).0 != key by {
            if i < front.len() {
                assert(front[i].0 != key);
            }
        }
    }
}

/// A visible row after which no row is visible is the one that
/// `last_visible` finds.
pub proof fn lemma_last_visible_is(rows: Seq<ItemView>, i: int)
    requires
        0 <= i < rows.len(),
        is_visible(rows[i]),
        forall|j: int| i < j < rows.len() ==> !is_visible(#[trigger] rows[j]),
    ensures
        last_visible(rows) == Some(i),
{
    lemma_last_visible(rows);
    let last = last_visible(rows)->0;
    if last < i {
        assert(!is_visible(rows[i]));
    } else if i < last {
        assert(!is_visible(rows[last]));
    }
}

/// Round trip: after an item was inserted, its fingerprint is the one that
/// `last_fingerprint` returns, whatever the table held before and whatever
/// the clock read.
pub proof fn lemma_insert_then_last_fingerprint(
    before: Seq<ItemView>,
    after: Seq<ItemView>,
    r: Result<i64, StorageError>,
    now: i64,
    kind: Seq<char>,
    text: Option<Seq<char>>,
    fingerprint: Seq<char>,
    image_rgba: Option<Seq<u8>>,
    image_width: Option<int>,
    image_height: Option<int>,
)
    requires
        insert_outcome(
            before,
            after,
            r,
            now,
            kind,
            text,
            fingerprint,
            image_rgba,
            image_width,
            image_height,
        ),
        r is Ok,
    ensures
        last_fingerprint_of(after) == Some(fingerprint),
{
}

/// Commands are idempotent: issuing one twice leaves the table as issuing
/// it once does.
pub proof fn lemma_updated_idempotent(rows: Seq<ItemView>, scope: Scope, change: Change)
    ensures
        updated(updated(rows, scope, change), scope, change) == updated(rows, scope, change),
{
    assert(updated(updated(rows, scope, change), scope, change) =~= updated(rows, scope, change));
}

/// Commands never remove a row, and deleting only ever sets the `deleted`
/// flag.
pub proof fn lemma_updated_keeps_rows(rows: Seq<ItemView>, scope: Scope, change: Change)
    ensures
        updated(rows, scope, change).len() == rows.len(),
        forall|i: int|
            #![trigger updated(rows, scope, change)[i]]
            0 <= i < rows.len() && change is Delete ==> updated(rows, scope, change)[i] == rows[i]
                || updated(rows, scope, change)[i] == crate::item::as_deleted(rows[i]),
{
}

/// Settings loaded over defaults that are within bounds are within bounds,
/// whatever is stored.
pub proof fn lemma_loaded_within_bounds(entries: Seq<(Seq<char>, Seq<char>)>, base: SettingsView)
    requires
        crate::settings::within_bounds(base),
    ensures
        crate::settings::within_bounds(loaded(entries, base)),
    decreases entries.len(),
{
    if entries.len() > 0 {
        lemma_loaded_within_bounds(entries.drop_last(), base);
        crate::settings::lemma_applied_within_bounds(
            loaded(entries.drop_last(), base),
            entries.last().0,
            stored_value(entries.last().1),
        );
    }
}

} // verus!
