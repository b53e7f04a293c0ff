//! The columns that the items table gained over time, and which of them a
//! table found on disk still lacks. Adding columns is all that is ever done
//! to an existing table.

use vstd::prelude::*;
use crate::text::str_equals;

verus! {

/// A column that the first layout of the items table did not have.
#[derive(Debug, Clone, Copy, PartialEq, Eq, Structural)]
pub enum AddedColumn {
    ImageRgba,
    ImageWidth,
    ImageHeight,
    Favorite,
}

/// The name of a column.
pub open spec fn column_name_of(c: AddedColumn) -> Seq<char> {
    match c {
        AddedColumn::ImageRgba => "image_rgba"@,
        AddedColumn::ImageWidth => "image_width"@,
        AddedColumn::ImageHeight => "image_height"@,
        AddedColumn::Favorite => "favorite"@,
    }
}

/// The added columns in the order in which they are brought in.
pub open spec fn added_columns() -> Seq<AddedColumn> {
    seq![
        AddedColumn::ImageRgba,
        AddedColumn::ImageWidth,
        AddedColumn::ImageHeight,
        AddedColumn::Favorite,
    ]
}

/// Whether a table with the columns `existing` has the column `c`.
pub open spec fn has_column(existing: Seq<Seq<char>>, c: AddedColumn) -> bool {
    existing.contains(column_name_of(c))
}

/// The added columns that a table with the columns `existing` lacks, in
/// the order in which they are brought in.
pub open spec fn missing_of(existing: Seq<Seq<char>>) -> Seq<AddedColumn> {
    added_columns().filter(|c: AddedColumn| !has_column(existing, c))
}

impl AddedColumn {
    /// The name of the column.
    pub fn name(&self) -> (s: &'static str)
        ensures
            s@ == column_name_of(*self),
    {
        match self {
            AddedColumn::ImageRgba => "image_rgba",
            AddedColumn::ImageWidth => "image_width",
            AddedColumn::ImageHeight => "image_height",
            AddedColumn::Favorite => "favorite",
        }
    }
}

/// Whether the list of column names holds the column.
fn holds(existing: &Vec<String>, c: AddedColumn) -> (r: bool)
    ensures
        r == has_column(crate::text::string_views(existing@), c),
{
    let ghost names = crate::text::string_views(existing@);
    let name = c.name();
    let mut i: usize = 0;
    while i < existing.len()
        invariant
            i <= existing.len(),
            names == crate::text::string_views(existing@),
            name@ == column_name_of(c),
            forall|j: int| 0 <= j < i ==> #[trigger] names[j] != column_name_of(c),
        decreases existing.len() - i,
    {
        if str_equals(existing[i].as_str(), name) {
            assert(names[i as int] == column_name_of(c));
            return true;
        }
        i += 1;
    }
    false
}

/// The columns that are to be added to a table found with the columns
/// `existing`; see `missing_of`.
pub fn missing_columns(existing: &Vec<String>) -> (missing: Vec<AddedColumn>)
    ensures
        missing@ == missing_of(crate::text::string_views(existing@)),
{
    let ghost names = crate::text::string_views(existing@);
    let ghost lacks = |c: AddedColumn| !has_column(names, c);
    let mut missing: Vec<AddedColumn> = Vec::new();
    proof {
        let all = added_columns();
        assert(all.take(0).filter(lacks) =~= Seq::<AddedColumn>::empty());
        assert(all.take(1) =~= all.take(0).push(AddedColumn::ImageRgba));
        assert(all.take(2) =~= all.take(1).push(AddedColumn::ImageWidth));
        assert(all.take(3) =~= all.take(2).push(AddedColumn::ImageHeight));
        assert(all.take(4) =~= all.take(3).push(AddedColumn::Favorite));
        assert(all.take(4) =~= all);
        crate::seq_facts::lemma_filter_push(all.take(0), AddedColumn::ImageRgba, lacks);
        crate::seq_facts::lemma_filter_push(all.take(1), AddedColumn::ImageWidth, lacks);
        crate::seq_facts::lemma_filter_push(all.take(2), AddedColumn::ImageHeight, lacks);
        crate::seq_facts::lemma_filter_push(all.take(3), AddedColumn::Favorite, lacks);
    }
    if !holds(existing, AddedColumn::ImageRgba) {
        missing.push(AddedColumn::ImageRgba);
    }
    if !holds(existing, AddedColumn::ImageWidth) {
        missing.push(AddedColumn::ImageWidth);
    }
    if !holds(existing, AddedColumn::ImageHeight) {
        missing.push(AddedColumn::ImageHeight);
    }
    if !holds(existing, AddedColumn::Favorite) {
        missing.push(AddedColumn::Favorite);
    }
    missing
}

/// The names of a list of columns.
pub open spec fn names_of(columns: Seq<AddedColumn>) -> Seq<Seq<char>> {
    Seq::new(columns.len(), |i: int| column_name_of(columns[i]))
}

/// Bringing a table up to date is idempotent: once the missing columns were
/// added, none is missing.
pub proof fn lemma_migration_is_idempotent(existing: Seq<Seq<char>>)
    ensures
        missing_of(existing + names_of(missing_of(existing))) == Seq::<AddedColumn>::empty(),
{
    let missing = missing_of(existing);
    let now = existing + names_of(missing);
    let lacks_before = |c: AddedColumn| !has_column(existing, c);
    let lacks_now = |c: AddedColumn| !has_column(now, c);
    let all = added_columns();
    assert forall|i: int| 0 <= i < all.len() implies !lacks_now(#[trigger] all[i]) by {
        let c = all[i];
        if has_column(existing, c) {
            let w = choose|w: int| 0 <= w < existing.len() && existing[w] == column_name_of(c);
            assert(now[w] == column_name_of(c));
        } else {
            assert(all.filter(lacks_before).contains(c)) by {
                crate::seq_facts::lemma_filter_holds(all, lacks_before, i);
            }
            let w = choose|w: int| 0 <= w < missing.len() && missing[w] == c;
            assert(now[existing.len() + w] == column_name_of(c));
        }
    }
    crate::seq_facts::lemma_filter_none(all, lacks_now);
    assert(all.filter(lacks_now) =~= Seq::<AddedColumn>::empty());
}

} // verus!
