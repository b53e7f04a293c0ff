//! The retention policy: beyond the newest `n` evictable rows, every
//! evictable row is soft-deleted. Pinned and favorited rows are never touched.

use vstd::prelude::*;
use crate::item::{
    ClipboardItem, ItemView, as_deleted, ids_increase, is_evictable, is_newer, item_views,
};
use crate::seq_facts::{
    lemma_filter_agree, lemma_filter_all, lemma_filter_len_mono, lemma_filter_len_remove,
    lemma_filter_members, lemma_filter_push,
};

verus! {

/// Selects the rows that retention may evict.
pub open spec fn evictable_pred() -> spec_fn(ItemView) -> bool {
    |it: ItemView| is_evictable(it)
}

/// Selects the rows that are newer than `it`.
pub open spec fn newer_pred(it: ItemView) -> spec_fn(ItemView) -> bool {
    |other: ItemView| is_newer(other, it)
}

/// The rows of a table that retention may evict.
pub open spec fn evictable_rows(rows: Seq<ItemView>) -> Seq<ItemView> {
    rows.filter(evictable_pred())
}

/// How many of the rows `among` are newer than `it`.
pub open spec fn newer_count(among: Seq<ItemView>, it: ItemView) -> nat {
    among.filter(newer_pred(it)).len()
}

/// Whether retention with limit `n` evicts the row `it` of table `rows`: the
/// limit is positive, the row is evictable, and at least `n` evictable rows
/// are newer than it.
pub open spec fn is_evicted(rows: Seq<ItemView>, n: int, it: ItemView) -> bool {
    n > 0 && is_evictable(it) && newer_count(evictable_rows(rows), it) >= n
}

/// The table after retention with limit `n`: evicted rows are soft-deleted,
/// all others are as they were.
pub open spec fn after_retention(rows: Seq<ItemView>, n: int) -> Seq<ItemView> {
    Seq::new(
        rows.len(),
        |i: int|
            if is_evicted(rows, n, rows[i]) {
                as_deleted(rows[i])
            } else {
                rows[i]
            },
    )
}

/// Whether the key `(created_at, id)` given first is newer than the second.
pub open spec fn key_newer(a: (i64, i64), created_at: i64, id: i64) -> bool {
    a.0 > created_at || (a.0 == created_at && a.1 > id)
}

/// The recency keys of a sequence of rows.
pub open spec fn keys_match(keys: Seq<(i64, i64)>, rows: Seq<ItemView>) -> bool {
    &&& keys.len() == rows.len()
    &&& forall|a: int|
        0 <= a < keys.len() ==> (#[trigger] keys[a]).0 == rows[a].created_at && keys[a].1
            == rows[a].id
}

/// Counts the keys that are newer than the given one.
fn count_newer(keys: &Vec<(i64, i64)>, created_at: i64, id: i64, Ghost(among): Ghost<
    Seq<ItemView>,
>, Ghost(it): Ghost<ItemView>) -> (count: usize)
    requires
        keys_match(keys@, among),
        it.created_at == created_at,
        it.id == id,
    ensures
        count == newer_count(among, it),
{
    let mut count: usize = 0;
    let mut b: usize = 0;
    assert(among.take(0).filter(newer_pred(it)) =~= Seq::<ItemView>::empty());
    while b < keys.len()
        invariant
            b <= keys.len(),
            keys_match(keys@, among),
            it.created_at == created_at,
            it.id == id,
            count == among.take(b as int).filter(newer_pred(it)).len(),
            count <= b,
        decreases keys.len() - b,
    {
        let key = keys[b];
        proof {
            assert(among.take(b + 1) =~= among.take(b as int).push(among[b as int]));
            lemma_filter_push(among.take(b as int), among[b as int], newer_pred(it));
        }
        if key.0 > created_at || (key.0 == created_at && key.1 > id) {
            count += 1;
        }
        b += 1;
    }
    assert(among.take(keys.len() as int) =~= among);
    count
}

/// Applies the retention policy with limit `max_items` to a table. A limit
/// of zero or less switches retention off.
pub fn enforce_retention(items: &mut Vec<ClipboardItem>, max_items: i64)
    ensures
        item_views(final(items)@) == after_retention(item_views(old(items)@), max_items as int),
{
    let ghost rows = item_views(items@);
    let ghost goal = after_retention(rows, max_items as int);
    if max_items <= 0 {
        assert(rows =~= goal);
        return ;
    }
    let len = items.len();
    let mut keys: Vec<(i64, i64)> = Vec::new();
    let mut k: usize = 0;
    assert(rows.take(0).filter(evictable_pred()) =~= Seq::<ItemView>::empty());
    while k < len
        invariant
            k <= len,
            len == items.len(),
            rows == item_views(items@),
            keys_match(keys@, evictable_rows(rows.take(k as int))),
        decreases len - k,
    {
        proof {
            assert(rows.take(k + 1) =~= rows.take(k as int).push(rows[k as int]));
            lemma_filter_push(rows.take(k as int), rows[k as int], evictable_pred());
        }
        let it = &items[k];
        if !it.deleted && !it.pinned && !it.favorite {
            keys.push((it.created_at, it.id));
        }
        k += 1;
    }
    assert(rows.take(len as int) =~= rows);
    let ghost among = evictable_rows(rows);
    let mut i: usize = 0;
    while i < len
        invariant
            i <= len,
            len == items.len(),
            len == rows.len(),
            max_items > 0,
            among == evictable_rows(rows),
            keys_match(keys@, among),
            goal == after_retention(rows, max_items as int),
            forall|j: int| 0 <= j < i ==> (#[trigger] items@[j])@ == goal[j],
            forall|j: int| i <= j < len ==> (#[trigger] items@[j])@ == rows[j],
        decreases len - i,
    {
        let created_at = items[i].created_at;
        let id = items[i].id;
        if !items[i].deleted && !items[i].pinned && !items[i].favorite {
            let count = count_newer(&keys, created_at, id, Ghost(among), Ghost(rows[i as int]));
            if count as u64 >= max_items as u64 {
                items[i].deleted = true;
            }
        }
        i += 1;
    }
    assert(item_views(items@) =~= goal);
}

/// Retention only soft-deletes: the table keeps its length, and each row is
/// either as it was or the same row marked deleted. Rows that are pinned,
/// favorited or already deleted are as they were.
pub proof fn lemma_retention_only_soft_deletes(rows: Seq<ItemView>, n: int)
    ensures
        after_retention(rows, n).len() == rows.len(),
        forall|i: int|
            0 <= i < rows.len() ==> (#[trigger] after_retention(rows, n)[i]) == rows[i]
                || after_retention(rows, n)[i] == as_deleted(rows[i]),
        forall|i: int|
            0 <= i < rows.len() && (rows[i].pinned || rows[i].favorite || rows[i].deleted)
                ==> (#[trigger] after_retention(rows, n)[i]) == rows[i],
        ids_increase(rows) ==> ids_increase(after_retention(rows, n)),
        n <= 0 ==> after_retention(rows, n) == rows,
{
    if n <= 0 {
        assert(after_retention(rows, n) =~= rows);
    }
}

/// Retention evicts the oldest first: when a row is evicted, so is every
/// evictable row older than it.
pub proof fn lemma_retention_evicts_oldest_first(
    rows: Seq<ItemView>,
    n: int,
    newer: ItemView,
    older: ItemView,
)
    requires
        is_evicted(rows, n, newer),
        is_evictable(older),
        is_newer(newer, older),
    ensures
        is_evicted(rows, n, older),
{
    let among = evictable_rows(rows);
    assert forall|i: int| 0 <= i < among.len() && newer_pred(newer)(
        #[trigger] among[i],
    ) implies newer_pred(older)(among[i]) by {}
    lemma_filter_len_mono(among, newer_pred(newer), newer_pred(older));
}

/// Whether recency orders two rows, one way or the other.
pub open spec fn comparable(a: ItemView, b: ItemView) -> bool {
    is_newer(a, b) || is_newer(b, a)
}

/// Any two rows at different places of `s` are ordered by recency.
pub open spec fn recency_total(s: Seq<ItemView>) -> bool {
    forall|i: int, j: int|
        0 <= i < s.len() && 0 <= j < s.len() && i != j ==> #[trigger] comparable(s[i], s[j])
}

/// Selects the rows that have fewer than `n` newer rows in `among`.
pub open spec fn kept_pred(among: Seq<ItemView>, n: int) -> spec_fn(ItemView) -> bool {
    |it: ItemView| newer_count(among, it) < n
}

/// Whether the row at `m` is older than every other row of `s`.
pub open spec fn is_oldest_at(s: Seq<ItemView>, m: int) -> bool {
    &&& 0 <= m < s.len()
    &&& forall|j: int| 0 <= j < s.len() && j != m ==> is_newer(#[trigger] s[j], s[m])
}

/// Taking a row out keeps the rest totally ordered.
proof fn lemma_remove_keeps_total(s: Seq<ItemView>, m: int)
    requires
        recency_total(s),
        0 <= m < s.len(),
    ensures
        recency_total(s.remove(m)),
{
    let rest = s.remove(m);
    assert forall|i: int, j: int|
        0 <= i < rest.len() && 0 <= j < rest.len() && i != j implies #[trigger] comparable(
        rest[i],
        rest[j],
    ) by {
        let a = if i < m { i } else { i + 1 };
        let b = if j < m { j } else { j + 1 };
        assert(rest[i] == s[a] && rest[j] == s[b]);
        assert(comparable(s[a], s[b]));
    }
}

/// A non-empty sequence of rows has an oldest row.
proof fn lemma_oldest_exists(s: Seq<ItemView>) -> (m: int)
    requires
        s.len() > 0,
        recency_total(s),
    ensures
        is_oldest_at(s, m),
    decreases s.len(),
{
    if s.len() == 1 {
        0
    } else {
        let last = s.len() - 1;
        let front = s.drop_last();
        assert(front =~= s.remove(last));
        lemma_remove_keeps_total(s, last);
        let m0 = lemma_oldest_exists(front);
        assert(front[m0] == s[m0]);
        assert(comparable(s[last], s[m0]));
        if is_newer(s[last], s[m0]) {
            assert forall|j: int| 0 <= j < s.len() && j != m0 implies is_newer(
                #[trigger] s[j],
                s[m0],
            ) by {
                if j < last {
                    assert(front[j] == s[j]);
                }
            }
            m0
        } else {
            assert forall|j: int| 0 <= j < s.len() && j != last implies is_newer(
                #[trigger] s[j],
                s[last],
            ) by {
                assert(front[j] == s[j]);
                if j != m0 {
                    assert(is_newer(front[j], front[m0]));
                }
            }
            last
        }
    }
}

/// Every other row is newer than the oldest one.
proof fn lemma_count_at_oldest(s: Seq<ItemView>, m: int)
    requires
        is_oldest_at(s, m),
    ensures
        newer_count(s, s[m]) == s.len() - 1,
{
    let rest = s.remove(m);
    let p = newer_pred(s[m]);
    assert forall|i: int| 0 <= i < rest.len() implies p(#[trigger] rest[i]) by {
        let a = if i < m { i } else { i + 1 };
        assert(rest[i] == s[a]);
        assert(is_newer(s[a], s[m]));
    }
    lemma_filter_all(rest, p);
    lemma_filter_len_remove(s, p, m);
}

/// The oldest row is newer than none, so the other rows have as many newer
/// rows with it as without it.
proof fn lemma_count_without_oldest(s: Seq<ItemView>, m: int, i: int)
    requires
        is_oldest_at(s, m),
        0 <= i < s.len(),
        i != m,
    ensures
        newer_count(s, s[i]) == newer_count(s.remove(m), s[i]),
{
    assert(is_newer(s[i], s[m]));
    lemma_filter_len_remove(s, newer_pred(s[i]), m);
}

/// Among rows that recency orders totally, exactly `min(n, len)` have fewer
/// than `n` newer rows.
pub proof fn lemma_kept_count(among: Seq<ItemView>, n: int)
    requires
        recency_total(among),
        n >= 0,
    ensures
        among.filter(kept_pred(among, n)).len() == if n <= among.len() {
            n
        } else {
            among.len() as int
        },
    decreases among.len(),
{
    if among.len() == 0 {
        assert(among.filter(kept_pred(among, n)) =~= Seq::<ItemView>::empty());
    } else {
        let m = lemma_oldest_exists(among);
        let rest = among.remove(m);
        lemma_remove_keeps_total(among, m);
        lemma_kept_count(rest, n);
        lemma_count_at_oldest(among, m);
        assert forall|i: int| 0 <= i < rest.len() implies kept_pred(among, n)(
            #[trigger] rest[i],
        ) == kept_pred(rest, n)(rest[i]) by {
            let a = if i < m { i } else { i + 1 };
            assert(rest[i] == among[a]);
            lemma_count_without_oldest(among, m, a);
        }
        lemma_filter_agree(rest, kept_pred(among, n), kept_pred(rest, n));
        lemma_filter_len_remove(among, kept_pred(among, n), m);
    }
}

/// Filtering keeps ids increasing, and every selected id occurs in the
/// sequence.
proof fn lemma_filter_keeps_ids_increasing(rows: Seq<ItemView>, p: spec_fn(ItemView) -> bool)
    requires
        ids_increase(rows),
    ensures
        ids_increase(rows.filter(p)),
    decreases rows.len(),
{
    reveal_with_fuel(Seq::filter, 2);
    if rows.len() > 0 {
        let front = rows.drop_last();
        assert(ids_increase(front)) by {
            assert forall|i: int, j: int| 0 <= i < j < front.len() implies front[i].id
                < front[j].id by {
                assert(front[i] == rows[i] && front[j] == rows[j]);
            }
        }
        lemma_filter_keeps_ids_increasing(front, p);
        let kept = front.filter(p);
        if p(rows.last()) {
            let all = kept.push(rows.last());
            assert forall|i: int, j: int| 0 <= i < j < all.len() implies all[i].id
                < all[j].id by {
                if j == kept.len() {
                    lemma_filter_members(front, p, i);
                    let w = choose|w: int| 0 <= w < front.len() && front[w] == kept[i];
                    assert(front[w] == rows[w]);
                }
            }
        }
    }
}

/// The evictable rows left by retention are the formerly evictable rows with
/// fewer than `n` newer ones.
proof fn lemma_evictable_after_retention(rows: Seq<ItemView>, n: int, k: int)
    requires
        n > 0,
        0 <= k <= rows.len(),
    ensures
        evictable_rows(after_retention(rows, n).take(k)) == evictable_rows(rows.take(k)).filter(
            kept_pred(evictable_rows(rows), n),
        ),
    decreases k,
{
    let after = after_retention(rows, n);
    let kept = kept_pred(evictable_rows(rows), n);
    if k == 0 {
        assert(after.take(0) =~= Seq::<ItemView>::empty());
        assert(rows.take(0) =~= Seq::<ItemView>::empty());
        assert(evictable_rows(after.take(0)) =~= Seq::<ItemView>::empty());
        assert(evictable_rows(rows.take(0)).filter(kept) =~= Seq::<ItemView>::empty());
    } else {
        lemma_evictable_after_retention(rows, n, k - 1);
        assert(after.take(k) =~= after.take(k - 1).push(after[k - 1]));
        assert(rows.take(k) =~= rows.take(k - 1).push(rows[k - 1]));
        lemma_filter_push(after.take(k - 1), after[k - 1], evictable_pred());
        lemma_filter_push(rows.take(k - 1), rows[k - 1], evictable_pred());
        if is_evictable(rows[k - 1]) {
            lemma_filter_push(evictable_rows(rows.take(k - 1)), rows[k - 1], kept);
        }
    }
}

/// Retention leaves exactly `n` evictable rows, or all of them when there
/// were no more than `n`.
pub proof fn lemma_retention_count(rows: Seq<ItemView>, n: int)
    requires
        ids_increase(rows),
        n > 0,
    ensures
        evictable_rows(after_retention(rows, n)).len() == if n <= evictable_rows(rows).len() {
            n
        } else {
            evictable_rows(rows).len() as int
        },
{
    let among = evictable_rows(rows);
    lemma_filter_keeps_ids_increasing(rows, evictable_pred());
    assert(recency_total(among)) by {
        assert forall|i: int, j: int|
            0 <= i < among.len() && 0 <= j < among.len() && i != j implies #[trigger] comparable(
            among[i],
            among[j],
        ) by {
            if i < j {
                assert(among[i].id < among[j].id);
            } else {
                assert(among[j].id < among[i].id);
            }
        }
    }
    lemma_kept_count(among, n);
    lemma_evictable_after_retention(rows, n, rows.len() as int);
    assert(after_retention(rows, n).take(rows.len() as int) =~= after_retention(rows, n));
    assert(rows.take(rows.len() as int) =~= rows);
}

/// The table after the rows `added` were inserted one by one, retention
/// with limit `n` being applied after each insert.
pub open spec fn after_inserts(rows: Seq<ItemView>, added: Seq<ItemView>, n: int) -> Seq<ItemView>
    decreases added.len(),
{
    if added.len() == 0 {
        rows
    } else {
        after_retention(after_inserts(rows, added.drop_last(), n).push(added.last()), n)
    }
}

/// Inserting with retention keeps every row at its place with its id, and
/// leaves pinned and favorited rows entirely as they were.
pub proof fn lemma_after_inserts_keeps_places(rows: Seq<ItemView>, added: Seq<ItemView>, n: int)
    ensures
        after_inserts(rows, added, n).len() == rows.len() + added.len(),
        forall|i: int|
            0 <= i < rows.len() + added.len() ==> (#[trigger] after_inserts(rows, added, n)[i]).id
                == (rows + added)[i].id,
        forall|i: int|
            0 <= i < rows.len() && (rows[i].pinned || rows[i].favorite) ==> (
            #[trigger] after_inserts(rows, added, n)[i]) == rows[i],
    decreases added.len(),
{
    if added.len() > 0 {
        let front = added.drop_last();
        let prev = after_inserts(rows, front, n);
        lemma_after_inserts_keeps_places(rows, front, n);
        let pushed = prev.push(added.last());
        lemma_retention_only_soft_deletes(pushed, n);
        let out = after_inserts(rows, added, n);
        assert forall|i: int| 0 <= i < rows.len() + added.len() implies (#[trigger] out[i]).id == (
        rows + added)[i].id by {
            if i < rows.len() + front.len() {
                assert(pushed[i] == prev[i]);
                assert((rows + front)[i] == (rows + added)[i]);
            } else {
                assert(pushed[i] == added.last());
            }
        }
        assert forall|i: int|
            0 <= i < rows.len() && (rows[i].pinned || rows[i].favorite) implies (#[trigger] out[i])
            == rows[i] by {
            assert(pushed[i] == prev[i]);
        }
    }
}

/// Retention under steady inserts: once the rows `added`, all of them
/// evictable, were inserted into a table, each insert followed by retention
/// with the limit `n`, exactly `n` evictable rows are left, or all of them
/// when there are no more than `n`.
pub proof fn lemma_inserts_leave_limit(rows: Seq<ItemView>, added: Seq<ItemView>, n: int)
    requires
        n > 0,
        added.len() > 0,
        ids_increase(rows + added),
        forall|i: int| 0 <= i < added.len() ==> is_evictable(#[trigger] added[i]),
    ensures
        evictable_rows(after_inserts(rows, added, n)).len() == if n <= evictable_rows(rows).len()
            + added.len() {
            n
        } else {
            (evictable_rows(rows).len() + added.len()) as int
        },
    decreases added.len(),
{
    let front = added.drop_last();
    let prev = after_inserts(rows, front, n);
    let pushed = prev.push(added.last());
    lemma_after_inserts_keeps_places(rows, front, n);
    assert(ids_increase(pushed)) by {
        assert forall|i: int, j: int| 0 <= i < j < pushed.len() implies pushed[i].id
            < pushed[j].id by {
            assert((rows + added)[i].id < (rows + added)[j].id);
            assert((rows + front)[i] == (rows + added)[i]);
            if j < prev.len() {
                assert((rows + front)[j] == (rows + added)[j]);
            } else {
                assert((rows + added)[j] == added.last());
            }
        }
    }
    lemma_filter_push(prev, added.last(), evictable_pred());
    lemma_retention_count(pushed, n);
    if front.len() > 0 {
        assert(ids_increase(rows + front)) by {
            assert forall|i: int, j: int| 0 <= i < j < (rows + front).len() implies (rows
                + front)[i].id < (rows + front)[j].id by {
                assert((rows + front)[i] == (rows + added)[i]);
                assert((rows + front)[j] == (rows + added)[j]);
            }
        }
        assert forall|i: int| 0 <= i < front.len() implies is_evictable(#[trigger] front[i]) by {
            assert(front[i] == added[i]);
        }
        lemma_inserts_leave_limit(rows, front, n);
    }
}

/// Whether the rows were stamped by a clock that did not step back: no row
/// is stamped earlier than a row stored before it.
pub open spec fn stamps_follow_inserts(rows: Seq<ItemView>) -> bool {
    forall|i: int, j: int|
        0 <= i < j < rows.len() ==> (#[trigger] rows[i]).created_at <= (
        #[trigger] rows[j]).created_at
}

/// Retention on a history of plain rows whose clock did not step back: the
/// rows that survive are exactly the `n` stored last, and the evicted ones
/// are the ones stored before them, so that every evicted row was created no
/// later than every surviving one.
pub proof fn lemma_retention_keeps_last_inserted(rows: Seq<ItemView>, n: int)
    requires
        n > 0,
        ids_increase(rows),
        stamps_follow_inserts(rows),
        forall|i: int| 0 <= i < rows.len() ==> is_evictable(#[trigger] rows[i]),
    ensures
        forall|i: int|
            0 <= i < rows.len() ==> ((#[trigger] after_retention(rows, n)[i]).deleted <==> i
                < rows.len() - n),
        forall|i: int, j: int|
            0 <= i < rows.len() && 0 <= j < rows.len() && (#[trigger] after_retention(
                rows,
                n,
            )[i]).deleted && !(#[trigger] after_retention(rows, n)[j]).deleted
                ==> rows[i].created_at <= rows[j].created_at && rows[i].id < rows[j].id,
{
    let after = after_retention(rows, n);
    lemma_filter_all(rows, evictable_pred());
    assert forall|i: int| 0 <= i < rows.len() implies ((#[trigger] after[i]).deleted <==> i
        < rows.len() - n) by {
        let p = newer_pred(rows[i]);
        assert forall|j: int| 0 <= j <= i implies !p(#[trigger] rows[j]) by {
            if j < i {
                assert(rows[j].created_at <= rows[i].created_at);
                assert(rows[j].id < rows[i].id);
            }
        }
        assert forall|j: int| i < j < rows.len() implies p(#[trigger] rows[j]) by {
            assert(rows[i].created_at <= rows[j].created_at);
            assert(rows[i].id < rows[j].id);
        }
        crate::seq_facts::lemma_filter_after(rows, p, i);
        assert(newer_count(evictable_rows(rows), rows[i]) == rows.len() - 1 - i);
    }
    assert forall|i: int, j: int|
        0 <= i < rows.len() && 0 <= j < rows.len() && (#[trigger] after[i]).deleted && !(
        #[trigger] after[j]).deleted implies rows[i].created_at <= rows[j].created_at
        && rows[i].id < rows[j].id by {
        assert(i < rows.len() - n);
        assert(!(j < rows.len() - n));
        assert(rows[i].created_at <= rows[j].created_at);
        assert(rows[i].id < rows[j].id);
    }
}

} // verus!
