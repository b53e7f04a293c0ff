//! Facts about filtered sequences that the store's proofs share.

use vstd::prelude::*;

verus! {

/// Filtering a sequence with one more element either appends that element or
/// changes nothing.
pub proof fn lemma_filter_push<A>(s: Seq<A>, x: A, p: spec_fn(A) -> bool)
    ensures
        s.push(x).filter(p) == if p(x) {
            s.filter(p).push(x)
        } else {
            s.filter(p)
        },
{
    assert(s.push(x).drop_last() =~= s);
    reveal_with_fuel(Seq::filter, 2);
}

/// Two predicates that agree on every element of a sequence select the same
/// elements from it.
pub proof fn lemma_filter_agree<A>(s: Seq<A>, p: spec_fn(A) -> bool, q: spec_fn(A) -> bool)
    requires
        forall|i: int| 0 <= i < s.len() ==> p(#[trigger] s[i]) == q(s[i]),
    ensures
        s.filter(p) == s.filter(q),
    decreases s.len(),
{
    reveal_with_fuel(Seq::filter, 2);
    if s.len() > 0 {
        let front = s.drop_last();
        assert forall|i: int| 0 <= i < front.len() implies p(#[trigger] front[i]) == q(
            front[i],
        ) by {
            assert(front[i] == s[i]);
        }
        lemma_filter_agree(front, p, q);
        assert(p(s[s.len() - 1]) == q(s[s.len() - 1]));
    }
}

/// A predicate that implies another selects no more elements than it.
pub proof fn lemma_filter_len_mono<A>(s: Seq<A>, p: spec_fn(A) -> bool, q: spec_fn(A) -> bool)
    requires
        forall|i: int| 0 <= i < s.len() && p(#[trigger] s[i]) ==> q(s[i]),
    ensures
        s.filter(p).len() <= s.filter(q).len(),
    decreases s.len(),
{
    reveal_with_fuel(Seq::filter, 2);
    if s.len() > 0 {
        let front = s.drop_last();
        assert forall|i: int| 0 <= i < front.len() && p(#[trigger] front[i]) implies q(
            front[i],
        ) by {
            assert(front[i] == s[i]);
        }
        lemma_filter_len_mono(front, p, q);
        assert(p(s[s.len() - 1]) ==> q(s[s.len() - 1]));
    }
}

/// Removing one element from a sequence lowers the number of selected
/// elements by one if that element was selected, and not at all otherwise.
pub proof fn lemma_filter_len_remove<A>(s: Seq<A>, p: spec_fn(A) -> bool, m: int)
    requires
        0 <= m < s.len(),
    ensures
        s.filter(p).len() == s.remove(m).filter(p).len() + if p(s[m]) {
            1int
        } else {
            0int
        },
    decreases s.len(),
{
    reveal_with_fuel(Seq::filter, 2);
    if m == s.len() - 1 {
        assert(s.remove(m) =~= s.drop_last());
    } else {
        let front = s.drop_last();
        lemma_filter_len_remove(front, p, m);
        assert(s.remove(m).drop_last() =~= front.remove(m));
        assert(s.remove(m).last() == s.last());
    }
}

/// Every element that a filter selects comes from the sequence and satisfies
/// the predicate.
pub proof fn lemma_filter_members<A>(s: Seq<A>, p: spec_fn(A) -> bool, k: int)
    requires
        0 <= k < s.filter(p).len(),
    ensures
        p(s.filter(p)[k]),
        s.contains(s.filter(p)[k]),
    decreases s.len(),
{
    reveal_with_fuel(Seq::filter, 2);
    if s.len() > 0 {
        let front = s.drop_last();
        if k < front.filter(p).len() {
            lemma_filter_members(front, p, k);
            let w = choose|w: int| 0 <= w < front.len() && front[w] == front.filter(p)[k];
            assert(s[w] == s.filter(p)[k]);
        } else {
            assert(s[s.len() - 1] == s.filter(p)[k]);
        }
    }
}

/// A filter that every element passes changes nothing.
pub proof fn lemma_filter_all<A>(s: Seq<A>, p: spec_fn(A) -> bool)
    requires
        forall|i: int| 0 <= i < s.len() ==> p(#[trigger] s[i]),
    ensures
        s.filter(p) == s,
    decreases s.len(),
{
    reveal_with_fuel(Seq::filter, 2);
    if s.len() > 0 {
        let front = s.drop_last();
        assert forall|i: int| 0 <= i < front.len() implies p(#[trigger] front[i]) by {
            assert(front[i] == s[i]);
        }
        lemma_filter_all(front, p);
        assert(p(s[s.len() - 1]));
        assert(front.push(s.last()) =~= s);
    }
}

/// A filter that no element passes selects nothing.
pub proof fn lemma_filter_none<A>(s: Seq<A>, p: spec_fn(A) -> bool)
    requires
        forall|i: int| 0 <= i < s.len() ==> !p(#[trigger] s[i]),
    ensures
        s.filter(p).len() == 0,
    decreases s.len(),
{
    reveal_with_fuel(Seq::filter, 2);
    if s.len() > 0 {
        let front = s.drop_last();
        assert forall|i: int| 0 <= i < front.len() implies !p(#[trigger] front[i]) by {
            assert(front[i] == s[i]);
        }
        lemma_filter_none(front, p);
        assert(!p(s[s.len() - 1]));
    }
}

/// Every element of a sequence that satisfies the predicate is selected by
/// the filter.
pub proof fn lemma_filter_holds<A>(s: Seq<A>, p: spec_fn(A) -> bool, i: int)
    requires
        0 <= i < s.len(),
        p(s[i]),
    ensures
        s.filter(p).contains(s[i]),
    decreases s.len(),
{
    reveal_with_fuel(Seq::filter, 2);
    let front = s.drop_last();
    let kept = front.filter(p);
    if i == s.len() - 1 {
        assert(s.filter(p) =~= kept.push(s[i]));
        assert(s.filter(p)[kept.len() as int] == s[i]);
    } else {
        lemma_filter_holds(front, p, i);
        let w = choose|w: int| 0 <= w < kept.len() && kept[w] == front[i];
        assert(s.filter(p)[w] == s[i]);
    }
}

/// A filtered sequence is no longer than the sequence.
pub proof fn lemma_filter_len_bound<A>(s: Seq<A>, p: spec_fn(A) -> bool)
    ensures
        s.filter(p).len() <= s.len(),
    decreases s.len(),
{
    reveal_with_fuel(Seq::filter, 2);
    if s.len() > 0 {
        lemma_filter_len_bound(s.drop_last(), p);
    }
}

/// A filter that passes exactly the elements after the place `i` selects as
/// many elements as stand after that place.
pub proof fn lemma_filter_after<A>(s: Seq<A>, p: spec_fn(A) -> bool, i: int)
    requires
        -1 <= i < s.len(),
        forall|j: int| 0 <= j <= i ==> !p(#[trigger] s[j]),
        forall|j: int| i < j < s.len() ==> p(#[trigger] s[j]),
    ensures
        s.filter(p).len() == s.len() - 1 - i,
    decreases s.len(),
{
    reveal_with_fuel(Seq::filter, 2);
    if s.len() == 0 {
    } else if i == s.len() - 1 {
        lemma_filter_none(s, p);
    } else {
        let front = s.drop_last();
        assert forall|j: int| 0 <= j <= i implies !p(#[trigger] front[j]) by {
            assert(front[j] == s[j]);
        }
        assert forall|j: int| i < j < front.len() implies p(#[trigger] front[j]) by {
            assert(front[j] == s[j]);
        }
        lemma_filter_after(front, p, i);
        assert(p(s[s.len() - 1]));
    }
}

} // verus!
