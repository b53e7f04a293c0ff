//! Search over the history: which rows a request selects, the order in which
//! they are listed, and the page that is handed out.
//!
//! The match is the library's own and is stated here in full. A text is cut
//! into words at every character that is no word character; a query is cut
//! into terms at whitespace; a term matches where its words stand in the text
//! side by side and in order, the last one as the beginning of a word. The
//! rule is plainer than that of a full-text index of a database: every
//! character outside ASCII counts as a word character, punctuation and spaces
//! outside ASCII included, only the letters of ASCII are compared without
//! regard to case, and accents are kept.

use vstd::prelude::*;
use crate::item::{ClipboardItem, ItemView, is_visible, item_views, listed_before, outranks};
use crate::text::{
    char_is_whitespace, chars_of, is_white_space, preview_text, str_equals, trim_whitespace,
    trim_whitespace_range,
};

verus! {

/// Characters that make up a word: ASCII letters and digits, and every
/// character outside ASCII. Everything else separates words.
pub open spec fn is_token_char(c: char) -> bool {
    ('a' <= c && c <= 'z') || ('A' <= c && c <= 'Z') || ('0' <= c && c <= '9') || (c as u32)
        >= 0x80
}

/// The character as words are compared: ASCII capitals count as their small
/// letters.
pub open spec fn fold_char(c: char) -> char {
    if 'A' <= c && c <= 'Z' {
        ((c as u32) + 32) as char
    } else {
        c
    }
}

/// The words of `s` that follow an unfinished word `current`.
pub open spec fn tokens_from(s: Seq<char>, current: Seq<char>) -> Seq<Seq<char>>
    decreases s.len(),
{
    let finished = if current.len() > 0 {
        seq![current]
    } else {
        Seq::<Seq<char>>::empty()
    };
    if s.len() == 0 {
        finished
    } else if is_token_char(s[0]) {
        tokens_from(s.drop_first(), current.push(fold_char(s[0])))
    } else {
        finished + tokens_from(s.drop_first(), Seq::empty())
    }
}

/// The words of a text: its maximal runs of word characters, each with ASCII
/// capitals folded to small letters.
pub open spec fn tokens_of(s: Seq<char>) -> Seq<Seq<char>> {
    tokens_from(s, Seq::empty())
}

/// The terms of `s` that follow an unfinished term `current`.
pub open spec fn terms_from(s: Seq<char>, current: Seq<char>) -> Seq<Seq<char>>
    decreases s.len(),
{
    let finished = if current.len() > 0 {
        seq![current]
    } else {
        Seq::<Seq<char>>::empty()
    };
    if s.len() == 0 {
        finished
    } else if is_white_space(s[0]) {
        finished + terms_from(s.drop_first(), Seq::empty())
    } else {
        terms_from(s.drop_first(), current.push(s[0]))
    }
}

/// The terms of a query: its maximal runs of characters that are not
/// whitespace.
pub open spec fn terms_of(s: Seq<char>) -> Seq<Seq<char>> {
    terms_from(s, Seq::empty())
}

/// The phrases of a query: for each of its terms the words of that term. A
/// term such as `foo.txt` gives the phrase `foo`, `txt`; a term without any
/// word character gives the empty phrase.
pub open spec fn phrases_of(query: Seq<char>) -> Seq<Seq<Seq<char>>> {
    Seq::new(terms_of(query).len(), |t: int| tokens_of(terms_of(query)[t]))
}

/// Whether some word of `tokens` begins with `term`.
pub open spec fn has_prefix_token(tokens: Seq<Seq<char>>, term: Seq<char>) -> bool {
    exists|k: int| 0 <= k < tokens.len() && term.is_prefix_of(#[trigger] tokens[k])
}

/// Whether a phrase stands in a text at the word `j`: the phrase has a word,
/// its words but the last are the words of the text from `j` on, and its last
/// word begins the word of the text that follows them.
pub open spec fn phrase_at(tokens: Seq<Seq<char>>, phrase: Seq<Seq<char>>, j: int) -> bool {
    &&& phrase.len() > 0
    &&& 0 <= j
    &&& j + phrase.len() <= tokens.len()
    &&& forall|i: int| 0 <= i < phrase.len() - 1 ==> tokens[j + i] == #[trigger] phrase[i]
    &&& phrase.last().is_prefix_of(tokens[j + phrase.len() - 1])
}

/// Whether a phrase stands somewhere in a text with the words `tokens`. The
/// empty phrase stands nowhere.
pub open spec fn has_phrase(tokens: Seq<Seq<char>>, phrase: Seq<Seq<char>>) -> bool {
    exists|j: int| #[trigger] phrase_at(tokens, phrase, j)
}

/// Whether a text with the words `tokens` answers a query with the given
/// phrases: each phrase stands somewhere in the text. A query with a term that
/// has no word is answered by no text.
pub open spec fn phrases_found(tokens: Seq<Seq<char>>, phrases: Seq<Seq<Seq<char>>>) -> bool {
    forall|t: int| 0 <= t < phrases.len() ==> has_phrase(tokens, #[trigger] phrases[t])
}

/// The phrases held by a list of word lists.
pub open spec fn phrase_views(v: Seq<Vec<Vec<char>>>) -> Seq<Seq<Seq<char>>> {
    Seq::new(v.len(), |i: int| word_views(v[i]@))
}

/// The character sequences held by a list of character vectors.
pub open spec fn word_views(v: Seq<Vec<char>>) -> Seq<Seq<char>> {
    Seq::new(v.len(), |i: int| v[i]@)
}

/// Executable form of `is_token_char`.
pub fn token_char(c: char) -> (r: bool)
    ensures
        r == is_token_char(c),
{
    ('a' <= c && c <= 'z') || ('A' <= c && c <= 'Z') || ('0' <= c && c <= '9') || (c as u32)
        >= 0x80
}

/// Executable form of `fold_char`.
pub fn fold(c: char) -> (r: char)
    ensures
        r == fold_char(c),
{
    if 'A' <= c && c <= 'Z' {
        ((c as u8) + 32) as char
    } else {
        c
    }
}

/// Splits `v[start..end]` into its words.
pub(crate) fn tokenize(v: &Vec<char>, start: usize, end: usize) -> (out: Vec<Vec<char>>)
    requires
        start <= end <= v.len(),
    ensures
        word_views(out@) == tokens_of(v@.subrange(start as int, end as int)),
{
    let ghost whole = v@.subrange(start as int, end as int);
    let mut out: Vec<Vec<char>> = Vec::new();
    let mut current: Vec<char> = Vec::new();
    let mut i: usize = start;
    assert(whole.skip(0) =~= whole);
    assert(word_views(out@) + tokens_from(whole, current@) =~= tokens_of(whole));
    while i < end
        invariant
            start <= i <= end <= v.len(),
            whole == v@.subrange(start as int, end as int),
            word_views(out@) + tokens_from(whole.skip(i - start), current@) == tokens_of(whole),
        decreases end - i,
    {
        let c = v[i];
        let ghost rest = whole.skip(i - start);
        let ghost before = word_views(out@);
        let ghost word = current@;
        proof {
            assert(rest[0] == c);
            assert(rest.drop_first() =~= whole.skip(i + 1 - start));
        }
        if token_char(c) {
            current.push(fold(c));
        } else {
            if current.len() > 0 {
                out.push(current);
                current = Vec::new();
                assert(word_views(out@) =~= before.push(word));
                assert(before.push(word) + tokens_from(rest.drop_first(), Seq::empty()) =~= before
                    + (seq![word] + tokens_from(rest.drop_first(), Seq::empty())));
            } else {
                assert(word =~= Seq::<char>::empty());
                assert(before + tokens_from(rest.drop_first(), Seq::empty()) =~= before + (
                Seq::<Seq<char>>::empty() + tokens_from(rest.drop_first(), Seq::empty())));
            }
        }
        i += 1;
    }
    let ghost before = word_views(out@);
    let ghost word = current@;
    assert(whole.skip(end - start).len() == 0);
    if current.len() > 0 {
        out.push(current);
        assert(word_views(out@) =~= before + seq![word]);
    } else {
        assert(before + Seq::<Seq<char>>::empty() =~= before);
    }
    out
}

/// Cuts `v[start..end]` into its terms; see `terms_of`.
pub(crate) fn split_terms(v: &Vec<char>, start: usize, end: usize) -> (out: Vec<Vec<char>>)
    requires
        start <= end <= v.len(),
    ensures
        word_views(out@) == terms_of(v@.subrange(start as int, end as int)),
{
    let ghost whole = v@.subrange(start as int, end as int);
    let mut out: Vec<Vec<char>> = Vec::new();
    let mut current: Vec<char> = Vec::new();
    let mut i: usize = start;
    assert(whole.skip(0) =~= whole);
    assert(word_views(out@) + terms_from(whole, current@) =~= terms_of(whole));
    while i < end
        invariant
            start <= i <= end <= v.len(),
            whole == v@.subrange(start as int, end as int),
            word_views(out@) + terms_from(whole.skip(i - start), current@) == terms_of(whole),
        decreases end - i,
    {
        let c = v[i];
        let ghost rest = whole.skip(i - start);
        let ghost before = word_views(out@);
        let ghost word = current@;
        proof {
            assert(rest[0] == c);
            assert(rest.drop_first() =~= whole.skip(i + 1 - start));
        }
        if !char_is_whitespace(c) {
            current.push(c);
        } else {
            if current.len() > 0 {
                out.push(current);
                current = Vec::new();
                assert(word_views(out@) =~= before.push(word));
                assert(before.push(word) + terms_from(rest.drop_first(), Seq::empty()) =~= before
                    + (seq![word] + terms_from(rest.drop_first(), Seq::empty())));
            } else {
                assert(word =~= Seq::<char>::empty());
                assert(before + terms_from(rest.drop_first(), Seq::empty()) =~= before + (
                Seq::<Seq<char>>::empty() + terms_from(rest.drop_first(), Seq::empty())));
            }
        }
        i += 1;
    }
    let ghost before = word_views(out@);
    let ghost word = current@;
    assert(whole.skip(end - start).len() == 0);
    if current.len() > 0 {
        out.push(current);
        assert(word_views(out@) =~= before + seq![word]);
    } else {
        assert(before + Seq::<Seq<char>>::empty() =~= before);
    }
    out
}

/// Whether `term` begins `token`.
pub fn begins_with(token: &Vec<char>, term: &Vec<char>) -> (r: bool)
    ensures
        r == term@.is_prefix_of(token@),
{
    if term.len() > token.len() {
        return false;
    }
    let mut i: usize = 0;
    while i < term.len()
        invariant
            i <= term.len() <= token.len(),
            forall|j: int| 0 <= j < i ==> term@[j] == token@[j],
        decreases term.len() - i,
    {
        if term[i] != token[i] {
            assert(token@.subrange(0, term@.len() as int)[i as int] == token@[i as int]);
            return false;
        }
        i += 1;
    }
    assert(term@ =~= token@.subrange(0, term@.len() as int));
    true
}

/// Whether two words are the same.
pub fn same_word(a: &Vec<char>, b: &Vec<char>) -> (r: bool)
    ensures
        r == (a@ == b@),
{
    if a.len() != b.len() {
        return false;
    }
    let mut i: usize = 0;
    while i < a.len()
        invariant
            i <= a.len(),
            a.len() == b.len(),
            forall|j: int| 0 <= j < i ==> a@[j] == b@[j],
        decreases a.len() - i,
    {
        if a[i] != b[i] {
            return false;
        }
        i += 1;
    }
    assert(a@ =~= b@);
    true
}

/// Whether a phrase stands in a text at the word `j`; see `phrase_at`.
pub fn stands_at(tokens: &Vec<Vec<char>>, phrase: &Vec<Vec<char>>, j: usize) -> (r: bool)
    ensures
        r == phrase_at(word_views(tokens@), word_views(phrase@), j as int),
{
    let ghost text = word_views(tokens@);
    let ghost words = word_views(phrase@);
    let n = phrase.len();
    if n == 0 || n > tokens.len() || j > tokens.len() - n {
        return false;
    }
    let mut i: usize = 0;
    while i < n - 1
        invariant
            0 < n <= tokens.len(),
            n == phrase.len(),
            j <= tokens.len() - n,
            i <= n - 1,
            text == word_views(tokens@),
            words == word_views(phrase@),
            forall|k: int| 0 <= k < i ==> text[j + k] == #[trigger] words[k],
        decreases n - 1 - i,
    {
        if !same_word(&tokens[j + i], &phrase[i]) {
            assert(text[j + i] != words[i as int]);
            return false;
        }
        i += 1;
    }
    assert(words.last() == phrase@[n - 1]@);
    begins_with(&tokens[j + n - 1], &phrase[n - 1])
}

/// Whether a phrase stands somewhere in a text; see `has_phrase`.
pub fn contains_phrase(tokens: &Vec<Vec<char>>, phrase: &Vec<Vec<char>>) -> (r: bool)
    ensures
        r == has_phrase(word_views(tokens@), word_views(phrase@)),
{
    let ghost text = word_views(tokens@);
    let ghost words = word_views(phrase@);
    let mut j: usize = 0;
    while j < tokens.len()
        invariant
            j <= tokens.len(),
            text == word_views(tokens@),
            words == word_views(phrase@),
            forall|k: int| 0 <= k < j ==> !phrase_at(text, words, k),
        decreases tokens.len() - j,
    {
        if stands_at(tokens, phrase, j) {
            return true;
        }
        j += 1;
    }
    assert forall|k: int| !phrase_at(text, words, k) by {
        if phrase_at(text, words, k) {
            assert(k < text.len());
        }
    }
    false
}

/// Whether a text with the words `tokens` answers a query with the given
/// phrases; see `phrases_found`.
pub fn all_phrases_found(tokens: &Vec<Vec<char>>, phrases: &Vec<Vec<Vec<char>>>) -> (r: bool)
    ensures
        r == phrases_found(word_views(tokens@), phrase_views(phrases@)),
{
    let mut t: usize = 0;
    while t < phrases.len()
        invariant
            t <= phrases.len(),
            forall|j: int|
                0 <= j < t ==> has_phrase(
                    word_views(tokens@),
                    #[trigger] phrase_views(phrases@)[j],
                ),
        decreases phrases.len() - t,
    {
        if !contains_phrase(tokens, &phrases[t]) {
            assert(!has_phrase(word_views(tokens@), phrase_views(phrases@)[t as int]));
            return false;
        }
        t += 1;
    }
    true
}

/// One row of a search result.
#[derive(Debug, Clone)]
pub struct SearchItem {
    pub id: i64,
    pub created_at: i64,
    pub kind: String,
    pub text: String,
    pub preview_text: String,
    pub image_width: Option<i64>,
    pub image_height: Option<i64>,
    pub favorite: bool,
    pub pinned: bool,
}

/// One page of a search result, with the number of rows that the request
/// selects in all.
#[derive(Debug, Clone)]
pub struct SearchResponse {
    pub total: u32,
    pub items: Vec<SearchItem>,
}

/// The smallest and the largest page size.
pub const MIN_PAGE: u32 = 1;

pub const MAX_PAGE: u32 = 200;

/// The page size that is used for a requested one: at least 1, at most 200.
pub open spec fn clamp_limit(limit: u32) -> int {
    if limit < MIN_PAGE {
        MIN_PAGE as int
    } else if limit > MAX_PAGE {
        MAX_PAGE as int
    } else {
        limit as int
    }
}

/// The filter word that selects favorited rows.
pub open spec fn filter_favorites() -> Seq<char> {
    "favorites"@
}

/// The filter word that selects pinned rows.
pub open spec fn filter_pinned() -> Seq<char> {
    "pinned"@
}

/// Whether a filter word lets a row through. Any word other than
/// `favorites` and `pinned` lets every row through.
pub open spec fn filter_admits(filter: Seq<char>, it: ItemView) -> bool {
    if filter == filter_favorites() {
        it.favorite
    } else if filter == filter_pinned() {
        it.pinned
    } else {
        true
    }
}

/// The text of a row as search sees it: empty where the row has none.
pub open spec fn shown_text(it: ItemView) -> Seq<char> {
    match it.text {
        Some(t) => t,
        None => Seq::empty(),
    }
}

/// Whether a request selects a row: the row is visible, the filter lets it
/// through, and the query, unless it is blank, is answered by the row's text:
/// each term of the query stands in the text as a phrase.
pub open spec fn row_selected(it: ItemView, filter: Seq<char>, query: Seq<char>) -> bool {
    let q = trim_whitespace(query);
    &&& is_visible(it)
    &&& filter_admits(filter, it)
    &&& (q.len() == 0 || phrases_found(tokens_of(shown_text(it)), phrases_of(q)))
}

/// The positions below `k` of the rows that a request selects, ascending.
pub open spec fn selected_upto(rows: Seq<ItemView>, filter: Seq<char>, query: Seq<char>, k: int)
    -> Seq<int>
    decreases k,
{
    if k <= 0 {
        Seq::empty()
    } else {
        let before = selected_upto(rows, filter, query, k - 1);
        if row_selected(rows[k - 1], filter, query) {
            before.push(k - 1)
        } else {
            before
        }
    }
}

/// `sorted` with the position `i` put in front of the first position whose
/// row it outranks, or at the end when there is none.
pub open spec fn insert_ranked(rows: Seq<ItemView>, sorted: Seq<int>, i: int) -> Seq<int>
    decreases sorted.len(),
{
    if sorted.len() == 0 {
        seq![i]
    } else if outranks(rows[i], rows[sorted[0]]) {
        seq![i] + sorted
    } else {
        seq![sorted[0]] + insert_ranked(rows, sorted.drop_first(), i)
    }
}

/// The positions `idxs` in listing order of their rows.
pub open spec fn rank_order(rows: Seq<ItemView>, idxs: Seq<int>) -> Seq<int>
    decreases idxs.len(),
{
    if idxs.len() == 0 {
        Seq::empty()
    } else {
        insert_ranked(rows, rank_order(rows, idxs.drop_last()), idxs.last())
    }
}

/// The positions of the rows that a request selects, in listing order.
pub open spec fn search_hits(rows: Seq<ItemView>, filter: Seq<char>, query: Seq<char>) -> Seq<
    int,
> {
    rank_order(rows, selected_upto(rows, filter, query, rows.len() as int))
}

/// Whether a search result row shows the given stored row.
pub open spec fn shows(item: SearchItem, row: ItemView) -> bool {
    &&& item.id == row.id
    &&& item.created_at == row.created_at
    &&& item.kind@ == row.kind
    &&& item.text@ == shown_text(row)
    &&& item.preview_text@ == crate::text::preview_of(row.kind, shown_text(row))
    &&& crate::item::opt_int_view(item.image_width) == row.image_width
    &&& crate::item::opt_int_view(item.image_height) == row.image_height
    &&& item.favorite == row.favorite
    &&& item.pinned == row.pinned
}

/// Where the page of a request begins among `hits` selected rows.
pub open spec fn page_start(hits: int, offset: u32) -> int {
    if offset <= hits {
        offset as int
    } else {
        hits
    }
}

/// Where the page of a request ends among `hits` selected rows.
pub open spec fn page_end(hits: int, limit: u32, offset: u32) -> int {
    if offset + clamp_limit(limit) <= hits {
        offset + clamp_limit(limit)
    } else {
        hits
    }
}

/// Whether `resp` is the page of a listing `hits` of the table `rows`:
/// `total` is the length of the listing (and stops at the largest `u32`), and
/// `items` shows the listed rows from `offset` on, in their order, at most as
/// many as the clamped limit allows.
pub open spec fn is_page_of(
    resp: SearchResponse,
    rows: Seq<ItemView>,
    hits: Seq<int>,
    limit: u32,
    offset: u32,
) -> bool {
    let start = page_start(hits.len() as int, offset);
    let end = page_end(hits.len() as int, limit, offset);
    &&& resp.total == if hits.len() <= u32::MAX {
        hits.len() as int
    } else {
        u32::MAX as int
    }
    &&& resp.items@.len() == end - start
    &&& forall|k: int|
        0 <= k < resp.items@.len() ==> shows(#[trigger] resp.items@[k], rows[hits[start + k]])
}

/// Whether `resp` is the answer to a request on the table `rows`: the page
/// of the rows that the request selects, in listing order.
pub open spec fn answers(
    resp: SearchResponse,
    rows: Seq<ItemView>,
    query: Seq<char>,
    limit: u32,
    offset: u32,
    filter: Seq<char>,
) -> bool {
    is_page_of(resp, rows, search_hits(rows, filter, query), limit, offset)
}

/// The positions held by a vector of indices.
pub open spec fn positions(v: Seq<usize>) -> Seq<int> {
    Seq::new(v.len(), |i: int| v[i] as int)
}

/// Inserting in listing order puts the new position at the first place whose
/// row it outranks.
pub proof fn lemma_insert_ranked_at(rows: Seq<ItemView>, sorted: Seq<int>, i: int, p: int)
    requires
        0 <= p <= sorted.len(),
        forall|q: int| 0 <= q < p ==> !outranks(rows[i], rows[#[trigger] sorted[q]]),
        p < sorted.len() ==> outranks(rows[i], rows[sorted[p]]),
    ensures
        insert_ranked(rows, sorted, i) == sorted.insert(p, i),
    decreases p,
{
    if sorted.len() == 0 {
        assert(sorted.insert(0, i) =~= seq![i]);
    } else if p == 0 {
        assert(sorted.insert(0, i) =~= seq![i] + sorted);
    } else {
        let rest = sorted.drop_first();
        assert(!outranks(rows[i], rows[sorted[0]]));
        assert forall|q: int| 0 <= q < p - 1 implies !outranks(
            rows[i],
            rows[#[trigger] rest[q]],
        ) by {
            assert(rest[q] == sorted[q + 1]);
        }
        lemma_insert_ranked_at(rows, rest, i, p - 1);
        assert(sorted.insert(p, i) =~= seq![sorted[0]] + rest.insert(p - 1, i));
    }
}

/// Whether the rows at the positions `s` stand in listing order: no later
/// one outranks an earlier one.
pub open spec fn in_listing_order(rows: Seq<ItemView>, s: Seq<int>) -> bool {
    forall|a: int, b: int|
        0 <= a < b < s.len() ==> !outranks(rows[#[trigger] s[b]], rows[#[trigger] s[a]])
}

/// Inserting a position in listing order keeps what was there, adds the new
/// position, and keeps the listing order.
pub proof fn lemma_insert_ranked(rows: Seq<ItemView>, sorted: Seq<int>, i: int)
    ensures
        insert_ranked(rows, sorted, i).len() == sorted.len() + 1,
        insert_ranked(rows, sorted, i).contains(i),
        forall|x: int| #[trigger] sorted.contains(x) ==> insert_ranked(rows, sorted, i).contains(x),
        forall|x: int|
            #[trigger] insert_ranked(rows, sorted, i).contains(x) ==> x == i || sorted.contains(x),
        in_listing_order(rows, sorted) ==> in_listing_order(rows, insert_ranked(rows, sorted, i)),
    decreases sorted.len(),
{
    let out = insert_ranked(rows, sorted, i);
    if sorted.len() == 0 {
        assert(out[0] == i);
    } else if outranks(rows[i], rows[sorted[0]]) {
        assert(out[0] == i);
        assert forall|x: int| sorted.contains(x) implies out.contains(x) by {
            let w = choose|w: int| 0 <= w < sorted.len() && sorted[w] == x;
            assert(out[w + 1] == x);
        }
        assert forall|x: int| out.contains(x) implies x == i || sorted.contains(x) by {
            let w = choose|w: int| 0 <= w < out.len() && out[w] == x;
            if w > 0 {
                assert(sorted[w - 1] == x);
            }
        }
        if in_listing_order(rows, sorted) {
            assert forall|a: int, b: int| 0 <= a < b < out.len() implies !outranks(
                rows[#[trigger] out[b]],
                rows[#[trigger] out[a]],
            ) by {
                if a == 0 {
                    assert(out[b] == sorted[b - 1]);
                    if b - 1 > 0 {
                        assert(!outranks(rows[sorted[b - 1]], rows[sorted[0]]));
                    }
                } else {
                    assert(out[a] == sorted[a - 1] && out[b] == sorted[b - 1]);
                }
            }
        }
    } else {
        let rest = sorted.drop_first();
        let tail = insert_ranked(rows, rest, i);
        lemma_insert_ranked(rows, rest, i);
        assert(out =~= seq![sorted[0]] + tail);
        assert forall|x: int| tail.contains(x) implies out.contains(x) by {
            let w = choose|w: int| 0 <= w < tail.len() && tail[w] == x;
            assert(out[w + 1] == x);
        }
        assert(out.contains(i));
        assert forall|x: int| sorted.contains(x) implies out.contains(x) by {
            let w = choose|w: int| 0 <= w < sorted.len() && sorted[w] == x;
            if w == 0 {
                assert(out[0] == x);
            } else {
                assert(rest[w - 1] == x);
                assert(rest.contains(x));
                assert(tail.contains(x));
            }
        }
        assert forall|x: int| out.contains(x) implies x == i || sorted.contains(x) by {
            let w = choose|w: int| 0 <= w < out.len() && out[w] == x;
            if w == 0 {
                assert(sorted[0] == x);
            } else {
                assert(tail[w - 1] == x);
                assert(tail.contains(x));
                if x != i {
                    assert(rest.contains(x));
                    let u = choose|u: int| 0 <= u < rest.len() && rest[u] == x;
                    assert(sorted[u + 1] == x);
                }
            }
        }
        if in_listing_order(rows, sorted) {
            assert(in_listing_order(rows, rest)) by {
                assert forall|a: int, b: int| 0 <= a < b < rest.len() implies !outranks(
                    rows[#[trigger] rest[b]],
                    rows[#[trigger] rest[a]],
                ) by {
                    assert(rest[a] == sorted[a + 1] && rest[b] == sorted[b + 1]);
                }
            }
            assert forall|a: int, b: int| 0 <= a < b < out.len() implies !outranks(
                rows[#[trigger] out[b]],
                rows[#[trigger] out[a]],
            ) by {
                if a == 0 {
                    let x = out[b];
                    assert(tail[b - 1] == x);
                    assert(tail.contains(x));
                    if x != i {
                        assert(rest.contains(x));
                        let u = choose|u: int| 0 <= u < rest.len() && rest[u] == x;
                        assert(sorted[u + 1] == x);
                        assert(!outranks(rows[sorted[u + 1]], rows[sorted[0]]));
                    }
                } else {
                    assert(out[a] == tail[a - 1] && out[b] == tail[b - 1]);
                }
            }
        }
    }
}

/// Listing order rearranges and loses nothing: the result holds exactly the
/// given positions, as many as were given, and its rows stand in listing
/// order.
pub proof fn lemma_rank_order(rows: Seq<ItemView>, idxs: Seq<int>)
    ensures
        rank_order(rows, idxs).len() == idxs.len(),
        forall|x: int| #[trigger] idxs.contains(x) <==> rank_order(rows, idxs).contains(x),
        in_listing_order(rows, rank_order(rows, idxs)),
    decreases idxs.len(),
{
    if idxs.len() > 0 {
        let front = idxs.drop_last();
        let sorted = rank_order(rows, front);
        lemma_rank_order(rows, front);
        lemma_insert_ranked(rows, sorted, idxs.last());
        let out = rank_order(rows, idxs);
        assert forall|x: int| idxs.contains(x) implies out.contains(x) by {
            let w = choose|w: int| 0 <= w < idxs.len() && idxs[w] == x;
            if w < front.len() {
                assert(front[w] == x);
                assert(front.contains(x));
                assert(sorted.contains(x));
            }
        }
        assert forall|x: int| out.contains(x) implies idxs.contains(x) by {
            if x == idxs.last() {
                assert(idxs[idxs.len() - 1] == x);
            } else {
                assert(sorted.contains(x));
                assert(front.contains(x) <==> sorted.contains(x));
                let w = choose|w: int| 0 <= w < front.len() && front[w] == x;
                assert(idxs[w] == x);
            }
        }
    }
}

/// The selected positions are exactly the positions of selected rows.
pub proof fn lemma_selected_upto(rows: Seq<ItemView>, filter: Seq<char>, query: Seq<char>, k: int)
    requires
        0 <= k <= rows.len(),
    ensures
        selected_upto(rows, filter, query, k).len() <= k,
        forall|x: int|
            #[trigger] selected_upto(rows, filter, query, k).contains(x) <==> 0 <= x < k
                && row_selected(rows[x], filter, query),
    decreases k,
{
    if k > 0 {
        lemma_selected_upto(rows, filter, query, k - 1);
        let before = selected_upto(rows, filter, query, k - 1);
        let now = selected_upto(rows, filter, query, k);
        assert forall|x: int| now.contains(x) implies 0 <= x < k && row_selected(
            rows[x],
            filter,
            query,
        ) by {
            let w = choose|w: int| 0 <= w < now.len() && now[w] == x;
            if w < before.len() {
                assert(before[w] == x);
                assert(before.contains(x));
            }
        }
        assert forall|x: int| 0 <= x < k && row_selected(rows[x], filter, query) implies now.contains(
            x,
        ) by {
            if x == k - 1 {
                assert(now[now.len() - 1] == x);
            } else {
                assert(before.contains(x));
                let w = choose|w: int| 0 <= w < before.len() && before[w] == x;
                assert(now[w] == x);
            }
        }
    }
}

/// What a search lists: only selected rows, every selected row, and in
/// listing order. With ids that increase, each listed row strictly outranks
/// the ones after it.
pub proof fn lemma_search_hits(rows: Seq<ItemView>, filter: Seq<char>, query: Seq<char>)
    ensures
        search_hits(rows, filter, query).len() <= rows.len(),
        forall|x: int|
            search_hits(rows, filter, query).contains(x) <==> 0 <= x < rows.len() && row_selected(
                rows[x],
                filter,
                query,
            ),
        in_listing_order(rows, search_hits(rows, filter, query)),
{
    let sel = selected_upto(rows, filter, query, rows.len() as int);
    let hits = search_hits(rows, filter, query);
    lemma_selected_upto(rows, filter, query, rows.len() as int);
    lemma_rank_order(rows, sel);
    assert forall|x: int| hits.contains(x) <==> 0 <= x < rows.len() && row_selected(
        rows[x],
        filter,
        query,
    ) by {
        assert(sel.contains(x) <==> hits.contains(x));
    }
}

/// What the selection loop knows about a request once it is parsed.
pub open spec fn request_parsed(
    filter: Seq<char>,
    query: Seq<char>,
    only_favorites: bool,
    only_pinned: bool,
    listing: bool,
    phrases: Seq<Seq<Seq<char>>>,
) -> bool {
    &&& only_favorites == (filter == filter_favorites())
    &&& only_pinned == (filter != filter_favorites() && filter == filter_pinned())
    &&& listing == (trim_whitespace(query).len() == 0)
    &&& !listing ==> phrases == phrases_of(trim_whitespace(query))
}

/// Decides whether a parsed request selects a row.
fn selects(
    it: &ClipboardItem,
    only_favorites: bool,
    only_pinned: bool,
    listing: bool,
    phrases: &Vec<Vec<Vec<char>>>,
    Ghost(filter): Ghost<Seq<char>>,
    Ghost(query): Ghost<Seq<char>>,
) -> (r: bool)
    requires
        request_parsed(
            filter,
            query,
            only_favorites,
            only_pinned,
            listing,
            phrase_views(phrases@),
        ),
    ensures
        r == row_selected(it@, filter, query),
{
    if it.deleted {
        return false;
    }
    if only_favorites && !it.favorite {
        return false;
    }
    if only_pinned && !it.pinned {
        return false;
    }
    if listing {
        return true;
    }
    let chars = match &it.text {
        Some(t) => chars_of(t.as_str()),
        None => Vec::new(),
    };
    assert(chars@ =~= shown_text(it@));
    let tokens = tokenize(&chars, 0, chars.len());
    assert(chars@.subrange(0, chars.len() as int) =~= chars@);
    all_phrases_found(&tokens, phrases)
}

/// Builds the search result row that shows a stored row.
fn search_item_of(row: &ClipboardItem) -> (item: SearchItem)
    ensures
        shows(item, row@),
{
    let text = match &row.text {
        Some(t) => t.clone(),
        None => String::new(),
    };
    let preview = preview_text(row.kind.as_str(), text.as_str());
    SearchItem {
        id: row.id,
        created_at: row.created_at,
        kind: row.kind.clone(),
        text,
        preview_text: preview,
        image_width: row.image_width,
        image_height: row.image_height,
        favorite: row.favorite,
        pinned: row.pinned,
    }
}

/// The phrases of the query `v[start..end]`; see `phrases_of`.
fn phrases_in(v: &Vec<char>, start: usize, end: usize) -> (out: Vec<Vec<Vec<char>>>)
    requires
        start <= end <= v.len(),
    ensures
        phrase_views(out@) == phrases_of(v@.subrange(start as int, end as int)),
{
    let ghost query = v@.subrange(start as int, end as int);
    let terms = split_terms(v, start, end);
    let mut out: Vec<Vec<Vec<char>>> = Vec::new();
    let mut t: usize = 0;
    while t < terms.len()
        invariant
            t <= terms.len(),
            out.len() == t,
            word_views(terms@) == terms_of(query),
            forall|k: int|
                0 <= k < t ==> word_views((#[trigger] out@[k])@) == tokens_of(terms_of(query)[k]),
        decreases terms.len() - t,
    {
        let term = &terms[t];
        assert(term@ == word_views(terms@)[t as int]);
        let words = tokenize(term, 0, term.len());
        assert(term@.subrange(0, term.len() as int) =~= term@);
        out.push(words);
        t += 1;
    }
    assert(phrase_views(out@) =~= phrases_of(query));
    out
}

/// Answers a search request on a table.
///
/// `filter` is `favorites`, `pinned` or anything else for all rows; `limit` is
/// clamped to 1..=200. A blank `query` lists every visible row that the filter
/// lets through. Otherwise the query is cut into terms at whitespace, and a
/// row is listed when each term stands in its text: the words of the term side
/// by side and in order, the last one as the beginning of a word, capitals of
/// ASCII counting as small letters. A term without a word character is found
/// in no text. Rows are listed pinned first, then favorited, then newest
/// first.
pub fn search_rows(
    items: &Vec<ClipboardItem>,
    query: &str,
    limit: u32,
    offset: u32,
    filter: &str,
) -> (resp: SearchResponse)
    ensures
        answers(resp, item_views(items@), query@, limit, offset, filter@),
{
    let ghost rows = item_views(items@);
    let capped: u32 = if limit < MIN_PAGE {
        MIN_PAGE
    } else if limit > MAX_PAGE {
        MAX_PAGE
    } else {
        limit
    };
    let only_favorites = str_equals(filter, "favorites");
    let only_pinned = !only_favorites && str_equals(filter, "pinned");
    let q = chars_of(query);
    let (lo, hi) = trim_whitespace_range(&q, 0, q.len());
    assert(q@.subrange(0, q.len() as int) =~= query@);
    let listing = lo == hi;
    let phrases = if listing {
        Vec::new()
    } else {
        phrases_in(&q, lo, hi)
    };
    let len = items.len();
    let mut sel: Vec<usize> = Vec::new();
    let mut k: usize = 0;
    assert(positions(sel@) =~= selected_upto(rows, filter@, query@, 0));
    while k < len
        invariant
            k <= len,
            len == items.len(),
            rows == item_views(items@),
            request_parsed(
                filter@,
                query@,
                only_favorites,
                only_pinned,
                listing,
                phrase_views(phrases@),
            ),
            positions(sel@) == selected_upto(rows, filter@, query@, k as int),
            forall|a: int| 0 <= a < sel.len() ==> (#[trigger] sel@[a]) < len,
        decreases len - k,
    {
        let ghost before = sel@;
        if selects(
            &items[k],
            only_favorites,
            only_pinned,
            listing,
            &phrases,
            Ghost(filter@),
            Ghost(query@),
        ) {
            sel.push(k);
            assert(positions(sel@) =~= positions(before).push(k as int));
        }
        k += 1;
    }
    let ghost chosen = positions(sel@);
    let mut order: Vec<usize> = Vec::new();
    let mut a: usize = 0;
    assert(chosen.take(0) =~= Seq::<int>::empty());
    assert(positions(order@) =~= rank_order(rows, chosen.take(0)));
    while a < sel.len()
        invariant
            a <= sel.len(),
            len == items.len(),
            rows == item_views(items@),
            chosen == positions(sel@),
            forall|b: int| 0 <= b < sel.len() ==> (#[trigger] sel@[b]) < len,
            positions(order@) == rank_order(rows, chosen.take(a as int)),
            forall|b: int| 0 <= b < order.len() ==> (#[trigger] order@[b]) < len,
            order.len() == a,
        decreases sel.len() - a,
    {
        let x = sel[a];
        let mut p: usize = 0;
        while p < order.len() && !listed_before(&items[x], &items[order[p]])
            invariant
                p <= order.len(),
                x < len,
                len == items.len(),
                rows == item_views(items@),
                forall|b: int| 0 <= b < order.len() ==> (#[trigger] order@[b]) < len,
                forall|b: int|
                    0 <= b < p ==> !outranks(
                        rows[x as int],
                        rows[#[trigger] positions(order@)[b]],
                    ),
            decreases order.len() - p,
        {
            assert(positions(order@)[p as int] == order@[p as int]);
            p += 1;
        }
        proof {
            if p < order.len() {
                assert(positions(order@)[p as int] == order@[p as int]);
            }
            lemma_insert_ranked_at(rows, positions(order@), x as int, p as int);
            assert(chosen.take(a + 1).drop_last() =~= chosen.take(a as int));
            assert(chosen.take(a + 1).last() == x);
        }
        let ghost before = order@;
        order.insert(p, x);
        assert(positions(order@) =~= positions(before).insert(p as int, x as int));
        a += 1;
    }
    assert(chosen.take(sel.len() as int) =~= chosen);
    let ghost hits = search_hits(rows, filter@, query@);
    assert(positions(order@) == hits);
    let count = order.len();
    let total: u32 = if count > u32::MAX as usize {
        u32::MAX
    } else {
        count as u32
    };
    let start: usize = if (offset as u64) <= count as u64 {
        offset as usize
    } else {
        count
    };
    let reach: u64 = offset as u64 + capped as u64;
    let end: usize = if reach <= count as u64 {
        reach as usize
    } else {
        count
    };
    let mut out: Vec<SearchItem> = Vec::new();
    let mut i: usize = start;
    while i < end
        invariant
            start <= i <= end <= order.len(),
            len == items.len(),
            rows == item_views(items@),
            hits == positions(order@),
            forall|b: int| 0 <= b < order.len() ==> (#[trigger] order@[b]) < len,
            out.len() == i - start,
            forall|j: int| 0 <= j < out.len() ==> shows(#[trigger] out@[j], rows[hits[start + j]]),
        decreases end - i,
    {
        let row = &items[order[i]];
        assert(hits[i as int] == order@[i as int]);
        let item = search_item_of(row);
        out.push(item);
        i += 1;
    }
    SearchResponse { total, items: out }
}

/// The stored row that the `k`-th row of an answer shows.
pub open spec fn shown_row(
    rows: Seq<ItemView>,
    query: Seq<char>,
    offset: u32,
    filter: Seq<char>,
    k: int,
) -> int {
    let hits = search_hits(rows, filter, query);
    hits[page_start(hits.len() as int, offset) + k]
}

/// Each row of an answer shows a stored row that the request selects.
pub proof fn lemma_answer_row(
    resp: SearchResponse,
    rows: Seq<ItemView>,
    query: Seq<char>,
    limit: u32,
    offset: u32,
    filter: Seq<char>,
    k: int,
)
    requires
        answers(resp, rows, query, limit, offset, filter),
        0 <= k < resp.items@.len(),
    ensures
        0 <= shown_row(rows, query, offset, filter, k) < rows.len(),
        row_selected(rows[shown_row(rows, query, offset, filter, k)], filter, query),
        shows(resp.items@[k], rows[shown_row(rows, query, offset, filter, k)]),
{
    let hits = search_hits(rows, filter, query);
    let start = page_start(hits.len() as int, offset);
    lemma_search_hits(rows, filter, query);
    let x = hits[start + k];
    assert(0 <= start + k < hits.len());
    assert(hits.contains(x));
}

/// An answer holds no more rows than the clamped limit, which is at most
/// 200, and counts no more rows than the table has.
pub proof fn lemma_answer_within_limit(
    resp: SearchResponse,
    rows: Seq<ItemView>,
    query: Seq<char>,
    limit: u32,
    offset: u32,
    filter: Seq<char>,
)
    requires
        answers(resp, rows, query, limit, offset, filter),
    ensures
        resp.items@.len() <= clamp_limit(limit) <= MAX_PAGE,
        resp.total <= rows.len(),
{
    lemma_search_hits(rows, filter, query);
}

/// The filter `pinned` yields only pinned rows, the filter `favorites` only
/// favorited ones, and neither yields a deleted row.
pub proof fn lemma_answer_respects_filter(
    resp: SearchResponse,
    rows: Seq<ItemView>,
    query: Seq<char>,
    limit: u32,
    offset: u32,
    filter: Seq<char>,
    k: int,
)
    requires
        answers(resp, rows, query, limit, offset, filter),
        0 <= k < resp.items@.len(),
    ensures
        !rows[shown_row(rows, query, offset, filter, k)].deleted,
        filter == filter_pinned() ==> resp.items@[k].pinned,
        filter == filter_favorites() ==> resp.items@[k].favorite,
{
    lemma_answer_row(resp, rows, query, limit, offset, filter, k);
    reveal_strlit("favorites");
    reveal_strlit("pinned");
    assert(filter_favorites().len() == 9);
    assert(filter_pinned().len() == 6);
}

/// The rows of an answer come in listing order: pinned before unpinned,
/// favorited before the rest, newer before older.
pub proof fn lemma_answer_in_listing_order(
    resp: SearchResponse,
    rows: Seq<ItemView>,
    query: Seq<char>,
    limit: u32,
    offset: u32,
    filter: Seq<char>,
    a: int,
    b: int,
)
    requires
        answers(resp, rows, query, limit, offset, filter),
        0 <= a < b < resp.items@.len(),
    ensures
        !item_outranks(resp.items@[b], resp.items@[a]),
{
    let hits = search_hits(rows, filter, query);
    let start = page_start(hits.len() as int, offset);
    lemma_search_hits(rows, filter, query);
    lemma_answer_row(resp, rows, query, limit, offset, filter, a);
    lemma_answer_row(resp, rows, query, limit, offset, filter, b);
    let x = hits[start + a];
    let y = hits[start + b];
    assert(!outranks(rows[y], rows[x]));
}

/// Listing order on the rows of an answer; see `outranks`.
pub open spec fn item_outranks(a: SearchItem, b: SearchItem) -> bool {
    if a.pinned != b.pinned {
        a.pinned
    } else if a.favorite != b.favorite {
        a.favorite
    } else {
        a.created_at > b.created_at || (a.created_at == b.created_at && a.id > b.id)
    }
}

/// A query that is one word selects exactly the visible rows that the
/// filter lets through and whose text holds a word beginning with that word.
pub proof fn lemma_one_word_query(it: ItemView, filter: Seq<char>, query: Seq<char>, word: Seq<char>)
    requires
        trim_whitespace(query).len() > 0,
        phrases_of(trim_whitespace(query)) == seq![seq![word]],
    ensures
        row_selected(it, filter, query) <==> is_visible(it) && filter_admits(filter, it)
            && has_prefix_token(tokens_of(shown_text(it)), word),
{
    let tokens = tokens_of(shown_text(it));
    let phrases = phrases_of(trim_whitespace(query));
    let phrase = seq![word];
    assert(phrases[0] == phrase);
    assert(phrase.last() == word);
    if has_phrase(tokens, phrase) {
        let j = choose|j: int| #[trigger] phrase_at(tokens, phrase, j);
        assert(word.is_prefix_of(tokens[j]));
    }
    if has_prefix_token(tokens, word) {
        let k = choose|k: int| 0 <= k < tokens.len() && word.is_prefix_of(#[trigger] tokens[k]);
        assert(phrase_at(tokens, phrase, k));
    }
}

/// A term of several words is found only where those words stand side by
/// side and in order: a text that holds them is not selected unless some place
/// of it holds the whole phrase.
pub proof fn lemma_phrase_needs_its_place(
    it: ItemView,
    filter: Seq<char>,
    query: Seq<char>,
    t: int,
)
    requires
        trim_whitespace(query).len() > 0,
        0 <= t < phrases_of(trim_whitespace(query)).len(),
        row_selected(it, filter, query),
    ensures
        exists|j: int|
            #[trigger] phrase_at(
                tokens_of(shown_text(it)),
                phrases_of(trim_whitespace(query))[t],
                j,
            ),
        phrases_of(trim_whitespace(query))[t].len() > 0,
{
    let tokens = tokens_of(shown_text(it));
    let phrase = phrases_of(trim_whitespace(query))[t];
    assert(has_phrase(tokens, phrase));
    let j = choose|j: int| #[trigger] phrase_at(tokens, phrase, j);
    assert(phrase_at(tokens, phrase, j));
}

/// A blank query selects every visible row that the filter lets through.
pub proof fn lemma_blank_query(it: ItemView, filter: Seq<char>, query: Seq<char>)
    requires
        trim_whitespace(query).len() == 0,
    ensures
        row_selected(it, filter, query) <==> is_visible(it) && filter_admits(filter, it),
{
}

/// Inserting a new position among positions that are all different leaves
/// them all different.
proof fn lemma_insert_ranked_distinct(rows: Seq<ItemView>, sorted: Seq<int>, i: int)
    requires
        sorted.no_duplicates(),
        !sorted.contains(i),
    ensures
        insert_ranked(rows, sorted, i).no_duplicates(),
    decreases sorted.len(),
{
    let out = insert_ranked(rows, sorted, i);
    lemma_insert_ranked(rows, sorted, i);
    if sorted.len() == 0 {
    } else if outranks(rows[i], rows[sorted[0]]) {
        assert forall|a: int, b: int|
            0 <= a < out.len() && 0 <= b < out.len() && a != b implies out[a] != out[b] by {
            if a > 0 {
                assert(out[a] == sorted[a - 1]);
                assert(sorted.contains(out[a]));
            }
            if b > 0 {
                assert(out[b] == sorted[b - 1]);
                assert(sorted.contains(out[b]));
            }
        }
    } else {
        let rest = sorted.drop_first();
        let tail = insert_ranked(rows, rest, i);
        assert(rest.no_duplicates()) by {
            assert forall|a: int, b: int|
                0 <= a < rest.len() && 0 <= b < rest.len() && a != b implies rest[a] != rest[b] by {
                assert(rest[a] == sorted[a + 1] && rest[b] == sorted[b + 1]);
            }
        }
        assert(!rest.contains(i)) by {
            if rest.contains(i) {
                let w = choose|w: int| 0 <= w < rest.len() && rest[w] == i;
                assert(sorted[w + 1] == i);
            }
        }
        lemma_insert_ranked_distinct(rows, rest, i);
        lemma_insert_ranked(rows, rest, i);
        assert(out =~= seq![sorted[0]] + tail);
        assert(!tail.contains(sorted[0])) by {
            if tail.contains(sorted[0]) {
                assert(sorted[0] == i || rest.contains(sorted[0]));
                assert(sorted[0] == sorted[0] && sorted.contains(sorted[0]));
                if rest.contains(sorted[0]) {
                    let w = choose|w: int| 0 <= w < rest.len() && rest[w] == sorted[0];
                    assert(sorted[w + 1] == sorted[0]);
                }
            }
        }
        assert forall|a: int, b: int|
            0 <= a < out.len() && 0 <= b < out.len() && a != b implies out[a] != out[b] by {
            if a > 0 {
                assert(out[a] == tail[a - 1]);
                assert(tail.contains(out[a]));
            }
            if b > 0 {
                assert(out[b] == tail[b - 1]);
                assert(tail.contains(out[b]));
            }
        }
    }
}

/// Listing order keeps positions that are all different all different.
proof fn lemma_rank_order_distinct(rows: Seq<ItemView>, idxs: Seq<int>)
    requires
        idxs.no_duplicates(),
    ensures
        rank_order(rows, idxs).no_duplicates(),
    decreases idxs.len(),
{
    if idxs.len() > 0 {
        let front = idxs.drop_last();
        let last = idxs.last();
        assert(front.no_duplicates()) by {
            assert forall|a: int, b: int|
                0 <= a < front.len() && 0 <= b < front.len() && a != b implies front[a]
                != front[b] by {
                assert(front[a] == idxs[a] && front[b] == idxs[b]);
            }
        }
        lemma_rank_order_distinct(rows, front);
        lemma_rank_order(rows, front);
        assert(!rank_order(rows, front).contains(last)) by {
            if rank_order(rows, front).contains(last) {
                assert(front.contains(last));
                let w = choose|w: int| 0 <= w < front.len() && front[w] == last;
                assert(idxs[w] == idxs[idxs.len() - 1]);
            }
        }
        lemma_insert_ranked_distinct(rows, rank_order(rows, front), last);
    }
}

/// No position is selected twice.
proof fn lemma_selected_distinct(rows: Seq<ItemView>, filter: Seq<char>, query: Seq<char>, k: int)
    requires
        0 <= k <= rows.len(),
    ensures
        selected_upto(rows, filter, query, k).no_duplicates(),
    decreases k,
{
    if k > 0 {
        lemma_selected_distinct(rows, filter, query, k - 1);
        lemma_selected_upto(rows, filter, query, k - 1);
        let before = selected_upto(rows, filter, query, k - 1);
        let now = selected_upto(rows, filter, query, k);
        assert forall|a: int, b: int|
            0 <= a < now.len() && 0 <= b < now.len() && a != b implies now[a] != now[b] by {
            if a < before.len() {
                assert(before.contains(now[a]));
            }
            if b < before.len() {
                assert(before.contains(now[b]));
            }
        }
    }
}

/// In a table whose ids increase, an answer shows no row twice, and each of
/// its rows comes strictly before the ones after it in listing order.
pub proof fn lemma_answer_strictly_ordered(
    resp: SearchResponse,
    rows: Seq<ItemView>,
    query: Seq<char>,
    limit: u32,
    offset: u32,
    filter: Seq<char>,
    a: int,
    b: int,
)
    requires
        answers(resp, rows, query, limit, offset, filter),
        crate::item::ids_increase(rows),
        0 <= a < b < resp.items@.len(),
    ensures
        resp.items@[a].id != resp.items@[b].id,
        item_outranks(resp.items@[a], resp.items@[b]),
{
    let hits = search_hits(rows, filter, query);
    let start = page_start(hits.len() as int, offset);
    lemma_selected_distinct(rows, filter, query, rows.len() as int);
    lemma_rank_order_distinct(rows, selected_upto(rows, filter, query, rows.len() as int));
    lemma_search_hits(rows, filter, query);
    lemma_answer_row(resp, rows, query, limit, offset, filter, a);
    lemma_answer_row(resp, rows, query, limit, offset, filter, b);
    let x = hits[start + a];
    let y = hits[start + b];
    assert(x != y);
    if x < y {
        assert(rows[x].id < rows[y].id);
    } else {
        assert(rows[y].id < rows[x].id);
    }
    assert(!outranks(rows[y], rows[x]));
}

/// Whether `hits` is the listing of a request: it holds the positions of
/// exactly the rows that the request selects, each once, and no row comes
/// after one that it outranks.
pub open spec fn is_listing(
    rows: Seq<ItemView>,
    filter: Seq<char>,
    query: Seq<char>,
    hits: Seq<int>,
) -> bool {
    &&& hits.no_duplicates()
    &&& forall|x: int|
        #[trigger] hits.contains(x) <==> 0 <= x < rows.len() && row_selected(rows[x], filter, query)
    &&& in_listing_order(rows, hits)
}

/// `search_hits` is the listing of the request.
pub proof fn lemma_search_hits_is_listing(rows: Seq<ItemView>, filter: Seq<char>, query: Seq<char>)
    ensures
        is_listing(rows, filter, query, search_hits(rows, filter, query)),
{
    lemma_selected_distinct(rows, filter, query, rows.len() as int);
    lemma_rank_order_distinct(rows, selected_upto(rows, filter, query, rows.len() as int));
    lemma_search_hits(rows, filter, query);
}

/// The first of a listing outranks every other row of it.
proof fn lemma_first_is_best(rows: Seq<ItemView>, hits: Seq<int>, k: int)
    requires
        crate::item::ids_increase(rows),
        hits.no_duplicates(),
        in_listing_order(rows, hits),
        forall|i: int| 0 <= i < hits.len() ==> 0 <= #[trigger] hits[i] < rows.len(),
        0 < k < hits.len(),
    ensures
        outranks(rows[hits[0]], rows[hits[k]]),
{
    let x = hits[0];
    let y = hits[k];
    assert(x != y);
    assert(0 <= x < rows.len() && 0 <= y < rows.len());
    if x < y {
        assert(rows[x].id < rows[y].id);
    } else {
        assert(rows[y].id < rows[x].id);
    }
    assert(!outranks(rows[y], rows[x]));
}

/// In a table whose ids increase, two sequences that hold the same positions,
/// each once and in listing order, are the same sequence.
pub proof fn lemma_listing_order_is_unique(rows: Seq<ItemView>, one: Seq<int>, other: Seq<int>)
    requires
        crate::item::ids_increase(rows),
        one.no_duplicates(),
        other.no_duplicates(),
        in_listing_order(rows, one),
        in_listing_order(rows, other),
        forall|i: int| 0 <= i < one.len() ==> 0 <= #[trigger] one[i] < rows.len(),
        forall|x: int| #[trigger] one.contains(x) <==> other.contains(x),
    ensures
        one == other,
    decreases one.len(),
{
    if one.len() == 0 {
        if other.len() > 0 {
            assert(other.contains(other[0]));
            assert(one.contains(other[0]));
        }
        assert(one =~= other);
    } else {
        assert(one.contains(one[0]));
        assert(other.contains(one[0]));
        assert(other.len() > 0);
        assert forall|i: int| 0 <= i < other.len() implies 0 <= #[trigger] other[i]
            < rows.len() by {
            assert(other.contains(other[i]));
            assert(one.contains(other[i]));
            let w = choose|w: int| 0 <= w < one.len() && one[w] == other[i];
            assert(0 <= one[w] < rows.len());
        }
        // Both begin with the row that outranks all others.
        assert(one[0] == other[0]) by {
            let a = choose|a: int| 0 <= a < other.len() && other[a] == one[0];
            assert(other.contains(other[0]));
            assert(one.contains(other[0]));
            let b = choose|b: int| 0 <= b < one.len() && one[b] == other[0];
            if a > 0 {
                lemma_first_is_best(rows, other, a);
                if b > 0 {
                    lemma_first_is_best(rows, one, b);
                }
            }
        }
        let rest_one = one.drop_first();
        let rest_other = other.drop_first();
        assert(rest_one.no_duplicates()) by {
            assert forall|i: int, j: int|
                0 <= i < rest_one.len() && 0 <= j < rest_one.len() && i != j implies rest_one[i]
                != rest_one[j] by {
                assert(rest_one[i] == one[i + 1] && rest_one[j] == one[j + 1]);
            }
        }
        assert(rest_other.no_duplicates()) by {
            assert forall|i: int, j: int|
                0 <= i < rest_other.len() && 0 <= j < rest_other.len() && i != j implies rest_other[i]
                != rest_other[j] by {
                assert(rest_other[i] == other[i + 1] && rest_other[j] == other[j + 1]);
            }
        }
        assert(in_listing_order(rows, rest_one)) by {
            assert forall|a: int, b: int| 0 <= a < b < rest_one.len() implies !outranks(
                rows[#[trigger] rest_one[b]],
                rows[#[trigger] rest_one[a]],
            ) by {
                assert(rest_one[a] == one[a + 1] && rest_one[b] == one[b + 1]);
            }
        }
        assert(in_listing_order(rows, rest_other)) by {
            assert forall|a: int, b: int| 0 <= a < b < rest_other.len() implies !outranks(
                rows[#[trigger] rest_other[b]],
                rows[#[trigger] rest_other[a]],
            ) by {
                assert(rest_other[a] == other[a + 1] && rest_other[b] == other[b + 1]);
            }
        }
        assert forall|i: int| 0 <= i < rest_one.len() implies 0 <= #[trigger] rest_one[i]
            < rows.len() by {
            assert(rest_one[i] == one[i + 1]);
        }
        assert forall|x: int| #[trigger] rest_one.contains(x) <==> rest_other.contains(x) by {
            if rest_one.contains(x) {
                let w = choose|w: int| 0 <= w < rest_one.len() && rest_one[w] == x;
                assert(one[w + 1] == x);
                assert(one.contains(x));
                assert(x != one[0]);
                assert(other.contains(x));
                let v = choose|v: int| 0 <= v < other.len() && other[v] == x;
                assert(v > 0);
                assert(rest_other[v - 1] == x);
            }
            if rest_other.contains(x) {
                let w = choose|w: int| 0 <= w < rest_other.len() && rest_other[w] == x;
                assert(other[w + 1] == x);
                assert(other.contains(x));
                assert(x != other[0]);
                assert(one.contains(x));
                let v = choose|v: int| 0 <= v < one.len() && one[v] == x;
                assert(v > 0);
                assert(rest_one[v - 1] == x);
            }
        }
        lemma_listing_order_is_unique(rows, rest_one, rest_other);
        assert(one =~= seq![one[0]] + rest_one);
        assert(other =~= seq![other[0]] + rest_other);
    }
}

/// In a table whose ids increase, the listing of a request is `search_hits`
/// and nothing else: whatever holds exactly the selected rows, each once and
/// in listing order, is that sequence.
pub proof fn lemma_listing_is_search_hits(
    rows: Seq<ItemView>,
    filter: Seq<char>,
    query: Seq<char>,
    hits: Seq<int>,
)
    requires
        crate::item::ids_increase(rows),
        is_listing(rows, filter, query, hits),
    ensures
        hits == search_hits(rows, filter, query),
{
    let own = search_hits(rows, filter, query);
    lemma_search_hits_is_listing(rows, filter, query);
    assert forall|i: int| 0 <= i < hits.len() implies 0 <= #[trigger] hits[i] < rows.len() by {
        assert(hits.contains(hits[i]));
    }
    assert forall|x: int| #[trigger] hits.contains(x) <==> own.contains(x) by {}
    lemma_listing_order_is_unique(rows, hits, own);
}

/// Selects the rows that a request selects.
pub open spec fn selected_pred(filter: Seq<char>, query: Seq<char>) -> spec_fn(ItemView) -> bool {
    |it: ItemView| row_selected(it, filter, query)
}

/// How many rows of a table a request selects.
pub open spec fn selected_count(rows: Seq<ItemView>, filter: Seq<char>, query: Seq<char>) -> nat {
    rows.filter(selected_pred(filter, query)).len()
}

/// As many positions are selected as rows are.
proof fn lemma_selected_len(rows: Seq<ItemView>, filter: Seq<char>, query: Seq<char>, k: int)
    requires
        0 <= k <= rows.len(),
    ensures
        selected_upto(rows, filter, query, k).len() == rows.take(k).filter(
            selected_pred(filter, query),
        ).len(),
    decreases k,
{
    if k == 0 {
        assert(rows.take(0).filter(selected_pred(filter, query)) =~= Seq::<ItemView>::empty());
    } else {
        lemma_selected_len(rows, filter, query, k - 1);
        assert(rows.take(k) =~= rows.take(k - 1).push(rows[k - 1]));
        crate::seq_facts::lemma_filter_push(
            rows.take(k - 1),
            rows[k - 1],
            selected_pred(filter, query),
        );
    }
}

/// The numbers of an answer: with `m` rows selected, the page holds
/// `min(clamped limit, m - min(offset, m))` rows, which is at most 200, and
/// `total` is `m`, the clamp bounding the page and not the total. `total`
/// stops at the largest `u32` where more rows are selected than that.
pub proof fn lemma_answer_counts(
    resp: SearchResponse,
    rows: Seq<ItemView>,
    query: Seq<char>,
    limit: u32,
    offset: u32,
    filter: Seq<char>,
)
    requires
        answers(resp, rows, query, limit, offset, filter),
    ensures
        ({
            let m = selected_count(rows, filter, query) as int;
            let skipped = if offset <= m {
                offset as int
            } else {
                m
            };
            let rest = m - skipped;
            &&& resp.items@.len() == if clamp_limit(limit) <= rest {
                clamp_limit(limit)
            } else {
                rest
            }
            &&& resp.items@.len() <= MAX_PAGE
            &&& m <= u32::MAX ==> resp.total == m
            &&& m > u32::MAX ==> resp.total == u32::MAX
        }),
{
    lemma_selected_len(rows, filter, query, rows.len() as int);
    assert(rows.take(rows.len() as int) =~= rows);
    lemma_rank_order(rows, selected_upto(rows, filter, query, rows.len() as int));
}

} // verus!
