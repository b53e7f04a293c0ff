//! Hotkey descriptions such as `Ctrl+Shift+P`.

use vstd::prelude::*;
use crate::text::{chars_of, string_of_range, trim_whitespace, trim_whitespace_range};

verus! {

/// A hotkey: a letter key with the modifiers held down.
#[derive(Debug, Clone, Copy, PartialEq, Eq, Structural)]
pub struct ParsedShortcut {
    pub ctrl: bool,
    pub shift: bool,
    pub alt: bool,
    pub meta: bool,
    /// The key, a small letter from `a` to `z`.
    pub key: char,
}

/// What has been read of a hotkey description so far.
#[derive(Debug, Clone, Copy, PartialEq, Eq, Structural)]
pub struct Chord {
    pub ctrl: bool,
    pub shift: bool,
    pub alt: bool,
    pub meta: bool,
    pub key: Option<char>,
}

/// The lower-case form of a text in the sense of `str::to_lowercase`.
pub uninterp spec fn lowercase_of(s: Seq<char>) -> Seq<char>;

/// Turns a text into lower case.
///
/// Wraps `str::to_lowercase`, which maps the text by the Unicode property
/// `Lowercase`. The result is a function of the text alone, which the contract
/// names `lowercase_of`.
#[verifier::external_body]
pub(crate) fn to_lowercase(s: &str) -> (r: String)
    ensures
        r@ == lowercase_of(s@),
{
    s.to_lowercase()
}

/// The pieces of `s` between occurrences of `sep` that follow an unfinished
/// piece `current`.
pub open spec fn pieces_from(s: Seq<char>, sep: char, current: Seq<char>) -> Seq<Seq<char>>
    decreases s.len(),
{
    if s.len() == 0 {
        seq![current]
    } else if s[0] == sep {
        seq![current] + pieces_from(s.drop_first(), sep, Seq::empty())
    } else {
        pieces_from(s.drop_first(), sep, current.push(s[0]))
    }
}

/// The pieces of `s` between occurrences of `sep`. There is always one piece
/// more than there are separators, and pieces may be empty.
pub open spec fn split_on(s: Seq<char>, sep: char) -> Seq<Seq<char>> {
    pieces_from(s, sep, Seq::empty())
}

/// The key that a word names: the word is a single small letter.
pub open spec fn key_of_token(token: Seq<char>) -> Option<char> {
    if token.len() == 1 && 'a' <= token[0] && token[0] <= 'z' {
        Some(token[0])
    } else {
        None
    }
}

/// A chord with nothing read.
pub open spec fn empty_chord() -> Chord {
    Chord { ctrl: false, shift: false, alt: false, meta: false, key: None }
}

/// The chord after one more word: a modifier name sets its modifier, a
/// letter becomes the key, anything else is passed over.
pub open spec fn absorb(c: Chord, word: Seq<char>) -> Chord {
    if word == "ctrl"@ || word == "control"@ {
        Chord { ctrl: true, ..c }
    } else if word == "shift"@ {
        Chord { shift: true, ..c }
    } else if word == "alt"@ || word == "option"@ {
        Chord { alt: true, ..c }
    } else if word == "cmd"@ || word == "command"@ || word == "super"@ {
        Chord { meta: true, ..c }
    } else {
        match key_of_token(word) {
            Some(k) => Chord { key: Some(k), ..c },
            None => c,
        }
    }
}

/// The chord that a list of pieces describes, each piece trimmed.
pub open spec fn absorb_all(pieces: Seq<Seq<char>>) -> Chord
    decreases pieces.len(),
{
    if pieces.len() == 0 {
        empty_chord()
    } else {
        absorb(absorb_all(pieces.drop_last()), trim_whitespace(pieces.last()))
    }
}

/// The hotkey of a chord, if it has a key.
pub open spec fn shortcut_of(c: Chord) -> Option<ParsedShortcut> {
    match c.key {
        Some(k) => Some(
            ParsedShortcut { ctrl: c.ctrl, shift: c.shift, alt: c.alt, meta: c.meta, key: k },
        ),
        None => None,
    }
}

/// The hotkey that a description in lower case stands for: its pieces
/// between `+` are read in order, and the last letter among them is the key.
/// Without a letter there is no hotkey.
pub open spec fn parsed_lowered(s: Seq<char>) -> Option<ParsedShortcut> {
    shortcut_of(absorb_all(split_on(s, '+')))
}

/// The hotkey that a description stands for: it is trimmed and turned into
/// lower case, then read as `parsed_lowered` says.
pub open spec fn parsed_shortcut(s: Seq<char>) -> Option<ParsedShortcut> {
    parsed_lowered(lowercase_of(trim_whitespace(s)))
}

/// Whether `v[lo..hi]` spells `word`.
fn spells(v: &Vec<char>, lo: usize, hi: usize, word: &str) -> (r: bool)
    requires
        lo <= hi <= v.len(),
    ensures
        r == (v@.subrange(lo as int, hi as int) == word@),
{
    let w = chars_of(word);
    if w.len() != hi - lo {
        return false;
    }
    let mut i: usize = 0;
    while i < w.len()
        invariant
            lo <= hi <= v.len(),
            w.len() == hi - lo,
            w@ == word@,
            i <= w.len(),
            forall|j: int| 0 <= j < i ==> w@[j] == v@[lo + j],
        decreases w.len() - i,
    {
        if w[i] != v[lo + i] {
            assert(v@.subrange(lo as int, hi as int)[i as int] == v@[lo + i]);
            return false;
        }
        i += 1;
    }
    assert(v@.subrange(lo as int, hi as int) =~= w@);
    true
}

/// The key that a word names; see `key_of_token`.
pub fn key_code_from_token(token: &str) -> (r: Option<char>)
    ensures
        r == key_of_token(token@),
{
    let v = chars_of(token);
    if v.len() == 1 && 'a' <= v[0] && v[0] <= 'z' {
        Some(v[0])
    } else {
        None
    }
}

/// Reads one piece `v[lo..hi]` of a description into the chord.
fn absorb_piece(c: Chord, v: &Vec<char>, lo: usize, hi: usize) -> (r: Chord)
    requires
        lo <= hi <= v.len(),
    ensures
        r == absorb(c, trim_whitespace(v@.subrange(lo as int, hi as int))),
{
    let (a, b) = trim_whitespace_range(v, lo, hi);
    if spells(v, a, b, "ctrl") || spells(v, a, b, "control") {
        Chord { ctrl: true, ..c }
    } else if spells(v, a, b, "shift") {
        Chord { shift: true, ..c }
    } else if spells(v, a, b, "alt") || spells(v, a, b, "option") {
        Chord { alt: true, ..c }
    } else if spells(v, a, b, "cmd") || spells(v, a, b, "command") || spells(v, a, b, "super") {
        Chord { meta: true, ..c }
    } else if b - a == 1 && 'a' <= v[a] && v[a] <= 'z' {
        assert(v@.subrange(a as int, b as int)[0] == v@[a as int]);
        Chord { key: Some(v[a]), ..c }
    } else {
        proof {
            if b - a == 1 {
                assert(v@.subrange(a as int, b as int)[0] == v@[a as int]);
            }
        }
        c
    }
}

/// Reads a hotkey description that is already in lower case; see
/// `parsed_lowered`.
pub fn parse_lowered(s: &str) -> (r: Option<ParsedShortcut>)
    ensures
        r == parsed_lowered(s@),
{
    let v = chars_of(s);
    let n = v.len();
    let mut chord = Chord { ctrl: false, shift: false, alt: false, meta: false, key: None };
    let ghost mut done: Seq<Seq<char>> = Seq::empty();
    let mut start: usize = 0;
    let mut i: usize = 0;
    assert(v@.skip(0) =~= v@);
    assert(v@.subrange(0, 0) =~= Seq::<char>::empty());
    assert(done + pieces_from(v@, '+', Seq::empty()) =~= split_on(v@, '+'));
    while i < n
        invariant
            n == v.len(),
            start <= i <= n,
            chord == absorb_all(done),
            done + pieces_from(v@.skip(i as int), '+', v@.subrange(start as int, i as int))
                == split_on(v@, '+'),
        decreases n - i,
    {
        let ghost rest = v@.skip(i as int);
        let ghost current = v@.subrange(start as int, i as int);
        proof {
            assert(rest[0] == v@[i as int]);
            assert(rest.drop_first() =~= v@.skip(i + 1));
        }
        if v[i] == '+' {
            chord = absorb_piece(chord, &v, start, i);
            proof {
                assert(done.push(current).drop_last() =~= done);
                assert(done.push(current) + pieces_from(v@.skip(i + 1), '+', Seq::empty()) =~= done
                    + (seq![current] + pieces_from(v@.skip(i + 1), '+', Seq::empty())));
                done = done.push(current);
                assert(v@.subrange(i + 1, i + 1) =~= Seq::<char>::empty());
            }
            start = i + 1;
        } else {
            proof {
                assert(current.push(v@[i as int]) =~= v@.subrange(start as int, i + 1));
            }
        }
        i += 1;
    }
    let ghost current = v@.subrange(start as int, n as int);
    chord = absorb_piece(chord, &v, start, n);
    proof {
        assert(v@.skip(n as int).len() == 0);
        assert(done + seq![current] =~= done.push(current));
        assert(done.push(current).drop_last() =~= done);
    }
    match chord.key {
        Some(k) => Some(
            ParsedShortcut {
                ctrl: chord.ctrl,
                shift: chord.shift,
                alt: chord.alt,
                meta: chord.meta,
                key: k,
            },
        ),
        None => None,
    }
}

/// Reads a hotkey description such as `Ctrl+Shift+P`; see `parsed_shortcut`.
/// Capitals and surrounding whitespace do not matter, modifiers may come in
/// any order, and `None` is returned when no letter key is named.
pub fn parse_shortcut(shortcut: &str) -> (r: Option<ParsedShortcut>)
    ensures
        r == parsed_shortcut(shortcut@),
{
    let v = chars_of(shortcut);
    let (lo, hi) = trim_whitespace_range(&v, 0, v.len());
    assert(v@.subrange(0, v.len() as int) =~= shortcut@);
    let trimmed = string_of_range(&v, lo, hi);
    let lowered = to_lowercase(trimmed.as_str());
    parse_lowered(lowered.as_str())
}

} // verus!
