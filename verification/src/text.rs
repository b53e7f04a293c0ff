//! Text handling for clipboard payloads: normalisation, previews and the
//! path heuristics used to tell file references from ordinary text.

use vstd::prelude::*;

verus! {

/// Characters that `normalize_text` strips from both ends of a payload:
/// line feed, carriage return, vertical tab and form feed.
pub open spec fn is_line_control(c: char) -> bool {
    c == '\n' || c == '\r' || c == '\u{000B}' || c == '\u{000C}'
}

/// `s` without its longest prefix of characters satisfying `p`.
pub open spec fn trim_start_by(s: Seq<char>, p: spec_fn(char) -> bool) -> Seq<char>
    decreases s.len(),
{
    if s.len() > 0 && p(s[0]) {
        trim_start_by(s.drop_first(), p)
    } else {
        s
    }
}

/// `s` without its longest suffix of characters satisfying `p`.
pub open spec fn trim_end_by(s: Seq<char>, p: spec_fn(char) -> bool) -> Seq<char>
    decreases s.len(),
{
    if s.len() > 0 && p(s.last()) {
        trim_end_by(s.drop_last(), p)
    } else {
        s
    }
}

/// `s` trimmed at both ends.
pub open spec fn trim_by(s: Seq<char>, p: spec_fn(char) -> bool) -> Seq<char> {
    trim_end_by(trim_start_by(s, p), p)
}

/// `s` with every NUL character removed.
pub open spec fn strip_nul(s: Seq<char>) -> Seq<char> {
    s.filter(|c: char| c != '\0')
}

/// The normal form of a text payload: no NUL anywhere, no line-control
/// character at either end, everything else as it was.
pub open spec fn normalized(s: Seq<char>) -> Seq<char> {
    trim_by(strip_nul(s), |c: char| is_line_control(c))
}

/// Trimming the front removes exactly the first `k` characters when those
/// satisfy `p` and the one after them does not.
pub proof fn lemma_trim_start_is_skip(s: Seq<char>, p: spec_fn(char) -> bool, k: int)
    requires
        0 <= k <= s.len(),
        forall|i: int| 0 <= i < k ==> p(#[trigger] s[i]),
        k < s.len() ==> !p(s[k]),
    ensures
        trim_start_by(s, p) == s.skip(k),
    decreases k,
{
    if k == 0 {
        assert(s.skip(0) =~= s);
    } else {
        let rest = s.drop_first();
        assert forall|i: int| 0 <= i < k - 1 implies p(#[trigger] rest[i]) by {
            assert(rest[i] == s[i + 1]);
        }
        lemma_trim_start_is_skip(rest, p, k - 1);
        assert(rest.skip(k - 1) =~= s.skip(k));
    }
}

/// Trimming the back keeps exactly the first `k` characters when all later
/// ones satisfy `p` and the one before them does not.
pub proof fn lemma_trim_end_is_take(s: Seq<char>, p: spec_fn(char) -> bool, k: int)
    requires
        0 <= k <= s.len(),
        forall|i: int| k <= i < s.len() ==> p(#[trigger] s[i]),
        k > 0 ==> !p(s[k - 1]),
    ensures
        trim_end_by(s, p) == s.take(k),
    decreases s.len() - k,
{
    if k == s.len() {
        assert(s.take(k) =~= s);
    } else {
        let rest = s.drop_last();
        lemma_trim_end_is_take(rest, p, k);
        assert(rest.take(k) =~= s.take(k));
    }
}

/// Appends one character to a string.
///
/// Wraps `String::push`, which appends the given `char` to the end of the
/// string and leaves the existing contents untouched.
#[verifier::external_body]
pub(crate) fn push_char(s: &mut String, c: char)
    ensures
        final(s)@ == old(s)@.push(c),
{
    s.push(c)
}

/// The characters of a string slice, in order.
pub fn chars_of(s: &str) -> (v: Vec<char>)
    ensures
        v@ == s@,
{
    let mut v: Vec<char> = Vec::new();
    let it = s.chars();
    for c in iter: it
        invariant
            v@ == iter.seq().take(iter.index()),
    {
        v.push(c);
    }
    v
}

/// The string made of `v[start..end]`.
pub(crate) fn string_of_range(v: &Vec<char>, start: usize, end: usize) -> (s: String)
    requires
        start <= end <= v.len(),
    ensures
        s@ == v@.subrange(start as int, end as int),
{
    let mut s = String::new();
    let mut i: usize = start;
    while i < end
        invariant
            start <= i <= end <= v.len(),
            s@ == v@.subrange(start as int, i as int),
        decreases end - i,
    {
        push_char(&mut s, v[i]);
        i += 1;
        assert(v@.subrange(start as int, i as int) =~= v@.subrange(start as int, i - 1).push(
            v@[i - 1],
        ));
    }
    s
}

/// Whether two string slices hold the same characters.
pub fn str_equals(a: &str, b: &str) -> (r: bool)
    ensures
        r == (a@ == b@),
{
    let x = chars_of(a);
    let y = chars_of(b);
    if x.len() != y.len() {
        return false;
    }
    let mut i: usize = 0;
    while i < x.len()
        invariant
            x@ == a@,
            y@ == b@,
            x.len() == y.len(),
            i <= x.len(),
            forall|j: int| 0 <= j < i ==> x@[j] == y@[j],
        decreases x.len() - i,
    {
        if x[i] != y[i] {
            return false;
        }
        i += 1;
    }
    assert(x@ =~= y@);
    true
}

/// Brings a clipboard text into normal form: every NUL is dropped, then line
/// feeds, carriage returns, vertical tabs and form feeds are trimmed from both
/// ends. Ordinary whitespace and everything in the interior stay.
pub fn normalize_text(input: &str) -> (out: String)
    ensures
        out@ == normalized(input@),
{
    let mut kept: Vec<char> = Vec::new();
    let it = input.chars();
    for c in iter: it
        invariant
            kept@ == strip_nul(iter.seq().take(iter.index())),
    {
        proof {
            lemma_strip_nul_step(iter.seq(), iter.index());
        }
        if c != '\0' {
            kept.push(c);
        }
    }
    assert(input@.take(input@.len() as int) =~= input@);
    let n = kept.len();
    let mut start: usize = 0;
    while start < n && is_line_control_char(kept[start])
        invariant
            n == kept.len(),
            start <= n,
            forall|i: int| 0 <= i < start ==> is_line_control(#[trigger] kept@[i]),
        decreases n - start,
    {
        start += 1;
    }
    let mut end: usize = n;
    while end > start && is_line_control_char(kept[end - 1])
        invariant
            n == kept.len(),
            start <= end <= n,
            forall|i: int| end <= i < n ==> is_line_control(#[trigger] kept@[i]),
        decreases end,
    {
        end -= 1;
    }
    proof {
        let ctl = |c: char| is_line_control(c);
        lemma_trim_start_is_skip(kept@, ctl, start as int);
        let tail = kept@.skip(start as int);
        assert forall|i: int| end - start <= i < tail.len() implies ctl(#[trigger] tail[i]) by {
            assert(tail[i] == kept@[i + start]);
        }
        if end > start {
            assert(tail[end - start - 1] == kept@[end - 1]);
        }
        lemma_trim_end_is_take(tail, ctl, end - start);
        assert(tail.take(end - start) =~= kept@.subrange(start as int, end as int));
    }
    string_of_range(&kept, start, end)
}

/// Dropping NULs from one more character either appends that character or
/// changes nothing.
pub proof fn lemma_strip_nul_step(s: Seq<char>, i: int)
    requires
        0 <= i < s.len(),
    ensures
        strip_nul(s.take(i + 1)) == if s[i] != '\0' {
            strip_nul(s.take(i)).push(s[i])
        } else {
            strip_nul(s.take(i))
        },
{
    let longer = s.take(i + 1);
    assert(longer.drop_last() =~= s.take(i));
    assert(longer.last() == s[i]);
    reveal_with_fuel(Seq::filter, 2);
}

/// Executable form of `is_line_control`.
pub fn is_line_control_char(c: char) -> (r: bool)
    ensures
        r == is_line_control(c),
{
    c == '\n' || c == '\r' || c == '\u{000B}' || c == '\u{000C}'
}

/// Whether `c` is whitespace, that is, whether it has the Unicode property
/// `White_Space`: the controls from tab to carriage return, the space, next
/// line, the no-break space, the ogham space mark, the spaces from en quad to
/// hair space, the line and paragraph separators, the narrow no-break space,
/// the medium mathematical space and the ideographic space.
pub open spec fn is_white_space(c: char) -> bool {
    let u = c as u32;
    ||| (0x09 <= u && u <= 0x0D)
    ||| u == 0x20
    ||| u == 0x85
    ||| u == 0xA0
    ||| u == 0x1680
    ||| (0x2000 <= u && u <= 0x200A)
    ||| u == 0x2028
    ||| u == 0x2029
    ||| u == 0x202F
    ||| u == 0x205F
    ||| u == 0x3000
}

/// Tells whether a character is Unicode whitespace; see `is_white_space`.
pub fn char_is_whitespace(c: char) -> (r: bool)
    ensures
        r == is_white_space(c),
{
    let u = c as u32;
    (0x09 <= u && u <= 0x0D) || u == 0x20 || u == 0x85 || u == 0xA0 || u == 0x1680 || (0x2000 <= u
        && u <= 0x200A) || u == 0x2028 || u == 0x2029 || u == 0x202F || u == 0x205F || u == 0x3000
}

/// `s` without leading and trailing whitespace.
pub open spec fn trim_whitespace(s: Seq<char>) -> Seq<char> {
    trim_by(s, |c: char| is_white_space(c))
}

/// Number of characters before the first line feed of `s`, or the length of
/// `s` when it holds none.
pub open spec fn first_line_len(s: Seq<char>) -> nat
    decreases s.len(),
{
    if s.len() == 0 || s[0] == '\n' {
        0
    } else {
        1 + first_line_len(s.drop_first())
    }
}

/// A line without the carriage return that may precede its line feed.
pub open spec fn strip_cr(line: Seq<char>) -> Seq<char> {
    if line.len() > 0 && line.last() == '\r' {
        line.drop_last()
    } else {
        line
    }
}

/// The lines of `s`. A line ends at a line feed or at a carriage return
/// directly followed by one; the terminator belongs to no line, and a final
/// terminator opens no further line.
pub open spec fn lines_of(s: Seq<char>) -> Seq<Seq<char>>
    decreases s.len(),
{
    let k = first_line_len(s) as int;
    if s.len() == 0 {
        Seq::empty()
    } else if k >= s.len() {
        seq![s]
    } else {
        seq![strip_cr(s.take(k))] + lines_of(s.skip(k + 1))
    }
}

/// Trims every line and keeps those that are not empty afterwards.
pub open spec fn trimmed_nonempty(lines: Seq<Seq<char>>) -> Seq<Seq<char>> {
    lines.map_values(|l: Seq<char>| trim_whitespace(l)).filter(|l: Seq<char>| l.len() > 0)
}

/// The lines of a payload that carry anything: each line of `s` trimmed of
/// whitespace, empty ones left out.
pub open spec fn payload_lines_of(s: Seq<char>) -> Seq<Seq<char>> {
    trimmed_nonempty(lines_of(s))
}

/// The character sequences held by a list of strings.
pub open spec fn string_views(v: Seq<String>) -> Seq<Seq<char>> {
    Seq::new(v.len(), |i: int| v[i]@)
}

/// `first_line_len` finds the first line feed: everything before it is no
/// line feed, and it stays within the sequence.
pub proof fn lemma_first_line_len(s: Seq<char>, k: int)
    requires
        0 <= k <= s.len(),
        forall|i: int| 0 <= i < k ==> #[trigger] s[i] != '\n',
        k < s.len() ==> s[k] == '\n',
    ensures
        first_line_len(s) == k,
    decreases k,
{
    if k > 0 {
        let rest = s.drop_first();
        assert forall|i: int| 0 <= i < k - 1 implies #[trigger] rest[i] != '\n' by {
            assert(rest[i] == s[i + 1]);
        }
        lemma_first_line_len(rest, k - 1);
    }
}

/// Taking one more raw line into account either appends its trimmed form or,
/// when nothing is left of it, changes nothing.
pub proof fn lemma_trimmed_nonempty_push(lines: Seq<Seq<char>>, line: Seq<char>)
    ensures
        trimmed_nonempty(lines.push(line)) == if trim_whitespace(line).len() > 0 {
            trimmed_nonempty(lines).push(trim_whitespace(line))
        } else {
            trimmed_nonempty(lines)
        },
{
    let f = |l: Seq<char>| trim_whitespace(l);
    let mapped = lines.push(line).map_values(f);
    assert(mapped.drop_last() =~= lines.map_values(f));
    assert(mapped.last() == trim_whitespace(line));
    reveal_with_fuel(Seq::filter, 2);
}

/// Trims whitespace from both ends of `v[start..end]` and returns the bounds
/// of what is left.
pub(crate) fn trim_whitespace_range(v: &Vec<char>, start: usize, end: usize) -> (r: (usize, usize))
    requires
        start <= end <= v.len(),
    ensures
        start <= r.0 <= r.1 <= end,
        v@.subrange(r.0 as int, r.1 as int) == trim_whitespace(
            v@.subrange(start as int, end as int),
        ),
{
    let mut lo: usize = start;
    while lo < end && char_is_whitespace(v[lo])
        invariant
            start <= lo <= end <= v.len(),
            forall|i: int| start <= i < lo ==> is_white_space(#[trigger] v@[i]),
        decreases end - lo,
    {
        lo += 1;
    }
    let mut hi: usize = end;
    while hi > lo && char_is_whitespace(v[hi - 1])
        invariant
            start <= lo <= hi <= end <= v.len(),
            forall|i: int| hi <= i < end ==> is_white_space(#[trigger] v@[i]),
        decreases hi,
    {
        hi -= 1;
    }
    proof {
        let ws = |c: char| is_white_space(c);
        let whole = v@.subrange(start as int, end as int);
        assert forall|i: int| 0 <= i < lo - start implies ws(#[trigger] whole[i]) by {
            assert(whole[i] == v@[i + start]);
        }
        lemma_trim_start_is_skip(whole, ws, lo - start);
        let tail = whole.skip(lo - start);
        assert forall|i: int| hi - lo <= i < tail.len() implies ws(#[trigger] tail[i]) by {
            assert(tail[i] == v@[i + lo]);
        }
        if hi > lo {
            assert(tail[hi - lo - 1] == v@[hi - 1]);
        }
        lemma_trim_end_is_take(tail, ws, hi - lo);
        assert(tail.take(hi - lo) =~= v@.subrange(lo as int, hi as int));
    }
    (lo, hi)
}

/// The non-empty trimmed lines of a payload, in order.
pub fn payload_lines(text: &str) -> (out: Vec<String>)
    ensures
        string_views(out@) == payload_lines_of(text@),
{
    let v = chars_of(text);
    let n = v.len();
    let mut out: Vec<String> = Vec::new();
    let ghost mut done: Seq<Seq<char>> = Seq::empty();
    let mut i: usize = 0;
    assert(v@.skip(0) =~= v@);
    assert(string_views(out@) =~= trimmed_nonempty(done));
    while i < n
        invariant
            n == v.len(),
            i <= n,
            done + lines_of(v@.skip(i as int)) == lines_of(v@),
            string_views(out@) == trimmed_nonempty(done),
        decreases n - i,
    {
        let mut j: usize = i;
        while j < n && v[j] != '\n'
            invariant
                n == v.len(),
                i <= j <= n,
                forall|k: int| i <= k < j ==> #[trigger] v@[k] != '\n',
            decreases n - j,
        {
            j += 1;
        }
        let ghost rest = v@.skip(i as int);
        proof {
            assert forall|k: int| 0 <= k < j - i implies #[trigger] rest[k] != '\n' by {
                assert(rest[k] == v@[k + i]);
            }
            lemma_first_line_len(rest, j - i);
        }
        let mut line_end: usize = j;
        if j < n && j > i && v[j - 1] == '\r' {
            line_end = j - 1;
        }
        let ghost line = v@.subrange(i as int, line_end as int);
        proof {
            assert(rest.take(j - i) =~= v@.subrange(i as int, j as int));
            if j < n {
                assert(line =~= strip_cr(rest.take(j - i)));
                assert(rest.skip(j - i + 1) =~= v@.skip(j + 1));
                assert(lines_of(rest) == seq![line] + lines_of(v@.skip(j + 1)));
                assert(done.push(line) + lines_of(v@.skip(j + 1)) =~= done + lines_of(rest));
            } else {
                assert(line =~= rest);
                assert(lines_of(rest) == seq![line]);
                assert(v@.skip(n as int).len() == 0);
                assert(lines_of(v@.skip(n as int)) =~= Seq::<Seq<char>>::empty());
                assert(done.push(line) + lines_of(v@.skip(n as int)) =~= done + lines_of(rest));
            }
            lemma_trimmed_nonempty_push(done, line);
        }
        let (lo, hi) = trim_whitespace_range(&v, i, line_end);
        if lo < hi {
            let piece = string_of_range(&v, lo, hi);
            let ghost before = out@;
            out.push(piece);
            assert(string_views(out@) =~= string_views(before).push(piece@));
        }
        proof {
            done = done.push(line);
        }
        i = if j < n { j + 1 } else { n };
    }
    proof {
        assert(v@.skip(n as int).len() == 0);
        assert(done + lines_of(v@.skip(n as int)) =~= done);
    }
    out
}

/// The prefix that marks a file URL.
pub open spec fn file_url_prefix() -> Seq<char> {
    seq!['f', 'i', 'l', 'e', ':', '/', '/']
}

/// Whether a character is a drive letter: an ASCII letter, small or capital.
pub open spec fn is_drive_letter(c: char) -> bool {
    ('a' <= c && c <= 'z') || ('A' <= c && c <= 'Z')
}

/// Whether a line is written like a path: a `file://` URL, an absolute POSIX
/// path, a path under the home directory (`~/`), or a drive path, which is a
/// drive letter, a colon and a slash or backslash.
pub open spec fn has_path_syntax(l: Seq<char>) -> bool {
    ||| file_url_prefix().is_prefix_of(l)
    ||| (l.len() >= 1 && l[0] == '/')
    ||| (l.len() >= 2 && l[0] == '~' && l[1] == '/')
    ||| (l.len() >= 3 && is_drive_letter(l[0]) && l[1] == ':' && (l[2] == '\\' || l[2] == '/'))
}

/// Whether every line of `lines` is written like a path.
pub open spec fn all_have_path_syntax(lines: Seq<Seq<char>>) -> bool {
    forall|i: int| 0 <= i < lines.len() ==> has_path_syntax(#[trigger] lines[i])
}

/// Whether `v` begins with the `file://` prefix.
fn starts_with_file_url(v: &Vec<char>) -> (r: bool)
    ensures
        r == file_url_prefix().is_prefix_of(v@),
{
    let r = v.len() >= 7 && v[0] == 'f' && v[1] == 'i' && v[2] == 'l' && v[3] == 'e' && v[4] == ':'
        && v[5] == '/' && v[6] == '/';
    proof {
        let p = file_url_prefix();
        if r {
            assert(v@.subrange(0, 7) =~= p);
        }
        if p.is_prefix_of(v@) {
            let head = v@.subrange(0, p.len() as int);
            assert(head == p);
            assert(head[0] == v@[0] && head[1] == v@[1] && head[2] == v@[2] && head[3] == v@[3]
                && head[4] == v@[4] && head[5] == v@[5] && head[6] == v@[6]);
        }
    }
    r
}

/// Decides whether a line is written like a path; see `has_path_syntax`.
pub fn line_has_path_syntax(line: &str) -> (r: bool)
    ensures
        r == has_path_syntax(line@),
{
    let v = chars_of(line);
    let n = v.len();
    if starts_with_file_url(&v) {
        return true;
    }
    if n >= 1 && v[0] == '/' {
        return true;
    }
    if n >= 2 && v[0] == '~' && v[1] == '/' {
        return true;
    }
    n >= 3 && (('a' <= v[0] && v[0] <= 'z') || ('A' <= v[0] && v[0] <= 'Z')) && v[1] == ':' && (v[2]
        == '\\' || v[2] == '/')
}

/// Asks the file system whether a path exists.
///
/// Wraps `std::path::Path::exists`. The answer depends on what is on disk at
/// the moment of the call, so nothing is promised about it.
#[verifier::external_body]
pub(crate) fn path_exists(path: &str) -> bool {
    std::path::Path::new(path).exists()
}

/// Whether the file system found the `i`-th line. A line that it was not
/// asked about counts as not found.
pub open spec fn is_found(found: Seq<bool>, i: int) -> bool {
    0 <= i < found.len() && found[i]
}

/// Whether the lines of a payload make a file list, given for each line
/// whether it names something that exists on disk: there is a line, and every
/// line is written like a path or was found.
pub open spec fn is_file_list(lines: Seq<Seq<char>>, found: Seq<bool>) -> bool {
    lines.len() > 0 && forall|i: int|
        0 <= i < lines.len() ==> has_path_syntax(#[trigger] lines[i]) || is_found(found, i)
}

/// A verdict that the file heuristic can give on a text: the answer of
/// `is_file_list` for some way in which the file system may have answered
/// about the lines of the text.
pub open spec fn is_possible_verdict(text: Seq<char>, verdict: bool) -> bool {
    exists|found: Seq<bool>|
        found.len() == payload_lines_of(text).len() && verdict == #[trigger] is_file_list(
            payload_lines_of(text),
            found,
        )
}

/// What the file system cannot change: a payload without lines is no file
/// list, and one whose lines are all written like paths is.
pub proof fn lemma_file_list_by_syntax(lines: Seq<Seq<char>>, found: Seq<bool>)
    ensures
        lines.len() == 0 ==> !is_file_list(lines, found),
        lines.len() > 0 && all_have_path_syntax(lines) ==> is_file_list(lines, found),
{
}

/// One line that is neither written like a path nor found rejects the whole
/// payload.
pub proof fn lemma_one_line_rejects(lines: Seq<Seq<char>>, found: Seq<bool>, i: int)
    requires
        0 <= i < lines.len(),
        !has_path_syntax(lines[i]),
        !is_found(found, i),
    ensures
        !is_file_list(lines, found),
{
}

/// Decides whether the lines of a payload make a file list, given what the
/// file system answered about each; see `is_file_list`.
pub fn judge_file_list(lines: &Vec<String>, found: &Vec<bool>) -> (r: bool)
    ensures
        r == is_file_list(string_views(lines@), found@),
{
    if lines.len() == 0 {
        return false;
    }
    let mut i: usize = 0;
    while i < lines.len()
        invariant
            i <= lines.len(),
            lines.len() > 0,
            forall|k: int|
                0 <= k < i ==> has_path_syntax(#[trigger] string_views(lines@)[k]) || is_found(
                    found@,
                    k,
                ),
        decreases lines.len() - i,
    {
        let line = lines[i].as_str();
        assert(line@ == string_views(lines@)[i as int]);
        let was_found = i < found.len() && found[i];
        if !line_has_path_syntax(line) && !was_found {
            return false;
        }
        i += 1;
    }
    true
}

/// Asks the file system about the lines of a payload. Lines that are
/// written like a path are not asked about, nor is any line after the first
/// one that is neither written like a path nor found; such lines count as not
/// found.
fn probe_lines(lines: &Vec<String>) -> (found: Vec<bool>)
    ensures
        found@.len() == lines@.len(),
{
    let mut found: Vec<bool> = Vec::new();
    let mut rejected = false;
    let mut i: usize = 0;
    while i < lines.len()
        invariant
            i <= lines.len(),
            found@.len() == i,
        decreases lines.len() - i,
    {
        let line = lines[i].as_str();
        let exists = if rejected || line_has_path_syntax(line) {
            false
        } else {
            let exists = path_exists(line);
            rejected = !exists;
            exists
        };
        found.push(exists);
        i += 1;
    }
    found
}

/// Heuristic that tells a list of file references from ordinary text.
///
/// The payload is split into lines, each line is trimmed, and empty lines are
/// left out. A payload without any line left is no file list. Otherwise it is
/// a file list when every line is written like a path or names something that
/// exists on disk; one line that does neither rejects the whole payload. What
/// exists on disk is asked of the file system, so the contract says that the
/// answer is that of `is_file_list` for some answers of the file system;
/// `judge_file_list` is the rule itself.
pub fn looks_like_file_payload(text: &str) -> (r: bool)
    ensures
        is_possible_verdict(text@, r),
{
    let lines = payload_lines(text);
    let found = probe_lines(&lines);
    let r = judge_file_list(&lines, &found);
    assert(r == is_file_list(payload_lines_of(text@), found@));
    r
}

/// `s` with every occurrence of `%20` replaced by a space, scanning from the
/// left without overlap.
pub open spec fn decode_spaces(s: Seq<char>) -> Seq<char>
    decreases s.len(),
{
    if s.len() == 0 {
        s
    } else if s.len() >= 3 && s[0] == '%' && s[1] == '2' && s[2] == '0' {
        seq![' '] + decode_spaces(s.skip(3))
    } else {
        seq![s[0]] + decode_spaces(s.drop_first())
    }
}

/// The path that a stored file reference stands for: a `file://` URL loses its
/// prefix and has `%20` decoded, anything else is taken as it is.
pub open spec fn normalized_path(s: Seq<char>) -> Seq<char> {
    if file_url_prefix().is_prefix_of(s) {
        decode_spaces(s.skip(7))
    } else {
        s
    }
}

/// Turns a stored file reference into a path that can be opened; see
/// `normalized_path`.
pub fn normalize_path(input: &str) -> (out: String)
    ensures
        out@ == normalized_path(input@),
{
    let v = chars_of(input);
    let n = v.len();
    if !starts_with_file_url(&v) {
        let out = string_of_range(&v, 0, n);
        assert(v@.subrange(0, n as int) =~= v@);
        return out;
    }
    let mut out = String::new();
    let mut i: usize = 7;
    assert(out@ + decode_spaces(v@.skip(7)) =~= decode_spaces(v@.skip(7)));
    while i < n
        invariant
            n == v.len(),
            7 <= i <= n,
            out@ + decode_spaces(v@.skip(i as int)) == decode_spaces(v@.skip(7)),
        decreases n - i,
    {
        let ghost rest = v@.skip(i as int);
        let ghost before = out@;
        if n - i >= 3 && v[i] == '%' && v[i + 1] == '2' && v[i + 2] == '0' {
            push_char(&mut out, ' ');
            proof {
                assert(rest.skip(3) =~= v@.skip(i + 3));
                assert(out@ + decode_spaces(v@.skip(i + 3)) =~= before + decode_spaces(rest));
            }
            i += 3;
        } else {
            push_char(&mut out, v[i]);
            proof {
                assert(rest.drop_first() =~= v@.skip(i + 1));
                assert(out@ + decode_spaces(v@.skip(i + 1)) =~= before + decode_spaces(rest));
            }
            i += 1;
        }
    }
    assert(out@ + decode_spaces(v@.skip(n as int)) =~= out@);
    out
}

/// `s` with every line feed and carriage return replaced by a space.
pub open spec fn flatten_newlines(s: Seq<char>) -> Seq<char> {
    s.map_values(|c: char| if c == '\n' || c == '\r' { ' ' } else { c })
}

/// Number of characters of a text that a preview shows.
pub const PREVIEW_CHARS: usize = 140;

/// The kind tag of image items.
pub open spec fn kind_image() -> Seq<char> {
    seq!['i', 'm', 'a', 'g', 'e']
}

/// The kind tag of file items.
pub open spec fn kind_file() -> Seq<char> {
    seq!['f', 'i', 'l', 'e']
}

/// The kind tag of text items.
pub open spec fn kind_text() -> Seq<char> {
    seq!['t', 'e', 'x', 't']
}

/// The preview that a search result shows for an item: the word `Image` for
/// an image, otherwise the text on one line, cut after 140 characters with
/// `...` appended when something was cut.
pub open spec fn preview_of(kind: Seq<char>, text: Seq<char>) -> Seq<char> {
    let flat = flatten_newlines(text);
    if kind == kind_image() {
        seq!['I', 'm', 'a', 'g', 'e']
    } else if flat.len() > PREVIEW_CHARS {
        flat.take(PREVIEW_CHARS as int) + seq!['.', '.', '.']
    } else {
        flat
    }
}

/// Whether a kind tag is `image`.
pub fn is_image_kind(kind: &str) -> (r: bool)
    ensures
        r == (kind@ == kind_image()),
{
    let v = chars_of(kind);
    let r = v.len() == 5 && v[0] == 'i' && v[1] == 'm' && v[2] == 'a' && v[3] == 'g' && v[4] == 'e';
    proof {
        if r {
            assert(v@ =~= kind_image());
        }
    }
    r
}

/// Whether a kind tag is `file`.
pub fn is_file_kind(kind: &str) -> (r: bool)
    ensures
        r == (kind@ == kind_file()),
{
    let v = chars_of(kind);
    let r = v.len() == 4 && v[0] == 'f' && v[1] == 'i' && v[2] == 'l' && v[3] == 'e';
    proof {
        if r {
            assert(v@ =~= kind_file());
        }
    }
    r
}

/// Appends to `out` the first `limit` characters of `text` with line breaks
/// flattened to spaces, and returns how many characters `text` has.
pub(crate) fn push_flattened(out: &mut String, text: &str, limit: usize) -> (len: usize)
    ensures
        len == text@.len(),
        final(out)@ == old(out)@ + flatten_newlines(text@).take(
            if text@.len() < limit {
                text@.len() as int
            } else {
                limit as int
            },
        ),
{
    let v = chars_of(text);
    let n = v.len();
    let stop = if n < limit { n } else { limit };
    let mut i: usize = 0;
    assert(flatten_newlines(text@).take(0) =~= Seq::<char>::empty());
    assert(out@ + Seq::<char>::empty() =~= out@);
    while i < stop
        invariant
            v@ == text@,
            i <= stop <= v.len(),
            out@ == old(out)@ + flatten_newlines(text@).take(i as int),
        decreases stop - i,
    {
        let c = v[i];
        let shown = if c == '\n' || c == '\r' { ' ' } else { c };
        let ghost before = out@;
        push_char(out, shown);
        i += 1;
        proof {
            let flat = flatten_newlines(text@);
            assert(flat.take(i as int) =~= flat.take(i - 1).push(shown));
            assert(out@ =~= old(out)@ + flat.take(i as int));
        }
    }
    n
}

/// Builds the preview of an item for search results; see `preview_of`.
pub fn preview_text(kind: &str, text: &str) -> (out: String)
    ensures
        out@ == preview_of(kind@, text@),
{
    let mut out = String::new();
    if is_image_kind(kind) {
        push_char(&mut out, 'I');
        push_char(&mut out, 'm');
        push_char(&mut out, 'a');
        push_char(&mut out, 'g');
        push_char(&mut out, 'e');
        assert(out@ =~= seq!['I', 'm', 'a', 'g', 'e']);
        return out;
    }
    let n = push_flattened(&mut out, text, PREVIEW_CHARS);
    let ghost flat = flatten_newlines(text@);
    if n > PREVIEW_CHARS {
        let ghost before = out@;
        push_char(&mut out, '.');
        push_char(&mut out, '.');
        push_char(&mut out, '.');
        assert(out@ =~= flat.take(PREVIEW_CHARS as int) + seq!['.', '.', '.']);
    } else {
        assert(flat.take(n as int) =~= flat);
        assert(out@ =~= flat);
    }
    out
}

/// What trimming the front leaves is a tail of the sequence that is empty
/// or begins with a character outside `p`.
pub proof fn lemma_trim_start_shape(s: Seq<char>, p: spec_fn(char) -> bool) -> (k: int)
    ensures
        0 <= k <= s.len(),
        trim_start_by(s, p) == s.skip(k),
        k < s.len() ==> !p(s[k]),
    decreases s.len(),
{
    if s.len() > 0 && p(s[0]) {
        let k = lemma_trim_start_shape(s.drop_first(), p);
        assert(s.drop_first().skip(k) =~= s.skip(k + 1));
        k + 1
    } else {
        assert(s.skip(0) =~= s);
        0
    }
}

/// What trimming the back leaves is a head of the sequence that is empty or
/// ends with a character outside `p`.
pub proof fn lemma_trim_end_shape(s: Seq<char>, p: spec_fn(char) -> bool) -> (k: int)
    ensures
        0 <= k <= s.len(),
        trim_end_by(s, p) == s.take(k),
        k > 0 ==> !p(s[k - 1]),
    decreases s.len(),
{
    if s.len() > 0 && p(s.last()) {
        let k = lemma_trim_end_shape(s.drop_last(), p);
        assert(s.drop_last().take(k) =~= s.take(k));
        k
    } else {
        assert(s.take(s.len() as int) =~= s);
        s.len() as int
    }
}

/// Trimming is idempotent: a trimmed sequence has nothing left to trim.
pub proof fn lemma_trim_by_idempotent(s: Seq<char>, p: spec_fn(char) -> bool)
    ensures
        trim_by(trim_by(s, p), p) == trim_by(s, p),
{
    let a = lemma_trim_start_shape(s, p);
    let tail = s.skip(a);
    let b = lemma_trim_end_shape(tail, p);
    let t = tail.take(b);
    assert(trim_by(s, p) == t);
    if b > 0 {
        assert(t[0] == tail[0]);
        assert(t.last() == tail[b - 1]);
    }
    assert(trim_start_by(t, p) == t);
    assert(trim_end_by(t, p) == t);
}

/// A text in normal form holds no NUL, and normalizing it changes nothing.
pub proof fn lemma_normalized_is_fixed(s: Seq<char>)
    ensures
        forall|i: int| 0 <= i < normalized(s).len() ==> #[trigger] normalized(s)[i] != '\0',
        normalized(normalized(s)) == normalized(s),
{
    let keep = |c: char| c != '\0';
    let ctl = |c: char| is_line_control(c);
    let clean = strip_nul(s);
    let a = lemma_trim_start_shape(clean, ctl);
    let tail = clean.skip(a);
    let b = lemma_trim_end_shape(tail, ctl);
    let n = normalized(s);
    assert(n == tail.take(b));
    assert forall|i: int| 0 <= i < n.len() implies #[trigger] n[i] != '\0' by {
        assert(n[i] == clean[a + i]);
        crate::seq_facts::lemma_filter_members(s, keep, a + i);
    }
    crate::seq_facts::lemma_filter_all(n, keep);
    lemma_trim_by_idempotent(clean, ctl);
}

} // verus!
