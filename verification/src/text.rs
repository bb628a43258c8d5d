//! Character-level text handling.
//!
//! Strings are taken apart as slices of characters, so that every position
//! in a contract counts characters and never bytes.

use vstd::prelude::*;
use vstd::slice::slice_subrange;

verus! {

/// `String::push` appends one character.
pub assume_specification[ String::push ](s: &mut String, c: char)
    ensures
        final(s)@ == old(s)@.push(c),
;

/// The characters of a string, in order.
pub fn chars_of(s: &str) -> (r: Vec<char>)
    ensures
        r@ == s@,
{
    let mut r: Vec<char> = Vec::new();
    for c in it: s.chars()
        invariant
            r@ == it.seq().take(it.index() as int),
            it.seq() == s@,
    {
        r.push(c);
        assert(it.seq().take(it.index() + 1) =~= it.seq().take(it.index() as int).push(c));
    }
    assert(r@ =~= s@);
    r
}

/// The string made of the given characters.
pub fn string_of(s: &[char]) -> (r: String)
    ensures
        r@ == s@,
{
    let mut r = String::new();
    let mut i: usize = 0;
    while i < s.len()
        invariant
            i <= s@.len(),
            r@ == s@.take(i as int),
        decreases s@.len() - i,
    {
        r.push(s[i]);
        assert(s@.take(i + 1) =~= s@.take(i as int).push(s@[i as int]));
        i = i + 1;
    }
    assert(s@.take(i as int) =~= s@);
    r
}

/// Whether two strings hold the same characters.
pub fn str_eq(a: &str, b: &str) -> (r: bool)
    ensures
        r == (a@ == b@),
{
    same_chars(chars_of(a).as_slice(), chars_of(b).as_slice())
}

/// Whether two character slices hold the same characters.
pub fn same_chars(a: &[char], b: &[char]) -> (r: bool)
    ensures
        r == (a@ == b@),
{
    if a.len() != b.len() {
        return false;
    }
    let mut i: usize = 0;
    while i < a.len()
        invariant
            i <= a@.len(),
            a@.len() == b@.len(),
            forall|k: int| 0 <= k < i ==> a@[k] == b@[k],
        decreases a@.len() - i,
    {
        if a[i] != b[i] {
            return false;
        }
        i = i + 1;
    }
    assert(a@ =~= b@);
    true
}

// ---------------------------------------------------------------------------
// Searching
// ---------------------------------------------------------------------------

/// `needle` stands in `hay` at position `i`.
pub open spec fn stands_at(hay: Seq<char>, needle: Seq<char>, i: int) -> bool {
    0 <= i && i + needle.len() <= hay.len() && hay.subrange(i, i + needle.len()) == needle
}

/// The first position at or after `from` where `needle` stands in `hay`.
pub open spec fn find_from(hay: Seq<char>, needle: Seq<char>, from: int) -> Option<int>
    decreases hay.len() + 1 - from,
{
    if from < 0 || from + needle.len() > hay.len() {
        None
    } else if stands_at(hay, needle, from) {
        Some(from)
    } else {
        find_from(hay, needle, from + 1)
    }
}

/// The first position where `needle` stands in `hay`.
pub open spec fn find(hay: Seq<char>, needle: Seq<char>) -> Option<int> {
    find_from(hay, needle, 0)
}

/// `hay` holds `needle` somewhere.
pub open spec fn contains(hay: Seq<char>, needle: Seq<char>) -> bool {
    exists|i: int| stands_at(hay, needle, i)
}

/// The first position at or after `from` that holds `c`.
pub open spec fn find_char_from(s: Seq<char>, c: char, from: int) -> Option<int>
    decreases s.len() - from,
{
    if from < 0 || from >= s.len() {
        None
    } else if s[from] == c {
        Some(from)
    } else {
        find_char_from(s, c, from + 1)
    }
}

/// The first position that holds `c`.
pub open spec fn find_char(s: Seq<char>, c: char) -> Option<int> {
    find_char_from(s, c, 0)
}

/// The last position before `end` that holds `c`.
pub open spec fn rfind_char_before(s: Seq<char>, c: char, end: int) -> Option<int>
    decreases end,
{
    if end <= 0 || end > s.len() {
        None
    } else if s[end - 1] == c {
        Some(end - 1)
    } else {
        rfind_char_before(s, c, end - 1)
    }
}

/// The last position that holds `c`.
pub open spec fn rfind_char(s: Seq<char>, c: char) -> Option<int> {
    rfind_char_before(s, c, s.len() as int)
}

/// An exec position seen as a position of a specification.
pub open spec fn as_pos(r: Option<usize>) -> Option<int> {
    match r {
        Some(i) => Some(i as int),
        None => None,
    }
}

/// What `find_from` finds is the first occurrence, and it finds one when there is one.
pub proof fn lemma_find_from(hay: Seq<char>, needle: Seq<char>, from: int)
    requires
        0 <= from,
    ensures
        match find_from(hay, needle, from) {
            Some(i) => {
                &&& from <= i
                &&& stands_at(hay, needle, i)
                &&& forall|k: int| from <= k < i ==> !stands_at(hay, needle, k)
            },
            None => forall|k: int| from <= k ==> !stands_at(hay, needle, k),
        },
    decreases hay.len() + 1 - from,
{
    if from + needle.len() <= hay.len() && !stands_at(hay, needle, from) {
        lemma_find_from(hay, needle, from + 1);
    }
}

/// What `find_char_from` finds is the first occurrence, and it finds one when there is one.
pub proof fn lemma_find_char_from(s: Seq<char>, c: char, from: int)
    requires
        0 <= from,
    ensures
        match find_char_from(s, c, from) {
            Some(i) => {
                &&& from <= i < s.len()
                &&& s[i] == c
                &&& forall|k: int| from <= k < i ==> s[k] != c
            },
            None => forall|k: int| from <= k < s.len() ==> s[k] != c,
        },
    decreases s.len() - from,
{
    if from < s.len() && s[from] != c {
        lemma_find_char_from(s, c, from + 1);
    }
}

/// What `rfind_char_before` finds is the last occurrence, and it finds one when there is one.
pub proof fn lemma_rfind_char_before(s: Seq<char>, c: char, end: int)
    requires
        end <= s.len(),
    ensures
        match rfind_char_before(s, c, end) {
            Some(i) => {
                &&& 0 <= i < end
                &&& s[i] == c
                &&& forall|k: int| i < k < end ==> s[k] != c
            },
            None => forall|k: int| 0 <= k < end ==> s[k] != c,
        },
    decreases end,
{
    if end > 0 && s[end - 1] != c {
        lemma_rfind_char_before(s, c, end - 1);
    }
}

/// The first position is fixed by being the first.
pub proof fn lemma_find_char_is(s: Seq<char>, c: char, i: int)
    requires
        0 <= i < s.len(),
        s[i] == c,
        forall|j: int| 0 <= j < i ==> #[trigger] s[j] != c,
    ensures
        find_char(s, c) == Some(i),
{
    lemma_find_char_from(s, c, 0);
}

/// The last position is fixed by being the last.
pub proof fn lemma_rfind_char_is(s: Seq<char>, c: char, i: int)
    requires
        0 <= i < s.len(),
        s[i] == c,
        forall|j: int| i < j < s.len() ==> #[trigger] s[j] != c,
    ensures
        rfind_char(s, c) == Some(i),
{
    lemma_rfind_char_before(s, c, s.len() as int);
}

/// Whether `needle` stands in `hay` at position `i`.
pub fn is_at(hay: &[char], needle: &[char], i: usize) -> (r: bool)
    ensures
        r == stands_at(hay@, needle@, i as int),
{
    if i > hay.len() || needle.len() > hay.len() - i {
        return false;
    }
    let mut k: usize = 0;
    while k < needle.len()
        invariant
            k <= needle@.len(),
            i + needle@.len() <= hay.len(),
            forall|j: int| 0 <= j < k ==> hay@[i + j] == needle@[j],
        decreases needle@.len() - k,
    {
        if hay[i + k] != needle[k] {
            assert(hay@.subrange(i as int, i + needle@.len())[k as int] != needle@[k as int]);
            return false;
        }
        k = k + 1;
    }
    assert(hay@.subrange(i as int, i + needle@.len()) =~= needle@);
    true
}

/// Looks for `needle` in `hay` from position `from` on.
pub fn find_sub(hay: &[char], needle: &[char], from: usize) -> (r: Option<usize>)
    ensures
        as_pos(r) == find_from(hay@, needle@, from as int),
{
    if from > hay.len() || needle.len() > hay.len() - from {
        return None;
    }
    let last: usize = hay.len() - needle.len();
    let mut i: usize = from;
    loop
        invariant
            from <= i <= last,
            last == hay@.len() - needle@.len(),
            find_from(hay@, needle@, from as int) == find_from(hay@, needle@, i as int),
        decreases last - i,
    {
        if is_at(hay, needle, i) {
            return Some(i);
        }
        if i == last {
            assert(find_from(hay@, needle@, i + 1) is None);
            return None;
        }
        i = i + 1;
    }
}

/// Looks for `c` in `s` from position `from` on.
pub fn find_char_at(s: &[char], c: char, from: usize) -> (r: Option<usize>)
    ensures
        as_pos(r) == find_char_from(s@, c, from as int),
{
    let mut i: usize = from;
    while i < s.len()
        invariant
            from <= i,
            find_char_from(s@, c, from as int) == find_char_from(s@, c, i as int),
        decreases s@.len() - i,
    {
        if s[i] == c {
            return Some(i);
        }
        i = i + 1;
    }
    None
}

/// Looks for the last `c` in `s`.
pub fn rfind_char_at(s: &[char], c: char) -> (r: Option<usize>)
    ensures
        as_pos(r) == rfind_char(s@, c),
{
    let mut end: usize = s.len();
    while end > 0
        invariant
            end <= s@.len(),
            rfind_char(s@, c) == rfind_char_before(s@, c, end as int),
        decreases end,
    {
        if s[end - 1] == c {
            return Some(end - 1);
        }
        end = end - 1;
    }
    None
}

/// Whether `hay` holds `needle`.
pub fn holds(hay: &str, needle: &str) -> (r: bool)
    ensures
        r == contains(hay@, needle@),
{
    let h = chars_of(hay);
    let n = chars_of(needle);
    let r = find_sub(h.as_slice(), n.as_slice(), 0);
    proof {
        lemma_find_from(hay@, needle@, 0);
    }
    r.is_some()
}

/// `s` begins with `prefix`.
pub open spec fn begins(s: Seq<char>, prefix: Seq<char>) -> bool {
    stands_at(s, prefix, 0)
}

/// Whether `s` begins with `prefix`.
pub fn starts_with(s: &[char], prefix: &str) -> (r: bool)
    ensures
        r == begins(s@, prefix@),
{
    let p = chars_of(prefix);
    is_at(s, p.as_slice(), 0)
}

// ---------------------------------------------------------------------------
// Trimming
// ---------------------------------------------------------------------------

/// The characters with the Unicode property `White_Space`.
pub open spec fn is_white(c: char) -> bool {
    ||| '\u{9}' <= c <= '\u{d}'
    ||| c == ' '
    ||| c == '\u{85}'
    ||| c == '\u{a0}'
    ||| c == '\u{1680}'
    ||| '\u{2000}' <= c <= '\u{200a}'
    ||| c == '\u{2028}'
    ||| c == '\u{2029}'
    ||| c == '\u{202f}'
    ||| c == '\u{205f}'
    ||| c == '\u{3000}'
}

/// Whether `c` is white space.
pub fn white(c: char) -> (r: bool)
    ensures
        r == is_white(c),
{
    ('\u{9}' <= c && c <= '\u{d}') || c == ' ' || c == '\u{85}' || c == '\u{a0}' || c
        == '\u{1680}' || ('\u{2000}' <= c && c <= '\u{200a}') || c == '\u{2028}' || c == '\u{2029}'
        || c == '\u{202f}' || c == '\u{205f}' || c == '\u{3000}'
}

/// `s` without its leading white space.
pub open spec fn trim_start(s: Seq<char>) -> Seq<char>
    decreases s.len(),
{
    if s.len() > 0 && is_white(s[0]) {
        trim_start(s.skip(1))
    } else {
        s
    }
}

/// `s` without its trailing white space.
pub open spec fn trim_end(s: Seq<char>) -> Seq<char>
    decreases s.len(),
{
    if s.len() > 0 && is_white(s.last()) {
        trim_end(s.drop_last())
    } else {
        s
    }
}

/// `s` without the white space on either side.
pub open spec fn trim(s: Seq<char>) -> Seq<char> {
    trim_end(trim_start(s))
}

/// `s` without the run of `c` at its end.
pub open spec fn trim_end_char(s: Seq<char>, c: char) -> Seq<char>
    decreases s.len(),
{
    if s.len() > 0 && s.last() == c {
        trim_end_char(s.drop_last(), c)
    } else {
        s
    }
}

/// Nothing but white space.
pub open spec fn is_blank(s: Seq<char>) -> bool {
    trim(s).len() == 0
}

/// Takes the white space off both sides of `s`.
pub fn trimmed(s: &[char]) -> (r: &[char])
    ensures
        r@ == trim(s@),
{
    let mut start: usize = 0;
    assert(s@.skip(0) =~= s@);
    while start < s.len() && white(s[start])
        invariant
            start <= s@.len(),
            trim_start(s@) == trim_start(s@.skip(start as int)),
        decreases s@.len() - start,
    {
        assert(s@.skip(start as int).skip(1) =~= s@.skip(start + 1));
        start = start + 1;
    }
    let ghost left = s@.skip(start as int);
    assert(trim_start(s@) == left);
    let mut end: usize = s.len();
    assert(s@.subrange(start as int, end as int) =~= left);
    while end > start && white(s[end - 1])
        invariant
            start <= end <= s@.len(),
            trim_end(left) == trim_end(s@.subrange(start as int, end as int)),
        decreases end,
    {
        assert(s@.subrange(start as int, end as int).drop_last() =~= s@.subrange(
            start as int,
            end - 1,
        ));
        end = end - 1;
    }
    slice_subrange(s, start, end)
}

/// Takes the run of `c` off the end of `s`.
pub fn trimmed_end_char(s: &[char], c: char) -> (r: &[char])
    ensures
        r@ == trim_end_char(s@, c),
{
    let mut end: usize = s.len();
    assert(s@.subrange(0, end as int) =~= s@);
    while end > 0 && s[end - 1] == c
        invariant
            end <= s@.len(),
            trim_end_char(s@, c) == trim_end_char(s@.subrange(0, end as int), c),
        decreases end,
    {
        assert(s@.subrange(0, end as int).drop_last() =~= s@.subrange(0, end - 1));
        end = end - 1;
    }
    slice_subrange(s, 0, end)
}

/// Whether `s` holds nothing but white space.
pub fn blank(s: &str) -> (r: bool)
    ensures
        r == is_blank(s@),
{
    let c = chars_of(s);
    trimmed(c.as_slice()).len() == 0
}

// ---------------------------------------------------------------------------
// Splitting
// ---------------------------------------------------------------------------

/// A line without the carriage return that may stand before its line feed.
pub open spec fn strip_cr(line: Seq<char>) -> Seq<char> {
    if line.len() > 0 && line.last() == '\r' {
        line.drop_last()
    } else {
        line
    }
}

/// The lines of `s`: each ends at a line feed, which may follow a carriage
/// return; the last one may lack its line feed.
pub open spec fn lines(s: Seq<char>) -> Seq<Seq<char>>
    decreases s.len(),
{
    if s.len() == 0 {
        Seq::empty()
    } else {
        match find_char(s, '\n') {
            None => seq![s],
            Some(k) => if 0 <= k < s.len() {
                seq![strip_cr(s.take(k))] + lines(s.skip(k + 1))
            } else {
                Seq::empty()
            },
        }
    }
}

/// The characters that each of the given slices holds.
pub open spec fn each_text(v: Seq<&[char]>) -> Seq<Seq<char>> {
    v.map_values(|x: &[char]| x@)
}

proof fn lemma_find_char_skip(s: Seq<char>, c: char, pos: int, from: int)
    requires
        0 <= pos <= from,
        pos <= s.len(),
    ensures
        find_char_from(s.skip(pos), c, from - pos) == (match find_char_from(s, c, from) {
            Some(k) => Some(k - pos),
            None => None,
        }),
    decreases s.len() - from,
{
    if from < s.len() && s[from] != c {
        lemma_find_char_skip(s, c, pos, from + 1);
    }
}

/// Splits `s` into its lines.
pub fn lines_of(s: &[char]) -> (r: Vec<&[char]>)
    ensures
        each_text(r@) == lines(s@),
{
    let mut out: Vec<&[char]> = Vec::new();
    let mut pos: usize = 0;
    assert(s@.skip(0) =~= s@);
    assert(each_text(out@) + lines(s@) =~= lines(s@));
    while pos < s.len()
        invariant
            pos <= s@.len(),
            each_text(out@) + lines(s@.skip(pos as int)) == lines(s@),
        decreases s@.len() - pos,
    {
        let ghost rest = s@.skip(pos as int);
        let ghost before = out@;
        proof {
            lemma_find_char_skip(s@, '\n', pos as int, pos as int);
            lemma_find_char_from(s@, '\n', pos as int);
        }
        match find_char_at(s, '\n', pos) {
            None => {
                out.push(slice_subrange(s, pos, s.len()));
                assert(out@.last()@ =~= rest);
                assert(each_text(out@) =~= each_text(before) + seq![rest]);
                assert(s@.skip(s@.len() as int).len() == 0);
                assert(each_text(out@) + lines(s@.skip(s@.len() as int)) =~= each_text(before)
                    + lines(rest));
                pos = s.len();
            },
            Some(k) => {
                let end: usize = if k > pos && s[k - 1] == '\r' {
                    k - 1
                } else {
                    k
                };
                out.push(slice_subrange(s, pos, end));
                assert(rest.take(k - pos) =~= s@.subrange(pos as int, k as int));
                assert(out@.last()@ =~= strip_cr(rest.take(k - pos)));
                assert(rest.skip(k - pos + 1) =~= s@.skip(k + 1));
                assert(each_text(out@) =~= each_text(before) + seq![strip_cr(rest.take(k - pos))]);
                assert(each_text(out@) + lines(s@.skip(k + 1)) =~= each_text(before) + lines(rest));
                pos = k + 1;
            },
        }
    }
    assert(s@.skip(pos as int).len() == 0);
    assert(each_text(out@) + lines(s@.skip(pos as int)) =~= each_text(out@));
    out
}

/// The number of characters before the first white space.
pub open spec fn word_len(s: Seq<char>) -> int
    decreases s.len(),
{
    if s.len() == 0 || is_white(s[0]) {
        0
    } else {
        1 + word_len(s.skip(1))
    }
}

pub proof fn lemma_word_len(s: Seq<char>)
    ensures
        0 <= word_len(s) <= s.len(),
        s.len() > 0 && !is_white(s[0]) ==> word_len(s) > 0,
    decreases s.len(),
{
    if s.len() > 0 && !is_white(s[0]) {
        lemma_word_len(s.skip(1));
    }
}

/// The words of `s`: its longest runs without white space.
pub open spec fn words(s: Seq<char>) -> Seq<Seq<char>>
    decreases s.len(),
{
    if s.len() == 0 {
        Seq::empty()
    } else if is_white(s[0]) {
        words(s.skip(1))
    } else {
        let k = word_len(s);
        proof {
            lemma_word_len(s);
        }
        seq![s.take(k)] + words(s.skip(k))
    }
}

/// Splits `s` into its words.
pub fn words_of(s: &[char]) -> (r: Vec<&[char]>)
    ensures
        each_text(r@) == words(s@),
{
    let mut out: Vec<&[char]> = Vec::new();
    let mut pos: usize = 0;
    assert(s@.skip(0) =~= s@);
    assert(each_text(out@) + words(s@) =~= words(s@));
    while pos < s.len()
        invariant
            pos <= s@.len(),
            each_text(out@) + words(s@.skip(pos as int)) == words(s@),
        decreases s@.len() - pos,
    {
        let ghost rest = s@.skip(pos as int);
        let ghost before = out@;
        if white(s[pos]) {
            assert(rest.skip(1) =~= s@.skip(pos + 1));
            pos = pos + 1;
        } else {
            let mut end: usize = pos;
            assert(rest.skip(0) =~= rest);
            while end < s.len() && !white(s[end])
                invariant
                    pos <= end <= s@.len(),
                    pos < s@.len(),
                    rest == s@.skip(pos as int),
                    word_len(rest) == end - pos + word_len(s@.skip(end as int)),
                decreases s@.len() - end,
            {
                assert(s@.skip(end as int).skip(1) =~= s@.skip(end + 1));
                end = end + 1;
            }
            assert(word_len(s@.skip(end as int)) == 0);
            proof {
                lemma_word_len(rest);
            }
            out.push(slice_subrange(s, pos, end));
            assert(out@.last()@ =~= rest.take(end - pos));
            assert(rest.skip(end - pos) =~= s@.skip(end as int));
            assert(each_text(out@) =~= each_text(before) + seq![rest.take(end - pos)]);
            assert(each_text(out@) + words(s@.skip(end as int)) =~= each_text(before) + words(rest));
            pos = end;
        }
    }
    assert(s@.skip(pos as int).len() == 0);
    assert(each_text(out@) + words(s@.skip(pos as int)) =~= each_text(out@));
    out
}

// ---------------------------------------------------------------------------
// Splitting
// ---------------------------------------------------------------------------

/// What stands before and after the first `c`, if there is one.
pub open spec fn split_once(s: Seq<char>, c: char) -> Option<(Seq<char>, Seq<char>)> {
    match find_char(s, c) {
        Some(i) => Some((s.take(i), s.skip(i + 1))),
        None => None,
    }
}

/// What stands before and after the first `c`, if there is one.
pub fn split_at_char(s: &[char], c: char) -> (r: Option<(&[char], &[char])>)
    ensures
        match r {
            Some((a, b)) => split_once(s@, c) == Some((a@, b@)),
            None => split_once(s@, c) is None,
        },
{
    proof {
        lemma_find_char_from(s@, c, 0);
    }
    match find_char_at(s, c, 0) {
        Some(i) => {
            let n: usize = s.len();
            let a = slice_subrange(s, 0, i);
            let b = slice_subrange(s, i + 1, n);
            assert(a@ =~= s@.take(i as int));
            assert(b@ =~= s@.skip(i + 1));
            Some((a, b))
        },
        None => None,
    }
}

/// `s` without the line ends at its end.
pub open spec fn trim_line_ends(s: Seq<char>) -> Seq<char>
    decreases s.len(),
{
    if s.len() > 0 && (s.last() == '\n' || s.last() == '\r') {
        trim_line_ends(s.drop_last())
    } else {
        s
    }
}

/// `s` without the line ends at its end.
pub fn trimmed_line_ends(s: &[char]) -> (r: &[char])
    ensures
        r@ == trim_line_ends(s@),
{
    let mut n: usize = s.len();
    assert(s@.take(n as int) =~= s@);
    while n > 0 && (s[n - 1] == '\n' || s[n - 1] == '\r')
        invariant
            n <= s@.len(),
            trim_line_ends(s@) == trim_line_ends(s@.take(n as int)),
        decreases n,
    {
        assert(s@.take(n as int).drop_last() =~= s@.take(n - 1));
        n = n - 1;
    }
    let r = slice_subrange(s, 0, n);
    assert(r@ =~= s@.take(n as int));
    r
}

/// The texts in a row, with `sep` between them.
pub open spec fn join(parts: Seq<Seq<char>>, sep: Seq<char>) -> Seq<char>
    decreases parts.len(),
{
    if parts.len() == 0 {
        Seq::empty()
    } else if parts.len() == 1 {
        parts[0]
    } else {
        join(parts.drop_last(), sep) + sep + parts.last()
    }
}

/// The texts in a row, with `sep` between them.
pub fn joined(parts: &Vec<String>, sep: &str) -> (r: String)
    ensures
        r@ == join(texts(parts@), sep@),
{
    let mut out = String::new();
    let mut i: usize = 0;
    while i < parts.len()
        invariant
            i <= parts@.len(),
            out@ == join(texts(parts@).take(i as int), sep@),
        decreases parts@.len() - i,
    {
        let ghost next = texts(parts@).take(i + 1);
        assert(next.drop_last() =~= texts(parts@).take(i as int));
        assert(next.last() == parts@[i as int]@);
        if i > 0 {
            out.append(sep);
        }
        out.append(parts[i].as_str());
        assert(out@ =~= join(next, sep@));
        i = i + 1;
    }
    assert(texts(parts@).take(i as int) =~= texts(parts@));
    out
}

/// The first `n` characters, or all where there are fewer.
pub open spec fn head(s: Seq<char>, n: nat) -> Seq<char> {
    if s.len() <= n {
        s
    } else {
        s.take(n as int)
    }
}

/// The first `n` characters, or all where there are fewer.
pub fn head_of(s: &str, n: usize) -> (r: String)
    ensures
        r@ == head(s@, n as nat),
{
    let chars = chars_of(s);
    if chars.len() <= n {
        string_of(chars.as_slice())
    } else {
        let part = slice_subrange(chars.as_slice(), 0, n);
        assert(part@ =~= s@.take(n as int));
        string_of(part)
    }
}

// ---------------------------------------------------------------------------
// Order
// ---------------------------------------------------------------------------

/// `a` stands before `b` in the order of their characters.
pub open spec fn precedes(a: Seq<char>, b: Seq<char>) -> bool
    decreases a.len(),
{
    if b.len() == 0 {
        false
    } else if a.len() == 0 {
        true
    } else if a[0] != b[0] {
        a[0] < b[0]
    } else {
        precedes(a.skip(1), b.skip(1))
    }
}

/// Of two different texts exactly one precedes the other, and none precedes itself.
pub proof fn lemma_precedes_total(a: Seq<char>, b: Seq<char>)
    ensures
        a == b ==> !precedes(a, b),
        a != b ==> (precedes(a, b) <==> !precedes(b, a)),
    decreases a.len(),
{
    if a.len() > 0 && b.len() > 0 && a[0] == b[0] {
        lemma_precedes_total(a.skip(1), b.skip(1));
        if a.skip(1) == b.skip(1) {
            assert(a =~= seq![a[0]] + a.skip(1));
            assert(b =~= seq![b[0]] + b.skip(1));
        }
    } else if a.len() == 0 && b.len() == 0 {
        assert(a =~= b);
    }
}

pub proof fn lemma_precedes_transitive(a: Seq<char>, b: Seq<char>, c: Seq<char>)
    requires
        precedes(a, b),
        precedes(b, c),
    ensures
        precedes(a, c),
    decreases a.len(),
{
    if a.len() > 0 && b.len() > 0 && c.len() > 0 && a[0] == b[0] && b[0] == c[0] {
        lemma_precedes_transitive(a.skip(1), b.skip(1), c.skip(1));
    }
}

/// Whether `a` stands before `b`.
pub fn before(a: &[char], b: &[char]) -> (r: bool)
    ensures
        r == precedes(a@, b@),
{
    let mut i: usize = 0;
    assert(a@.skip(0) =~= a@);
    assert(b@.skip(0) =~= b@);
    while i < a.len() && i < b.len()
        invariant
            i <= a@.len(),
            i <= b@.len(),
            precedes(a@, b@) == precedes(a@.skip(i as int), b@.skip(i as int)),
        decreases a@.len() - i,
    {
        if a[i] != b[i] {
            return a[i] < b[i];
        }
        assert(a@.skip(i as int).skip(1) =~= a@.skip(i + 1));
        assert(b@.skip(i as int).skip(1) =~= b@.skip(i + 1));
        i = i + 1;
    }
    i < b.len()
}

// ---------------------------------------------------------------------------
// Writing
// ---------------------------------------------------------------------------

/// `a` followed by `b`.
pub fn cat2(a: &str, b: &str) -> (r: String)
    ensures
        r@ == a@ + b@,
{
    let mut out = a.to_owned();
    out.append(b);
    out
}

/// `a`, `b` and `c` in a row.
pub fn cat3(a: &str, b: &str, c: &str) -> (r: String)
    ensures
        r@ == a@ + b@ + c@,
{
    let mut out = cat2(a, b);
    out.append(c);
    out
}

/// `a`, `b`, `c` and `d` in a row.
pub fn cat4(a: &str, b: &str, c: &str, d: &str) -> (r: String)
    ensures
        r@ == a@ + b@ + c@ + d@,
{
    let mut out = cat3(a, b, c);
    out.append(d);
    out
}

/// Two texts with the same UTF-8 are the same.
pub proof fn lemma_utf8_is_injective(a: Seq<char>, b: Seq<char>)
    requires
        vstd::utf8::encode_utf8(a) == vstd::utf8::encode_utf8(b),
    ensures
        a == b,
{
    vstd::utf8::encode_utf8_decode_utf8(a);
    vstd::utf8::encode_utf8_decode_utf8(b);
}

/// What `Debug` of `str` writes: the text in quotation marks, with escapes.
pub uninterp spec fn quoted(s: Seq<char>) -> Seq<char>;

/// `Debug` of `str`, as `format!` writes it. The result rests on the text
/// alone and goes by the name `quoted`.
#[verifier::external_body]
pub(crate) fn quote(s: &str) -> (r: String)
    ensures
        r@ == quoted(s@),
{
    format!("{:?}", s)
}

// ---------------------------------------------------------------------------
// Rows of texts, and texts that may be absent
// ---------------------------------------------------------------------------

/// The texts of a row of strings.
pub open spec fn texts(v: Seq<String>) -> Seq<Seq<char>> {
    v.map_values(|s: String| s@)
}

/// The text, where there is one.
pub open spec fn opt_text(s: Option<String>) -> Option<Seq<char>> {
    match s {
        Some(t) => Some(t@),
        None => None,
    }
}

/// The text, or else `other`.
pub open spec fn text_or(s: Option<String>, other: Seq<char>) -> Seq<char> {
    match s {
        Some(t) => t@,
        None => other,
    }
}

/// Copies of the strings of a row.
pub fn copy_texts(v: &Vec<String>) -> (r: Vec<String>)
    ensures
        texts(r@) == texts(v@),
{
    let mut out: Vec<String> = Vec::new();
    let mut i: usize = 0;
    while i < v.len()
        invariant
            i <= v@.len(),
            out@.len() == i,
            forall|j: int| 0 <= j < i ==> (#[trigger] out@[j])@ == v@[j]@,
        decreases v@.len() - i,
    {
        out.push(v[i].clone());
        i = i + 1;
    }
    assert(texts(out@) =~= texts(v@));
    out
}

/// A copy of the string, where there is one.
pub fn copy_option(s: &Option<String>) -> (r: Option<String>)
    ensures
        opt_text(r) == opt_text(*s),
{
    match s {
        Some(t) => Some(t.clone()),
        None => None,
    }
}

/// A copy of the string, or else of `other`.
pub fn copy_or(s: &Option<String>, other: &str) -> (r: String)
    ensures
        r@ == text_or(*s, other@),
{
    match s {
        Some(t) => t.clone(),
        None => other.to_owned(),
    }
}

/// What `str::to_lowercase` makes of a text.
pub uninterp spec fn lowercase(s: Seq<char>) -> Seq<char>;

/// `str::to_lowercase`. The result rests on the text alone and goes by the
/// name `lowercase`.
#[verifier::external_body]
pub(crate) fn to_lowercase(s: &str) -> (r: String)
    ensures
        r@ == lowercase(s@),
{
    s.to_lowercase()
}

// ---------------------------------------------------------------------------
// Laws
// ---------------------------------------------------------------------------

/// Nothing but white space stands in `s`.
pub open spec fn all_white(s: Seq<char>) -> bool {
    forall|i: int| 0 <= i < s.len() ==> is_white(#[trigger] s[i])
}

/// White space on either side of a text is taken off, and nothing else: a text
/// that neither begins nor ends with white space comes out as it is.
pub proof fn law_trim_takes_white_space_off_both_ends(
    before: Seq<char>,
    s: Seq<char>,
    after: Seq<char>,
)
    requires
        all_white(before),
        all_white(after),
        s.len() > 0 ==> !is_white(s[0]) && !is_white(s.last()),
    ensures
        trim(before + s + after) == s,
{
    lemma_trim_start_of(before, s + after);
    assert(before + s + after =~= before + (s + after));
    if s.len() > 0 {
        assert((s + after)[0] == s[0]);
        assert(trim_start(s + after) == s + after);
        lemma_trim_end_of(s, after);
        assert(trim_end(s) == s);
    } else {
        assert(s + after =~= after);
        lemma_trim_start_of(after, Seq::empty());
        assert(after + Seq::<char>::empty() =~= after);
        assert(s =~= Seq::empty());
    }
}

proof fn lemma_trim_start_of(before: Seq<char>, s: Seq<char>)
    requires
        all_white(before),
    ensures
        trim_start(before + s) == trim_start(s),
    decreases before.len(),
{
    if before.len() == 0 {
        assert(before + s =~= s);
    } else {
        assert((before + s)[0] == before[0]);
        assert((before + s).skip(1) =~= before.skip(1) + s);
        assert forall|i: int| 0 <= i < before.skip(1).len() implies is_white(
            #[trigger] before.skip(1)[i],
        ) by {
            assert(before.skip(1)[i] == before[i + 1]);
        }
        lemma_trim_start_of(before.skip(1), s);
    }
}

proof fn lemma_trim_end_of(s: Seq<char>, after: Seq<char>)
    requires
        all_white(after),
    ensures
        trim_end(s + after) == trim_end(s),
    decreases after.len(),
{
    if after.len() == 0 {
        assert(s + after =~= s);
    } else {
        assert((s + after).last() == after[after.len() - 1]);
        assert((s + after).drop_last() =~= s + after.drop_last());
        assert forall|i: int| 0 <= i < after.drop_last().len() implies is_white(
            #[trigger] after.drop_last()[i],
        ) by {
            assert(after.drop_last()[i] == after[i]);
        }
        lemma_trim_end_of(s, after.drop_last());
    }
}

/// A text is blank exactly when nothing but white space stands in it.
pub proof fn law_blank_is_all_white_space(s: Seq<char>)
    ensures
        is_blank(s) <==> all_white(s),
{
    if all_white(s) {
        law_trim_takes_white_space_off_both_ends(s, Seq::empty(), Seq::empty());
        assert(s + Seq::<char>::empty() + Seq::<char>::empty() =~= s);
    } else {
        let i = choose|i: int| 0 <= i < s.len() && !is_white(#[trigger] s[i]);
        lemma_trim_keeps(s, i);
    }
}

proof fn lemma_trim_keeps(s: Seq<char>, i: int)
    requires
        0 <= i < s.len(),
        !is_white(s[i]),
    ensures
        trim(s).len() > 0,
{
    lemma_trim_start_keeps(s, i);
    let t = trim_start(s);
    lemma_trim_end_keeps(t, i - (s.len() - t.len()));
}

proof fn lemma_trim_start_keeps(s: Seq<char>, i: int)
    requires
        0 <= i < s.len(),
        !is_white(s[i]),
    ensures
        trim_start(s).len() <= s.len(),
        s.len() - trim_start(s).len() <= i,
        trim_start(s)[i - (s.len() - trim_start(s).len())] == s[i],
    decreases s.len(),
{
    if is_white(s[0]) {
        assert(s.skip(1)[i - 1] == s[i]);
        lemma_trim_start_keeps(s.skip(1), i - 1);
    }
}

proof fn lemma_trim_end_keeps(s: Seq<char>, i: int)
    requires
        0 <= i < s.len(),
        !is_white(s[i]),
    ensures
        trim_end(s).len() > i,
    decreases s.len(),
{
    if is_white(s.last()) {
        assert(s.drop_last()[i] == s[i]);
        lemma_trim_end_keeps(s.drop_last(), i);
    }
}

/// A run of one character is taken off the end of a text, and nothing else.
pub proof fn law_trim_end_char_takes_the_run_off(s: Seq<char>, run: Seq<char>, c: char)
    requires
        forall|i: int| 0 <= i < run.len() ==> #[trigger] run[i] == c,
        s.len() > 0 ==> s.last() != c,
    ensures
        trim_end_char(s + run, c) == s,
    decreases run.len(),
{
    if run.len() == 0 {
        assert(s + run =~= s);
    } else {
        assert((s + run).last() == run[run.len() - 1]);
        assert((s + run).drop_last() =~= s + run.drop_last());
        law_trim_end_char_takes_the_run_off(s, run.drop_last(), c);
    }
}

/// Line ends are taken off the end of a text, and nothing else.
pub proof fn law_line_ends_are_taken_off(s: Seq<char>, ends: Seq<char>)
    requires
        forall|i: int| 0 <= i < ends.len() ==> #[trigger] ends[i] == '\n' || ends[i] == '\r',
        s.len() > 0 ==> s.last() != '\n' && s.last() != '\r',
    ensures
        trim_line_ends(s + ends) == s,
    decreases ends.len(),
{
    if ends.len() == 0 {
        assert(s + ends =~= s);
    } else {
        let front = ends.drop_last();
        assert((s + ends).last() == ends[ends.len() - 1]);
        assert((s + ends).drop_last() =~= s + front);
        assert forall|i: int| 0 <= i < front.len() implies #[trigger] front[i] == '\n' || front[i]
            == '\r' by {
            assert(front[i] == ends[i]);
        }
        law_line_ends_are_taken_off(s, front);
    }
}

/// A line ends at its line feed, with or without a carriage return before it,
/// and what follows are further lines; the last line may lack its line feed.
pub proof fn law_lines_end_at_line_feeds(line: Seq<char>, rest: Seq<char>)
    requires
        forall|i: int| 0 <= i < line.len() ==> #[trigger] line[i] != '\n',
    ensures
        line.len() == 0 || line.last() != '\r' ==> lines(line + seq!['\n'] + rest) == seq![line]
            + lines(rest),
        lines(line + seq!['\r', '\n'] + rest) == seq![line] + lines(rest),
        line.len() > 0 ==> lines(line) == seq![line],
        lines(Seq::empty()).len() == 0,
{
    let n = line.len() as int;
    let s = line + seq!['\n'] + rest;
    assert(s[n] == '\n');
    lemma_find_char_is(s, '\n', n);
    assert(s.take(n) =~= line);
    assert(s.skip(n + 1) =~= rest);
    let t = line + seq!['\r', '\n'] + rest;
    assert(t[n + 1] == '\n');
    lemma_find_char_is(t, '\n', n + 1);
    assert(t.take(n + 1) =~= line.push('\r'));
    assert(line.push('\r').drop_last() =~= line);
    assert(t.skip(n + 2) =~= rest);
    lemma_find_char_from(line, '\n', 0);
}

/// A text is split at the first occurrence of the character, and only there.
pub proof fn law_split_once_splits_at_the_first(a: Seq<char>, c: char, b: Seq<char>)
    requires
        forall|i: int| 0 <= i < a.len() ==> #[trigger] a[i] != c,
    ensures
        split_once(a + seq![c] + b, c) == Some((a, b)),
        split_once(a, c) is None,
{
    let s = a + seq![c] + b;
    let n = a.len() as int;
    assert(s[n] == c);
    lemma_find_char_is(s, c, n);
    assert(s.take(n) =~= a);
    assert(s.skip(n + 1) =~= b);
    lemma_find_char_from(a, c, 0);
}

/// White space parts words, and no word is lost: before other text a word
/// stands first, and white space before a text adds nothing.
pub proof fn law_words_are_parted_by_white_space(word: Seq<char>, c: char, rest: Seq<char>)
    requires
        word.len() > 0,
        forall|i: int| 0 <= i < word.len() ==> !is_white(#[trigger] word[i]),
        is_white(c),
    ensures
        words(word + seq![c] + rest) == seq![word] + words(rest),
        words(seq![c] + rest) == words(rest),
        words(word) == seq![word],
        words(Seq::empty()).len() == 0,
{
    let s = word + seq![c] + rest;
    let n = word.len() as int;
    lemma_word_len_is(s, n);
    assert(s[0] == word[0]);
    assert(s.take(n) =~= word);
    assert(s.skip(n) =~= seq![c] + rest);
    assert((seq![c] + rest)[0] == c);
    assert((seq![c] + rest).skip(1) =~= rest);
    assert(words(seq![c] + rest) == words(rest));
    assert(words(s) == seq![s.take(n)] + words(s.skip(n)));
    lemma_word_len_is(word, n);
    assert(word.take(n) =~= word);
    assert(word.skip(n) =~= Seq::empty());
    assert(words(Seq::<char>::empty()) =~= Seq::empty());
    assert(words(word) == seq![word.take(n)] + words(word.skip(n)));
    assert(words(word) =~= seq![word]);
}

proof fn lemma_word_len_is(s: Seq<char>, n: int)
    requires
        0 <= n <= s.len(),
        forall|i: int| 0 <= i < n ==> !is_white(#[trigger] s[i]),
        n < s.len() ==> is_white(s[n]),
    ensures
        word_len(s) == n,
    decreases n,
{
    if n > 0 {
        let t = s.skip(1);
        assert forall|i: int| 0 <= i < n - 1 implies !is_white(#[trigger] t[i]) by {
            assert(t[i] == s[i + 1]);
        }
        lemma_word_len_is(t, n - 1);
    }
}

/// Texts are joined in order, with the separator between any two.
pub proof fn law_join_keeps_the_order(a: Seq<Seq<char>>, b: Seq<Seq<char>>, sep: Seq<char>)
    requires
        a.len() > 0,
        b.len() > 0,
    ensures
        join(a + b, sep) == join(a, sep) + sep + join(b, sep),
        forall|t: Seq<char>| join(seq![t], sep) == t,
        join(Seq::empty(), sep).len() == 0,
    decreases b.len(),
{
    assert((a + b).drop_last() =~= a + b.drop_last());
    assert((a + b).last() == b.last());
    if b.len() == 1 {
        assert(a + b.drop_last() =~= a);
    } else {
        law_join_keeps_the_order(a, b.drop_last(), sep);
        assert(join(a + b, sep) =~= join(a, sep) + sep + join(b, sep));
    }
}

/// The head of a text is a beginning of it: all of it where it is no longer than
/// that, and else just so many characters.
pub proof fn law_head_is_a_beginning(s: Seq<char>, n: nat)
    ensures
        head(s, n).len() == (if s.len() <= n {
            s.len()
        } else {
            n
        }),
        forall|i: int| 0 <= i < head(s, n).len() ==> #[trigger] head(s, n)[i] == s[i],
{
}

/// Texts are ordered by the first character in which they differ; a text stands
/// before every longer one that begins with it.
pub proof fn law_texts_are_ordered_by_their_first_difference(
    common: Seq<char>,
    x: char,
    y: char,
    a: Seq<char>,
    b: Seq<char>,
)
    ensures
        x != y ==> (precedes(common + seq![x] + a, common + seq![y] + b) <==> x < y),
        precedes(common, common + seq![y] + b),
        !precedes(common + seq![y] + b, common),
    decreases common.len(),
{
    let s = common + seq![x] + a;
    let t = common + seq![y] + b;
    if common.len() == 0 {
        assert(s[0] == x);
        assert(t[0] == y);
    } else {
        assert(s[0] == common[0]);
        assert(t[0] == common[0]);
        assert(s.skip(1) =~= common.skip(1) + seq![x] + a);
        assert(t.skip(1) =~= common.skip(1) + seq![y] + b);
        law_texts_are_ordered_by_their_first_difference(common.skip(1), x, y, a, b);
    }
}

/// A text stands in another at a position exactly when the other's characters
/// from there on are its own, and it is held by the other exactly when it stands
/// in it somewhere.
pub proof fn law_a_text_stands_where_its_characters_do(
    before: Seq<char>,
    needle: Seq<char>,
    after: Seq<char>,
)
    ensures
        stands_at(before + needle + after, needle, before.len() as int),
        contains(before + needle + after, needle),
        begins(needle + after, needle),
        forall|hay: Seq<char>, i: int| #[trigger]
            stands_at(hay, needle, i) ==> 0 <= i && i + needle.len() <= hay.len() && hay
                == hay.take(i) + needle + hay.skip(i + needle.len()),
        forall|hay: Seq<char>| #[trigger]
            begins(hay, needle) ==> needle.len() <= hay.len() && hay == needle + hay.skip(
                needle.len() as int,
            ),
{
    let hay = before + needle + after;
    let n = before.len() as int;
    assert(hay.subrange(n, n + needle.len()) =~= needle);
    assert(stands_at(hay, needle, n));
    assert((needle + after).subrange(0, needle.len() as int) =~= needle);
    assert forall|hay: Seq<char>, i: int| #[trigger] stands_at(hay, needle, i) implies 0 <= i && i
        + needle.len() <= hay.len() && hay == hay.take(i) + needle + hay.skip(
        i + needle.len(),
    ) by {
        assert(hay =~= hay.take(i) + hay.subrange(i, i + needle.len()) + hay.skip(
            i + needle.len(),
        ));
    }
    assert forall|hay: Seq<char>| #[trigger] begins(hay, needle) implies needle.len() <= hay.len()
        && hay == needle + hay.skip(needle.len() as int) by {
        assert(hay =~= hay.subrange(0, needle.len() as int) + hay.skip(needle.len() as int));
    }
}

/// A row of strings holds their texts one by one, and a text that may be absent
/// is that of the string, where there is one.
pub proof fn law_rows_hold_every_text(v: Seq<String>, w: Seq<&[char]>, s: String, other: Seq<char>)
    ensures
        texts(v).len() == v.len(),
        forall|i: int| 0 <= i < v.len() ==> #[trigger] texts(v)[i] == v[i]@,
        each_text(w).len() == w.len(),
        forall|i: int| 0 <= i < w.len() ==> #[trigger] each_text(w)[i] == w[i]@,
        opt_text(Some(s)) == Some(s@),
        opt_text(None) is None,
        text_or(Some(s), other) == s@,
        text_or(None, other) == other,
{
}

/// The first and the last occurrence of a character are found, and of a text the
/// first.
pub proof fn law_what_is_looked_for_is_found(s: Seq<char>, c: char, needle: Seq<char>)
    ensures
        match find_char(s, c) {
            Some(i) => 0 <= i < s.len() && s[i] == c && forall|k: int|
                0 <= k < i ==> #[trigger] s[k] != c,
            None => forall|k: int| 0 <= k < s.len() ==> #[trigger] s[k] != c,
        },
        match rfind_char(s, c) {
            Some(i) => 0 <= i < s.len() && s[i] == c && forall|k: int|
                i < k < s.len() ==> #[trigger] s[k] != c,
            None => forall|k: int| 0 <= k < s.len() ==> #[trigger] s[k] != c,
        },
        match find(s, needle) {
            Some(i) => stands_at(s, needle, i) && forall|k: int|
                0 <= k < i ==> !#[trigger] stands_at(s, needle, k),
            None => forall|k: int| !#[trigger] stands_at(s, needle, k),
        },
{
    lemma_find_char_from(s, c, 0);
    lemma_rfind_char_before(s, c, s.len() as int);
    lemma_find_from(s, needle, 0);
}

/// White space is the tab, the line ends, the space and the other spaces of
/// Unicode, and no printed character is.
pub proof fn law_white_space_is_what_unicode_says(c: char)
    ensures
        is_white(' ') && is_white('\t') && is_white('\n') && is_white('\r'),
        is_white('\u{b}') && is_white('\u{c}') && is_white('\u{85}') && is_white('\u{a0}'),
        is_white('\u{1680}') && is_white('\u{2028}') && is_white('\u{2029}'),
        is_white('\u{202f}') && is_white('\u{205f}') && is_white('\u{3000}'),
        '\u{2000}' <= c <= '\u{200a}' ==> is_white(c),
        '!' <= c <= '~' ==> !is_white(c),
        c > '\u{3000}' ==> !is_white(c),
{
}

} // verus!
