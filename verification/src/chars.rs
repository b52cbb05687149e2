//! Character classes and the text primitives the rest of the crate is built on.
//!
//! Text is handled as sequences of `char`. Every executable function here is
//! proved against a definition of its result over `Seq<char>`. The few
//! standard-library calls whose meaning cannot be written down in a few lines
//! are declared at the top, each with a name for its result; what is proved
//! about text that went through one of them is proved in terms of that name.

use vstd::prelude::*;

verus! {

/// `String::push` appends one character to the end of the string.
pub assume_specification[ String::push ](s: &mut String, c: char)
    ensures
        final(s)@ == old(s)@.push(c),
;

/// What `str::to_lowercase` returns for a text: its lowercase equivalent by
/// the Unicode case mappings.
pub uninterp spec fn unicode_lowercase(s: Seq<char>) -> Seq<char>;

/// `str::to_lowercase` is a function of the text alone; nothing else is
/// claimed of it.
pub assume_specification[ str::to_lowercase ](s: &str) -> (r: String)
    ensures
        r@ == unicode_lowercase(s@),
;

/// What `char::is_alphabetic` returns: whether the character has the Unicode
/// `Alphabetic` property.
pub uninterp spec fn unicode_alphabetic(c: char) -> bool;

/// `char::is_alphabetic` is a function of the character alone; nothing else
/// is claimed of it.
pub assume_specification[ char::is_alphabetic ](c: char) -> (b: bool)
    ensures
        b == unicode_alphabetic(c),
;

/// What `String::from_utf8_lossy` returns for a byte string: its text, with
/// each invalid sequence replaced by U+FFFD.
pub uninterp spec fn utf8_lossy(bytes: Seq<u8>) -> Seq<char>;

/// Decodes bytes with `String::from_utf8_lossy`, which never fails and is a
/// function of the bytes alone.
#[verifier::external_body]
pub(crate) fn decode_lossy(bytes: &[u8]) -> (r: String)
    ensures
        r@ == utf8_lossy(bytes@),
{
    String::from_utf8_lossy(bytes).into_owned()
}

/// The letters `A` to `Z`.
pub open spec fn ascii_upper_case(c: char) -> bool {
    'A' <= c <= 'Z'
}

/// The letters `a` to `z`.
pub open spec fn ascii_lower_case(c: char) -> bool {
    'a' <= c <= 'z'
}

/// The 52 letters of ASCII.
pub open spec fn ascii_letter(c: char) -> bool {
    ascii_upper_case(c) || ascii_lower_case(c)
}

/// The digits `0` to `9`.
pub open spec fn ascii_digit(c: char) -> bool {
    '0' <= c <= '9'
}

/// The 128 characters of ASCII.
pub open spec fn ascii(c: char) -> bool {
    c <= '\x7f'
}

/// The five ASCII white-space characters: space, tab, line feed, form feed
/// and carriage return.
pub open spec fn ascii_space(c: char) -> bool {
    c == ' ' || c == '\t' || c == '\n' || c == '\x0c' || c == '\r'
}

/// The characters with the Unicode `White_Space` property.
pub open spec fn space(c: char) -> bool {
    ||| c == ' '
    ||| '\t' <= c <= '\r'
    ||| c == '\u{85}'
    ||| c == '\u{a0}'
    ||| c == '\u{1680}'
    ||| '\u{2000}' <= c <= '\u{200a}'
    ||| c == '\u{2028}'
    ||| c == '\u{2029}'
    ||| c == '\u{202f}'
    ||| c == '\u{205f}'
    ||| c == '\u{3000}'
}

/// ASCII upper-case letters mapped to lower case; every other character
/// unchanged.
pub open spec fn to_lower(c: char) -> char {
    if ascii_upper_case(c) {
        ((c as u8) + 32) as char
    } else {
        c
    }
}

/// ASCII lower-case letters mapped to upper case; every other character
/// unchanged.
pub open spec fn to_upper(c: char) -> char {
    if ascii_lower_case(c) {
        ((c as u8) - 32) as char
    } else {
        c
    }
}

/// Number of bytes of the character in UTF-8.
pub open spec fn utf8_width(c: char) -> nat {
    if c <= '\u{7f}' {
        1
    } else if c <= '\u{7ff}' {
        2
    } else if c <= '\u{ffff}' {
        3
    } else {
        4
    }
}

/// Number of bytes of the text in UTF-8.
pub open spec fn utf8_size(s: Seq<char>) -> nat
    decreases s.len(),
{
    if s.len() == 0 {
        0
    } else {
        utf8_size(s.drop_last()) + utf8_width(s.last())
    }
}

/// A number as a `usize`: itself if it fits, and else the largest `usize`.
pub open spec fn capped(n: nat) -> usize {
    if n <= usize::MAX {
        n as usize
    } else {
        usize::MAX
    }
}

/// The views of the elements, in order.
pub open spec fn views<T: View>(s: Seq<T>) -> Seq<T::V> {
    Seq::new(s.len(), |i: int| s[i]@)
}

/// First index at or after `i` that holds no white space; the length if there
/// is none.
pub open spec fn skip_space(s: Seq<char>, i: int) -> int
    decreases s.len() - i,
{
    if 0 <= i < s.len() && space(s[i]) {
        skip_space(s, i + 1)
    } else {
        i
    }
}

/// First index at or after `i` that holds white space; the length if there is
/// none.
pub open spec fn skip_word(s: Seq<char>, i: int) -> int
    decreases s.len() - i,
{
    if 0 <= i < s.len() && !space(s[i]) {
        skip_word(s, i + 1)
    } else {
        i
    }
}

/// Least `j` in `lo..=hi` such that `s[j..hi]` is all white space.
pub open spec fn skip_space_back(s: Seq<char>, lo: int, hi: int) -> int
    decreases hi - lo,
{
    if lo < hi <= s.len() && 0 < hi && space(s[hi - 1]) {
        skip_space_back(s, lo, hi - 1)
    } else {
        hi
    }
}

/// The text without its leading and trailing white space.
pub open spec fn trimmed(s: Seq<char>) -> Seq<char> {
    let a = skip_space(s, 0);
    let b = skip_space_back(s, a, s.len() as int);
    s.subrange(a, b)
}

/// The maximal runs of characters that are not white space, from index `i`
/// on, in order.
pub open spec fn words_from(s: Seq<char>, i: int) -> Seq<Seq<char>>
    decreases s.len() - i,
{
    let a = skip_space(s, i);
    let b = skip_word(s, a);
    if 0 <= i <= a < b <= s.len() {
        seq![s.subrange(a, b)] + words_from(s, b)
    } else {
        Seq::empty()
    }
}

/// The white-space separated words of a text.
pub open spec fn words(s: Seq<char>) -> Seq<Seq<char>> {
    words_from(s, 0)
}

/// First index at or after `i` that holds `c`; the length if there is none.
pub open spec fn find_char(s: Seq<char>, c: char, i: int) -> int
    decreases s.len() - i,
{
    if 0 <= i < s.len() && s[i] != c {
        find_char(s, c, i + 1)
    } else {
        i
    }
}

/// The pieces between occurrences of `sep`, from index `i` on. A text with
/// `n` separators has `n + 1` pieces, some of them possibly empty.
pub open spec fn fields_from(s: Seq<char>, sep: char, i: int) -> Seq<Seq<char>>
    decreases s.len() - i,
{
    let e = find_char(s, sep, i);
    if 0 <= i <= e < s.len() {
        seq![s.subrange(i, e)] + fields_from(s, sep, e + 1)
    } else {
        seq![s.subrange(i, s.len() as int)]
    }
}

/// The pieces of a text between occurrences of `sep`.
pub open spec fn fields(s: Seq<char>, sep: char) -> Seq<Seq<char>> {
    fields_from(s, sep, 0)
}

/// A line without the carriage return that stood before its line feed.
pub open spec fn without_cr(line: Seq<char>) -> Seq<char> {
    if line.len() > 0 && line.last() == '\r' {
        line.drop_last()
    } else {
        line
    }
}

/// The lines of a text from index `i` on. A line ends at a line feed, or at a
/// carriage return followed by one; the terminator is not part of the line,
/// and a last line needs none. A carriage return at the very end stays.
pub open spec fn lines_from(s: Seq<char>, i: int) -> Seq<Seq<char>>
    decreases s.len() - i,
{
    if 0 <= i < s.len() {
        let e = find_char(s, '\n', i);
        if i <= e < s.len() {
            seq![without_cr(s.subrange(i, e))] + lines_from(s, e + 1)
        } else {
            seq![s.subrange(i, s.len() as int)]
        }
    } else {
        Seq::empty()
    }
}

/// The lines of a text.
pub open spec fn lines(s: Seq<char>) -> Seq<Seq<char>> {
    lines_from(s, 0)
}

/// Whether `s` starts with `p`.
pub open spec fn has_prefix(s: Seq<char>, p: Seq<char>) -> bool {
    p.len() <= s.len() && s.subrange(0, p.len() as int) == p
}

/// Whether `p` stands in `s` at index `i`.
pub open spec fn occurs_at(s: Seq<char>, p: Seq<char>, i: int) -> bool {
    0 <= i && i + p.len() <= s.len() && s.subrange(i, i + p.len()) == p
}

/// First index at or after `i` where `p` occurs in `s`.
pub open spec fn find_seq(s: Seq<char>, p: Seq<char>, i: int) -> Option<int>
    decreases s.len() - i,
{
    if i < 0 || i + p.len() > s.len() {
        None
    } else if occurs_at(s, p, i) {
        Some(i)
    } else if i < s.len() {
        find_seq(s, p, i + 1)
    } else {
        None
    }
}

/// The text from index `i` on with every occurrence of `p` replaced by `r`,
/// occurrences taken from left to right without overlap. An empty `p`
/// replaces nothing.
pub open spec fn replaced_from(s: Seq<char>, p: Seq<char>, r: Seq<char>, i: int) -> Seq<char>
    decreases s.len() - i,
{
    if i < 0 || i >= s.len() {
        Seq::empty()
    } else if p.len() > 0 && occurs_at(s, p, i) {
        r + replaced_from(s, p, r, i + p.len())
    } else {
        seq![s[i]] + replaced_from(s, p, r, i + 1)
    }
}

/// The text with every occurrence of `p` replaced by `r`, occurrences taken
/// from left to right without overlap.
pub open spec fn replaced(s: Seq<char>, p: Seq<char>, r: Seq<char>) -> Seq<char> {
    replaced_from(s, p, r, 0)
}

/// What `skip_space` finds: the end of the run of white space that starts
/// at `i`.
pub proof fn lemma_skip_space_bounds(s: Seq<char>, i: int)
    requires
        0 <= i <= s.len(),
    ensures
        i <= skip_space(s, i) <= s.len(),
        skip_space(s, i) < s.len() ==> !space(s[skip_space(s, i)]),
        forall|j: int| i <= j < skip_space(s, i) ==> space(s[j]),
    decreases s.len() - i,
{
    if i < s.len() && space(s[i]) {
        lemma_skip_space_bounds(s, i + 1);
    }
}

/// What `skip_word` finds: the end of the run without white space that
/// starts at `i`.
pub proof fn lemma_skip_word_bounds(s: Seq<char>, i: int)
    requires
        0 <= i <= s.len(),
    ensures
        i <= skip_word(s, i) <= s.len(),
        skip_word(s, i) < s.len() ==> space(s[skip_word(s, i)]),
        forall|j: int| i <= j < skip_word(s, i) ==> !space(s[j]),
    decreases s.len() - i,
{
    if i < s.len() && !space(s[i]) {
        lemma_skip_word_bounds(s, i + 1);
    }
}

/// No word holds white space, and no word is empty.
pub proof fn lemma_words_hold_no_space(s: Seq<char>, i: int)
    requires
        0 <= i <= s.len(),
    ensures
        forall|k: int|
            0 <= k < words_from(s, i).len() ==> {
                &&& (#[trigger] words_from(s, i)[k]).len() > 0
                &&& forall|j: int| 0 <= j < words_from(s, i)[k].len() ==> !space(words_from(s, i)[k][j])
            },
    decreases s.len() - i,
{
    let a = skip_space(s, i);
    lemma_skip_space_bounds(s, i);
    let b = skip_word(s, a);
    lemma_skip_word_bounds(s, a);
    if a < b {
        lemma_words_hold_no_space(s, b);
        let rest = words_from(s, b);
        let all = words_from(s, i);
        assert(all == seq![s.subrange(a, b)] + rest);
        assert forall|k: int| 0 <= k < all.len() implies {
            &&& (#[trigger] all[k]).len() > 0
            &&& forall|j: int| 0 <= j < all[k].len() ==> !space(all[k][j])
        } by {
            if k == 0 {
                assert(all[0] == s.subrange(a, b));
            } else {
                assert(all[k] == rest[k - 1]);
            }
        }
    }
}

/// Whether the character is one of the 52 letters of ASCII.
pub fn is_ascii_letter(c: char) -> (r: bool)
    ensures
        r == ascii_letter(c),
{
    (c >= 'a' && c <= 'z') || (c >= 'A' && c <= 'Z')
}

/// Whether the character is one of the digits `0` to `9`.
pub fn is_ascii_digit(c: char) -> (r: bool)
    ensures
        r == ascii_digit(c),
{
    c >= '0' && c <= '9'
}

/// Whether the character is one of the 128 of ASCII.
pub fn is_ascii(c: char) -> (r: bool)
    ensures
        r == ascii(c),
{
    c <= '\x7f'
}

/// Whether the character is one of the five white-space characters of
/// ASCII.
pub fn is_ascii_space(c: char) -> (r: bool)
    ensures
        r == ascii_space(c),
{
    c == ' ' || c == '\t' || c == '\n' || c == '\x0c' || c == '\r'
}

/// Whether the character has the Unicode `White_Space` property.
pub fn is_space(c: char) -> (r: bool)
    ensures
        r == space(c),
{
    c == ' ' || (c >= '\t' && c <= '\r') || c == '\u{85}' || c == '\u{a0}' || c == '\u{1680}' || (c
        >= '\u{2000}' && c <= '\u{200a}') || c == '\u{2028}' || c == '\u{2029}' || c == '\u{202f}'
        || c == '\u{205f}' || c == '\u{3000}'
}

/// The character in lower case if it is an ASCII letter, and else as it is.
pub fn lower_char(c: char) -> (r: char)
    ensures
        r == to_lower(c),
{
    if c >= 'A' && c <= 'Z' {
        ((c as u8) + 32) as char
    } else {
        c
    }
}

/// The character in upper case if it is an ASCII letter, and else as it is.
pub fn upper_char(c: char) -> (r: char)
    ensures
        r == to_upper(c),
{
    if c >= 'a' && c <= 'z' {
        ((c as u8) - 32) as char
    } else {
        c
    }
}

/// The characters of a string, in order.
pub fn chars_of(s: &str) -> (v: Vec<char>)
    ensures
        v@ == s@,
{
    broadcast use vstd::string::axiom_spec_iter;

    let mut v: Vec<char> = Vec::new();
    for c in it: s.chars()
        invariant
            it.seq() == s@,
            v@ == s@.take(it.index()),
    {
        v.push(c);
    }
    assert(s@.take(s@.len() as int) == s@);
    v
}

/// The string made of the given characters.
pub fn string_of(v: &Vec<char>) -> (s: String)
    ensures
        s@ == v@,
{
    let mut s = String::new();
    let mut i: usize = 0;
    while i < v.len()
        invariant
            i <= v.len(),
            s@ == v@.take(i as int),
        decreases v.len() - i,
    {
        s.push(v[i]);
        i += 1;
    }
    assert(v@.take(v@.len() as int) == v@);
    s
}

/// A copy of `v[a..b]`.
pub fn slice_of(v: &Vec<char>, a: usize, b: usize) -> (r: Vec<char>)
    requires
        a <= b <= v.len(),
    ensures
        r@ == v@.subrange(a as int, b as int),
{
    let mut r: Vec<char> = Vec::new();
    let mut i: usize = a;
    while i < b
        invariant
            a <= i <= b <= v.len(),
            r@ == v@.subrange(a as int, i as int),
        decreases b - i,
    {
        r.push(v[i]);
        i += 1;
    }
    r
}

/// Whether two texts are the same.
pub fn same_chars(a: &Vec<char>, b: &Vec<char>) -> (r: bool)
    ensures
        r == (a@ == b@),
{
    if a.len() != b.len() {
        return false;
    }
    let mut i: usize = 0;
    while i < a.len()
        invariant
            i <= a.len(),
            a.len() == b.len(),
            forall|j: int| 0 <= j < i ==> a[j] == b[j],
        decreases a.len() - i,
    {
        if a[i] != b[i] {
            return false;
        }
        i += 1;
    }
    assert(a@ =~= b@);
    true
}

/// Whether the characters spell the given string.
pub fn spells(v: &Vec<char>, s: &str) -> (r: bool)
    ensures
        r == (v@ == s@),
{
    let w = chars_of(s);
    same_chars(v, &w)
}

/// Whether `p` stands in `v` at index `i`.
pub fn occurs_in(v: &Vec<char>, p: &Vec<char>, i: usize) -> (r: bool)
    ensures
        r == occurs_at(v@, p@, i as int),
{
    if p.len() > v.len() || i > v.len() - p.len() {
        return false;
    }
    let mut k: usize = 0;
    while k < p.len()
        invariant
            k <= p.len(),
            i + p.len() <= v.len(),
            forall|j: int| 0 <= j < k ==> v[i + j] == p[j],
        decreases p.len() - k,
    {
        if v[i + k] != p[k] {
            assert(v@.subrange(i as int, i + p.len())[k as int] != p@[k as int]);
            return false;
        }
        k += 1;
    }
    assert(v@.subrange(i as int, i + p.len()) =~= p@);
    true
}

/// Whether `v` starts with `p`.
pub fn starts_with(v: &Vec<char>, p: &Vec<char>) -> (r: bool)
    ensures
        r == has_prefix(v@, p@),
{
    occurs_in(v, p, 0)
}

/// Index of the first occurrence of `p` in `v`, if it occurs.
pub fn find_in(v: &Vec<char>, p: &Vec<char>) -> (r: Option<usize>)
    ensures
        match r {
            Some(i) => find_seq(v@, p@, 0) == Some(i as int) && i + p.len() <= v.len(),
            None => find_seq(v@, p@, 0) is None,
        },
{
    if p.len() > v.len() {
        return None;
    }
    let last: usize = v.len() - p.len();
    let mut i: usize = 0;
    while i < last
        invariant
            i <= last,
            last == v.len() - p.len(),
            find_seq(v@, p@, 0) == find_seq(v@, p@, i as int),
        decreases last - i,
    {
        if occurs_in(v, p, i) {
            return Some(i);
        }
        i += 1;
    }
    if occurs_in(v, p, last) {
        Some(last)
    } else {
        assert(find_seq(v@, p@, last + 1) is None);
        None
    }
}

/// The text without its leading and trailing white space.
pub fn trim(v: &Vec<char>) -> (r: Vec<char>)
    ensures
        r@ == trimmed(v@),
{
    let n: usize = v.len();
    let mut a: usize = 0;
    while a < n && is_space(v[a])
        invariant
            a <= n,
            n == v.len(),
            skip_space(v@, 0) == skip_space(v@, a as int),
        decreases n - a,
    {
        a += 1;
    }
    let mut b: usize = n;
    while b > a && is_space(v[b - 1])
        invariant
            a <= b <= n,
            n == v.len(),
            skip_space_back(v@, a as int, n as int) == skip_space_back(v@, a as int, b as int),
        decreases b - a,
    {
        b -= 1;
    }
    slice_of(v, a, b)
}

/// The white-space separated words of a text.
pub fn split_words(v: &Vec<char>) -> (r: Vec<Vec<char>>)
    ensures
        views(r@) == words(v@),
{
    let n: usize = v.len();
    let mut out: Vec<Vec<char>> = Vec::new();
    let mut i: usize = 0;
    assert(views(out@) + words_from(v@, 0) =~= words(v@));
    while i < n
        invariant
            i <= n,
            n == v.len(),
            views(out@) + words_from(v@, i as int) == words(v@),
        decreases n - i,
    {
        if is_space(v[i]) {
            i += 1;
        } else {
            let a: usize = i;
            let mut b: usize = i + 1;
            while b < n && !is_space(v[b])
                invariant
                    a < b <= n,
                    n == v.len(),
                    skip_word(v@, a as int) == skip_word(v@, b as int),
                decreases n - b,
            {
                b += 1;
            }
            let word = slice_of(v, a, b);
            proof {
                let before = views(out@);
                assert(skip_space(v@, a as int) == a);
                assert(words_from(v@, a as int) == seq![word@] + words_from(v@, b as int));
                assert((before.push(word@)) + words_from(v@, b as int) =~= before + words_from(
                    v@,
                    a as int,
                ));
            }
            let ghost before = views(out@);
            out.push(word);
            assert(views(out@) =~= before.push(word@));
            i = b;
        }
    }
    assert(words_from(v@, n as int) =~= Seq::<Seq<char>>::empty());
    assert(views(out@) + Seq::<Seq<char>>::empty() =~= views(out@));
    out
}

/// The pieces of a text between occurrences of `sep`.
pub fn split_on(v: &Vec<char>, sep: char) -> (r: Vec<Vec<char>>)
    ensures
        views(r@) == fields(v@, sep),
        r.len() >= 1,
{
    let n: usize = v.len();
    let mut out: Vec<Vec<char>> = Vec::new();
    let mut start: usize = 0;
    let mut i: usize = 0;
    assert(views(out@) + fields_from(v@, sep, 0) =~= fields(v@, sep));
    while i < n
        invariant
            start <= i <= n,
            n == v.len(),
            views(out@) + fields_from(v@, sep, start as int) == fields(v@, sep),
            find_char(v@, sep, start as int) == find_char(v@, sep, i as int),
        decreases n - i,
    {
        if v[i] == sep {
            let piece = slice_of(v, start, i);
            proof {
                let before = views(out@);
                assert(fields_from(v@, sep, start as int) == seq![piece@] + fields_from(
                    v@,
                    sep,
                    i + 1,
                ));
                assert((before.push(piece@)) + fields_from(v@, sep, i + 1) =~= before
                    + fields_from(v@, sep, start as int));
            }
            let ghost before = views(out@);
            out.push(piece);
            assert(views(out@) =~= before.push(piece@));
            start = i + 1;
        }
        i += 1;
    }
    let piece = slice_of(v, start, n);
    proof {
        let before = views(out@);
        assert(fields_from(v@, sep, start as int) == seq![piece@]);
        assert(before.push(piece@) =~= before + fields_from(v@, sep, start as int));
    }
    let ghost before = views(out@);
    out.push(piece);
    assert(views(out@) =~= before.push(piece@));
    out
}

/// The lines of a text, without their terminators.
pub fn split_lines(v: &Vec<char>) -> (r: Vec<Vec<char>>)
    ensures
        views(r@) == lines(v@),
{
    let n: usize = v.len();
    let mut out: Vec<Vec<char>> = Vec::new();
    let mut start: usize = 0;
    let mut i: usize = 0;
    assert(views(out@) + lines_from(v@, 0) =~= lines(v@));
    while i < n
        invariant
            start <= i <= n,
            n == v.len(),
            views(out@) + lines_from(v@, start as int) == lines(v@),
            find_char(v@, '\n', start as int) == find_char(v@, '\n', i as int),
        decreases n - i,
    {
        if v[i] == '\n' {
            let end: usize = if i > start && v[i - 1] == '\r' {
                i - 1
            } else {
                i
            };
            let line = slice_of(v, start, end);
            proof {
                let before = views(out@);
                let raw = v@.subrange(start as int, i as int);
                assert(line@ =~= without_cr(raw));
                assert(lines_from(v@, start as int) == seq![line@] + lines_from(v@, i + 1));
                assert((before.push(line@)) + lines_from(v@, i + 1) =~= before + lines_from(
                    v@,
                    start as int,
                ));
            }
            let ghost before = views(out@);
            out.push(line);
            assert(views(out@) =~= before.push(line@));
            start = i + 1;
        }
        i += 1;
    }
    if start < n {
        let line = slice_of(v, start, n);
        proof {
            let before = views(out@);
            assert(lines_from(v@, start as int) == seq![line@]);
            assert(before.push(line@) =~= before + lines_from(v@, start as int));
        }
        let ghost before = views(out@);
        out.push(line);
        assert(views(out@) =~= before.push(line@));
    } else {
        assert(lines_from(v@, start as int) =~= Seq::<Seq<char>>::empty());
        assert(views(out@) + Seq::<Seq<char>>::empty() =~= views(out@));
    }
    out
}

/// Number of bytes of the text in UTF-8, or the largest `usize` if the
/// number is beyond it.
pub fn byte_len(v: &Vec<char>) -> (r: usize)
    ensures
        r == capped(utf8_size(v@)),
{
    let mut total: usize = 0;
    let mut i: usize = 0;
    assert(v@.take(0) =~= Seq::<char>::empty());
    while i < v.len()
        invariant
            i <= v.len(),
            total == capped(utf8_size(v@.take(i as int))),
        decreases v.len() - i,
    {
        let c = v[i];
        let w: usize = if c <= '\u{7f}' {
            1
        } else if c <= '\u{7ff}' {
            2
        } else if c <= '\u{ffff}' {
            3
        } else {
            4
        };
        proof {
            let next = v@.take(i + 1);
            assert(next.drop_last() =~= v@.take(i as int));
            assert(next.last() == c);
        }
        total = total.saturating_add(w);
        i += 1;
    }
    assert(v@.take(v@.len() as int) =~= v@);
    total
}

/// The text with every occurrence of `p` replaced by `r`.
pub fn replace_all(v: &Vec<char>, p: &Vec<char>, r: &Vec<char>) -> (out: Vec<char>)
    ensures
        out@ == replaced(v@, p@, r@),
{
    let n: usize = v.len();
    let mut out: Vec<char> = Vec::new();
    let mut i: usize = 0;
    assert(out@ + replaced_from(v@, p@, r@, 0) =~= replaced(v@, p@, r@));
    while i < n
        invariant
            i <= n,
            n == v.len(),
            out@ + replaced_from(v@, p@, r@, i as int) == replaced(v@, p@, r@),
        decreases n - i,
    {
        if p.len() > 0 && occurs_in(v, p, i) {
            let ghost before = out@;
            let mut k: usize = 0;
            while k < r.len()
                invariant
                    k <= r.len(),
                    out@ == before + r@.take(k as int),
                decreases r.len() - k,
            {
                out.push(r[k]);
                assert(out@ =~= before + r@.take(k + 1));
                k += 1;
            }
            assert(r@.take(r@.len() as int) =~= r@);
            assert((before + r@) + replaced_from(v@, p@, r@, i + p.len()) =~= before
                + replaced_from(v@, p@, r@, i as int));
            i = i + p.len();
        } else {
            let ghost before = out@;
            out.push(v[i]);
            assert(before.push(v@[i as int]) + replaced_from(v@, p@, r@, i + 1) =~= before
                + replaced_from(v@, p@, r@, i as int));
            i += 1;
        }
    }
    assert(out@ + Seq::<char>::empty() =~= out@);
    out
}

} // verus!
