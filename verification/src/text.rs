//! Text normalization ahead of conversion: case folding, expansion of a few
//! abbreviations and of the numbers up to twenty, removal of punctuation,
//! and the cutting of the result into words.
//!
//! Numbers, punctuation and runs of white space are found with regular
//! expressions. The searches are the only part that is not proved: they are
//! made by the `regex` crate, and this module builds on their results.

use crate::chars::{
    chars_of, replace_all, replaced, split_words, string_of, trim, trimmed, unicode_alphabetic,
    unicode_lowercase, views, words, slice_of,
};
use crate::error::G2PError;
use vstd::prelude::*;

verus! {

/// `regex::Error`, the error of a pattern that does not compile. Nothing is
/// known of a value of it.
#[verifier::external_type_specification]
#[verifier::external_body]
pub struct ExRegexError(regex::Error);

/// Whether `Regex::new` accepts a pattern: whether it is a regular
/// expression of the crate's syntax that compiles within the crate's fixed
/// size limits.
pub uninterp spec fn regex_accepts(pattern: Seq<char>) -> bool;

/// What `Regex::split` yields for a pattern and a text: the parts of the
/// text that no match covers, in order. A text with `n` matches has `n + 1`
/// such parts, some of them possibly empty.
pub uninterp spec fn regex_gaps(pattern: Seq<char>, text: Seq<char>) -> Seq<Seq<char>>;

/// What `Regex::find_iter` yields for a pattern and a text: the successive
/// matches, none overlapping another, in order.
pub uninterp spec fn regex_matches(pattern: Seq<char>, text: Seq<char>) -> Seq<Seq<char>>;

/// Compiles the pattern with `Regex::new` and splits the text with
/// `Regex::split`. It fails exactly if the pattern is not accepted, which
/// depends on the pattern alone. If the pattern is accepted, the parts are a
/// function of the pattern and the text alone.
#[verifier::external_body]
fn split_at_matches(pattern: &str, text: &str) -> (r: Result<Vec<String>, regex::Error>)
    ensures
        r is Ok <==> regex_accepts(pattern@),
        r matches Ok(parts) ==> views(parts@) == regex_gaps(pattern@, text@),
{
    let re = regex::Regex::new(pattern)?;
    Ok(re.split(text).map(|part| part.to_string()).collect())
}

/// Compiles the pattern with `Regex::new` and collects the matches of
/// `Regex::find_iter`. It fails exactly if the pattern is not accepted, which
/// depends on the pattern alone. If the pattern is accepted, the matches are
/// a function of the pattern and the text alone.
#[verifier::external_body]
fn find_matches(pattern: &str, text: &str) -> (r: Result<Vec<String>, regex::Error>)
    ensures
        r is Ok <==> regex_accepts(pattern@),
        r matches Ok(found) ==> views(found@) == regex_matches(pattern@, text@),
{
    let re = regex::Regex::new(pattern)?;
    Ok(re.find_iter(text).map(|m| m.as_str().to_string()).collect())
}

/// A whole number: digits between word boundaries.
pub const NUMBER_PATTERN: &'static str = "\\b\\d+\\b";

/// One character that is neither a word character nor white space.
pub const PUNCTUATION_PATTERN: &'static str = "[^\\w\\s]";

/// A run of white space.
pub const SPACE_PATTERN: &'static str = "\\s+";

/// Whether the three search patterns of the normalizer are accepted as
/// regular expressions.
pub open spec fn patterns_accepted() -> bool {
    &&& regex_accepts(NUMBER_PATTERN@)
    &&& regex_accepts(PUNCTUATION_PATTERN@)
    &&& regex_accepts(SPACE_PATTERN@)
}

/// A table of pairs of texts as a mathematical value.
pub open spec fn pairs(table: Seq<(&'static str, &'static str)>) -> Seq<(Seq<char>, Seq<char>)> {
    Seq::new(table.len(), |i: int| (table[i].0@, table[i].1@))
}

/// The numbers that are written out, with their words.
pub open spec fn number_table() -> Seq<(Seq<char>, Seq<char>)> {
    seq![
        ("0"@, "zero"@),
        ("1"@, "one"@),
        ("2"@, "two"@),
        ("3"@, "three"@),
        ("4"@, "four"@),
        ("5"@, "five"@),
        ("6"@, "six"@),
        ("7"@, "seven"@),
        ("8"@, "eight"@),
        ("9"@, "nine"@),
        ("10"@, "ten"@),
        ("11"@, "eleven"@),
        ("12"@, "twelve"@),
        ("13"@, "thirteen"@),
        ("14"@, "fourteen"@),
        ("15"@, "fifteen"@),
        ("16"@, "sixteen"@),
        ("17"@, "seventeen"@),
        ("18"@, "eighteen"@),
        ("19"@, "nineteen"@),
        ("20"@, "twenty"@),
    ]
}

/// The abbreviations that are written out, with their words, in the order in
/// which they are replaced.
pub open spec fn abbreviation_table() -> Seq<(Seq<char>, Seq<char>)> {
    seq![
        ("dr."@, "doctor"@),
        ("mr."@, "mister"@),
        ("mrs."@, "misses"@),
        ("ms."@, "miss"@),
        ("prof."@, "professor"@),
        ("st."@, "street"@),
        ("ave."@, "avenue"@),
        ("blvd."@, "boulevard"@),
        ("etc."@, "etcetera"@),
        ("vs."@, "versus"@),
    ]
}

/// The text with the first `n` entries of the table replaced, one entry
/// after the other, each wherever it occurs.
pub open spec fn abbreviated(table: Seq<(Seq<char>, Seq<char>)>, text: Seq<char>, n: int) -> Seq<
    char,
>
    decreases n,
{
    if n <= 0 {
        text
    } else {
        replaced(abbreviated(table, text, n - 1), table[n - 1].0, table[n - 1].1)
    }
}

/// What the first entry from `i` on whose key is `key` maps it to; the key
/// itself if there is none.
pub open spec fn looked_up_from(table: Seq<(Seq<char>, Seq<char>)>, key: Seq<char>, i: int) -> Seq<
    char,
>
    decreases table.len() - i,
{
    if i < 0 || i >= table.len() {
        key
    } else if table[i].0 == key {
        table[i].1
    } else {
        looked_up_from(table, key, i + 1)
    }
}

/// What stands in for each match of a number: its word if the table has
/// one, and else the number as it is.
pub open spec fn worded(table: Seq<(Seq<char>, Seq<char>)>, found: Seq<Seq<char>>) -> Seq<
    Seq<char>,
> {
    Seq::new(found.len(), |i: int| looked_up_from(table, found[i], 0))
}

/// One blank for each match.
pub open spec fn blanked(found: Seq<Seq<char>>) -> Seq<Seq<char>> {
    Seq::new(found.len(), |i: int| seq![' '])
}

/// The first `n` gaps, each followed by the fill of its index if there is
/// one.
pub open spec fn woven(gaps: Seq<Seq<char>>, fills: Seq<Seq<char>>, n: int) -> Seq<char>
    decreases n,
{
    if n <= 0 {
        Seq::empty()
    } else {
        woven(gaps, fills, n - 1) + gaps[n - 1] + (if n - 1 < fills.len() {
            fills[n - 1]
        } else {
            Seq::empty()
        })
    }
}

/// A text with its matches replaced: the gaps of the text and the fills,
/// taken in turn.
pub open spec fn rewritten(gaps: Seq<Seq<char>>, fills: Seq<Seq<char>>) -> Seq<char> {
    woven(gaps, fills, gaps.len() as int)
}

/// The text with its numbers written out.
pub open spec fn numbers_expanded(table: Seq<(Seq<char>, Seq<char>)>, text: Seq<char>) -> Seq<
    char,
> {
    rewritten(
        regex_gaps(NUMBER_PATTERN@, text),
        worded(table, regex_matches(NUMBER_PATTERN@, text)),
    )
}

/// The text with a blank for each punctuation character.
pub open spec fn punctuation_cleaned(text: Seq<char>) -> Seq<char> {
    rewritten(
        regex_gaps(PUNCTUATION_PATTERN@, text),
        blanked(regex_matches(PUNCTUATION_PATTERN@, text)),
    )
}

/// The text trimmed, with one blank for each run of white space.
pub open spec fn whitespace_normalized(text: Seq<char>) -> Seq<char> {
    rewritten(
        regex_gaps(SPACE_PATTERN@, trimmed(text)),
        blanked(regex_matches(SPACE_PATTERN@, trimmed(text))),
    )
}

/// The normal form of a text: folded to lower case, abbreviations and
/// numbers written out, punctuation removed, white space normalized.
pub open spec fn normal_form(
    abbreviations: Seq<(Seq<char>, Seq<char>)>,
    numbers: Seq<(Seq<char>, Seq<char>)>,
    text: Seq<char>,
) -> Seq<char> {
    whitespace_normalized(
        punctuation_cleaned(
            numbers_expanded(
                numbers,
                abbreviated(abbreviations, unicode_lowercase(text), abbreviations.len() as int),
            ),
        ),
    )
}

/// First index at or after `i` that holds an alphabetic character; the
/// length if there is none.
pub open spec fn skip_other(s: Seq<char>, i: int) -> int
    decreases s.len() - i,
{
    if 0 <= i < s.len() && !unicode_alphabetic(s[i]) {
        skip_other(s, i + 1)
    } else {
        i
    }
}

/// Least `j` in `lo..=hi` such that `s[j..hi]` holds no alphabetic
/// character.
pub open spec fn skip_other_back(s: Seq<char>, lo: int, hi: int) -> int
    decreases hi - lo,
{
    if lo < hi <= s.len() && 0 < hi && !unicode_alphabetic(s[hi - 1]) {
        skip_other_back(s, lo, hi - 1)
    } else {
        hi
    }
}

/// A word without what stands before its first and after its last
/// alphabetic character.
pub open spec fn stripped(s: Seq<char>) -> Seq<char> {
    let a = skip_other(s, 0);
    let b = skip_other_back(s, a, s.len() as int);
    s.subrange(a, b)
}

/// The tokens of the first `n` words: each word stripped, the empty ones
/// left out.
pub open spec fn tokens_upto(ws: Seq<Seq<char>>, n: int) -> Seq<Seq<char>>
    decreases n,
{
    if n <= 0 {
        Seq::empty()
    } else if stripped(ws[n - 1]).len() > 0 {
        tokens_upto(ws, n - 1).push(stripped(ws[n - 1]))
    } else {
        tokens_upto(ws, n - 1)
    }
}

/// The tokens of a text: its white-space separated words, each stripped of
/// what is not alphabetic at its ends, the empty ones left out.
pub open spec fn tokens_of(text: Seq<char>) -> Seq<Seq<char>> {
    tokens_upto(words(text), words(text).len() as int)
}

/// The gaps and the fills of a rewriting taken in turn.
pub fn weave(gaps: &Vec<String>, fills: &Vec<Vec<char>>) -> (r: Vec<char>)
    ensures
        r@ == rewritten(views(gaps@), views(fills@)),
{
    let ghost gv = views(gaps@);
    let ghost fv = views(fills@);
    let mut out: Vec<char> = Vec::new();
    let mut i: usize = 0;
    while i < gaps.len()
        invariant
            i <= gaps.len(),
            gv == views(gaps@),
            fv == views(fills@),
            out@ == woven(gv, fv, i as int),
        decreases gaps.len() - i,
    {
        let gap = chars_of(gaps[i].as_str());
        assert(gap@ == gv[i as int]);
        let ghost before = out@;
        let mut k: usize = 0;
        while k < gap.len()
            invariant
                k <= gap.len(),
                out@ == before + gap@.take(k as int),
            decreases gap.len() - k,
        {
            out.push(gap[k]);
            assert(out@ =~= before + gap@.take(k + 1));
            k += 1;
        }
        assert(gap@.take(gap@.len() as int) =~= gap@);
        if i < fills.len() {
            let fill = &fills[i];
            assert(fill@ == fv[i as int]);
            let ghost middle = out@;
            let mut k: usize = 0;
            while k < fill.len()
                invariant
                    k <= fill.len(),
                    out@ == middle + fill@.take(k as int),
                decreases fill.len() - k,
            {
                out.push(fill[k]);
                assert(out@ =~= middle + fill@.take(k + 1));
                k += 1;
            }
            assert(fill@.take(fill@.len() as int) =~= fill@);
        } else {
            assert(out@ + Seq::<char>::empty() =~= out@);
        }
        i += 1;
    }
    out
}

/// The normalizer that stands before the converter.
pub struct TextProcessor {
    number_words: Vec<(&'static str, &'static str)>,
    abbreviations: Vec<(&'static str, &'static str)>,
}

impl TextProcessor {
    /// The numbers that the normalizer writes out, with their words.
    pub closed spec fn numbers(&self) -> Seq<(Seq<char>, Seq<char>)> {
        pairs(self.number_words@)
    }

    /// The abbreviations that the normalizer writes out, with their words.
    pub closed spec fn short_forms(&self) -> Seq<(Seq<char>, Seq<char>)> {
        pairs(self.abbreviations@)
    }

    /// The normalizer with its tables of numbers and abbreviations.
    pub fn new() -> (r: Self)
        ensures
            r.numbers() == number_table(),
            r.short_forms() == abbreviation_table(),
    {
        let mut number_words: Vec<(&'static str, &'static str)> = Vec::new();
        number_words.push(("0", "zero"));
        number_words.push(("1", "one"));
        number_words.push(("2", "two"));
        number_words.push(("3", "three"));
        number_words.push(("4", "four"));
        number_words.push(("5", "five"));
        number_words.push(("6", "six"));
        number_words.push(("7", "seven"));
        number_words.push(("8", "eight"));
        number_words.push(("9", "nine"));
        number_words.push(("10", "ten"));
        number_words.push(("11", "eleven"));
        number_words.push(("12", "twelve"));
        number_words.push(("13", "thirteen"));
        number_words.push(("14", "fourteen"));
        number_words.push(("15", "fifteen"));
        number_words.push(("16", "sixteen"));
        number_words.push(("17", "seventeen"));
        number_words.push(("18", "eighteen"));
        number_words.push(("19", "nineteen"));
        number_words.push(("20", "twenty"));
        let mut abbreviations: Vec<(&'static str, &'static str)> = Vec::new();
        abbreviations.push(("dr.", "doctor"));
        abbreviations.push(("mr.", "mister"));
        abbreviations.push(("mrs.", "misses"));
        abbreviations.push(("ms.", "miss"));
        abbreviations.push(("prof.", "professor"));
        abbreviations.push(("st.", "street"));
        abbreviations.push(("ave.", "avenue"));
        abbreviations.push(("blvd.", "boulevard"));
        abbreviations.push(("etc.", "etcetera"));
        abbreviations.push(("vs.", "versus"));
        assert(pairs(number_words@) =~= number_table());
        assert(pairs(abbreviations@) =~= abbreviation_table());
        TextProcessor { number_words, abbreviations }
    }

    /// Whether the three search patterns of the normalizer are accepted as
    /// regular expressions. Each is tried on the empty text.
    pub fn patterns_compile() -> (r: bool)
        ensures
            r == patterns_accepted(),
    {
        find_matches(NUMBER_PATTERN, "").is_ok() && find_matches(PUNCTUATION_PATTERN, "").is_ok()
            && find_matches(SPACE_PATTERN, "").is_ok()
    }

    /// The normal form of a text. Succeeds exactly if the three search
    /// patterns are accepted as regular expressions, whatever the text.
    pub fn normalize(&self, text: &str) -> (r: Result<String, G2PError>)
        ensures
            r is Ok <==> patterns_accepted(),
            match r {
                Ok(normal) => normal@ == normal_form(self.short_forms(), self.numbers(), text@),
                Err(e) => e == G2PError::InvalidPattern,
            },
    {
        let folded = chars_of(text.to_lowercase().as_str());
        let expanded = self.expand_abbreviations(&folded);
        let numbered = match self.expand_numbers(&expanded) {
            Ok(t) => t,
            Err(e) => {
                return Err(e);
            },
        };
        let cleaned = match self.clean_punctuation(&numbered) {
            Ok(t) => t,
            Err(e) => {
                return Err(e);
            },
        };
        match self.normalize_whitespace(&cleaned) {
            Ok(t) => Ok(string_of(&t)),
            Err(e) => Err(e),
        }
    }

    /// The tokens of a text. Never fails.
    pub fn tokenize(&self, text: &str) -> (r: Result<Vec<String>, G2PError>)
        ensures
            r is Ok,
            views(r.unwrap()@) == tokens_of(text@),
    {
        let content = chars_of(text);
        let ws = split_words(&content);
        let ghost wv = words(text@);
        let mut out: Vec<String> = Vec::new();
        let mut i: usize = 0;
        assert(views(out@) =~= tokens_upto(wv, 0));
        while i < ws.len()
            invariant
                i <= ws.len(),
                views(ws@) == wv,
                views(out@) == tokens_upto(wv, i as int),
            decreases ws.len() - i,
        {
            assert(ws[i as int]@ == wv[i as int]);
            let token = Self::strip(&ws[i]);
            if token.len() > 0 {
                let ghost before = views(out@);
                out.push(string_of(&token));
                assert(views(out@) =~= before.push(token@));
            }
            i += 1;
        }
        Ok(out)
    }

    /// A word without what stands before its first and after its last
    /// alphabetic character.
    fn strip(word: &Vec<char>) -> (r: Vec<char>)
        ensures
            r@ == stripped(word@),
    {
        let n: usize = word.len();
        let mut a: usize = 0;
        while a < n && !word[a].is_alphabetic()
            invariant
                a <= n,
                n == word.len(),
                skip_other(word@, 0) == skip_other(word@, a as int),
            decreases n - a,
        {
            a += 1;
        }
        let mut b: usize = n;
        while b > a && !word[b - 1].is_alphabetic()
            invariant
                a <= b <= n,
                n == word.len(),
                skip_other_back(word@, a as int, n as int) == skip_other_back(
                    word@,
                    a as int,
                    b as int,
                ),
            decreases b - a,
        {
            b -= 1;
        }
        slice_of(word, a, b)
    }

    /// The text with each abbreviation of the table replaced by its word.
    pub fn expand_abbreviations(&self, text: &Vec<char>) -> (r: Vec<char>)
        ensures
            r@ == abbreviated(self.short_forms(), text@, self.short_forms().len() as int),
    {
        let ghost table = self.short_forms();
        let mut result: Vec<char> = slice_of(text, 0, text.len());
        assert(result@ =~= text@);
        let mut i: usize = 0;
        while i < self.abbreviations.len()
            invariant
                i <= self.abbreviations.len(),
                table == pairs(self.abbreviations@),
                result@ == abbreviated(table, text@, i as int),
            decreases self.abbreviations.len() - i,
        {
            let short = chars_of(self.abbreviations[i].0);
            let long = chars_of(self.abbreviations[i].1);
            result = replace_all(&result, &short, &long);
            i += 1;
        }
        result
    }

    /// The word of a number, or the number itself if the table has none.
    pub fn number_word(&self, number: &Vec<char>) -> (r: Vec<char>)
        ensures
            r@ == looked_up_from(self.numbers(), number@, 0),
    {
        let ghost table = self.numbers();
        let mut i: usize = 0;
        while i < self.number_words.len()
            invariant
                i <= self.number_words.len(),
                table == pairs(self.number_words@),
                looked_up_from(table, number@, 0) == looked_up_from(table, number@, i as int),
            decreases self.number_words.len() - i,
        {
            let key = chars_of(self.number_words[i].0);
            if crate::chars::same_chars(&key, number) {
                return chars_of(self.number_words[i].1);
            }
            i += 1;
        }
        let same = slice_of(number, 0, number.len());
        assert(same@ =~= number@);
        same
    }

    /// The text with its numbers written out. Succeeds exactly if the
    /// pattern for numbers is accepted as a regular expression.
    pub fn expand_numbers(&self, text: &Vec<char>) -> (r: Result<Vec<char>, G2PError>)
        ensures
            r is Ok <==> regex_accepts(NUMBER_PATTERN@),
            match r {
                Ok(out) => out@ == numbers_expanded(self.numbers(), text@),
                Err(e) => e == G2PError::InvalidPattern,
            },
    {
        let subject = string_of(text);
        let gaps = match split_at_matches(NUMBER_PATTERN, subject.as_str()) {
            Ok(parts) => parts,
            Err(_) => {
                return Err(G2PError::InvalidPattern);
            },
        };
        let found = match find_matches(NUMBER_PATTERN, subject.as_str()) {
            Ok(found) => found,
            Err(_) => {
                return Err(G2PError::InvalidPattern);
            },
        };
        let ghost table = self.numbers();
        let ghost fv = views(found@);
        let mut fills: Vec<Vec<char>> = Vec::new();
        let mut i: usize = 0;
        while i < found.len()
            invariant
                i <= found.len(),
                table == self.numbers(),
                fv == views(found@),
                fills.len() == i,
                forall|j: int| 0 <= j < i ==> fills[j]@ == looked_up_from(table, fv[j], 0),
            decreases found.len() - i,
        {
            let number = chars_of(found[i].as_str());
            assert(number@ == fv[i as int]);
            fills.push(self.number_word(&number));
            i += 1;
        }
        assert(views(fills@) =~= worded(table, fv));
        Ok(weave(&gaps, &fills))
    }

    /// The text with one blank in place of each match of the pattern.
    /// Succeeds exactly if the pattern is accepted as a regular expression.
    pub fn blank_out(pattern: &str, text: &Vec<char>) -> (r: Result<Vec<char>, G2PError>)
        ensures
            r is Ok <==> regex_accepts(pattern@),
            match r {
                Ok(out) => out@ == rewritten(
                    regex_gaps(pattern@, text@),
                    blanked(regex_matches(pattern@, text@)),
                ),
                Err(e) => e == G2PError::InvalidPattern,
            },
    {
        let subject = string_of(text);
        let gaps = match split_at_matches(pattern, subject.as_str()) {
            Ok(parts) => parts,
            Err(_) => {
                return Err(G2PError::InvalidPattern);
            },
        };
        let found = match find_matches(pattern, subject.as_str()) {
            Ok(found) => found,
            Err(_) => {
                return Err(G2PError::InvalidPattern);
            },
        };
        let mut fills: Vec<Vec<char>> = Vec::new();
        let mut i: usize = 0;
        while i < found.len()
            invariant
                i <= found.len(),
                fills.len() == i,
                forall|j: int| 0 <= j < i ==> fills[j]@ == seq![' '],
            decreases found.len() - i,
        {
            let mut blank: Vec<char> = Vec::new();
            blank.push(' ');
            assert(blank@ =~= seq![' ']);
            fills.push(blank);
            i += 1;
        }
        assert(views(fills@) =~= blanked(views(found@)));
        Ok(weave(&gaps, &fills))
    }

    /// The text with a blank for each punctuation character. Succeeds
    /// exactly if the pattern for punctuation is accepted as a regular
    /// expression.
    pub fn clean_punctuation(&self, text: &Vec<char>) -> (r: Result<Vec<char>, G2PError>)
        ensures
            r is Ok <==> regex_accepts(PUNCTUATION_PATTERN@),
            match r {
                Ok(out) => out@ == punctuation_cleaned(text@),
                Err(e) => e == G2PError::InvalidPattern,
            },
    {
        Self::blank_out(PUNCTUATION_PATTERN, text)
    }

    /// The text trimmed, with one blank for each run of white space.
    /// Succeeds exactly if the pattern for white space is accepted as a
    /// regular expression.
    pub fn normalize_whitespace(&self, text: &Vec<char>) -> (r: Result<Vec<char>, G2PError>)
        ensures
            r is Ok <==> regex_accepts(SPACE_PATTERN@),
            match r {
                Ok(out) => out@ == whitespace_normalized(text@),
                Err(e) => e == G2PError::InvalidPattern,
            },
    {
        let inner = trim(text);
        Self::blank_out(SPACE_PATTERN, &inner)
    }
}

} // verus!
