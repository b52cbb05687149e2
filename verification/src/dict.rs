//! The pronunciation lexicon: an exact-match store from normalized words to
//! pronunciations, filled from a lexicon text in which any line may be
//! malformed.
//!
//! A lexicon line is a word, optionally followed by a variant number in
//! parentheses, then two or more blanks or a tab, then the symbols of the
//! pronunciation separated by white space. Lines that start with `;;;` are
//! comments.

use crate::chars::{
    ascii, ascii_digit, ascii_letter, ascii_space, byte_len, chars_of, decode_lossy, find_char,
    find_in, find_seq, is_ascii, is_ascii_digit, is_ascii_letter, is_ascii_space, is_space,
    lines, lower_char, slice_of, space, split_lines, split_words, string_of, to_lower, trim,
    trimmed, unicode_lowercase, utf8_lossy, utf8_size, views, words,
};
use crate::error::G2PError;
use crate::phoneme::{
    base_of, boundary, duplicate_all, in_inventory, lemma_inventory_symbol_is_no_boundary,
    phoneme_of, unmarked, Phoneme, PhonemeType, PhonemeView,
};
use crate::wordmap::{ascending, lex_less, WordMap};
use vstd::prelude::*;

verus! {

/// What a load saw of its source.
#[derive(Debug, Clone, Copy, PartialEq, Eq)]
pub struct LoadStats {
    /// Lines of the source, comments and blank lines included.
    pub lines_processed: usize,
    /// Lines that gave an entry. Two lines for one word count twice.
    pub valid_entries: usize,
    /// Lines turned away as ill-formed.
    pub rejected_lines: usize,
}

/// Whether the line is a comment or holds nothing but white space.
pub open spec fn comment_or_blank(line: Seq<char>) -> bool {
    ||| (line.len() >= 3 && line[0] == ';' && line[1] == ';' && line[2] == ';')
    ||| trimmed(line).len() == 0
}

/// Whether a line can be an entry at all: between 3 and 200 bytes once
/// trimmed, no character outside ASCII but white space, and a letter
/// somewhere.
pub open spec fn valid_line(line: Seq<char>) -> bool {
    &&& 3 <= utf8_size(trimmed(line)) <= 200
    &&& forall|i: int| 0 <= i < line.len() ==> ascii(#[trigger] line[i]) || space(line[i])
    &&& exists|i: int| 0 <= i < line.len() && ascii_letter(#[trigger] line[i])
}

/// The characters that the word of an entry may hold.
pub open spec fn word_char(c: char) -> bool {
    ascii_letter(c) || ascii_digit(c) || c == '(' || c == ')' || c == '\'' || c == '-'
}

/// Whether the text can be the word of an entry: 1 to 50 letters, digits,
/// apostrophes, hyphens and parentheses.
pub open spec fn valid_word_part(word: Seq<char>) -> bool {
    &&& 0 < word.len() <= 50
    &&& forall|i: int| 0 <= i < word.len() ==> word_char(#[trigger] word[i])
}

/// The characters that the pronunciation of an entry may hold.
pub open spec fn symbol_char(c: char) -> bool {
    ascii_letter(c) || ascii_digit(c) || ascii_space(c)
}

/// Whether the text can be the pronunciation of an entry: 1 to 100 letters,
/// digits and ASCII white space, with a letter among them.
pub open spec fn valid_phonemes_part(text: Seq<char>) -> bool {
    &&& 0 < text.len() <= 100
    &&& forall|i: int| 0 <= i < text.len() ==> symbol_char(#[trigger] text[i])
    &&& exists|i: int| 0 <= i < text.len() && ascii_letter(#[trigger] text[i])
}

/// The two fields of a trimmed line cut at the first occurrence of `sep`,
/// each trimmed, if both are well formed.
pub open spec fn cut_at(t: Seq<char>, sep: Seq<char>) -> Option<(Seq<char>, Seq<char>)> {
    match find_seq(t, sep, 0) {
        Some(pos) => {
            let word = trimmed(t.subrange(0, pos));
            let text = trimmed(t.subrange(pos, t.len() as int));
            if valid_word_part(word) && valid_phonemes_part(text) {
                Some((word, text))
            } else {
                None
            }
        },
        None => None,
    }
}

/// The word and the pronunciation text of a line: cut at the first two
/// blanks, and if that gives no well-formed pair, at the first tab.
pub open spec fn fields_of_line(line: Seq<char>) -> Option<(Seq<char>, Seq<char>)> {
    let t = trimmed(line);
    match cut_at(t, seq![' ', ' ']) {
        Some(pair) => Some(pair),
        None => cut_at(t, seq!['\t']),
    }
}

/// The characters of a word that go into its key.
pub open spec fn key_char(c: char) -> bool {
    ascii_letter(c) || c == '\''
}

/// The letters and apostrophes of `s` from index `i` on, letters in lower
/// case.
pub open spec fn key_chars_from(s: Seq<char>, i: int) -> Seq<char>
    decreases s.len() - i,
{
    if i < 0 || i >= s.len() {
        Seq::empty()
    } else if key_char(s[i]) {
        seq![to_lower(s[i])] + key_chars_from(s, i + 1)
    } else {
        key_chars_from(s, i + 1)
    }
}

/// What stands before the first opening parenthesis of a word.
pub open spec fn head_of(word: Seq<char>) -> Seq<char> {
    word.subrange(0, find_char(word, '(', 0))
}

/// The key under which a word is stored: what stands before its first
/// opening parenthesis, folded to lower case, then reduced to its letters
/// and apostrophes.
pub open spec fn key_of(word: Seq<char>) -> Seq<char> {
    key_chars_from(unicode_lowercase(head_of(word)), 0)
}

/// The ASCII letters and digits of `s` from index `i` on.
pub open spec fn alnum_from(s: Seq<char>, i: int) -> Seq<char>
    decreases s.len() - i,
{
    if i < 0 || i >= s.len() {
        Seq::empty()
    } else if ascii_letter(s[i]) || ascii_digit(s[i]) {
        seq![s[i]] + alnum_from(s, i + 1)
    } else {
        alnum_from(s, i + 1)
    }
}

/// Whether a token is a symbol of the inventory, in either case, with or
/// without a stress digit.
pub open spec fn valid_symbol(token: Seq<char>) -> bool {
    in_inventory(base_of(token))
}

/// A token reduced to its letters and digits, if that is a valid symbol.
pub open spec fn repaired(token: Seq<char>) -> Option<Seq<char>> {
    if valid_symbol(alnum_from(token, 0)) {
        Some(alnum_from(token, 0))
    } else {
        None
    }
}

/// The symbol that a token of a pronunciation is read as: the token itself
/// if it is valid, else what is left of it without its other characters if
/// that is valid.
pub open spec fn symbol_of_token(token: Seq<char>) -> Option<Seq<char>> {
    if valid_symbol(token) {
        Some(token)
    } else {
        repaired(token)
    }
}

/// How many of the first `n` tokens cannot be read and are dropped.
pub open spec fn dropped_among(tokens: Seq<Seq<char>>, n: int) -> nat
    decreases n,
{
    if n <= 0 {
        0
    } else if symbol_of_token(tokens[n - 1]) is None {
        dropped_among(tokens, n - 1) + 1
    } else {
        dropped_among(tokens, n - 1)
    }
}

/// How many tokens of a pronunciation text cannot be read and are dropped.
pub open spec fn dropped_tokens_of(text: Seq<char>) -> nat {
    dropped_among(words(text), words(text).len() as int)
}

/// The phonemes of the readable tokens among the first `n`.
pub open spec fn phonemes_of_tokens(tokens: Seq<Seq<char>>, n: int) -> Seq<PhonemeView>
    decreases n,
{
    if n <= 0 {
        Seq::empty()
    } else {
        match symbol_of_token(tokens[n - 1]) {
            Some(symbol) => phonemes_of_tokens(tokens, n - 1).push(phoneme_of(symbol)),
            None => phonemes_of_tokens(tokens, n - 1),
        }
    }
}

/// The pronunciation that a text spells out, if any of its tokens can be
/// read.
pub open spec fn pronunciation_of(text: Seq<char>) -> Option<Seq<PhonemeView>> {
    let tokens = words(text);
    let found = phonemes_of_tokens(tokens, tokens.len() as int);
    if found.len() > 0 {
        Some(found)
    } else {
        None
    }
}

/// Whether a line is turned away as ill-formed.
pub open spec fn line_rejected(line: Seq<char>) -> bool {
    !comment_or_blank(line) && (!valid_line(line) || fields_of_line(line) is None)
}

/// The entry that a line contributes: none for comments, blank lines,
/// ill-formed lines and lines of which no symbol can be read.
pub open spec fn line_entry(line: Seq<char>) -> Option<(Seq<char>, Seq<PhonemeView>)> {
    if comment_or_blank(line) || !valid_line(line) {
        None
    } else {
        match fields_of_line(line) {
            Some((word, text)) => match pronunciation_of(text) {
                Some(phonemes) => Some((key_of(word), phonemes)),
                None => None,
            },
            None => None,
        }
    }
}

/// The entries that the first `n` lines give, a later line for a key
/// replacing an earlier one.
pub open spec fn entries_of(ls: Seq<Seq<char>>, n: int) -> Map<Seq<char>, Seq<PhonemeView>>
    decreases n,
{
    if n <= 0 {
        Map::empty()
    } else {
        match line_entry(ls[n - 1]) {
            Some((key, phonemes)) => entries_of(ls, n - 1).insert(key, phonemes),
            None => entries_of(ls, n - 1),
        }
    }
}

/// How many of the first `n` lines give an entry.
pub open spec fn entry_count(ls: Seq<Seq<char>>, n: int) -> nat
    decreases n,
{
    if n <= 0 {
        0
    } else if line_entry(ls[n - 1]) is Some {
        entry_count(ls, n - 1) + 1
    } else {
        entry_count(ls, n - 1)
    }
}

/// How many of the first `n` lines are turned away.
pub open spec fn rejected_count(ls: Seq<Seq<char>>, n: int) -> nat
    decreases n,
{
    if n <= 0 {
        0
    } else if line_rejected(ls[n - 1]) {
        rejected_count(ls, n - 1) + 1
    } else {
        rejected_count(ls, n - 1)
    }
}

/// The numbers of the lines among the first `n` that are turned away, the
/// first line being line 1.
pub open spec fn rejected_numbers(ls: Seq<Seq<char>>, n: int) -> Seq<usize>
    decreases n,
{
    if n <= 0 {
        Seq::empty()
    } else if line_rejected(ls[n - 1]) {
        rejected_numbers(ls, n - 1).push(n as usize)
    } else {
        rejected_numbers(ls, n - 1)
    }
}

/// The word and the pronunciation text of a line that a load reads: none
/// for comments, blank lines and lines that are turned away.
pub open spec fn fields_read(line: Seq<char>) -> Option<(Seq<char>, Seq<char>)> {
    if comment_or_blank(line) || !valid_line(line) {
        None
    } else {
        fields_of_line(line)
    }
}

/// Whether a load reads the line and drops a token of its pronunciation.
pub open spec fn line_drops_token(line: Seq<char>) -> bool {
    fields_read(line) is Some && dropped_tokens_of(fields_read(line).unwrap().1) > 0
}

/// Whether a load reads the line and finds no token that it can read, so
/// that the line gives no entry.
pub open spec fn line_unreadable(line: Seq<char>) -> bool {
    fields_read(line) is Some && pronunciation_of(fields_read(line).unwrap().1) is None
}

/// The numbers of the lines among the first `n` of which a token is
/// dropped, the first line being line 1.
pub open spec fn dropping_numbers(ls: Seq<Seq<char>>, n: int) -> Seq<usize>
    decreases n,
{
    if n <= 0 {
        Seq::empty()
    } else if line_drops_token(ls[n - 1]) {
        dropping_numbers(ls, n - 1).push(n as usize)
    } else {
        dropping_numbers(ls, n - 1)
    }
}

/// The numbers of the lines among the first `n` of which no token can be
/// read, the first line being line 1.
pub open spec fn unreadable_numbers(ls: Seq<Seq<char>>, n: int) -> Seq<usize>
    decreases n,
{
    if n <= 0 {
        Seq::empty()
    } else if line_unreadable(ls[n - 1]) {
        unreadable_numbers(ls, n - 1).push(n as usize)
    } else {
        unreadable_numbers(ls, n - 1)
    }
}

/// The numbers of the lines of a text of which a load drops a token.
pub open spec fn token_drops_of(text: Seq<char>) -> Seq<usize> {
    dropping_numbers(lines(text), lines(text).len() as int)
}

/// The numbers of the lines of a text of which a load can read no token.
pub open spec fn unreadable_of(text: Seq<char>) -> Seq<usize> {
    unreadable_numbers(lines(text), lines(text).len() as int)
}

/// The numbers of the lines of a text that a load turns away.
pub open spec fn rejections_of(text: Seq<char>) -> Seq<usize> {
    rejected_numbers(lines(text), lines(text).len() as int)
}

/// The lexicon that a text holds.
pub open spec fn lexicon_of(text: Seq<char>) -> Map<Seq<char>, Seq<PhonemeView>> {
    entries_of(lines(text), lines(text).len() as int)
}

/// The statistics of a load of the text.
pub open spec fn stats_of(text: Seq<char>) -> LoadStats {
    LoadStats {
        lines_processed: lines(text).len() as usize,
        valid_entries: entry_count(lines(text), lines(text).len() as int) as usize,
        rejected_lines: rejected_count(lines(text), lines(text).len() as int) as usize,
    }
}

/// No line is both an entry and turned away, so the two counts together stay
/// within the number of lines; and as many lines are listed as turned away
/// as are counted.
pub proof fn lemma_counts_bounded(ls: Seq<Seq<char>>, n: int)
    requires
        0 <= n <= ls.len(),
    ensures
        entry_count(ls, n) + rejected_count(ls, n) <= n,
        rejected_numbers(ls, n).len() == rejected_count(ls, n),
    decreases n,
{
    if n > 0 {
        lemma_counts_bounded(ls, n - 1);
    }
}

/// A load gives an entry exactly if some line does.
pub proof fn lemma_entries_empty_iff(ls: Seq<Seq<char>>, n: int)
    requires
        0 <= n <= ls.len(),
    ensures
        entries_of(ls, n).dom().finite(),
        entry_count(ls, n) == 0 <==> entries_of(ls, n) == Map::<
            Seq<char>,
            Seq<PhonemeView>,
        >::empty(),
    decreases n,
{
    if n > 0 {
        lemma_entries_empty_iff(ls, n - 1);
        match line_entry(ls[n - 1]) {
            Some((key, phonemes)) => {
                assert(entries_of(ls, n).contains_key(key));
            },
            None => {},
        }
    }
}

/// The last line for a word wins: an entry that no later line replaces is
/// the entry of the lexicon.
pub proof fn lemma_last_line_wins(ls: Seq<Seq<char>>, n: int, i: int)
    requires
        0 <= i < n <= ls.len(),
        line_entry(ls[i]) is Some,
        forall|j: int|
            i < j < n && line_entry(#[trigger] ls[j]) is Some ==> line_entry(ls[j]).unwrap().0
                != line_entry(ls[i]).unwrap().0,
    ensures
        entries_of(ls, n).contains_key(line_entry(ls[i]).unwrap().0),
        entries_of(ls, n)[line_entry(ls[i]).unwrap().0] == line_entry(ls[i]).unwrap().1,
    decreases n,
{
    if i < n - 1 {
        lemma_last_line_wins(ls, n - 1, i);
    }
}

/// Every key is made of lower-case letters and apostrophes.
pub proof fn lemma_key_alphabet(s: Seq<char>, i: int)
    requires
        0 <= i,
    ensures
        forall|j: int|
            0 <= j < key_chars_from(s, i).len() ==> {
                let c = #[trigger] key_chars_from(s, i)[j];
                ('a' <= c <= 'z') || c == '\''
            },
    decreases s.len() - i,
{
    if i < s.len() {
        lemma_key_alphabet(s, i + 1);
        let rest = key_chars_from(s, i + 1);
        let all = key_chars_from(s, i);
        assert forall|j: int| 0 <= j < all.len() implies {
            let c = #[trigger] all[j];
            ('a' <= c <= 'z') || c == '\''
        } by {
            if key_char(s[i]) {
                if j > 0 {
                    assert(all[j] == rest[j - 1]);
                }
            }
        }
    }
}

/// Whether no pronunciation of the lexicon holds the boundary marker.
pub open spec fn unmarked_lexicon(lexicon: Map<Seq<char>, Seq<PhonemeView>>) -> bool {
    forall|k: Seq<char>| lexicon.contains_key(k) ==> unmarked(#[trigger] lexicon[k])
}

proof fn lemma_tokens_unmarked(tokens: Seq<Seq<char>>, n: int)
    requires
        0 <= n <= tokens.len(),
    ensures
        unmarked(phonemes_of_tokens(tokens, n)),
    decreases n,
{
    if n > 0 {
        lemma_tokens_unmarked(tokens, n - 1);
        let before = phonemes_of_tokens(tokens, n - 1);
        let all = phonemes_of_tokens(tokens, n);
        match symbol_of_token(tokens[n - 1]) {
            Some(symbol) => {
                lemma_inventory_symbol_is_no_boundary(symbol);
                if all.contains(boundary()) {
                    let i = all.index_of(boundary());
                    if i < before.len() {
                        assert(before[i] == boundary());
                        assert(before.contains(boundary()));
                    }
                }
            },
            None => {},
        }
    }
}

/// No pronunciation that a lexicon text gives holds the boundary marker:
/// every symbol of an entry is one of the inventory.
pub proof fn lemma_entries_unmarked(ls: Seq<Seq<char>>, n: int)
    requires
        0 <= n <= ls.len(),
    ensures
        unmarked_lexicon(entries_of(ls, n)),
    decreases n,
{
    if n > 0 {
        lemma_entries_unmarked(ls, n - 1);
        let before = entries_of(ls, n - 1);
        let after = entries_of(ls, n);
        assert forall|k: Seq<char>| after.contains_key(k) implies unmarked(#[trigger] after[k]) by {
            match line_entry(ls[n - 1]) {
                Some((key, phonemes)) => {
                    if k == key {
                        let text = fields_of_line(ls[n - 1]).unwrap().1;
                        lemma_tokens_unmarked(words(text), words(text).len() as int);
                    } else {
                        assert(before.contains_key(k));
                    }
                },
                None => {},
            }
        }
    }
}

/// Whether every key of the lexicon is made of lower-case letters and
/// apostrophes.
pub open spec fn normalized_keys(lexicon: Map<Seq<char>, Seq<PhonemeView>>) -> bool {
    forall|k: Seq<char>, j: int|
        lexicon.contains_key(k) && 0 <= j < k.len() ==> ('a' <= #[trigger] k[j] <= 'z') || k[j]
            == '\''
}

/// Every key that a lexicon text gives is made of lower-case letters and
/// apostrophes, and every pronunciation has at least one phoneme.
pub proof fn lemma_entries_normalized(ls: Seq<Seq<char>>, n: int)
    requires
        0 <= n <= ls.len(),
    ensures
        normalized_keys(entries_of(ls, n)),
        forall|k: Seq<char>|
            entries_of(ls, n).contains_key(k) ==> (#[trigger] entries_of(ls, n)[k]).len() > 0,
    decreases n,
{
    if n > 0 {
        lemma_entries_normalized(ls, n - 1);
        let before = entries_of(ls, n - 1);
        let after = entries_of(ls, n);
        match line_entry(ls[n - 1]) {
            Some((key, phonemes)) => {
                let word = fields_of_line(ls[n - 1]).unwrap().0;
                lemma_key_alphabet(unicode_lowercase(head_of(word)), 0);
                assert forall|k: Seq<char>, j: int|
                    after.contains_key(k) && 0 <= j < k.len() implies ('a' <= #[trigger] k[j]
                    <= 'z') || k[j] == '\'' by {
                    if k != key {
                        assert(before.contains_key(k));
                    }
                }
                assert forall|k: Seq<char>| after.contains_key(k) implies (#[trigger] after[k]).len()
                    > 0 by {
                    if k != key {
                        assert(before.contains_key(k));
                    }
                }
            },
            None => {},
        }
    }
}

/// The exact-match pronunciation store.
pub struct Dictionary {
    entries: WordMap<Vec<Phoneme>>,
    stats: LoadStats,
    rejected: Vec<usize>,
    dropping: Vec<usize>,
    unreadable: Vec<usize>,
}

impl Dictionary {
    /// The lexicon as a map from normalized words to pronunciations.
    pub closed spec fn view(&self) -> Map<Seq<char>, Seq<PhonemeView>> {
        self.entries@.map_values(|v: Vec<Phoneme>| views(v@))
    }

    /// What the load that built the lexicon saw of its source.
    pub closed spec fn stats(&self) -> LoadStats {
        self.stats
    }

    /// The numbers of the lines that the load turned away, in order.
    pub closed spec fn rejections(&self) -> Seq<usize> {
        self.rejected@
    }

    /// The numbers of the lines of which the load dropped a token, in order.
    pub closed spec fn token_drops(&self) -> Seq<usize> {
        self.dropping@
    }

    /// The numbers of the lines of which the load could read no token, in
    /// order.
    pub closed spec fn unread(&self) -> Seq<usize> {
        self.unreadable@
    }

    /// A lexicon without entries.
    pub fn new() -> (r: Self)
        ensures
            r@ == Map::<Seq<char>, Seq<PhonemeView>>::empty(),
            r.stats() == (LoadStats { lines_processed: 0, valid_entries: 0, rejected_lines: 0 }),
            r.rejections() == Seq::<usize>::empty(),
            r.token_drops() == Seq::<usize>::empty(),
            r.unread() == Seq::<usize>::empty(),
    {
        let r = Dictionary {
            entries: WordMap::new(),
            stats: LoadStats { lines_processed: 0, valid_entries: 0, rejected_lines: 0 },
            rejected: Vec::new(),
            dropping: Vec::new(),
            unreadable: Vec::new(),
        };
        assert(r@ =~= Map::<Seq<char>, Seq<PhonemeView>>::empty());
        r
    }

    /// Builds the lexicon from the bytes of a lexicon source. The bytes are
    /// decoded leniently, then read as `from_text` reads them.
    pub fn from_bytes(bytes: &[u8]) -> (r: Result<Self, G2PError>)
        ensures
            match r {
                Ok(d) => d@ == lexicon_of(utf8_lossy(bytes@)) && d.stats() == stats_of(
                    utf8_lossy(bytes@),
                ) && d.rejections() == rejections_of(utf8_lossy(bytes@)) && d.token_drops()
                    == token_drops_of(utf8_lossy(bytes@)) && d.unread() == unreadable_of(
                    utf8_lossy(bytes@),
                ) && d@.len() > 0 && unmarked_lexicon(d@) && normalized_keys(d@),
                Err(e) => e == G2PError::SourceEmpty && lexicon_of(utf8_lossy(bytes@)) == Map::<
                    Seq<char>,
                    Seq<PhonemeView>,
                >::empty(),
            },
    {
        let text = decode_lossy(bytes);
        Self::from_text(text.as_str())
    }

    /// Builds the lexicon from a lexicon text, line by line. Lines that are
    /// ill-formed are counted and passed over; a later line for a word
    /// replaces an earlier one. Fails only if no line gives an entry.
    pub fn from_text(text: &str) -> (r: Result<Self, G2PError>)
        ensures
            match r {
                Ok(d) => d@ == lexicon_of(text@) && d.stats() == stats_of(text@) && d.rejections()
                    == rejections_of(text@) && d.token_drops() == token_drops_of(text@)
                    && d.unread() == unreadable_of(text@) && d@.len() > 0 && unmarked_lexicon(d@)
                    && normalized_keys(d@),
                Err(e) => e == G2PError::SourceEmpty && lexicon_of(text@) == Map::<
                    Seq<char>,
                    Seq<PhonemeView>,
                >::empty(),
            },
    {
        let content = chars_of(text);
        let ls = split_lines(&content);
        let ghost lv = lines(text@);
        let mut entries: WordMap<Vec<Phoneme>> = WordMap::new();
        let mut valid: usize = 0;
        let mut rejected: Vec<usize> = Vec::new();
        let mut dropping: Vec<usize> = Vec::new();
        let mut unreadable: Vec<usize> = Vec::new();
        let mut i: usize = 0;
        assert(entries@.map_values(|v: Vec<Phoneme>| views(v@)) =~= entries_of(lv, 0));
        while i < ls.len()
            invariant
                i <= ls.len(),
                views(ls@) == lv,
                entries@.map_values(|v: Vec<Phoneme>| views(v@)) == entries_of(lv, i as int),
                valid == entry_count(lv, i as int),
                rejected@ == rejected_numbers(lv, i as int),
                dropping@ == dropping_numbers(lv, i as int),
                unreadable@ == unreadable_numbers(lv, i as int),
            decreases ls.len() - i,
        {
            let line = &ls[i];
            assert(line@ == lv[i as int]);
            proof {
                lemma_counts_bounded(lv, i as int);
                lemma_counts_bounded(lv, i + 1);
            }
            if Self::is_comment_or_blank(line) {
            } else if !Self::is_valid_line(line) {
                rejected.push(i + 1);
            } else {
                match Self::parse_cmu_line(line) {
                    Some((word, symbols)) => {
                        if Self::count_dropped(&symbols) > 0 {
                            dropping.push(i + 1);
                        }
                        match Self::parse_phonemes(&symbols) {
                            Some(phonemes) => {
                                let key = Self::clean_word(&word);
                                let ghost before = entries@;
                                entries.insert(key, phonemes);
                                valid += 1;
                                assert(entries@.map_values(|v: Vec<Phoneme>| views(v@))
                                    =~= before.map_values(|v: Vec<Phoneme>| views(v@)).insert(
                                    key_of(word@),
                                    views(phonemes@),
                                ));
                            },
                            None => {
                                unreadable.push(i + 1);
                            },
                        }
                    },
                    None => {
                        rejected.push(i + 1);
                    },
                }
            }
            i += 1;
        }
        proof {
            lemma_entries_empty_iff(lv, lv.len() as int);
            lemma_counts_bounded(lv, lv.len() as int);
            lemma_entries_unmarked(lv, lv.len() as int);
            lemma_entries_normalized(lv, lv.len() as int);
        }
        if valid == 0 {
            return Err(G2PError::SourceEmpty);
        }
        let d = Dictionary {
            entries,
            stats: LoadStats {
                lines_processed: ls.len(),
                valid_entries: valid,
                rejected_lines: rejected.len(),
            },
            rejected,
            dropping,
            unreadable,
        };
        proof {
            let m = lexicon_of(text@);
            assert(d@ == m);
            if m.len() == 0 {
                assert(m.dom() =~= Set::<Seq<char>>::empty()) by {
                    vstd::set_lib::lemma_set_empty_equivalency_len(m.dom());
                }
                assert(m =~= Map::<Seq<char>, Seq<PhonemeView>>::empty());
            }
        }
        Ok(d)
    }

    /// Whether the line is a comment or holds nothing but white space.
    pub fn is_comment_or_blank(line: &Vec<char>) -> (r: bool)
        ensures
            r == comment_or_blank(line@),
    {
        if line.len() >= 3 && line[0] == ';' && line[1] == ';' && line[2] == ';' {
            return true;
        }
        let t = trim(line);
        t.len() == 0
    }

    /// Whether a line can be an entry at all.
    pub fn is_valid_line(line: &Vec<char>) -> (r: bool)
        ensures
            r == valid_line(line@),
    {
        let t = trim(line);
        let size: usize = byte_len(&t);
        if size < 3 || size > 200 {
            return false;
        }
        let mut has_letter: bool = false;
        let ghost mut at: int = 0;
        let mut i: usize = 0;
        while i < line.len()
            invariant
                i <= line.len(),
                forall|j: int| 0 <= j < i ==> ascii(#[trigger] line[j]) || space(line[j]),
                has_letter ==> 0 <= at < i && ascii_letter(line[at]),
                !has_letter ==> forall|j: int| 0 <= j < i ==> !ascii_letter(#[trigger] line[j]),
            decreases line.len() - i,
        {
            let c: char = line[i];
            if !is_ascii(c) && !is_space(c) {
                return false;
            }
            if is_ascii_letter(c) {
                has_letter = true;
                proof {
                    at = i as int;
                }
            }
            i += 1;
        }
        has_letter
    }

    /// Whether the text can be the word of an entry.
    pub fn is_valid_word_part(word: &Vec<char>) -> (r: bool)
        ensures
            r == valid_word_part(word@),
    {
        if word.len() == 0 || word.len() > 50 {
            return false;
        }
        let mut i: usize = 0;
        while i < word.len()
            invariant
                i <= word.len(),
                forall|j: int| 0 <= j < i ==> word_char(#[trigger] word[j]),
            decreases word.len() - i,
        {
            let c: char = word[i];
            if !(is_ascii_letter(c) || is_ascii_digit(c) || c == '(' || c == ')' || c == '\'' || c
                == '-') {
                return false;
            }
            i += 1;
        }
        true
    }

    /// Whether the text can be the pronunciation of an entry.
    pub fn is_valid_phonemes_part(text: &Vec<char>) -> (r: bool)
        ensures
            r == valid_phonemes_part(text@),
    {
        if text.len() == 0 || text.len() > 100 {
            return false;
        }
        let mut has_letter: bool = false;
        let ghost mut at: int = 0;
        let mut i: usize = 0;
        while i < text.len()
            invariant
                i <= text.len(),
                forall|j: int| 0 <= j < i ==> symbol_char(#[trigger] text[j]),
                has_letter ==> 0 <= at < i && ascii_letter(text[at]),
                !has_letter ==> forall|j: int| 0 <= j < i ==> !ascii_letter(#[trigger] text[j]),
            decreases text.len() - i,
        {
            let c: char = text[i];
            if !(is_ascii_letter(c) || is_ascii_digit(c) || is_ascii_space(c)) {
                return false;
            }
            if is_ascii_letter(c) {
                has_letter = true;
                proof {
                    at = i as int;
                }
            }
            i += 1;
        }
        has_letter
    }

    /// The two fields of a trimmed line cut at the first occurrence of `sep`.
    fn cut_line(t: &Vec<char>, sep: &Vec<char>) -> (r: Option<(Vec<char>, Vec<char>)>)
        ensures
            match r {
                Some((word, text)) => cut_at(t@, sep@) == Some((word@, text@)),
                None => cut_at(t@, sep@) is None,
            },
    {
        match find_in(t, sep) {
            Some(pos) => {
                let head = slice_of(t, 0, pos);
                let tail = slice_of(t, pos, t.len());
                let word = trim(&head);
                let text = trim(&tail);
                if Self::is_valid_word_part(&word) && Self::is_valid_phonemes_part(&text) {
                    Some((word, text))
                } else {
                    None
                }
            },
            None => None,
        }
    }

    /// The word and the pronunciation text of a line.
    pub fn parse_cmu_line(line: &Vec<char>) -> (r: Option<(Vec<char>, Vec<char>)>)
        ensures
            match r {
                Some((word, text)) => fields_of_line(line@) == Some((word@, text@)),
                None => fields_of_line(line@) is None,
            },
    {
        let t = trim(line);
        let mut blanks: Vec<char> = Vec::new();
        blanks.push(' ');
        blanks.push(' ');
        assert(blanks@ =~= seq![' ', ' ']);
        match Self::cut_line(&t, &blanks) {
            Some(pair) => Some(pair),
            None => {
                let mut tab: Vec<char> = Vec::new();
                tab.push('\t');
                assert(tab@ =~= seq!['\t']);
                Self::cut_line(&t, &tab)
            },
        }
    }

    /// The key under which a word is stored: what stands before its first
    /// opening parenthesis, folded to lower case, then reduced to its
    /// letters and apostrophes.
    pub fn clean_word(word: &Vec<char>) -> (r: Vec<char>)
        ensures
            r@ == key_of(word@),
    {
        let mut end: usize = 0;
        while end < word.len() && word[end] != '('
            invariant
                end <= word.len(),
                find_char(word@, '(', 0) == find_char(word@, '(', end as int),
            decreases word.len() - end,
        {
            end += 1;
        }
        let stem = string_of(&slice_of(word, 0, end));
        let folded = chars_of(stem.as_str().to_lowercase().as_str());
        let ghost head = folded@;
        let mut out: Vec<char> = Vec::new();
        let mut i: usize = 0;
        assert(out@ + key_chars_from(head, 0) =~= key_chars_from(head, 0));
        while i < folded.len()
            invariant
                i <= folded.len(),
                head == folded@,
                out@ + key_chars_from(head, i as int) == key_chars_from(head, 0),
            decreases folded.len() - i,
        {
            let c: char = folded[i];
            if is_ascii_letter(c) || c == '\'' {
                let ghost before = out@;
                out.push(lower_char(c));
                assert(before.push(to_lower(c)) + key_chars_from(head, i + 1) =~= before
                    + key_chars_from(head, i as int));
            }
            i += 1;
        }
        assert(out@ + Seq::<char>::empty() =~= out@);
        out
    }

    /// The letters and digits of a token.
    fn keep_alnum(token: &Vec<char>) -> (r: Vec<char>)
        ensures
            r@ == alnum_from(token@, 0),
    {
        let mut out: Vec<char> = Vec::new();
        let mut i: usize = 0;
        assert(out@ + alnum_from(token@, 0) =~= alnum_from(token@, 0));
        while i < token.len()
            invariant
                i <= token.len(),
                out@ + alnum_from(token@, i as int) == alnum_from(token@, 0),
            decreases token.len() - i,
        {
            let c: char = token[i];
            if is_ascii_letter(c) || is_ascii_digit(c) {
                let ghost before = out@;
                out.push(c);
                assert(before.push(c) + alnum_from(token@, i + 1) =~= before + alnum_from(
                    token@,
                    i as int,
                ));
            }
            i += 1;
        }
        assert(out@ + Seq::<char>::empty() =~= out@);
        out
    }

    /// Whether a token is a symbol of the inventory, in either case, with or
    /// without a stress digit.
    pub fn is_valid_arpabet(token: &Vec<char>) -> (r: bool)
        ensures
            r == valid_symbol(token@),
    {
        let (base, _stress) = Phoneme::parse_stress(token);
        let features = Phoneme::get_arpabet_features(&base);
        match features.phoneme_type {
            PhonemeType::Special => false,
            _ => true,
        }
    }

    /// A token reduced to its letters and digits, if that is a valid symbol.
    pub fn try_fix_phoneme(token: &Vec<char>) -> (r: Option<Vec<char>>)
        ensures
            match r {
                Some(fixed) => repaired(token@) == Some(fixed@),
                None => repaired(token@) is None,
            },
    {
        let cleaned = Self::keep_alnum(token);
        if Self::is_valid_arpabet(&cleaned) {
            Some(cleaned)
        } else {
            None
        }
    }

    /// How many tokens of a pronunciation text cannot be read, neither as
    /// they stand nor reduced to their letters and digits.
    pub fn count_dropped(text: &Vec<char>) -> (r: usize)
        ensures
            r == dropped_tokens_of(text@),
    {
        let tokens = split_words(text);
        let ghost tv = words(text@);
        let mut dropped: usize = 0;
        let mut i: usize = 0;
        while i < tokens.len()
            invariant
                i <= tokens.len(),
                views(tokens@) == tv,
                dropped == dropped_among(tv, i as int),
                dropped <= i,
            decreases tokens.len() - i,
        {
            let token = &tokens[i];
            assert(token@ == tv[i as int]);
            if !Self::is_valid_arpabet(token) {
                match Self::try_fix_phoneme(token) {
                    Some(_) => {},
                    None => {
                        dropped += 1;
                    },
                }
            }
            i += 1;
        }
        dropped
    }

    /// The pronunciation that a text spells out, if any of its tokens can be
    /// read: each token is read as it stands if it is a symbol of the
    /// inventory, and else reduced to its letters and digits if that is one.
    /// Tokens that cannot be read either way are passed over.
    pub fn parse_phonemes(text: &Vec<char>) -> (r: Option<Vec<Phoneme>>)
        ensures
            match r {
                Some(phonemes) => pronunciation_of(text@) == Some(views(phonemes@)) && 1
                    <= phonemes.len() <= words(text@).len(),
                None => pronunciation_of(text@) is None,
            },
    {
        let tokens = split_words(text);
        let ghost tv = words(text@);
        let mut out: Vec<Phoneme> = Vec::new();
        let mut i: usize = 0;
        assert(views(out@) =~= phonemes_of_tokens(tv, 0));
        while i < tokens.len()
            invariant
                i <= tokens.len(),
                views(tokens@) == tv,
                views(out@) == phonemes_of_tokens(tv, i as int),
                out.len() <= i,
            decreases tokens.len() - i,
        {
            let token = &tokens[i];
            assert(token@ == tv[i as int]);
            let ghost before = views(out@);
            if Self::is_valid_arpabet(token) {
                out.push(Phoneme::from_chars(token));
                assert(views(out@) =~= before.push(phoneme_of(token@)));
            } else {
                match Self::try_fix_phoneme(token) {
                    Some(fixed) => {
                        out.push(Phoneme::from_chars(&fixed));
                        assert(views(out@) =~= before.push(phoneme_of(fixed@)));
                    },
                    None => {},
                }
            }
            i += 1;
        }
        if out.len() == 0 {
            None
        } else {
            Some(out)
        }
    }

    /// The pronunciation stored for a word, whatever the case of its letters.
    pub fn lookup(&self, word: &str) -> (r: Option<Vec<Phoneme>>)
        ensures
            match r {
                Some(phonemes) => self@.contains_key(unicode_lowercase(word@)) && views(phonemes@)
                    == self@[unicode_lowercase(word@)],
                None => !self@.contains_key(unicode_lowercase(word@)),
            },
    {
        let folded = word.to_lowercase();
        let key = chars_of(folded.as_str());
        match self.entries.get(&key) {
            Some(stored) => Some(duplicate_all(stored)),
            None => None,
        }
    }

    /// Number of entries.
    pub fn size(&self) -> (r: usize)
        ensures
            r == self@.len(),
            self@.dom().finite(),
    {
        let n = self.entries.len();
        assert(self@.dom() =~= self.entries@.dom());
        n
    }

    /// Stores a pronunciation under a word, folded to lower case, in place
    /// of what was stored for it.
    pub fn add_entry(&mut self, word: String, phonemes: Vec<Phoneme>)
        ensures
            final(self)@ == old(self)@.insert(unicode_lowercase(word@), views(phonemes@)),
            final(self).stats() == old(self).stats(),
            final(self).rejections() == old(self).rejections(),
            final(self).token_drops() == old(self).token_drops(),
            final(self).unread() == old(self).unread(),
    {
        let folded = word.as_str().to_lowercase();
        let key = chars_of(folded.as_str());
        let ghost before = self.entries@;
        self.entries.insert(key, phonemes);
        assert(self.entries@.map_values(|v: Vec<Phoneme>| views(v@)) =~= before.map_values(
            |v: Vec<Phoneme>| views(v@),
        ).insert(unicode_lowercase(word@), views(phonemes@)));
    }

    /// Whether the lexicon has no entry.
    pub fn is_empty(&self) -> (r: bool)
        ensures
            r == (self@.len() == 0),
            self@.dom().finite(),
    {
        self.size() == 0
    }

    /// The statistics of the load that built the lexicon.
    pub fn load_stats(&self) -> (r: LoadStats)
        ensures
            r == self.stats(),
    {
        self.stats
    }

    /// The numbers of the lines that the load turned away, in order, the
    /// first line of the source being line 1.
    pub fn rejected_lines(&self) -> (r: &Vec<usize>)
        ensures
            r@ == self.rejections(),
    {
        &self.rejected
    }

    /// The numbers of the lines of which the load dropped a token that it
    /// could not read, in order.
    pub fn lines_with_dropped_tokens(&self) -> (r: &Vec<usize>)
        ensures
            r@ == self.token_drops(),
    {
        &self.dropping
    }

    /// The numbers of the lines that were well formed but of which the load
    /// could read no token, so that they gave no entry, in order.
    pub fn unreadable_lines(&self) -> (r: &Vec<usize>)
        ensures
            r@ == self.unread(),
    {
        &self.unreadable
    }

    /// The `count` lexicographically smallest words of the lexicon, or all of
    /// them if there are fewer, in ascending order.
    pub fn get_sample_words(&self, count: usize) -> (r: Vec<String>)
        ensures
            views(r@).len() == if count <= self@.len() { count as nat } else { self@.len() },
            ascending(views(r@)),
            forall|i: int| 0 <= i < r.len() ==> self@.contains_key(#[trigger] views(r@)[i]),
            forall|k: Seq<char>, i: int|
                self@.contains_key(k) && !views(r@).contains(k) && 0 <= i < r.len()
                    ==> #[trigger] lex_less(views(r@)[i], k),
    {
        let total: usize = self.entries.len();
        let n: usize = if count <= total {
            count
        } else {
            total
        };
        proof {
            use_type_invariant(&self.entries);
            self.entries.lemma_keys();
            assert(self@.dom() =~= self.entries@.dom());
        }
        let ghost keys = self.entries.keys();
        let mut out: Vec<String> = Vec::new();
        let mut i: usize = 0;
        while i < n
            invariant
                i <= n <= total,
                total == keys.len(),
                keys == self.entries.keys(),
                out.len() == i,
                forall|j: int| 0 <= j < i ==> out[j]@ == keys[j],
            decreases n - i,
        {
            out.push(string_of(self.entries.key_at(i)));
            i += 1;
        }
        proof {
            let shown = views(out@);
            assert(shown =~= keys.take(n as int));
            assert forall|k: Seq<char>, j: int|
                self@.contains_key(k) && !shown.contains(k) && 0 <= j < out.len()
                    implies #[trigger] lex_less(shown[j], k) by {
                assert(keys.to_set().contains(k));
                let at = keys.index_of(k);
                assert(keys[at] == k);
                if at < n {
                    assert(shown[at] == k);
                }
                assert(lex_less(keys[j], keys[at]));
            }
        }
        out
    }
}

} // verus!
