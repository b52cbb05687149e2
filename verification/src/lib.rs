//! Grapheme-to-phoneme conversion: an exact-match lexicon with a
//! priority-ordered letter-to-sound rule engine behind it.
//!
//! A word is looked up in the lexicon first and pronounced by rule only if
//! the lexicon does not know it. A text is normalized, cut into words, and
//! converted word by word, with a boundary marker after each word.

pub mod chars;
pub mod dict;
pub mod error;
pub mod lang;
pub mod phoneme;
pub mod rule_source;
pub mod rules;
pub mod text;
pub mod wordmap;

pub use dict::Dictionary;
pub use error::G2PError;
pub use phoneme::Phoneme;
pub use rules::RulesEngine;

use chars::{unicode_lowercase, utf8_lossy, views};
use dict::{lexicon_of, unmarked_lexicon};
use phoneme::{boundary, unmarked, PhonemeView};
use rule_source::{override_table, rule_table};
use rules::{
    default_symbol, lemma_letter_is_voiced, lemma_pronounced_unmarked, pronounced, rule_output,
    some_step_emits, unmarked_overrides, unmarked_rules, RuleView,
};
use text::{
    abbreviation_table, normal_form, number_table, patterns_accepted, tokens_of, TextProcessor,
};
use vstd::prelude::*;

verus! {

/// How much a converter knows.
#[derive(Debug, Clone, Copy, PartialEq, Eq)]
pub struct G2PStats {
    pub dict_entries: usize,
    pub rule_count: usize,
}

/// The pronunciation of a word: the entry of the lexicon for the word in
/// lower case if there is one, and else what rules and overrides give it.
pub open spec fn word_output(
    lexicon: Map<Seq<char>, Seq<PhonemeView>>,
    rules: Seq<RuleView>,
    irregular: Map<Seq<char>, Seq<Seq<char>>>,
    word: Seq<char>,
) -> Seq<PhonemeView> {
    let folded = unicode_lowercase(word);
    if lexicon.contains_key(folded) {
        lexicon[folded]
    } else {
        pronounced(rules, irregular, folded)
    }
}

/// The first `n` pronunciations in order, each followed by the boundary
/// marker.
pub open spec fn joined(outputs: Seq<Seq<PhonemeView>>, n: int) -> Seq<PhonemeView>
    decreases n,
{
    if n <= 0 {
        Seq::empty()
    } else {
        joined(outputs, n - 1) + outputs[n - 1] + seq![boundary()]
    }
}

/// How often the boundary marker occurs among the first `n` phonemes.
pub open spec fn boundaries(s: Seq<PhonemeView>, n: int) -> nat
    decreases n,
{
    if n <= 0 {
        0
    } else if s[n - 1] == boundary() {
        boundaries(s, n - 1) + 1
    } else {
        boundaries(s, n - 1)
    }
}

proof fn lemma_boundaries_of_concat(a: Seq<PhonemeView>, b: Seq<PhonemeView>, n: int)
    requires
        0 <= n <= b.len(),
    ensures
        boundaries(a + b, a.len() + n) == boundaries(a, a.len() as int) + boundaries(b, n),
    decreases n,
{
    if n == 0 {
        lemma_boundaries_of_prefix(a, a + b, a.len() as int);
    } else {
        lemma_boundaries_of_concat(a, b, n - 1);
        assert((a + b)[a.len() + n - 1] == b[n - 1]);
    }
}

proof fn lemma_boundaries_of_prefix(a: Seq<PhonemeView>, b: Seq<PhonemeView>, n: int)
    requires
        0 <= n <= a.len(),
        n <= b.len(),
        forall|i: int| 0 <= i < n ==> a[i] == b[i],
    ensures
        boundaries(a, n) == boundaries(b, n),
    decreases n,
{
    if n > 0 {
        lemma_boundaries_of_prefix(a, b, n - 1);
    }
}

proof fn lemma_no_boundaries(s: Seq<PhonemeView>, n: int)
    requires
        0 <= n <= s.len(),
        !s.contains(boundary()),
    ensures
        boundaries(s, n) == 0,
    decreases n,
{
    if n > 0 {
        lemma_no_boundaries(s, n - 1);
        assert(s.contains(s[n - 1]));
    }
}

/// A converted text holds one boundary marker for each word, and the marker
/// of a word stands right behind the pronunciation of the word, provided
/// that no pronunciation holds the marker itself.
pub proof fn lemma_one_boundary_per_word(outputs: Seq<Seq<PhonemeView>>, n: int)
    requires
        0 <= n <= outputs.len(),
        forall|i: int| 0 <= i < n ==> !(#[trigger] outputs[i]).contains(boundary()),
    ensures
        boundaries(joined(outputs, n), joined(outputs, n).len() as int) == n,
        n > 0 ==> joined(outputs, n).last() == boundary(),
        n > 0 ==> joined(outputs, n) == joined(outputs, n - 1) + outputs[n - 1] + seq![boundary()],
    decreases n,
{
    if n > 0 {
        lemma_one_boundary_per_word(outputs, n - 1);
        let head = joined(outputs, n - 1);
        let word = outputs[n - 1];
        let mark = seq![boundary()];
        lemma_boundaries_of_concat(head, word, word.len() as int);
        lemma_no_boundaries(word, word.len() as int);
        lemma_boundaries_of_concat(head + word, mark, 1);
        assert(boundaries(mark, 1) == 1) by {
            assert(boundaries(mark, 0) == 0);
        }
    }
}

/// The words of a converted text keep their order: what the first `k` words
/// give is the beginning of what the first `n` give, and the `k`-th word
/// with its marker follows right behind it.
pub proof fn lemma_words_in_order(outputs: Seq<Seq<PhonemeView>>, k: int, n: int)
    requires
        0 <= k <= n <= outputs.len(),
    ensures
        joined(outputs, k).len() <= joined(outputs, n).len(),
        joined(outputs, n).take(joined(outputs, k).len() as int) == joined(outputs, k),
    decreases n - k,
{
    if k < n {
        lemma_words_in_order(outputs, k, n - 1);
        let shorter = joined(outputs, n - 1);
        let longer = joined(outputs, n);
        let head = joined(outputs, k);
        assert(longer.take(head.len() as int) =~= shorter.take(head.len() as int));
    } else {
        assert(joined(outputs, n).take(joined(outputs, n).len() as int) =~= joined(outputs, n));
    }
}

/// Where neither the lexicon nor a rule nor an override holds the boundary
/// marker, no word is pronounced with one.
pub proof fn lemma_word_output_unmarked(
    lexicon: Map<Seq<char>, Seq<PhonemeView>>,
    rules: Seq<RuleView>,
    irregular: Map<Seq<char>, Seq<Seq<char>>>,
    word: Seq<char>,
)
    requires
        unmarked_lexicon(lexicon),
        unmarked_rules(rules),
        unmarked_overrides(irregular),
    ensures
        unmarked(word_output(lexicon, rules, irregular, word)),
{
    lemma_pronounced_unmarked(rules, irregular, unicode_lowercase(word));
}

/// A word that the lexicon does not know is given at least one phoneme if
/// it holds a letter, provided that no rule is silent and no override is
/// empty: whatever the rules do with the letter, its sound or theirs is
/// emitted.
pub proof fn lemma_unknown_word_is_voiced(
    lexicon: Map<Seq<char>, Seq<PhonemeView>>,
    rules: Seq<RuleView>,
    irregular: Map<Seq<char>, Seq<Seq<char>>>,
    word: Seq<char>,
    at: int,
)
    requires
        !lexicon.contains_key(unicode_lowercase(word)),
        0 <= at < unicode_lowercase(word).len(),
        default_symbol(unicode_lowercase(word)[at]) is Some,
        forall|i: int| 0 <= i < rules.len() ==> rule_output(#[trigger] rules[i]).len() > 0,
        forall|k: Seq<char>| irregular.contains_key(k) ==> (#[trigger] irregular[k]).len() > 0,
    ensures
        word_output(lexicon, rules, irregular, word).len() > 0,
{
    lemma_letter_is_voiced(rules, unicode_lowercase(word), 0, at);
}

/// The converter: lexicon first, rules behind it.
pub struct RustG2P {
    dictionary: Dictionary,
    rules_engine: RulesEngine,
    text_processor: TextProcessor,
}

impl RustG2P {
    /// The three search patterns of the normalizer are accepted as regular
    /// expressions. Construction tries them, so this holds of every
    /// converter that a program can hold, and conversion cannot fail on
    /// their account.
    #[verifier::type_invariant]
    pub closed spec fn well_formed(self) -> bool {
        patterns_accepted()
    }

    /// The lexicon of the converter.
    pub closed spec fn lexicon(&self) -> Map<Seq<char>, Seq<PhonemeView>> {
        self.dictionary@
    }

    /// The rule table of the converter.
    pub closed spec fn rules(&self) -> Seq<RuleView> {
        self.rules_engine.rules()
    }

    /// The overrides of the converter.
    pub closed spec fn irregular(&self) -> Map<Seq<char>, Seq<Seq<char>>> {
        self.rules_engine.irregular()
    }

    /// The abbreviation table of the normalizer of the converter.
    pub closed spec fn short_forms(&self) -> Seq<(Seq<char>, Seq<char>)> {
        self.text_processor.short_forms()
    }

    /// The number table of the normalizer of the converter.
    pub closed spec fn numbers(&self) -> Seq<(Seq<char>, Seq<char>)> {
        self.text_processor.numbers()
    }

    /// Whether nothing that the converter knows holds the boundary marker.
    /// This holds of every converter built from sources; a lexicon to which
    /// the marker was added by hand does not have it.
    pub open spec fn unmarked(&self) -> bool {
        &&& unmarked_lexicon(self.lexicon())
        &&& unmarked_rules(self.rules())
        &&& unmarked_overrides(self.irregular())
    }

    /// The pronunciation that the converter gives a word.
    pub open spec fn pronunciation(&self, word: Seq<char>) -> Seq<PhonemeView> {
        word_output(self.lexicon(), self.rules(), self.irregular(), word)
    }

    /// The pronunciations that the converter gives the words, in order.
    pub open spec fn pronunciations(&self, words: Seq<Seq<char>>) -> Seq<Seq<PhonemeView>> {
        Seq::new(words.len(), |i: int| self.pronunciation(words[i]))
    }

    /// Builds a converter from the bytes of a lexicon source and the text of
    /// a rule source. Fails with `SourceEmpty` if either holds nothing
    /// usable, and else with `InvalidPattern` if a search pattern of the
    /// normalizer is not accepted; no converter is built in either case.
    pub fn new(lexicon: &[u8], rule_source: &str) -> (r: Result<Self, G2PError>)
        ensures
            r is Ok <==> {
                &&& lexicon_of(utf8_lossy(lexicon@)) != Map::<Seq<char>, Seq<PhonemeView>>::empty()
                &&& (rule_table(rule_source@).len() > 0 || override_table(rule_source@) != Map::<
                    Seq<char>,
                    Seq<Seq<char>>,
                >::empty())
                &&& patterns_accepted()
            },
            match r {
                Ok(g2p) => {
                    &&& g2p.lexicon() == lexicon_of(utf8_lossy(lexicon@))
                    &&& g2p.rules() == rule_table(rule_source@)
                    &&& g2p.irregular() == override_table(rule_source@)
                    &&& g2p.lexicon().len() > 0
                    &&& (rule_table(rule_source@).len() > 0 || override_table(rule_source@).len()
                        > 0)
                    &&& g2p.unmarked()
                    &&& g2p.short_forms() == abbreviation_table()
                    &&& g2p.numbers() == number_table()
                },
                Err(e) => {
                    let no_source = lexicon_of(utf8_lossy(lexicon@)) == Map::<
                        Seq<char>,
                        Seq<PhonemeView>,
                    >::empty() || (rule_table(rule_source@).len() == 0 && override_table(
                        rule_source@,
                    ) == Map::<Seq<char>, Seq<Seq<char>>>::empty());
                    e == if no_source {
                        G2PError::SourceEmpty
                    } else {
                        G2PError::InvalidPattern
                    }
                },
            },
    {
        let dictionary = match Dictionary::from_bytes(lexicon) {
            Ok(d) => d,
            Err(e) => {
                return Err(e);
            },
        };
        let rules_engine = match RulesEngine::from_text(rule_source) {
            Ok(engine) => engine,
            Err(e) => {
                return Err(e);
            },
        };
        Self::from_parts(dictionary, rules_engine)
    }

    /// Builds a converter from the bytes of a lexicon source alone; words
    /// that the lexicon does not know are spelled out by the built-in letter
    /// table. Fails with `SourceEmpty` if the source holds nothing usable,
    /// and else with `InvalidPattern` if a search pattern of the normalizer
    /// is not accepted.
    pub fn with_builtin_rules(lexicon: &[u8]) -> (r: Result<Self, G2PError>)
        ensures
            r is Ok <==> lexicon_of(utf8_lossy(lexicon@)) != Map::<
                Seq<char>,
                Seq<PhonemeView>,
            >::empty() && patterns_accepted(),
            match r {
                Ok(g2p) => {
                    &&& g2p.lexicon() == lexicon_of(utf8_lossy(lexicon@))
                    &&& g2p.rules() == Seq::<RuleView>::empty()
                    &&& g2p.irregular() == Map::<Seq<char>, Seq<Seq<char>>>::empty()
                    &&& g2p.lexicon().len() > 0
                    &&& g2p.unmarked()
                    &&& g2p.short_forms() == abbreviation_table()
                    &&& g2p.numbers() == number_table()
                },
                Err(e) => e == if lexicon_of(utf8_lossy(lexicon@)) == Map::<
                    Seq<char>,
                    Seq<PhonemeView>,
                >::empty() {
                    G2PError::SourceEmpty
                } else {
                    G2PError::InvalidPattern
                },
            },
    {
        let dictionary = match Dictionary::from_bytes(lexicon) {
            Ok(d) => d,
            Err(e) => {
                return Err(e);
            },
        };
        Self::from_parts(dictionary, RulesEngine::builtin())
    }

    /// A converter over a lexicon and a rule engine that are already built.
    /// Fails, with `InvalidPattern`, exactly if a search pattern of the
    /// normalizer is not accepted as a regular expression.
    pub fn from_parts(dictionary: Dictionary, rules_engine: RulesEngine) -> (r: Result<
        Self,
        G2PError,
    >)
        ensures
            r is Ok <==> patterns_accepted(),
            match r {
                Ok(g2p) => {
                    &&& g2p.lexicon() == dictionary@
                    &&& g2p.rules() == rules_engine.rules()
                    &&& g2p.irregular() == rules_engine.irregular()
                    &&& g2p.short_forms() == abbreviation_table()
                    &&& g2p.numbers() == number_table()
                },
                Err(e) => e == G2PError::InvalidPattern,
            },
    {
        if !TextProcessor::patterns_compile() {
            return Err(G2PError::InvalidPattern);
        }
        Ok(RustG2P { dictionary, rules_engine, text_processor: TextProcessor::new() })
    }

    /// The phonemes of a text: the text is normalized and cut into words,
    /// and each word is converted, in order, with the boundary marker behind
    /// it. Never fails.
    pub fn text_to_phonemes(&self, text: &str) -> (r: Result<Vec<Phoneme>, G2PError>)
        ensures
            r is Ok,
            ({
                let tokens = tokens_of(normal_form(self.short_forms(), self.numbers(), text@));
                let phonemes = r.unwrap();
                &&& views(phonemes@) == joined(self.pronunciations(tokens), tokens.len() as int)
                &&& self.unmarked() ==> boundaries(views(phonemes@), phonemes@.len() as int)
                    == tokens.len()
                &&& tokens.len() > 0 ==> views(phonemes@).last() == boundary()
                &&& tokens.len() == 0 ==> phonemes@.len() == 0
            }),
    {
        proof {
            use_type_invariant(self);
        }
        let normalized = match self.text_processor.normalize(text) {
            Ok(t) => t,
            Err(e) => {
                return Err(e);
            },
        };
        let words = match self.text_processor.tokenize(normalized.as_str()) {
            Ok(w) => w,
            Err(e) => {
                return Err(e);
            },
        };
        Ok(self.words_to_phonemes(&words))
    }

    /// The phonemes of a sequence of words: each word converted, in order,
    /// with the boundary marker behind it.
    pub fn words_to_phonemes(&self, words: &Vec<String>) -> (r: Vec<Phoneme>)
        ensures
            views(r@) == joined(self.pronunciations(views(words@)), words.len() as int),
            self.unmarked() ==> boundaries(views(r@), r@.len() as int) == words.len(),
            words.len() > 0 ==> views(r@).last() == boundary(),
            words.len() == 0 ==> r@.len() == 0,
    {
        let ghost outputs = self.pronunciations(views(words@));
        proof {
            if self.unmarked() {
                assert forall|i: int| 0 <= i < outputs.len() implies !(
                #[trigger] outputs[i]).contains(boundary()) by {
                    lemma_word_output_unmarked(
                        self.lexicon(),
                        self.rules(),
                        self.irregular(),
                        views(words@)[i],
                    );
                }
                lemma_one_boundary_per_word(outputs, outputs.len() as int);
            }
        }
        let mut phonemes: Vec<Phoneme> = Vec::new();
        let mut i: usize = 0;
        assert(views(phonemes@) =~= joined(outputs, 0));
        while i < words.len()
            invariant
                i <= words.len(),
                outputs == self.pronunciations(views(words@)),
                views(phonemes@) == joined(outputs, i as int),
            decreases words.len() - i,
        {
            let ghost before = views(phonemes@);
            let word_phonemes = match self.word_to_phonemes(words[i].as_str()) {
                Ok(p) => p,
                Err(_) => Vec::new(),
            };
            assert(views(word_phonemes@) == outputs[i as int]);
            let mut k: usize = 0;
            while k < word_phonemes.len()
                invariant
                    k <= word_phonemes.len(),
                    views(phonemes@) == before + views(word_phonemes@).take(k as int),
                decreases word_phonemes.len() - k,
            {
                let ghost sofar = views(phonemes@);
                phonemes.push(word_phonemes[k].duplicate());
                assert(views(phonemes@) =~= sofar.push(word_phonemes[k as int]@));
                assert(views(word_phonemes@).take(k + 1) =~= views(word_phonemes@).take(
                    k as int,
                ).push(word_phonemes[k as int]@));
                assert(views(phonemes@) =~= before + views(word_phonemes@).take(k + 1));
                k += 1;
            }
            assert(views(word_phonemes@).take(word_phonemes.len() as int) =~= views(
                word_phonemes@,
            ));
            phonemes.push(Phoneme::word_boundary());
            assert(views(phonemes@) =~= before + outputs[i as int] + seq![boundary()]);
            i += 1;
        }
        phonemes
    }

    /// The phonemes of a word. The lexicon is asked first, as `lookup` asks
    /// it: where `lookup` finds the word, its entry is returned as it stands
    /// and neither a rule, an override nor a fallback sound is used. A word
    /// that the lexicon does not know is folded to lower case and pronounced
    /// by rule. Never fails. Of a word that the lexicon does not know,
    /// something is returned exactly if the word has an override or some
    /// step of the scan emits a sound.
    pub fn word_to_phonemes(&self, word: &str) -> (r: Result<Vec<Phoneme>, G2PError>)
        ensures
            r is Ok,
            views(r.unwrap()@) == self.pronunciation(word@),
            self.lexicon().contains_key(unicode_lowercase(word@)) ==> views(r.unwrap()@)
                == self.lexicon()[unicode_lowercase(word@)],
            !self.lexicon().contains_key(unicode_lowercase(word@)) ==> (r.unwrap()@.len() > 0
                <==> self.irregular().contains_key(unicode_lowercase(unicode_lowercase(word@)))
                || some_step_emits(self.rules(), unicode_lowercase(word@), 0)),
    {
        match self.dictionary.lookup(word) {
            Some(phonemes) => Ok(phonemes),
            None => {
                let folded = word.to_lowercase();
                self.rules_engine.apply_rules(folded.as_str())
            },
        }
    }

    /// How many entries and rules the converter has.
    pub fn get_stats(&self) -> (r: G2PStats)
        ensures
            r.dict_entries == self.lexicon().len(),
            r.rule_count == self.rules().len(),
    {
        G2PStats {
            dict_entries: self.dictionary.size(),
            rule_count: self.rules_engine.rule_count(),
        }
    }
}

} // verus!
