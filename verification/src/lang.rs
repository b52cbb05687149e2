//! What the converter asks of a language: normalization, tokenization and a
//! stress pattern for a word.

use crate::chars::views;
use crate::error::G2PError;
use crate::text::{
    abbreviation_table, normal_form, number_table, patterns_accepted, tokens_of, TextProcessor,
};
use vstd::prelude::*;

verus! {

/// Language-specific text handling.
pub trait Language {
    fn normalize_text(&self, text: &str) -> Result<String, G2PError>;

    fn tokenize(&self, text: &str) -> Result<Vec<String>, G2PError>;

    /// The indices of the stressed syllables of a word.
    fn get_stress_pattern(&self, word: &str) -> Result<Vec<usize>, G2PError>;
}

/// English, handled by the text normalizer of this crate.
pub struct English;

impl Language for English {
    fn normalize_text(&self, text: &str) -> (r: Result<String, G2PError>)
        ensures
            r is Ok <==> patterns_accepted(),
            match r {
                Ok(normal) => normal@ == normal_form(abbreviation_table(), number_table(), text@),
                Err(e) => e == G2PError::InvalidPattern,
            },
    {
        let processor = TextProcessor::new();
        processor.normalize(text)
    }

    fn tokenize(&self, text: &str) -> (r: Result<Vec<String>, G2PError>)
        ensures
            r is Ok,
            views(r.unwrap()@) == tokens_of(text@),
    {
        let processor = TextProcessor::new();
        processor.tokenize(text)
    }

    /// Every word is taken to be stressed on its first syllable.
    fn get_stress_pattern(&self, word: &str) -> (r: Result<Vec<usize>, G2PError>)
        ensures
            r is Ok,
            r.unwrap()@ == seq![0usize],
    {
        let mut pattern: Vec<usize> = Vec::new();
        pattern.push(0);
        assert(pattern@ =~= seq![0usize]);
        Ok(pattern)
    }
}

} // verus!
