use rust_g2p::dict::Dictionary;
use rust_g2p::phoneme::Phoneme;
use rust_g2p::rules::RulesEngine;
use rust_g2p::{G2PError, RustG2P};

const LEXICON: &str = "CAT  K AE1 T\nKNIFE  N AY1 F\nDOCTOR  D AA1 K T ER0\n";

const RULES: &str = "kn|START||N|10\nIRREGULAR|yacht|Y AA1 T\nIRREGULAR|cat|M IY1\n";

fn said(phonemes: &[Phoneme]) -> String {
    phonemes.iter().map(|p| p.render()).collect::<Vec<_>>().join("/")
}

#[test]
fn lexicon_comes_before_rules() {
    let g2p = RustG2P::new(LEXICON.as_bytes(), RULES).unwrap();
    assert_eq!(said(&g2p.word_to_phonemes("knife").unwrap()), "N0/AY1/F0");
    assert_eq!(said(&g2p.word_to_phonemes("Cat").unwrap()), "K0/AE1/T0");
    assert_eq!(said(&g2p.word_to_phonemes("knit").unwrap()), "N0/IH0/T0");
    assert_eq!(said(&g2p.word_to_phonemes("YACHT").unwrap()), "Y0/AA1/T0");
    assert_eq!(said(&g2p.word_to_phonemes("KNOB").unwrap()), "N0/OW0/B0");
}

#[test]
fn unknown_words_with_letters_are_voiced() {
    let g2p = RustG2P::new(LEXICON.as_bytes(), RULES).unwrap();
    for word in ["pseudoword", "x", "Zq", "a-b", "7up"] {
        assert!(!g2p.word_to_phonemes(word).unwrap().is_empty(), "{}", word);
    }
    assert!(g2p.word_to_phonemes("").unwrap().is_empty());
    assert!(g2p.word_to_phonemes("123").unwrap().is_empty());
}

#[test]
fn one_boundary_after_each_word() {
    let g2p = RustG2P::new(LEXICON.as_bytes(), RULES).unwrap();
    let phonemes = g2p.text_to_phonemes("The cat, Dr. Knife & 3 yachts!").unwrap();
    assert_eq!(
        said(&phonemes),
        "T0/HH0/EH0/ /K0/AE1/T0/ /D0/AA1/K0/T0/ER0/ /N0/AY1/F0/ /T0/HH0/R0/EH0/EH0/ /Y0/AE0/K0/HH0/T0/S0/ "
    );
    let boundary = Phoneme::word_boundary();
    assert_eq!(phonemes.iter().filter(|p| **p == boundary).count(), 6);
    assert_eq!(phonemes.last(), Some(&boundary));
    assert!(g2p.text_to_phonemes("").unwrap().is_empty());
    assert!(g2p.text_to_phonemes(" ... ").unwrap().is_empty());
}

#[test]
fn words_are_converted_in_order() {
    let g2p = RustG2P::new(LEXICON.as_bytes(), RULES).unwrap();
    let words = vec!["cat".to_string(), "".to_string(), "knife".to_string()];
    assert_eq!(said(&g2p.words_to_phonemes(&words)), "K0/AE1/T0/ / /N0/AY1/F0/ ");
}

#[test]
fn construction_fails_on_empty_sources() {
    assert_eq!(RustG2P::new(b"", RULES).err(), Some(G2PError::SourceEmpty));
    assert_eq!(RustG2P::new(LEXICON.as_bytes(), "# none\n").err(), Some(G2PError::SourceEmpty));
    assert!(RustG2P::new(LEXICON.as_bytes(), RULES).is_ok());
}

#[test]
fn statistics_count_entries_and_rules() {
    let g2p = RustG2P::new(LEXICON.as_bytes(), RULES).unwrap();
    let stats = g2p.get_stats();
    assert_eq!(stats.dict_entries, 3);
    assert_eq!(stats.rule_count, 1);
}

#[test]
fn converter_from_parts() {
    let mut dictionary = Dictionary::new();
    dictionary.add_entry("Hi".to_string(), vec![Phoneme::from_arpabet("HH"), Phoneme::from_arpabet("AY1")]);
    let engine = RulesEngine::from_text("ph|||F|5\n").unwrap();
    let g2p = RustG2P::from_parts(dictionary, engine).unwrap();
    assert_eq!(said(&g2p.text_to_phonemes("hi phil").unwrap()), "HH0/AY1/ /F0/IH0/L0/ ");
}

#[test]
fn converter_without_a_rule_source() {
    let g2p = RustG2P::with_builtin_rules(LEXICON.as_bytes()).unwrap();
    assert_eq!(said(&g2p.word_to_phonemes("cat").unwrap()), "K0/AE1/T0");
    assert_eq!(said(&g2p.word_to_phonemes("knit").unwrap()), "K0/N0/IH0/T0");
    assert_eq!(g2p.get_stats().rule_count, 0);
    assert_eq!(RustG2P::with_builtin_rules(b"").err(), Some(G2PError::SourceEmpty));
    let engine = RulesEngine::builtin();
    assert_eq!(engine.rule_count(), 0);
    assert_eq!(engine.irregular_count(), 0);
}

#[test]
fn lexicon_entry_is_returned_as_lookup_finds_it() {
    let mut dictionary = Dictionary::new();
    dictionary.add_entry("KNIFE".to_string(), vec![Phoneme::from_arpabet("N")]);
    dictionary.add_entry("yacht".to_string(), vec![Phoneme::from_arpabet("Y")]);
    let stored = dictionary.lookup("Knife");
    let engine = RulesEngine::from_text(RULES).unwrap();
    let g2p = RustG2P::from_parts(dictionary, engine).unwrap();
    for word in ["knife", "KNIFE", "Knife"] {
        assert_eq!(Some(g2p.word_to_phonemes(word).unwrap()), stored);
    }
    assert_eq!(said(&g2p.word_to_phonemes("Yacht").unwrap()), "Y0");
}

#[test]
fn text_conversion_never_fails() {
    let g2p = RustG2P::new(LEXICON.as_bytes(), RULES).unwrap();
    for text in ["", "Hello, world!", "I have 5 cats", "Dr. Smith", "\u{e9}t\u{e9} 42 ...", "(", "\\"] {
        assert!(g2p.text_to_phonemes(text).is_ok(), "{:?}", text);
    }
    let phonemes = g2p.text_to_phonemes("Dr. Knife").unwrap();
    let mut expected = g2p.word_to_phonemes("doctor").unwrap();
    expected.push(Phoneme::word_boundary());
    expected.extend(g2p.word_to_phonemes("knife").unwrap());
    expected.push(Phoneme::word_boundary());
    assert_eq!(phonemes, expected);
}

#[test]
fn errors_have_messages() {
    assert_eq!(G2PError::SourceEmpty.message(), "no usable entry was left of the source");
    assert_eq!(G2PError::InvalidPattern.message(), "a search pattern is no regular expression");
}
