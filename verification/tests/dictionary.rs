use rust_g2p::dict::{Dictionary, LoadStats};
use rust_g2p::phoneme::{Phoneme, StressLevel};
use rust_g2p::G2PError;

fn chars(s: &str) -> Vec<char> {
    s.chars().collect()
}

fn symbols(phonemes: &[Phoneme]) -> Vec<String> {
    phonemes.iter().map(|p| p.render()).collect()
}

#[test]
fn lookup_is_case_insensitive() {
    let dict = Dictionary::from_text("cat  K AE1 T\n").expect("one entry");
    let phonemes = dict.lookup("CAT").expect("cat is stored");
    assert_eq!(phonemes.len(), 3);
    assert_eq!(phonemes[0].symbol, "K");
    assert_eq!(phonemes[1].symbol, "AE");
    assert_eq!(phonemes[1].stress, StressLevel::Primary);
    assert_eq!(phonemes[2], Phoneme::from_arpabet("T"));
    assert!(phonemes[1].is_vowel());
    assert!(phonemes[0].is_consonant());
    assert_eq!(dict.lookup("Cat"), dict.lookup("cat"));
    assert!(dict.lookup("dog").is_none());
}

#[test]
fn later_line_wins() {
    let dict = Dictionary::from_text("HELLO(1)  HH AH0 L OW1\nHELLO  HH EH0 L OW1\n").unwrap();
    assert_eq!(dict.size(), 1);
    let p = dict.lookup("hello").unwrap();
    assert_eq!(symbols(&p), vec!["HH0", "EH0", "L0", "OW1"]);
    assert_eq!(dict.load_stats().valid_entries, 2);
    assert_eq!(dict.load_stats().lines_processed, 2);
}

#[test]
fn non_ascii_line_is_skipped() {
    let bytes = b"CAF\xc3\x89  K AE0 F EY1\nDOG  D AO1 G\n\xff\xfe  K\n";
    let dict = Dictionary::from_bytes(bytes).unwrap();
    assert_eq!(dict.size(), 1);
    assert!(dict.lookup("dog").is_some());
    assert_eq!(
        dict.load_stats(),
        LoadStats { lines_processed: 3, valid_entries: 1, rejected_lines: 2 }
    );
    assert_eq!(dict.rejected_lines(), &vec![1, 3]);
}

#[test]
fn dropped_tokens_and_unreadable_lines_are_listed() {
    let text = "DOG  D AO1 G\nCAT  K QQ T\nCOW  QQ ZZ\nbad line\nEMU  IY1 M YUW\nOWL  AW1 L\n";
    let dict = Dictionary::from_text(text).unwrap();
    assert_eq!(dict.lines_with_dropped_tokens(), &vec![2, 3, 5]);
    assert_eq!(dict.unreadable_lines(), &vec![3]);
    assert_eq!(dict.rejected_lines(), &vec![4]);
    assert_eq!(
        dict.load_stats(),
        LoadStats { lines_processed: 6, valid_entries: 4, rejected_lines: 1 }
    );
    assert_eq!(symbols(&dict.lookup("cat").unwrap()), vec!["K0", "T0"]);
    assert!(dict.lookup("cow").is_none());
    let clean = Dictionary::new();
    assert!(clean.lines_with_dropped_tokens().is_empty() && clean.unreadable_lines().is_empty());
}

#[test]
fn rejected_lines_are_listed_by_number() {
    let text = "DOG  D AO1 G\nno separator\n;;; comment\nAB\nCAT  ?? !!\nCAT  K AE1 T\nX Y  Z*\n";
    let dict = Dictionary::from_text(text).unwrap();
    assert_eq!(dict.rejected_lines(), &vec![2, 4, 5, 7]);
    assert_eq!(
        dict.load_stats(),
        LoadStats { lines_processed: 7, valid_entries: 2, rejected_lines: 4 }
    );
}

#[test]
fn empty_sources_are_refused() {
    assert_eq!(Dictionary::from_text("").err(), Some(G2PError::SourceEmpty));
    assert_eq!(Dictionary::from_text(";;; only a comment\n\n   \n").err(), Some(G2PError::SourceEmpty));
    assert_eq!(Dictionary::from_text("no separator here\n").err(), Some(G2PError::SourceEmpty));
    assert_eq!(Dictionary::from_text("WORD  ?? !!\n").err(), Some(G2PError::SourceEmpty));
    assert_eq!(Dictionary::from_bytes(b"\xff\xff\xff").err(), Some(G2PError::SourceEmpty));
}

#[test]
fn comments_and_blank_lines_are_not_rejections() {
    let dict = Dictionary::from_text(";;; header\n\n  \t \nDOG  D AO1 G\n;;;DOG  K\n").unwrap();
    assert_eq!(
        dict.load_stats(),
        LoadStats { lines_processed: 5, valid_entries: 1, rejected_lines: 0 }
    );
}

#[test]
fn tab_separates_as_well() {
    let dict = Dictionary::from_text("DOG\tD AO1 G\r\nCAT \t K AE1 T\r\n").unwrap();
    assert_eq!(dict.size(), 2);
    assert_eq!(symbols(&dict.lookup("dog").unwrap()), vec!["D0", "AO1", "G0"]);
    assert_eq!(symbols(&dict.lookup("cat").unwrap()), vec!["K0", "AE1", "T0"]);
}

#[test]
fn single_blank_does_not_separate() {
    assert!(Dictionary::parse_cmu_line(&chars("DOG D AO1 G")).is_none());
    let (word, text) = Dictionary::parse_cmu_line(&chars("  DOG   D AO1 G  ")).unwrap();
    assert_eq!(word, chars("DOG"));
    assert_eq!(text, chars("D AO1 G"));
}

#[test]
fn line_validity() {
    assert!(Dictionary::is_valid_line(&chars("A  B")));
    assert!(!Dictionary::is_valid_line(&chars("AB")));
    assert!(!Dictionary::is_valid_line(&chars("   AB   ")));
    assert!(!Dictionary::is_valid_line(&chars("12  34")));
    assert!(!Dictionary::is_valid_line(&chars("CAF\u{e9}  K")));
    assert!(Dictionary::is_valid_line(&chars("CAT\u{a0}  K")));
    let long: String = std::iter::repeat('A').take(201).collect();
    assert!(!Dictionary::is_valid_line(&chars(&long)));
    let fits: String = std::iter::repeat('A').take(200).collect();
    assert!(Dictionary::is_valid_line(&chars(&fits)));
    let padded = format!("{}{}", fits, "     ");
    assert!(Dictionary::is_valid_line(&chars(&padded)));
}

#[test]
fn field_validity() {
    assert!(Dictionary::is_valid_word_part(&chars("O'NEIL-SMITH(2)")));
    assert!(!Dictionary::is_valid_word_part(&chars("")));
    assert!(!Dictionary::is_valid_word_part(&chars("A B")));
    assert!(!Dictionary::is_valid_word_part(&chars("A.B")));
    let long: String = std::iter::repeat('A').take(51).collect();
    assert!(!Dictionary::is_valid_word_part(&chars(&long)));
    assert!(Dictionary::is_valid_phonemes_part(&chars("K AE1 T")));
    assert!(!Dictionary::is_valid_phonemes_part(&chars("1 2 3")));
    assert!(!Dictionary::is_valid_phonemes_part(&chars("K, AE1")));
    assert!(!Dictionary::is_valid_phonemes_part(&chars("")));
    let long: String = std::iter::repeat("K ").take(51).collect();
    assert!(!Dictionary::is_valid_phonemes_part(&chars(&long)));
}

#[test]
fn words_are_normalized() {
    assert_eq!(Dictionary::clean_word(&chars("HELLO(1)")), chars("hello"));
    assert_eq!(Dictionary::clean_word(&chars("O'Neil-2")), chars("o'neil"));
    assert_eq!(Dictionary::clean_word(&chars("(1)X")), chars(""));
    assert_eq!(Dictionary::clean_word(&chars("A(B)C(D)")), chars("a"));
    assert_eq!(Dictionary::clean_word(&chars("\u{212a}ELVIN")), chars("kelvin"));
    assert_eq!(Dictionary::clean_word(&chars("\u{c9}T\u{c9}'S")), chars("t's"));
}

#[test]
fn symbols_are_checked_against_the_inventory() {
    for ok in ["K", "k", "AE", "ae1", "ZH2", "Ng0"] {
        assert!(Dictionary::is_valid_arpabet(&chars(ok)), "{}", ok);
    }
    for bad in ["", "1", "Q", "X", "AE3", "AE12", "KK", "A", "AEE", "A1E"] {
        assert!(!Dictionary::is_valid_arpabet(&chars(bad)), "{}", bad);
    }
}

#[test]
fn tokens_are_repaired_or_dropped() {
    assert_eq!(Dictionary::try_fix_phoneme(&chars("K.")), Some(chars("K")));
    assert_eq!(Dictionary::try_fix_phoneme(&chars("(AE1)")), Some(chars("AE1")));
    assert_eq!(Dictionary::try_fix_phoneme(&chars("??")), None);
    let p = Dictionary::parse_phonemes(&chars("K. QQ AE1 TOOLONG T")).unwrap();
    assert_eq!(symbols(&p), vec!["K0", "AE1", "T0"]);
    let long = Dictionary::parse_phonemes(&chars("(AE1)")).unwrap();
    assert_eq!(symbols(&long), vec!["AE1"]);
    let mixed = Dictionary::parse_phonemes(&chars("--K-- (zh2), ZZ 99")).unwrap();
    assert_eq!(symbols(&mixed), vec!["K0", "zh2"]);
    assert_eq!(Dictionary::count_dropped(&chars("--K-- (zh2), ZZ 99")), 2);
    assert_eq!(Dictionary::count_dropped(&chars("K AE1 T")), 0);
    assert_eq!(Dictionary::count_dropped(&chars("")), 0);
    assert!(Dictionary::parse_phonemes(&chars("ZZ 99")).is_none());
    assert!(Dictionary::parse_phonemes(&chars("")).is_none());
    assert!(Dictionary::parse_phonemes(&chars("QQ 12 ...")).is_none());
    assert!(Dictionary::parse_phonemes(&chars("   ")).is_none());
}

#[test]
fn entries_can_be_added() {
    let mut dict = Dictionary::new();
    assert!(dict.is_empty());
    assert_eq!(dict.size(), 0);
    dict.add_entry("Zebra".to_string(), vec![Phoneme::from_arpabet("Z")]);
    dict.add_entry("apple".to_string(), vec![Phoneme::from_arpabet("AE1")]);
    dict.add_entry("ZEBRA".to_string(), vec![Phoneme::from_arpabet("ZH")]);
    assert!(!dict.is_empty());
    assert_eq!(dict.size(), 2);
    assert_eq!(symbols(&dict.lookup("zebra").unwrap()), vec!["ZH0"]);
    assert_eq!(dict.load_stats(), LoadStats { lines_processed: 0, valid_entries: 0, rejected_lines: 0 });
}

#[test]
fn sample_words_are_the_smallest_in_order() {
    let dict =
        Dictionary::from_text("PEAR  P\nAPPLE  AE1\nFIG  F\nAPPLES  AE1 Z\nDATE  D\n").unwrap();
    assert_eq!(dict.get_sample_words(3), vec!["apple", "apples", "date"]);
    assert_eq!(dict.get_sample_words(0), Vec::<String>::new());
    assert_eq!(dict.get_sample_words(99), vec!["apple", "apples", "date", "fig", "pear"]);
}
