use rust_g2p::dict::Dictionary;

const COMMON: &str = ";;; an excerpt\n\
AND  AH0 N D\n\
COMPUTER  K AH0 M P Y UW1 T ER0\n\
HELLO  HH AH0 L OW1\n\
THE  DH AH0\n\
WORLD  W ER1 L D\n";

fn letters(mut n: usize) -> String {
    let mut word = String::new();
    for _ in 0..4 {
        word.push((b'A' + (n % 26) as u8) as char);
        n /= 26;
    }
    word.chars().rev().collect()
}

fn large_lexicon(entries: usize) -> String {
    let mut text = String::from(";;; generated\n");
    for n in 0..entries {
        text.push_str(&letters(n));
        text.push_str("  HH AH0 L OW1\n");
    }
    text
}

#[test]
fn test_cmu_dict_loading() {
    let dict = Dictionary::from_text(&large_lexicon(12000)).expect("Failed to load CMU dictionary");

    assert!(!dict.is_empty(), "Dictionary should not be empty");
    assert!(dict.size() > 10000, "Dictionary should have more than 10k entries");

    println!("Dictionary size: {}", dict.size());
    assert_eq!(dict.size(), 12000);
    assert_eq!(dict.load_stats().lines_processed, 12001);
    assert_eq!(dict.load_stats().valid_entries, 12000);
    assert_eq!(dict.load_stats().rejected_lines, 0);
}

#[test]
fn test_common_words() {
    let dict = Dictionary::from_text(COMMON).expect("Failed to load CMU dictionary");

    let test_words = vec!["hello", "world", "the", "and", "computer"];

    for word in test_words {
        let phonemes = dict.lookup(word);
        assert!(phonemes.is_some(), "Word '{}' should be in dictionary", word);

        if let Some(phonemes) = phonemes {
            assert!(!phonemes.is_empty(), "Phonemes for '{}' should not be empty", word);
            println!("{}: {:?}", word, phonemes);
        }
    }
}

#[test]
fn test_phoneme_parsing() {
    let dict = Dictionary::from_text(COMMON).expect("Failed to load CMU dictionary");

    let phonemes = dict.lookup("hello").expect("hello is an entry");
    assert!(phonemes.len() >= 3, "Hello should have at least 3 phonemes");
    assert_eq!(phonemes[0].symbol, "HH", "First phoneme should be HH");
}
