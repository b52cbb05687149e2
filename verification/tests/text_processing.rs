use rust_g2p::lang::{English, Language};
use rust_g2p::text::{weave, TextProcessor};

fn chars(s: &str) -> Vec<char> {
    s.chars().collect()
}

#[test]
fn normal_form_of_a_sentence() {
    let t = TextProcessor::new();
    assert_eq!(t.normalize("Hello, world!").unwrap(), "hello world");
    assert_eq!(t.normalize("  Tabs\tand\n\nlines  ").unwrap(), "tabs and lines");
    assert_eq!(t.normalize("").unwrap(), "");
    assert_eq!(t.normalize("?!").unwrap(), "");
}

#[test]
fn abbreviations_are_written_out() {
    let t = TextProcessor::new();
    assert_eq!(t.normalize("Dr. Smith").unwrap(), "doctor smith");
    assert_eq!(t.normalize("Mrs. and Mr. Jones vs. Prof. X").unwrap(), "misses and mister jones versus professor x");
    assert_eq!(t.normalize("Main St. etc.").unwrap(), "main street etcetera");
    assert_eq!(
        t.expand_abbreviations(&chars("ms. on 5th ave. or blvd.")),
        chars("miss on 5th avenue or boulevard")
    );
}

#[test]
fn small_numbers_are_written_out() {
    let t = TextProcessor::new();
    assert_eq!(t.normalize("I have 5 cats").unwrap(), "i have five cats");
    assert_eq!(t.normalize("0 10 20 21").unwrap(), "zero ten twenty 21");
    assert_eq!(t.normalize("a1 1b 1").unwrap(), "a1 1b one");
    assert_eq!(t.expand_numbers(&chars("12, 7.")).unwrap(), chars("twelve, seven."));
    assert_eq!(t.number_word(&chars("13")), chars("thirteen"));
    assert_eq!(t.number_word(&chars("013")), chars("013"));
}

#[test]
fn punctuation_and_white_space() {
    let t = TextProcessor::new();
    assert_eq!(t.clean_punctuation(&chars("a-b_c;d")).unwrap(), chars("a b_c d"));
    assert_eq!(t.normalize_whitespace(&chars(" \ta \u{a0}  b\n")).unwrap(), chars("a b"));
}

#[test]
fn tokens_are_stripped_words() {
    let t = TextProcessor::new();
    assert_eq!(t.tokenize("hello world").unwrap(), vec!["hello", "world"]);
    assert_eq!(t.tokenize("  \"quoted,\" 42 it's <x> ").unwrap(), vec!["quoted", "it's", "x"]);
    assert_eq!(t.tokenize("").unwrap(), Vec::<String>::new());
    assert_eq!(t.tokenize("1a2 \u{e9}t\u{e9}!").unwrap(), vec!["a", "\u{e9}t\u{e9}"]);
}

#[test]
fn gaps_and_fills_alternate() {
    let gaps = vec!["a".to_string(), "b".to_string(), "c".to_string()];
    assert_eq!(weave(&gaps, &vec![chars("1"), chars("2")]), chars("a1b2c"));
    assert_eq!(weave(&gaps, &vec![chars("-")]), chars("a-bc"));
    assert_eq!(weave(&gaps, &vec![chars("1"), chars("2"), chars("3"), chars("4")]), chars("a1b2c3"));
    assert_eq!(weave(&Vec::new(), &vec![chars("1")]), chars(""));
}

#[test]
fn english_uses_the_normalizer() {
    let en = English;
    assert_eq!(en.normalize_text("Dr. Who, 2 times").unwrap(), "doctor who two times");
    assert_eq!(en.tokenize("doctor who").unwrap(), vec!["doctor", "who"]);
    assert_eq!(en.get_stress_pattern("anything").unwrap(), vec![0]);
}

#[test]
fn search_patterns_compile() {
    assert!(TextProcessor::patterns_compile());
    let t = TextProcessor::new();
    for text in ["", "a", "(", "[", "\\d", "5 $1 ${x}"] {
        assert!(t.normalize(text).is_ok(), "{:?}", text);
    }
    assert_eq!(t.normalize("cost: $1 (or 2)").unwrap(), "cost one or two");
}

#[test]
fn patterns_that_do_not_compile_are_reported() {
    assert_eq!(
        TextProcessor::blank_out("(", &chars("a(b")),
        Err(rust_g2p::G2PError::InvalidPattern)
    );
    assert_eq!(TextProcessor::blank_out("\\(", &chars("a(b")), Ok(chars("a b")));
    assert_eq!(TextProcessor::blank_out("b+", &chars("abbbcb")), Ok(chars("a c ")));
}
