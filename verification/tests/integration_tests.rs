use rust_g2p::RustG2P;

const LEXICON: &str = ";;; a small lexicon\n\
HELLO  HH AH0 L OW1\n\
WORLD  W ER1 L D\n\
I  AY1\n\
HAVE  HH AE1 V\n\
FIVE  F AY1 V\n\
CATS  K AE1 T S\n\
DOCTOR  D AA1 K T ER0\n\
SMITH  S M IH1 TH\n";

const RULES: &str = "# letter-to-sound rules\n\
kn|START||N|10\n\
ph|||F|5\n\
sh|||SH|5\n\
ch|||CH|5\n\
th|||TH|5\n\
e||END|SILENT|3\n\
IRREGULAR|yacht|Y AA1 T\n";

fn converter() -> Result<RustG2P, rust_g2p::G2PError> {
    RustG2P::new(LEXICON.as_bytes(), RULES)
}

#[test]
fn test_basic_word_conversion() {
    let g2p = converter().expect("Failed to create G2P");

    let phonemes = g2p.word_to_phonemes("hello").unwrap();
    assert!(!phonemes.is_empty());

    let phonemes = g2p.word_to_phonemes("world").unwrap();
    assert!(!phonemes.is_empty());
}

#[test]
fn test_text_processing() {
    let g2p = converter().expect("Failed to create G2P");

    let phonemes = g2p.text_to_phonemes("Hello, world!").unwrap();
    assert!(!phonemes.is_empty());

    let phonemes = g2p.text_to_phonemes("I have 5 cats").unwrap();
    assert!(!phonemes.is_empty());
}

#[test]
fn test_abbreviations() {
    let g2p = converter().expect("Failed to create G2P");

    let phonemes = g2p.text_to_phonemes("Dr. Smith").unwrap();
    assert!(!phonemes.is_empty());
}

#[test]
fn test_rules_engine() {
    let g2p = converter().expect("Failed to create G2P");

    let phonemes = g2p.word_to_phonemes("pseudoword").unwrap();
    assert!(!phonemes.is_empty());
}
