use rust_g2p::phoneme::{
    Backness, Height, Manner, Phoneme, PhonemeFeatures, PhonemeType, Place, StressLevel, Voicing,
};

const VOWELS: [&str; 15] = [
    "AA", "AE", "AH", "AO", "AW", "AY", "EH", "ER", "EY", "IH", "IY", "OW", "OY", "UH", "UW",
];

const CONSONANTS: [&str; 24] = [
    "B", "CH", "D", "DH", "F", "G", "HH", "JH", "K", "L", "M", "N", "NG", "P", "R", "S", "SH", "T",
    "TH", "V", "W", "Y", "Z", "ZH",
];

#[test]
fn stress_digit_is_split_off() {
    let p = Phoneme::from_arpabet("AE1");
    assert_eq!(p.symbol, "AE");
    assert_eq!(p.stress, StressLevel::Primary);
    assert_eq!(Phoneme::from_arpabet("AE2").stress, StressLevel::Secondary);
    assert_eq!(Phoneme::from_arpabet("AE0").stress, StressLevel::Unstressed);
    let bare = Phoneme::from_arpabet("K");
    assert_eq!(bare.symbol, "K");
    assert_eq!(bare.stress, StressLevel::Unstressed);
}

#[test]
fn other_digits_are_no_stress() {
    let p = Phoneme::from_arpabet("AE7");
    assert_eq!(p.symbol, "AE7");
    assert_eq!(p.stress, StressLevel::Unstressed);
    assert_eq!(p.features.phoneme_type, PhonemeType::Special);
}

#[test]
fn vowels_have_height_and_backness_only() {
    for symbol in VOWELS {
        let p = Phoneme::from_arpabet(symbol);
        assert!(p.is_vowel(), "{} is a vowel", symbol);
        assert!(!p.is_consonant());
        assert!(p.features.height.is_some() && p.features.backness.is_some());
        assert!(p.features.manner.is_none());
        assert!(p.features.place.is_none());
        assert!(p.features.voicing.is_none());
    }
}

#[test]
fn consonants_have_manner_place_and_voicing_only() {
    for symbol in CONSONANTS {
        let p = Phoneme::from_arpabet(symbol);
        assert!(p.is_consonant(), "{} is a consonant", symbol);
        assert!(!p.is_vowel());
        assert!(p.features.manner.is_some());
        assert!(p.features.place.is_some());
        assert!(p.features.voicing.is_some());
        assert!(p.features.height.is_none() && p.features.backness.is_none());
    }
}

#[test]
fn feature_table_entries() {
    let ae = Phoneme::from_arpabet("AE1");
    assert_eq!(ae.features, PhonemeFeatures::vowel(Height::Low, Backness::Front));
    let uw = Phoneme::from_arpabet("UW");
    assert_eq!(uw.features, PhonemeFeatures::vowel(Height::High, Backness::Back));
    let er = Phoneme::from_arpabet("ER0");
    assert_eq!(er.features, PhonemeFeatures::vowel(Height::Mid, Backness::Central));
    let k = Phoneme::from_arpabet("K");
    assert_eq!(
        k.features,
        PhonemeFeatures::consonant(Manner::Stop, Place::Velar, Voicing::Voiceless)
    );
    let zh = Phoneme::from_arpabet("ZH");
    assert_eq!(
        zh.features,
        PhonemeFeatures::consonant(Manner::Fricative, Place::Postalveolar, Voicing::Voiced)
    );
    let ng = Phoneme::from_arpabet("NG");
    assert_eq!(ng.features, PhonemeFeatures::consonant(Manner::Nasal, Place::Velar, Voicing::Voiced));
    let hh = Phoneme::from_arpabet("HH");
    assert_eq!(
        hh.features,
        PhonemeFeatures::consonant(Manner::Fricative, Place::Glottal, Voicing::Voiceless)
    );
    let y = Phoneme::from_arpabet("Y");
    assert_eq!(y.features, PhonemeFeatures::consonant(Manner::Glide, Place::Palatal, Voicing::Voiced));
}

#[test]
fn feature_table_is_keyed_in_upper_case() {
    let p = Phoneme::from_arpabet("ae1");
    assert_eq!(p.symbol, "ae");
    assert!(p.is_vowel());
    assert_eq!(p.features, Phoneme::from_arpabet("AE").features);
    assert!(Phoneme::from_arpabet("Sh").is_consonant());
}

#[test]
fn unknown_symbols_are_special() {
    for symbol in ["", "Q", "X", "XYZ", "1", "A", "??", "AAA"] {
        let p = Phoneme::from_arpabet(symbol);
        assert_eq!(p.features, PhonemeFeatures::special(), "{:?}", symbol);
        assert!(!p.is_vowel() && !p.is_consonant());
    }
    assert_eq!(Phoneme::from_arpabet("1").symbol, "");
}

#[test]
fn boundary_is_a_blank_special() {
    let b = Phoneme::word_boundary();
    assert_eq!(b.symbol, " ");
    assert_eq!(b.stress, StressLevel::Unstressed);
    assert_eq!(b.features.phoneme_type, PhonemeType::Special);
    assert_eq!(b.render(), " ");
    assert_eq!(b, Phoneme::from_arpabet(" "));
}

#[test]
fn render_appends_the_stress_digit() {
    assert_eq!(Phoneme::from_arpabet("AE1").render(), "AE1");
    assert_eq!(Phoneme::from_arpabet("OW2").render(), "OW2");
    assert_eq!(Phoneme::from_arpabet("K").render(), "K0");
    assert_eq!(Phoneme::from_arpabet("").render(), "0");
}

#[test]
fn render_inverts_construction_on_the_inventory() {
    for symbol in VOWELS.iter().chain(CONSONANTS.iter()) {
        for digit in ["0", "1", "2"] {
            let raw = format!("{}{}", symbol, digit);
            assert_eq!(Phoneme::from_arpabet(&raw).render(), raw);
        }
    }
}

#[test]
fn duplicate_is_equal() {
    let p = Phoneme::from_arpabet("IY1");
    assert_eq!(p.duplicate(), p);
    assert_eq!(p.clone(), p);
}
