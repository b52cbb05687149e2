//! The phonetic symbol model: one phoneme is a base symbol, a stress level and
//! a feature bundle taken from a fixed table of 15 vowels and 24 consonants.

use crate::chars::{chars_of, slice_of, space, string_of, to_upper, upper_char, views};
use vstd::prelude::*;

verus! {

/// The stress of a phoneme.
#[derive(Debug, Clone, Copy, PartialEq, Eq, Hash)]
pub enum StressLevel {
    Primary,
    Secondary,
    Unstressed,
}

/// The class of a phoneme.
#[derive(Debug, Clone, Copy, PartialEq, Eq, Hash)]
pub enum PhonemeType {
    Vowel,
    Consonant,
    /// Pauses, boundaries and every symbol outside the inventory.
    Special,
}

/// How a consonant is articulated.
#[derive(Debug, Clone, Copy, PartialEq, Eq, Hash)]
pub enum Manner {
    Stop,
    Fricative,
    Affricate,
    Nasal,
    Liquid,
    Glide,
}

/// Where a consonant is articulated.
#[derive(Debug, Clone, Copy, PartialEq, Eq, Hash)]
pub enum Place {
    Bilabial,
    Labiodental,
    Dental,
    Alveolar,
    Postalveolar,
    Palatal,
    Velar,
    Glottal,
}

/// Whether a consonant is voiced.
#[derive(Debug, Clone, Copy, PartialEq, Eq, Hash)]
pub enum Voicing {
    Voiced,
    Voiceless,
}

/// How high the tongue stands in a vowel.
#[derive(Debug, Clone, Copy, PartialEq, Eq, Hash)]
pub enum Height {
    High,
    Mid,
    Low,
}

/// How far back the tongue stands in a vowel.
#[derive(Debug, Clone, Copy, PartialEq, Eq, Hash)]
pub enum Backness {
    Front,
    Central,
    Back,
}

/// The features of a phoneme: those of a vowel, those of a consonant, or none.
#[derive(Debug, Clone, Copy, PartialEq, Eq, Hash)]
pub struct PhonemeFeatures {
    pub phoneme_type: PhonemeType,
    pub manner: Option<Manner>,
    pub place: Option<Place>,
    pub voicing: Option<Voicing>,
    pub height: Option<Height>,
    pub backness: Option<Backness>,
}

/// One phonetic unit. `symbol` is the base symbol without its stress digit.
#[derive(Debug, Clone, PartialEq, Eq, Hash)]
pub struct Phoneme {
    pub symbol: String,
    pub stress: StressLevel,
    pub features: PhonemeFeatures,
}

/// A phoneme as a mathematical value.
pub struct PhonemeView {
    pub symbol: Seq<char>,
    pub stress: StressLevel,
    pub features: PhonemeFeatures,
}

impl View for Phoneme {
    type V = PhonemeView;

    open spec fn view(&self) -> PhonemeView {
        PhonemeView { symbol: self.symbol@, stress: self.stress, features: self.features }
    }
}

/// The features of a vowel.
pub open spec fn vowel_features(height: Height, backness: Backness) -> PhonemeFeatures {
    PhonemeFeatures {
        phoneme_type: PhonemeType::Vowel,
        manner: None,
        place: None,
        voicing: None,
        height: Some(height),
        backness: Some(backness),
    }
}

/// The features of a consonant.
pub open spec fn consonant_features(manner: Manner, place: Place, voicing: Voicing)
    -> PhonemeFeatures {
    PhonemeFeatures {
        phoneme_type: PhonemeType::Consonant,
        manner: Some(manner),
        place: Some(place),
        voicing: Some(voicing),
        height: None,
        backness: None,
    }
}

/// The features of a symbol that is neither vowel nor consonant: none.
pub open spec fn special_features() -> PhonemeFeatures {
    PhonemeFeatures {
        phoneme_type: PhonemeType::Special,
        manner: None,
        place: None,
        voicing: None,
        height: None,
        backness: None,
    }
}

/// The features of the symbols of one upper-case letter.
pub open spec fn one_letter_features(c: char) -> PhonemeFeatures {
    match c {
        'B' => consonant_features(Manner::Stop, Place::Bilabial, Voicing::Voiced),
        'D' => consonant_features(Manner::Stop, Place::Alveolar, Voicing::Voiced),
        'F' => consonant_features(Manner::Fricative, Place::Labiodental, Voicing::Voiceless),
        'G' => consonant_features(Manner::Stop, Place::Velar, Voicing::Voiced),
        'K' => consonant_features(Manner::Stop, Place::Velar, Voicing::Voiceless),
        'L' => consonant_features(Manner::Liquid, Place::Alveolar, Voicing::Voiced),
        'M' => consonant_features(Manner::Nasal, Place::Bilabial, Voicing::Voiced),
        'N' => consonant_features(Manner::Nasal, Place::Alveolar, Voicing::Voiced),
        'P' => consonant_features(Manner::Stop, Place::Bilabial, Voicing::Voiceless),
        'R' => consonant_features(Manner::Liquid, Place::Alveolar, Voicing::Voiced),
        'S' => consonant_features(Manner::Fricative, Place::Alveolar, Voicing::Voiceless),
        'T' => consonant_features(Manner::Stop, Place::Alveolar, Voicing::Voiceless),
        'V' => consonant_features(Manner::Fricative, Place::Labiodental, Voicing::Voiced),
        'W' => consonant_features(Manner::Glide, Place::Bilabial, Voicing::Voiced),
        'Y' => consonant_features(Manner::Glide, Place::Palatal, Voicing::Voiced),
        'Z' => consonant_features(Manner::Fricative, Place::Alveolar, Voicing::Voiced),
        _ => special_features(),
    }
}

/// The features of the symbols of two upper-case letters.
pub open spec fn two_letter_features(a: char, b: char) -> PhonemeFeatures {
    match (a, b) {
        ('A', 'A') => vowel_features(Height::Low, Backness::Back),
        ('A', 'E') => vowel_features(Height::Low, Backness::Front),
        ('A', 'H') => vowel_features(Height::Mid, Backness::Central),
        ('A', 'O') => vowel_features(Height::Mid, Backness::Back),
        ('A', 'W') => vowel_features(Height::Low, Backness::Central),
        ('A', 'Y') => vowel_features(Height::Low, Backness::Central),
        ('E', 'H') => vowel_features(Height::Mid, Backness::Front),
        ('E', 'R') => vowel_features(Height::Mid, Backness::Central),
        ('E', 'Y') => vowel_features(Height::Mid, Backness::Front),
        ('I', 'H') => vowel_features(Height::High, Backness::Front),
        ('I', 'Y') => vowel_features(Height::High, Backness::Front),
        ('O', 'W') => vowel_features(Height::Mid, Backness::Back),
        ('O', 'Y') => vowel_features(Height::Mid, Backness::Back),
        ('U', 'H') => vowel_features(Height::High, Backness::Back),
        ('U', 'W') => vowel_features(Height::High, Backness::Back),
        ('C', 'H') => consonant_features(Manner::Affricate, Place::Postalveolar, Voicing::Voiceless),
        ('D', 'H') => consonant_features(Manner::Fricative, Place::Dental, Voicing::Voiced),
        ('H', 'H') => consonant_features(Manner::Fricative, Place::Glottal, Voicing::Voiceless),
        ('J', 'H') => consonant_features(Manner::Affricate, Place::Postalveolar, Voicing::Voiced),
        ('N', 'G') => consonant_features(Manner::Nasal, Place::Velar, Voicing::Voiced),
        ('S', 'H') => consonant_features(Manner::Fricative, Place::Postalveolar, Voicing::Voiceless),
        ('T', 'H') => consonant_features(Manner::Fricative, Place::Dental, Voicing::Voiceless),
        ('Z', 'H') => consonant_features(Manner::Fricative, Place::Postalveolar, Voicing::Voiced),
        _ => special_features(),
    }
}

/// The feature bundle of a base symbol. The table is keyed by the symbol in
/// ASCII upper case; a symbol outside it is `Special` and has no features.
pub open spec fn features_of(base: Seq<char>) -> PhonemeFeatures {
    if base.len() == 1 {
        one_letter_features(to_upper(base[0]))
    } else if base.len() == 2 {
        two_letter_features(to_upper(base[0]), to_upper(base[1]))
    } else {
        special_features()
    }
}

/// Whether a base symbol, in either case, is one of the 39 of the inventory.
pub open spec fn in_inventory(base: Seq<char>) -> bool {
    features_of(base).phoneme_type != PhonemeType::Special
}

/// The digits that encode a stress level.
pub open spec fn stress_digit(c: char) -> bool {
    c == '0' || c == '1' || c == '2'
}

/// The stress level that a raw symbol encodes: by its trailing digit, and
/// unstressed without one.
pub open spec fn stress_of(raw: Seq<char>) -> StressLevel {
    if raw.len() > 0 && raw.last() == '1' {
        StressLevel::Primary
    } else if raw.len() > 0 && raw.last() == '2' {
        StressLevel::Secondary
    } else {
        StressLevel::Unstressed
    }
}

/// A raw symbol without its trailing stress digit.
pub open spec fn base_of(raw: Seq<char>) -> Seq<char> {
    if raw.len() > 0 && stress_digit(raw.last()) {
        raw.drop_last()
    } else {
        raw
    }
}

/// The phoneme that a raw symbol denotes.
pub open spec fn phoneme_of(raw: Seq<char>) -> PhonemeView {
    PhonemeView {
        symbol: base_of(raw),
        stress: stress_of(raw),
        features: features_of(base_of(raw)),
    }
}

/// The phonemes that a sequence of raw symbols denotes.
pub open spec fn phonemes_of(raws: Seq<Seq<char>>) -> Seq<PhonemeView> {
    Seq::new(raws.len(), |i: int| phoneme_of(raws[i]))
}

/// The sentinel that separates the words of a converted text.
pub open spec fn boundary() -> PhonemeView {
    PhonemeView {
        symbol: seq![' '],
        stress: StressLevel::Unstressed,
        features: special_features(),
    }
}

/// The digit that encodes a stress level.
pub open spec fn stress_char(stress: StressLevel) -> char {
    match stress {
        StressLevel::Primary => '1',
        StressLevel::Secondary => '2',
        StressLevel::Unstressed => '0',
    }
}

/// The written form of a phoneme: the symbol followed by its stress digit,
/// and a single blank for the boundary sentinel.
pub open spec fn rendered(p: PhonemeView) -> Seq<char> {
    if p.symbol == seq![' '] {
        seq![' ']
    } else {
        p.symbol.push(stress_char(p.stress))
    }
}

impl PhonemeFeatures {
    /// A vowel has height and backness and nothing else, a consonant has
    /// manner, place and voicing and nothing else, and a special symbol has
    /// no feature at all.
    pub open spec fn well_formed(self) -> bool {
        match self.phoneme_type {
            PhonemeType::Vowel => self.height is Some && self.backness is Some && self.manner is None
                && self.place is None && self.voicing is None,
            PhonemeType::Consonant => self.manner is Some && self.place is Some
                && self.voicing is Some && self.height is None && self.backness is None,
            PhonemeType::Special => self == special_features(),
        }
    }

    /// The features of a vowel.
    pub fn vowel(height: Height, backness: Backness) -> (r: Self)
        ensures
            r == vowel_features(height, backness),
    {
        PhonemeFeatures {
            phoneme_type: PhonemeType::Vowel,
            manner: None,
            place: None,
            voicing: None,
            height: Some(height),
            backness: Some(backness),
        }
    }

    /// The features of a consonant.
    pub fn consonant(manner: Manner, place: Place, voicing: Voicing) -> (r: Self)
        ensures
            r == consonant_features(manner, place, voicing),
    {
        PhonemeFeatures {
            phoneme_type: PhonemeType::Consonant,
            manner: Some(manner),
            place: Some(place),
            voicing: Some(voicing),
            height: None,
            backness: None,
        }
    }

    /// The features of a symbol that is neither vowel nor consonant: none.
    pub fn special() -> (r: Self)
        ensures
            r == special_features(),
    {
        PhonemeFeatures {
            phoneme_type: PhonemeType::Special,
            manner: None,
            place: None,
            voicing: None,
            height: None,
            backness: None,
        }
    }
}

fn one_letter(c: char) -> (r: PhonemeFeatures)
    ensures
        r == one_letter_features(c),
{
    match c {
        'B' => PhonemeFeatures::consonant(Manner::Stop, Place::Bilabial, Voicing::Voiced),
        'D' => PhonemeFeatures::consonant(Manner::Stop, Place::Alveolar, Voicing::Voiced),
        'F' => PhonemeFeatures::consonant(Manner::Fricative, Place::Labiodental, Voicing::Voiceless),
        'G' => PhonemeFeatures::consonant(Manner::Stop, Place::Velar, Voicing::Voiced),
        'K' => PhonemeFeatures::consonant(Manner::Stop, Place::Velar, Voicing::Voiceless),
        'L' => PhonemeFeatures::consonant(Manner::Liquid, Place::Alveolar, Voicing::Voiced),
        'M' => PhonemeFeatures::consonant(Manner::Nasal, Place::Bilabial, Voicing::Voiced),
        'N' => PhonemeFeatures::consonant(Manner::Nasal, Place::Alveolar, Voicing::Voiced),
        'P' => PhonemeFeatures::consonant(Manner::Stop, Place::Bilabial, Voicing::Voiceless),
        'R' => PhonemeFeatures::consonant(Manner::Liquid, Place::Alveolar, Voicing::Voiced),
        'S' => PhonemeFeatures::consonant(Manner::Fricative, Place::Alveolar, Voicing::Voiceless),
        'T' => PhonemeFeatures::consonant(Manner::Stop, Place::Alveolar, Voicing::Voiceless),
        'V' => PhonemeFeatures::consonant(Manner::Fricative, Place::Labiodental, Voicing::Voiced),
        'W' => PhonemeFeatures::consonant(Manner::Glide, Place::Bilabial, Voicing::Voiced),
        'Y' => PhonemeFeatures::consonant(Manner::Glide, Place::Palatal, Voicing::Voiced),
        'Z' => PhonemeFeatures::consonant(Manner::Fricative, Place::Alveolar, Voicing::Voiced),
        _ => PhonemeFeatures::special(),
    }
}

fn two_letters(a: char, b: char) -> (r: PhonemeFeatures)
    ensures
        r == two_letter_features(a, b),
{
    match (a, b) {
        ('A', 'A') => PhonemeFeatures::vowel(Height::Low, Backness::Back),
        ('A', 'E') => PhonemeFeatures::vowel(Height::Low, Backness::Front),
        ('A', 'H') => PhonemeFeatures::vowel(Height::Mid, Backness::Central),
        ('A', 'O') => PhonemeFeatures::vowel(Height::Mid, Backness::Back),
        ('A', 'W') => PhonemeFeatures::vowel(Height::Low, Backness::Central),
        ('A', 'Y') => PhonemeFeatures::vowel(Height::Low, Backness::Central),
        ('E', 'H') => PhonemeFeatures::vowel(Height::Mid, Backness::Front),
        ('E', 'R') => PhonemeFeatures::vowel(Height::Mid, Backness::Central),
        ('E', 'Y') => PhonemeFeatures::vowel(Height::Mid, Backness::Front),
        ('I', 'H') => PhonemeFeatures::vowel(Height::High, Backness::Front),
        ('I', 'Y') => PhonemeFeatures::vowel(Height::High, Backness::Front),
        ('O', 'W') => PhonemeFeatures::vowel(Height::Mid, Backness::Back),
        ('O', 'Y') => PhonemeFeatures::vowel(Height::Mid, Backness::Back),
        ('U', 'H') => PhonemeFeatures::vowel(Height::High, Backness::Back),
        ('U', 'W') => PhonemeFeatures::vowel(Height::High, Backness::Back),
        ('C', 'H') => PhonemeFeatures::consonant(
            Manner::Affricate,
            Place::Postalveolar,
            Voicing::Voiceless,
        ),
        ('D', 'H') => PhonemeFeatures::consonant(Manner::Fricative, Place::Dental, Voicing::Voiced),
        ('H', 'H') => PhonemeFeatures::consonant(
            Manner::Fricative,
            Place::Glottal,
            Voicing::Voiceless,
        ),
        ('J', 'H') => PhonemeFeatures::consonant(
            Manner::Affricate,
            Place::Postalveolar,
            Voicing::Voiced,
        ),
        ('N', 'G') => PhonemeFeatures::consonant(Manner::Nasal, Place::Velar, Voicing::Voiced),
        ('S', 'H') => PhonemeFeatures::consonant(
            Manner::Fricative,
            Place::Postalveolar,
            Voicing::Voiceless,
        ),
        ('T', 'H') => PhonemeFeatures::consonant(
            Manner::Fricative,
            Place::Dental,
            Voicing::Voiceless,
        ),
        ('Z', 'H') => PhonemeFeatures::consonant(
            Manner::Fricative,
            Place::Postalveolar,
            Voicing::Voiced,
        ),
        _ => PhonemeFeatures::special(),
    }
}

impl Phoneme {
    /// The phoneme that a raw symbol denotes. A trailing `0`, `1` or `2` is
    /// its stress; the rest is the base symbol, whose features come from the
    /// fixed table. Never fails: an unknown symbol is `Special`.
    pub fn from_arpabet(symbol: &str) -> (r: Self)
        ensures
            r@ == phoneme_of(symbol@),
            r.features.well_formed(),
    {
        let raw = chars_of(symbol);
        Self::from_chars(&raw)
    }

    /// `from_arpabet` for a symbol held as characters.
    pub fn from_chars(raw: &Vec<char>) -> (r: Self)
        ensures
            r@ == phoneme_of(raw@),
            r.features.well_formed(),
    {
        let (base, stress) = Self::parse_stress(raw);
        let features = Self::get_arpabet_features(&base);
        Phoneme { symbol: string_of(&base), stress, features }
    }

    /// The sentinel that separates the words of a converted text.
    pub fn word_boundary() -> (r: Self)
        ensures
            r@ == boundary(),
    {
        let mut symbol = String::new();
        symbol.push(' ');
        assert(symbol@ =~= seq![' ']);
        Phoneme {
            symbol,
            stress: StressLevel::Unstressed,
            features: PhonemeFeatures::special(),
        }
    }

    /// Splits a raw symbol into its base and its stress level.
    pub fn parse_stress(raw: &Vec<char>) -> (r: (Vec<char>, StressLevel))
        ensures
            r.0@ == base_of(raw@),
            r.1 == stress_of(raw@),
    {
        let n: usize = raw.len();
        if n == 0 {
            return (slice_of(raw, 0, 0), StressLevel::Unstressed);
        }
        let last: char = raw[n - 1];
        if last == '0' {
            (slice_of(raw, 0, n - 1), StressLevel::Unstressed)
        } else if last == '1' {
            (slice_of(raw, 0, n - 1), StressLevel::Primary)
        } else if last == '2' {
            (slice_of(raw, 0, n - 1), StressLevel::Secondary)
        } else {
            let whole = slice_of(raw, 0, n);
            assert(whole@ =~= raw@);
            (whole, StressLevel::Unstressed)
        }
    }

    /// The feature bundle of a base symbol.
    pub fn get_arpabet_features(base: &Vec<char>) -> (r: PhonemeFeatures)
        ensures
            r == features_of(base@),
            r.well_formed(),
    {
        if base.len() == 1 {
            one_letter(upper_char(base[0]))
        } else if base.len() == 2 {
            two_letters(upper_char(base[0]), upper_char(base[1]))
        } else {
            PhonemeFeatures::special()
        }
    }

    /// Whether the phoneme is a vowel.
    pub fn is_vowel(&self) -> (r: bool)
        ensures
            r == (self@.features.phoneme_type is Vowel),
    {
        match self.features.phoneme_type {
            PhonemeType::Vowel => true,
            _ => false,
        }
    }

    /// Whether the phoneme is a consonant.
    pub fn is_consonant(&self) -> (r: bool)
        ensures
            r == (self@.features.phoneme_type is Consonant),
    {
        match self.features.phoneme_type {
            PhonemeType::Consonant => true,
            _ => false,
        }
    }

    /// The written form: the symbol followed by its stress digit, and a
    /// single blank for the boundary sentinel.
    pub fn render(&self) -> (r: String)
        ensures
            r@ == rendered(self@),
    {
        let symbol = chars_of(self.symbol.as_str());
        if symbol.len() == 1 && symbol[0] == ' ' {
            assert(symbol@ =~= seq![' ']);
            string_of(&symbol)
        } else {
            let mark: char = match self.stress {
                StressLevel::Primary => '1',
                StressLevel::Secondary => '2',
                StressLevel::Unstressed => '0',
            };
            let mut out = string_of(&symbol);
            out.push(mark);
            out
        }
    }

    /// A phoneme with the same symbol, stress and features.
    pub fn duplicate(&self) -> (r: Self)
        ensures
            r@ == self@,
    {
        Phoneme { symbol: self.symbol.clone(), stress: self.stress, features: self.features }
    }
}

/// A copy of a pronunciation.
pub fn duplicate_all(v: &Vec<Phoneme>) -> (r: Vec<Phoneme>)
    ensures
        views(r@) == views(v@),
{
    let mut r: Vec<Phoneme> = Vec::new();
    let mut i: usize = 0;
    while i < v.len()
        invariant
            i <= v.len(),
            r.len() == i,
            forall|j: int| 0 <= j < i ==> r[j]@ == v[j]@,
        decreases v.len() - i,
    {
        r.push(v[i].duplicate());
        i += 1;
    }
    assert(views(r@) =~= views(v@));
    r
}

/// The phonemes that a sequence of raw symbols denotes.
pub fn phonemes_from(raws: &Vec<String>) -> (r: Vec<Phoneme>)
    ensures
        views(r@) == phonemes_of(views(raws@)),
{
    let mut r: Vec<Phoneme> = Vec::new();
    let mut i: usize = 0;
    while i < raws.len()
        invariant
            i <= raws.len(),
            r.len() == i,
            forall|j: int| 0 <= j < i ==> r[j]@ == phoneme_of(raws[j]@),
        decreases raws.len() - i,
    {
        r.push(Phoneme::from_arpabet(raws[i].as_str()));
        i += 1;
    }
    assert(views(r@) =~= phonemes_of(views(raws@)));
    r
}

/// Every entry of the feature table is well formed.
pub proof fn lemma_features_well_formed(base: Seq<char>)
    ensures
        features_of(base).well_formed(),
{
}

/// The blank is no symbol of the inventory, so no phoneme of the inventory is
/// the boundary sentinel.
pub proof fn lemma_inventory_excludes_blank(base: Seq<char>)
    requires
        in_inventory(base),
    ensures
        base != seq![' '],
{
    if base == seq![' '] {
        assert(base.len() == 1);
        assert(base[0] == ' ');
    }
}

/// Writing out the phoneme built from a raw symbol that ends in a stress
/// digit gives the raw symbol back, unless its base is the blank.
pub proof fn lemma_render_of_stressed_symbol(base: Seq<char>, digit: char)
    requires
        stress_digit(digit),
        base != seq![' '],
    ensures
        rendered(phoneme_of(base.push(digit))) == base.push(digit),
{
    let raw = base.push(digit);
    assert(raw.last() == digit);
    assert(raw.drop_last() =~= base);
}

/// Construction followed by rendering is the identity on every symbol of the
/// inventory that carries a stress digit.
pub proof fn lemma_render_inverts_construct(base: Seq<char>, digit: char)
    requires
        in_inventory(base),
        stress_digit(digit),
    ensures
        rendered(phoneme_of(base.push(digit))) == base.push(digit),
{
    lemma_inventory_excludes_blank(base);
    lemma_render_of_stressed_symbol(base, digit);
}

/// Whether the boundary marker is none of the phonemes.
pub open spec fn unmarked(s: Seq<PhonemeView>) -> bool {
    !s.contains(boundary())
}

/// A raw symbol without white space does not denote the boundary marker.
pub proof fn lemma_spaceless_symbol_is_no_boundary(raw: Seq<char>)
    requires
        forall|j: int| 0 <= j < raw.len() ==> !space(#[trigger] raw[j]),
    ensures
        phoneme_of(raw) != boundary(),
{
    let base = base_of(raw);
    if base == seq![' '] {
        assert(base[0] == ' ');
        assert(raw[0] == ' ');
    }
}

/// A raw symbol of the inventory does not denote the boundary marker.
pub proof fn lemma_inventory_symbol_is_no_boundary(raw: Seq<char>)
    requires
        in_inventory(base_of(raw)),
    ensures
        phoneme_of(raw) != boundary(),
{
    lemma_inventory_excludes_blank(base_of(raw));
}

/// Raw symbols without white space denote no boundary marker.
pub proof fn lemma_spaceless_symbols_are_unmarked(raws: Seq<Seq<char>>)
    requires
        forall|i: int, j: int|
            0 <= i < raws.len() && 0 <= j < raws[i].len() ==> !space(#[trigger] raws[i][j]),
    ensures
        unmarked(phonemes_of(raws)),
{
    let all = phonemes_of(raws);
    if all.contains(boundary()) {
        let i = all.index_of(boundary());
        assert(all[i] == phoneme_of(raws[i]));
        lemma_spaceless_symbol_is_no_boundary(raws[i]);
    }
}

} // verus!
