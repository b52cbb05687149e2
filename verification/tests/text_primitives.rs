use rust_g2p::chars::{
    byte_len, chars_of, find_in, is_ascii, is_ascii_digit, is_ascii_letter, is_ascii_space,
    is_space, lower_char, replace_all, same_chars, slice_of, spells, split_lines, split_on,
    split_words, starts_with, string_of, trim, upper_char,
};
use rust_g2p::wordmap::{order_of, Order, WordMap};

fn chars(s: &str) -> Vec<char> {
    s.chars().collect()
}

fn texts(v: Vec<Vec<char>>) -> Vec<String> {
    v.iter().map(|x| x.iter().collect()).collect()
}

#[test]
fn strings_and_characters_convert() {
    assert_eq!(chars_of("h\u{e9}llo"), chars("h\u{e9}llo"));
    assert_eq!(string_of(&chars("h\u{e9}llo")), "h\u{e9}llo");
    assert_eq!(byte_len(&chars("a\u{e9}\u{20ac}\u{1f600}")), 10);
    assert_eq!(lower_char('Q'), 'q');
    assert_eq!(lower_char('\u{c9}'), '\u{c9}');
    assert_eq!(upper_char('q'), 'Q');
    assert_eq!(upper_char('1'), '1');
}

#[test]
fn white_space_is_the_unicode_set() {
    for c in [' ', '\t', '\n', '\u{b}', '\u{c}', '\r', '\u{85}', '\u{a0}', '\u{1680}', '\u{2000}', '\u{200a}', '\u{2028}', '\u{2029}', '\u{202f}', '\u{205f}', '\u{3000}'] {
        assert!(is_space(c), "{:?}", c);
    }
    for code in 0..=0x10ffffu32 {
        if let Some(c) = char::from_u32(code) {
            assert_eq!(is_space(c), c.is_whitespace(), "{:?}", c);
        }
    }
}

#[test]
fn character_classes_follow_the_standard_library() {
    for code in 0..=0x10ffffu32 {
        if let Some(c) = char::from_u32(code) {
            assert_eq!(is_ascii(c), c.is_ascii());
            assert_eq!(is_ascii_letter(c), c.is_ascii_alphabetic());
            assert_eq!(is_ascii_digit(c), c.is_ascii_digit());
            assert_eq!(is_ascii_space(c), c.is_ascii_whitespace());
            assert_eq!(lower_char(c), c.to_ascii_lowercase());
            assert_eq!(upper_char(c), c.to_ascii_uppercase());
            assert_eq!(byte_len(&vec![c]), c.len_utf8());
        }
    }
}

#[test]
fn slices_and_comparisons() {
    let v = chars("hello");
    assert_eq!(slice_of(&v, 1, 3), chars("el"));
    assert_eq!(slice_of(&v, 2, 2), chars(""));
    assert_eq!(slice_of(&v, 0, 5), v);
    assert!(same_chars(&v, &chars("hello")) && !same_chars(&v, &chars("hellO")));
    assert!(!same_chars(&v, &chars("hell")));
    assert!(spells(&v, "hello") && !spells(&v, "help"));
    for s in ["", "abc", "h\u{e9}llo", "\u{20ac}\u{1f600}"] {
        assert_eq!(byte_len(&chars(s)), s.len());
    }
}

#[test]
fn trimming_and_splitting_follow_the_standard_library() {
    for s in ["", " ", "a", "  a b  ", "\u{a0}x\u{3000}", "a\n\nb\r\nc\r", "\n", "\r\n", "a|b||c|", "|", "x\ty  z"] {
        assert_eq!(string_of(&trim(&chars(s))), s.trim());
        assert_eq!(texts(split_words(&chars(s))), s.split_whitespace().collect::<Vec<_>>());
        assert_eq!(texts(split_lines(&chars(s))), s.lines().collect::<Vec<_>>());
        assert_eq!(texts(split_on(&chars(s), '|')), s.split('|').collect::<Vec<_>>());
    }
}

#[test]
fn finding_and_replacing_follow_the_standard_library() {
    for (s, p, r) in [("aaa", "aa", "b"), ("dr. dr.", "dr.", "doctor"), ("abc", "x", "y"), ("", "a", "b"), ("abab", "ab", "")] {
        assert_eq!(string_of(&replace_all(&chars(s), &chars(p), &chars(r))), s.replace(p, r));
        assert_eq!(find_in(&chars(s), &chars(p)), s.find(p));
        assert_eq!(starts_with(&chars(s), &chars(p)), s.starts_with(p));
    }
    assert_eq!(replace_all(&chars("abc"), &chars(""), &chars("-")), chars("abc"));
}

#[test]
fn words_are_ordered_as_strings_are() {
    let samples = ["", "a", "ab", "b", "B", "a'", "\u{e9}", "zz", "z"];
    for a in samples {
        for b in samples {
            let expected = match a.cmp(b) {
                std::cmp::Ordering::Less => Order::Before,
                std::cmp::Ordering::Equal => Order::Same,
                std::cmp::Ordering::Greater => Order::After,
            };
            assert_eq!(order_of(&chars(a), &chars(b)), expected, "{:?} {:?}", a, b);
        }
    }
}

#[test]
fn word_map_keeps_the_last_value() {
    let mut m: WordMap<u32> = WordMap::new();
    assert_eq!(m.len(), 0);
    for (i, w) in ["pear", "apple", "fig", "apple", "date"].iter().enumerate() {
        m.insert(chars(w), i as u32);
    }
    assert_eq!(m.len(), 4);
    assert_eq!(m.get(&chars("apple")), Some(&3));
    assert_eq!(m.get(&chars("pear")), Some(&0));
    assert_eq!(m.get(&chars("plum")), None);
    assert!(m.contains_key(&chars("fig")) && !m.contains_key(&chars("")));
    assert_eq!(m.key_at(0), &chars("apple"));
    assert_eq!(m.key_at(3), &chars("pear"));
}
