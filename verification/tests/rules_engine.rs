use rust_g2p::phoneme::Phoneme;
use rust_g2p::rules::{Rule, RuleCondition, RulesEngine};
use rust_g2p::G2PError;

fn chars(s: &str) -> Vec<char> {
    s.chars().collect()
}

fn said(engine: &RulesEngine, word: &str) -> Vec<String> {
    engine.apply_rules(word).unwrap().iter().map(|p| p.render()).collect()
}

fn engine(source: &str) -> RulesEngine {
    RulesEngine::from_text(source).expect("a rule source with directives")
}

#[test]
fn word_start_rule_fires_on_knife() {
    let e = engine("kn|START||N|10\n");
    assert_eq!(said(&e, "knife"), vec!["N0", "IH0", "F0", "EH0"]);
    assert_eq!(e.apply_rules("knife").unwrap()[0], Phoneme::from_arpabet("N"));
    let by_condition = engine("kn|||N|10|word_start\n");
    assert_eq!(said(&by_condition, "knife"), vec!["N0", "IH0", "F0", "EH0"]);
    assert_eq!(said(&by_condition, "akn"), vec!["AE0", "K0", "N0"]);
}

#[test]
fn fallback_covers_the_alphabet() {
    let e = engine("zz|||Z|1\n");
    assert_eq!(
        said(&e, "abcdefghijklmnopqrstuvwxy"),
        vec![
            "AE0", "B0", "K0", "D0", "EH0", "F0", "G0", "HH0", "IH0", "JH0", "K0", "L0", "M0",
            "N0", "OW0", "P0", "K0", "R0", "S0", "T0", "UH0", "V0", "W0", "K0", "Y0"
        ]
    );
    assert_eq!(said(&e, "z"), vec!["Z0"]);
    assert_eq!(said(&e, "ZZ"), vec!["Z0", "Z0"]);
    assert_eq!(said(&e, "zz"), vec!["Z0"]);
}

#[test]
fn characters_without_fallback_emit_nothing() {
    let e = engine("zz|||Z|1\n");
    assert!(said(&e, "").is_empty());
    assert!(said(&e, "123-é").is_empty());
    assert_eq!(said(&e, "a1b"), vec!["AE0", "B0"]);
}

#[test]
fn irregular_words_override_rules() {
    let e = engine("ya|||Y EY1|9\ncht|||K T|9\nIRREGULAR|yacht|Y AA1 T\n");
    assert_eq!(said(&e, "yacht"), vec!["Y0", "AA1", "T0"]);
    assert_eq!(said(&e, "YACHT"), vec!["Y0", "AA1", "T0"]);
    assert_eq!(said(&e, "yachts"), vec!["Y0", "EY1", "K0", "T0", "S0"]);
    assert_eq!(e.rule_count(), 2);
    assert_eq!(e.irregular_count(), 1);
}

#[test]
fn higher_priority_wins_whatever_the_order() {
    let e = engine("a|||AE1|5\na|||AA1|9\n");
    assert_eq!(said(&e, "a"), vec!["AA1"]);
    let e = engine("a|||AA1|9\na|||AE1|5\n");
    assert_eq!(said(&e, "a"), vec!["AA1"]);
}

#[test]
fn equal_priorities_go_by_source_order() {
    let e = engine("a|||AE1|5\na|||AA1|5\n");
    assert_eq!(said(&e, "a"), vec!["AE1"]);
    let e = engine("a|||AA1|5\na|||AE1|5\n");
    assert_eq!(said(&e, "a"), vec!["AA1"]);
}

#[test]
fn word_final_rule_and_plain_rule_of_one_priority() {
    let specific_first = engine("gh||END|F|5\ngh|||G|5\n");
    assert_eq!(said(&specific_first, "laugh"), vec!["L0", "AE0", "UH0", "F0"]);
    assert_eq!(said(&specific_first, "ghost"), vec!["G0", "OW0", "S0", "T0"]);
    let plain_first = engine("gh|||G|5\ngh||END|F|5\n");
    assert_eq!(said(&plain_first, "laugh"), vec!["L0", "AE0", "UH0", "G0"]);
}

#[test]
fn longer_pattern_needs_its_priority() {
    let e = engine("s|||S\nsh|||SH\n");
    assert_eq!(said(&e, "ship"), vec!["SH0", "IH0", "P0"]);
    let e = engine("s|||S|7\nsh|||SH|3\n");
    assert_eq!(said(&e, "ship"), vec!["S0", "HH0", "IH0", "P0"]);
}

#[test]
fn a_rule_of_priority_zero_can_fire() {
    let e = engine("x|||K S|0\n");
    assert_eq!(said(&e, "box"), vec!["B0", "OW0", "K0", "S0"]);
}

#[test]
fn silent_rules_emit_nothing() {
    let e = engine("e||END|SILENT|3\n");
    assert_eq!(said(&e, "cake"), vec!["K0", "AE0", "K0"]);
    assert!(said(&e, "e").is_empty());
    assert_eq!(said(&e, "eel"), vec!["EH0", "EH0", "L0"]);
}

#[test]
fn contexts_are_literal_or_sentinel() {
    let e = engine("c||e|S|5\nc|s||SILENT|6\ng|START||JH|5\n");
    assert_eq!(said(&e, "cell"), vec!["S0", "EH0", "L0", "L0"]);
    assert_eq!(said(&e, "call"), vec!["K0", "AE0", "L0", "L0"]);
    assert_eq!(said(&e, "scent"), vec!["S0", "EH0", "N0", "T0"]);
    assert_eq!(said(&e, "gag"), vec!["JH0", "AE0", "G0"]);
    assert_eq!(said(&e, "c"), vec!["K0"]);
}

#[test]
fn conditions_hold_at_the_pattern_start() {
    let e = engine(
        "s|||Z|5|after_vowel,before_vowel\ny|||IY0|5|word_end\nt|||D|5|VOWEL_AFTER, stressed ,bogus\n",
    );
    assert_eq!(said(&e, "rosa"), vec!["R0", "OW0", "Z0", "AE0"]);
    assert_eq!(said(&e, "rest"), vec!["R0", "EH0", "S0", "T0"]);
    assert_eq!(said(&e, "sa"), vec!["S0", "AE0"]);
    assert_eq!(said(&e, "yay"), vec!["Y0", "AE0", "IY0"]);
    assert_eq!(said(&e, "at"), vec!["AE0", "D0"]);
    assert_eq!(said(&e, "ta"), vec!["T0", "AE0"]);
}

#[test]
fn upper_case_letters_are_not_indexed() {
    let e = engine("sh|||SH|5\n");
    assert_eq!(said(&e, "sh"), vec!["SH0"]);
    assert_eq!(said(&e, "Sh"), vec!["S0", "HH0"]);
    assert_eq!(said(&e, "sH"), vec!["SH0"]);
}

#[test]
fn patterns_match_in_either_case() {
    let rule = RulesEngine::parse_rule(&chars("K|||K|7")).unwrap();
    assert_eq!(RulesEngine::rule_matches(&rule, &chars("k"), 0), Some(7));
    assert_eq!(RulesEngine::rule_matches(&rule, &chars("K"), 0), Some(7));
    assert_eq!(RulesEngine::rule_matches(&rule, &chars("ak"), 0), None);
    assert_eq!(RulesEngine::rule_matches(&rule, &chars("ak"), 1), Some(7));
    assert_eq!(RulesEngine::rule_matches(&rule, &chars("ak"), 2), None);
    let mixed = RulesEngine::parse_rule(&chars("oUgH|||AO1 F|9")).unwrap();
    assert_eq!(RulesEngine::rule_matches(&mixed, &chars("tOuGh"), 1), Some(9));
    assert_eq!(RulesEngine::rule_matches(&mixed, &chars("tough"), 2), None);
    let e = engine("Sh|||SH|5\n");
    assert_eq!(said(&e, "Sh"), vec!["SH0"]);
    assert_eq!(said(&e, "SH"), vec!["SH0"]);
    assert_eq!(said(&e, "sh"), vec!["S0", "HH0"]);
}

#[test]
fn rule_lines_are_read_leniently() {
    let source = "# a comment\n= a heading\n\n  ph|||F|5  \nbad|line\nll|||L|x\nIRREGULAR|one\nIRREGULAR||W\nIRREGULAR|two|\nIRREGULAR| Two | T UW1 \n";
    let e = engine(source);
    assert_eq!(e.rule_count(), 2);
    assert_eq!(e.irregular_count(), 1);
    assert_eq!(said(&e, "two"), vec!["T0", "UW1"]);
    assert_eq!(said(&e, "phll"), vec!["F0", "L0"]);
}

#[test]
fn sources_without_directives_are_refused() {
    assert_eq!(RulesEngine::from_text("").err(), Some(G2PError::SourceEmpty));
    assert_eq!(RulesEngine::from_text("# nothing\n\n= here\na|b|c\n").err(), Some(G2PError::SourceEmpty));
    assert!(RulesEngine::from_text("IRREGULAR|a|AH0\n").is_ok());
}

#[test]
fn rules_are_parsed_field_by_field() {
    let rule: Rule = RulesEngine::parse_rule(&chars("ough|th|END|AO1 F|12|END,unstressed")).unwrap();
    assert_eq!(rule.pattern, "ough");
    assert_eq!(rule.left_context.as_deref(), Some("th"));
    assert_eq!(rule.right_context.as_deref(), Some("END"));
    assert_eq!(rule.phonemes, vec!["AO1", "F"]);
    assert_eq!(rule.priority, 12);
    assert_eq!(rule.conditions, vec![RuleCondition::WordEnd, RuleCondition::Unstressed]);
    let short = RulesEngine::parse_rule(&chars("\u{e9}t\u{e9}|||EY1 T EY1")).unwrap();
    assert_eq!(short.priority, 5);
    assert!(short.left_context.is_none() && short.right_context.is_none());
    assert!(short.conditions.is_empty());
    let silent = RulesEngine::parse_rule(&chars("gh|||SILENT||")).unwrap();
    assert!(silent.phonemes.is_empty());
    assert_eq!(silent.priority, 2);
    assert!(RulesEngine::parse_rule(&chars("a|b|c")).is_none());
}

#[test]
fn decimal_numbers() {
    assert_eq!(RulesEngine::parse_decimal(&chars("0")), Some(0));
    assert_eq!(RulesEngine::parse_decimal(&chars("007")), Some(7));
    assert_eq!(RulesEngine::parse_decimal(&chars("+42")), Some(42));
    assert_eq!(RulesEngine::parse_decimal(&chars(&usize::MAX.to_string())), Some(usize::MAX));
    assert_eq!(RulesEngine::parse_decimal(&chars("340282366920938463463374607431768211456")), None);
    for bad in ["", "+", "-1", "1 ", " 1", "1_000", "12a", "++1"] {
        assert_eq!(RulesEngine::parse_decimal(&chars(bad)), None, "{:?}", bad);
        assert_eq!(bad.parse::<usize>().ok(), None);
    }
}

#[test]
fn condition_names() {
    assert_eq!(
        RulesEngine::parse_conditions(&chars("START,END,VOWEL_BEFORE,VOWEL_AFTER")),
        vec![
            RuleCondition::WordStart,
            RuleCondition::WordEnd,
            RuleCondition::BeforeVowel,
            RuleCondition::AfterVowel
        ]
    );
    assert_eq!(
        RulesEngine::parse_conditions(&chars(" word_start , word_end,before_vowel,after_vowel,stressed,unstressed")),
        vec![
            RuleCondition::WordStart,
            RuleCondition::WordEnd,
            RuleCondition::BeforeVowel,
            RuleCondition::AfterVowel,
            RuleCondition::Stressed,
            RuleCondition::Unstressed
        ]
    );
    assert!(RulesEngine::parse_conditions(&chars("Start,,word-start")).is_empty());
}

#[test]
fn matching_is_checked_piece_by_piece() {
    let word = chars("Other");
    assert!(RulesEngine::check_right_context("END", &word, 5));
    assert!(!RulesEngine::check_right_context("END", &word, 4));
    assert!(RulesEngine::check_right_context("er", &word, 3));
    assert!(!RulesEngine::check_right_context("er", &word, 4));
    assert!(RulesEngine::check_left_context("START", &word, 0));
    assert!(!RulesEngine::check_left_context("START", &word, 1));
    assert!(RulesEngine::check_left_context("ot", &word, 2));
    assert!(!RulesEngine::check_left_context("Ot", &word, 2));
    assert!(!RulesEngine::check_left_context("ot", &word, 1));
    assert!(RulesEngine::check_condition(&RuleCondition::WordEnd, &word, 4));
    assert!(!RulesEngine::check_condition(&RuleCondition::WordEnd, &word, 3));
    assert!(RulesEngine::check_condition(&RuleCondition::AfterVowel, &word, 1));
    assert!(!RulesEngine::check_condition(&RuleCondition::AfterVowel, &word, 0));
    assert!(RulesEngine::check_condition(&RuleCondition::BeforeVowel, &word, 2));
    assert!(!RulesEngine::check_condition(&RuleCondition::BeforeVowel, &word, 4));
    assert!(RulesEngine::check_condition(&RuleCondition::Stressed, &word, 9));
    assert!(RulesEngine::is_vowel('Y') && RulesEngine::is_vowel('u') && !RulesEngine::is_vowel('w'));
    assert_eq!(RulesEngine::get_default_phoneme('Q'), Some("K"));
    assert_eq!(RulesEngine::get_default_phoneme('e'), Some("EH0"));
    assert_eq!(RulesEngine::get_default_phoneme('!'), None);
}

#[test]
fn applying_twice_gives_the_same() {
    let e = engine("kn|START||N|10\nph|||F|5\nIRREGULAR|yacht|Y AA1 T\n");
    for word in ["knife", "phone", "yacht", "", "x1y"] {
        assert_eq!(e.apply_rules(word).unwrap(), e.apply_rules(word).unwrap());
    }
}

#[test]
fn best_rule_is_the_first_that_fires() {
    let e = engine("a|||AA1|9\nab|||AE1 B|9\nb|||B|1\n");
    let word = chars("ab");
    assert_eq!(e.find_best_rule(&word, 0), Some(0));
    assert_eq!(e.find_best_rule(&word, 1), Some(2));
    assert_eq!(e.find_best_rule(&chars("xa"), 0), None);
}

#[test]
fn table_is_sorted_by_priority_and_stable() {
    let e = engine("a|||AE1|5\nb|||B|9\nc|||K\nd|||D|5\ne|||EH1|9\nIRREGULAR|x|K S\nf|||F|0\n");
    let order: Vec<(&str, usize)> =
        e.rules_in_order().iter().map(|r| (r.pattern.as_str(), r.priority)).collect();
    assert_eq!(order, vec![("b", 9), ("e", 9), ("a", 5), ("d", 5), ("c", 1), ("f", 0)]);
}

#[test]
fn scan_consumes_the_word_in_at_most_as_many_steps() {
    let e = engine("kn|START||N|10\nough|||AO1 F|8\ngh|||SILENT|5\ne||END|SILENT|3\n");
    for word in ["knife", "enough", "thought", "knee", "", "x-ray", "ghghgh"] {
        let letters = chars(word);
        let mut pos = 0;
        let mut steps = 0;
        let mut consumed = 0;
        while pos < letters.len() {
            let n = match e.find_best_rule(&letters, pos) {
                Some(k) => e.rules_in_order()[k].pattern.chars().count(),
                None => 1,
            };
            assert!(n >= 1);
            consumed += n;
            steps += 1;
            pos += n;
        }
        assert_eq!(consumed, letters.len());
        assert!(steps <= letters.len());
    }
    assert_eq!(said(&e, "enough"), vec!["EH0", "N0", "AO1", "F0"]);
    assert_eq!(said(&e, "knee"), vec!["N0", "EH0"]);
}
