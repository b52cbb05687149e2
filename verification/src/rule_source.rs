//! The rule source: a text with one directive per line.
//!
//! A general rule is written `pattern|left|right|symbols|priority|conditions`.
//! The contexts may be empty, the symbols are separated by white space or are
//! the word `SILENT`, and priority and conditions may be left out. An
//! irregular word is written `IRREGULAR|word|symbols`. Lines that start with
//! `#` or `=` are comments, and a line that is neither is passed over.

use crate::chars::{
    ascii_digit, byte_len, capped, chars_of, fields, has_prefix, is_ascii_digit, lemma_words_hold_no_space,
    lines, split_lines, split_on, split_words, spells, starts_with, string_of, trim, trimmed,
    unicode_lowercase, utf8_size, views, words,
};
use crate::phoneme::{lemma_spaceless_symbols_are_unmarked, phonemes_of, unmarked};
use crate::rules::{
    descending, lemma_spoken_unmarked, rule_output, text_view, unmarked_overrides, unmarked_rules,
    Rule, RuleCondition, RuleView, RulesEngine,
};
use crate::wordmap::WordMap;
use vstd::prelude::*;

verus! {

/// The value of one decimal digit.
pub open spec fn digit_value(c: char) -> nat {
    (c as u32 - '0' as u32) as nat
}

/// The number that the first `n` digits of `s` spell.
pub open spec fn digits_value(s: Seq<char>, n: int) -> nat
    decreases n,
{
    if n <= 0 {
        0
    } else {
        digits_value(s, n - 1) * 10 + digit_value(s[n - 1])
    }
}

/// Whether the text holds nothing but digits.
pub open spec fn all_digits(s: Seq<char>) -> bool {
    forall|i: int| 0 <= i < s.len() ==> ascii_digit(#[trigger] s[i])
}

/// The number that a text spells in decimal: an optional `+`, then one or
/// more digits and nothing else. None if the number does not fit in `usize`.
pub open spec fn decimal_value(s: Seq<char>) -> Option<nat> {
    let d = if s.len() > 0 && s[0] == '+' {
        s.subrange(1, s.len() as int)
    } else {
        s
    };
    if d.len() > 0 && all_digits(d) && digits_value(d, d.len() as int) <= usize::MAX {
        Some(digits_value(d, d.len() as int))
    } else {
        None
    }
}

/// The priority of a rule that names none: the number of bytes of its
/// pattern, or the largest `usize` if that number is beyond it.
pub open spec fn default_priority(pattern: Seq<char>) -> nat {
    capped(utf8_size(pattern)) as nat
}

/// The condition that a name stands for.
pub open spec fn condition_named(name: Seq<char>) -> Option<RuleCondition> {
    if name == "START"@ || name == "word_start"@ {
        Some(RuleCondition::WordStart)
    } else if name == "END"@ || name == "word_end"@ {
        Some(RuleCondition::WordEnd)
    } else if name == "VOWEL_BEFORE"@ || name == "before_vowel"@ {
        Some(RuleCondition::BeforeVowel)
    } else if name == "VOWEL_AFTER"@ || name == "after_vowel"@ {
        Some(RuleCondition::AfterVowel)
    } else if name == "stressed"@ {
        Some(RuleCondition::Stressed)
    } else if name == "unstressed"@ {
        Some(RuleCondition::Unstressed)
    } else {
        None
    }
}

/// The conditions that the first `n` names stand for; unknown names are
/// passed over.
pub open spec fn conditions_upto(names: Seq<Seq<char>>, n: int) -> Seq<RuleCondition>
    decreases n,
{
    if n <= 0 {
        Seq::empty()
    } else {
        match condition_named(trimmed(names[n - 1])) {
            Some(condition) => conditions_upto(names, n - 1).push(condition),
            None => conditions_upto(names, n - 1),
        }
    }
}

/// The conditions that a comma-separated list names.
pub open spec fn conditions_of(text: Seq<char>) -> Seq<RuleCondition> {
    conditions_upto(fields(text, ','), fields(text, ',').len() as int)
}

/// What one line of a rule source says.
pub enum Directive {
    /// A blank line, a comment, or a line that is no directive.
    Nothing,
    /// An irregular word and the symbols of its pronunciation.
    Irregular(Seq<char>, Seq<Seq<char>>),
    /// A general rule.
    General(RuleView),
}

/// The override that a trimmed line starting with `IRREGULAR|` states:
/// `IRREGULAR|word|symbols`, the word folded to lower case.
pub open spec fn irregular_of(line: Seq<char>) -> Directive {
    let parts = fields(line, '|');
    if parts.len() >= 3 {
        let word = unicode_lowercase(trimmed(parts[1]));
        let symbols = words(parts[2]);
        if word.len() > 0 && symbols.len() > 0 {
            Directive::Irregular(word, symbols)
        } else {
            Directive::Nothing
        }
    } else {
        Directive::Nothing
    }
}

/// A field of a directive: nothing if it is empty.
pub open spec fn optional(text: Seq<char>) -> Option<Seq<char>> {
    if text.len() > 0 {
        Some(text)
    } else {
        None
    }
}

/// The rule that a trimmed line states:
/// `pattern|left|right|symbols|priority|conditions`, the last two optional.
pub open spec fn general_of(line: Seq<char>) -> Directive {
    let parts = fields(line, '|');
    if parts.len() < 4 {
        Directive::Nothing
    } else {
        Directive::General(
            RuleView {
                pattern: parts[0],
                left_context: optional(parts[1]),
                right_context: optional(parts[2]),
                phonemes: if parts[3] == "SILENT"@ {
                    Seq::empty()
                } else {
                    words(parts[3])
                },
                priority: if parts.len() > 4 && decimal_value(parts[4]) is Some {
                    decimal_value(parts[4]).unwrap()
                } else {
                    default_priority(parts[0])
                },
                conditions: if parts.len() > 5 && parts[5].len() > 0 {
                    conditions_of(parts[5])
                } else {
                    Seq::empty()
                },
            },
        )
    }
}

/// What a line of a rule source says. Lines that start with `#` or `=` are
/// comments.
pub open spec fn directive_of(raw: Seq<char>) -> Directive {
    let line = trimmed(raw);
    if line.len() == 0 || line[0] == '#' || line[0] == '=' {
        Directive::Nothing
    } else if has_prefix(line, "IRREGULAR|"@) {
        irregular_of(line)
    } else {
        general_of(line)
    }
}

/// First index from `i` on whose rule has a priority below `priority`; the
/// length if there is none.
pub open spec fn slot_from(rules: Seq<RuleView>, priority: nat, i: int) -> int
    decreases rules.len() - i,
{
    if 0 <= i < rules.len() && rules[i].priority >= priority {
        slot_from(rules, priority, i + 1)
    } else {
        i
    }
}

/// A sorted table with one more rule: the rule stands behind every rule of
/// the same or a higher priority, and the others keep their order.
pub open spec fn placed(rules: Seq<RuleView>, rule: RuleView) -> Seq<RuleView> {
    rules.insert(slot_from(rules, rule.priority, 0), rule)
}

/// The rules that the first `n` lines state, sorted by descending priority,
/// rules of one priority in the order of their lines.
pub open spec fn rules_of(ls: Seq<Seq<char>>, n: int) -> Seq<RuleView>
    decreases n,
{
    if n <= 0 {
        Seq::empty()
    } else {
        match directive_of(ls[n - 1]) {
            Directive::General(rule) => placed(rules_of(ls, n - 1), rule),
            _ => rules_of(ls, n - 1),
        }
    }
}

/// The overrides that the first `n` lines state, a later line for a word
/// replacing an earlier one.
pub open spec fn overrides_of(ls: Seq<Seq<char>>, n: int) -> Map<Seq<char>, Seq<Seq<char>>>
    decreases n,
{
    if n <= 0 {
        Map::empty()
    } else {
        match directive_of(ls[n - 1]) {
            Directive::Irregular(word, symbols) => overrides_of(ls, n - 1).insert(word, symbols),
            _ => overrides_of(ls, n - 1),
        }
    }
}

/// The rules that the first `n` lines state, in the order of the lines.
pub open spec fn stated_rules(ls: Seq<Seq<char>>, n: int) -> Seq<RuleView>
    decreases n,
{
    if n <= 0 {
        Seq::empty()
    } else {
        match directive_of(ls[n - 1]) {
            Directive::General(rule) => stated_rules(ls, n - 1).push(rule),
            _ => stated_rules(ls, n - 1),
        }
    }
}

/// The rules of one priority, in their order.
pub open spec fn of_priority(rules: Seq<RuleView>, priority: nat) -> Seq<RuleView>
    decreases rules.len(),
{
    if rules.len() == 0 {
        Seq::empty()
    } else if rules.last().priority == priority {
        of_priority(rules.drop_last(), priority).push(rules.last())
    } else {
        of_priority(rules.drop_last(), priority)
    }
}

/// The sorted rule table of a rule source.
pub open spec fn rule_table(text: Seq<char>) -> Seq<RuleView> {
    rules_of(lines(text), lines(text).len() as int)
}

/// The override table of a rule source.
pub open spec fn override_table(text: Seq<char>) -> Map<Seq<char>, Seq<Seq<char>>> {
    overrides_of(lines(text), lines(text).len() as int)
}

/// What `slot_from` finds: the end of the run of rules, from `i` on, whose
/// priority is not below `priority`.
pub proof fn lemma_slot(rules: Seq<RuleView>, priority: nat, i: int)
    requires
        0 <= i <= rules.len(),
    ensures
        i <= slot_from(rules, priority, i) <= rules.len(),
        forall|j: int| i <= j < slot_from(rules, priority, i) ==> rules[j].priority >= priority,
        slot_from(rules, priority, i) < rules.len() ==> rules[slot_from(
            rules,
            priority,
            i,
        )].priority < priority,
    decreases rules.len() - i,
{
    if i < rules.len() && rules[i].priority >= priority {
        lemma_slot(rules, priority, i + 1);
    }
}

/// Placing a rule keeps a sorted table sorted.
pub proof fn lemma_placed_descending(rules: Seq<RuleView>, rule: RuleView)
    requires
        descending(rules),
    ensures
        descending(placed(rules, rule)),
{
    lemma_slot(rules, rule.priority, 0);
    let at = slot_from(rules, rule.priority, 0);
    let after = placed(rules, rule);
    assert forall|i: int, j: int| 0 <= i < j < after.len() implies after[i].priority
        >= after[j].priority by {
        if j < at {
        } else if i > at {
            assert(rules[i - 1].priority >= rules[j - 1].priority);
        } else if i == at {
            if at < rules.len() {
                assert(rules[at].priority >= rules[j - 1].priority);
            }
        } else if j == at {
        } else {
            assert(rules[i].priority >= rules[j - 1].priority);
        }
    }
}

/// The rule table of a source is sorted by descending priority.
pub proof fn lemma_rules_of_descending(ls: Seq<Seq<char>>, n: int)
    ensures
        descending(rules_of(ls, n)),
    decreases n,
{
    if n > 0 {
        lemma_rules_of_descending(ls, n - 1);
        match directive_of(ls[n - 1]) {
            Directive::General(rule) => {
                lemma_placed_descending(rules_of(ls, n - 1), rule);
            },
            _ => {},
        }
    }
}

proof fn lemma_of_priority_concat(a: Seq<RuleView>, b: Seq<RuleView>, priority: nat)
    ensures
        of_priority(a + b, priority) == of_priority(a, priority) + of_priority(b, priority),
    decreases b.len(),
{
    if b.len() == 0 {
        assert(a + b =~= a);
        assert(of_priority(a, priority) + of_priority(b, priority) =~= of_priority(a, priority));
    } else {
        lemma_of_priority_concat(a, b.drop_last(), priority);
        assert((a + b).drop_last() =~= a + b.drop_last());
        assert((a + b).last() == b.last());
        if b.last().priority == priority {
            assert(of_priority(a, priority) + of_priority(b.drop_last(), priority).push(b.last())
                =~= (of_priority(a, priority) + of_priority(b.drop_last(), priority)).push(
                b.last(),
            ));
        }
    }
}

proof fn lemma_of_priority_none(rules: Seq<RuleView>, priority: nat)
    requires
        forall|i: int| 0 <= i < rules.len() ==> (#[trigger] rules[i]).priority != priority,
    ensures
        of_priority(rules, priority) == Seq::<RuleView>::empty(),
    decreases rules.len(),
{
    if rules.len() > 0 {
        assert(rules.last() == rules[rules.len() - 1]);
        assert forall|i: int| 0 <= i < rules.drop_last().len() implies (
        #[trigger] rules.drop_last()[i]).priority != priority by {
            assert(rules.drop_last()[i] == rules[i]);
        }
        lemma_of_priority_none(rules.drop_last(), priority);
    }
}

/// Placing a rule in a sorted table puts it behind the rules of its own
/// priority and leaves the rules of every priority in their order.
pub proof fn lemma_placed_keeps_order(rules: Seq<RuleView>, rule: RuleView, priority: nat)
    requires
        descending(rules),
    ensures
        of_priority(placed(rules, rule), priority) == if rule.priority == priority {
            of_priority(rules, priority).push(rule)
        } else {
            of_priority(rules, priority)
        },
{
    lemma_slot(rules, rule.priority, 0);
    let at = slot_from(rules, rule.priority, 0);
    let head = rules.take(at);
    let tail = rules.skip(at);
    let one = seq![rule];
    assert(rules =~= head + tail);
    assert(placed(rules, rule) =~= (head + one) + tail);
    lemma_of_priority_concat(head, tail, priority);
    lemma_of_priority_concat(head + one, tail, priority);
    lemma_of_priority_concat(head, one, priority);
    assert(one.drop_last() =~= Seq::<RuleView>::empty());
    assert(one.last() == rule);
    assert(of_priority(one.drop_last(), priority) =~= Seq::<RuleView>::empty());
    if rule.priority == priority {
        assert forall|i: int| 0 <= i < tail.len() implies (#[trigger] tail[i]).priority
            != priority by {
            assert(tail[i] == rules[at + i]);
            if at < rules.len() {
                assert(rules[at].priority >= rules[at + i].priority);
            }
        }
        lemma_of_priority_none(tail, priority);
        assert(of_priority(one, priority) =~= seq![rule]);
        assert(of_priority(placed(rules, rule), priority) =~= of_priority(rules, priority).push(
            rule,
        ));
    } else {
        assert(of_priority(one, priority) =~= Seq::<RuleView>::empty());
        assert(of_priority(placed(rules, rule), priority) =~= of_priority(rules, priority));
    }
}

/// The rule table is the stable sort of the rules that the source states:
/// it holds as many rules, and the rules of each priority stand in it in
/// the order of their lines.
pub proof fn lemma_table_is_stable(ls: Seq<Seq<char>>, n: int, priority: nat)
    ensures
        rules_of(ls, n).len() == stated_rules(ls, n).len(),
        of_priority(rules_of(ls, n), priority) == of_priority(stated_rules(ls, n), priority),
    decreases n,
{
    if n > 0 {
        lemma_table_is_stable(ls, n - 1, priority);
        match directive_of(ls[n - 1]) {
            Directive::General(rule) => {
                lemma_rules_of_descending(ls, n - 1);
                lemma_placed_keeps_order(rules_of(ls, n - 1), rule, priority);
                lemma_slot(rules_of(ls, n - 1), rule.priority, 0);
                let stated = stated_rules(ls, n);
                assert(stated.drop_last() =~= stated_rules(ls, n - 1));
                assert(stated.last() == rule);
            },
            _ => {},
        }
    }
}

/// No override of a rule source is empty.
pub proof fn lemma_overrides_not_empty(ls: Seq<Seq<char>>, n: int)
    ensures
        forall|k: Seq<char>|
            overrides_of(ls, n).contains_key(k) ==> (#[trigger] overrides_of(ls, n)[k]).len() > 0,
    decreases n,
{
    if n > 0 {
        lemma_overrides_not_empty(ls, n - 1);
        let before = overrides_of(ls, n - 1);
        let after = overrides_of(ls, n);
        assert forall|k: Seq<char>| after.contains_key(k) implies (#[trigger] after[k]).len()
            > 0 by {
            match directive_of(ls[n - 1]) {
                Directive::Irregular(word, symbols) => {
                    assert(after == before.insert(word, symbols));
                    if k == word {
                        assert(symbols.len() > 0);
                    } else {
                        assert(before.contains_key(k));
                    }
                },
                _ => {},
            }
        }
    }
}

proof fn lemma_general_unmarked(line: Seq<char>)
    ensures
        general_of(line) matches Directive::General(rule) ==> unmarked(rule_output(rule)),
{
    let parts = fields(line, '|');
    match general_of(line) {
        Directive::General(rule) => {
            if parts[3] == "SILENT"@ {
                assert(rule.phonemes.len() == 0);
            } else {
                lemma_words_hold_no_space(parts[3], 0);
            }
            lemma_spoken_unmarked(rule.phonemes, rule.phonemes.len() as int);
        },
        _ => {},
    }
}

/// No rule of a rule source emits the boundary marker: its symbols are cut
/// at white space.
pub proof fn lemma_rules_of_unmarked(ls: Seq<Seq<char>>, n: int)
    ensures
        unmarked_rules(rules_of(ls, n)),
    decreases n,
{
    if n > 0 {
        lemma_rules_of_unmarked(ls, n - 1);
        let before = rules_of(ls, n - 1);
        let after = rules_of(ls, n);
        match directive_of(ls[n - 1]) {
            Directive::General(rule) => {
                lemma_general_unmarked(trimmed(ls[n - 1]));
                lemma_slot(before, rule.priority, 0);
                let at = slot_from(before, rule.priority, 0);
                assert forall|i: int| 0 <= i < after.len() implies unmarked(
                    rule_output(#[trigger] after[i]),
                ) by {
                    if i < at {
                        assert(after[i] == before[i]);
                    } else if i > at {
                        assert(after[i] == before[i - 1]);
                    }
                }
            },
            _ => {},
        }
    }
}

/// No override of a rule source holds the boundary marker.
pub proof fn lemma_overrides_of_unmarked(ls: Seq<Seq<char>>, n: int)
    ensures
        unmarked_overrides(overrides_of(ls, n)),
    decreases n,
{
    if n > 0 {
        lemma_overrides_of_unmarked(ls, n - 1);
        let before = overrides_of(ls, n - 1);
        let after = overrides_of(ls, n);
        assert forall|k: Seq<char>| after.contains_key(k) implies unmarked(
            phonemes_of(#[trigger] after[k]),
        ) by {
            match directive_of(ls[n - 1]) {
                Directive::Irregular(word, symbols) => {
                    if k == word {
                        let parts = fields(trimmed(ls[n - 1]), '|');
                        lemma_words_hold_no_space(parts[2], 0);
                        lemma_spaceless_symbols_are_unmarked(symbols);
                    } else {
                        assert(before.contains_key(k));
                    }
                },
                _ => {},
            }
        }
    }
}

proof fn lemma_digits_value_grows(s: Seq<char>, n: int, m: int)
    requires
        0 <= n <= m,
    ensures
        digits_value(s, n) <= digits_value(s, m),
    decreases m - n,
{
    if n < m {
        lemma_digits_value_grows(s, n, m - 1);
    }
}

impl RulesEngine {
    /// The number that a text spells in decimal.
    pub fn parse_decimal(text: &Vec<char>) -> (r: Option<usize>)
        ensures
            match r {
                Some(n) => decimal_value(text@) == Some(n as nat),
                None => decimal_value(text@) is None,
            },
    {
        let n: usize = text.len();
        let start: usize = if n > 0 && text[0] == '+' {
            1
        } else {
            0
        };
        let ghost d = if text@.len() > 0 && text@[0] == '+' {
            text@.subrange(1, n as int)
        } else {
            text@
        };
        assert(text@.subrange(0, n as int) =~= text@);
        if start == n {
            return None;
        }
        let mut value: usize = 0;
        let mut i: usize = start;
        while i < n
            invariant
                start <= i <= n,
                n == text.len(),
                d == text@.subrange(start as int, n as int),
                d == if text@.len() > 0 && text@[0] == '+' {
                    text@.subrange(1, n as int)
                } else {
                    text@
                },
                forall|j: int| 0 <= j < i - start ==> ascii_digit(#[trigger] d[j]),
                value == digits_value(d, i - start),
            decreases n - i,
        {
            let c: char = text[i];
            assert(d[i - start] == c);
            if !is_ascii_digit(c) {
                return None;
            }
            let digit: usize = ((c as u8) - 48) as usize;
            assert(digit == digit_value(c));
            if value > (usize::MAX - digit) / 10 {
                proof {
                    assert(digits_value(d, i - start + 1) > usize::MAX);
                    lemma_digits_value_grows(d, i - start + 1, d.len() as int);
                }
                return None;
            }
            value = value * 10 + digit;
            i += 1;
        }
        Some(value)
    }

    /// The conditions that a comma-separated list names.
    pub fn parse_conditions(text: &Vec<char>) -> (r: Vec<RuleCondition>)
        ensures
            r@ == conditions_of(text@),
    {
        let names = split_on(text, ',');
        let ghost nv = fields(text@, ',');
        let mut out: Vec<RuleCondition> = Vec::new();
        let mut i: usize = 0;
        while i < names.len()
            invariant
                i <= names.len(),
                views(names@) == nv,
                out@ == conditions_upto(nv, i as int),
            decreases names.len() - i,
        {
            assert(names[i as int]@ == nv[i as int]);
            let name = trim(&names[i]);
            if spells(&name, "START") || spells(&name, "word_start") {
                out.push(RuleCondition::WordStart);
            } else if spells(&name, "END") || spells(&name, "word_end") {
                out.push(RuleCondition::WordEnd);
            } else if spells(&name, "VOWEL_BEFORE") || spells(&name, "before_vowel") {
                out.push(RuleCondition::BeforeVowel);
            } else if spells(&name, "VOWEL_AFTER") || spells(&name, "after_vowel") {
                out.push(RuleCondition::AfterVowel);
            } else if spells(&name, "stressed") {
                out.push(RuleCondition::Stressed);
            } else if spells(&name, "unstressed") {
                out.push(RuleCondition::Unstressed);
            }
            i += 1;
        }
        out
    }

    /// The strings made of the given texts.
    fn strings_of(texts: &Vec<Vec<char>>) -> (r: Vec<String>)
        ensures
            views(r@) == views(texts@),
    {
        let mut out: Vec<String> = Vec::new();
        let mut i: usize = 0;
        while i < texts.len()
            invariant
                i <= texts.len(),
                out.len() == i,
                forall|j: int| 0 <= j < i ==> out[j]@ == texts[j]@,
            decreases texts.len() - i,
        {
            out.push(string_of(&texts[i]));
            i += 1;
        }
        assert(views(out@) =~= views(texts@));
        out
    }

    /// The override that a trimmed line starting with `IRREGULAR|` states.
    pub fn parse_irregular_word(line: &Vec<char>) -> (r: Option<(Vec<char>, Vec<String>)>)
        ensures
            match r {
                Some((word, symbols)) => irregular_of(line@) == Directive::Irregular(
                    word@,
                    views(symbols@),
                ),
                None => irregular_of(line@) == Directive::Nothing,
            },
    {
        let parts = split_on(line, '|');
        if parts.len() < 3 {
            return None;
        }
        assert(parts[1]@ == fields(line@, '|')[1]);
        assert(parts[2]@ == fields(line@, '|')[2]);
        let named = string_of(&trim(&parts[1]));
        let word = chars_of(named.as_str().to_lowercase().as_str());
        let tokens = split_words(&parts[2]);
        if word.len() == 0 || tokens.len() == 0 {
            return None;
        }
        let symbols = Self::strings_of(&tokens);
        Some((word, symbols))
    }

    fn optional_text(text: &Vec<char>) -> (r: Option<String>)
        ensures
            text_view(r) == optional(text@),
    {
        if text.len() > 0 {
            Some(string_of(text))
        } else {
            None
        }
    }

    /// The rule that a trimmed line states.
    pub fn parse_rule(line: &Vec<char>) -> (r: Option<Rule>)
        ensures
            match r {
                Some(rule) => general_of(line@) == Directive::General(rule@),
                None => general_of(line@) == Directive::Nothing,
            },
    {
        let parts = split_on(line, '|');
        let ghost pv = fields(line@, '|');
        if parts.len() < 4 {
            return None;
        }
        assert(parts[0]@ == pv[0]);
        assert(parts[1]@ == pv[1]);
        assert(parts[2]@ == pv[2]);
        assert(parts[3]@ == pv[3]);
        let pattern = string_of(&parts[0]);
        let left_context = Self::optional_text(&parts[1]);
        let right_context = Self::optional_text(&parts[2]);
        let phonemes: Vec<String> = if spells(&parts[3], "SILENT") {
            let none: Vec<String> = Vec::new();
            assert(views(none@) =~= Seq::<Seq<char>>::empty());
            none
        } else {
            Self::strings_of(&split_words(&parts[3]))
        };
        let stated: Option<usize> = if parts.len() > 4 {
            assert(parts[4]@ == pv[4]);
            Self::parse_decimal(&parts[4])
        } else {
            None
        };
        let priority: usize = match stated {
            Some(n) => n,
            None => byte_len(&parts[0]),
        };
        let conditions: Vec<RuleCondition> = if parts.len() > 5 && parts[5].len() > 0 {
            assert(parts[5]@ == pv[5]);
            Self::parse_conditions(&parts[5])
        } else {
            Vec::new()
        };
        Some(Rule { pattern, left_context, right_context, phonemes, priority, conditions })
    }

    /// Puts a rule into a sorted table, behind every rule of the same or a
    /// higher priority.
    fn place_rule(sorted: &mut Vec<Rule>, rule: Rule)
        ensures
            views(final(sorted)@) == placed(views(old(sorted)@), rule@),
    {
        let ghost before = views(sorted@);
        let mut at: usize = 0;
        while at < sorted.len() && sorted[at].priority >= rule.priority
            invariant
                at <= sorted.len(),
                views(sorted@) == before,
                slot_from(before, rule@.priority, 0) == slot_from(before, rule@.priority, at as int),
            decreases sorted.len() - at,
        {
            assert(before[at as int] == sorted[at as int]@);
            at += 1;
        }
        proof {
            if at < sorted.len() {
                assert(before[at as int] == sorted[at as int]@);
            }
        }
        let ghost view = rule@;
        sorted.insert(at, rule);
        assert(views(sorted@) =~= before.insert(at as int, view));
    }

    /// The sorted rules and the overrides that a rule source states.
    pub fn parse_rules(content: &Vec<char>) -> (r: (Vec<Rule>, WordMap<Vec<String>>))
        ensures
            views(r.0@) == rule_table(content@),
            r.1@.map_values(|v: Vec<String>| views(v@)) == override_table(content@),
    {
        let ls = split_lines(content);
        let ghost lv = lines(content@);
        let marker = chars_of("IRREGULAR|");
        let mut rules: Vec<Rule> = Vec::new();
        let mut irregular: WordMap<Vec<String>> = WordMap::new();
        let mut i: usize = 0;
        assert(views(rules@) =~= rules_of(lv, 0));
        assert(irregular@.map_values(|v: Vec<String>| views(v@)) =~= overrides_of(lv, 0));
        while i < ls.len()
            invariant
                i <= ls.len(),
                views(ls@) == lv,
                marker@ == "IRREGULAR|"@,
                views(rules@) == rules_of(lv, i as int),
                irregular@.map_values(|v: Vec<String>| views(v@)) == overrides_of(lv, i as int),
            decreases ls.len() - i,
        {
            assert(ls[i as int]@ == lv[i as int]);
            let line = trim(&ls[i]);
            if line.len() == 0 || line[0] == '#' || line[0] == '=' {
            } else if starts_with(&line, &marker) {
                match Self::parse_irregular_word(&line) {
                    Some((word, symbols)) => {
                        let ghost before = irregular@;
                        irregular.insert(word, symbols);
                        assert(irregular@.map_values(|v: Vec<String>| views(v@))
                            =~= before.map_values(|v: Vec<String>| views(v@)).insert(
                            word@,
                            views(symbols@),
                        ));
                    },
                    None => {},
                }
            } else {
                match Self::parse_rule(&line) {
                    Some(rule) => {
                        Self::place_rule(&mut rules, rule);
                    },
                    None => {},
                }
            }
            i += 1;
        }
        (rules, irregular)
    }
}

} // verus!
