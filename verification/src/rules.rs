//! The letter-to-sound rule engine: a table of rules sorted by descending
//! priority and indexed by the first letter of their patterns, a table of
//! irregular words that overrides it, and a fallback sound for each letter.

use crate::chars::{
    ascii_letter, chars_of, lines, lower_char, space, spells, to_lower, unicode_lowercase, views,
};
use crate::error::G2PError;
use crate::phoneme::{
    boundary, lemma_spaceless_symbol_is_no_boundary, phoneme_of, phonemes_from, phonemes_of,
    unmarked, Phoneme, PhonemeView,
};
use crate::rule_source::{
    lemma_overrides_not_empty, lemma_overrides_of_unmarked, lemma_rules_of_descending,
    lemma_rules_of_unmarked, override_table, rule_table,
};
use crate::wordmap::WordMap;
use std::collections::HashMap;
use vstd::prelude::*;

verus! {

/// An extra condition on where a rule may fire.
#[derive(Debug, Clone, Copy, PartialEq, Eq)]
pub enum RuleCondition {
    WordStart,
    WordEnd,
    BeforeVowel,
    AfterVowel,
    Stressed,
    Unstressed,
}

/// One letter-to-sound rule.
#[derive(Debug, Clone)]
pub struct Rule {
    /// The letters that the rule consumes.
    pub pattern: String,
    /// What must stand before the pattern: a literal, or `START`.
    pub left_context: Option<String>,
    /// What must stand after the pattern: a literal, or `END`.
    pub right_context: Option<String>,
    /// The symbols that the rule emits; none for a silent rule.
    pub phonemes: Vec<String>,
    pub priority: usize,
    pub conditions: Vec<RuleCondition>,
}

/// A rule as a mathematical value.
pub struct RuleView {
    pub pattern: Seq<char>,
    pub left_context: Option<Seq<char>>,
    pub right_context: Option<Seq<char>>,
    pub phonemes: Seq<Seq<char>>,
    pub priority: nat,
    pub conditions: Seq<RuleCondition>,
}

/// An optional text as a mathematical value.
pub open spec fn text_view(s: Option<String>) -> Option<Seq<char>> {
    match s {
        Some(text) => Some(text@),
        None => None,
    }
}

impl View for Rule {
    type V = RuleView;

    open spec fn view(&self) -> RuleView {
        RuleView {
            pattern: self.pattern@,
            left_context: text_view(self.left_context),
            right_context: text_view(self.right_context),
            phonemes: views(self.phonemes@),
            priority: self.priority as nat,
            conditions: self.conditions@,
        }
    }
}

/// The six vowel letters, in either case.
pub open spec fn vowel_letter(c: char) -> bool {
    let l = to_lower(c);
    l == 'a' || l == 'e' || l == 'i' || l == 'o' || l == 'u' || l == 'y'
}

/// Whether a pattern stands in `word` at index `at`, whatever the case of
/// the letters of either.
pub open spec fn pattern_at(pattern: Seq<char>, word: Seq<char>, at: int) -> bool {
    &&& 0 <= at
    &&& at + pattern.len() <= word.len()
    &&& forall|i: int|
        0 <= i < pattern.len() ==> to_lower(#[trigger] pattern[i]) == to_lower(word[at + i])
}

/// Whether the literal `text` of a context stands in `word` at index `at`,
/// the letters of the word taken in lower case.
pub open spec fn literal_at(text: Seq<char>, word: Seq<char>, at: int) -> bool {
    &&& 0 <= at
    &&& at + text.len() <= word.len()
    &&& forall|i: int| 0 <= i < text.len() ==> #[trigger] text[i] == to_lower(word[at + i])
}

/// Whether a right context holds where the pattern ends: `END` asks for the
/// end of the word, anything else must stand there literally.
pub open spec fn right_context_holds(context: Seq<char>, word: Seq<char>, after: int) -> bool {
    if context == "END"@ {
        after >= word.len()
    } else {
        literal_at(context, word, after)
    }
}

/// Whether a left context holds where the pattern starts: `START` asks for
/// the start of the word, anything else must stand just before literally.
pub open spec fn left_context_holds(context: Seq<char>, word: Seq<char>, pos: int) -> bool {
    if context == "START"@ {
        pos == 0
    } else {
        context.len() <= pos && literal_at(context, word, pos - context.len())
    }
}

/// Whether a condition holds at the position where a pattern starts. The
/// two stress conditions hold everywhere.
pub open spec fn condition_holds(condition: RuleCondition, word: Seq<char>, pos: int) -> bool {
    match condition {
        RuleCondition::WordStart => pos == 0,
        RuleCondition::WordEnd => pos == word.len() - 1,
        RuleCondition::BeforeVowel => pos + 1 < word.len() && vowel_letter(word[pos + 1]),
        RuleCondition::AfterVowel => 0 < pos <= word.len() && vowel_letter(word[pos - 1]),
        RuleCondition::Stressed => true,
        RuleCondition::Unstressed => true,
    }
}

/// Whether a rule matches at a position: its pattern stands there, in
/// whatever case, its contexts hold and each of its conditions holds.
pub open spec fn rule_matches_at(rule: RuleView, word: Seq<char>, pos: int) -> bool {
    &&& pattern_at(rule.pattern, word, pos)
    &&& (rule.right_context matches Some(context) ==> right_context_holds(
        context,
        word,
        pos + rule.pattern.len(),
    ))
    &&& (rule.left_context matches Some(context) ==> left_context_holds(context, word, pos))
    &&& forall|i: int|
        0 <= i < rule.conditions.len() ==> condition_holds(#[trigger] rule.conditions[i], word, pos)
}

/// Whether a rule is indexed under a character: its pattern starts with it.
pub open spec fn indexed_under(rule: RuleView, c: char) -> bool {
    rule.pattern.len() > 0 && rule.pattern[0] == c
}

/// Whether a rule fires at a position: it is indexed under the character
/// there and matches.
pub open spec fn fires(rule: RuleView, word: Seq<char>, pos: int) -> bool {
    0 <= pos < word.len() && indexed_under(rule, word[pos]) && rule_matches_at(rule, word, pos)
}

/// Index of the first rule from `i` on that fires at the position.
pub open spec fn first_firing_from(rules: Seq<RuleView>, word: Seq<char>, pos: int, i: int)
    -> Option<int>
    decreases rules.len() - i,
{
    if i < 0 || i >= rules.len() {
        None
    } else if fires(rules[i], word, pos) {
        Some(i)
    } else {
        first_firing_from(rules, word, pos, i + 1)
    }
}

/// The rule chosen at a position: the first in the order of the table that
/// fires.
pub open spec fn best_rule(rules: Seq<RuleView>, word: Seq<char>, pos: int) -> Option<int> {
    first_firing_from(rules, word, pos, 0)
}

/// Whether the rules stand in order of descending priority.
pub open spec fn descending(rules: Seq<RuleView>) -> bool {
    forall|i: int, j: int| 0 <= i < j < rules.len() ==> rules[i].priority >= rules[j].priority
}

/// Indices below `n` of the rules indexed under `c`, ascending.
pub open spec fn group_upto(rules: Seq<RuleView>, c: char, n: nat) -> Seq<usize>
    decreases n,
{
    if n == 0 {
        Seq::empty()
    } else if indexed_under(rules[n - 1], c) {
        group_upto(rules, c, (n - 1) as nat).push((n - 1) as usize)
    } else {
        group_upto(rules, c, (n - 1) as nat)
    }
}

/// Indices of the rules indexed under `c`, ascending.
pub open spec fn group_of(rules: Seq<RuleView>, c: char) -> Seq<usize> {
    group_upto(rules, c, rules.len())
}

/// What an index holds for a character.
pub open spec fn indexed(groups: Map<u32, Vec<usize>>, c: char) -> Seq<usize> {
    if groups.contains_key(c as u32) {
        groups[c as u32]@
    } else {
        Seq::empty()
    }
}

/// The phonemes of the symbols among the first `n` that are not empty.
pub open spec fn spoken(symbols: Seq<Seq<char>>, n: int) -> Seq<PhonemeView>
    decreases n,
{
    if n <= 0 {
        Seq::empty()
    } else if symbols[n - 1].len() > 0 {
        spoken(symbols, n - 1).push(phoneme_of(symbols[n - 1]))
    } else {
        spoken(symbols, n - 1)
    }
}

/// What a rule emits when it fires.
pub open spec fn rule_output(rule: RuleView) -> Seq<PhonemeView> {
    spoken(rule.phonemes, rule.phonemes.len() as int)
}

/// The fallback symbol of a character: one for each of the 26 letters, in
/// either case, and none for anything else.
pub open spec fn default_symbol(c: char) -> Option<Seq<char>> {
    match to_lower(c) {
        'a' => Some("AE0"@),
        'b' => Some("B"@),
        'c' => Some("K"@),
        'd' => Some("D"@),
        'e' => Some("EH0"@),
        'f' => Some("F"@),
        'g' => Some("G"@),
        'h' => Some("HH"@),
        'i' => Some("IH0"@),
        'j' => Some("JH"@),
        'k' => Some("K"@),
        'l' => Some("L"@),
        'm' => Some("M"@),
        'n' => Some("N"@),
        'o' => Some("OW0"@),
        'p' => Some("P"@),
        'q' => Some("K"@),
        'r' => Some("R"@),
        's' => Some("S"@),
        't' => Some("T"@),
        'u' => Some("UH0"@),
        'v' => Some("V"@),
        'w' => Some("W"@),
        'x' => Some("K"@),
        'y' => Some("Y"@),
        'z' => Some("Z"@),
        _ => None,
    }
}

/// What a character emits when no rule fires at it.
pub open spec fn fallback_output(c: char) -> Seq<PhonemeView> {
    match default_symbol(c) {
        Some(symbol) => seq![phoneme_of(symbol)],
        None => Seq::empty(),
    }
}

/// Number of characters that the step at a position consumes.
pub open spec fn step_length(rules: Seq<RuleView>, word: Seq<char>, pos: int) -> int {
    match best_rule(rules, word, pos) {
        Some(i) => rules[i].pattern.len() as int,
        None => 1,
    }
}

/// What the step at a position emits.
pub open spec fn step_output(rules: Seq<RuleView>, word: Seq<char>, pos: int) -> Seq<PhonemeView> {
    match best_rule(rules, word, pos) {
        Some(i) => rule_output(rules[i]),
        None => fallback_output(word[pos]),
    }
}

/// What the left-to-right scan emits from a position on.
pub open spec fn scan_from(rules: Seq<RuleView>, word: Seq<char>, pos: int) -> Seq<PhonemeView>
    decreases word.len() - pos,
{
    if pos < 0 || pos >= word.len() {
        Seq::empty()
    } else {
        proof {
            lemma_step_length(rules, word, pos);
        }
        step_output(rules, word, pos) + scan_from(rules, word, pos + step_length(rules, word, pos))
    }
}

/// The numbers of characters that the steps of the scan consume, from a
/// position on.
pub open spec fn scan_steps(rules: Seq<RuleView>, word: Seq<char>, pos: int) -> Seq<int>
    decreases word.len() - pos,
{
    if pos < 0 || pos >= word.len() {
        Seq::empty()
    } else {
        proof {
            lemma_step_length(rules, word, pos);
        }
        seq![step_length(rules, word, pos)] + scan_steps(
            rules,
            word,
            pos + step_length(rules, word, pos),
        )
    }
}

/// Whether some step of the scan, from a position on, emits a phoneme.
pub open spec fn some_step_emits(rules: Seq<RuleView>, word: Seq<char>, pos: int) -> bool
    decreases word.len() - pos,
{
    if pos < 0 || pos >= word.len() {
        false
    } else {
        proof {
            lemma_step_length(rules, word, pos);
        }
        step_output(rules, word, pos).len() > 0 || some_step_emits(
            rules,
            word,
            pos + step_length(rules, word, pos),
        )
    }
}

/// The sum of the numbers.
pub open spec fn total(steps: Seq<int>) -> int
    decreases steps.len(),
{
    if steps.len() == 0 {
        0
    } else {
        steps[0] + total(steps.drop_first())
    }
}

/// The pronunciation that rules and overrides give a word: the override of
/// the word folded to lower case if there is one, and else what the scan
/// emits.
pub open spec fn pronounced(
    rules: Seq<RuleView>,
    irregular: Map<Seq<char>, Seq<Seq<char>>>,
    word: Seq<char>,
) -> Seq<PhonemeView> {
    if irregular.contains_key(unicode_lowercase(word)) {
        phonemes_of(irregular[unicode_lowercase(word)])
    } else {
        scan_from(rules, word, 0)
    }
}

/// The first rule that fires does fire, and none before it does.
pub proof fn lemma_first_firing(rules: Seq<RuleView>, word: Seq<char>, pos: int, i: int)
    requires
        0 <= i,
    ensures
        match first_firing_from(rules, word, pos, i) {
            Some(k) => i <= k < rules.len() && fires(rules[k], word, pos) && forall|j: int|
                i <= j < k ==> !fires(#[trigger] rules[j], word, pos),
            None => forall|j: int| i <= j < rules.len() ==> !fires(#[trigger] rules[j], word, pos),
        },
    decreases rules.len() - i,
{
    if i < rules.len() && !fires(rules[i], word, pos) {
        lemma_first_firing(rules, word, pos, i + 1);
    }
}

/// A rule that fires with none before it firing is the chosen one.
pub proof fn lemma_best_rule_is(rules: Seq<RuleView>, word: Seq<char>, pos: int, k: int)
    requires
        0 <= k < rules.len(),
        fires(rules[k], word, pos),
        forall|j: int| 0 <= j < k ==> !fires(#[trigger] rules[j], word, pos),
    ensures
        best_rule(rules, word, pos) == Some(k),
{
    lemma_first_firing(rules, word, pos, 0);
}

/// Every step consumes at least one character and stays within the word.
pub proof fn lemma_step_length(rules: Seq<RuleView>, word: Seq<char>, pos: int)
    requires
        0 <= pos < word.len(),
    ensures
        1 <= step_length(rules, word, pos) <= word.len() - pos,
{
    lemma_first_firing(rules, word, pos, 0);
}

/// The scan takes at most as many steps as the word has characters, every
/// step consumes at least one, and together they consume the word exactly.
pub proof fn lemma_scan_consumes_word(rules: Seq<RuleView>, word: Seq<char>, pos: int)
    requires
        0 <= pos <= word.len(),
    ensures
        scan_steps(rules, word, pos).len() <= word.len() - pos,
        forall|i: int|
            0 <= i < scan_steps(rules, word, pos).len() ==> #[trigger] scan_steps(
                rules,
                word,
                pos,
            )[i] >= 1,
        total(scan_steps(rules, word, pos)) == word.len() - pos,
    decreases word.len() - pos,
{
    if pos < word.len() {
        lemma_step_length(rules, word, pos);
        let n = step_length(rules, word, pos);
        lemma_scan_consumes_word(rules, word, pos + n);
        let rest = scan_steps(rules, word, pos + n);
        let all = scan_steps(rules, word, pos);
        assert(all == seq![n] + rest);
        assert(all.drop_first() =~= rest);
        assert forall|i: int| 0 <= i < all.len() implies #[trigger] all[i] >= 1 by {
            if i > 0 {
                assert(all[i] == rest[i - 1]);
            }
        }
    }
}

/// In a table sorted by descending priority, the chosen rule has the highest
/// priority among the rules that fire, and stands first among those that
/// share it.
pub proof fn lemma_best_rule_has_top_priority(rules: Seq<RuleView>, word: Seq<char>, pos: int)
    requires
        descending(rules),
    ensures
        match best_rule(rules, word, pos) {
            Some(k) => forall|j: int|
                0 <= j < rules.len() && fires(#[trigger] rules[j], word, pos) ==> {
                    &&& rules[j].priority <= rules[k].priority
                    &&& rules[j].priority == rules[k].priority ==> k <= j
                },
            None => forall|j: int| 0 <= j < rules.len() ==> !fires(#[trigger] rules[j], word, pos),
        },
{
    lemma_first_firing(rules, word, pos, 0);
}

/// The scan emits something exactly if one of its steps does.
pub proof fn lemma_scan_emits(rules: Seq<RuleView>, word: Seq<char>, pos: int)
    requires
        0 <= pos <= word.len(),
    ensures
        scan_from(rules, word, pos).len() > 0 <==> some_step_emits(rules, word, pos),
    decreases word.len() - pos,
{
    if pos < word.len() {
        lemma_step_length(rules, word, pos);
        lemma_scan_emits(rules, word, pos + step_length(rules, word, pos));
    }
}

/// The characters with a fallback sound are the 26 letters, in either case.
pub proof fn lemma_letters_have_sounds(c: char)
    ensures
        default_symbol(c) is Some <==> ascii_letter(c),
{
}

/// Where no rule is silent, a scan that passes a letter emits something:
/// either a rule consumes the letter, or its fallback sound is emitted.
pub proof fn lemma_letter_is_voiced(rules: Seq<RuleView>, word: Seq<char>, pos: int, at: int)
    requires
        0 <= pos <= at < word.len(),
        default_symbol(word[at]) is Some,
        forall|i: int| 0 <= i < rules.len() ==> rule_output(#[trigger] rules[i]).len() > 0,
    ensures
        scan_from(rules, word, pos).len() > 0,
    decreases word.len() - pos,
{
    lemma_step_length(rules, word, pos);
    lemma_first_firing(rules, word, pos, 0);
    let n = step_length(rules, word, pos);
    match best_rule(rules, word, pos) {
        Some(k) => {
            assert(rule_output(rules[k]).len() > 0);
        },
        None => {
            if pos < at {
                lemma_letter_is_voiced(rules, word, pos + 1, at);
            }
        },
    }
}

/// The members of a group are the indices of the rules indexed under the
/// character, each once and in ascending order.
pub proof fn lemma_group(rules: Seq<RuleView>, c: char, n: nat)
    requires
        n <= rules.len(),
        rules.len() <= usize::MAX,
    ensures
        forall|k: int|
            0 <= k < group_upto(rules, c, n).len() ==> {
                let m = #[trigger] group_upto(rules, c, n)[k];
                m < n && indexed_under(rules[m as int], c)
            },
        forall|k: int, l: int|
            0 <= k < l < group_upto(rules, c, n).len() ==> group_upto(rules, c, n)[k] < group_upto(
                rules,
                c,
                n,
            )[l],
        forall|j: int|
            0 <= j < n && indexed_under(#[trigger] rules[j], c) ==> group_upto(rules, c, n).contains(
                j as usize,
            ),
    decreases n,
{
    if n > 0 {
        lemma_group(rules, c, (n - 1) as nat);
        let before = group_upto(rules, c, (n - 1) as nat);
        let all = group_upto(rules, c, n);
        if indexed_under(rules[n - 1], c) {
            assert(all == before.push((n - 1) as usize));
            assert forall|j: int| 0 <= j < n && indexed_under(#[trigger] rules[j], c) implies all.contains(
                j as usize,
            ) by {
                if j < n - 1 {
                    let k = before.index_of(j as usize);
                    assert(before.contains(j as usize));
                    assert(all[k] == j as usize);
                } else {
                    assert(all[before.len() as int] == j as usize);
                }
            }
        }
    }
}


/// Whether no rule emits the boundary marker.
pub open spec fn unmarked_rules(rules: Seq<RuleView>) -> bool {
    forall|i: int| 0 <= i < rules.len() ==> unmarked(rule_output(#[trigger] rules[i]))
}

/// Whether no override holds the boundary marker.
pub open spec fn unmarked_overrides(irregular: Map<Seq<char>, Seq<Seq<char>>>) -> bool {
    forall|k: Seq<char>| irregular.contains_key(k) ==> unmarked(phonemes_of(#[trigger] irregular[k]))
}

/// Whether no symbol holds white space.
pub open spec fn spaceless(symbols: Seq<Seq<char>>) -> bool {
    forall|i: int, j: int|
        0 <= i < symbols.len() && 0 <= j < symbols[i].len() ==> !space(#[trigger] symbols[i][j])
}

/// Symbols without white space emit no boundary marker.
pub proof fn lemma_spoken_unmarked(symbols: Seq<Seq<char>>, n: int)
    requires
        0 <= n <= symbols.len(),
        spaceless(symbols),
    ensures
        unmarked(spoken(symbols, n)),
    decreases n,
{
    if n > 0 {
        lemma_spoken_unmarked(symbols, n - 1);
        let before = spoken(symbols, n - 1);
        let all = spoken(symbols, n);
        if all.contains(boundary()) {
            let i = all.index_of(boundary());
            if i < before.len() {
                assert(before[i] == boundary());
                assert(before.contains(boundary()));
            } else {
                assert forall|j: int| 0 <= j < symbols[n - 1].len() implies !space(
                    #[trigger] symbols[n - 1][j],
                ) by {}
                lemma_spaceless_symbol_is_no_boundary(symbols[n - 1]);
            }
        }
    }
}

/// The fallback sound of a character is never the boundary marker.
pub proof fn lemma_fallback_unmarked(c: char)
    ensures
        unmarked(fallback_output(c)),
{
    reveal_strlit("AE0");
    reveal_strlit("B");
    reveal_strlit("K");
    reveal_strlit("D");
    reveal_strlit("EH0");
    reveal_strlit("F");
    reveal_strlit("G");
    reveal_strlit("HH");
    reveal_strlit("IH0");
    reveal_strlit("JH");
    reveal_strlit("L");
    reveal_strlit("M");
    reveal_strlit("N");
    reveal_strlit("OW0");
    reveal_strlit("P");
    reveal_strlit("R");
    reveal_strlit("S");
    reveal_strlit("T");
    reveal_strlit("UH0");
    reveal_strlit("V");
    reveal_strlit("W");
    reveal_strlit("Y");
    reveal_strlit("Z");
    match default_symbol(c) {
        Some(symbol) => {
            assert(symbol.len() > 0 && symbol[0] != ' ');
            let out = fallback_output(c);
            if out.contains(boundary()) {
                let i = out.index_of(boundary());
                assert(out[i] == phoneme_of(symbol));
                let base = crate::phoneme::base_of(symbol);
                assert(base == seq![' ']);
                assert(base[0] == ' ');
            }
        },
        None => {},
    }
}

/// Where no rule emits the boundary marker, the scan emits none.
pub proof fn lemma_scan_unmarked(rules: Seq<RuleView>, word: Seq<char>, pos: int)
    requires
        0 <= pos <= word.len(),
        unmarked_rules(rules),
    ensures
        unmarked(scan_from(rules, word, pos)),
    decreases word.len() - pos,
{
    if pos < word.len() {
        lemma_step_length(rules, word, pos);
        lemma_first_firing(rules, word, pos, 0);
        lemma_fallback_unmarked(word[pos]);
        let n = step_length(rules, word, pos);
        lemma_scan_unmarked(rules, word, pos + n);
        let head = step_output(rules, word, pos);
        let rest = scan_from(rules, word, pos + n);
        let all = scan_from(rules, word, pos);
        assert(all == head + rest);
        if all.contains(boundary()) {
            let i = all.index_of(boundary());
            if i < head.len() {
                assert(head[i] == boundary());
                assert(head.contains(boundary()));
            } else {
                assert(rest[i - head.len()] == boundary());
                assert(rest.contains(boundary()));
            }
        }
    }
}

/// Where neither a rule nor an override holds the boundary marker, no word
/// is pronounced with one.
pub proof fn lemma_pronounced_unmarked(
    rules: Seq<RuleView>,
    irregular: Map<Seq<char>, Seq<Seq<char>>>,
    word: Seq<char>,
)
    requires
        unmarked_rules(rules),
        unmarked_overrides(irregular),
    ensures
        unmarked(pronounced(rules, irregular, word)),
{
    lemma_scan_unmarked(rules, word, 0);
}

/// Two pronunciations of one word by one set of rules and overrides are
/// the same.
pub proof fn lemma_pronunciation_is_determined(
    rules: Seq<RuleView>,
    irregular: Map<Seq<char>, Seq<Seq<char>>>,
    word: Seq<char>,
    first: Seq<PhonemeView>,
    second: Seq<PhonemeView>,
)
    requires
        first == pronounced(rules, irregular, word),
        second == pronounced(rules, irregular, word),
    ensures
        first == second,
{
}

/// The letter-to-sound rule engine.
pub struct RulesEngine {
    rules: Vec<Rule>,
    rule_groups: HashMap<u32, Vec<usize>>,
    irregular_words: WordMap<Vec<String>>,
}

impl RulesEngine {
    /// The table is sorted by descending priority, the index holds for each
    /// character the rules whose patterns start with it, and no override is
    /// empty. This holds of every engine that a program can hold.
    #[verifier::type_invariant]
    pub closed spec fn well_formed(self) -> bool {
        &&& descending(views(self.rules@))
        &&& forall|c: char|
            #[trigger] indexed(self.rule_groups@, c) == group_of(views(self.rules@), c)
        &&& forall|k: Seq<char>|
            self.irregular_words@.contains_key(k) ==> (#[trigger] self.irregular_words@[k]).len()
                > 0
    }

    /// The rules in the order of the table.
    pub closed spec fn rules(self) -> Seq<RuleView> {
        views(self.rules@)
    }

    /// The overrides: irregular words, in lower case, with the symbols of
    /// their pronunciations.
    pub closed spec fn irregular(self) -> Map<Seq<char>, Seq<Seq<char>>> {
        self.irregular_words@.map_values(|v: Vec<String>| views(v@))
    }

    /// The pronunciation that the engine gives a word.
    pub open spec fn pronunciation(self, word: Seq<char>) -> Seq<PhonemeView> {
        pronounced(self.rules(), self.irregular(), word)
    }

    /// The engine without a rule source: it has no rule and no override, so
    /// that every letter is given the sound of the built-in letter table.
    pub fn builtin() -> (r: Self)
        ensures
            r.rules() == Seq::<RuleView>::empty(),
            r.irregular() == Map::<Seq<char>, Seq<Seq<char>>>::empty(),
    {
        let rules: Vec<Rule> = Vec::new();
        let rule_groups = Self::build_index(&rules);
        let irregular_words: WordMap<Vec<String>> = WordMap::new();
        let r = RulesEngine { rules, rule_groups, irregular_words };
        assert(r.rules() =~= Seq::<RuleView>::empty());
        assert(r.irregular() =~= Map::<Seq<char>, Seq<Seq<char>>>::empty());
        r
    }

    /// Builds the engine from a rule source: reads its directives line by
    /// line, sorts the rules by descending priority and indexes them. Fails
    /// only if the source states neither a rule nor an override.
    pub fn from_text(text: &str) -> (r: Result<Self, G2PError>)
        ensures
            match r {
                Ok(engine) => {
                    &&& engine.rules() == rule_table(text@)
                    &&& engine.irregular() == override_table(text@)
                    &&& descending(engine.rules())
                    &&& unmarked_rules(engine.rules())
                    &&& unmarked_overrides(engine.irregular())
                    &&& (rule_table(text@).len() > 0 || override_table(text@).len() > 0)
                },
                Err(e) => {
                    &&& e == G2PError::SourceEmpty
                    &&& rule_table(text@).len() == 0
                    &&& override_table(text@) == Map::<Seq<char>, Seq<Seq<char>>>::empty()
                },
            },
    {
        let content = chars_of(text);
        let (rules, irregular_words) = Self::parse_rules(&content);
        let overrides: usize = irregular_words.len();
        if rules.len() == 0 && overrides == 0 {
            proof {
                let m = override_table(text@);
                assert(m.dom() =~= irregular_words@.dom());
                assert(m.dom() =~= Set::<Seq<char>>::empty()) by {
                    vstd::set_lib::lemma_set_empty_equivalency_len(m.dom());
                }
                assert(m =~= Map::<Seq<char>, Seq<Seq<char>>>::empty());
            }
            return Err(G2PError::SourceEmpty);
        }
        let rule_groups = Self::build_index(&rules);
        proof {
            lemma_rules_of_descending(lines(text@), lines(text@).len() as int);
            lemma_overrides_not_empty(lines(text@), lines(text@).len() as int);
            lemma_rules_of_unmarked(lines(text@), lines(text@).len() as int);
            lemma_overrides_of_unmarked(lines(text@), lines(text@).len() as int);
            let m = override_table(text@);
            assert(m.dom() =~= irregular_words@.dom());
            assert forall|k: Seq<char>| irregular_words@.contains_key(k) implies (
            #[trigger] irregular_words@[k]).len() > 0 by {
                assert(m.contains_key(k));
                assert(m[k] == views(irregular_words@[k]@));
            }
        }
        Ok(RulesEngine { rules, rule_groups, irregular_words })
    }

    /// The index of a rule table: for each character the rules whose
    /// patterns start with it, in the order of the table.
    pub fn build_index(rules: &Vec<Rule>) -> (groups: HashMap<u32, Vec<usize>>)
        ensures
            forall|c: char| #[trigger] indexed(groups@, c) == group_of(views(rules@), c),
    {
        broadcast use vstd::std_specs::hash::group_hash_axioms;

        let ghost rv = views(rules@);
        let mut groups: HashMap<u32, Vec<usize>> = HashMap::new();
        let mut idx: usize = 0;
        while idx < rules.len()
            invariant
                idx <= rules.len(),
                rv == views(rules@),
                forall|c: char| #[trigger] indexed(groups@, c) == group_upto(rv, c, idx as nat),
            decreases rules.len() - idx,
        {
            let pattern = rules[idx].pattern.as_str();
            assert(rv[idx as int] == rules[idx as int]@);
            let ghost before = groups@;
            if !pattern.is_empty() {
                let first: char = pattern.get_char(0);
                let key: u32 = first as u32;
                let mut members: Vec<usize> = match groups.remove(&key) {
                    Some(found) => found,
                    None => Vec::new(),
                };
                assert(members@ == indexed(before, first));
                members.push(idx);
                groups.insert(key, members);
                assert forall|c: char| #[trigger] indexed(groups@, c) == group_upto(
                    rv,
                    c,
                    (idx + 1) as nat,
                ) by {
                    assert(indexed(before, c) == group_upto(rv, c, idx as nat));
                    if c != first {
                        vstd::utf8::char_u32_cast(c, c as u32);
                        vstd::utf8::char_u32_cast(first, key);
                    }
                }
            } else {
                assert forall|c: char| #[trigger] indexed(groups@, c) == group_upto(
                    rv,
                    c,
                    (idx + 1) as nat,
                ) by {
                    assert(indexed(before, c) == group_upto(rv, c, idx as nat));
                }
            }
            idx += 1;
        }
        groups
    }

    /// Whether the character is one of the six vowel letters, in either case.
    pub fn is_vowel(ch: char) -> (r: bool)
        ensures
            r == vowel_letter(ch),
    {
        let l: char = lower_char(ch);
        l == 'a' || l == 'e' || l == 'i' || l == 'o' || l == 'u' || l == 'y'
    }

    /// Whether a pattern stands in `word` at index `at`, whatever the case
    /// of the letters of either.
    fn pattern_in(pattern: &Vec<char>, word: &Vec<char>, at: usize) -> (r: bool)
        ensures
            r == pattern_at(pattern@, word@, at as int),
    {
        if at > word.len() || pattern.len() > word.len() - at {
            return false;
        }
        let mut i: usize = 0;
        while i < pattern.len()
            invariant
                i <= pattern.len(),
                at + pattern.len() <= word.len(),
                forall|j: int|
                    0 <= j < i ==> to_lower(#[trigger] pattern[j]) == to_lower(word[at + j]),
            decreases pattern.len() - i,
        {
            if lower_char(word[at + i]) != lower_char(pattern[i]) {
                return false;
            }
            i += 1;
        }
        true
    }

    /// Whether the literal `text` of a context stands in `word` at index
    /// `at`, the letters of the word taken in lower case.
    fn literal_in(text: &Vec<char>, word: &Vec<char>, at: usize) -> (r: bool)
        ensures
            r == literal_at(text@, word@, at as int),
    {
        if at > word.len() || text.len() > word.len() - at {
            return false;
        }
        let mut i: usize = 0;
        while i < text.len()
            invariant
                i <= text.len(),
                at + text.len() <= word.len(),
                forall|j: int| 0 <= j < i ==> #[trigger] text[j] == to_lower(word[at + j]),
            decreases text.len() - i,
        {
            if lower_char(word[at + i]) != text[i] {
                return false;
            }
            i += 1;
        }
        true
    }

    /// Whether a right context holds at the index where the pattern ends.
    pub fn check_right_context(context: &str, word: &Vec<char>, pos: usize) -> (r: bool)
        ensures
            r == right_context_holds(context@, word@, pos as int),
    {
        let text = chars_of(context);
        if spells(&text, "END") {
            pos >= word.len()
        } else {
            Self::literal_in(&text, word, pos)
        }
    }

    /// Whether a left context holds at the index where the pattern starts.
    pub fn check_left_context(context: &str, word: &Vec<char>, pos: usize) -> (r: bool)
        ensures
            r == left_context_holds(context@, word@, pos as int),
    {
        let text = chars_of(context);
        if spells(&text, "START") {
            pos == 0
        } else if text.len() > pos {
            false
        } else {
            Self::literal_in(&text, word, pos - text.len())
        }
    }

    /// Whether a condition holds at the index where the pattern starts.
    pub fn check_condition(condition: &RuleCondition, word: &Vec<char>, pos: usize) -> (r: bool)
        ensures
            r == condition_holds(*condition, word@, pos as int),
    {
        match condition {
            RuleCondition::WordStart => pos == 0,
            RuleCondition::WordEnd => word.len() > 0 && pos == word.len() - 1,
            RuleCondition::BeforeVowel => {
                if pos < word.len() && pos + 1 < word.len() {
                    Self::is_vowel(word[pos + 1])
                } else {
                    false
                }
            },
            RuleCondition::AfterVowel => {
                if pos > 0 && pos - 1 < word.len() {
                    Self::is_vowel(word[pos - 1])
                } else {
                    false
                }
            },
            RuleCondition::Stressed => true,
            RuleCondition::Unstressed => true,
        }
    }

    /// The priority of the rule if it matches at the position: if its
    /// pattern stands there, in whatever case, its contexts hold and each of
    /// its conditions holds.
    pub fn rule_matches(rule: &Rule, word: &Vec<char>, pos: usize) -> (r: Option<usize>)
        ensures
            match r {
                Some(priority) => rule_matches_at(rule@, word@, pos as int) && priority
                    == rule.priority,
                None => !rule_matches_at(rule@, word@, pos as int),
            },
    {
        let pattern = chars_of(rule.pattern.as_str());
        if !Self::pattern_in(&pattern, word, pos) {
            return None;
        }
        assert(pos + pattern.len() <= word.len());
        match &rule.right_context {
            Some(context) => {
                if !Self::check_right_context(context.as_str(), word, pos + pattern.len()) {
                    return None;
                }
            },
            None => {},
        }
        match &rule.left_context {
            Some(context) => {
                if !Self::check_left_context(context.as_str(), word, pos) {
                    return None;
                }
            },
            None => {},
        }
        let mut i: usize = 0;
        while i < rule.conditions.len()
            invariant
                i <= rule.conditions.len(),
                forall|j: int|
                    0 <= j < i ==> condition_holds(#[trigger] rule.conditions[j], word@, pos as int),
            decreases rule.conditions.len() - i,
        {
            if !Self::check_condition(&rule.conditions[i], word, pos) {
                assert(!condition_holds(rule@.conditions[i as int], word@, pos as int));
                return None;
            }
            i += 1;
        }
        Some(rule.priority)
    }

    /// The rule chosen at a position of a word: of the rules indexed under
    /// the character there, the first in the order of the table that matches.
    /// It has the highest priority of all the rules that fire there, and of
    /// those that share this priority it stands first.
    pub fn find_best_rule(&self, word: &Vec<char>, pos: usize) -> (r: Option<usize>)
        requires
            pos < word.len(),
        ensures
            match r {
                Some(k) => {
                    &&& k < self.rules().len()
                    &&& best_rule(self.rules(), word@, pos as int) == Some(k as int)
                    &&& fires(self.rules()[k as int], word@, pos as int)
                    &&& forall|j: int|
                        0 <= j < self.rules().len() && fires(
                            #[trigger] self.rules()[j],
                            word@,
                            pos as int,
                        ) ==> {
                            &&& self.rules()[j].priority <= self.rules()[k as int].priority
                            &&& self.rules()[j].priority == self.rules()[k as int].priority ==> k
                                <= j
                        }
                },
                None => {
                    &&& best_rule(self.rules(), word@, pos as int) is None
                    &&& forall|j: int|
                        0 <= j < self.rules().len() ==> !fires(
                            #[trigger] self.rules()[j],
                            word@,
                            pos as int,
                        )
                },
            },
    {
        broadcast use vstd::std_specs::hash::group_hash_axioms;

        let ghost rv = views(self.rules@);
        let c: char = word[pos];
        let count: usize = self.rules.len();
        proof {
            use_type_invariant(self);
            lemma_group(rv, c, rv.len());
            lemma_first_firing(rv, word@, pos as int, 0);
            lemma_best_rule_has_top_priority(rv, word@, pos as int);
            assert(indexed(self.rule_groups@, c) == group_of(rv, c));
        }
        let key: u32 = c as u32;
        match self.rule_groups.get(&key) {
            Some(members) => {
                assert(members@ == group_of(rv, c));
                let mut k: usize = 0;
                while k < members.len()
                    invariant
                        k <= members.len(),
                        pos < word.len(),
                        c == word[pos as int],
                        rv == views(self.rules@),
                        rv.len() == count,
                        descending(rv),
                        members@ == group_of(rv, c),
                        forall|l: int|
                            0 <= l < k ==> !rule_matches_at(
                                rv[(#[trigger] members[l]) as int],
                                word@,
                                pos as int,
                            ),
                    decreases members.len() - k,
                {
                    let idx: usize = members[k];
                    proof {
                        lemma_group(rv, c, rv.len());
                    }
                    assert(idx < self.rules.len());
                    assert(rv[idx as int] == self.rules[idx as int]@);
                    if Self::rule_matches(&self.rules[idx], word, pos).is_some() {
                        proof {
                            assert forall|j: int| 0 <= j < idx implies !fires(
                                #[trigger] rv[j],
                                word@,
                                pos as int,
                            ) by {
                                if fires(rv[j], word@, pos as int) {
                                    assert(members@.contains(j as usize));
                                    let l = members@.index_of(j as usize);
                                    assert(members[l] == j as usize);
                                    if l >= k {
                                        assert(members[k as int] <= members[l]);
                                    }
                                }
                            }
                            lemma_best_rule_is(rv, word@, pos as int, idx as int);
                            lemma_best_rule_has_top_priority(rv, word@, pos as int);
                        }
                        return Some(idx);
                    }
                    k += 1;
                }
                proof {
                    lemma_group(rv, c, rv.len());
                    assert forall|j: int| 0 <= j < rv.len() implies !fires(
                        #[trigger] rv[j],
                        word@,
                        pos as int,
                    ) by {
                        if fires(rv[j], word@, pos as int) {
                            assert(members@.contains(j as usize));
                            let l = members@.index_of(j as usize);
                            assert(members[l] == j as usize);
                        }
                    }
                }
                None
            },
            None => {
                proof {
                    assert(group_of(rv, c).len() == 0);
                    assert forall|j: int| 0 <= j < rv.len() implies !fires(
                        #[trigger] rv[j],
                        word@,
                        pos as int,
                    ) by {
                        if fires(rv[j], word@, pos as int) {
                            assert(group_of(rv, c).contains(j as usize));
                        }
                    }
                }
                None
            },
        }
    }

    /// The fallback symbol of a character.
    pub fn get_default_phoneme(ch: char) -> (r: Option<&'static str>)
        ensures
            match r {
                Some(symbol) => default_symbol(ch) == Some(symbol@),
                None => default_symbol(ch) is None,
            },
    {
        match lower_char(ch) {
            'a' => Some("AE0"),
            'b' => Some("B"),
            'c' => Some("K"),
            'd' => Some("D"),
            'e' => Some("EH0"),
            'f' => Some("F"),
            'g' => Some("G"),
            'h' => Some("HH"),
            'i' => Some("IH0"),
            'j' => Some("JH"),
            'k' => Some("K"),
            'l' => Some("L"),
            'm' => Some("M"),
            'n' => Some("N"),
            'o' => Some("OW0"),
            'p' => Some("P"),
            'q' => Some("K"),
            'r' => Some("R"),
            's' => Some("S"),
            't' => Some("T"),
            'u' => Some("UH0"),
            'v' => Some("V"),
            'w' => Some("W"),
            'x' => Some("K"),
            'y' => Some("Y"),
            'z' => Some("Z"),
            _ => None,
        }
    }

    /// Appends what a rule emits.
    fn emit(rule: &Rule, out: &mut Vec<Phoneme>)
        ensures
            views(final(out)@) == views(old(out)@) + rule_output(rule@),
    {
        let ghost before = views(out@);
        let ghost symbols = views(rule.phonemes@);
        let mut i: usize = 0;
        assert(views(out@) =~= before + spoken(symbols, 0));
        while i < rule.phonemes.len()
            invariant
                i <= rule.phonemes.len(),
                symbols == views(rule.phonemes@),
                views(out@) == before + spoken(symbols, i as int),
            decreases rule.phonemes.len() - i,
        {
            let symbol = rule.phonemes[i].as_str();
            assert(symbols[i as int] == symbol@);
            if !symbol.is_empty() {
                let ghost sofar = views(out@);
                out.push(Phoneme::from_arpabet(symbol));
                assert(views(out@) =~= sofar.push(phoneme_of(symbol@)));
                assert(before + spoken(symbols, i + 1) =~= sofar.push(phoneme_of(symbol@)));
            }
            i += 1;
        }
    }

    /// The pronunciation of a word by rule. An irregular word is given its
    /// override and no rule is looked at. Any other word is scanned from left
    /// to right: at each position the chosen rule emits its symbols and
    /// consumes its pattern, and where no rule fires the letter there emits
    /// its fallback sound, or nothing if it has none, and is consumed alone.
    /// Never fails.
    pub fn apply_rules(&self, word: &str) -> (r: Result<Vec<Phoneme>, G2PError>)
        ensures
            r is Ok,
            views(r.unwrap()@) == self.pronunciation(word@),
            descending(self.rules()),
            self.irregular().contains_key(unicode_lowercase(word@)) ==> views(r.unwrap()@)
                == phonemes_of(self.irregular()[unicode_lowercase(word@)]),
            r.unwrap()@.len() > 0 <==> self.irregular().contains_key(unicode_lowercase(word@))
                || some_step_emits(self.rules(), word@, 0),
    {
        proof {
            use_type_invariant(self);
            use_type_invariant(&self.irregular_words);
            lemma_scan_emits(self.rules(), word@, 0);
        }
        let folded = chars_of(word.to_lowercase().as_str());
        match self.irregular_words.get(&folded) {
            Some(symbols) => {
                let phonemes = phonemes_from(symbols);
                assert(self.irregular().contains_key(folded@));
                assert(views(phonemes@).len() == symbols@.len());
                return Ok(phonemes);
            },
            None => {},
        }
        let letters = chars_of(word);
        let ghost rv = self.rules();
        let mut out: Vec<Phoneme> = Vec::new();
        let mut pos: usize = 0;
        assert(views(out@) + scan_from(rv, letters@, 0) =~= scan_from(rv, letters@, 0));
        while pos < letters.len()
            invariant
                pos <= letters.len(),
                rv == self.rules(),
                views(out@) + scan_from(rv, letters@, pos as int) == scan_from(rv, letters@, 0),
            decreases letters.len() - pos,
        {
            let ghost before = views(out@);
            proof {
                lemma_step_length(rv, letters@, pos as int);
            }
            match self.find_best_rule(&letters, pos) {
                Some(k) => {
                    let rule = &self.rules[k];
                    assert(rv[k as int] == rule@);
                    Self::emit(rule, &mut out);
                    let consumed: usize = rule.pattern.as_str().unicode_len();
                    assert((before + rule_output(rule@)) + scan_from(
                        rv,
                        letters@,
                        pos + consumed,
                    ) =~= before + scan_from(rv, letters@, pos as int));
                    pos = pos + consumed;
                },
                None => {
                    match Self::get_default_phoneme(letters[pos]) {
                        Some(symbol) => {
                            out.push(Phoneme::from_arpabet(symbol));
                            assert(views(out@) =~= before.push(phoneme_of(symbol@)));
                        },
                        None => {},
                    }
                    assert(views(out@) + scan_from(rv, letters@, pos + 1) =~= before + scan_from(
                        rv,
                        letters@,
                        pos as int,
                    ));
                    pos += 1;
                },
            }
        }
        assert(views(out@) + Seq::<PhonemeView>::empty() =~= views(out@));
        Ok(out)
    }

    /// The rules in the order of the table: by descending priority, rules
    /// of one priority in the order in which the source states them.
    pub fn rules_in_order(&self) -> (r: &Vec<Rule>)
        ensures
            views(r@) == self.rules(),
            descending(self.rules()),
    {
        proof {
            use_type_invariant(self);
        }
        &self.rules
    }

    /// Number of rules in the table.
    pub fn rule_count(&self) -> (r: usize)
        ensures
            r == self.rules().len(),
    {
        self.rules.len()
    }

    /// Number of irregular words.
    pub fn irregular_count(&self) -> (r: usize)
        ensures
            r == self.irregular().len(),
    {
        let n = self.irregular_words.len();
        assert(self.irregular().dom() =~= self.irregular_words@.dom());
        n
    }
}

} // verus!
