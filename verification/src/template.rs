//! Templates: the regular expression that two samples have in common, built
//! from the alignment of their tokens.
//!
//! What both samples share stands in the template as an escaped literal; what
//! differs between two shared runs becomes a capturing slot, `(\d+)` where
//! both sides are numbers and `(.+)` otherwise.

use crate::alignment::{
    aligned_blocks, block_fits, check_alignment, first_end_before, is_alignment, matching_blocks,
    second_end_before, MatchingBlock,
};
use crate::engine::{accepts, escaped, search};
use crate::text::chars_of;
use crate::tokens::{is_digit, tokenize, tokens_of};
use vstd::prelude::*;
use vstd::string::StringExecFns;

verus! {

/// The largest number that a numeric slot is inferred from.
pub const NUMBER_MAX: u32 = 65535;

/// The slot that stands for a number.
pub const NUMBER_SLOT: &'static str = "(\\d+)";

/// The slot that stands for any text.
pub const TEXT_SLOT: &'static str = "(.+)";

/// What a template starts with: matching ignores case and begins at the
/// start of the text.
pub const TEMPLATE_HEAD: &'static str = "(?i)^";

/// What a template ends with: matching goes to the end of the text.
pub const TEMPLATE_TAIL: &'static str = "$";

/// The value of a character as a decimal digit; 0 for any other character.
pub open spec fn digit_value(c: char) -> nat {
    if is_digit(c) {
        (c as nat - '0' as nat) as nat
    } else {
        0
    }
}

/// The number that `digits` writes in base ten.
pub open spec fn decimal_value(digits: Seq<char>) -> nat
    decreases digits.len(),
{
    if digits.len() == 0 {
        0
    } else {
        decimal_value(digits.drop_last()) * 10 + digit_value(digits.last())
    }
}

/// `text` writes a number: it is made of digits, at least one, and its value
/// is at most `NUMBER_MAX`.
pub open spec fn is_number(text: Seq<char>) -> bool {
    &&& text.len() > 0
    &&& forall|i: int| 0 <= i < text.len() ==> is_digit(#[trigger] text[i])
    &&& decimal_value(text) <= NUMBER_MAX
}

/// The tokens `tokens[from..to]` joined into one text.
pub open spec fn joined(tokens: Seq<Seq<char>>, from: int, to: int) -> Seq<char> {
    tokens.subrange(from, to).flatten()
}

/// The slot for a gap that holds `gap1` in the first sample and `gap2` in the
/// second: none where the first sample has nothing there.
pub open spec fn slot(gap1: Seq<char>, gap2: Seq<char>) -> Seq<char> {
    if gap1.len() == 0 {
        Seq::empty()
    } else if is_number(gap1) && is_number(gap2) {
        NUMBER_SLOT@
    } else {
        TEXT_SLOT@
    }
}

/// What the block `blocks[k]` and the gap before it add to the rule, or
/// `None` where they show that the two samples have no template: after the
/// first block, a gap before shared tokens must hold something on both sides.
pub open spec fn rule_piece(
    first: Seq<Seq<char>>,
    second: Seq<Seq<char>>,
    blocks: Seq<MatchingBlock>,
    k: int,
) -> Option<Seq<char>> {
    let block = blocks[k];
    let gap1 = joined(first, first_end_before(blocks, k), block.first_start as int);
    let gap2 = joined(second, second_end_before(blocks, k), block.second_start as int);
    let literal = joined(first, block.first_start as int, block.first_start + block.size);
    if k > 0 && block.size != 0 && (gap1.len() == 0 || gap2.len() == 0) {
        None
    } else {
        Some(slot(gap1, gap2) + escaped(literal))
    }
}

/// The rule that the first `k` blocks give, or `None` where one of them
/// shows that there is no template.
pub open spec fn rule_prefix(
    first: Seq<Seq<char>>,
    second: Seq<Seq<char>>,
    blocks: Seq<MatchingBlock>,
    k: nat,
) -> Option<Seq<char>>
    decreases k,
{
    if k == 0 {
        Some(Seq::empty())
    } else {
        match (
            rule_prefix(first, second, blocks, (k - 1) as nat),
            rule_piece(first, second, blocks, k - 1),
        ) {
            (Some(prefix), Some(piece)) => Some(prefix + piece),
            _ => None,
        }
    }
}

/// The rule of two token sequences under an alignment: the pieces of all
/// blocks in order. There is none where a block shows so, and none where the
/// rule would be a single text slot, which says nothing of the samples.
pub open spec fn rule_of(
    first: Seq<Seq<char>>,
    second: Seq<Seq<char>>,
    blocks: Seq<MatchingBlock>,
) -> Option<Seq<char>> {
    match rule_prefix(first, second, blocks, blocks.len()) {
        Some(rule) => if rule == TEXT_SLOT@ {
            None
        } else {
            Some(rule)
        },
        None => None,
    }
}

/// The pattern of the template with the given rule.
pub open spec fn template_text(rule: Seq<char>) -> Seq<char> {
    TEMPLATE_HEAD@ + rule + TEMPLATE_TAIL@
}

/// The template of two samples: the rule of their tokens under the alignment
/// that `difflib` gives, between the head and the tail of a template; none
/// where there is no rule or the blocks are no alignment.
pub open spec fn pair_template(sample1: Seq<char>, sample2: Seq<char>) -> Option<Seq<char>> {
    let first = tokens_of(sample1);
    let second = tokens_of(sample2);
    let blocks = aligned_blocks(first, second);
    if is_alignment(blocks, first.len() as int, second.len() as int) {
        match rule_of(first, second, blocks) {
            Some(rule) => Some(template_text(rule)),
            None => None,
        }
    } else {
        None
    }
}

/// `pattern` is the pattern of a template: some rule between the head, which
/// makes matching ignore case and start at the start of the text, and the
/// tail, which makes it go to the end.
pub open spec fn is_template_text(pattern: Seq<char>) -> bool {
    exists|rule: Seq<char>| pattern == template_text(rule)
}

/// A regular expression inferred from samples. Its view is its pattern.
#[derive(Debug)]
pub struct Template {
    pattern: String,
}

impl View for Template {
    type V = Seq<char>;

    closed spec fn view(&self) -> Seq<char> {
        self.pattern@
    }
}

impl Template {
    /// Every template is a rule between the head and the tail.
    #[verifier::type_invariant]
    closed spec fn well_formed(&self) -> bool {
        is_template_text(self.pattern@)
    }

    /// The pattern, as the engine takes it.
    pub fn as_str(&self) -> (pattern: &str)
        ensures
            pattern@ == self@,
            is_template_text(pattern@),
    {
        proof {
            use_type_invariant(self);
        }
        self.pattern.as_str()
    }

    /// Whether the template matches `text`.
    pub fn is_match(&self, text: &str) -> (found: bool)
        ensures
            found == accepts(self@, text@),
    {
        match search(self.pattern.as_str(), text) {
            Some(found) => found,
            None => false,
        }
    }
}

/// The pattern of a template that may be absent.
pub open spec fn pattern_of(template: Option<Template>) -> Option<Seq<char>> {
    match template {
        Some(t) => Some(t@),
        None => None,
    }
}

/// The text of a string that may be absent.
pub open spec fn text_of(string: Option<String>) -> Option<Seq<char>> {
    match string {
        Some(s) => Some(s@),
        None => None,
    }
}

/// A slot stands for a number exactly where both gaps write one, and a gap
/// that writes a number holds digits only.
pub proof fn lemma_number_slot(gap1: Seq<char>, gap2: Seq<char>)
    ensures
        slot(gap1, gap2) == NUMBER_SLOT@ <==> is_number(gap1) && is_number(gap2),
        is_number(gap1) ==> forall|i: int| 0 <= i < gap1.len() ==> '0' <= #[trigger] gap1[i] <= '9',
{
    reveal_strlit("(\\d+)");
    reveal_strlit("(.+)");
    if !(is_number(gap1) && is_number(gap2)) {
        if gap1.len() == 0 {
            assert(slot(gap1, gap2).len() != NUMBER_SLOT@.len());
        } else {
            assert(slot(gap1, gap2)[1] != NUMBER_SLOT@[1]);
        }
    }
}

/// A longer text of digits is worth no less.
pub proof fn lemma_decimal_value_grows(digits: Seq<char>, n: int)
    requires
        0 <= n <= digits.len(),
    ensures
        decimal_value(digits.take(n)) <= decimal_value(digits),
    decreases digits.len() - n,
{
    if n < digits.len() {
        lemma_decimal_value_grows(digits, n + 1);
        assert(digits.take(n + 1).drop_last() == digits.take(n));
    } else {
        assert(digits.take(n) == digits);
    }
}

/// Whether `text` writes a number.
pub fn is_number_text(text: &str) -> (yes: bool)
    ensures
        yes == is_number(text@),
{
    let chars = chars_of(text);
    if chars.len() == 0 {
        return false;
    }
    let mut value: u32 = 0;
    let mut i: usize = 0;
    while i < chars.len()
        invariant
            chars@ == text@,
            0 <= i <= chars.len(),
            forall|j: int| 0 <= j < i ==> is_digit(#[trigger] chars@[j]),
            value == decimal_value(chars@.take(i as int)),
            value <= NUMBER_MAX,
        decreases chars.len() - i,
    {
        let c = chars[i];
        if !('0' <= c && c <= '9') {
            return false;
        }
        let digit: u32 = c as u32 - '0' as u32;
        proof {
            assert(chars@.take(i + 1).drop_last() == chars@.take(i as int));
            lemma_decimal_value_grows(chars@, i + 1);
        }
        value = value * 10 + digit;
        if value > NUMBER_MAX {
            return false;
        }
        i += 1;
    }
    assert(chars@.take(i as int) == chars@);
    true
}

/// The tokens `tokens[from..to]` joined into one string.
pub fn join_range(tokens: &Vec<String>, from: usize, to: usize) -> (text: String)
    requires
        from <= to <= tokens.len(),
    ensures
        text@ == joined(tokens.deep_view(), from as int, to as int),
{
    let mut text = String::new();
    let mut i: usize = from;
    assert(tokens.deep_view().subrange(from as int, from as int) == Seq::<Seq<char>>::empty());
    while i < to
        invariant
            from <= i <= to <= tokens.len(),
            text@ == joined(tokens.deep_view(), from as int, i as int),
        decreases to - i,
    {
        proof {
            let all = tokens.deep_view();
            assert(all.subrange(from as int, i + 1) == all.subrange(from as int, i as int).push(
                tokens[i as int]@,
            ));
            all.subrange(from as int, i as int).lemma_flatten_push(tokens[i as int]@);
        }
        text.append(tokens[i].as_str());
        i += 1;
    }
    text
}

/// The slot for a gap that holds `gap1` in the first sample and `gap2` in the
/// second.
pub fn slot_for(gap1: &str, gap2: &str) -> (pattern: &'static str)
    ensures
        pattern@ == slot(gap1@, gap2@),
{
    if gap1.is_empty() {
        proof {
            reveal_strlit("");
        }
        ""
    } else if is_number_text(gap1) && is_number_text(gap2) {
        NUMBER_SLOT
    } else {
        TEXT_SLOT
    }
}

/// Builds the rule of two token sequences from their alignment: for each
/// block in order the slot of the gap before it, then the block's tokens as
/// an escaped literal.
pub fn rule_from_blocks(
    first: &Vec<String>,
    second: &Vec<String>,
    blocks: &Vec<MatchingBlock>,
) -> (rule: Option<String>)
    requires
        is_alignment(blocks@, first.len() as int, second.len() as int),
    ensures
        text_of(rule) == rule_of(first.deep_view(), second.deep_view(), blocks@),
{
    let mut rule = String::new();
    let mut first_end: usize = 0;
    let mut second_end: usize = 0;
    let mut k: usize = 0;
    while k < blocks.len()
        invariant
            is_alignment(blocks@, first.len() as int, second.len() as int),
            0 <= k <= blocks.len(),
            first_end == first_end_before(blocks@, k as int),
            second_end == second_end_before(blocks@, k as int),
            rule_prefix(first.deep_view(), second.deep_view(), blocks@, k as nat) == Some(rule@),
        decreases blocks.len() - k,
    {
        let block = blocks[k];
        assert(block_fits(blocks@, k as int, first.len() as int, second.len() as int));
        let gap1 = join_range(first, first_end, block.first_start);
        let gap2 = join_range(second, second_end, block.second_start);
        let literal = join_range(first, block.first_start, block.first_start + block.size);
        if k > 0 && block.size != 0 && (gap1.as_str().is_empty() || gap2.as_str().is_empty()) {
            proof {
                lemma_rule_fails_from(
                    first.deep_view(),
                    second.deep_view(),
                    blocks@,
                    k as nat + 1,
                    blocks@.len(),
                );
            }
            return None;
        }
        rule.append(slot_for(gap1.as_str(), gap2.as_str()));
        rule.append(regex::escape(literal.as_str()).as_str());
        first_end = block.first_start + block.size;
        second_end = block.second_start + block.size;
        k += 1;
    }
    if rule == String::from_str(TEXT_SLOT) {
        None
    } else {
        Some(rule)
    }
}

/// The text of the first sample that the first `k` blocks and the gaps
/// before them stand for.
pub open spec fn covered_text(first: Seq<Seq<char>>, blocks: Seq<MatchingBlock>, k: nat) -> Seq<
    char,
>
    decreases k,
{
    if k == 0 {
        Seq::empty()
    } else {
        let block = blocks[k - 1];
        covered_text(first, blocks, (k - 1) as nat) + joined(
            first,
            first_end_before(blocks, k - 1),
            block.first_start as int,
        ) + joined(first, block.first_start as int, block.first_start + block.size)
    }
}

/// Two stretches of tokens that meet, joined one after the other, are the
/// stretch from the start of the one to the end of the other.
pub proof fn lemma_joined_meets(tokens: Seq<Seq<char>>, from: int, mid: int, to: int)
    requires
        0 <= from <= mid <= to <= tokens.len(),
    ensures
        joined(tokens, from, mid) + joined(tokens, mid, to) == joined(tokens, from, to),
{
    vstd::seq_lib::lemma_flatten_concat(tokens.subrange(from, mid), tokens.subrange(mid, to));
    assert(tokens.subrange(from, mid) + tokens.subrange(mid, to) == tokens.subrange(from, to));
}

/// An alignment leaves nothing of the first sample out: its gaps and blocks,
/// in order, are the tokens of the first sample from the first to the last.
/// A rule has a slot for each gap that holds something and a literal for each
/// block, so it speaks of the whole first sample.
pub proof fn lemma_alignment_covers_first(
    first: Seq<Seq<char>>,
    blocks: Seq<MatchingBlock>,
    second_len: int,
    k: nat,
)
    requires
        is_alignment(blocks, first.len() as int, second_len),
        k <= blocks.len(),
    ensures
        covered_text(first, blocks, k) == joined(first, 0, first_end_before(blocks, k as int)),
        k == blocks.len() ==> covered_text(first, blocks, k) == first.flatten(),
    decreases k,
{
    if k == 0 {
        assert(first.subrange(0, 0) == Seq::<Seq<char>>::empty());
    } else {
        let block = blocks[k - 1];
        assert(block_fits(blocks, k - 1, first.len() as int, second_len));
        if k >= 2 {
            assert(block_fits(blocks, k - 2, first.len() as int, second_len));
        }
        lemma_alignment_covers_first(first, blocks, second_len, (k - 1) as nat);
        let gap_start = first_end_before(blocks, k - 1);
        lemma_joined_meets(first, 0, gap_start, block.first_start as int);
        lemma_joined_meets(first, 0, block.first_start as int, block.first_start + block.size);
        if k == blocks.len() {
            assert(first.subrange(0, first.len() as int) == first);
        }
    }
}

/// Once a block has shown that there is no template, later blocks do not
/// bring one back.
pub proof fn lemma_rule_fails_from(
    first: Seq<Seq<char>>,
    second: Seq<Seq<char>>,
    blocks: Seq<MatchingBlock>,
    k: nat,
    n: nat,
)
    requires
        k <= n,
        rule_prefix(first, second, blocks, k) is None,
    ensures
        rule_prefix(first, second, blocks, n) is None,
    decreases n - k,
{
    if k < n {
        lemma_rule_fails_from(first, second, blocks, k + 1, n);
    }
}

/// Infers the template that `sample1` and `sample2` have in common: the two
/// are split into tokens and aligned, and the rule of the alignment is put
/// between the head and the tail of a template.
pub fn regex_from_pair(sample1: &str, sample2: &str) -> (template: Option<Template>)
    ensures
        pattern_of(template) == pair_template(sample1@, sample2@),
{
    let first = tokenize(sample1);
    let second = tokenize(sample2);
    let blocks = matching_blocks(&first, &second);
    if !check_alignment(&blocks, first.len(), second.len()) {
        return None;
    }
    match rule_from_blocks(&first, &second, &blocks) {
        Some(rule) => {
            let mut pattern = String::from_str(TEMPLATE_HEAD);
            pattern.append(rule.as_str());
            pattern.append(TEMPLATE_TAIL);
            assert(pattern@ == template_text(rule@));
            Some(Template { pattern })
        },
        None => None,
    }
}

} // verus!
