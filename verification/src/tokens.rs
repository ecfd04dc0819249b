//! The tokenizer: splits a string into the tokens that two samples are
//! aligned by.
//!
//! At each position the first of these that applies gives the token:
//! a written-out digit group `(\d+)`, a written-out wildcard group `(.+)`
//! (both possibly carrying the backslashes that escaping added), a run of
//! letters, a run of digits, or the single character that stands there.

use crate::engine::{accepts, search};
use crate::text::{chars_of, string_of};
use vstd::prelude::*;

verus! {

/// The pattern by which the engine tells whether a character outside ASCII
/// is a letter: a word character that is no digit.
pub const WORD_LETTER_PATTERN: &'static str = "^[^\\d\\W]$";

/// `str::to_lowercase` depends on the characters of the string only; this
/// names its result.
pub uninterp spec fn lowercased(text: Seq<char>) -> Seq<char>;

/// `str::to_lowercase` returns the lowercase equivalent of the string.
pub assume_specification[ str::to_lowercase ](text: &str) -> (lower: String)
    ensures
        lower@ == lowercased(text@),
;

/// The classes of characters of which a token can be a run.
#[derive(Clone, Copy, Debug, PartialEq, Eq)]
pub enum CharClass {
    /// The backslash alone.
    Backslash,
    /// Letters and the underscore.
    Letter,
    /// The ten digits of ASCII.
    Digit,
}

/// A digit of ASCII.
pub open spec fn is_digit(c: char) -> bool {
    '0' <= c <= '9'
}

/// A letter: in ASCII the 52 letters and the underscore; outside ASCII what
/// the engine takes for a word character that is no digit.
pub open spec fn is_letter(c: char) -> bool {
    if c <= '\x7f' {
        'a' <= c <= 'z' || 'A' <= c <= 'Z' || c == '_'
    } else {
        accepts(WORD_LETTER_PATTERN@, seq![c])
    }
}

/// Whether `c` belongs to `class`.
pub open spec fn in_class(class: CharClass, c: char) -> bool {
    match class {
        CharClass::Backslash => c == '\\',
        CharClass::Letter => is_letter(c),
        CharClass::Digit => is_digit(c),
    }
}

/// The number of characters of `class` that follow each other from `from` on.
pub open spec fn run_len(s: Seq<char>, from: int, class: CharClass) -> nat
    decreases s.len() - from,
{
    if 0 <= from < s.len() && in_class(class, s[from]) {
        1 + run_len(s, from + 1, class)
    } else {
        0
    }
}

/// Where a written-out group that starts at `from` ends, if one starts there:
/// any backslashes, `(`, backslashes (at least one if `slash_needed`),
/// `symbol`, any backslashes, `+`, any backslashes, `)`.
pub open spec fn group_end(s: Seq<char>, from: int, symbol: char, slash_needed: bool) -> Option<
    int,
> {
    let open = from + run_len(s, from, CharClass::Backslash);
    let slashes = run_len(s, open + 1, CharClass::Backslash);
    let sym = open + 1 + slashes;
    let plus = sym + 1 + run_len(s, sym + 1, CharClass::Backslash);
    let close = plus + 1 + run_len(s, plus + 1, CharClass::Backslash);
    if 0 <= from && open < s.len() && s[open] == '(' && (slash_needed ==> slashes >= 1) && sym
        < s.len() && s[sym] == symbol && plus < s.len() && s[plus] == '+' && close < s.len()
        && s[close] == ')' {
        Some(close + 1)
    } else {
        None
    }
}

/// Where the token that starts at `from` ends.
pub open spec fn token_end(s: Seq<char>, from: int) -> int {
    match group_end(s, from, 'd', true) {
        Some(end) => end,
        None => match group_end(s, from, '.', false) {
            Some(end) => end,
            None => if is_letter(s[from]) {
                from + 1 + run_len(s, from + 1, CharClass::Letter)
            } else if is_digit(s[from]) {
                from + 1 + run_len(s, from + 1, CharClass::Digit)
            } else {
                from + 1
            },
        },
    }
}

/// The tokens of `s` from `from` on, as they stand in `s`.
pub open spec fn raw_tokens(s: Seq<char>, from: int) -> Seq<Seq<char>>
    decreases s.len() - from,
{
    if 0 <= from < s.len() {
        let end = token_end(s, from);
        proof {
            lemma_token_end_bounds(s, from);
        }
        seq![s.subrange(from, end)] + raw_tokens(s, end)
    } else {
        Seq::empty()
    }
}

/// The tokens of `s`: those of `raw_tokens`, each in lower case.
pub open spec fn tokens_of(s: Seq<char>) -> Seq<Seq<char>> {
    raw_tokens(s, 0).map_values(|token: Seq<char>| lowercased(token))
}

/// A run ends inside the text.
pub proof fn lemma_run_len_bound(s: Seq<char>, from: int, class: CharClass)
    requires
        0 <= from <= s.len(),
    ensures
        from + run_len(s, from, class) <= s.len(),
    decreases s.len() - from,
{
    if from < s.len() && in_class(class, s[from]) {
        lemma_run_len_bound(s, from + 1, class);
    }
}

/// A token is never empty and ends inside the text.
pub proof fn lemma_token_end_bounds(s: Seq<char>, from: int)
    requires
        0 <= from < s.len(),
    ensures
        from < token_end(s, from) <= s.len(),
{
    lemma_run_len_bound(s, from + 1, CharClass::Letter);
    lemma_run_len_bound(s, from + 1, CharClass::Digit);
}

/// No token of a text is empty.
pub proof fn lemma_tokens_nonempty(s: Seq<char>, from: int, i: int)
    requires
        0 <= from,
        0 <= i < raw_tokens(s, from).len(),
    ensures
        raw_tokens(s, from)[i].len() > 0,
    decreases s.len() - from,
{
    lemma_token_end_bounds(s, from);
    if i > 0 {
        lemma_tokens_nonempty(s, token_end(s, from), i - 1);
    }
}

/// The tokens, put together in order, give the text back: every character
/// belongs to exactly one token.
pub proof fn lemma_tokens_partition(s: Seq<char>, from: int)
    requires
        0 <= from <= s.len(),
    ensures
        raw_tokens(s, from).flatten() == s.subrange(from, s.len() as int),
    decreases s.len() - from,
{
    if from < s.len() {
        let end = token_end(s, from);
        lemma_token_end_bounds(s, from);
        lemma_tokens_partition(s, end);
        let head = seq![s.subrange(from, end)];
        let rest = raw_tokens(s, end);
        vstd::seq_lib::lemma_flatten_concat(head, rest);
        head.lemma_flatten_one_element();
        assert(s.subrange(from, end) + s.subrange(end, s.len() as int) == s.subrange(
            from,
            s.len() as int,
        ));
    } else {
        assert(raw_tokens(s, from).flatten() =~= s.subrange(from, s.len() as int));
    }
}

/// Whether `c` belongs to `class`.
pub fn has_class(class: CharClass, c: char) -> (yes: bool)
    ensures
        yes == in_class(class, c),
{
    match class {
        CharClass::Backslash => c == '\\',
        CharClass::Digit => '0' <= c && c <= '9',
        CharClass::Letter => {
            if c <= '\x7f' {
                ('a' <= c && c <= 'z') || ('A' <= c && c <= 'Z') || c == '_'
            } else {
                let mut one = String::new();
                one.push(c);
                assert(one@ == seq![c]);
                match search(WORD_LETTER_PATTERN, one.as_str()) {
                    Some(found) => found,
                    None => false,
                }
            }
        },
    }
}

/// The position at which the run of `class` that starts at `from` ends.
pub fn run_end(chars: &Vec<char>, from: usize, class: CharClass) -> (end: usize)
    requires
        from <= chars.len(),
    ensures
        end == from + run_len(chars@, from as int, class),
        end <= chars.len(),
{
    let mut end: usize = from;
    while end < chars.len() && has_class(class, chars[end])
        invariant
            from <= end <= chars.len(),
            from + run_len(chars@, from as int, class) == end + run_len(
                chars@,
                end as int,
                class,
            ),
        decreases chars.len() - end,
    {
        end += 1;
    }
    end
}

/// Where the written-out group that starts at `from` ends, if one starts there.
pub fn scan_group(chars: &Vec<char>, from: usize, symbol: char, slash_needed: bool) -> (end:
    Option<usize>)
    requires
        from <= chars.len(),
    ensures
        end matches Some(e) ==> group_end(chars@, from as int, symbol, slash_needed) == Some(
            e as int,
        ),
        end is None ==> group_end(chars@, from as int, symbol, slash_needed) is None,
{
    let open = run_end(chars, from, CharClass::Backslash);
    if open >= chars.len() || chars[open] != '(' {
        return None;
    }
    let sym = run_end(chars, open + 1, CharClass::Backslash);
    if (slash_needed && sym == open + 1) || sym >= chars.len() || chars[sym] != symbol {
        return None;
    }
    let plus = run_end(chars, sym + 1, CharClass::Backslash);
    if plus >= chars.len() || chars[plus] != '+' {
        return None;
    }
    let close = run_end(chars, plus + 1, CharClass::Backslash);
    if close >= chars.len() || chars[close] != ')' {
        return None;
    }
    Some(close + 1)
}

/// Where the token that starts at `from` ends.
pub fn next_token_end(chars: &Vec<char>, from: usize) -> (end: usize)
    requires
        from < chars.len(),
    ensures
        end == token_end(chars@, from as int),
        from < end <= chars.len(),
{
    proof {
        lemma_token_end_bounds(chars@, from as int);
    }
    if let Some(end) = scan_group(chars, from, 'd', true) {
        return end;
    }
    if let Some(end) = scan_group(chars, from, '.', false) {
        return end;
    }
    let c = chars[from];
    if has_class(CharClass::Letter, c) {
        run_end(chars, from + 1, CharClass::Letter)
    } else if has_class(CharClass::Digit, c) {
        run_end(chars, from + 1, CharClass::Digit)
    } else {
        from + 1
    }
}

/// Splits `text` into its tokens, in order and in lower case. Every
/// character of `text` falls into exactly one token, and no token is empty
/// (`lemma_tokens_partition`, `lemma_tokens_nonempty`). Tokens are always
/// folded to lower case; telling samples apart by case is not supported.
pub fn tokenize(text: &str) -> (tokens: Vec<String>)
    ensures
        tokens.deep_view() == tokens_of(text@),
{
    let chars = chars_of(text);
    let mut tokens: Vec<String> = Vec::new();
    let ghost mut raw: Seq<Seq<char>> = Seq::empty();
    let mut from: usize = 0;
    while from < chars.len()
        invariant
            chars@ == text@,
            from <= chars.len(),
            raw_tokens(chars@, 0) == raw + raw_tokens(chars@, from as int),
            tokens.deep_view() == raw.map_values(|token: Seq<char>| lowercased(token)),
        decreases chars.len() - from,
    {
        let end = next_token_end(&chars, from);
        let token = string_of(&chars, from, end).as_str().to_lowercase();
        proof {
            let piece = chars@.subrange(from as int, end as int);
            assert(raw.push(piece) + raw_tokens(chars@, end as int) == raw + raw_tokens(
                chars@,
                from as int,
            ));
            assert(tokens.deep_view().push(token@) == raw.push(piece).map_values(
                |token: Seq<char>| lowercased(token),
            ));
            raw = raw.push(piece);
        }
        tokens.push(token);
        assert(tokens.deep_view() == raw.map_values(|token: Seq<char>| lowercased(token)));
        from = end;
    }
    assert(raw + raw_tokens(chars@, from as int) == raw);
    tokens
}

} // verus!
