//! The regular-expression engine: what the `regex` crate does for this
//! library, and the contracts under which the rest of the library calls it.

use regex::Regex;
use vstd::prelude::*;

verus! {

/// The characters to which the pattern syntax gives a meaning of their own.
pub open spec fn is_meta_character(c: char) -> bool {
    c == '\\' || c == '.' || c == '+' || c == '*' || c == '?' || c == '(' || c == ')' || c == '|'
        || c == '[' || c == ']' || c == '{' || c == '}' || c == '^' || c == '$' || c == '#'
        || c == '&' || c == '-' || c == '~'
}

/// One character of a literal as it stands in a pattern: a meta character
/// follows a backslash, any other character stands for itself.
pub open spec fn escaped_char(c: char) -> Seq<char> {
    if is_meta_character(c) {
        seq!['\\', c]
    } else {
        seq![c]
    }
}

/// `text` as a literal in a pattern: its characters in order, each escaped
/// where it is a meta character.
pub open spec fn escaped(text: Seq<char>) -> Seq<char> {
    text.map_values(|c: char| escaped_char(c)).flatten()
}

/// `regex::escape` walks over the characters of `pattern` in order and copies
/// each one, putting a backslash before those that are meta characters.
pub assume_specification[ regex::escape ](pattern: &str) -> (quoted: String)
    ensures
        quoted@ == escaped(pattern@),
;

/// The text that a pattern of literals stands for: a backslash is dropped and
/// the character after it is taken as it is.
pub open spec fn unescaped(pattern: Seq<char>) -> Seq<char>
    decreases pattern.len(),
{
    if pattern.len() == 0 {
        Seq::empty()
    } else if pattern[0] == '\\' && pattern.len() >= 2 {
        seq![pattern[1]] + unescaped(pattern.skip(2))
    } else {
        seq![pattern[0]] + unescaped(pattern.skip(1))
    }
}

/// Escaping loses nothing: read back, an escaped text is the text itself.
pub proof fn lemma_escaped_reads_back(text: Seq<char>)
    ensures
        unescaped(escaped(text)) == text,
    decreases text.len(),
{
    if text.len() > 0 {
        let rest = text.drop_first();
        let pieces = text.map_values(|c: char| escaped_char(c));
        lemma_escaped_reads_back(rest);
        assert(pieces.drop_first() == rest.map_values(|c: char| escaped_char(c)));
        assert(escaped(text) == escaped_char(text[0]) + escaped(rest));
        if is_meta_character(text[0]) {
            assert(escaped(text).skip(2) == escaped(rest));
        } else {
            assert(escaped(text).skip(1) == escaped(rest));
        }
        assert(seq![text[0]] + rest == text);
    } else {
        assert(escaped(text) == Seq::<char>::empty());
    }
}

/// Whether `Regex::new` takes `pattern` for a regular expression.
pub uninterp spec fn regex_compiles(pattern: Seq<char>) -> bool;

/// Whether `Regex::is_match` finds a match somewhere in `haystack`, asked of
/// the expression that `Regex::new` makes of `pattern`.
pub uninterp spec fn regex_is_match(pattern: Seq<char>, haystack: Seq<char>) -> bool;

/// `pattern` is a regular expression and matches somewhere in `text`.
pub open spec fn accepts(pattern: Seq<char>, text: Seq<char>) -> bool {
    regex_compiles(pattern) && regex_is_match(pattern, text)
}

/// Compiles `pattern` with `Regex::new` and searches `haystack` with
/// `Regex::is_match`: `None` where the pattern is refused, else whether a
/// match was found. Nothing is claimed of either answer except that it is the
/// engine's, and that the engine answers the same question the same way.
#[verifier::external_body]
pub(crate) fn search(pattern: &str, haystack: &str) -> (found: Option<bool>)
    ensures
        found is Some <==> regex_compiles(pattern@),
        found matches Some(yes) ==> yes == regex_is_match(pattern@, haystack@),
{
    match Regex::new(pattern) {
        Ok(compiled) => Some(compiled.is_match(haystack)),
        Err(_) => None,
    }
}

} // verus!
