//! Infers a regular expression that generalises a set of example strings.
//!
//! One example, the anchor, is paired with the samples of a pool. Each pair
//! is split into tokens and aligned, and what the two have in common becomes
//! a template: shared text as a literal, differing text as a capturing slot.
//! The template that explains most of the pool, and is longest beside the
//! anchor, is the answer.
//!
//! Templates ignore case: samples are folded to lower case before they are
//! compared, and a search that tells upper from lower case is not offered.
//! Texts of more than one line are not what templates are made for.

pub mod alignment;
pub mod engine;
pub mod score;
pub mod select;
pub mod template;
pub mod text;
pub mod tokens;

pub use alignment::MatchingBlock;
pub use score::score_regex;
pub use select::{consume_matches, first_new_regex, infer_regex};
pub use template::{regex_from_pair, rule_from_blocks, Template};
pub use tokens::tokenize;
