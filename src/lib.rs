//! Whole-string matching against patterns with two wildcards: one that stands
//! for exactly one character and one that stands for any run of characters.
//!
//! The meaning of a pattern is given by [`semantics::wild_match`]; the
//! executable matcher in [`pattern`] is proved to decide exactly that relation.

mod chars;
pub mod laws;
pub mod pattern;
pub mod semantics;

pub use pattern::{WildMatch, WildMatchPattern};
