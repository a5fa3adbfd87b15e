//! Fuzzy subsequence matching with a relevance score.
//!
//! Two matchers are offered. [`simple_fuzzy_match`] tells whether a pattern's
//! characters occur, in order and ignoring ASCII case, within a target.
//! [`fuzzy_match`] searches the ways the pattern can be aligned with the
//! target and reports the best score it found.
pub mod scored;
pub mod simple;
pub mod text;

pub use scored::fuzzy_match;
pub use simple::simple_fuzzy_match;
