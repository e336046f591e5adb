//! A lexical scanner for a small dynamically-typed scripting language.
//!
//! The scanner turns a complete source text into an ordered sequence of
//! tokens, terminated by a single end-of-file token.  Malformed input never
//! aborts a scan: each lexical error is recorded as a diagnostic and scanning
//! resumes with the next character.  The behaviour of a whole scan is pinned
//! down by the recursive specification in [`model`], which the executable
//! scanner in [`scanner`] is proved to follow exactly.

pub mod token;
pub mod model;
pub mod scanner;
pub mod laws;
