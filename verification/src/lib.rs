//! A word book: a fixed mapping from words to their definitions, with exact
//! lookup, a closest-spelling suggestion for unknown words, and the rules by
//! which a suggestion is confirmed or turned down.

pub mod text;
pub mod response;
pub mod wide;
pub mod similarity;
pub mod error;
pub mod state;
pub mod dictionary;
pub mod json;
pub mod laws;
