//! Parsers from text to the lexicon's types.
pub mod general;
pub mod laws;
pub mod rfc2045;
pub mod rfc3501;
