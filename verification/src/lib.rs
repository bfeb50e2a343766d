//! An IMAP (RFC 3501) response parser with RFC 2045 header handling.
pub mod commands;
pub mod laws;
pub mod lexicon;
pub mod parsing;
pub mod sanitisation;
pub mod text;
