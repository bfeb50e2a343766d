//! The values that the parsers produce.
pub mod rfc2045;
pub mod rfc3501;
