//! Sending user text to the server as an IMAP literal.
use vstd::prelude::*;
use crate::text::{decimal, decimal_string};

verus! {

broadcast use vstd::string::group_string_axioms;

/// The literal form of `s`: its length in bytes in braces, CRLF, then `s`.
pub open spec fn literal_text(s: &str) -> Seq<char> {
    "{"@ + decimal(s.len() as nat) + "}\r\n"@ + s@
}

/// Turns `string` into an IMAP literal, so that the server reads it whole
/// whatever characters it holds: `{n}` CRLF `string`, where `n` is the
/// length of `string` in bytes.
pub fn sanitise_string_to_literal(string: &str) -> (r: String)
    ensures
        r@ == literal_text(string),
{
    let n = string.len();
    let mut r = String::from_str("{");
    let digits = decimal_string(n as u64);
    r.append(digits.as_str());
    r.append("}\r\n");
    r.append(string);
    r
}

} // verus!
