//! Logging in and selecting the folder: whether the server refused.
use vstd::prelude::*;
use crate::commands::{exit_parsing, exits_with, Exit};
use crate::text::{chars_of, split_on, split_pieces, starts_with, starts_with_at};

verus! {

broadcast use vstd::string::group_string_axioms;

/// The last line of a response that ends with CRLF: the second piece from
/// the end when the text is split at CRLF (`rsplit("\r\n").skip(1).next()`).
pub open spec fn last_line(response: Seq<char>) -> Option<Seq<char>> {
    let ps = split_on(response, "\r\n"@);
    if ps.len() >= 2 {
        Some(ps[ps.len() - 2])
    } else {
        None
    }
}

/// The server refused the command tagged `command_id` when the last line
/// of its response starts with that tag and ` NO`; the program then stops
/// with `refusal` (code 3). A response without a CRLF cannot be read
/// (code 4).
pub open spec fn spec_check_not_refused(
    response: Seq<char>,
    command_id: Seq<char>,
    refusal: Seq<char>,
) -> Result<(), (i32, Seq<char>)> {
    match last_line(response) {
        None => Err((4, "Parsing failure in server response"@)),
        Some(l) => if starts_with(l, command_id + " NO"@) {
            Err((3, refusal))
        } else {
            Ok(())
        },
    }
}

pub fn check_not_refused(response: &str, command_id: &str, refusal: &str) -> (r: Result<(), Exit>)
    ensures
        match spec_check_not_refused(response@, command_id@, refusal@) {
            Ok(()) => r is Ok,
            Err((code, m)) => r matches Err(e) && exits_with(e, code, m),
        },
{
    proof {
        reveal_strlit("\r\n");
    }
    let cs = chars_of(response);
    assert(cs@.subrange(0, cs.len() as int) == cs@);
    let pieces = split_pieces(&cs, 0, cs.len(), "\r\n");
    let k = pieces.len();
    if k < 2 {
        return Err(exit_parsing());
    }
    let line = chars_of(pieces[k - 2].as_str());
    assert(line@ == pieces.deep_view()[k - 2]);
    let mut prefix = String::from_str(command_id);
    prefix.append(" NO");
    assert(line@.subrange(0, line.len() as int) == line@);
    if starts_with_at(&line, 0, line.len(), prefix.as_str()) {
        Err(Exit { code: 3, message: String::from_str(refusal) })
    } else {
        Ok(())
    }
}

/// The response to `LOGIN`: a refusal stops the program with
/// `Login failure` (code 3).
pub fn check_login_response(response: &str, command_id: &str) -> (r: Result<(), Exit>)
    ensures
        match spec_check_not_refused(response@, command_id@, "Login failure"@) {
            Ok(()) => r is Ok,
            Err((code, m)) => r matches Err(e) && exits_with(e, code, m),
        },
{
    check_not_refused(response, command_id, "Login failure")
}

/// The response to `SELECT`: a refusal stops the program with
/// `Folder not found` (code 3).
pub fn check_select_response(response: &str, command_id: &str) -> (r: Result<(), Exit>)
    ensures
        match spec_check_not_refused(response@, command_id@, "Folder not found"@) {
            Ok(()) => r is Ok,
            Err((code, m)) => r matches Err(e) && exits_with(e, code, m),
        },
{
    check_not_refused(response, command_id, "Folder not found")
}

} // verus!
