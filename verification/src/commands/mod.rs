//! What the client's commands decide: the text it sends, when a response
//! is complete, what it prints and when it stops with which exit code.
pub mod arguments;
pub mod laws;
pub mod list;
pub mod login;
pub mod mime;
pub mod parse;
pub mod retrieve;

use vstd::prelude::*;
use crate::sanitisation::{literal_text, sanitise_string_to_literal};
use crate::text::{decimal, decimal_string, first_in_at, lemma_first_in_from_bounds, split_once_char, starts_with, starts_with_at, string_of, chars_of};

verus! {

broadcast use vstd::string::group_string_axioms;

/// The program stops: it prints `message` on a line of its own and exits
/// with `code`.
#[derive(Debug, PartialEq, Eq)]
pub struct Exit {
    pub code: i32,
    pub message: String,
}

/// Stopping with `message` and `code`.
pub open spec fn exits_with(e: Exit, code: i32, message: Seq<char>) -> bool {
    e.code == code && e.message@ == message
}

fn exit_with(code: i32, message: &str) -> (e: Exit)
    ensures
        exits_with(e, code, message@),
{
    Exit { code, message: String::from_str(message) }
}

/// The command line is unusable.
pub fn exit_command_line() -> (e: Exit)
    ensures
        exits_with(e, 1, "Commandline input failure"@),
{
    exit_with(1, "Commandline input failure")
}

/// The server cannot be reached.
pub fn exit_connection() -> (e: Exit)
    ensures
        exits_with(e, 2, "Connection failure"@),
{
    exit_with(2, "Connection failure")
}

/// The server's response is a failure.
pub fn exit_server_response() -> (e: Exit)
    ensures
        exits_with(e, 3, "Server response failure"@),
{
    exit_with(3, "Server response failure")
}

/// The server's response is a failure, described by `error`.
pub fn exit_server_response_with(error: String) -> (e: Exit)
    ensures
        e.code == 3 && e.message@ == error@,
{
    Exit { code: 3, message: error }
}

/// The server's response cannot be parsed.
pub fn exit_parsing() -> (e: Exit)
    ensures
        exits_with(e, 4, "Parsing failure in server response"@),
{
    exit_with(4, "Parsing failure in server response")
}

/// The server's response cannot be parsed, as `error` describes.
pub fn exit_parsing_with(error: String) -> (e: Exit)
    ensures
        e.code == 4 && e.message@ == error@,
{
    Exit { code: 4, message: error }
}

/// Any other failure, described by `error`.
pub fn exit_other(error: String) -> (e: Exit)
    ensures
        e.code == 5 && e.message@ == error@,
{
    Exit { code: 5, message: error }
}

// ---------------------------------------------------------------------------
// Command text
// ---------------------------------------------------------------------------

/// The tag of the `n`th command: `A` and `n` in decimal.
pub open spec fn command_id_text(n: u32) -> Seq<char> {
    "A"@ + decimal(n as nat)
}

pub fn command_id(n: u32) -> (r: String)
    ensures
        r@ == command_id_text(n),
{
    let mut r = String::from_str("A");
    let digits = decimal_string(n as u64);
    r.append(digits.as_str());
    r
}

/// `LOGIN` with the user name and password sent as literals.
pub fn login_command_text(command_id: &str, username: &str, password: &str) -> (r: String)
    ensures
        r@ == command_id@ + " LOGIN "@ + literal_text(username) + " "@ + literal_text(password)
            + " \r\n"@,
{
    let mut r = String::from_str(command_id);
    r.append(" LOGIN ");
    let user = sanitise_string_to_literal(username);
    r.append(user.as_str());
    r.append(" ");
    let pass = sanitise_string_to_literal(password);
    r.append(pass.as_str());
    r.append(" \r\n");
    r
}

/// `SELECT` with the folder sent as a literal.
pub fn select_command_text(command_id: &str, folder: &str) -> (r: String)
    ensures
        r@ == command_id@ + " SELECT "@ + literal_text(folder) + "\r\n"@,
{
    let mut r = String::from_str(command_id);
    r.append(" SELECT ");
    let f = sanitise_string_to_literal(folder);
    r.append(f.as_str());
    r.append("\r\n");
    r
}

/// `FETCH` of the data item `item` of message `message_num`.
pub fn fetch_command_text(command_id: &str, message_num: &str, item: &str) -> (r: String)
    ensures
        r@ == command_id@ + " FETCH "@ + message_num@ + " "@ + item@ + " \r\n"@,
{
    let mut r = String::from_str(command_id);
    r.append(" FETCH ");
    r.append(message_num);
    r.append(" ");
    r.append(item);
    r.append(" \r\n");
    r
}

/// `FETCH` of the envelopes of all messages.
pub fn list_command_text(command_id: &str) -> (r: String)
    ensures
        r@ == command_id@ + " FETCH 1:* ENVELOPE\r\n"@,
{
    let mut r = String::from_str(command_id);
    r.append(" FETCH 1:* ENVELOPE\r\n");
    r
}

/// `LOGOUT`.
pub fn logout_command_text(command_id: &str) -> (r: String)
    ensures
        r@ == command_id@ + " LOGOUT \r\n"@,
{
    let mut r = String::from_str(command_id);
    r.append(" LOGOUT \r\n");
    r
}

// ---------------------------------------------------------------------------
// Reading a response
// ---------------------------------------------------------------------------

/// What to do after reading a line of a response.
#[derive(Debug, Clone, Copy, PartialEq, Eq, Structural)]
pub enum ReadStep {
    /// Read another line.
    More,
    /// The response is complete: parse what was read.
    Complete,
    /// The connection gave nothing: stop with `exit_server_response`.
    ConnectionClosed,
}

/// The first word of a line (the empty text when it holds no space).
pub open spec fn line_tag(line: Seq<char>) -> Seq<char> {
    match split_once_char(line, ' ') {
        Some((a, _)) => a,
        None => Seq::empty(),
    }
}

/// A response ends with the line tagged with the command's tag, or with a
/// `* BYE` line; an empty read means the connection is gone.
pub open spec fn spec_read_step(line: Seq<char>, command_id: Seq<char>) -> ReadStep {
    if line.len() == 0 {
        ReadStep::ConnectionClosed
    } else if starts_with(line, "* BYE"@) || line_tag(line) == command_id {
        ReadStep::Complete
    } else {
        ReadStep::More
    }
}

/// Lines are read only while the command's tag is not the empty text.
pub open spec fn reads_a_line(command_id: Seq<char>) -> bool {
    command_id.len() != 0
}

pub fn read_step(line: &str, command_id: &str) -> (r: ReadStep)
    ensures
        r == spec_read_step(line@, command_id@),
{
    let cs = chars_of(line);
    if cs.len() == 0 {
        return ReadStep::ConnectionClosed;
    }
    assert(cs@.subrange(0, cs.len() as int) == cs@);
    if starts_with_at(&cs, 0, cs.len(), "* BYE") {
        return ReadStep::Complete;
    }
    proof {
        reveal_strlit(" ");
        assert(" "@ =~= seq![' ']);
        lemma_first_in_from_bounds(cs@, seq![' '], 0);
    }
    let tag = match first_in_at(&cs, 0, cs.len(), " ") {
        Some(i) => string_of(&cs, 0, i),
        None => String::new(),
    };
    let id = String::from_str(command_id);
    if tag == id {
        ReadStep::Complete
    } else {
        ReadStep::More
    }
}

pub fn reads_line(command_id: &str) -> (b: bool)
    ensures
        b == reads_a_line(command_id@),
{
    !command_id.is_empty()
}

} // verus!
