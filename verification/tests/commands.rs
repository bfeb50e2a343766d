use lib::commands::arguments::{command_kind, parse_arguments, Arguments, ArgsFailure, CommandKind};
use lib::commands::list::list_report;
use lib::commands::login::{check_login_response, check_not_refused, check_select_response};
use lib::commands::mime::{field_bodies_to_vec, mime_boundary, plaintext_block, Halt};
use lib::commands::parse::{envelope_lines, envelope_report};
use lib::commands::retrieve::{
    check_body_fetch_response, check_fetch_response, check_list_response, get_body_from_response_components,
};
use lib::commands::{
    command_id, exit_command_line, exit_connection, exit_other, exit_parsing, exit_parsing_with,
    exit_server_response, exit_server_response_with, fetch_command_text, list_command_text,
    login_command_text, logout_command_text, read_step, reads_line, select_command_text, Exit,
    ReadStep,
};
use lib::lexicon::rfc2045::{FieldBody, FieldBodyContents};
use lib::lexicon::rfc3501::{
    MessageDataComponent, MsgAttComponent, MsgAttStatic, RespCondState, ResponseComponent,
    ResponseData, ResponseDone, ResponseTagged,
};
use lib::parsing::general::ParseFailure;
use lib::parsing::rfc2045::get_headers;
use lib::parsing::rfc3501::{parse_response, try_parse_response};
use lib::sanitisation::sanitise_string_to_literal;

fn exit(code: i32, message: &str) -> Exit {
    Exit { code, message: message.to_string() }
}

fn components(text: &str) -> Vec<ResponseComponent> {
    parse_response(text.to_string()).unwrap().response_components
}

fn words(ws: &[&str]) -> Vec<String> {
    ws.iter().map(|w| w.to_string()).collect()
}

const ENVELOPE_RESPONSE: &str = "* 1 FETCH (ENVELOPE (\"Mon, 1 Jan 2024 10:00:00 +0000\" \"Hello there\" ((\"Alice\" NIL \"alice\" \"example.com\")) ((\"Alice\" NIL \"alice\" \"example.com\")) ((\"Alice\" NIL \"alice\" \"example.com\")) ((NIL NIL \"bob\" \"example.org\") (\"Carol\" NIL \"carol\" \"example.net\")) NIL NIL NIL \"<id@example.com>\"))\r\nA3 OK FETCH completed\r\n";

const BARE_ENVELOPE_RESPONSE: &str = "* 2 FETCH (ENVELOPE (NIL NIL ((NIL NIL \"x\" \"y.org\")) NIL NIL NIL NIL NIL NIL NIL))\r\nA3 OK done\r\n";

// ---------------------------------------------------------------------------
// Exits
// ---------------------------------------------------------------------------

#[test]
fn exits_carry_code_and_message() {
    assert_eq!(exit_command_line(), exit(1, "Commandline input failure"));
    assert_eq!(exit_connection(), exit(2, "Connection failure"));
    assert_eq!(exit_server_response(), exit(3, "Server response failure"));
    assert_eq!(exit_server_response_with("Message not found".to_string()), exit(3, "Message not found"));
    assert_eq!(exit_parsing(), exit(4, "Parsing failure in server response"));
    assert_eq!(exit_parsing_with("a".to_string()), exit(4, "a"));
    assert_eq!(exit_other("No email body found".to_string()), exit(5, "No email body found"));
}

// ---------------------------------------------------------------------------
// Command text
// ---------------------------------------------------------------------------

#[test]
fn command_ids_count_up() {
    assert_eq!(command_id(1), "A1");
    assert_eq!(command_id(42), "A42");
    assert_eq!(command_id(0), "A0");
}

#[test]
fn login_sends_literals() {
    assert_eq!(login_command_text("A1", "user", "pw"), "A1 LOGIN {4}\r\nuser {2}\r\npw \r\n");
    assert_eq!(login_command_text("A1", "é", ""), "A1 LOGIN {2}\r\né {0}\r\n \r\n");
}

#[test]
fn select_sends_the_folder_as_a_literal() {
    assert_eq!(select_command_text("A2", "INBOX"), "A2 SELECT {5}\r\nINBOX\r\n");
}

#[test]
fn fetch_list_and_logout_text() {
    assert_eq!(fetch_command_text("A3", "1", "BODY.PEEK[]"), "A3 FETCH 1 BODY.PEEK[] \r\n");
    assert_eq!(fetch_command_text("A3", "7", "ENVELOPE"), "A3 FETCH 7 ENVELOPE \r\n");
    assert_eq!(list_command_text("A3"), "A3 FETCH 1:* ENVELOPE\r\n");
    assert_eq!(logout_command_text("A4"), "A4 LOGOUT \r\n");
}

// ---------------------------------------------------------------------------
// Reading a response
// ---------------------------------------------------------------------------

#[test]
fn read_step_decides_when_a_response_ends() {
    assert_eq!(read_step("", "A1"), ReadStep::ConnectionClosed);
    assert_eq!(read_step("* OK hi\r\n", "A1"), ReadStep::More);
    assert_eq!(read_step("A1 OK done\r\n", "A1"), ReadStep::Complete);
    assert_eq!(read_step("* BYE going\r\n", "A1"), ReadStep::Complete);
    assert_eq!(read_step("A12 OK done\r\n", "A1"), ReadStep::More);
    assert_eq!(read_step("A1\r\n", "A1"), ReadStep::More);
    assert_eq!(read_step("* OK greeting\r\n", "*"), ReadStep::Complete);
}

#[test]
fn reads_lines_only_for_a_tag() {
    assert!(!reads_line(""));
    assert!(reads_line("A1"));
}

#[test]
fn tagged_line_completes_the_read() {
    for n in [1u32, 9, 10, 4294967295] {
        let id = command_id(n);
        assert_eq!(read_step(&format!("{} anything at all", id), &id), ReadStep::Complete);
        assert_eq!(read_step(&format!("{} ", id), &id), ReadStep::Complete);
    }
}

#[test]
fn command_tag_is_read_back() {
    for n in [1u32, 23, 4294967295] {
        let id = command_id(n);
        let resp = parse_response(format!("{} OK LOGIN completed\r\n", id)).unwrap();
        assert!(resp.response_components.is_empty());
        match resp.response_done {
            ResponseDone::ResponseTagged(ResponseTagged { tag, resp_cond_state: RespCondState::OK(t) }) => {
                assert_eq!(tag.chars, id);
                assert_eq!(t.resp_text_code, None);
                assert_eq!(t.text.text, "LOGIN completed");
            }
            other => panic!("unexpected end {:?}", other),
        }
    }
}

// ---------------------------------------------------------------------------
// Checking a FETCH response
// ---------------------------------------------------------------------------

#[test]
fn fetch_response_is_checked() {
    let ok = parse_response(ENVELOPE_RESPONSE.to_string());
    let cs = check_fetch_response(ok, "A3", "No email header").unwrap();
    assert_eq!(cs.len(), 1);

    let ok = parse_response(ENVELOPE_RESPONSE.to_string());
    assert_eq!(check_fetch_response(ok, "A4", "x"), Err(exit(3, "Incorrect command id")));

    let bad = parse_response("A1 BAD no such message\r\n".to_string());
    assert_eq!(check_fetch_response(bad, "A1", "x"), Err(exit(3, "Message not found")));

    let no = parse_response("A1 NO failed\r\n".to_string());
    assert_eq!(
        check_fetch_response(no, "A1", "x"),
        Err(exit(3, "Server Communication error with sent command"))
    );

    let bye = parse_response("* BYE shutting down\r\n".to_string());
    assert_eq!(check_fetch_response(bye, "A1", "x"), Err(exit(3, "Server response failure")));

    let unparsed: Result<lib::lexicon::rfc3501::Response, String> = Err("Text parse did not find end of line".to_string());
    assert_eq!(check_fetch_response(unparsed, "A1", "x"), Err(exit(3, "Server response failure")));

    let empty = parse_response("A1 OK done\r\n".to_string());
    assert_eq!(check_fetch_response(empty, "A1", "No email body found"), Err(exit(5, "No email body found")));
}

#[test]
fn body_is_taken_from_the_first_line() {
    let cs = components("* 2 FETCH (BODY[] {5}\r\nHello)\r\nA4 OK done\r\n");
    assert_eq!(get_body_from_response_components(&cs), Ok("Hello".to_string()));

    let cs = components(ENVELOPE_RESPONSE);
    assert_eq!(get_body_from_response_components(&cs), Err(exit(4, "a")));

    let cs = components("* OK still here\r\nA4 OK done\r\n");
    assert_eq!(get_body_from_response_components(&cs), Err(exit(4, "prea")));

    assert_eq!(get_body_from_response_components(&Vec::new()), Err(exit(4, "prea")));

    let cs = components("* 2 FETCH (BODY[] NIL)\r\nA4 OK done\r\n");
    assert_eq!(get_body_from_response_components(&cs), Err(exit(4, "a")));
}

// ---------------------------------------------------------------------------
// parse and list
// ---------------------------------------------------------------------------

#[test]
fn envelope_is_reported() {
    let cs = components(ENVELOPE_RESPONSE);
    assert_eq!(
        envelope_report(&cs),
        Ok("From: \"Alice\" <alice@example.com>\nTo: Carol bob@example.orgcarol@example.net\nDate: Mon, 1 Jan 2024 10:00:00 +0000\nSubject: Hello there\n".to_string())
    );
}

#[test]
fn bare_envelope_is_reported() {
    let cs = components(BARE_ENVELOPE_RESPONSE);
    assert_eq!(envelope_report(&cs), Ok("From: x@y.org\nTo:\nDate: NIL\nSubject: <No subject>\n".to_string()));
    match &cs[0] {
        ResponseComponent::ResponseData(ResponseData::MessageData(m)) => match &m.message_data_component {
            MessageDataComponent::Fetch(atts) => match &atts[0] {
                MsgAttComponent::MsgAttStatic(MsgAttStatic::Envelope(e)) => {
                    assert_eq!(envelope_lines(e), "From: x@y.org\nTo:\nDate: NIL\nSubject: <No subject>\n");
                }
                other => panic!("unexpected attribute {:?}", other),
            },
            other => panic!("unexpected component {:?}", other),
        },
        other => panic!("unexpected line {:?}", other),
    }
}

#[test]
fn envelope_report_errors() {
    let cs = components("* 2 FETCH (BODY[] {5}\r\nHello)\r\nA4 OK done\r\n");
    assert_eq!(envelope_report(&cs), Err(exit(4, "a")));
    let cs = components("* 3 EXPUNGE\r\nA4 OK done\r\n");
    assert_eq!(envelope_report(&cs), Err(exit(4, "prea")));
}

#[test]
fn list_numbers_the_subjects() {
    let text = format!(
        "{}{}",
        ENVELOPE_RESPONSE.split("\r\nA3").next().unwrap().to_string() + "\r\n* 3 EXPUNGE\r\n",
        BARE_ENVELOPE_RESPONSE
    );
    let cs = components(&text);
    assert_eq!(cs.len(), 3);
    assert_eq!(list_report(&cs), ("1: Hello there\n2: <No subject>\n".to_string(), None));
}

#[test]
fn list_stops_at_a_line_without_envelope() {
    let text = format!(
        "{}* 2 FETCH (BODY[] {{1}}\r\nx)\r\nA3 OK done\r\n",
        ENVELOPE_RESPONSE.split("A3 OK").next().unwrap()
    );
    let cs = components(&text);
    assert_eq!(
        list_report(&cs),
        ("1: Hello there\n".to_string(), Some(exit(4, "Failed to parse envelope")))
    );
}

// ---------------------------------------------------------------------------
// login
// ---------------------------------------------------------------------------

#[test]
fn refusal_is_found_on_the_last_line() {
    assert_eq!(
        check_not_refused("* OK x\r\nA1 NO [AUTHENTICATIONFAILED] bad\r\n", "A1", "Login failure"),
        Err(exit(3, "Login failure"))
    );
    assert_eq!(check_not_refused("* OK x\r\nA1 OK done\r\n", "A1", "Login failure"), Ok(()));
    assert_eq!(check_not_refused("A2 NO nope\r\n", "A1", "Folder not found"), Ok(()));
    assert_eq!(check_not_refused("A2 NO nope\r\n", "A2", "Folder not found"), Err(exit(3, "Folder not found")));
    assert_eq!(
        check_not_refused("no line end", "A1", "Login failure"),
        Err(exit(4, "Parsing failure in server response"))
    );
}

// ---------------------------------------------------------------------------
// mime
// ---------------------------------------------------------------------------

fn body_line(s: &str, next: Option<FieldBody>) -> FieldBody {
    FieldBody { field_body_contents: FieldBodyContents { ascii: s.to_string() }, next_field_body: next.map(Box::new) }
}

#[test]
fn field_bodies_are_unfolded() {
    let b = body_line("text/plain; charset=UTF-8;", Some(body_line("format=flowed", None)));
    assert_eq!(field_bodies_to_vec(b), vec!["text/plain", "charset=UTF-8", "format=flowed"]);
    assert_eq!(field_bodies_to_vec(body_line("a;b", None)), vec!["a;b"]);
    assert_eq!(field_bodies_to_vec(body_line("7bit", None)), vec!["7bit"]);
    assert_eq!(field_bodies_to_vec(body_line(";", None)), vec![""]);
}

#[test]
fn boundary_is_found() {
    let h = "Content-Type: multipart/alternative; boundary=\"XYZ\"\r\nMIME-Version: 1.0\r\n\r\n";
    assert_eq!(mime_boundary(h.to_string()), Ok("XYZ".to_string()));
    let h = "Mime-Version: 1.0\r\nContent-Type: multipart/alternative;\r\n boundary=abc;\r\n\r\n";
    assert_eq!(mime_boundary(h.to_string()), Ok("abc".to_string()));
}

#[test]
fn boundary_needs_both_headers() {
    let h = "Content-Type: multipart/alternative; boundary=\"XYZ\"\r\n\r\n";
    assert_eq!(
        mime_boundary(h.to_string()),
        Err(Halt::Exit(exit(4, "Email doesn't contain correct Mime headers")))
    );
    let h = "Content-Type: text/plain\r\nMIME-Version: 1.0\r\n\r\n";
    assert_eq!(
        mime_boundary(h.to_string()),
        Err(Halt::Exit(exit(4, "Email doesn't contain correct Mime headers")))
    );
}

#[test]
fn boundary_of_malformed_headers() {
    assert_eq!(
        mime_boundary("Bad Name: x\r\n".to_string()),
        Err(Halt::Exit(exit(4, "Parsing failure in server response")))
    );
    // A character of two bytes before the colon: the name's end falls inside it.
    assert_eq!(get_headers("é: x\r\n".to_string()), Err(ParseFailure::Unhandled));
    assert_eq!(mime_boundary("é: x\r\n\r\n".to_string()), Err(Halt::Unhandled));
}

const MULTIPART: &str = "\r\n--XYZ\r\nContent-Type: text/html\r\n\r\n<p>hi</p>\r\n--XYZ\r\nContent-Type: text/plain; charset=UTF-8\r\nContent-Transfer-Encoding: 7bit\r\n\r\nhello\r\n--XYZ--\r\n";

#[test]
fn plaintext_part_is_found() {
    assert_eq!(plaintext_block(MULTIPART, "XYZ"), Ok("hello".to_string()));
}

#[test]
fn plaintext_part_needs_charset_and_encoding() {
    let body = "\r\n--B\r\nContent-Type: text/plain\r\nContent-Transfer-Encoding: 7bit\r\n\r\nno charset\r\n--B\r\nContent-Type: text/plain; charset=UTF-8\r\nContent-Transfer-Encoding: base64\r\n\r\naGk=\r\n--B--";
    assert_eq!(plaintext_block(body, "B"), Err(Halt::Exit(exit(4, "No plaintext block found"))));
}

#[test]
fn plaintext_part_after_a_preamble() {
    let body = format!("This is a multi-part message{}", MULTIPART);
    assert_eq!(
        plaintext_block(&body, "XYZ"),
        Err(Halt::Exit(exit(4, "Parsing failure in server response")))
    );
}

// ---------------------------------------------------------------------------
// The command line
// ---------------------------------------------------------------------------

#[test]
fn arguments_are_read() {
    let a = parse_arguments(&words(&["fetchmail", "-u", "user", "-p", "pw", "retrieve", "server"])).unwrap();
    assert_eq!(
        a,
        Arguments {
            username: "user".to_string(),
            password: "pw".to_string(),
            folder: "INBOX".to_string(),
            message_num: "".to_string(),
            command: "retrieve".to_string(),
            server_name: "server".to_string(),
        }
    );
    let a = parse_arguments(&words(&[
        "fetchmail", "-f", "Work", "-n", "3", "-p", "pw", "-u", "me", "parse", "imap.example.com", "ignored",
    ]))
    .unwrap();
    assert_eq!(a.folder, "Work");
    assert_eq!(a.message_num, "3");
    assert_eq!(a.username, "me");
    assert_eq!(a.command, "parse");
    assert_eq!(a.server_name, "imap.example.com");
}

#[test]
fn unusable_command_lines() {
    assert_eq!(parse_arguments(&words(&["fetchmail"])), Err(ArgsFailure::Unusable));
    assert_eq!(parse_arguments(&words(&["fetchmail", "-u", "a", "list", "s"])), Err(ArgsFailure::Unusable));
    assert_eq!(
        parse_arguments(&words(&["fetchmail", "-u", "a", "-n", "1", "list", "s"])),
        Err(ArgsFailure::Unusable)
    );
    assert_eq!(
        parse_arguments(&words(&["fetchmail", "-u", "a", "-p", "b", "-f", "", "list", "s"])),
        Err(ArgsFailure::Unusable)
    );
    assert_eq!(parse_arguments(&words(&["fetchmail", "-u", "a", "-p", "b", "list"])), Err(ArgsFailure::Unusable));
}

#[test]
fn option_without_value() {
    assert_eq!(
        parse_arguments(&words(&["fetchmail", "-u", "a", "-p", "b", "-n"])),
        Err(ArgsFailure::MissingValue)
    );
}

#[test]
fn command_words() {
    assert_eq!(command_kind("retrieve"), CommandKind::Retrieve);
    assert_eq!(command_kind("parse"), CommandKind::Parse);
    assert_eq!(command_kind("mime"), CommandKind::Mime);
    assert_eq!(command_kind("list"), CommandKind::List);
    assert_eq!(command_kind("Retrieve"), CommandKind::Other);
    assert_eq!(command_kind(""), CommandKind::Other);
}

#[test]
fn unparsed_response_keeps_its_message() {
    assert_eq!(try_parse_response("A1 OK x".to_string()), Err(ParseFailure::Rejected("Text parse did not find end of line".to_string())));
}

#[test]
fn fetched_body_is_read_back_whole() {
    for body in ["Hello\r\nWorld", "", "é ) {3}\r\n* x", "A7 OK not the end\r\n", "日本語"] {
        let reply = format!(
            "* 4 FETCH (BODY[] {})\r\n{} OK FETCH completed\r\n",
            sanitise_string_to_literal(body),
            command_id(7)
        );
        let resp = parse_response(reply);
        let cs = check_fetch_response(resp, &command_id(7), "No email body found").unwrap();
        assert_eq!(get_body_from_response_components(&cs), Ok(body.to_string()));
    }
}

#[test]
fn tagged_refusal_after_untagged_lines() {
    let untagged = "* CAPABILITY IMAP4rev1\r\n* 3 EXISTS\r\n* OK [UIDVALIDITY 1] ok\r\n";
    assert_eq!(
        check_not_refused(&format!("{}A2 NO [NONEXISTENT] no such folder\r\n", untagged), "A2", "Folder not found"),
        Err(exit(3, "Folder not found"))
    );
    assert_eq!(
        check_not_refused(&format!("{}A2 OK [READ-WRITE] SELECT completed\r\n", untagged), "A2", "Folder not found"),
        Ok(())
    );
    assert_eq!(check_not_refused("A2 NO\r\n", "A2", "Login failure"), Err(exit(3, "Login failure")));
}

#[test]
fn login_and_select_refusals() {
    assert_eq!(check_login_response("A1 NO bad\r\n", "A1"), Err(exit(3, "Login failure")));
    assert_eq!(check_login_response("A1 OK in\r\n", "A1"), Ok(()));
    assert_eq!(check_select_response("A2 NO none\r\n", "A2"), Err(exit(3, "Folder not found")));
    assert_eq!(check_select_response("A2 OK sel\r\n", "A2"), Ok(()));
    assert_eq!(check_select_response("no end", "A2"), Err(exit(4, "Parsing failure in server response")));
}

#[test]
fn empty_fetch_responses() {
    let empty = parse_response("A5 OK done\r\n".to_string());
    assert_eq!(check_body_fetch_response(empty, "A5"), Err(exit(5, "No email body found")));
    let empty = parse_response("A5 OK done\r\n".to_string());
    assert_eq!(check_list_response(empty, "A5"), Err(exit(5, "No email header")));
    let ok = parse_response(ENVELOPE_RESPONSE.to_string());
    assert_eq!(check_list_response(ok, "A3").unwrap().len(), 1);
    let ok = parse_response("* 2 FETCH (BODY[] {5}\r\nHello)\r\nA4 OK done\r\n".to_string());
    assert_eq!(check_body_fetch_response(ok, "A4").unwrap().len(), 1);
    let bad = parse_response("A4 BAD nope\r\n".to_string());
    assert_eq!(check_body_fetch_response(bad, "A4"), Err(exit(3, "Message not found")));
}
