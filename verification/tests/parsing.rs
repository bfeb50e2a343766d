use lib::lexicon::rfc3501::{
    AString, HeaderList, MessageDataComponent, MsgAttComponent, MsgAttStatic,
    MsgAttStaticBodyNonStructuredComponent, RespCondState, RespTextCode, ResponseComponent,
    ResponseData, ResponseDone, ResponseTagged, SectionMsgtext, SectionPart, SectionSpec,
    SectionSpecComponent, SectionText,
};
use lib::parsing::general::{remove_start, ParseFailure};
use lib::parsing::rfc2045::get_headers;
use lib::parsing::rfc3501::{parse_response, parse_string, try_parse_response};
use lib::sanitisation::sanitise_string_to_literal;
use lib::text::chars_of;

fn first_body(resp: &lib::lexicon::rfc3501::Response) -> &MsgAttStaticBodyNonStructuredComponent {
    match &resp.response_components[0] {
        ResponseComponent::ResponseData(ResponseData::MessageData(m)) => match &m.message_data_component {
            MessageDataComponent::Fetch(atts) => match &atts[0] {
                MsgAttComponent::MsgAttStatic(MsgAttStatic::NonStructuredBody(b)) => b,
                other => panic!("unexpected attribute {:?}", other),
            },
            other => panic!("unexpected component {:?}", other),
        },
        other => panic!("unexpected line {:?}", other),
    }
}

fn chars(s: &str) -> Vec<char> {
    chars_of(s)
}

const ENVELOPE_RESPONSE: &str = "* 1 FETCH (ENVELOPE (\"Mon, 1 Jan 2024 10:00:00 +0000\" \"Hello there\" ((\"Alice\" NIL \"alice\" \"example.com\")) ((\"Alice\" NIL \"alice\" \"example.com\")) ((\"Alice\" NIL \"alice\" \"example.com\")) ((NIL NIL \"bob\" \"example.org\") (\"Carol\" NIL \"carol\" \"example.net\")) NIL NIL NIL \"<id@example.com>\"))\r\nA3 OK FETCH completed\r\n";

#[test]
fn envelope_response_is_parsed() {
    let resp = parse_response(ENVELOPE_RESPONSE.to_string()).unwrap();
    assert_eq!(resp.response_components.len(), 1);
    match &resp.response_done {
        ResponseDone::ResponseTagged(ResponseTagged { tag, resp_cond_state: RespCondState::OK(t) }) => {
            assert_eq!(tag.chars, "A3");
            assert_eq!(t.text.text, "FETCH completed");
            assert_eq!(t.resp_text_code, None);
        }
        other => panic!("unexpected end {:?}", other),
    }
    match &resp.response_components[0] {
        ResponseComponent::ResponseData(ResponseData::MessageData(m)) => {
            assert_eq!(m.nz_number, 1);
            match &m.message_data_component {
                MessageDataComponent::Fetch(atts) => {
                    assert_eq!(atts.len(), 1);
                    match &atts[0] {
                        MsgAttComponent::MsgAttStatic(MsgAttStatic::Envelope(e)) => {
                            assert_eq!(e.env_date.as_deref(), Some("Mon, 1 Jan 2024 10:00:00 +0000"));
                            assert_eq!(e.env_subject.as_deref(), Some("Hello there"));
                            assert_eq!(e.env_from.address.len(), 1);
                            assert_eq!(e.env_from.address[0].addr_name.as_deref(), Some("Alice"));
                            assert_eq!(e.env_from.address[0].addr_adl, None);
                            assert_eq!(e.env_from.address[0].addr_mailbox.as_deref(), Some("alice"));
                            assert_eq!(e.env_to.address.len(), 2);
                            assert_eq!(e.env_to.address[1].addr_host.as_deref(), Some("example.net"));
                            assert!(e.env_cc.address.is_empty());
                            assert_eq!(e.env_in_reply_to, None);
                            assert_eq!(e.env_message_id.as_deref(), Some("<id@example.com>"));
                        }
                        other => panic!("unexpected attribute {:?}", other),
                    }
                }
                other => panic!("unexpected component {:?}", other),
            }
        }
        other => panic!("unexpected line {:?}", other),
    }
}

#[test]
fn literal_body_is_parsed() {
    let resp = parse_response("* 2 FETCH (BODY[] {12}\r\nHello\r\nWorld)\r\nA4 OK done\r\n".to_string()).unwrap();
    match &resp.response_components[0] {
        ResponseComponent::ResponseData(ResponseData::MessageData(m)) => {
            assert_eq!(m.nz_number, 2);
            match &m.message_data_component {
                MessageDataComponent::Fetch(atts) => match &atts[0] {
                    MsgAttComponent::MsgAttStatic(MsgAttStatic::NonStructuredBody(b)) => {
                        assert_eq!(b.section, None);
                        assert_eq!(b.number, None);
                        assert_eq!(b.nstring.as_deref(), Some("Hello\r\nWorld"));
                    }
                    other => panic!("unexpected attribute {:?}", other),
                },
                other => panic!("unexpected component {:?}", other),
            }
        }
        other => panic!("unexpected line {:?}", other),
    }
}

#[test]
fn literal_length_counts_bytes() {
    // "é" takes two bytes: a literal of three bytes holds "éa".
    let resp = parse_response("* 1 FETCH (BODY[TEXT]<0> {3}\r\néa)\r\nA1 OK x\r\n".to_string()).unwrap();
    match &resp.response_components[0] {
        ResponseComponent::ResponseData(ResponseData::MessageData(m)) => match &m.message_data_component {
            MessageDataComponent::Fetch(atts) => match &atts[0] {
                MsgAttComponent::MsgAttStatic(MsgAttStatic::NonStructuredBody(b)) => {
                    assert_eq!(b.section, Some(SectionSpec::SectionMsgtext(SectionMsgtext::Text)));
                    assert_eq!(b.number, Some(0));
                    assert_eq!(b.nstring.as_deref(), Some("éa"));
                }
                other => panic!("unexpected attribute {:?}", other),
            },
            other => panic!("unexpected component {:?}", other),
        },
        other => panic!("unexpected line {:?}", other),
    }
}

#[test]
fn header_fields_section_is_parsed() {
    let text = "* 1 FETCH (BODY[HEADER.FIELDS (Content-Type \"Mime-Version\")] {4}\r\nabcd)\r\nA2 OK x\r\n";
    let resp = parse_response(text.to_string()).unwrap();
    match &resp.response_components[0] {
        ResponseComponent::ResponseData(ResponseData::MessageData(m)) => match &m.message_data_component {
            MessageDataComponent::Fetch(atts) => match &atts[0] {
                MsgAttComponent::MsgAttStatic(MsgAttStatic::NonStructuredBody(b)) => {
                    match &b.section {
                        Some(SectionSpec::SectionMsgtext(SectionMsgtext::HeaderFields((not, list)))) => {
                            assert!(!not);
                            assert_eq!(
                                list.header_fld_names,
                                vec![
                                    AString::Achars("Content-Type".to_string()),
                                    AString::String("Mime-Version".to_string())
                                ]
                            );
                        }
                        other => panic!("unexpected section {:?}", other),
                    }
                    assert_eq!(b.nstring.as_deref(), Some("abcd"));
                }
                other => panic!("unexpected attribute {:?}", other),
            },
            other => panic!("unexpected component {:?}", other),
        },
        other => panic!("unexpected line {:?}", other),
    }
}

#[test]
fn section_part_numbers_are_read() {
    let resp = parse_response("* 1 FETCH (BODY[1.2] {1}\r\na)\r\nA1 OK x\r\n".to_string()).unwrap();
    assert_eq!(
        first_body(&resp).section,
        Some(SectionSpec::SectionSpecComponent(SectionSpecComponent {
            section_part: SectionPart { numbers: vec![1, 2] },
            section_text: None,
        }))
    );
    let resp = parse_response("* 1 FETCH (BODY[3.1.TEXT] {1}\r\na)\r\nA1 OK x\r\n".to_string()).unwrap();
    assert_eq!(
        first_body(&resp).section,
        Some(SectionSpec::SectionSpecComponent(SectionSpecComponent {
            section_part: SectionPart { numbers: vec![3, 1] },
            section_text: Some(SectionText::SectionMsgtext(SectionMsgtext::Text)),
        }))
    );
    let resp = parse_response("* 1 FETCH (BODY[2.MIME] {1}\r\na)\r\nA1 OK x\r\n".to_string()).unwrap();
    assert_eq!(
        first_body(&resp).section,
        Some(SectionSpec::SectionSpecComponent(SectionSpecComponent {
            section_part: SectionPart { numbers: vec![2] },
            section_text: Some(SectionText::MIME),
        }))
    );
}

#[test]
fn header_fields_not_is_read() {
    let resp = parse_response("* 1 FETCH (BODY[HEADER.FIELDS.NOT (Subject)] {1}\r\na)\r\nA1 OK x\r\n".to_string()).unwrap();
    assert_eq!(
        first_body(&resp).section,
        Some(SectionSpec::SectionMsgtext(SectionMsgtext::HeaderFields((
            true,
            HeaderList { header_fld_names: vec![AString::Achars("Subject".to_string())] }
        ))))
    );
}

#[test]
fn two_attributes_are_read() {
    let resp = parse_response("* 1 FETCH (BODY[TEXT] {2}\r\nhi BODY[HEADER] {2}\r\nyo)\r\nA1 OK x\r\n".to_string()).unwrap();
    match &resp.response_components[0] {
        ResponseComponent::ResponseData(ResponseData::MessageData(m)) => match &m.message_data_component {
            MessageDataComponent::Fetch(atts) => {
                assert_eq!(atts.len(), 2);
                assert_eq!(
                    atts[0],
                    MsgAttComponent::MsgAttStatic(MsgAttStatic::NonStructuredBody(MsgAttStaticBodyNonStructuredComponent {
                        section: Some(SectionSpec::SectionMsgtext(SectionMsgtext::Text)),
                        number: None,
                        nstring: Some("hi".to_string()),
                    }))
                );
                assert_eq!(
                    atts[1],
                    MsgAttComponent::MsgAttStatic(MsgAttStatic::NonStructuredBody(MsgAttStaticBodyNonStructuredComponent {
                        section: Some(SectionSpec::SectionMsgtext(SectionMsgtext::Header)),
                        number: None,
                        nstring: Some("yo".to_string()),
                    }))
                );
            }
            other => panic!("unexpected component {:?}", other),
        },
        other => panic!("unexpected line {:?}", other),
    }
}

#[test]
fn untagged_state_and_code() {
    let resp = parse_response("* OK [READ-WRITE] ready\r\nA2 OK [READ-WRITE] SELECT completed\r\n".to_string()).unwrap();
    match &resp.response_components[0] {
        ResponseComponent::ResponseData(ResponseData::RespCondState(RespCondState::OK(t))) => {
            assert_eq!(t.resp_text_code, Some(RespTextCode::Alert));
            assert_eq!(t.text.text, "ready");
        }
        other => panic!("unexpected line {:?}", other),
    }
}

#[test]
fn bye_line_is_response_data() {
    // A `* BYE` line followed by more lines is untagged data.
    let resp = parse_response("* BYE server shutting down\r\nA1 OK x\r\n".to_string()).unwrap();
    match &resp.response_components[0] {
        ResponseComponent::ResponseData(ResponseData::RespCondBye(b)) => {
            assert_eq!(b.resp_text.text.text, "server shutting down")
        }
        other => panic!("unexpected line {:?}", other),
    }
}

#[test]
fn lone_bye_ends_a_response() {
    let resp = parse_response("* BYE bye\r\n".to_string()).unwrap();
    assert!(resp.response_components.is_empty());
    match &resp.response_done {
        ResponseDone::ResponseFatal(f) => assert_eq!(f.resp_cond_bye.resp_text.text.text, "bye"),
        other => panic!("unexpected end {:?}", other),
    }
    let resp = parse_response("* OK hi\r\n* BYE going\r\n".to_string()).unwrap();
    assert_eq!(resp.response_components.len(), 1);
    assert!(matches!(resp.response_done, ResponseDone::ResponseFatal(_)));
}

#[test]
fn adjacent_addresses_are_read() {
    let text = "* 1 FETCH (ENVELOPE (NIL NIL ((NIL NIL \"a\" \"b\")(NIL NIL \"c\" \"d\")) NIL NIL NIL NIL NIL NIL NIL))\r\nA1 OK x\r\n";
    let resp = parse_response(text.to_string()).unwrap();
    match &resp.response_components[0] {
        ResponseComponent::ResponseData(ResponseData::MessageData(m)) => match &m.message_data_component {
            MessageDataComponent::Fetch(atts) => match &atts[0] {
                MsgAttComponent::MsgAttStatic(MsgAttStatic::Envelope(e)) => {
                    assert_eq!(e.env_from.address.len(), 2);
                    assert_eq!(e.env_from.address[0].addr_mailbox.as_deref(), Some("a"));
                    assert_eq!(e.env_from.address[0].addr_host.as_deref(), Some("b"));
                    assert_eq!(e.env_from.address[1].addr_mailbox.as_deref(), Some("c"));
                    assert_eq!(e.env_from.address[1].addr_host.as_deref(), Some("d"));
                    assert_eq!(e.env_from.address[1].addr_name, None);
                }
                other => panic!("unexpected attribute {:?}", other),
            },
            other => panic!("unexpected component {:?}", other),
        },
        other => panic!("unexpected line {:?}", other),
    }
    let bad = "* 1 FETCH (ENVELOPE (NIL NIL ((NIL NIL \"a\" \"b\")x) NIL NIL NIL NIL NIL NIL NIL))\r\nA1 OK x\r\n";
    assert_eq!(parse_response(bad.to_string()), Err("Invalid format: ')' not found".to_string()));
    // After a space another address must follow.
    let bad = "* 1 FETCH (ENVELOPE (NIL NIL ((NIL NIL \"a\" \"b\") x) NIL NIL NIL NIL NIL NIL NIL))\r\nA1 OK x\r\n";
    assert_eq!(parse_response(bad.to_string()), Err("Address parsing failure".to_string()));
}

#[test]
fn continuation_request_is_read() {
    let resp = parse_response("+ go ahead\r\nA1 NO failed\r\n".to_string()).unwrap();
    assert_eq!(resp.response_components.len(), 1);
    match &resp.response_done {
        ResponseDone::ResponseTagged(ResponseTagged { resp_cond_state: RespCondState::No(t), .. }) => {
            assert_eq!(t.text.text, "failed")
        }
        other => panic!("unexpected end {:?}", other),
    }
}

#[test]
fn left_over_text_is_an_error() {
    let r = parse_response("A1 OK done\r\nextra".to_string());
    assert_eq!(r, Err("Left over string in Response parsing".to_string()));
}

#[test]
fn text_without_space_is_an_error() {
    assert_eq!(parse_response("garbage".to_string()), Err("ResponseTagged parse error".to_string()));
}

#[test]
fn tag_with_left_over_is_an_error() {
    assert_eq!(
        parse_response("A(1 OK x\r\n".to_string()),
        Err("ResponseTagged parse error:Left over string".to_string())
    );
}

#[test]
fn unknown_state_is_an_error() {
    assert_eq!(parse_response("A1 MAYBE x\r\n".to_string()), Err("RespCondState didn't match".to_string()));
}

#[test]
fn text_without_line_end_is_an_error() {
    assert_eq!(parse_response("A1 OK x".to_string()), Err("Text parse did not find end of line".to_string()));
}

#[test]
fn untagged_line_without_data_is_an_error() {
    assert_eq!(
        parse_response("* \r\nA1 OK x\r\n".to_string()),
        Err("ResponseData parsing failure:No response data component".to_string())
    );
}

#[test]
fn missing_prefix_message_names_the_text() {
    assert_eq!(
        parse_response("* 1 FETCH (ENVELOPE (NIL))\r\nA1 OK x\r\n".to_string()),
        Err("String didn't start with \" \" full string is: ))\r\nA1 OK x\r\n".to_string())
    );
}

#[test]
fn flags_attribute_is_unhandled() {
    assert_eq!(
        try_parse_response("* 1 FETCH (FLAGS (\\Seen))\r\nA1 OK x\r\n".to_string()),
        Err(ParseFailure::Unhandled)
    );
}

#[test]
fn number_beyond_u32_is_unhandled() {
    assert_eq!(
        try_parse_response("* 99999999999 EXPUNGE\r\nA1 OK x\r\n".to_string()),
        Err(ParseFailure::Unhandled)
    );
}

#[test]
fn byte_offset_inside_a_character_is_unhandled() {
    // The text parser splits at a character count used as a byte offset.
    assert_eq!(try_parse_response("A1 OK é\r\n".to_string()), Err(ParseFailure::Unhandled));
}

#[test]
fn expunge_is_read() {
    let resp = parse_response("* 3 EXPUNGE\r\nA1 OK x\r\n".to_string()).unwrap();
    match &resp.response_components[0] {
        ResponseComponent::ResponseData(ResponseData::MessageData(m)) => {
            assert_eq!(m.nz_number, 3);
            assert_eq!(m.message_data_component, MessageDataComponent::Expunge);
        }
        other => panic!("unexpected line {:?}", other),
    }
}

#[test]
fn rfc822_size_is_read() {
    let resp = parse_response("* 1 FETCH (RFC822.SIZE 2545)\r\nA1 OK x\r\n".to_string()).unwrap();
    match &resp.response_components[0] {
        ResponseComponent::ResponseData(ResponseData::MessageData(m)) => match &m.message_data_component {
            MessageDataComponent::Fetch(atts) => {
                assert_eq!(atts[0], MsgAttComponent::MsgAttStatic(MsgAttStatic::RFC822Size(2545)))
            }
            other => panic!("unexpected component {:?}", other),
        },
        other => panic!("unexpected line {:?}", other),
    }
    // A second space is no number.
    assert_eq!(
        try_parse_response("* 1 FETCH (RFC822.SIZE  42)\r\nA1 OK x\r\n".to_string()),
        Err(ParseFailure::Unhandled)
    );
}

#[test]
fn remove_start_removes_the_prefix() {
    assert_eq!(remove_start("ab", "abcd".to_string()), Ok("cd".to_string()));
    assert_eq!(remove_start("", "abcd".to_string()), Ok("abcd".to_string()));
}

#[test]
fn remove_start_reports_the_missing_prefix() {
    assert_eq!(
        remove_start("x", "abcd".to_string()),
        Err("String didn't start with \"x\" full string is: abcd".to_string())
    );
}

#[test]
fn sanitise_counts_bytes() {
    assert_eq!(sanitise_string_to_literal("user"), "{4}\r\nuser");
    assert_eq!(sanitise_string_to_literal(""), "{0}\r\n");
    assert_eq!(sanitise_string_to_literal("é"), "{2}\r\né");
}

#[test]
fn literal_round_trip() {
    for s in ["password", "", "héllo wörld", "a \"quoted\" (x)"] {
        let lit = sanitise_string_to_literal(s);
        let text = format!("{} rest", lit);
        let cs = chars(&text);
        let (p, v) = parse_string(&cs, 0).unwrap();
        assert_eq!(v, s);
        let rest: String = cs[p..].iter().collect();
        assert_eq!(rest, " rest");
    }
}

#[test]
fn quoted_string_is_parsed() {
    let cs = chars("\"abc\" x");
    let (p, v) = parse_string(&cs, 0).unwrap();
    assert_eq!(v, "abc");
    assert_eq!(p, 5);
    assert_eq!(parse_string(&chars("abc"), 0), Err(ParseFailure::Rejected("String parse error".to_string())));
}

#[test]
fn headers_are_read_with_folded_lines() {
    let text = "Content-Type: multipart/alternative;\r\n boundary=\"XYZ\"\r\nMIME-Version: 1.0\r\n\r\nbody text";
    let (rest, fields) = get_headers(text.to_string()).unwrap();
    assert_eq!(rest, "body text");
    assert_eq!(fields.len(), 2);
    // The name is lower-cased.
    assert_eq!(fields[0].field_name.chars, "content-type");
    let body = fields[0].field_body.as_ref().unwrap();
    assert_eq!(body.field_body_contents.ascii, "multipart/alternative;");
    assert_eq!(body.next_field_body.as_ref().unwrap().field_body_contents.ascii, "boundary=\"XYZ\"");
    assert_eq!(fields[1].field_name.chars, "mime-version");
    assert_eq!(fields[1].field_body.as_ref().unwrap().field_body_contents.ascii, "1.0");
}

#[test]
fn headers_without_blank_line() {
    let (rest, fields) = get_headers("Subject: hi\r\n".to_string()).unwrap();
    assert_eq!(rest, "");
    assert_eq!(fields.len(), 1);
    assert_eq!(
        get_headers("no fields here".to_string()),
        Err(ParseFailure::Rejected("String didn't start with \"\r\n\" full string is: no fields here".to_string()))
    );
}

#[test]
fn malformed_headers_are_rejected() {
    let r = get_headers("Bad Name: x\r\n".to_string());
    assert!(matches!(r, Err(ParseFailure::Rejected(_))));
}

#[test]
fn empty_field_body_is_none() {
    let (_, fields) = get_headers("X-Empty:\r\n\r\n".to_string()).unwrap();
    assert_eq!(fields[0].field_name.chars, "x-empty");
    assert!(fields[0].field_body.is_none());
}
