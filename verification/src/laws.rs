//! Properties of the library that span several of its functions.
use vstd::prelude::*;
use crate::parsing::general::{prepend, spec_remove_start, Outcome};
use crate::commands::{command_id_text, spec_read_step, ReadStep};
use crate::commands::login::spec_check_not_refused;
use crate::commands::retrieve::{spec_body_of, spec_check_fetch};
use crate::lexicon::rfc3501::{
    ContinueReq, MessageData, MessageDataComponent, MsgAttStatic,
    MsgAttStaticBodyNonStructuredComponent, MsgAttStaticBodyStructuredComponent, RespCondBye,
    RespCondState, Response, ResponseData, ResponseDone, ResponseFatal, ResponseTagged,
    SectionSpec, SpecBodyNonStructured, SpecMessageData, SpecMessageDataComponent,
    SpecMsgAttComponent, SpecMsgAttStatic, SpecRespCondState, SpecRespText, SpecResponse,
    SpecResponseComponent, SpecResponseData, SpecResponseDone, SpecResponseTagged,
};
use crate::parsing::rfc3501::{
    msg_att_items, msg_att_list, optional_offset, response_items, sep_nstring, spec_can_parse_nz_number,
    spec_can_parse_string, spec_parse_msg_att, spec_parse_nstring, spec_parse_nz_number,
    spec_parse_response, spec_parse_section, spec_parse_string,
};
use crate::sanitisation::literal_text;
use crate::text::{
    all_digits, first_in, first_in_from, lemma_first_in_absent, lemma_first_in_at, split_once_char,
    find_from, first_non_digit_from, first_word, lemma_first_non_digit_from_bounds, occurs_at,
    parses_as_i64, split_on, starts_with,
    chars_for_bytes, decimal, is_digit, lemma_chars_for_bytes_ascii, lemma_chars_for_bytes_concat,
    lemma_decimal, lemma_first_non_digit_after, lemma_utf8_len_encode, parse_u32, utf8_len,
};

verus! {

broadcast use vstd::string::group_string_axioms;

/// A string sent as a literal (`sanitise_string_to_literal`) is read back
/// whole by the string parser, whatever text follows it, provided its
/// length in bytes fits the 32-bit number that the parser reads.
pub proof fn law_literal_round_trip(s: &str, t: Seq<char>)
    requires
        utf8_len(s@) <= u32::MAX,
    ensures
        spec_parse_string(literal_text(s) + t) == Outcome::Parsed(t, s@),
{
    reveal_strlit("{");
    reveal_strlit("}\r\n");
    lemma_utf8_len_encode(s@);
    let n = utf8_len(s@);
    assert(s.len() as nat == n);
    let d = decimal(n);
    lemma_decimal(n);
    let x = literal_text(s) + t;
    let u = "}\r\n"@ + s@ + t;
    assert(x =~= "{"@ + (d + u));
    assert(x.skip(1) =~= d + u);
    assert(u[0] == '}');
    lemma_first_non_digit_after(d, u, 0);
    assert forall|j: int| 0 <= j < d.len() implies ((#[trigger] (d + u)[j]) as u32 <= 0x7f) by {
        assert((d + u)[j] == d[j]);
        assert(is_digit(d[j]));
    }
    lemma_chars_for_bytes_ascii(d + u, d.len() as int);
    assert((d + u).take(d.len() as int) =~= d);
    assert(is_digit(d[0]));
    assert(parse_u32(d) == Some(n as u32));
    assert((d + u).skip(d.len() as int) =~= u);
    assert(spec_parse_nz_number(d + u) == Outcome::Parsed(u, n as u32));
    assert(u.skip(3) =~= s@ + t);
    assert(u.take(3) =~= "}\r\n"@);
    lemma_chars_for_bytes_concat(s@, t);
    assert((s@ + t).skip(s@.len() as int) =~= t);
    assert((s@ + t).take(s@.len() as int) =~= s@);
    assert(x.take(1) =~= "{"@);
    assert(spec_parse_nz_number(x.skip(1)) == Outcome::Parsed(u, n as u32));
    assert(crate::text::starts_with(u, "}\r\n"@));
}

/// The characters of a command's tag: `A`, then decimal digits.
proof fn lemma_command_id_chars(n: u32)
    ensures
        command_id_text(n).len() > 1,
        command_id_text(n)[0] == 'A',
        forall|j: int| 1 <= j < command_id_text(n).len() ==> #[trigger] is_digit(command_id_text(n)[j]),
{
    reveal_strlit("A");
    lemma_decimal(n as nat);
    let id = command_id_text(n);
    let d = decimal(n as nat);
    assert forall|j: int| 1 <= j < id.len() implies #[trigger] is_digit(id[j]) by {
        assert(id[j] == d[j - 1]);
    }
}

/// A line that starts with a command's tag and a space ends the response
/// to that command.
pub proof fn law_tagged_line_completes(n: u32, rest: Seq<char>)
    ensures
        spec_read_step(command_id_text(n) + " "@ + rest, command_id_text(n)) == ReadStep::Complete,
{
    reveal_strlit(" ");
    lemma_command_id_chars(n);
    let id = command_id_text(n);
    let line = id + " "@ + rest;
    assert forall|j: int| 0 <= j < id.len() implies !seq![' '].contains(#[trigger] line[j]) by {
        assert(line[j] == id[j]);
        if j > 0 {
            assert(is_digit(id[j]));
        }
    }
    assert(line[id.len() as int] == " "@[0]);
    assert(seq![' '][0] == line[id.len() as int]);
    assert(seq![' '].contains(line[id.len() as int]));
    lemma_first_in_at(line, seq![' '], id.len() as int, 0);
    assert(line.take(id.len() as int) =~= id);
    assert(split_once_char(line, ' ') == Some((id, line.skip(id.len() as int + 1))));
}

/// The line `A<n> OK <text>` CRLF that ends the response to the `n`th
/// command is read back with the command's tag, the `OK` state and the
/// text, provided the text is ASCII, holds no CR or LF and does not start
/// with `[`.
pub proof fn law_command_tag_read_back(n: u32, text: Seq<char>)
    requires
        forall|j: int| 0 <= j < text.len() ==> (#[trigger] text[j]) as u32 <= 0x7f && text[j]
            != '\r' && text[j] != '\n',
        text.len() == 0 || text[0] != '[',
    ensures
        ResponseTagged::spec_parse(command_id_text(n) + " OK "@ + text + "\r\n"@)
            == Outcome::Parsed(
            Seq::<char>::empty(),
            SpecResponseTagged {
                tag: command_id_text(n),
                resp_cond_state: SpecRespCondState::OK(
                    SpecRespText { resp_text_code: None, text },
                ),
            },
        ),
{
    reveal_strlit(" ");
    reveal_strlit(" OK ");
    reveal_strlit("OK ");
    reveal_strlit("\r\n");
    reveal_strlit("\n\r");
    reveal_strlit("[");
    reveal_strlit("(){ %*\"\\+");
    lemma_command_id_chars(n);
    let id = command_id_text(n);
    let line = id + " OK "@ + text + "\r\n"@;
    // The tag ends at the first space.
    assert forall|j: int| 0 <= j < id.len() implies !seq![' '].contains(#[trigger] line[j]) by {
        assert(line[j] == id[j]);
        if j > 0 {
            assert(is_digit(id[j]));
        }
    }
    assert(line[id.len() as int] == " OK "@[0]);
    assert(seq![' '][0] == line[id.len() as int]);
    assert(seq![' '].contains(line[id.len() as int]));
    lemma_first_in_at(line, seq![' '], id.len() as int, 0);
    let ss = "OK "@ + text + "\r\n"@;
    assert(line.take(id.len() as int) =~= id);
    assert(line.skip(id.len() as int + 1) =~= ss);
    // The whole word is the tag.
    assert forall|j: int| 0 <= j < id.len() implies !"(){ %*\"\\+"@.contains(#[trigger] id[j]) by {
        if j > 0 {
            assert(is_digit(id[j]));
        }
    }
    lemma_first_in_absent(id, "(){ %*\"\\+"@, 0);
    assert(id.skip(id.len() as int) =~= Seq::<char>::empty());
    assert(id.take(id.len() as int) =~= id);
    // The state and its text.
    assert(ss.take(3) =~= "OK "@);
    let t = text + "\r\n"@;
    assert(ss.skip(3) =~= t);
    assert(!crate::text::starts_with(t, "["@)) by {
        if text.len() == 0 {
            assert(t[0] == '\r');
        } else {
            assert(t[0] == text[0]);
        }
        if crate::text::starts_with(t, "["@) {
            assert(t.take(1)[0] == "["@[0]);
        }
    }
    assert forall|j: int| 0 <= j < text.len() implies !"\n\r"@.contains(#[trigger] t[j]) by {
        assert(t[j] == text[j]);
    }
    assert(t[text.len() as int] == '\r');
    assert("\n\r"@[1] == t[text.len() as int]);
    assert("\n\r"@.contains(t[text.len() as int]));
    lemma_first_in_at(t, "\n\r"@, text.len() as int, 0);
    assert forall|j: int| 0 <= j < text.len() implies (#[trigger] t[j]) as u32 <= 0x7f by {
        assert(t[j] == text[j]);
        assert(t[j] == text[j]);
    }
    lemma_chars_for_bytes_ascii(t, text.len() as int);
    assert(t.take(text.len() as int) =~= text);
    assert(t.skip(text.len() as int) =~= "\r\n"@);
    assert("\r\n"@.skip(2) =~= Seq::<char>::empty());
    assert("\r\n"@.take(2) =~= "\r\n"@);
}

// ---------------------------------------------------------------------------
// A fetched message body is read back whole
// ---------------------------------------------------------------------------

/// `p` followed by `rest` starts with `p`, and removing `p` leaves `rest`.
proof fn lemma_prefix(p: Seq<char>, rest: Seq<char>)
    ensures
        starts_with(p + rest, p),
        (p + rest).skip(p.len() as int) == rest,
        spec_remove_start(p, p + rest) == Outcome::<()>::Parsed(rest, ()),
{
    assert((p + rest).take(p.len() as int) =~= p);
    assert((p + rest).skip(p.len() as int) =~= rest);
}

/// A text that differs from `p` at index `j` does not start with `p`.
proof fn lemma_not_prefix(s: Seq<char>, p: Seq<char>, j: int)
    requires
        0 <= j < p.len(),
        j < s.len(),
        s[j] != p[j],
    ensures
        !starts_with(s, p),
{
    if starts_with(s, p) {
        assert(s.take(p.len() as int)[j] == s[j]);
    }
}

/// A pattern that occurs at `k` is found from any index up to `k`.
proof fn lemma_find_some(s: Seq<char>, p: Seq<char>, i: int, k: int)
    requires
        0 <= i <= k,
        occurs_at(s, p, k),
    ensures
        find_from(s, p, i) is Some,
    decreases k - i,
{
    if i < k && !occurs_at(s, p, i) {
        lemma_find_some(s, p, i + 1, k);
    }
}

/// A literal is read back as the string it carries.
proof fn lemma_nstring_literal(body: &str, t: Seq<char>)
    requires
        utf8_len(body@) <= u32::MAX,
    ensures
        spec_parse_nstring(literal_text(body) + t) == Outcome::Parsed(t, Some(body@)),
{
    reveal_strlit("{");
    reveal_strlit("NIL");
    law_literal_round_trip(body, t);
    let x = literal_text(body) + t;
    lemma_prefix("{"@, x.skip(1));
    assert(x =~= "{"@ + x.skip(1));
    lemma_not_prefix(x, "NIL"@, 0);
    assert(spec_can_parse_string(x));
}

/// The attribute of a non-structured body with an empty section.
pub open spec fn fetched_body(body: Seq<char>) -> SpecMsgAttStatic {
    SpecMsgAttStatic::NonStructuredBody(
        SpecBodyNonStructured { section: None, number: None, nstring: Some(body) },
    )
}

/// The section `[]` is empty.
proof fn lemma_empty_section(u: Seq<char>)
    ensures
        spec_parse_section("[] "@ + u) == Outcome::Parsed(
            " "@ + u,
            None::<crate::lexicon::rfc3501::SpecSectionSpec>,
        ),
{
    reveal_strlit("[] ");
    reveal_strlit("] ");
    reveal_strlit("[");
    reveal_strlit("]");
    reveal_strlit(" ");
    assert("[] "@ + u =~= "["@ + ("] "@ + u));
    lemma_prefix("["@, "] "@ + u);
    assert("] "@ + u =~= "]"@ + (" "@ + u));
    lemma_prefix("]"@, " "@ + u);
    assert(!SectionSpec::spec_can_parse("] "@ + u));
}

/// The string of a non-structured body with no section and no offset
/// follows the space after `BODY[]`.
proof fn lemma_body_nonstructured(u: Seq<char>)
    ensures
        MsgAttStaticBodyNonStructuredComponent::spec_parse("BODY[] "@ + u) == (match spec_parse_nstring(u) {
            Outcome::Parsed(r, v) => Outcome::Parsed(
                r,
                SpecBodyNonStructured { section: None, number: None, nstring: v },
            ),
            Outcome::Rejected(m) => Outcome::Rejected(m),
            Outcome::Unhandled => Outcome::Unhandled,
        }),
{
    reveal_strlit("BODY[] ");
    reveal_strlit("BODY");
    reveal_strlit("[] ");
    reveal_strlit("<");
    reveal_strlit(" ");
    assert("BODY[] "@ + u =~= "BODY"@ + ("[] "@ + u));
    lemma_prefix("BODY"@, "[] "@ + u);
    lemma_empty_section(u);
    lemma_not_prefix(" "@ + u, "<"@, 0);
    assert(optional_offset(" "@ + u) == Outcome::Parsed(" "@ + u, None::<u32>));
    lemma_prefix(" "@, u);
}

/// `BODY[] ` starts a non-structured body with no section and no offset,
/// whose string follows the space.
proof fn lemma_body_head(u: Seq<char>)
    ensures
        MsgAttStatic::spec_can_parse("BODY[] "@ + u),
        MsgAttStatic::spec_parse("BODY[] "@ + u) == (match spec_parse_nstring(u) {
            Outcome::Parsed(r, v) => Outcome::Parsed(
                r,
                SpecMsgAttStatic::NonStructuredBody(
                    SpecBodyNonStructured { section: None, number: None, nstring: v },
                ),
            ),
            Outcome::Rejected(m) => Outcome::Rejected(m),
            Outcome::Unhandled => Outcome::Unhandled,
        }),
{
    reveal_strlit("BODY[] ");
    reveal_strlit("BODY");
    reveal_strlit("ENVELOPE ");
    reveal_strlit("RFC822 ");
    reveal_strlit("RFC822.SIZE ");
    reveal_strlit("BODY ");
    reveal_strlit("BODYSTRUCTURE ");
    let s = "BODY[] "@ + u;
    lemma_not_prefix(s, "ENVELOPE "@, 0);
    lemma_not_prefix(s, "RFC822 "@, 0);
    lemma_not_prefix(s, "RFC822.SIZE "@, 0);
    lemma_not_prefix(s, "BODY "@, 4);
    lemma_not_prefix(s, "BODYSTRUCTURE "@, 4);
    assert(s.take(4) =~= "BODY"@);
    assert(!MsgAttStaticBodyStructuredComponent::spec_can_parse(s));
    assert(MsgAttStaticBodyNonStructuredComponent::spec_can_parse(s));
    lemma_body_nonstructured(u);
}

/// `BODY[] ` and a literal are read as the body the literal carries.
proof fn lemma_body_attribute(body: &str, t: Seq<char>)
    requires
        utf8_len(body@) <= u32::MAX,
    ensures
        MsgAttStatic::spec_can_parse("BODY[] "@ + (literal_text(body) + t)),
        MsgAttStatic::spec_parse("BODY[] "@ + (literal_text(body) + t)) == Outcome::Parsed(
            t,
            fetched_body(body@),
        ),
{
    lemma_body_head(literal_text(body) + t);
    lemma_nstring_literal(body, t);
}

/// `(BODY[] ` literal `)` is read as that one attribute.
proof fn lemma_body_msg_att(body: &str, t: Seq<char>)
    requires
        utf8_len(body@) <= u32::MAX,
    ensures
        spec_parse_msg_att("(BODY[] "@ + (literal_text(body) + (")"@ + t))) == Outcome::Parsed(
            t,
            seq![SpecMsgAttComponent::MsgAttStatic(fetched_body(body@))],
        ),
{
    reveal_strlit("(BODY[] ");
    reveal_strlit("BODY[] ");
    reveal_strlit("(");
    reveal_strlit(")");
    let w = "BODY[] "@ + (literal_text(body) + (")"@ + t));
    assert("(BODY[] "@ + (literal_text(body) + (")"@ + t)) =~= "("@ + w);
    lemma_prefix("("@, w);
    lemma_not_prefix(w, ")"@, 0);
    lemma_body_attribute(body, ")"@ + t);
    lemma_prefix(")"@, t);
    reveal_strlit(" ");
    lemma_not_prefix(")"@ + t, " "@, 0);
    assert(seq![SpecMsgAttComponent::MsgAttStatic(fetched_body(body@))] + Seq::<SpecMsgAttComponent>::empty()
        =~= seq![SpecMsgAttComponent::MsgAttStatic(fetched_body(body@))]);
    assert(msg_att_list(w) == Outcome::Parsed(
        ")"@ + t,
        seq![SpecMsgAttComponent::MsgAttStatic(fetched_body(body@))],
    ));
    assert(msg_att_items(w) == msg_att_list(w));
}

/// The untagged `FETCH` data of message `n` with that one body attribute.
pub open spec fn fetched_message(n: u32, body: Seq<char>) -> SpecMessageData {
    SpecMessageData {
        nz_number: n,
        message_data_component: SpecMessageDataComponent::Fetch(
            seq![SpecMsgAttComponent::MsgAttStatic(fetched_body(body))],
        ),
    }
}

/// The decimal form of `n` is a number word that reads as `n`.
proof fn lemma_number_word(n: u32)
    ensures
        spec_can_parse_nz_number(decimal(n as nat)),
        spec_parse_nz_number(decimal(n as nat)) == Outcome::Parsed(Seq::<char>::empty(), n),
{
    let d = decimal(n as nat);
    lemma_decimal(n as nat);
    lemma_first_non_digit_from_bounds(d, 0);
    assert(first_non_digit_from(d, 0) is None);
    assert(d.take(d.len() as int) =~= d);
    assert(d.skip(d.len() as int) =~= Seq::<char>::empty());
    assert(is_digit(d[0]));
    assert forall|j: int| 0 <= j < d.len() implies !seq![' '].contains(#[trigger] d[j]) by {
        assert(is_digit(d[j]));
    }
    lemma_first_in_absent(d, seq![' '], 0);
    assert(first_word(d) == d);
    assert(parses_as_i64(d));
}

/// The decimal form of `n` is the word before the first space.
proof fn lemma_number_then_space(n: u32, rest: Seq<char>)
    ensures
        split_once_char(decimal(n as nat) + (" "@ + rest), ' ') == Some((decimal(n as nat), rest)),
{
    reveal_strlit(" ");
    let d = decimal(n as nat);
    lemma_decimal(n as nat);
    let x = d + (" "@ + rest);
    assert forall|j: int| 0 <= j < d.len() implies !seq![' '].contains(#[trigger] x[j]) by {
        assert(x[j] == d[j]);
        assert(is_digit(d[j]));
    }
    assert(x[d.len() as int] == ' ');
    assert(seq![' '][0] == x[d.len() as int]);
    lemma_first_in_at(x, seq![' '], d.len() as int, 0);
    assert(x.take(d.len() as int) =~= d);
    assert(x.skip(d.len() as int + 1) =~= rest);
}

/// `FETCH (BODY[] ` literal `)` is a fetch of that one attribute.
proof fn lemma_fetch_component(body: &str, t: Seq<char>)
    requires
        utf8_len(body@) <= u32::MAX,
    ensures
        MessageDataComponent::spec_can_parse(
            "FETCH (BODY[] "@ + (literal_text(body) + (")"@ + t)),
        ),
        MessageDataComponent::spec_parse("FETCH (BODY[] "@ + (literal_text(body) + (")"@ + t)))
            == Outcome::Parsed(t, fetched_message(0, body@).message_data_component),
{
    reveal_strlit("FETCH (BODY[] ");
    reveal_strlit("(BODY[] ");
    reveal_strlit("EXPUNGE");
    reveal_strlit("FETCH ");
    let tail = literal_text(body) + (")"@ + t);
    let ss = "FETCH (BODY[] "@ + tail;
    lemma_not_prefix(ss, "EXPUNGE"@, 0);
    assert(ss =~= "FETCH "@ + ("(BODY[] "@ + tail));
    lemma_prefix("FETCH "@, "(BODY[] "@ + tail);
    lemma_body_msg_att(body, t);
}

/// `n FETCH (BODY[] ` literal `)` is the fetched data of message `n`.
proof fn lemma_fetch_message_data(n: u32, body: &str, t: Seq<char>)
    requires
        utf8_len(body@) <= u32::MAX,
    ensures
        MessageData::spec_can_parse(
            decimal(n as nat) + (" FETCH (BODY[] "@ + (literal_text(body) + (")"@ + t))),
        ),
        MessageData::spec_parse(
            decimal(n as nat) + (" FETCH (BODY[] "@ + (literal_text(body) + (")"@ + t))),
        ) == Outcome::Parsed(t, fetched_message(n, body@)),
{
    reveal_strlit(" FETCH (BODY[] ");
    reveal_strlit("FETCH (BODY[] ");
    reveal_strlit(" ");
    let ss = "FETCH (BODY[] "@ + (literal_text(body) + (")"@ + t));
    assert(" FETCH (BODY[] "@ + (literal_text(body) + (")"@ + t)) =~= " "@ + ss);
    lemma_number_then_space(n, ss);
    lemma_number_word(n);
    lemma_fetch_component(body, t);
}

/// The untagged line `* n FETCH (BODY[] ` literal `)` CRLF is read as the
/// fetched data of message `n`.
proof fn lemma_fetch_response_data(n: u32, body: &str, rest: Seq<char>)
    requires
        utf8_len(body@) <= u32::MAX,
    ensures
        !ContinueReq::spec_can_parse(
            "* "@ + (decimal(n as nat) + (" FETCH (BODY[] "@ + (literal_text(body) + (")"@ + (
            "\r\n"@ + rest))))),
        ),
        ResponseData::spec_can_parse(
            "* "@ + (decimal(n as nat) + (" FETCH (BODY[] "@ + (literal_text(body) + (")"@ + (
            "\r\n"@ + rest))))),
        ),
        ResponseFatal::spec_can_parse(
            "* "@ + (decimal(n as nat) + (" FETCH (BODY[] "@ + (literal_text(body) + (")"@ + (
            "\r\n"@ + rest))))),
        ),
        ResponseData::spec_parse(
            "* "@ + (decimal(n as nat) + (" FETCH (BODY[] "@ + (literal_text(body) + (")"@ + (
            "\r\n"@ + rest))))),
        ) == Outcome::Parsed(rest, SpecResponseData::MessageData(fetched_message(n, body@))),
{
    reveal_strlit("* ");
    reveal_strlit("+ ");
    reveal_strlit("\r\n");
    reveal_strlit("BYE ");
    reveal_strlit("OK ");
    reveal_strlit("NO ");
    reveal_strlit("BAD ");
    let d = decimal(n as nat);
    lemma_decimal(n as nat);
    let t = "\r\n"@ + rest;
    let m = d + (" FETCH (BODY[] "@ + (literal_text(body) + (")"@ + t)));
    let x = "* "@ + m;
    lemma_prefix("* "@, m);
    lemma_not_prefix(x, "+ "@, 0);
    // The CRLF before `rest` ends the line.
    let k = x.len() - rest.len() - 2;
    assert(x =~= ("* "@ + (d + (" FETCH (BODY[] "@ + (literal_text(body) + ")"@)))) + ("\r\n"@
        + rest));
    assert(x.subrange(k, k + 2) =~= "\r\n"@);
    lemma_find_some(x, "\r\n"@, 0, k);
    // The data is message data.
    assert(m[0] == d[0]);
    assert(is_digit(d[0]));
    lemma_not_prefix(m, "BYE "@, 0);
    lemma_not_prefix(m, "OK "@, 0);
    lemma_not_prefix(m, "NO "@, 0);
    lemma_not_prefix(m, "BAD "@, 0);
    assert(!RespCondBye::spec_can_parse(m));
    assert(!RespCondState::spec_can_parse(m));
    lemma_fetch_message_data(n, body, t);
    lemma_prefix("\r\n"@, rest);
}

/// The tagged line `A<id> OK text` CRLF holds no untagged data and ends
/// the response with the tag, `OK` and the text.
proof fn lemma_tagged_done(id: u32, text: Seq<char>)
    requires
        forall|j: int| 0 <= j < text.len() ==> (#[trigger] text[j]) as u32 <= 0x7f && text[j]
            != '\r' && text[j] != '\n',
        text.len() == 0 || text[0] != '[',
    ensures
        response_items(command_id_text(id) + " OK "@ + text + "\r\n"@) == Outcome::Parsed(
            command_id_text(id) + " OK "@ + text + "\r\n"@,
            Seq::<SpecResponseComponent>::empty(),
        ),
        ResponseDone::spec_parse(command_id_text(id) + " OK "@ + text + "\r\n"@)
            == Outcome::Parsed(
            Seq::<char>::empty(),
            SpecResponseDone::ResponseTagged(
                SpecResponseTagged {
                    tag: command_id_text(id),
                    resp_cond_state: SpecRespCondState::OK(
                        SpecRespText { resp_text_code: None, text },
                    ),
                },
            ),
        ),
{
    reveal_strlit("* ");
    reveal_strlit("+ ");
    lemma_command_id_chars(id);
    let x = command_id_text(id) + " OK "@ + text + "\r\n"@;
    assert(x[0] == 'A');
    lemma_not_prefix(x, "+ "@, 0);
    lemma_not_prefix(x, "* "@, 0);
    assert(!ContinueReq::spec_can_parse(x));
    assert(!ResponseData::spec_can_parse(x));
    assert(!ResponseFatal::spec_can_parse(x));
    law_command_tag_read_back(id, text);
}

/// What a server answers to the `id`th command, a fetch of the body of
/// message `n`: the body as a literal in a `FETCH` line, then the tagged
/// `OK` line with `text`.
pub open spec fn fetch_body_reply(n: u32, body: &str, id: u32, text: Seq<char>) -> Seq<char> {
    "* "@ + decimal(n as nat) + " FETCH (BODY[] "@ + literal_text(body) + ")\r\n"@
        + command_id_text(id) + " OK "@ + text + "\r\n"@
}

/// That reply, as the parser reads it.
pub open spec fn fetch_body_reply_read(n: u32, body: Seq<char>, id: u32, text: Seq<char>) -> SpecResponse {
    SpecResponse {
        response_components: seq![
            SpecResponseComponent::ResponseData(
                SpecResponseData::MessageData(fetched_message(n, body)),
            ),
        ],
        response_done: SpecResponseDone::ResponseTagged(
            SpecResponseTagged {
                tag: command_id_text(id),
                resp_cond_state: SpecRespCondState::OK(SpecRespText { resp_text_code: None, text }),
            },
        ),
    }
}

/// The fetched data line, then the tagged line: one line of data is read
/// before the tagged line.
proof fn lemma_reply_items(n: u32, body: &str, tl: Seq<char>)
    requires
        utf8_len(body@) <= u32::MAX,
        response_items(tl) == Outcome::Parsed(tl, Seq::<SpecResponseComponent>::empty()),
    ensures
        response_items(
            "* "@ + (decimal(n as nat) + (" FETCH (BODY[] "@ + (literal_text(body) + (")"@ + (
            "\r\n"@ + tl))))),
        ) == Outcome::Parsed(
            tl,
            seq![SpecResponseComponent::ResponseData(SpecResponseData::MessageData(fetched_message(n, body@)))],
        ),
        ResponseDone::spec_can_parse(
            "* "@ + (decimal(n as nat) + (" FETCH (BODY[] "@ + (literal_text(body) + (")"@ + (
            "\r\n"@ + tl))))),
        ),
{
    lemma_fetch_response_data(n, body, tl);
    let item = SpecResponseComponent::ResponseData(
        SpecResponseData::MessageData(fetched_message(n, body@)),
    );
    assert(seq![item] + Seq::<SpecResponseComponent>::empty() =~= seq![item]);
}

/// Regrouping the pieces of the reply.
proof fn lemma_regroup<A>(
    a: Seq<A>,
    b: Seq<A>,
    c: Seq<A>,
    l: Seq<A>,
    e1: Seq<A>,
    e2: Seq<A>,
    i: Seq<A>,
    o: Seq<A>,
    t: Seq<A>,
    r: Seq<A>,
)
    ensures
        a + b + c + l + (e1 + e2) + i + o + t + r == a + (b + (c + (l + (e1 + (e2 + (i + o + t
            + r)))))),
{
    assert(a + b + c + l + (e1 + e2) + i + o + t + r =~= a + (b + (c + (l + (e1 + (e2 + (i + o
        + t + r)))))));
}

/// The reply is read as its fetched data and its tagged line.
proof fn lemma_fetch_reply_parse(n: u32, body: &str, id: u32, text: Seq<char>)
    requires
        utf8_len(body@) <= u32::MAX,
        forall|j: int| 0 <= j < text.len() ==> (#[trigger] text[j]) as u32 <= 0x7f && text[j]
            != '\r' && text[j] != '\n',
        text.len() == 0 || text[0] != '[',
    ensures
        Response::spec_parse(fetch_body_reply(n, body, id, text)) == Outcome::Parsed(
            Seq::<char>::empty(),
            fetch_body_reply_read(n, body@, id, text),
        ),
{
    reveal_strlit(")\r\n");
    reveal_strlit(")");
    reveal_strlit("\r\n");
    assert(")\r\n"@ =~= ")"@ + "\r\n"@);
    lemma_regroup(
        "* "@,
        decimal(n as nat),
        " FETCH (BODY[] "@,
        literal_text(body),
        ")"@,
        "\r\n"@,
        command_id_text(id),
        " OK "@,
        text,
        "\r\n"@,
    );
    lemma_tagged_done(id, text);
    lemma_reply_items(n, body, command_id_text(id) + " OK "@ + text + "\r\n"@);
}

/// A message body that the server sends as a literal in its reply to a
/// fetch is read back whole: the reply parses completely, passes the check
/// of a fetch response to that command, and the body taken out of it is
/// the body sent, whatever characters it holds. Provided the body's length
/// in bytes fits the 32-bit number that the parser reads, and the text of
/// the tagged line is ASCII, holds no CR or LF and does not start with `[`.
pub proof fn law_fetched_body_read_back(
    n: u32,
    body: &str,
    id: u32,
    text: Seq<char>,
    empty_message: Seq<char>,
)
    requires
        utf8_len(body@) <= u32::MAX,
        forall|j: int| 0 <= j < text.len() ==> (#[trigger] text[j]) as u32 <= 0x7f && text[j]
            != '\r' && text[j] != '\n',
        text.len() == 0 || text[0] != '[',
    ensures
        spec_parse_response(fetch_body_reply(n, body, id, text)) == Outcome::Parsed(
            Seq::<char>::empty(),
            fetch_body_reply_read(n, body@, id, text),
        ),
        spec_check_fetch(
            Some(fetch_body_reply_read(n, body@, id, text)),
            command_id_text(id),
            empty_message,
        ) == Ok::<Seq<SpecResponseComponent>, (i32, Seq<char>)>(
            fetch_body_reply_read(n, body@, id, text).response_components,
        ),
        spec_body_of(fetch_body_reply_read(n, body@, id, text).response_components) == Ok::<
            Seq<char>,
            (i32, Seq<char>),
        >(body@),
{
    lemma_fetch_reply_parse(n, body, id, text);
}

// ---------------------------------------------------------------------------
// A refusal is found on the tagged line
// ---------------------------------------------------------------------------

/// The lines `lines`, each ended with CRLF.
pub open spec fn crlf_lines(lines: Seq<Seq<char>>) -> Seq<char>
    decreases lines.len(),
{
    if lines.len() == 0 {
        Seq::empty()
    } else {
        lines[0] + "\r\n"@ + crlf_lines(lines.drop_first())
    }
}

/// `s` holds no carriage return.
pub open spec fn no_cr(s: Seq<char>) -> bool {
    forall|j: int| 0 <= j < s.len() ==> s[j] != '\r'
}

/// A pattern found at `k`, and nowhere from `i` before it, is the first
/// one found from `i`.
proof fn lemma_find_at(s: Seq<char>, p: Seq<char>, k: int, i: int)
    requires
        0 <= i <= k,
        occurs_at(s, p, k),
        forall|j: int| i <= j < k ==> !occurs_at(s, p, j),
    ensures
        find_from(s, p, i) == Some(k),
    decreases k - i,
{
    if i < k {
        lemma_find_at(s, p, k, i + 1);
    }
}

/// A line without CR, then CRLF: the line is the first piece.
proof fn lemma_split_line(a: Seq<char>, rest: Seq<char>)
    requires
        no_cr(a),
    ensures
        split_on(a + "\r\n"@ + rest, "\r\n"@) == seq![a] + split_on(rest, "\r\n"@),
{
    reveal_strlit("\r\n");
    let s = a + "\r\n"@ + rest;
    let p = "\r\n"@;
    assert forall|j: int| 0 <= j < a.len() implies !occurs_at(s, p, j) by {
        if occurs_at(s, p, j) {
            assert(s.subrange(j, j + 2)[0] == s[j]);
            assert(s[j] == a[j]);
        }
    }
    assert(s.subrange(a.len() as int, a.len() as int + 2) =~= p);
    lemma_find_at(s, p, a.len() as int, 0);
    assert(s.take(a.len() as int) =~= a);
    assert(s.skip(a.len() as int + 2) =~= rest);
}

/// Lines ended with CRLF split back into those lines.
proof fn lemma_split_lines(lines: Seq<Seq<char>>, tail: Seq<char>)
    requires
        forall|i: int| 0 <= i < lines.len() ==> no_cr(#[trigger] lines[i]),
    ensures
        split_on(crlf_lines(lines) + tail, "\r\n"@) == lines + split_on(tail, "\r\n"@),
    decreases lines.len(),
{
    if lines.len() == 0 {
        assert(crlf_lines(lines) + tail =~= tail);
        assert(lines + split_on(tail, "\r\n"@) =~= split_on(tail, "\r\n"@));
    } else {
        let rest = lines.drop_first();
        assert forall|i: int| 0 <= i < rest.len() implies no_cr(#[trigger] rest[i]) by {
            assert(rest[i] == lines[i + 1]);
        }
        lemma_split_lines(rest, tail);
        assert(no_cr(lines[0]));
        assert(crlf_lines(lines) + tail =~= lines[0] + "\r\n"@ + (crlf_lines(rest) + tail));
        lemma_split_line(lines[0], crlf_lines(rest) + tail);
        assert(seq![lines[0]] + (rest + split_on(tail, "\r\n"@)) =~= lines + split_on(
            tail,
            "\r\n"@,
        ));
    }
}

/// After any lines, the last line of a response is the one before its
/// final CRLF.
proof fn lemma_last_line(lines: Seq<Seq<char>>, last: Seq<char>)
    requires
        forall|i: int| 0 <= i < lines.len() ==> no_cr(#[trigger] lines[i]),
        no_cr(last),
    ensures
        split_on(crlf_lines(lines) + last + "\r\n"@, "\r\n"@) == lines + seq![last, Seq::<char>::empty()],
{
    reveal_strlit("\r\n");
    let e = Seq::<char>::empty();
    lemma_split_line(last, e);
    assert(last + "\r\n"@ + e =~= last + "\r\n"@);
    assert(split_on(e, "\r\n"@) == seq![e]);
    assert(seq![last] + seq![e] =~= seq![last, e]);
    lemma_split_lines(lines, last + "\r\n"@);
    assert(crlf_lines(lines) + last + "\r\n"@ =~= crlf_lines(lines) + (last + "\r\n"@));
}

/// A response to the command tagged `id` that ends with the tagged line
/// `id NO ...` is a refusal: the program stops with `refusal` (code 3),
/// whatever untagged lines come before it. Provided no line holds a
/// carriage return of its own.
pub proof fn law_refusal_stops(lines: Seq<Seq<char>>, id: Seq<char>, text: Seq<char>, refusal: Seq<char>)
    requires
        forall|i: int| 0 <= i < lines.len() ==> no_cr(#[trigger] lines[i]),
        no_cr(id),
        no_cr(text),
    ensures
        spec_check_not_refused(crlf_lines(lines) + id + " NO"@ + text + "\r\n"@, id, refusal) == Err::<
            (),
            (i32, Seq<char>),
        >((3, refusal)),
{
    reveal_strlit(" NO");
    let last = id + " NO"@ + text;
    assert forall|j: int| 0 <= j < last.len() implies last[j] != '\r' by {
        if j < id.len() {
            assert(last[j] == id[j]);
        } else if j >= id.len() + 3 {
            assert(last[j] == text[j - id.len() - 3]);
        }
    }
    lemma_last_line(lines, last);
    assert(crlf_lines(lines) + id + " NO"@ + text + "\r\n"@ =~= crlf_lines(lines) + last + "\r\n"@);
    let ps = lines + seq![last, Seq::<char>::empty()];
    assert(ps[ps.len() - 2] == last);
    lemma_prefix(id + " NO"@, text);
}

/// A response to the command tagged `id` that ends with the tagged line
/// `id OK ...` is no refusal, whatever untagged lines come before it.
/// Provided no line holds a carriage return of its own.
pub proof fn law_acceptance_passes(lines: Seq<Seq<char>>, id: Seq<char>, text: Seq<char>, refusal: Seq<char>)
    requires
        forall|i: int| 0 <= i < lines.len() ==> no_cr(#[trigger] lines[i]),
        no_cr(id),
        no_cr(text),
    ensures
        spec_check_not_refused(crlf_lines(lines) + id + " OK"@ + text + "\r\n"@, id, refusal) == Ok::<
            (),
            (i32, Seq<char>),
        >(()),
{
    reveal_strlit(" OK");
    reveal_strlit(" NO");
    let last = id + " OK"@ + text;
    assert forall|j: int| 0 <= j < last.len() implies last[j] != '\r' by {
        if j < id.len() {
            assert(last[j] == id[j]);
        } else if j >= id.len() + 3 {
            assert(last[j] == text[j - id.len() - 3]);
        }
    }
    lemma_last_line(lines, last);
    assert(crlf_lines(lines) + id + " OK"@ + text + "\r\n"@ =~= crlf_lines(lines) + last + "\r\n"@);
    let ps = lines + seq![last, Seq::<char>::empty()];
    assert(ps[ps.len() - 2] == last);
    lemma_not_prefix(last, id + " NO"@, id.len() as int + 1);
}

} // verus!
