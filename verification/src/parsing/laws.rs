//! Properties of the parsers over all inputs.
use vstd::prelude::*;
use crate::lexicon::rfc2045::FieldBody;
use crate::lexicon::rfc3501::{Address, EnvNAddress, Envelope, SpecAddress, SpecEnvelope};
use crate::parsing::general::{prepend, spec_remove_start, Outcome};
use crate::parsing::rfc3501::{
    addr_items, sep_env, sep_nstring, spec_can_parse_string, spec_parse_nstring,
    spec_parse_nz_number, spec_parse_string,
};
use crate::text::{
    decimal, is_digit, lemma_chars_for_bytes_ascii, lemma_chars_for_bytes_concat, lemma_decimal,
    lemma_first_in_at, lemma_first_non_digit_after, parse_u32, starts_with, token_end, utf8_len,
};

verus! {

broadcast use vstd::string::group_string_axioms;

// ---------------------------------------------------------------------------
// Folded header lines
// ---------------------------------------------------------------------------

/// An ASCII line with no CR or LF.
pub open spec fn plain_line(c: Seq<char>) -> bool {
    forall|j: int| 0 <= j < c.len() ==> (#[trigger] c[j]) as u32 <= 0x7f && c[j] != '\r' && c[j]
        != '\n'
}

/// A header body line ends at the CRLF after it.
proof fn lemma_line_then_crlf(c: Seq<char>, rest: Seq<char>)
    requires
        plain_line(c),
    ensures
        token_end(c + "\r\n"@ + rest, "\r\n"@) == Some(c.len() as int),
{
    reveal_strlit("\r\n");
    let x = c + "\r\n"@ + rest;
    assert forall|j: int| 0 <= j < c.len() implies !"\r\n"@.contains(#[trigger] x[j]) by {
        assert(x[j] == c[j]);
    }
    assert(x[c.len() as int] == '\r');
    assert("\r\n"@[0] == x[c.len() as int]);
    lemma_first_in_at(x, "\r\n"@, c.len() as int, 0);
    assert forall|j: int| 0 <= j < c.len() implies (#[trigger] x[j]) as u32 <= 0x7f by {
        assert(x[j] == c[j]);
    }
    lemma_chars_for_bytes_ascii(x, c.len() as int);
}

/// A body line followed by CRLF and a tab continues the same field: the
/// line is its first line and the body goes on after the tab.
pub proof fn law_tab_folding_continues(c: Seq<char>, rest: Seq<char>)
    requires
        plain_line(c),
    ensures
        FieldBody::spec_parse(c + "\r\n\t"@ + rest) == prepend(seq![c], FieldBody::spec_parse(rest)),
{
    reveal_strlit("\r\n\t");
    reveal_strlit("\r\n");
    assert(c + "\r\n\t"@ + rest =~= c + "\r\n"@ + ("\t"@ + rest)) by {
        reveal_strlit("\t");
    }
    lemma_line_then_crlf(c, "\t"@ + rest);
    let x = c + "\r\n\t"@ + rest;
    assert(x.take(c.len() as int) =~= c);
    assert(x.skip(c.len() as int) =~= "\r\n\t"@ + rest);
    assert(("\r\n\t"@ + rest).take(3) =~= "\r\n\t"@);
    assert(("\r\n\t"@ + rest).skip(3) =~= rest);
}

/// A body line followed by CRLF and a space continues the same field: the
/// line is its first line and the body goes on after the space.
pub proof fn law_space_folding_continues(c: Seq<char>, rest: Seq<char>)
    requires
        plain_line(c),
    ensures
        FieldBody::spec_parse(c + "\r\n "@ + rest) == prepend(seq![c], FieldBody::spec_parse(rest)),
{
    reveal_strlit("\r\n ");
    reveal_strlit("\r\n");
    assert(c + "\r\n "@ + rest =~= c + "\r\n"@ + (" "@ + rest)) by {
        reveal_strlit(" ");
    }
    lemma_line_then_crlf(c, " "@ + rest);
    let x = c + "\r\n "@ + rest;
    assert(x.take(c.len() as int) =~= c);
    assert(x.skip(c.len() as int) =~= "\r\n "@ + rest);
    assert(("\r\n "@ + rest).take(3) =~= "\r\n "@);
    assert(("\r\n "@ + rest).skip(3) =~= rest);
}

/// A body line followed by CRLF and anything but a space or a tab is the
/// last line of its field; the CRLF is left for the next field.
pub proof fn law_unfolded_line_ends_field(c: Seq<char>, rest: Seq<char>)
    requires
        plain_line(c),
        rest.len() == 0 || (rest[0] != ' ' && rest[0] != '\t'),
    ensures
        FieldBody::spec_parse(c + "\r\n"@ + rest) == Outcome::Parsed("\r\n"@ + rest, seq![c]),
{
    reveal_strlit("\r\n ");
    reveal_strlit("\r\n\t");
    reveal_strlit("\r\n");
    lemma_line_then_crlf(c, rest);
    let x = c + "\r\n"@ + rest;
    assert(x.take(c.len() as int) =~= c);
    assert(x.skip(c.len() as int) =~= "\r\n"@ + rest);
    let r = "\r\n"@ + rest;
    if crate::text::starts_with(r, "\r\n "@) {
        assert(r.take(3)[2] == ' ');
        assert(r[2] == rest[0]);
    }
    if crate::text::starts_with(r, "\r\n\t"@) {
        assert(r.take(3)[2] == '\t');
        assert(r[2] == rest[0]);
    }
}

// ---------------------------------------------------------------------------
// Envelopes written out in RFC 3501 order
// ---------------------------------------------------------------------------

/// `p` followed by `rest` starts with `p`, and removing `p` leaves `rest`.
proof fn lemma_prefix(p: Seq<char>, rest: Seq<char>)
    ensures
        starts_with(p + rest, p),
        (p + rest).skip(p.len() as int) == rest,
        spec_remove_start(p, p + rest) == Outcome::<()>::Parsed(rest, ()),
{
    assert((p + rest).take(p.len() as int) =~= p);
    assert((p + rest).skip(p.len() as int) =~= rest);
}

/// A text that differs from `p` at index `j` does not start with `p`.
proof fn lemma_not_prefix(s: Seq<char>, p: Seq<char>, j: int)
    requires
        0 <= j < p.len(),
        j < s.len(),
        s[j] != p[j],
    ensures
        !starts_with(s, p),
{
    if starts_with(s, p) {
        assert(s.take(p.len() as int)[j] == s[j]);
    }
}

/// The literal form of `s`: its length in bytes in braces, CRLF, then `s`.
pub open spec fn literal(s: Seq<char>) -> Seq<char> {
    "{"@ + decimal(utf8_len(s)) + "}\r\n"@ + s
}

/// A string whose length in bytes fits the 32-bit number of a literal.
pub open spec fn fits(s: Option<Seq<char>>) -> bool {
    s is None || utf8_len(s->0) <= u32::MAX
}

/// An `nstring` written out: `NIL`, or the string as a literal.
pub open spec fn nstring_text(s: Option<Seq<char>>) -> Seq<char> {
    match s {
        None => "NIL"@,
        Some(v) => literal(v),
    }
}

/// A literal is read back as the string it carries.
proof fn lemma_literal(s: Seq<char>, t: Seq<char>)
    requires
        utf8_len(s) <= u32::MAX,
    ensures
        spec_parse_string(literal(s) + t) == Outcome::Parsed(t, s),
{
    reveal_strlit("{");
    reveal_strlit("}\r\n");
    let n = utf8_len(s);
    let d = decimal(n);
    lemma_decimal(n);
    let x = literal(s) + t;
    let u = "}\r\n"@ + s + t;
    assert(x =~= "{"@ + (d + u));
    assert(x.skip(1) =~= d + u);
    assert(u[0] == '}');
    lemma_first_non_digit_after(d, u, 0);
    assert forall|j: int| 0 <= j < d.len() implies ((#[trigger] (d + u)[j]) as u32 <= 0x7f) by {
        assert((d + u)[j] == d[j]);
        assert(is_digit(d[j]));
    }
    lemma_chars_for_bytes_ascii(d + u, d.len() as int);
    assert((d + u).take(d.len() as int) =~= d);
    assert(is_digit(d[0]));
    assert(parse_u32(d) == Some(n as u32));
    assert((d + u).skip(d.len() as int) =~= u);
    assert(spec_parse_nz_number(d + u) == Outcome::Parsed(u, n as u32));
    assert(u.skip(3) =~= s + t);
    assert(u.take(3) =~= "}\r\n"@);
    lemma_chars_for_bytes_concat(s, t);
    assert((s + t).skip(s.len() as int) =~= t);
    assert((s + t).take(s.len() as int) =~= s);
    assert(x.take(1) =~= "{"@);
    assert(starts_with(u, "}\r\n"@));
}

/// An `nstring` written out is read back.
proof fn lemma_nstring(o: Option<Seq<char>>, t: Seq<char>)
    requires
        fits(o),
    ensures
        spec_parse_nstring(nstring_text(o) + t) == Outcome::Parsed(t, o),
{
    reveal_strlit("NIL");
    reveal_strlit("{");
    match o {
        None => {
            lemma_prefix("NIL"@, t);
        },
        Some(v) => {
            lemma_literal(v, t);
            let x = literal(v) + t;
            lemma_prefix("{"@, x.skip(1));
            assert(x =~= "{"@ + x.skip(1));
            lemma_not_prefix(x, "NIL"@, 0);
            assert(spec_can_parse_string(x));
        },
    }
}

/// A space and an `nstring` written out are read back.
proof fn lemma_sep_nstring(o: Option<Seq<char>>, t: Seq<char>)
    requires
        fits(o),
    ensures
        sep_nstring(" "@, " "@ + (nstring_text(o) + t)) == Outcome::Parsed(t, o),
{
    lemma_prefix(" "@, nstring_text(o) + t);
    lemma_nstring(o, t);
}

/// Every string of an address fits a literal.
pub open spec fn address_fits(a: SpecAddress) -> bool {
    fits(a.addr_name) && fits(a.addr_adl) && fits(a.addr_mailbox) && fits(a.addr_host)
}

/// An address written out: its four `nstring`s in parentheses, separated
/// by spaces, followed by `t`.
pub open spec fn address_then(a: SpecAddress, t: Seq<char>) -> Seq<char> {
    "("@ + (nstring_text(a.addr_name) + (" "@ + (nstring_text(a.addr_adl) + (" "@ + (nstring_text(
        a.addr_mailbox,
    ) + (" "@ + (nstring_text(a.addr_host) + (")"@ + t))))))))
}

/// An address written out is read back.
proof fn lemma_address(a: SpecAddress, t: Seq<char>)
    requires
        address_fits(a),
    ensures
        Address::spec_parse(address_then(a, t)) == Outcome::Parsed(t, a),
{
    reveal_strlit("(");
    reveal_strlit(")");
    let t4 = ")"@ + t;
    let t3 = " "@ + (nstring_text(a.addr_host) + t4);
    let t2 = " "@ + (nstring_text(a.addr_mailbox) + t3);
    let t1 = " "@ + (nstring_text(a.addr_adl) + t2);
    let x = address_then(a, t);
    lemma_prefix("("@, nstring_text(a.addr_name) + t1);
    lemma_nstring(a.addr_name, t1);
    lemma_sep_nstring(a.addr_adl, t2);
    lemma_sep_nstring(a.addr_mailbox, t3);
    lemma_sep_nstring(a.addr_host, t4);
    lemma_prefix(")"@, t);
}

/// Addresses written out one after another, then `t`.
pub open spec fn addresses_then(l: Seq<SpecAddress>, t: Seq<char>) -> Seq<char>
    decreases l.len(),
{
    if l.len() == 0 {
        t
    } else {
        address_then(l[0], addresses_then(l.drop_first(), t))
    }
}

/// Adjacent addresses written out are read back, up to the `)` after them.
proof fn lemma_addresses(l: Seq<SpecAddress>, t: Seq<char>)
    requires
        forall|i: int| 0 <= i < l.len() ==> address_fits(#[trigger] l[i]),
    ensures
        addr_items(addresses_then(l, ")"@ + t)) == Outcome::Parsed(")"@ + t, l),
    decreases l.len(),
{
    reveal_strlit("(");
    reveal_strlit(")");
    reveal_strlit("NIL");
    reveal_strlit(" ");
    if l.len() == 0 {
        lemma_prefix(")"@, t);
        assert(l =~= Seq::<SpecAddress>::empty());
    } else {
        let rest = l.drop_first();
        assert forall|i: int| 0 <= i < rest.len() implies address_fits(#[trigger] rest[i]) by {
            assert(rest[i] == l[i + 1]);
        }
        lemma_addresses(rest, t);
        let r = addresses_then(rest, ")"@ + t);
        let x = addresses_then(l, ")"@ + t);
        assert(x == address_then(l[0], r));
        assert(x[0] == '(');
        lemma_not_prefix(x, ")"@, 0);
        lemma_not_prefix(x, "NIL"@, 0);
        assert(address_fits(l[0]));
        lemma_address(l[0], r);
        assert(r.len() > 0);
        if rest.len() > 0 {
            assert(r == address_then(rest[0], addresses_then(rest.drop_first(), ")"@ + t)));
            assert(r[0] == '(');
            lemma_not_prefix(r, " "@, 0);
            lemma_prefix("("@, r.skip(1));
            assert(r =~= "("@ + r.skip(1));
        } else {
            assert(r == ")"@ + t);
            lemma_not_prefix(r, " "@, 0);
            lemma_not_prefix(r, "("@, 0);
            lemma_prefix(")"@, t);
        }
        assert(seq![l[0]] + rest =~= l);
    }
}

/// An address list written out: `NIL` when empty, else the addresses in
/// parentheses; then `t`.
pub open spec fn address_list_then(l: Seq<SpecAddress>, t: Seq<char>) -> Seq<char> {
    if l.len() == 0 {
        "NIL"@ + t
    } else {
        "("@ + addresses_then(l, ")"@ + t)
    }
}

/// A space and an address list written out are read back.
proof fn lemma_sep_env(l: Seq<SpecAddress>, t: Seq<char>)
    requires
        forall|i: int| 0 <= i < l.len() ==> address_fits(#[trigger] l[i]),
    ensures
        sep_env(" "@ + address_list_then(l, t)) == Outcome::Parsed(t, l),
{
    reveal_strlit("(");
    reveal_strlit(")");
    reveal_strlit("NIL");
    let x = address_list_then(l, t);
    lemma_prefix(" "@, x);
    if l.len() == 0 {
        lemma_prefix("NIL"@, t);
        assert(l =~= Seq::<SpecAddress>::empty());
    } else {
        lemma_addresses(l, t);
        lemma_prefix("("@, addresses_then(l, ")"@ + t));
        lemma_not_prefix(x, "NIL"@, 0);
        lemma_prefix(")"@, t);
    }
}

/// Every string of an envelope fits a literal.
pub open spec fn envelope_fits(e: SpecEnvelope) -> bool {
    &&& fits(e.env_date)
    &&& fits(e.env_subject)
    &&& fits(e.env_in_reply_to)
    &&& fits(e.env_message_id)
    &&& forall|i: int| 0 <= i < e.env_from.len() ==> address_fits(#[trigger] e.env_from[i])
    &&& forall|i: int| 0 <= i < e.env_sender.len() ==> address_fits(#[trigger] e.env_sender[i])
    &&& forall|i: int| 0 <= i < e.env_reply_to.len() ==> address_fits(#[trigger] e.env_reply_to[i])
    &&& forall|i: int| 0 <= i < e.env_to.len() ==> address_fits(#[trigger] e.env_to[i])
    &&& forall|i: int| 0 <= i < e.env_cc.len() ==> address_fits(#[trigger] e.env_cc[i])
    &&& forall|i: int| 0 <= i < e.env_bcc.len() ==> address_fits(#[trigger] e.env_bcc[i])
}

/// The end of an envelope written out: in-reply-to and message-id, each
/// after a space, then `)`; then `t`.
pub open spec fn envelope_ids_then(e: SpecEnvelope, t: Seq<char>) -> Seq<char> {
    " "@ + (nstring_text(e.env_in_reply_to) + (" "@ + (nstring_text(e.env_message_id) + (")"@
        + t))))
}

/// The to, cc and bcc lists of an envelope written out, each after a
/// space; then `t`.
pub open spec fn envelope_recipients_then(e: SpecEnvelope, t: Seq<char>) -> Seq<char> {
    let bcc = " "@ + address_list_then(e.env_bcc, t);
    let cc = " "@ + address_list_then(e.env_cc, bcc);
    " "@ + address_list_then(e.env_to, cc)
}

/// The from, sender and reply-to lists of an envelope written out, each
/// after a space; then `t`.
pub open spec fn envelope_senders_then(e: SpecEnvelope, t: Seq<char>) -> Seq<char> {
    let reply_to = " "@ + address_list_then(e.env_reply_to, t);
    let sender = " "@ + address_list_then(e.env_sender, reply_to);
    " "@ + address_list_then(e.env_from, sender)
}

/// An envelope written out in RFC 3501 order: `(`, then date, subject,
/// from, sender, reply-to, to, cc, bcc, in-reply-to and message-id
/// separated by spaces, then `)`; then `t`.
pub open spec fn envelope_then(e: SpecEnvelope, t: Seq<char>) -> Seq<char> {
    let rest = envelope_senders_then(e, envelope_recipients_then(e, envelope_ids_then(e, t)));
    "("@ + (nstring_text(e.env_date) + (" "@ + (nstring_text(e.env_subject) + rest)))
}

/// An envelope written out in RFC 3501 order from any ten parts is read
/// back as exactly those parts, each in its own field: the seventh list is
/// the Cc list and the eighth the Bcc list, and so on. Provided each
/// string's length in bytes fits the 32-bit number of a literal.
#[verifier::rlimit(50)]
pub proof fn law_envelope_fields_in_order(e: SpecEnvelope, t: Seq<char>)
    requires
        envelope_fits(e),
    ensures
        Envelope::spec_parse(envelope_then(e, t)) == Outcome::Parsed(t, e),
{
    reveal_strlit("(");
    reveal_strlit(")");
    let t10 = ")"@ + t;
    let t9 = " "@ + (nstring_text(e.env_message_id) + t10);
    let t8 = " "@ + (nstring_text(e.env_in_reply_to) + t9);
    let t7 = " "@ + address_list_then(e.env_bcc, t8);
    let t6 = " "@ + address_list_then(e.env_cc, t7);
    let t5 = " "@ + address_list_then(e.env_to, t6);
    let t4 = " "@ + address_list_then(e.env_reply_to, t5);
    let t3 = " "@ + address_list_then(e.env_sender, t4);
    let t2 = " "@ + address_list_then(e.env_from, t3);
    let t1 = " "@ + (nstring_text(e.env_subject) + t2);
    let x = envelope_then(e, t);
    assert(x == "("@ + (nstring_text(e.env_date) + t1));
    lemma_prefix("("@, nstring_text(e.env_date) + t1);
    lemma_nstring(e.env_date, t1);
    lemma_sep_nstring(e.env_subject, t2);
    lemma_sep_env(e.env_from, t3);
    lemma_sep_env(e.env_sender, t4);
    lemma_sep_env(e.env_reply_to, t5);
    lemma_sep_env(e.env_to, t6);
    lemma_sep_env(e.env_cc, t7);
    lemma_sep_env(e.env_bcc, t8);
    lemma_sep_nstring(e.env_in_reply_to, t9);
    lemma_sep_nstring(e.env_message_id, t10);
    lemma_prefix(")"@, t);
}

} // verus!
