//! Properties of what the commands print.
use vstd::prelude::*;
use crate::commands::list::list_lines;
use crate::commands::mime::{
    block_scan, body_values, content_type_ok, encoding_ok, is_plain_encoding, is_plaintext_part,
    unfold_contents, Verdict,
};
use crate::commands::parse::{envelope_summary, mailboxes, or_nil, plain_names};
use crate::lexicon::rfc2045::SpecField;
use crate::parsing::general::Outcome;
use crate::parsing::rfc2045::spec_get_headers;
use crate::lexicon::rfc3501::{
    SpecAddress, SpecEnvelope, SpecMessageData, SpecMessageDataComponent, SpecMsgAttComponent,
    SpecMsgAttStatic, SpecResponseComponent, SpecResponseData,
};
use crate::text::{contains, decimal, find_from, occurs_at, split_on};

verus! {

broadcast use vstd::string::group_string_axioms;

// ---------------------------------------------------------------------------
// list
// ---------------------------------------------------------------------------

/// A line of a `FETCH` response whose first attribute is the envelope `e`.
pub open spec fn envelope_line(e: SpecEnvelope) -> SpecResponseComponent {
    SpecResponseComponent::ResponseData(
        SpecResponseData::MessageData(
            SpecMessageData {
                nz_number: 1,
                message_data_component: SpecMessageDataComponent::Fetch(
                    seq![SpecMsgAttComponent::MsgAttStatic(SpecMsgAttStatic::Envelope(e))],
                ),
            },
        ),
    )
}

/// The subject of an envelope as `list` shows it.
pub open spec fn shown_subject(e: SpecEnvelope) -> Seq<char> {
    match e.env_subject {
        Some(s) => s,
        None => "<No subject>"@,
    }
}

/// Listing from number `n`: a line of fetched data whose first attribute
/// is an envelope gets number `n`, whatever its subject, and the lines
/// after it are numbered from `n + 1`.
pub proof fn law_list_numbers_each_envelope(
    cs: Seq<SpecResponseComponent>,
    n: nat,
    k: u32,
    atts: Seq<SpecMsgAttComponent>,
    e: SpecEnvelope,
)
    requires
        cs.len() > 0,
        cs[0] == SpecResponseComponent::ResponseData(
            SpecResponseData::MessageData(
                SpecMessageData {
                    nz_number: k,
                    message_data_component: SpecMessageDataComponent::Fetch(atts),
                },
            ),
        ),
        atts.len() > 0,
        atts[0] == SpecMsgAttComponent::MsgAttStatic(SpecMsgAttStatic::Envelope(e)),
    ensures
        list_lines(cs, n).0 == decimal(n) + ": "@ + shown_subject(e) + "\n"@ + list_lines(
            cs.drop_first(),
            n + 1,
        ).0,
        list_lines(cs, n).1 == list_lines(cs.drop_first(), n + 1).1,
{
}

/// The listing of the envelopes `es`, numbered from `n` on: line `j` is
/// `n + j`, `: ` and the subject.
pub open spec fn numbered_subjects(es: Seq<SpecEnvelope>, n: nat) -> Seq<char>
    decreases es.len(),
{
    if es.len() == 0 {
        Seq::empty()
    } else {
        decimal(n) + ": "@ + shown_subject(es[0]) + "\n"@ + numbered_subjects(es.drop_first(), n + 1)
    }
}

/// A response made of envelope lines only is listed in full, the `j`th
/// envelope with number `n + j`, and the listing does not stop.
pub proof fn law_list_of_envelopes(es: Seq<SpecEnvelope>, n: nat)
    ensures
        list_lines(es.map_values(|e: SpecEnvelope| envelope_line(e)), n) == (
            numbered_subjects(es, n),
            false,
        ),
    decreases es.len(),
{
    let cs = es.map_values(|e: SpecEnvelope| envelope_line(e));
    if es.len() > 0 {
        assert(cs.drop_first() =~= es.drop_first().map_values(|e: SpecEnvelope| envelope_line(e)));
        law_list_of_envelopes(es.drop_first(), n + 1);
        assert(cs[0] == envelope_line(es[0]));
    } else {
        assert(cs.len() == 0);
    }
}

// ---------------------------------------------------------------------------
// parse
// ---------------------------------------------------------------------------

/// With no display names, the names part of a list of addresses is empty.
proof fn lemma_no_names(addrs: Seq<SpecAddress>)
    requires
        forall|i: int| 0 <= i < addrs.len() ==> (#[trigger] addrs[i]).addr_name is None,
    ensures
        plain_names(addrs) == Seq::<char>::empty(),
    decreases addrs.len(),
{
    reveal_strlit("NIL");
    if addrs.len() > 0 {
        let rest = addrs.drop_last();
        assert forall|i: int| 0 <= i < rest.len() implies (#[trigger] rest[i]).addr_name is None by {
            assert(rest[i] == addrs[i]);
        }
        lemma_no_names(rest);
        assert(addrs.last() == addrs[addrs.len() - 1]);
        assert(or_nil(addrs.last().addr_name) == "NIL"@);
    }
}

/// The `From` line of an envelope's summary.
spec fn from_line(e: SpecEnvelope) -> Seq<char> {
    let from_names = crate::commands::parse::quoted_names(e.env_from);
    let from_boxes = mailboxes(e.env_from);
    if from_names.len() != 0 {
        "From: "@ + from_names + " <"@ + from_boxes + ">"@
    } else {
        "From: "@ + from_boxes
    }
}

/// The `Date` and `Subject` lines of an envelope's summary.
spec fn date_subject_lines(e: SpecEnvelope) -> Seq<char> {
    let subject_line = if or_nil(e.env_subject) != "NIL"@ {
        "Subject: "@ + or_nil(e.env_subject)
    } else {
        "Subject: <No subject>"@
    };
    "Date: "@ + or_nil(e.env_date) + "\n"@ + subject_line + "\n"@
}

/// The names part of the `To` line.
spec fn to_names_part(e: SpecEnvelope) -> Seq<char> {
    if plain_names(e.env_to).len() != 0 {
        plain_names(e.env_to) + " "@
    } else {
        Seq::<char>::empty()
    }
}

proof fn lemma_summary_split(e: SpecEnvelope)
    requires
        e.env_to.len() > 0,
    ensures
        envelope_summary(e) == from_line(e) + "\nTo: "@ + to_names_part(e) + mailboxes(e.env_to)
            + "\n"@ + date_subject_lines(e),
{
    reveal_strlit("\nTo: ");
    reveal_strlit("\n");
    reveal_strlit("To: ");
    assert(envelope_summary(e) =~= from_line(e) + "\nTo: "@ + to_names_part(e) + mailboxes(
        e.env_to,
    ) + "\n"@ + date_subject_lines(e));
}

/// Where the envelope has `To` addresses, the second printed line is
/// `To: `, the names (if any, then a space), and the `mailbox@host` of
/// every `To` address.
pub proof fn law_to_line_lists_every_address(e: SpecEnvelope)
    requires
        e.env_to.len() > 0,
    ensures
        exists|from: Seq<char>, names: Seq<char>, after: Seq<char>|
            envelope_summary(e) == from + "\nTo: "@ + names + mailboxes(e.env_to) + "\n"@
                + after,
{
    lemma_summary_split(e);
    let w = (from_line(e), to_names_part(e), date_subject_lines(e));
    assert(envelope_summary(e) == w.0 + "\nTo: "@ + w.1 + mailboxes(e.env_to) + "\n"@ + w.2);
}

/// Where no `To` address has a display name, the `To` line is `To: ` and
/// the `mailbox@host` of every `To` address.
pub proof fn law_unnamed_to_line(e: SpecEnvelope)
    requires
        e.env_to.len() > 0,
        forall|i: int| 0 <= i < e.env_to.len() ==> (#[trigger] e.env_to[i]).addr_name is None,
    ensures
        exists|from: Seq<char>, after: Seq<char>|
            envelope_summary(e) == from + "\nTo: "@ + mailboxes(e.env_to) + "\n"@ + after,
{
    lemma_no_names(e.env_to);
    lemma_summary_split(e);
    assert(to_names_part(e) == Seq::<char>::empty());
    let f = from_line(e);
    let a = date_subject_lines(e);
    assert(f + "\nTo: "@ + to_names_part(e) + mailboxes(e.env_to) + "\n"@ + a =~= f + "\nTo: "@
        + mailboxes(e.env_to) + "\n"@ + a);
    assert(envelope_summary(e) == f + "\nTo: "@ + mailboxes(e.env_to) + "\n"@ + a);
}

// ---------------------------------------------------------------------------
// mime
// ---------------------------------------------------------------------------

/// A pattern found at `k`, and nowhere from `i` before it, is the first
/// one found from `i`.
proof fn lemma_found_at(s: Seq<char>, p: Seq<char>, k: int, i: int)
    requires
        0 <= i <= k,
        occurs_at(s, p, k),
        forall|j: int| i <= j < k ==> !occurs_at(s, p, j),
    ensures
        find_from(s, p, i) == Some(k),
    decreases k - i,
{
    if i < k {
        lemma_found_at(s, p, k, i + 1);
    }
}

/// A pattern whose first character does not occur in `s` is not found.
proof fn lemma_not_found(s: Seq<char>, p: Seq<char>, i: int)
    requires
        p.len() > 0,
        0 <= i,
        forall|j: int| 0 <= j < s.len() ==> s[j] != p[0],
    ensures
        find_from(s, p, i) is None,
    decreases s.len() + 1 - i,
{
    if i + p.len() <= s.len() {
        if occurs_at(s, p, i) {
            assert(s.subrange(i, i + p.len())[0] == s[i]);
        }
        lemma_not_found(s, p, i + 1);
    }
}

/// A value without `;` is a value of its own.
proof fn lemma_plain_value(v: Seq<char>)
    requires
        v.len() > 0,
        forall|j: int| 0 <= j < v.len() ==> v[j] != ';',
    ensures
        unfold_contents(v) == seq![v],
{
    reveal_strlit(";");
    lemma_not_found(v, ";"@, 0);
}

/// The values of a one-line body are those of its line.
proof fn lemma_one_line_values(c: Seq<char>)
    ensures
        body_values(seq![c]) == unfold_contents(c) + Seq::<Seq<char>>::empty(),
{
    let e = Seq::<Seq<char>>::empty();
    assert(seq![c].drop_first() =~= e);
    assert(body_values(e) == e);
}

/// The values of the content type `text/plain; charset=UTF-8`.
proof fn lemma_text_plain_values()
    ensures
        body_values(seq!["text/plain; charset=UTF-8"@]) == seq!["text/plain"@, "charset=UTF-8"@],
{
    reveal_strlit("text/plain; charset=UTF-8");
    reveal_strlit("text/plain");
    reveal_strlit("charset=UTF-8");
    reveal_strlit("; ");
    reveal_strlit(";");
    let c = "text/plain; charset=UTF-8"@;
    let sep = "; "@;
    assert(c.last() != ';');
    assert(c.subrange(10, 11) =~= ";"@);
    assert forall|j: int| 0 <= j < 10 implies !occurs_at(c, ";"@, j) by {
        assert(c.subrange(j, j + 1)[0] == c[j]);
    }
    lemma_found_at(c, ";"@, 10, 0);
    assert(contains(c, ";"@));
    assert(c.subrange(10, 12) =~= sep);
    assert forall|j: int| 0 <= j < 10 implies !occurs_at(c, sep, j) by {
        assert(c.subrange(j, j + 2)[0] == c[j]);
    }
    lemma_found_at(c, sep, 10, 0);
    let tail = c.skip(12);
    assert(tail =~= "charset=UTF-8"@);
    lemma_not_found(tail, sep, 0);
    assert(split_on(tail, sep) == seq![tail]);
    assert(c.take(10) =~= "text/plain"@);
    assert(split_on(c, sep) =~= seq!["text/plain"@, "charset=UTF-8"@]);
    assert(unfold_contents(c) == seq!["text/plain"@, "charset=UTF-8"@]);
    lemma_one_line_values(c);
    assert(seq!["text/plain"@, "charset=UTF-8"@] + Seq::<Seq<char>>::empty() =~= seq![
        "text/plain"@,
        "charset=UTF-8"@,
    ]);
}

/// The `content-type` field `text/plain; charset=UTF-8`.
pub open spec fn plain_text_type() -> SpecField {
    SpecField {
        field_name: "content-type"@,
        field_body: Some(seq!["text/plain; charset=UTF-8"@]),
    }
}

/// The `content-transfer-encoding` field with the value `enc`.
pub open spec fn transfer_encoding(enc: Seq<char>) -> SpecField {
    SpecField { field_name: "content-transfer-encoding"@, field_body: Some(seq![enc]) }
}

/// The first part among `blocks` is the plain-text part that `mime`
/// prints when its fields include `content-type: text/plain;
/// charset=UTF-8` and a `content-transfer-encoding` of `quoted-printable`,
/// `8bit` or `7bit`, whatever other fields it has: what is printed is the
/// text after its headers.
pub proof fn law_plain_encodings_accepted(
    blocks: Seq<Seq<char>>,
    text: Seq<char>,
    hs: Seq<SpecField>,
    i: int,
    j: int,
    enc: Seq<char>,
)
    requires
        blocks.len() > 0,
        spec_get_headers(blocks[0]) == Outcome::Parsed(text, hs),
        0 <= i < hs.len(),
        0 <= j < hs.len(),
        hs[i] == plain_text_type(),
        hs[j] == transfer_encoding(enc),
        enc == "quoted-printable"@ || enc == "8bit"@ || enc == "7bit"@,
    ensures
        block_scan(blocks) == Verdict::<Seq<char>>::Done(text),
{
    reveal_strlit("quoted-printable");
    reveal_strlit("8bit");
    reveal_strlit("7bit");
    lemma_text_plain_values();
    assert(body_values(seq!["text/plain; charset=UTF-8"@])[0] == "text/plain"@);
    assert(body_values(seq!["text/plain; charset=UTF-8"@])[1] == "charset=UTF-8"@);
    assert(content_type_ok(hs[i]));
    assert forall|k: int| 0 <= k < enc.len() implies enc[k] != ';' by {}
    lemma_plain_value(enc);
    lemma_one_line_values(enc);
    assert(seq![enc] + Seq::<Seq<char>>::empty() =~= seq![enc]);
    assert(body_values(seq![enc]) == seq![enc]);
    assert(is_plain_encoding(body_values(hs[j].field_body->0)[0]));
    assert(encoding_ok(hs[j]));
    assert(is_plaintext_part(hs));
}


} // verus!
