//! The `list` command: one numbered line with the subject of each message.
use vstd::prelude::*;
use crate::commands::{exit_parsing_with, exits_with, Exit};
use crate::lexicon::rfc3501::{
    MessageData, MessageDataComponent, MsgAttComponent, MsgAttStatic, ResponseComponent,
    ResponseData, SpecEnvelope, SpecMessageData, SpecMessageDataComponent, SpecMsgAttComponent,
    SpecMsgAttStatic, SpecResponseComponent, SpecResponseData,
};
use crate::text::{decimal, decimal_string};

verus! {

broadcast use vstd::string::group_string_axioms;

/// The line of message number `n`: its number, `: ` and its subject.
pub open spec fn subject_line(n: nat, e: SpecEnvelope) -> Seq<char> {
    decimal(n) + ": "@ + match e.env_subject {
        Some(s) => s,
        None => "<No subject>"@,
    } + "\n"@
}

/// The lines for the fetched envelopes among `cs`, numbered from `n` on,
/// and whether the listing stops at fetched data whose first attribute is
/// not an envelope.
pub open spec fn list_lines(cs: Seq<SpecResponseComponent>, n: nat) -> (Seq<char>, bool)
    decreases cs.len(),
{
    if cs.len() == 0 {
        (Seq::empty(), false)
    } else {
        match cs[0] {
            SpecResponseComponent::ResponseData(
                SpecResponseData::MessageData(
                    SpecMessageData {
                        message_data_component: SpecMessageDataComponent::Fetch(atts),
                        ..
                    },
                ),
            ) => if atts.len() == 0 {
                (Seq::empty(), true)
            } else {
                match atts[0] {
                    SpecMsgAttComponent::MsgAttStatic(SpecMsgAttStatic::Envelope(e)) => {
                        let rest = list_lines(cs.drop_first(), n + 1);
                        (subject_line(n, e) + rest.0, rest.1)
                    },
                    _ => (Seq::empty(), true),
                }
            },
            _ => list_lines(cs.drop_first(), n),
        }
    }
}

/// What the `list` command prints for the lines of a `FETCH 1:* ENVELOPE`
/// response, and the exit that follows where the listing stops
/// (`Failed to parse envelope`, code 4).
pub fn list_report(components: &Vec<ResponseComponent>) -> (r: (String, Option<Exit>))
    ensures
        r.0@ == list_lines(components.deep_view(), 1).0,
        list_lines(components.deep_view(), 1).1 ==> (r.1 matches Some(x) && exits_with(
            x,
            4,
            "Failed to parse envelope"@,
        )),
        !list_lines(components.deep_view(), 1).1 ==> r.1 is None,
{
    let ghost cs = components.deep_view();
    let mut out = String::new();
    let mut n: u128 = 1;
    let mut i: usize = 0;
    assert(cs.skip(0) == cs);
    while i < components.len()
        invariant
            i <= components.len(),
            1 <= n <= i + 1,
            cs == components.deep_view(),
            cs.len() == components.len(),
            list_lines(cs, 1).0 == out@ + list_lines(cs.skip(i as int), n as nat).0,
            list_lines(cs, 1).1 == list_lines(cs.skip(i as int), n as nat).1,
        decreases components.len() - i,
    {
        let ghost rest = cs.skip(i as int);
        assert(rest.drop_first() == cs.skip(i + 1));
        assert(rest[0] == components[i as int]@);
        match &components[i] {
            ResponseComponent::ResponseData(
                ResponseData::MessageData(
                    MessageData { message_data_component: MessageDataComponent::Fetch(atts), .. },
                ),
            ) => {
                if atts.len() == 0 {
                    return (out, Some(exit_parsing_with(String::from_str("Failed to parse envelope"))));
                }
                match &atts[0] {
                    MsgAttComponent::MsgAttStatic(MsgAttStatic::Envelope(e)) => {
                        let ghost before = out@;
                        let digits = decimal_string(n as u64);
                        out.append(digits.as_str());
                        out.append(": ");
                        match &e.env_subject {
                            Some(s) => {
                                out.append(s.as_str());
                            },
                            None => {
                                out.append("<No subject>");
                            },
                        }
                        out.append("\n");
                        assert(out@ == before + subject_line(n as nat, e@));
                        n += 1;
                    },
                    _ => {
                        return (out, Some(exit_parsing_with(String::from_str("Failed to parse envelope"))));
                    },
                }
            },
            _ => {},
        }
        i += 1;
    }
    assert(out@ + Seq::<char>::empty() == out@);
    (out, None)
}

} // verus!
