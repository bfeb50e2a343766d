//! The `parse` command: the From, To, Date and Subject of a message, from
//! its envelope.
use vstd::prelude::*;
use crate::commands::{exit_parsing_with, exits_with, Exit};
use crate::lexicon::rfc3501::{
    Address, Envelope, MessageData, MessageDataComponent, MsgAttComponent, MsgAttStatic,
    ResponseComponent, ResponseData, SpecAddress, SpecEnvelope, SpecMessageData,
    SpecMessageDataComponent, SpecMsgAttComponent, SpecMsgAttStatic, SpecResponseComponent,
    SpecResponseData,
};

verus! {

broadcast use vstd::string::group_string_axioms;

/// A missing string shows as `NIL`.
pub open spec fn or_nil(s: Option<Seq<char>>) -> Seq<char> {
    match s {
        Some(x) => x,
        None => "NIL"@,
    }
}

/// The display name of an address in quotes; nothing where it is `NIL`.
pub open spec fn quoted_name(a: SpecAddress) -> Seq<char> {
    if or_nil(a.addr_name) != "NIL"@ {
        "\""@ + or_nil(a.addr_name) + "\""@
    } else {
        Seq::empty()
    }
}

/// The display name of an address; nothing where it is `NIL`.
pub open spec fn plain_name(a: SpecAddress) -> Seq<char> {
    if or_nil(a.addr_name) != "NIL"@ {
        or_nil(a.addr_name)
    } else {
        Seq::empty()
    }
}

/// `mailbox@host` of an address.
pub open spec fn mailbox_at_host(a: SpecAddress) -> Seq<char> {
    or_nil(a.addr_mailbox) + "@"@ + or_nil(a.addr_host)
}

/// The quoted names of the addresses, one after another.
pub open spec fn quoted_names(addrs: Seq<SpecAddress>) -> Seq<char>
    decreases addrs.len(),
{
    if addrs.len() == 0 {
        Seq::empty()
    } else {
        quoted_names(addrs.drop_last()) + quoted_name(addrs.last())
    }
}

/// The names of the addresses, one after another.
pub open spec fn plain_names(addrs: Seq<SpecAddress>) -> Seq<char>
    decreases addrs.len(),
{
    if addrs.len() == 0 {
        Seq::empty()
    } else {
        plain_names(addrs.drop_last()) + plain_name(addrs.last())
    }
}

/// The `mailbox@host` of the addresses, one after another.
pub open spec fn mailboxes(addrs: Seq<SpecAddress>) -> Seq<char>
    decreases addrs.len(),
{
    if addrs.len() == 0 {
        Seq::empty()
    } else {
        mailboxes(addrs.drop_last()) + mailbox_at_host(addrs.last())
    }
}

/// The four lines that the `parse` command prints for an envelope.
pub open spec fn envelope_summary(e: SpecEnvelope) -> Seq<char> {
    let from_names = quoted_names(e.env_from);
    let from_boxes = mailboxes(e.env_from);
    let to_names = plain_names(e.env_to);
    let to_boxes = mailboxes(e.env_to);
    let from_line = if from_names.len() != 0 {
        "From: "@ + from_names + " <"@ + from_boxes + ">"@
    } else {
        "From: "@ + from_boxes
    };
    let to_line = if e.env_to.len() > 0 && to_names.len() != 0 {
        "To: "@ + to_names + " "@ + to_boxes
    } else if e.env_to.len() > 0 {
        "To: "@ + to_boxes
    } else {
        "To:"@
    };
    let date_line = "Date: "@ + or_nil(e.env_date);
    let subject_line = if or_nil(e.env_subject) != "NIL"@ {
        "Subject: "@ + or_nil(e.env_subject)
    } else {
        "Subject: <No subject>"@
    };
    from_line + "\n"@ + to_line + "\n"@ + date_line + "\n"@ + subject_line + "\n"@
}

/// The envelope in the first attribute of the first line of a `FETCH`
/// response; `prea` (code 4) where the first line is not fetched message
/// data, `a` (code 4) where its first attribute is not an envelope.
pub open spec fn spec_envelope_of(cs: Seq<SpecResponseComponent>) -> Result<SpecEnvelope, (i32, Seq<char>)> {
    if cs.len() == 0 {
        Err((4, "prea"@))
    } else {
        match cs[0] {
            SpecResponseComponent::ResponseData(
                SpecResponseData::MessageData(
                    SpecMessageData {
                        message_data_component: SpecMessageDataComponent::Fetch(atts),
                        ..
                    },
                ),
            ) => if atts.len() == 0 {
                Err((4, "a"@))
            } else {
                match atts[0] {
                    SpecMsgAttComponent::MsgAttStatic(SpecMsgAttStatic::Envelope(e)) => Ok(e),
                    _ => Err((4, "a"@)),
                }
            },
            _ => Err((4, "prea"@)),
        }
    }
}

/// `s`, or `NIL` where it is missing.
fn text_or_nil(s: &Option<String>) -> (r: String)
    ensures
        r@ == or_nil(s.deep_view()),
{
    match s {
        Some(x) => x.clone(),
        None => String::from_str("NIL"),
    }
}

/// The names and mailboxes of a list of addresses: quoted names (or plain
/// ones where `quoted` is false), and the `mailbox@host` parts.
fn address_parts(addrs: &Vec<Address>, quoted: bool) -> (r: (String, String))
    ensures
        r.0@ == (if quoted {
            quoted_names(addrs.deep_view())
        } else {
            plain_names(addrs.deep_view())
        }),
        r.1@ == mailboxes(addrs.deep_view()),
{
    let ghost v = addrs.deep_view();
    let mut names = String::new();
    let mut boxes = String::new();
    let nil = String::from_str("NIL");
    let mut i: usize = 0;
    assert(v.take(0) =~= Seq::<SpecAddress>::empty());
    while i < addrs.len()
        invariant
            i <= addrs.len(),
            v == addrs.deep_view(),
            v.len() == addrs.len(),
            nil@ == "NIL"@,
            names@ == (if quoted {
                quoted_names(v.take(i as int))
            } else {
                plain_names(v.take(i as int))
            }),
            boxes@ == mailboxes(v.take(i as int)),
        decreases addrs.len() - i,
    {
        let a = &addrs[i];
        assert(v.take(i + 1).drop_last() == v.take(i as int));
        assert(v.take(i + 1).last() == a@);
        let name = text_or_nil(&a.addr_name);
        if !(name == nil) {
            if quoted {
                names.append("\"");
                names.append(name.as_str());
                names.append("\"");
            } else {
                names.append(name.as_str());
            }
        }
        let mailbox = text_or_nil(&a.addr_mailbox);
        let host = text_or_nil(&a.addr_host);
        boxes.append(mailbox.as_str());
        boxes.append("@");
        boxes.append(host.as_str());
        i += 1;
    }
    assert(v.take(addrs.len() as int) == v);
    (names, boxes)
}

/// The four lines that the `parse` command prints for the envelope `e`.
pub fn envelope_lines(e: &Envelope) -> (r: String)
    ensures
        r@ == envelope_summary(e@),
{
    let (from_names, from_boxes) = address_parts(&e.env_from.address, true);
    let (to_names, to_boxes) = address_parts(&e.env_to.address, false);
    let mut r = String::from_str("From: ");
    if !from_names.as_str().is_empty() {
        r.append(from_names.as_str());
        r.append(" <");
        r.append(from_boxes.as_str());
        r.append(">");
    } else {
        r.append(from_boxes.as_str());
    }
    r.append("\n");
    if e.env_to.address.len() > 0 && !to_names.as_str().is_empty() {
        r.append("To: ");
        r.append(to_names.as_str());
        r.append(" ");
        r.append(to_boxes.as_str());
    } else if e.env_to.address.len() > 0 {
        r.append("To: ");
        r.append(to_boxes.as_str());
    } else {
        r.append("To:");
    }
    r.append("\n");
    r.append("Date: ");
    let date = text_or_nil(&e.env_date);
    r.append(date.as_str());
    r.append("\n");
    let subject = text_or_nil(&e.env_subject);
    let nil = String::from_str("NIL");
    if !(subject == nil) {
        r.append("Subject: ");
        r.append(subject.as_str());
    } else {
        r.append("Subject: <No subject>");
    }
    r.append("\n");
    r
}

/// What the `parse` command prints for the lines of a `FETCH ... ENVELOPE`
/// response, or how it stops.
pub fn envelope_report(components: &Vec<ResponseComponent>) -> (r: Result<String, Exit>)
    ensures
        match spec_envelope_of(components.deep_view()) {
            Ok(e) => r matches Ok(v) && v@ == envelope_summary(e),
            Err((code, m)) => r matches Err(x) && exits_with(x, code, m),
        },
{
    if components.len() == 0 {
        return Err(exit_parsing_with(String::from_str("prea")));
    }
    match &components[0] {
        ResponseComponent::ResponseData(
            ResponseData::MessageData(
                MessageData { message_data_component: MessageDataComponent::Fetch(atts), .. },
            ),
        ) => {
            if atts.len() == 0 {
                return Err(exit_parsing_with(String::from_str("a")));
            }
            match &atts[0] {
                MsgAttComponent::MsgAttStatic(MsgAttStatic::Envelope(e)) => Ok(envelope_lines(e)),
                _ => Err(exit_parsing_with(String::from_str("a"))),
            }
        },
        _ => Err(exit_parsing_with(String::from_str("prea"))),
    }
}

} // verus!
