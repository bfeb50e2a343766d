//! Checking the response to a `FETCH`, and taking a message body out of it.
use vstd::prelude::*;
use crate::commands::{exit_other, exit_parsing_with, exit_server_response, exit_server_response_with, exits_with, Exit};
use crate::lexicon::rfc3501::{
    MessageData, MessageDataComponent, MsgAttComponent, MsgAttStatic,
    MsgAttStaticBodyNonStructuredComponent, RespCondState, Response, ResponseComponent,
    ResponseData, ResponseDone, SpecMessageData, SpecMessageDataComponent, SpecMsgAttComponent,
    SpecMsgAttStatic, SpecRespCondState, SpecResponse, SpecResponseComponent, SpecResponseData,
    SpecResponseDone,
};

verus! {

broadcast use vstd::string::group_string_axioms;

/// The lines of a response to a command tagged `command_id`, or the exit
/// code and message with which the program stops: the response must have
/// been parsed (`None` where it was not), end with a tagged line whose
/// tag is `command_id` and whose state is `OK`, and hold at least one line
/// before it (else `empty_message`, code 5).
pub open spec fn spec_check_fetch(
    resp: Option<SpecResponse>,
    command_id: Seq<char>,
    empty_message: Seq<char>,
) -> Result<Seq<SpecResponseComponent>, (i32, Seq<char>)> {
    match resp {
        Some(r) => match r.response_done {
            SpecResponseDone::ResponseTagged(t) => match t.resp_cond_state {
                SpecRespCondState::OK(_) => if t.tag == command_id {
                    if r.response_components.len() == 0 {
                        Err((5, empty_message))
                    } else {
                        Ok(r.response_components)
                    }
                } else {
                    Err((3, "Incorrect command id"@))
                },
                SpecRespCondState::Bad(_) => Err((3, "Message not found"@)),
                SpecRespCondState::No(_) => Err(
                    (3, "Server Communication error with sent command"@),
                ),
            },
            SpecResponseDone::ResponseFatal(_) => Err((3, "Server response failure"@)),
        },
        None => Err((3, "Server response failure"@)),
    }
}

/// Checks the parsed response `resp` to the command tagged `command_id`
/// and hands back its lines.
pub fn check_fetch_response(resp: Result<Response, String>, command_id: &str, empty_message: &str) -> (r: Result<Vec<ResponseComponent>, Exit>)
    ensures
        match spec_check_fetch(
            match resp {
                Ok(v) => Some(v@),
                Err(_) => None,
            },
            command_id@,
            empty_message@,
        ) {
            Ok(cs) => r matches Ok(v) && v.deep_view() == cs,
            Err((code, m)) => r matches Err(e) && exits_with(e, code, m),
        },
{
    match resp {
        Ok(Response { response_components, response_done: ResponseDone::ResponseTagged(t) }) => {
            match t.resp_cond_state {
                RespCondState::OK(_) => {
                    let id = String::from_str(command_id);
                    if t.tag.chars == id {
                        if response_components.len() == 0 {
                            Err(exit_other(String::from_str(empty_message)))
                        } else {
                            Ok(response_components)
                        }
                    } else {
                        Err(exit_server_response_with(String::from_str("Incorrect command id")))
                    }
                },
                RespCondState::Bad(_) => Err(
                    exit_server_response_with(String::from_str("Message not found")),
                ),
                RespCondState::No(_) => Err(
                    exit_server_response_with(
                        String::from_str("Server Communication error with sent command"),
                    ),
                ),
            }
        },
        _ => Err(exit_server_response()),
    }
}

/// The body in the first attribute of the first line of a `FETCH`
/// response; `prea` (code 4) where the first line is not fetched message
/// data, `a` (code 4) where its first attribute is not a body with text.
pub open spec fn spec_body_of(cs: Seq<SpecResponseComponent>) -> Result<Seq<char>, (i32, Seq<char>)> {
    if cs.len() == 0 {
        Err((4, "prea"@))
    } else {
        match cs[0] {
            SpecResponseComponent::ResponseData(
                SpecResponseData::MessageData(
                    SpecMessageData {
                        message_data_component: SpecMessageDataComponent::Fetch(atts),
                        ..
                    },
                ),
            ) => if atts.len() == 0 {
                Err((4, "a"@))
            } else {
                match atts[0] {
                    SpecMsgAttComponent::MsgAttStatic(SpecMsgAttStatic::NonStructuredBody(b)) => {
                        match b.nstring {
                            Some(body) => Ok(body),
                            None => Err((4, "a"@)),
                        }
                    },
                    _ => Err((4, "a"@)),
                }
            },
            _ => Err((4, "prea"@)),
        }
    }
}

/// The message body held by the lines of a `FETCH` response.
pub fn get_body_from_response_components(components: &Vec<ResponseComponent>) -> (r: Result<String, Exit>)
    ensures
        match spec_body_of(components.deep_view()) {
            Ok(body) => r matches Ok(v) && v@ == body,
            Err((code, m)) => r matches Err(e) && exits_with(e, code, m),
        },
{
    if components.len() == 0 {
        return Err(exit_parsing_with(String::from_str("prea")));
    }
    match &components[0] {
        ResponseComponent::ResponseData(
            ResponseData::MessageData(
                MessageData { message_data_component: MessageDataComponent::Fetch(atts), .. },
            ),
        ) => {
            if atts.len() == 0 {
                return Err(exit_parsing_with(String::from_str("a")));
            }
            match &atts[0] {
                MsgAttComponent::MsgAttStatic(
                    MsgAttStatic::NonStructuredBody(
                        MsgAttStaticBodyNonStructuredComponent { nstring: Some(body), .. },
                    ),
                ) => Ok(body.clone()),
                _ => Err(exit_parsing_with(String::from_str("a"))),
            }
        },
        _ => Err(exit_parsing_with(String::from_str("prea"))),
    }
}

/// Checks the response to a `FETCH` of message data; without any line
/// before the tagged one the program stops with `No email body found`
/// (code 5).
pub fn check_body_fetch_response(resp: Result<Response, String>, command_id: &str) -> (r: Result<Vec<ResponseComponent>, Exit>)
    ensures
        match spec_check_fetch(
            match resp {
                Ok(v) => Some(v@),
                Err(_) => None,
            },
            command_id@,
            "No email body found"@,
        ) {
            Ok(cs) => r matches Ok(v) && v.deep_view() == cs,
            Err((code, m)) => r matches Err(e) && exits_with(e, code, m),
        },
{
    check_fetch_response(resp, command_id, "No email body found")
}

/// Checks the response to the `FETCH` of all envelopes; without any line
/// before the tagged one the program stops with `No email header`
/// (code 5).
pub fn check_list_response(resp: Result<Response, String>, command_id: &str) -> (r: Result<Vec<ResponseComponent>, Exit>)
    ensures
        match spec_check_fetch(
            match resp {
                Ok(v) => Some(v@),
                Err(_) => None,
            },
            command_id@,
            "No email header"@,
        ) {
            Ok(cs) => r matches Ok(v) && v.deep_view() == cs,
            Err((code, m)) => r matches Err(e) && exits_with(e, code, m),
        },
{
    check_fetch_response(resp, command_id, "No email header")
}

} // verus!
