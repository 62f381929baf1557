use vstd::prelude::*;

use crate::json::{Json, JsonModel, member_of, text_of, parse_json, tinyjson_parse};

verus! {

/// The SDP of the answer that a signaling server sends back.
#[derive(Clone, Debug)]
pub struct SessionAnswer {
    pub sdp: String,
}

/// An ICE candidate as a signaling message carries it.
#[derive(Clone, Debug)]
pub struct IceCandidateInit {
    pub candidate: String,
    pub sdp_mid: Option<String>,
    pub sdp_mline_index: Option<u16>,
    pub username_fragment: Option<String>,
}

/// The remote ICE candidate that a signaling server sends back.
#[derive(Clone, Debug)]
pub struct SessionCandidate {
    pub candidate: IceCandidateInit,
}

/// A signaling server's reply to an offer: its answer and its candidate.
#[derive(Clone, Debug)]
pub struct JsSessionResponse {
    pub answer: SessionAnswer,
    pub candidate: SessionCandidate,
}

/// The text held at `value[outer][inner]`, where both members exist and the
/// inner one is a string.
pub open spec fn text_at(value: JsonModel, outer: Seq<char>, inner: Seq<char>) -> Option<Seq<char>> {
    match member_of(value, outer) {
        Some(o) => match member_of(o, inner) {
            Some(v) => text_of(v),
            None => None,
        },
        None => None,
    }
}

/// The answer SDP and the candidate line of a session response, where the
/// value holds both: `answer.sdp` and `candidate.candidate`, as strings.
pub open spec fn session_fields(value: JsonModel) -> Option<(Seq<char>, Seq<char>)> {
    match (text_at(value, "answer"@, "sdp"@), text_at(value, "candidate"@, "candidate"@)) {
        (Some(sdp), Some(candidate)) => Some((sdp, candidate)),
        _ => None,
    }
}

/// The fields of a session response held by a JSON text.
pub open spec fn session_fields_of_text(text: Seq<char>) -> Option<(Seq<char>, Seq<char>)> {
    match tinyjson_parse(text) {
        Some(value) => session_fields(value),
        None => None,
    }
}

/// A response carries exactly the given answer SDP and candidate line, and
/// nothing else in its candidate.
pub open spec fn response_holds(response: JsSessionResponse, fields: (Seq<char>, Seq<char>)) -> bool {
    &&& response.answer.sdp@ == fields.0
    &&& response.candidate.candidate.candidate@ == fields.1
    &&& response.candidate.candidate.sdp_mid is None
    &&& response.candidate.candidate.sdp_mline_index is None
    &&& response.candidate.candidate.username_fragment is None
}

/// A value holds a session response exactly when it holds both `answer.sdp`
/// and `candidate.candidate` as strings, and the response is those two
/// strings, whole.
pub proof fn lemma_session_fields_are_the_two_texts(value: JsonModel)
    ensures
        session_fields(value) is Some <==> (text_at(value, "answer"@, "sdp"@) is Some && text_at(
            value,
            "candidate"@,
            "candidate"@,
        ) is Some),
        session_fields(value) is Some ==> session_fields(value)->Some_0 == (
            text_at(value, "answer"@, "sdp"@)->Some_0,
            text_at(value, "candidate"@, "candidate"@)->Some_0,
        ),
{
}

/// `text_at(value, outer, inner)` is the string at `value[outer][inner]`:
/// it is `Some(s)` exactly when the value is an object with an object under
/// `outer` that has the string `s` under `inner`.
pub proof fn lemma_text_at_is_the_nested_string(
    value: JsonModel,
    outer: Seq<char>,
    inner: Seq<char>,
    s: Seq<char>,
)
    ensures
        text_at(value, outer, inner) == Some(s) <==> (value is Object && value->Object_0.contains_key(
            outer,
        ) && value->Object_0[outer] is Object && value->Object_0[outer]->Object_0.contains_key(inner)
            && value->Object_0[outer]->Object_0[inner] == JsonModel::Str(s)),
{
}

/// Reads a session response out of a parsed JSON value; `None` where the
/// value lacks `answer.sdp` or `candidate.candidate` as strings.
pub fn session_response_from_json(value: &Json) -> (response: Option<JsSessionResponse>)
    ensures
        response is Some <==> session_fields(value@) is Some,
        response is Some ==> response_holds(response->Some_0, session_fields(value@)->Some_0),
        response is Some <==> (text_at(value@, "answer"@, "sdp"@) is Some && text_at(
            value@,
            "candidate"@,
            "candidate"@,
        ) is Some),
        response is Some ==> text_at(value@, "answer"@, "sdp"@) == Some(
            response->Some_0.answer.sdp@,
        ),
        response is Some ==> text_at(value@, "candidate"@, "candidate"@) == Some(
            response->Some_0.candidate.candidate.candidate@,
        ),
{
    let answer = match value.member("answer") {
        Some(a) => a,
        None => return None,
    };
    let sdp = match answer.member("sdp") {
        Some(s) => match s.as_text() {
            Some(t) => t.clone(),
            None => return None,
        },
        None => return None,
    };
    let candidate_obj = match value.member("candidate") {
        Some(c) => c,
        None => return None,
    };
    let candidate = match candidate_obj.member("candidate") {
        Some(c) => match c.as_text() {
            Some(t) => t.clone(),
            None => return None,
        },
        None => return None,
    };
    Some(
        JsSessionResponse {
            answer: SessionAnswer { sdp },
            candidate: SessionCandidate {
                candidate: IceCandidateInit {
                    candidate,
                    sdp_mid: None,
                    sdp_mline_index: None,
                    username_fragment: None,
                },
            },
        },
    )
}

/// Reads a signaling server's JSON reply: the answer SDP from `answer.sdp`
/// and the remote candidate from `candidate.candidate`. The reply must be
/// JSON that holds both as strings.
pub fn get_session_response(input: &str) -> (response: JsSessionResponse)
    requires
        session_fields_of_text(input@) is Some,
    ensures
        response_holds(response, session_fields_of_text(input@)->Some_0),
        tinyjson_parse(input@) is Some,
        text_at(tinyjson_parse(input@)->Some_0, "answer"@, "sdp"@) == Some(response.answer.sdp@),
        text_at(tinyjson_parse(input@)->Some_0, "candidate"@, "candidate"@) == Some(
            response.candidate.candidate.candidate@,
        ),
{
    let value = parse_json(input).unwrap();
    session_response_from_json(&value).unwrap()
}

/// Reads a signaling server's JSON reply where it holds a session response,
/// as `get_session_response` does; `None` where the text is not JSON or lacks
/// `answer.sdp` or `candidate.candidate` as strings.
pub fn try_get_session_response(input: &str) -> (response: Option<JsSessionResponse>)
    ensures
        response is Some <==> session_fields_of_text(input@) is Some,
        response is Some ==> response_holds(response->Some_0, session_fields_of_text(input@)->Some_0),
        response is Some <==> (tinyjson_parse(input@) is Some && text_at(
            tinyjson_parse(input@)->Some_0,
            "answer"@,
            "sdp"@,
        ) is Some && text_at(tinyjson_parse(input@)->Some_0, "candidate"@, "candidate"@) is Some),
        response is Some ==> text_at(tinyjson_parse(input@)->Some_0, "answer"@, "sdp"@) == Some(
            response->Some_0.answer.sdp@,
        ),
        response is Some ==> text_at(tinyjson_parse(input@)->Some_0, "candidate"@, "candidate"@)
            == Some(response->Some_0.candidate.candidate.candidate@),
{
    match parse_json(input) {
        Ok(value) => match session_response_from_json(&value) {
            Some(_) => Some(get_session_response(input)),
            None => None,
        },
        Err(_) => None,
    }
}

} // verus!
