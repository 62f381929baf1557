use vstd::prelude::*;
use vstd::string::StringSliceAdditionalSpecFns;
use vstd::utf8::encode_utf8;

use webrtc::peer_connection::sdp::session_description::RTCSessionDescription;

use crate::session::{IceCandidateInit, JsSessionResponse};
use crate::util::{
    base64_decoded_len_fits, base64_encoded_len_fits, base64_standard_encoding, base64_symbol,
    decode, decoded_text, encode, encoded_text, is_white_space, trim_end, trim_line, trim_start,
    trimmed, SignalDecodeError,
};

verus! {

#[verifier::external_type_specification]
#[verifier::external_body]
pub struct ExRtcSessionDescription(RTCSessionDescription);

#[verifier::external_type_specification]
#[verifier::external_body]
pub struct ExSerdeJsonError(serde_json::Error);

#[verifier::external_type_specification]
#[verifier::external_body]
pub struct ExWebrtcError(webrtc::Error);

/// The kind of a session description: what the peer is to do with it.
#[derive(Clone, Copy, Debug, PartialEq, Eq, Structural)]
pub enum SdpType {
    Unspecified,
    Offer,
    Pranswer,
    Answer,
    Rollback,
}

/// What a session description says: its kind and its SDP text.
pub uninterp spec fn description_model(description: RTCSessionDescription) -> (SdpType, Seq<char>);

/// The kind and SDP that `serde_json` reads from a JSON text as a
/// `RTCSessionDescription`, or `None` where it refuses the text.
pub uninterp spec fn description_of_json(text: Seq<char>) -> Option<(SdpType, Seq<char>)>;

/// The name under which serde writes a kind of session description.
pub open spec fn sdp_type_name(kind: SdpType) -> Seq<char> {
    match kind {
        SdpType::Unspecified => seq!['U', 'n', 's', 'p', 'e', 'c', 'i', 'f', 'i', 'e', 'd'],
        SdpType::Offer => seq!['o', 'f', 'f', 'e', 'r'],
        SdpType::Pranswer => seq!['p', 'r', 'a', 'n', 's', 'w', 'e', 'r'],
        SdpType::Answer => seq!['a', 'n', 's', 'w', 'e', 'r'],
        SdpType::Rollback => seq!['r', 'o', 'l', 'l', 'b', 'a', 'c', 'k'],
    }
}

/// A lower-case hexadecimal digit.
pub open spec fn hex_digit(v: int) -> char {
    if v < 10 {
        (48 + v) as char
    } else {
        (87 + v) as char
    }
}

/// How `serde_json` writes one character inside a string: `"` and `\` and
/// the control characters below U+0020 are escaped (with the short forms
/// `\b \t \n \f \r` where JSON has them, else `\u00xx`); every other
/// character is written as it is.
pub open spec fn json_escaped_char(c: char) -> Seq<char> {
    let u = c as u32;
    if u == 0x08 {
        seq!['\\', 'b']
    } else if u == 0x09 {
        seq!['\\', 't']
    } else if u == 0x0a {
        seq!['\\', 'n']
    } else if u == 0x0c {
        seq!['\\', 'f']
    } else if u == 0x0d {
        seq!['\\', 'r']
    } else if u == 0x22 {
        seq!['\\', '"']
    } else if u == 0x5c {
        seq!['\\', '\\']
    } else if u < 0x20 {
        seq!['\\', 'u', '0', '0', hex_digit(u as int / 16), hex_digit(u as int % 16)]
    } else {
        seq![c]
    }
}

/// The contents of a JSON string as `serde_json` writes them.
pub open spec fn json_escaped(s: Seq<char>) -> Seq<char>
    decreases s.len(),
{
    if s.len() == 0 {
        Seq::empty()
    } else {
        json_escaped_char(s[0]) + json_escaped(s.drop_first())
    }
}

/// The JSON text that `serde_json::to_string` writes for a session
/// description of the given kind and SDP: `{"type":"<kind>","sdp":"<sdp>"}`,
/// without spaces.
pub open spec fn json_of_description(description: (SdpType, Seq<char>)) -> Seq<char> {
    seq!['{', '"', 't', 'y', 'p', 'e', '"', ':', '"'] + sdp_type_name(description.0) + seq![
        '"',
        ',',
        '"',
        's',
        'd',
        'p',
        '"',
        ':',
        '"',
    ] + json_escaped(description.1) + seq!['"', '}']
}

/// Whether the `sdp` crate's `SessionDescription::unmarshal` accepts an SDP
/// text.
pub uninterp spec fn sdp_unmarshals(sdp: Seq<char>) -> bool;

/// Calls `serde_json::from_str::<RTCSessionDescription>`. What it yields is
/// named by `description_of_json`; the `parsed` field is skipped by serde, so
/// the result is fixed by its kind and SDP. Stated beside it: reading the
/// text that `serde_json::to_string` wrote for a description gives back its
/// kind and SDP (the derived impls write each kind under its own name and the
/// SDP as an escaped string, and read them back).
#[verifier::external_body]
fn serde_description_from_str(text: &str) -> (description: Result<
    RTCSessionDescription,
    serde_json::Error,
>)
    ensures
        description is Ok <==> description_of_json(text@) is Some,
        description is Ok ==> description_of_json(text@) == Some(
            description_model(description->Ok_0),
        ),
        forall|m: (SdpType, Seq<char>)|
            #[trigger] json_of_description(m) == text@ ==> description is Ok && description_model(
                description->Ok_0,
            ) == m,
{
    serde_json::from_str::<RTCSessionDescription>(text)
}

/// Calls `serde_json::to_string` on a `RTCSessionDescription`. Its derived
/// `Serialize` writes the kind as a unit variant (its name) and the SDP as a
/// string, and skips `parsed`; `serde_json` fails only where a `Serialize`
/// impl fails or a map has keys that are not strings, neither of which can
/// happen here. Like every `String`, the text holds at most `isize::MAX` bytes.
#[verifier::external_body]
fn serde_description_to_string(description: &RTCSessionDescription) -> (text: Result<
    String,
    serde_json::Error,
>)
    ensures
        text is Ok,
        text is Ok ==> text->Ok_0@ == json_of_description(description_model(*description)),
        text is Ok ==> encode_utf8(text->Ok_0@).len() <= isize::MAX,
{
    serde_json::to_string(description)
}

/// Calls `RTCSessionDescription::answer`, which wraps an SDP text as an
/// answer and fails where `SessionDescription::unmarshal` refuses the SDP.
#[verifier::external_body]
fn description_answer(sdp: String) -> (description: Result<RTCSessionDescription, webrtc::Error>)
    ensures
        description is Ok <==> sdp_unmarshals(sdp@),
        description is Ok ==> description_model(description->Ok_0) == (SdpType::Answer, sdp@),
{
    RTCSessionDescription::answer(sdp)
}

/// Why a pasted signaling line gave no session description.
#[derive(Debug)]
pub enum SignalError {
    /// The line is not base64 of UTF-8 text.
    Decode(SignalDecodeError),
    /// The text is not the JSON of a session description.
    Json(serde_json::Error),
}

/// The session description that a pasted line holds: the line trimmed,
/// decoded from base64, and read as JSON.
pub open spec fn description_of_line(line: Seq<char>) -> Option<(SdpType, Seq<char>)> {
    match decoded_text(trimmed(line)) {
        Some(text) => description_of_json(text),
        None => None,
    }
}

/// The line printed for a session description: the base64 of its JSON.
pub open spec fn line_of_description(description: (SdpType, Seq<char>)) -> Seq<char> {
    encoded_text(json_of_description(description))
}

proof fn lemma_base64_symbol_not_white(v: int)
    requires
        0 <= v < 64,
    ensures
        !is_white_space(base64_symbol(v)),
{
}

/// Base64 text holds no white space: its symbols are letters, digits, `+`,
/// `/` and `=`.
pub proof fn lemma_base64_text_has_no_white_space(bytes: Seq<u8>)
    ensures
        forall|i: int|
            0 <= i < base64_standard_encoding(bytes).len() ==> !is_white_space(
                #[trigger] base64_standard_encoding(bytes)[i],
            ),
    decreases bytes.len(),
{
    let e = base64_standard_encoding(bytes);
    if bytes.len() == 0 {
    } else if bytes.len() == 1 {
        let b0 = bytes[0] as int;
        lemma_base64_symbol_not_white(b0 / 4);
        lemma_base64_symbol_not_white((b0 % 4) * 16);
    } else if bytes.len() == 2 {
        let b0 = bytes[0] as int;
        let b1 = bytes[1] as int;
        lemma_base64_symbol_not_white(b0 / 4);
        lemma_base64_symbol_not_white((b0 % 4) * 16 + b1 / 16);
        lemma_base64_symbol_not_white((b1 % 16) * 4);
    } else {
        let b0 = bytes[0] as int;
        let b1 = bytes[1] as int;
        let b2 = bytes[2] as int;
        lemma_base64_symbol_not_white(b0 / 4);
        lemma_base64_symbol_not_white((b0 % 4) * 16 + b1 / 16);
        lemma_base64_symbol_not_white((b1 % 16) * 4 + b2 / 64);
        lemma_base64_symbol_not_white(b2 % 64);
        let rest = bytes.subrange(3, bytes.len() as int);
        lemma_base64_text_has_no_white_space(rest);
        let head = seq![
            base64_symbol(b0 / 4),
            base64_symbol((b0 % 4) * 16 + b1 / 16),
            base64_symbol((b1 % 16) * 4 + b2 / 64),
            base64_symbol(b2 % 64),
        ];
        assert forall|i: int| 0 <= i < e.len() implies !is_white_space(#[trigger] e[i]) by {
            if i >= 4 {
                assert(e[i] == base64_standard_encoding(rest)[i - 4]);
            } else {
                assert(e[i] == head[i]);
            }
        }
    }
}

/// A text without white space at either end is its own trimming.
pub proof fn lemma_trimmed_of_trim_free(s: Seq<char>)
    requires
        s.len() > 0 ==> !is_white_space(s[0]) && !is_white_space(s.last()),
    ensures
        trimmed(s) == s,
{
    assert(trim_start(s) == s);
    assert(trim_end(s) == s);
}

/// The line printed for a session description reads back as that line:
/// trimming leaves it as it is.
pub proof fn lemma_printed_line_is_trim_free(description: (SdpType, Seq<char>))
    ensures
        trimmed(line_of_description(description)) == line_of_description(description),
{
    let line = line_of_description(description);
    lemma_base64_text_has_no_white_space(encode_utf8(json_of_description(description)));
    if line.len() > 0 {
        assert(!is_white_space(line[0]));
        assert(!is_white_space(line[line.len() - 1]));
    }
    lemma_trimmed_of_trim_free(line);
}

/// Reads the session description that a pasted line holds: the line is
/// trimmed, decoded from base64, and read as the JSON of a description.
/// Reading the line printed for a description gives back its kind and SDP.
pub fn description_from_line(line: &str) -> (description: Result<RTCSessionDescription, SignalError>)
    requires
        base64_decoded_len_fits(encode_utf8(trimmed(line@)).len() as int),
    ensures
        description is Ok <==> description_of_line(line@) is Some,
        description is Ok ==> description_of_line(line@) == Some(
            description_model(description->Ok_0),
        ),
        description matches Err(SignalError::Decode(_)) <==> decoded_text(trimmed(line@)) is None,
        forall|m: (SdpType, Seq<char>)|
            #[trigger] line_of_description(m) == line@ ==> description is Ok && description_model(
                description->Ok_0,
            ) == m,
{
    proof {
        assert forall|m: (SdpType, Seq<char>)| #[trigger] line_of_description(m) == line@ implies trimmed(line@)
            == encoded_text(json_of_description(m)) by {
            lemma_printed_line_is_trim_free(m);
        }
    }
    let text = trim_line(line);
    let json = match decode(text.as_str()) {
        Ok(json) => json,
        Err(e) => return Err(SignalError::Decode(e)),
    };
    match serde_description_from_str(json.as_str()) {
        Ok(description) => Ok(description),
        Err(e) => Err(SignalError::Json(e)),
    }
}

/// The line to print for a session description: the base64 of its JSON.
pub fn line_from_description(description: &RTCSessionDescription) -> (line: String)
    ensures
        line@ == line_of_description(description_model(*description)),
{
    let json = serde_description_to_string(description).unwrap();
    proof {
        let len = encode_utf8(json@).len() as int;
        assert((len / 3) * 4 + 4 <= usize::MAX) by (nonlinear_arith)
            requires
                0 <= len <= isize::MAX,
                isize::MAX == 0x7fff_ffff || isize::MAX == 0x7fff_ffff_ffff_ffff,
                usize::MAX == 2 * isize::MAX + 1,
        ;
    }
    encode(json.as_str())
}

/// The remote description that a signaling server's reply stands for: its
/// answer SDP as an answer, with its remote candidate. Fails where the SDP
/// does not unmarshal.
pub fn answer_from_session_response(response: JsSessionResponse) -> (answer: Result<
    (RTCSessionDescription, IceCandidateInit),
    webrtc::Error,
>)
    ensures
        answer is Ok <==> sdp_unmarshals(response.answer.sdp@),
        answer is Ok ==> description_model(answer->Ok_0.0) == (
            SdpType::Answer,
            response.answer.sdp@,
        ),
        answer is Ok ==> answer->Ok_0.1 == response.candidate.candidate,
{
    let JsSessionResponse { answer, candidate } = response;
    match description_answer(answer.sdp) {
        Ok(description) => Ok((description, candidate.candidate)),
        Err(e) => Err(e),
    }
}

} // verus!
