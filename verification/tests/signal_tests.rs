use naia_socket::session::try_get_session_response;
use naia_socket::signal::{
    answer_from_session_response, description_from_line, line_from_description, SignalError,
};
use naia_socket::util::{decode, encode};
use webrtc::peer_connection::sdp::sdp_type::RTCSdpType;
use webrtc::peer_connection::sdp::session_description::RTCSessionDescription;

const SDP: &str = "v=0\r\no=- 4215775240449105457 2 IN IP4 127.0.0.1\r\ns=-\r\nt=0 0\r\n";

fn description(sdp_type: RTCSdpType, sdp: &str) -> RTCSessionDescription {
    let mut d = RTCSessionDescription::default();
    d.sdp_type = sdp_type;
    d.sdp = sdp.to_string();
    d
}

#[test]
fn printed_line_reads_back_as_the_same_description() {
    for kind in [RTCSdpType::Offer, RTCSdpType::Answer, RTCSdpType::Pranswer, RTCSdpType::Rollback, RTCSdpType::Unspecified] {
        let original = description(kind, SDP);
        let line = line_from_description(&original);
        let read = description_from_line(&line).unwrap();
        assert_eq!(read.sdp_type, kind);
        assert_eq!(read.sdp, SDP);
    }
}

#[test]
fn pasted_line_is_trimmed_before_decoding() {
    let line = line_from_description(&description(RTCSdpType::Offer, SDP));
    let pasted = format!("  {}\r\n", line);
    let read = description_from_line(&pasted).unwrap();
    assert_eq!(read.sdp_type, RTCSdpType::Offer);
    assert_eq!(read.sdp, SDP);
}

#[test]
fn printed_line_is_base64_of_the_json() {
    let line = line_from_description(&description(RTCSdpType::Answer, "x"));
    assert_eq!(decode(&line).unwrap(), r#"{"type":"answer","sdp":"x"}"#);
}

#[test]
fn description_from_line_refuses_bad_base64() {
    assert!(matches!(description_from_line("%%%"), Err(SignalError::Decode(_))));
}

#[test]
fn description_from_line_refuses_other_json() {
    let line = encode(r#"{"kind":"offer"}"#);
    assert!(matches!(description_from_line(&line), Err(SignalError::Json(_))));
}

#[test]
fn answer_is_built_from_the_session_response() {
    let reply = format!(
        r#"{{"answer":{{"sdp":{}}},"candidate":{{"candidate":"candidate:1 1 UDP 1 10.0.0.1 9 typ host"}}}}"#,
        serde_json::to_string(SDP).unwrap()
    );
    let response = try_get_session_response(&reply).unwrap();
    let (answer, candidate) = answer_from_session_response(response).unwrap();
    assert_eq!(answer.sdp_type, RTCSdpType::Answer);
    assert_eq!(answer.sdp, SDP);
    assert_eq!(candidate.candidate, "candidate:1 1 UDP 1 10.0.0.1 9 typ host");
}

#[test]
fn answer_refuses_sdp_that_does_not_unmarshal() {
    let reply = r#"{"answer":{"sdp":"not sdp"},"candidate":{"candidate":"c"}}"#;
    let response = try_get_session_response(reply).unwrap();
    assert!(answer_from_session_response(response).is_err());
}

#[test]
fn printed_json_escapes_quotes_backslashes_and_controls() {
    let line = line_from_description(&description(RTCSdpType::Unspecified, "a\"b\\c\r\n\u{1}é"));
    assert_eq!(
        decode(&line).unwrap(),
        "{\"type\":\"Unspecified\",\"sdp\":\"a\\\"b\\\\c\\r\\n\\u0001é\"}"
    );
    let read = description_from_line(&line).unwrap();
    assert_eq!(read.sdp, "a\"b\\c\r\n\u{1}é");
}
