use naia_socket::json::{parse_json, Json};
use naia_socket::session::{get_session_response, try_get_session_response};

const REPLY: &str = r#"{"answer":{"type":"answer","sdp":"v=0\r\no=- 1 2 IN IP4 0.0.0.0\r\n"},"candidate":{"candidate":"candidate:1 1 UDP 2122252543 192.168.1.2 14192 typ host","sdpMLineIndex":0,"sdpMid":"0"}}"#;

#[test]
fn session_response_reads_answer_and_candidate() {
    let response = get_session_response(REPLY);
    assert_eq!(response.answer.sdp, "v=0\r\no=- 1 2 IN IP4 0.0.0.0\r\n");
    assert_eq!(
        response.candidate.candidate.candidate,
        "candidate:1 1 UDP 2122252543 192.168.1.2 14192 typ host"
    );
    assert_eq!(response.candidate.candidate.sdp_mid, None);
    assert_eq!(response.candidate.candidate.sdp_mline_index, None);
    assert_eq!(response.candidate.candidate.username_fragment, None);
}

#[test]
fn try_session_response_matches_get() {
    let response = try_get_session_response(REPLY).unwrap();
    assert_eq!(response.answer.sdp, get_session_response(REPLY).answer.sdp);
}

#[test]
fn try_session_response_refuses_incomplete_replies() {
    assert!(try_get_session_response("not json").is_none());
    assert!(try_get_session_response(r#"{"answer":{"sdp":"x"}}"#).is_none());
    assert!(try_get_session_response(r#"{"answer":{"sdp":1},"candidate":{"candidate":"c"}}"#).is_none());
    assert!(try_get_session_response(r#"{"answer":"x","candidate":{"candidate":"c"}}"#).is_none());
    assert!(try_get_session_response(r#"[1,2]"#).is_none());
}

#[test]
fn parse_json_keeps_values() {
    let value = parse_json(r#"{"a":[true,null,"s",1.5],"b":{"c":"d"}}"#).unwrap();
    match value.member("a") {
        Some(Json::Array(items)) => {
            assert_eq!(items.len(), 4);
            assert!(matches!(items[0], Json::Boolean(true)));
            assert!(matches!(items[1], Json::Null));
            assert!(matches!(&items[2], Json::Str(s) if s == "s"));
            assert!(matches!(items[3], Json::Number(bits) if bits == 1.5f64.to_bits()));
        }
        other => panic!("unexpected {:?}", other),
    }
    let inner = value.member("b").unwrap();
    assert_eq!(inner.member("c").unwrap().as_text().unwrap(), "d");
    assert!(value.member("z").is_none());
    assert!(inner.member("c").unwrap().member("c").is_none());
    assert!(value.as_text().is_none());
}

#[test]
fn parse_json_refuses_bad_text() {
    assert!(parse_json("{").is_err());
    assert!(parse_json("[1, 2] 3").is_err());
}

#[test]
fn json_member_takes_the_last_of_repeated_keys() {
    let value = Json::Object(vec![
        ("k".to_string(), Json::Str("first".to_string())),
        ("k".to_string(), Json::Str("second".to_string())),
    ]);
    assert_eq!(value.member("k").unwrap().as_text().unwrap(), "second");
}
