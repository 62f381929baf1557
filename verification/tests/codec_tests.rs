use naia_socket::ice::{fallback_ice_servers, IceCredentialType};
use naia_socket::util::{decode, encode, trim_line, SignalDecodeError};

#[test]
fn fallback_ice_servers_is_one_public_stun_server() {
    let servers = fallback_ice_servers();
    assert_eq!(servers.len(), 1);
    assert_eq!(servers[0].urls, vec!["stun:stun.l.google.com:19302".to_string()]);
    assert_eq!(servers[0].username, "");
    assert_eq!(servers[0].credential, "");
    assert_eq!(servers[0].credential_type, IceCredentialType::Password);
}

#[test]
fn encode_gives_standard_padded_base64() {
    assert_eq!(encode("hello world"), "aGVsbG8gd29ybGQ=");
    assert_eq!(encode(""), "");
    assert_eq!(encode("a"), "YQ==");
    // UTF-8 bytes of "é" are c3 a9
    assert_eq!(encode("é"), "w6k=");
}

#[test]
fn decode_reads_standard_base64() {
    assert_eq!(decode("aGVsbG8gd29ybGQ=").unwrap(), "hello world");
    assert_eq!(decode("").unwrap(), "");
}

#[test]
fn decode_undoes_encode() {
    for text in ["", "x", "offer", "{\"type\":\"offer\",\"sdp\":\"v=0\\r\\n\"}", "ünïcödé ✓"] {
        assert_eq!(decode(&encode(text)).unwrap(), text);
    }
}

#[test]
fn decode_refuses_text_that_is_not_base64() {
    assert!(matches!(decode("not base64!"), Err(SignalDecodeError::Base64(_))));
    assert!(matches!(decode("a"), Err(SignalDecodeError::Base64(_))));
    // missing padding is accepted by the standard engine
    assert_eq!(decode("aGVsbG8").unwrap(), "hello");
}

#[test]
fn decode_refuses_bytes_that_are_not_utf8() {
    // "/w==" holds the single byte 0xff
    assert!(matches!(decode("/w=="), Err(SignalDecodeError::Utf8(_))));
}

#[test]
fn trim_line_drops_surrounding_white_space() {
    assert_eq!(trim_line("  abc def \r\n"), "abc def");
    assert_eq!(trim_line("abc"), "abc");
    assert_eq!(trim_line(" \t\n"), "");
    assert_eq!(trim_line(""), "");
    assert_eq!(trim_line("\u{3000}x\u{a0}"), "x");
}

#[test]
fn trim_line_agrees_with_std_trim() {
    for line in ["\u{85}a b\u{2028}", "\u{1680}\u{200a}q", "no-space", "\u{200b}kept\u{200b}"] {
        assert_eq!(trim_line(line), line.trim());
    }
}

#[test]
fn trim_line_is_idempotent() {
    for line in ["  a  ", "\t\n", "x y", "\u{2028} z \u{3000}"] {
        let once = trim_line(line);
        assert_eq!(trim_line(&once), once);
    }
}

#[test]
fn decode_of_base64_reports_utf8_failure_as_utf8() {
    // "/w==" is the standard encoding of the byte 0xff, which is not UTF-8
    assert_eq!(encode_bytes_check(), "/w==");
    assert!(matches!(decode("/w=="), Err(SignalDecodeError::Utf8(_))));
}

fn encode_bytes_check() -> String {
    base64::encode([0xffu8])
}
