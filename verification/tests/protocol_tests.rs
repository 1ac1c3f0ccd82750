use lazymc::protocol::{
    encode_ping_request, encode_status_handshake, encode_status_request, handle_ping_frame,
    make_ping_request, parse_frame, read_ping_token, read_var_int, FrameParse, PingStep, VarInt,
    CLIENT_PING,
};
use lazymc::protocol::CLIENT_STATUS;
use lazymc::status::{decode_status_payload, handle_status_frame, DecodePath, ProbeError, StatusStep};

fn status_payload(json: &str) -> Vec<u8> {
    // a var-int length prefix (single byte for short payloads), then the JSON
    let bytes = json.as_bytes();
    assert!(bytes.len() < 128);
    let mut out = vec![bytes.len() as u8];
    out.extend_from_slice(bytes);
    out
}

#[test]
fn var_int_decoding() {
    match read_var_int(&vec![0x00], 0) {
        VarInt::Done { len, value } => {
            assert_eq!(len, 1);
            assert_eq!(value, 0);
        }
        _ => panic!("expected a value"),
    }
    match read_var_int(&vec![0x80, 0x01], 0) {
        VarInt::Done { len, value } => {
            assert_eq!(len, 2);
            assert_eq!(value, 128);
        }
        _ => panic!("expected a value"),
    }
    assert!(matches!(read_var_int(&vec![0x80], 0), VarInt::Incomplete));
    assert!(matches!(
        read_var_int(&vec![0x80, 0x80, 0x80, 0x80, 0x80, 0x01], 0),
        VarInt::Invalid
    ));
}

#[test]
fn handshake_frame_bytes() {
    // protocol 765, "localhost", port 25565, next-state status
    let frame = encode_status_handshake(765, "localhost", 25565);
    let mut expected: Vec<u8> = vec![16, 0, 0xfd, 0x05, 9];
    expected.extend_from_slice(b"localhost");
    expected.extend_from_slice(&[0x63, 0xdd, 1]);
    assert_eq!(frame, expected);
}

#[test]
fn local_proxy_header_bytes() {
    assert_eq!(
        lazymc::protocol::local_proxy_header(),
        vec![
            0x0d, 0x0a, 0x0d, 0x0a, 0x00, 0x0d, 0x0a, 0x51,
            0x55, 0x49, 0x54, 0x0a, 0x20, 0x00, 0x00, 0x00,
        ]
    );
}

#[test]
fn status_request_frame_bytes() {
    assert_eq!(encode_status_request(), vec![1, 0]);
}

#[test]
fn ping_request_frame_bytes() {
    let frame = encode_ping_request(0x0102030405060708);
    assert_eq!(frame, vec![9, 1, 1, 2, 3, 4, 5, 6, 7, 8]);
    let (token, frame2) = make_ping_request();
    let mut expected = vec![9u8, 1];
    expected.extend_from_slice(&token.to_be_bytes());
    assert_eq!(frame2, expected);
}

#[test]
fn frame_round_trip() {
    let frame = encode_status_handshake(765, "localhost", 25565);
    match parse_frame(&frame) {
        FrameParse::Done(f, consumed) => {
            assert_eq!(f.id, 0);
            assert_eq!(consumed, frame.len());
            assert_eq!(f.data.len(), frame.len() - 2);
        }
        _ => panic!("expected a frame"),
    }
    // a truncated buffer is incomplete, not invalid
    let partial = frame[..5].to_vec();
    assert!(matches!(parse_frame(&partial), FrameParse::Incomplete));
    // a buffer that cannot start a frame is invalid
    let garbage = vec![0x80, 0x80, 0x80, 0x80, 0x80, 0x80];
    assert!(matches!(parse_frame(&garbage), FrameParse::Invalid));
}

#[test]
fn ping_wait_ignores_non_matching_token() {
    let token: u64 = 0xDEAD_BEEF_1234_5678;
    let other: u64 = 0xDEAD_BEEF_0000_0000;
    let payload = other.to_be_bytes().to_vec();
    // a non-matching token does not complete the wait
    assert_eq!(handle_ping_frame(CLIENT_PING, &payload, token), PingStep::Mismatch);
    // a subsequent matching token does
    let payload2 = token.to_be_bytes().to_vec();
    assert_eq!(handle_ping_frame(CLIENT_PING, &payload2, token), PingStep::Matched);
    // other frames are skipped; a short ping payload fails the wait
    assert_eq!(handle_ping_frame(7, &payload2, token), PingStep::Skip);
    assert_eq!(handle_ping_frame(CLIENT_PING, &vec![1, 2, 3], token), PingStep::Malformed);
    assert_eq!(read_ping_token(&vec![0, 0, 0, 0, 0, 0, 0, 9]), Some(9));
}

#[test]
fn strict_status_decode() {
    let json = r#"{"version":{"name":"1.20.3","protocol":765},"players":{"online":3,"max":20},"description":"A server","favicon":"data:x"}"#;
    let payload = status_payload(json);
    let (snap, path) = decode_status_payload(&payload).expect("decodes");
    assert_eq!(path, DecodePath::Strict);
    assert_eq!(snap.version_name, "1.20.3");
    assert_eq!(snap.protocol, 765);
    assert_eq!(snap.players_online, 3);
    assert_eq!(snap.players_max, 20);
    assert_eq!(snap.description, "A server");
    assert_eq!(snap.favicon.as_deref(), Some("data:x"));
}

#[test]
fn lenient_decode_of_object_description() {
    // a description given as a chat-component object decodes leniently and
    // yields a non-empty description string
    let json = r#"{"version":{"name":"Forge","protocol":765},"players":{"online":1,"max":10},"description":{"text":"modded"}}"#;
    let payload = status_payload(json);
    let (snap, path) = decode_status_payload(&payload).expect("decodes");
    assert_eq!(path, DecodePath::Lenient);
    assert!(!snap.description.is_empty());
    assert_eq!(snap.version_name, "Forge");
    assert_eq!(snap.players_online, 1);
    assert_eq!(snap.favicon, None);
}

#[test]
fn lenient_decode_fills_defaults() {
    // missing version and player sub-fields default to "Unknown" and zero
    let json = r#"{"description":"bare"}"#;
    let payload = status_payload(json);
    let (snap, path) = decode_status_payload(&payload).expect("decodes");
    assert_eq!(path, DecodePath::Lenient);
    assert_eq!(snap.version_name, "Unknown");
    assert_eq!(snap.protocol, 0);
    assert_eq!(snap.players_online, 0);
    assert_eq!(snap.players_max, 0);
    assert_eq!(snap.description, "bare");
}

#[test]
fn decode_failure_reports_decode_error() {
    // not valid JSON behind the prefix
    let payload = status_payload("{not json");
    assert_eq!(decode_status_payload(&payload), Err(ProbeError::Decode));
    // truncated length prefix
    assert_eq!(decode_status_payload(&vec![5, b'x']), Err(ProbeError::Decode));
    // invalid UTF-8
    assert_eq!(decode_status_payload(&vec![2, 0xff, 0xfe]), Err(ProbeError::Decode));
}

#[test]
fn status_wait_skips_other_frames() {
    let json = r#"{"version":{"name":"x","protocol":1},"players":{"online":0,"max":5},"description":"d"}"#;
    let payload = status_payload(json);
    match handle_status_frame(CLIENT_STATUS, &payload) {
        StatusStep::Done(snap, _) => assert_eq!(snap.players_max, 5),
        _ => panic!("expected a snapshot"),
    }
    assert!(matches!(handle_status_frame(9, &payload), StatusStep::Skip));
    assert!(matches!(
        handle_status_frame(CLIENT_STATUS, &vec![3, b'x', b'y', b'z']),
        StatusStep::Fail
    ));
}

#[test]
fn lenient_decode_truncates_large_counts() {
    let json = r#"{"players":{"online":9999999999,"max":20},"description":"d"}"#;
    let payload = status_payload(json);
    let (snap, path) = decode_status_payload(&payload).expect("decodes");
    assert_eq!(path, DecodePath::Lenient);
    assert_eq!(snap.players_online, (9999999999u64 % 0x1_0000_0000) as u32);
    assert_eq!(snap.version_name, "Unknown");
    assert_eq!(snap.protocol, 0);
}
