use voice_input::handshake::{
    check_head, client_key, expected_accept, find_head_end, upgrade_request, Handshake,
};
use voice_input::ws::{Recv, WsError, WsStream};

const KEY: &str = "dGhlIHNhbXBsZSBub25jZQ==";
const ACCEPT: &str = "s3pPLMBiTxaQ9kYGzzhZRbK+xOo=";

fn answer(accept_line: &str) -> String {
    format!("HTTP/1.1 101 Switching Protocols\r\nUpgrade: websocket\r\n{accept_line}\r\n\r\n")
}

#[test]
fn the_proof_of_a_key_is_that_of_the_standard() {
    assert_eq!(expected_accept(KEY), ACCEPT);
}

#[test]
fn keys_are_sixteen_bytes_and_fresh() {
    let a = client_key();
    let b = client_key();
    assert_eq!(a.len(), 24);
    assert!(a.ends_with("=="));
    assert_ne!(a, b);
}

#[test]
fn the_request_has_the_callers_headers_last() {
    assert_eq!(
        upgrade_request("/p", "h", "k", &[("A", "1"), ("B", "二")]),
        "GET /p HTTP/1.1\r\nHost: h\r\nUpgrade: websocket\r\nConnection: Upgrade\r\n\
         Sec-WebSocket-Key: k\r\nSec-WebSocket-Version: 13\r\nA: 1\r\nB: 二\r\n\r\n"
    );
    assert_eq!(
        upgrade_request("/", "h", "k", &[]),
        "GET / HTTP/1.1\r\nHost: h\r\nUpgrade: websocket\r\nConnection: Upgrade\r\n\
         Sec-WebSocket-Key: k\r\nSec-WebSocket-Version: 13\r\n\r\n"
    );
}

#[test]
fn the_head_ends_after_the_first_empty_line() {
    assert_eq!(find_head_end(b""), None);
    assert_eq!(find_head_end(b"a\r\n\r"), None);
    assert_eq!(find_head_end(b"\r\n\r\n"), Some(4));
    assert_eq!(find_head_end(b"a\r\n\r\nb\r\n\r\n"), Some(5));
}

#[test]
fn an_answer_is_collected_until_its_head_is_complete() {
    let mut h = Handshake::new();
    assert_eq!(h.receive(b"HTTP/1.1 101 X\r\n"), Ok(None));
    assert_eq!(h.receive(b"\r"), Ok(None));
    assert_eq!(h.receive(b"\nrest"), Ok(Some(18)));
    assert_eq!(h.resp, b"HTTP/1.1 101 X\r\n\r\nrest".to_vec());
    assert_eq!(h.receive(b""), Err(WsError::HandshakeClosed));
}

#[test]
fn an_answer_is_limited() {
    let mut h = Handshake::new();
    assert_eq!(h.receive(&[b'a'; 4096]), Ok(None));
    assert_eq!(h.receive(&[b'a'; 4096]), Ok(None));
    assert_eq!(h.receive(b"\r\n\r\n"), Err(WsError::HandshakeTooLarge));
}

#[test]
fn an_accepted_answer_opens_the_connection_with_what_follows() {
    let mut resp = answer(&format!("sec-websocket-ACCEPT: \t{ACCEPT} ")).into_bytes();
    resp.extend_from_slice(&[0x82, 2, b'o', b'k']);
    let mut ws = WsStream::connect(&resp, KEY).unwrap();
    assert_eq!(ws.recv(), Ok(Recv::Message(b"ok".to_vec())));
}

#[test]
fn an_answer_must_prove_the_key() {
    let missing = answer("X: y");
    assert_eq!(check_head(&missing, ACCEPT), Err(WsError::BadAccept));
    let wrong = answer("Sec-WebSocket-Accept: nope");
    assert_eq!(check_head(&wrong, ACCEPT), Err(WsError::BadAccept));
    let spaced = answer(&format!("Sec-WebSocket-Accept : {ACCEPT}"));
    assert_eq!(check_head(&spaced, ACCEPT), Err(WsError::BadAccept));
    let first = answer(&format!("Sec-WebSocket-Accept: x\r\nSec-WebSocket-Accept: {ACCEPT}"));
    assert_eq!(check_head(&first, ACCEPT), Err(WsError::BadAccept));
    let right = answer(&format!("no colon\r\nSec-WebSocket-Accept:{ACCEPT}"));
    assert_eq!(check_head(&right, ACCEPT), Ok(()));
    let r = WsStream::connect(wrong.as_bytes(), KEY);
    assert_eq!(r.err(), Some(WsError::BadAccept));
}

#[test]
fn a_refusal_is_quoted() {
    let head = "HTTP/1.1 403 Forbidden\r\n\r\n";
    assert_eq!(check_head(head, ACCEPT), Err(WsError::Rejected(head.to_string())));
    let long = format!("HTTP/1.0 {}\r\n\r\n", "x".repeat(300));
    let r = WsStream::connect(long.as_bytes(), KEY);
    assert_eq!(r.err(), Some(WsError::Rejected(long[..200].to_string())));
}

#[test]
fn a_refusal_is_not_quoted_through_a_character() {
    let quoted = |head: &str| match WsStream::connect(head.as_bytes(), KEY) {
        Err(WsError::Rejected(q)) => q,
        other => panic!("{:?}", other),
    };
    let cut = format!("{}é\r\n\r\n", "x".repeat(199));
    assert_eq!(quoted(&cut), "x".repeat(199));
    assert_eq!(check_head(&cut, ACCEPT), Err(WsError::Rejected("x".repeat(199))));
    let wide = format!("{}\u{1F3A4}\r\n\r\n", "x".repeat(197));
    assert_eq!(quoted(&wide), "x".repeat(197));
    let fits = format!("{}é\r\n\r\n", "x".repeat(198));
    assert_eq!(quoted(&fits), fits[..200]);
}

#[test]
fn malformed_bytes_in_a_refusal_are_replaced() {
    let r = WsStream::connect(b"bad \xFF\r\n\r\n", KEY);
    assert_eq!(r.err(), Some(WsError::Rejected("bad \u{FFFD}\r\n\r\n".to_string())));
}
