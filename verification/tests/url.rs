use voice_input::url::{parse_ws_url, target};
use voice_input::ws::WsError;

#[test]
fn parses_ws_url_with_default_and_explicit_ports() {
    assert_eq!(
        parse_ws_url("wss://example.com/asr").unwrap(),
        ("example.com".to_string(), 443, "/asr".to_string())
    );
    assert_eq!(
        parse_ws_url("wss://example.com:8443").unwrap(),
        ("example.com".to_string(), 8443, "/".to_string())
    );
}

#[test]
fn rejects_non_ws_urls_and_invalid_ports() {
    assert!(parse_ws_url("http://example.com").is_err());
    assert!(parse_ws_url("wss://example.com:not-a-port").is_err());
}

#[test]
fn url_errors_tell_scheme_from_port() {
    assert_eq!(parse_ws_url("ws://example.com"), Err(WsError::NotWss));
    assert_eq!(parse_ws_url(""), Err(WsError::NotWss));
    assert_eq!(parse_ws_url("wss://example.com:"), Err(WsError::BadPort));
    assert_eq!(parse_ws_url("wss://example.com:65536"), Err(WsError::BadPort));
    assert_eq!(parse_ws_url("wss://example.com:-1"), Err(WsError::BadPort));
    assert_eq!(parse_ws_url("wss://example.com:+"), Err(WsError::BadPort));
}

#[test]
fn only_wss_is_supported() {
    assert_eq!(parse_ws_url("https://example.com"), Err(WsError::NotWss));
    assert_eq!(parse_ws_url("https://example.com:8443/asr"), Err(WsError::NotWss));
    assert_eq!(parse_ws_url("WSS://example.com"), Err(WsError::NotWss));
    assert_eq!(target("https://example.com"), Err(WsError::NotWss));
}

#[test]
fn ports_may_have_a_sign_and_zeros() {
    assert_eq!(
        parse_ws_url("wss://h:+0080/p:q/r").unwrap(),
        ("h".to_string(), 80, "/p:q/r".to_string())
    );
    assert_eq!(
        parse_ws_url("wss://[::1]:65535/").unwrap(),
        ("[::1]".to_string(), 65535, "/".to_string())
    );
    assert_eq!(
        parse_ws_url("wss://主机/路径").unwrap(),
        ("主机".to_string(), 443, "/路径".to_string())
    );
    assert_eq!(
        parse_ws_url("wss://").unwrap(),
        ("".to_string(), 443, "/".to_string())
    );
}

#[test]
fn a_target_needs_a_server_name() {
    assert_eq!(
        target("wss://example.com:8443/x").unwrap(),
        ("example.com".to_string(), 8443, "/x".to_string())
    );
    assert_eq!(
        target("wss://127.0.0.1/").unwrap(),
        ("127.0.0.1".to_string(), 443, "/".to_string())
    );
    assert_eq!(
        target("wss://bad host/"),
        Err(WsError::BadHost("bad host".to_string()))
    );
    assert_eq!(target("wss:///"), Err(WsError::BadHost("".to_string())));
    assert_eq!(target("http://example.com"), Err(WsError::NotWss));
    assert_eq!(target("wss://example.com:x"), Err(WsError::BadPort));
}
