use ws_engine::handshake::{HeaderMap, build_response, compute_accept};

#[test]
fn accept_token_matches_the_canonical_vector() {
    let key = String::from("dGhlIHNhbXBsZSBub25jZQ==");
    let token = compute_accept(&key);
    assert_eq!(token, "s3pPLMBiTxaQ9kYGzzhZRbK+xOo=");
}

#[test]
fn response_has_the_fixed_shape() {
    let token = String::from("s3pPLMBiTxaQ9kYGzzhZRbK+xOo=");
    let response = build_response(&token);
    assert_eq!(
        response,
        "HTTP/1.1 101 Switching Protocols\r\nConnection: Upgrade\r\nUpgrade: websocket\r\nSec-WebSocket-Accept: s3pPLMBiTxaQ9kYGzzhZRbK+xOo=\r\n\r\n"
    );
}

#[test]
fn header_map_stores_under_the_pending_field() {
    let mut h = HeaderMap::new();
    h.on_field(String::from("Host"));
    h.on_value(String::from("example.net"));
    h.on_field(String::from("Sec-WebSocket-Key"));
    h.on_value(String::from("AQIDBAUGBwgJCgsMDQ4PEA=="));
    assert_eq!(h.get("Host"), Some(String::from("example.net")));
    assert_eq!(h.get("Sec-WebSocket-Key"), Some(String::from("AQIDBAUGBwgJCgsMDQ4PEA==")));
    assert_eq!(h.get("Upgrade"), None);
}

#[test]
fn header_map_keeps_the_last_value_for_a_name() {
    let mut h = HeaderMap::new();
    h.on_field(String::from("X-Twice"));
    h.on_value(String::from("first"));
    h.on_field(String::from("X-Twice"));
    h.on_value(String::from("second"));
    assert_eq!(h.get("X-Twice"), Some(String::from("second")));
}
