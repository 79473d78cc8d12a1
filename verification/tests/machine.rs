use ws_engine::connection::{
    ClientState, Interest, ReadAction, WebSocketClient, WriteAction,
};
use ws_engine::frame::{Frame, OpCode};
use ws_engine::server::WebSocketServer;

fn read_only() -> Interest {
    Interest { readable: true, writable: false, hup: false }
}

fn write_only() -> Interest {
    Interest { readable: false, writable: true, hup: false }
}

fn hup_only() -> Interest {
    Interest { readable: false, writable: false, hup: true }
}

fn masked(opcode: OpCode, payload: &[u8]) -> Vec<u8> {
    let f = Frame { fin: true, opcode, masked: true, mask_key: [9, 8, 7, 6], payload: payload.to_vec() };
    f.encode_client()
}

fn walk_handshake(c: &mut WebSocketClient) -> Vec<u8> {
    assert_eq!(c.state, ClientState::AwaitingHandshake);
    assert_eq!(c.interest, read_only());
    let request: Vec<u8> = Vec::new();
    assert_eq!(c.read(&request), ReadAction::ParseHandshake);
    c.headers.on_field(String::from("Sec-WebSocket-Key"));
    c.headers.on_value(String::from("dGhlIHNhbXBsZSBub25jZQ=="));
    c.handshake_upgraded();
    assert_eq!(c.state, ClientState::HandshakeResponsePending);
    assert_eq!(c.interest, write_only());
    match c.write() {
        WriteAction::Send(bytes) => {
            assert_eq!(c.state, ClientState::Connected);
            assert_eq!(c.interest, read_only());
            bytes
        }
        _ => panic!("the response was owed"),
    }
}

#[test]
fn state_machine_progression() {
    let mut c = WebSocketClient::new();
    let response = walk_handshake(&mut c);
    let expected = "HTTP/1.1 101 Switching Protocols\r\nConnection: Upgrade\r\nUpgrade: websocket\r\nSec-WebSocket-Accept: s3pPLMBiTxaQ9kYGzzhZRbK+xOo=\r\n\r\n";
    assert_eq!(response, expected.as_bytes().to_vec());
}

#[test]
fn missing_key_header_aborts_the_connection() {
    let mut c = WebSocketClient::new();
    c.headers.on_field(String::from("Host"));
    c.headers.on_value(String::from("example.net"));
    c.handshake_upgraded();
    match c.write() {
        WriteAction::Abort => assert_eq!(c.interest, hup_only()),
        _ => panic!("a request without the key header cannot be answered"),
    }
}

#[test]
fn text_frame_queues_one_reply_and_flushes_back_to_reading() {
    let mut c = WebSocketClient::new();
    walk_handshake(&mut c);

    let wire = masked(OpCode::Text, b"hello");
    assert_eq!(c.read(&wire), ReadAction::Done);
    assert_eq!(c.outgoing.len(), 1);
    assert_eq!(c.outgoing[0].opcode, OpCode::Text);
    assert_eq!(c.interest, write_only());

    match c.write() {
        WriteAction::Send(bytes) => {
            assert_eq!(bytes, Frame::text("Hi there!!").encode());
        }
        _ => panic!("the queued reply was owed"),
    }
    assert_eq!(c.outgoing.len(), 0);
    assert_eq!(c.interest, read_only());
    assert_eq!(c.state, ClientState::Connected);
}

#[test]
fn ping_frame_queues_an_echoing_pong() {
    let mut c = WebSocketClient::new();
    walk_handshake(&mut c);

    let wire = masked(OpCode::Ping, b"are you there");
    c.read(&wire);
    assert_eq!(c.outgoing.len(), 1);
    assert_eq!(c.outgoing[0].opcode, OpCode::Pong);
    assert_eq!(c.outgoing[0].payload, b"are you there".to_vec());
    assert_eq!(c.interest, write_only());
}

#[test]
fn binary_frame_queues_nothing() {
    let mut c = WebSocketClient::new();
    walk_handshake(&mut c);

    let wire = masked(OpCode::Binary, &[1, 2, 3]);
    c.read(&wire);
    assert_eq!(c.outgoing.len(), 0);
    assert_eq!(c.interest, read_only());
}

#[test]
fn malformed_frame_requests_teardown() {
    let mut c = WebSocketClient::new();
    walk_handshake(&mut c);

    let wire: Vec<u8> = vec![0x83, 0x80, 0, 0, 0, 0];
    c.read(&wire);
    assert_eq!(c.outgoing.len(), 0);
    assert_eq!(c.interest, hup_only());
}

#[test]
fn end_to_end_text_then_close() {
    let mut server = WebSocketServer::new();
    let token = server.accept_connection();
    assert_eq!(token, 2);
    assert_eq!(server.client_count(), 1);

    // the client completes its handshake
    let mut c = server.take_client(token).expect("the token names the connection");
    walk_handshake(&mut c);

    // the client sends a Text frame: exactly one reply is queued and flushed,
    // and interest returns to Readable
    let wire = masked(OpCode::Text, b"hello");
    c.read(&wire);
    assert_eq!(c.outgoing.len(), 1);
    match c.write() {
        WriteAction::Send(bytes) => assert!(!bytes.is_empty()),
        _ => panic!("the reply was owed"),
    }
    assert_eq!(c.interest, read_only());
    server.put_client(token, c);

    // the client sends a Close frame: the reply queue holds exactly one Close
    // echoing the payload, and after the flush teardown is requested
    let mut c = server.take_client(token).expect("the connection is still live");
    let close_payload: Vec<u8> = vec![0x03, 0xe8];
    let wire = masked(OpCode::Close, &close_payload);
    c.read(&wire);
    assert_eq!(c.outgoing.len(), 1);
    assert_eq!(c.outgoing[0].opcode, OpCode::Close);
    assert_eq!(c.outgoing[0].payload, close_payload);
    match c.write() {
        WriteAction::Send(bytes) => {
            let mut expected: Vec<u8> = vec![0x88, 2];
            expected.extend_from_slice(&close_payload);
            assert_eq!(bytes, expected);
        }
        _ => panic!("the close echo was owed"),
    }
    assert_eq!(c.interest, hup_only());
    assert_eq!(c.state, ClientState::Closing);

    // the dispatch loop sees the hup interest and tears the connection down:
    // it is gone from the table
    drop(c);
    assert_eq!(server.client_count(), 0);
    assert!(server.take_client(token).is_none());
}

#[test]
fn tokens_are_never_reused() {
    let mut server = WebSocketServer::new();
    let a = server.accept_connection();
    let b = server.accept_connection();
    assert_ne!(a, b);
    server.take_client(a).expect("live");
    let c = server.accept_connection();
    assert_ne!(a, c);
    assert_ne!(b, c);
}
