use ws_engine::frame::{Decoded, DecodeError, Frame, OpCode};

fn masked(opcode: OpCode, payload: &[u8], key: [u8; 4]) -> Frame {
    Frame { fin: true, opcode, masked: true, mask_key: key, payload: payload.to_vec() }
}

#[test]
fn round_trip_masked_text() {
    let f = masked(OpCode::Text, b"hello", [0x11, 0x22, 0x33, 0x44]);
    let wire = f.encode_client();
    match Frame::decode(&wire) {
        Decoded::Complete(g, used) => {
            assert_eq!(used, wire.len());
            assert_eq!(g.fin, true);
            assert_eq!(g.opcode, OpCode::Text);
            assert_eq!(g.masked, true);
            assert_eq!(g.mask_key, [0x11, 0x22, 0x33, 0x44]);
            assert_eq!(g.payload, b"hello".to_vec());
        }
        _ => panic!("expected a complete frame"),
    }
}

#[test]
fn round_trip_every_small_length() {
    // masking then unmasking reproduces the payload for lengths that are not
    // multiples of four as well
    for n in 0..9usize {
        let payload: Vec<u8> = (0..n as u8).collect();
        let f = masked(OpCode::Binary, &payload, [9, 250, 3, 77]);
        let wire = f.encode_client();
        match Frame::decode(&wire) {
            Decoded::Complete(g, used) => {
                assert_eq!(used, wire.len());
                assert_eq!(g.payload, payload);
            }
            _ => panic!("expected a complete frame at length {}", n),
        }
    }
}

#[test]
fn unmasked_client_frame_is_rejected() {
    let f = Frame::text("hello");
    let wire = f.encode();
    match Frame::decode(&wire) {
        Decoded::Invalid(e) => assert_eq!(e, DecodeError::Unmasked),
        _ => panic!("an unmasked client frame must be rejected"),
    }
}

#[test]
fn seven_bit_length_form() {
    let payload: Vec<u8> = vec![7; 10];
    let f = masked(OpCode::Binary, &payload, [1, 2, 3, 4]);
    let wire = f.encode_client();
    assert_eq!(wire[1] & 0x7f, 10);
    assert_eq!(wire.len(), 2 + 4 + 10);
    match Frame::decode(&wire) {
        Decoded::Complete(g, _) => assert_eq!(g.payload.len(), 10),
        _ => panic!("expected a complete frame"),
    }
}

#[test]
fn sixteen_bit_length_form() {
    let payload: Vec<u8> = vec![7; 200];
    let f = masked(OpCode::Binary, &payload, [1, 2, 3, 4]);
    let wire = f.encode_client();
    assert_eq!(wire[1] & 0x7f, 126);
    assert_eq!(wire[2], 0);
    assert_eq!(wire[3], 200);
    assert_eq!(wire.len(), 4 + 4 + 200);
    match Frame::decode(&wire) {
        Decoded::Complete(g, _) => assert_eq!(g.payload.len(), 200),
        _ => panic!("expected a complete frame"),
    }
}

#[test]
fn sixty_four_bit_length_form() {
    let payload: Vec<u8> = vec![7; 70000];
    let f = masked(OpCode::Binary, &payload, [1, 2, 3, 4]);
    let wire = f.encode_client();
    assert_eq!(wire[1] & 0x7f, 127);
    // 70000 = 0x00000000_00011170 big-endian
    assert_eq!(&wire[2..10], &[0, 0, 0, 0, 0, 1, 0x11, 0x70]);
    assert_eq!(wire.len(), 10 + 4 + 70000);
    match Frame::decode(&wire) {
        Decoded::Complete(g, _) => {
            assert_eq!(g.payload.len(), 70000);
            assert_eq!(g.payload, payload);
        }
        _ => panic!("expected a complete frame"),
    }
}

#[test]
fn server_encoding_is_unmasked_and_short() {
    let f = Frame::text("hello");
    let wire = f.encode();
    assert_eq!(wire[0], 0x81);
    assert_eq!(wire[1], 5);
    assert_eq!(&wire[2..], b"hello");
}

#[test]
fn control_frame_of_125_bytes_is_accepted() {
    let payload: Vec<u8> = vec![1; 125];
    let ping = masked(OpCode::Ping, &payload, [5, 6, 7, 8]);
    let wire = ping.encode_client();
    match Frame::decode(&wire) {
        Decoded::Complete(g, _) => {
            assert_eq!(g.opcode, OpCode::Ping);
            assert_eq!(g.payload.len(), 125);
        }
        _ => panic!("a 125-byte control frame is legal"),
    }
    assert!(Frame::pong(&ping).is_some());
    assert!(Frame::close_echo(&ping).is_some());
}

#[test]
fn control_frame_of_126_bytes_is_rejected() {
    let payload: Vec<u8> = vec![1; 126];
    let ping = masked(OpCode::Ping, &payload, [5, 6, 7, 8]);
    let wire = ping.encode_client();
    match Frame::decode(&wire) {
        Decoded::Invalid(e) => assert_eq!(e, DecodeError::ControlTooLong),
        _ => panic!("a 126-byte control frame must be rejected"),
    }
    assert!(Frame::pong(&ping).is_none());
    assert!(Frame::close_echo(&ping).is_none());
}

#[test]
fn reserved_bits_are_rejected() {
    let wire: Vec<u8> = vec![0x81 | 0x40, 0x80, 0, 0, 0, 0];
    match Frame::decode(&wire) {
        Decoded::Invalid(e) => assert_eq!(e, DecodeError::ReservedBits),
        _ => panic!("a set reserved bit must be rejected"),
    }
}

#[test]
fn unknown_opcode_is_rejected() {
    let wire: Vec<u8> = vec![0x83, 0x80, 0, 0, 0, 0];
    match Frame::decode(&wire) {
        Decoded::Invalid(e) => assert_eq!(e, DecodeError::UnknownOpcode),
        _ => panic!("opcode 3 must be rejected"),
    }
}

#[test]
fn short_buffers_ask_for_more_data() {
    let f = masked(OpCode::Text, b"hello", [1, 2, 3, 4]);
    let wire = f.encode_client();
    for cut in 0..wire.len() {
        let partial: Vec<u8> = wire[..cut].to_vec();
        assert!(
            matches!(Frame::decode(&partial), Decoded::NeedMoreData),
            "a truncated buffer of {} bytes must ask for more",
            cut
        );
    }
}

#[test]
fn pong_and_close_echo_copy_the_payload() {
    let ping = masked(OpCode::Ping, b"payload", [1, 2, 3, 4]);
    let pong = Frame::pong(&ping).unwrap();
    assert_eq!(pong.opcode, OpCode::Pong);
    assert_eq!(pong.fin, true);
    assert_eq!(pong.masked, false);
    assert_eq!(pong.payload, b"payload".to_vec());
    assert!(!pong.is_close());

    let close = masked(OpCode::Close, &[0x03, 0xe8, b'b', b'y', b'e'], [1, 2, 3, 4]);
    let echo = Frame::close_echo(&close).unwrap();
    assert_eq!(echo.opcode, OpCode::Close);
    assert_eq!(echo.masked, false);
    assert_eq!(echo.payload, vec![0x03, 0xe8, b'b', b'y', b'e']);
    assert!(echo.is_close());
}
