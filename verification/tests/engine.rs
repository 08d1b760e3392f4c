//! End-to-end scenarios for the connection engine.

use rsws::connection::machine::RecvStatus;
use rsws::extensions::deflate::DeflateExtension;
use rsws::{CloseCode, Config, Connection, ConnectionState, Message, Role};

fn server() -> Connection<DeflateExtension> {
    Connection::new(Role::Server, Config::server())
}

fn client() -> Connection<DeflateExtension> {
    Connection::new(Role::Client, Config::client())
}

fn expect_message(conn: &mut Connection<DeflateExtension>) -> Message {
    loop {
        match conn.recv().unwrap() {
            RecvStatus::Message(m) => return m,
            RecvStatus::Pending => continue,
            RecvStatus::NeedMoreData => panic!("expected a message, engine wants more data"),
            RecvStatus::Closed => panic!("expected a message, connection closed"),
        }
    }
}

#[test]
fn test_unmasked_text_hello_parses() {
    // Server-to-client unmasked text "Hello".
    let mut conn = client();
    conn.feed(&[0x81, 0x05, 0x48, 0x65, 0x6C, 0x6C, 0x6F]);
    let msg = expect_message(&mut conn);
    assert!(matches!(msg, Message::Text(s) if s == "Hello"));
}

#[test]
fn test_masked_text_hello_parses() {
    // Client-to-server masked text "Hello", mask 37 FA 21 3D.
    let mut conn = server();
    conn.feed(&[0x81, 0x85, 0x37, 0xFA, 0x21, 0x3D, 0x7F, 0x9F, 0x4D, 0x51, 0x58]);
    let msg = expect_message(&mut conn);
    assert!(matches!(msg, Message::Text(s) if s == "Hello"));
}

#[test]
fn test_close_frame_code_1000() {
    let mut conn = client();
    conn.feed(&[0x88, 0x02, 0x03, 0xE8]);
    let msg = expect_message(&mut conn);
    match msg {
        Message::Close(Some(cf)) => {
            assert_eq!(cf.code, CloseCode::Normal);
            assert_eq!(cf.reason, "");
        }
        other => panic!("expected a close message, got {:?}", other),
    }
    assert_eq!(conn.state(), ConnectionState::Closed);
}

#[test]
fn test_ping_gets_ponged_before_further_reads() {
    let mut conn = client();
    conn.feed(&[0x89, 0x04, 0x70, 0x69, 0x6E, 0x67]);
    let msg = expect_message(&mut conn);
    assert!(matches!(msg, Message::Ping(ref d) if d == b"ping"));

    // The next receive step must queue the pong first.
    conn.feed(&[0x81, 0x00]);
    let _ = expect_message(&mut conn);
    let out = conn.take_output();
    // Client masks its pong; check header and length only.
    assert_eq!(out[0], 0x8A);
    assert_eq!(out[1] & 0x7F, 4);
}

#[test]
fn test_server_pong_answer_is_plain() {
    let mut conn = server();
    // Masked ping "ping" with zero mask.
    conn.feed(&[0x89, 0x84, 0x00, 0x00, 0x00, 0x00, 0x70, 0x69, 0x6E, 0x67]);
    let msg = expect_message(&mut conn);
    assert!(matches!(msg, Message::Ping(ref d) if d == b"ping"));

    // Next step writes the pong before asking for more data.
    match conn.recv().unwrap() {
        RecvStatus::NeedMoreData => {}
        _ => panic!("expected the engine to want more data"),
    }
    let out = conn.take_output();
    assert_eq!(out, vec![0x8A, 0x04, 0x70, 0x69, 0x6E, 0x67]);
}

#[test]
fn test_two_fragment_text_message() {
    let mut conn = server();
    // "Hel" + "lo", both masked with a zero mask.
    conn.feed(&[0x01, 0x83, 0x00, 0x00, 0x00, 0x00, 0x48, 0x65, 0x6C]);
    match conn.recv().unwrap() {
        RecvStatus::Pending => {}
        _ => panic!("no message may surface after the first fragment"),
    }
    match conn.recv().unwrap() {
        RecvStatus::NeedMoreData => {}
        _ => panic!("the engine should ask for the second fragment"),
    }
    conn.feed(&[0x80, 0x82, 0x00, 0x00, 0x00, 0x00, 0x6C, 0x6F]);
    let msg = expect_message(&mut conn);
    assert!(matches!(msg, Message::Text(s) if s == "Hello"));
}

#[test]
fn test_close_with_invalid_utf8_reason() {
    let mut conn = client();
    // Close frame: code 1000 then an invalid UTF-8 reason byte.
    conn.feed(&[0x88, 0x03, 0x03, 0xE8, 0xFF]);
    let msg = expect_message(&mut conn);
    match msg {
        Message::Close(Some(cf)) => {
            assert_eq!(cf.code, CloseCode::InvalidPayload);
            assert_eq!(cf.reason, "");
        }
        other => panic!("expected a close message, got {:?}", other),
    }
}

#[test]
fn test_close_with_one_byte_payload_is_protocol_error() {
    let mut conn = client();
    conn.feed(&[0x88, 0x01, 0x03]);
    let msg = expect_message(&mut conn);
    match msg {
        Message::Close(Some(cf)) => assert_eq!(cf.code, CloseCode::ProtocolError),
        other => panic!("expected a close message, got {:?}", other),
    }
}

#[test]
fn test_send_text_message_server() {
    let mut conn = server();
    conn.send(Message::text("Hello".to_string())).unwrap();
    let written = conn.take_output();
    assert_eq!(written[0], 0x81);
    assert_eq!(written[1], 0x05);
    assert_eq!(&written[2..7], b"Hello");
}

#[test]
fn test_send_binary_message_server() {
    let mut conn = server();
    conn.send(Message::binary(vec![1, 2, 3])).unwrap();
    let written = conn.take_output();
    assert_eq!(written[0], 0x82);
    assert_eq!(written[1], 0x03);
    assert_eq!(&written[2..5], &[1, 2, 3]);
}

#[test]
fn test_send_batch_two_messages() {
    let mut conn = server();
    conn.send_batch(vec![
        Message::text("One".to_string()),
        Message::text("Two".to_string()),
    ])
    .unwrap();
    let written = conn.take_output();
    assert_eq!(written[0], 0x81);
    assert_eq!(written[1], 0x03);
    assert_eq!(&written[2..5], b"One");
    assert_eq!(written[5], 0x81);
    assert_eq!(written[6], 0x03);
    assert_eq!(&written[7..10], b"Two");
}

#[test]
fn test_state_transitions_on_close() {
    let mut conn = server();
    assert_eq!(conn.state(), ConnectionState::Open);
    assert!(conn.is_open());

    conn.close(CloseCode::Normal, "goodbye").unwrap();
    assert_eq!(conn.state(), ConnectionState::Closing);
    assert!(!conn.is_open());

    let written = conn.take_output();
    assert_eq!(written[0], 0x88);
}

#[test]
fn test_send_after_close_fails() {
    let mut conn = server();
    conn.close(CloseCode::Normal, "bye").unwrap();

    let result = conn.send(Message::text("test".to_string()));
    assert!(result.is_err());
}

#[test]
fn test_reserved_close_code_rejected() {
    let mut conn = server();
    let result = conn.close(CloseCode::Other(1005), "");
    assert!(result.is_err());
    assert_eq!(conn.state(), ConnectionState::Open);
}

#[test]
fn test_recv_after_close_returns_closed() {
    let mut conn = server();
    conn.feed(&[0x88, 0x80, 0x00, 0x00, 0x00, 0x00]);
    let _ = conn.recv().unwrap();
    match conn.recv().unwrap() {
        RecvStatus::Closed => {}
        _ => panic!("expected the closed status"),
    }
}

#[test]
fn test_eof_closes_connection() {
    let mut conn = server();
    conn.on_eof();
    assert_eq!(conn.state(), ConnectionState::Closed);
    match conn.recv().unwrap() {
        RecvStatus::Closed => {}
        _ => panic!("expected the closed status"),
    }
}

#[test]
fn test_client_masks_outgoing_frames() {
    let mut conn = client();
    conn.send(Message::text("Hi".to_string())).unwrap();
    let written = conn.take_output();
    assert_eq!(written[0], 0x81);
    assert_eq!(written[1], 0x82);
    assert_eq!(written.len(), 8);
}

#[test]
fn test_client_mask_keys_differ_between_frames() {
    let mut conn = client();
    conn.send(Message::text("x".to_string())).unwrap();
    conn.send(Message::text("x".to_string())).unwrap();
    let written = conn.take_output();
    // Each frame: 2 header bytes + 4 mask bytes + 1 payload byte.
    let mask1 = &written[2..6];
    let mask2 = &written[9..13];
    assert_ne!(mask1, mask2);
}

#[test]
fn test_masks_differ_between_connections() {
    let mut seen = std::collections::HashSet::new();
    for _ in 0..5 {
        let mut conn = client();
        conn.send(Message::text("x".to_string())).unwrap();
        let written = conn.take_output();
        let mask: [u8; 4] = [written[2], written[3], written[4], written[5]];
        seen.insert(mask);
    }
    assert!(seen.len() >= 2, "different connections should mask differently");
}

#[test]
fn test_large_message_is_fragmented() {
    let mut conn = server();
    let payload = vec![0x41u8; 40000];
    conn.send(Message::binary(payload)).unwrap();
    let written = conn.take_output();
    // First frame: 16 KiB fragment, not final, binary.
    assert_eq!(written[0], 0x02);
    assert_eq!(written[1], 0x7E);
    assert_eq!(u16::from_be_bytes([written[2], written[3]]), 16384);
}

#[test]
fn test_oversized_message_rejected() {
    let mut conn = {
        let config = Config::server().with_limits(rsws::Limits::new(1024, 100, 16, 4096));
        Connection::<DeflateExtension>::new(Role::Server, config)
    };
    let result = conn.send(Message::binary(vec![0u8; 200]));
    assert!(result.is_err());
}

#[test]
fn test_server_rejects_unmasked_frame() {
    let mut conn = server();
    conn.feed(&[0x81, 0x05, 0x48, 0x65, 0x6C, 0x6C, 0x6F]);
    assert!(conn.recv().is_err());
}

#[test]
fn test_recv_needs_more_data_midframe() {
    let mut conn = client();
    conn.feed(&[0x81]);
    match conn.recv().unwrap() {
        RecvStatus::NeedMoreData => {}
        _ => panic!("expected the engine to want more data"),
    }
    conn.feed(&[0x03, 0x48, 0x69, 0x21]);
    let msg = expect_message(&mut conn);
    assert!(matches!(msg, Message::Text(s) if s == "Hi!"));
}
