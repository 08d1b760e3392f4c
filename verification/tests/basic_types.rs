//! Tests of the opcode, role, state, message and error types.

use rsws::{CloseCode, CloseFrame, Config, ConnectionState, Error, Limits, Message, OpCode, Role};

fn assert_send<T: Send>() {}
fn assert_sync<T: Sync>() {}

#[test]
fn test_public_types_are_send() {
    assert_send::<Error>();
    assert_send::<Config>();
    assert_send::<Limits>();
    assert_send::<Message>();
    assert_send::<CloseCode>();
    assert_send::<CloseFrame>();
    assert_send::<ConnectionState>();
    assert_send::<Role>();
}

#[test]
fn test_public_types_are_sync() {
    assert_sync::<Error>();
    assert_sync::<Config>();
    assert_sync::<Limits>();
    assert_sync::<Message>();
    assert_sync::<CloseCode>();
    assert_sync::<CloseFrame>();
    assert_sync::<ConnectionState>();
    assert_sync::<Role>();
}

#[test]
fn test_opcode_from_u8_valid() {
    assert_eq!(OpCode::from_u8(0x0).unwrap(), OpCode::Continuation);
    assert_eq!(OpCode::from_u8(0x1).unwrap(), OpCode::Text);
    assert_eq!(OpCode::from_u8(0x2).unwrap(), OpCode::Binary);
    assert_eq!(OpCode::from_u8(0x8).unwrap(), OpCode::Close);
    assert_eq!(OpCode::from_u8(0x9).unwrap(), OpCode::Ping);
    assert_eq!(OpCode::from_u8(0xA).unwrap(), OpCode::Pong);
}

#[test]
fn test_opcode_from_u8_reserved() {
    for reserved in [0x3, 0x4, 0x5, 0x6, 0x7, 0xB, 0xC, 0xD, 0xE, 0xF] {
        assert!(matches!(
            OpCode::from_u8(reserved),
            Err(Error::ReservedOpcode(_))
        ));
    }
}

#[test]
fn test_opcode_as_u8() {
    assert_eq!(OpCode::Text.as_u8(), 0x1);
    assert_eq!(OpCode::Binary.as_u8(), 0x2);
    assert_eq!(OpCode::Close.as_u8(), 0x8);
}

#[test]
fn test_opcode_is_control() {
    assert!(!OpCode::Continuation.is_control());
    assert!(!OpCode::Text.is_control());
    assert!(!OpCode::Binary.is_control());
    assert!(OpCode::Close.is_control());
    assert!(OpCode::Ping.is_control());
    assert!(OpCode::Pong.is_control());
}

#[test]
fn test_opcode_is_data() {
    assert!(OpCode::Continuation.is_data());
    assert!(OpCode::Text.is_data());
    assert!(OpCode::Binary.is_data());
    assert!(!OpCode::Close.is_data());
    assert!(!OpCode::Ping.is_data());
    assert!(!OpCode::Pong.is_data());
}

#[test]
fn test_opcode_display() {
    assert_eq!(OpCode::Text.name(), "Text");
    assert_eq!(OpCode::Close.name(), "Close");
}

#[test]
fn test_opcode_debug() {
    assert_eq!(format!("{:?}", OpCode::Ping), "Ping");
}

#[test]
fn test_client_must_mask() {
    assert!(Role::Client.must_mask());
}

#[test]
fn test_server_must_not_mask() {
    assert!(!Role::Server.must_mask());
}

#[test]
fn test_server_expects_masked() {
    assert!(Role::Server.expects_masked());
}

#[test]
fn test_client_expects_unmasked() {
    assert!(!Role::Client.expects_masked());
}

#[test]
fn test_role_display() {
    assert_eq!(Role::Client.name(), "Client");
    assert_eq!(Role::Server.name(), "Server");
}

#[test]
fn test_role_clone_and_copy() {
    let role = Role::Client;
    let cloned = role.clone();
    let copied = role;
    assert_eq!(role, cloned);
    assert_eq!(role, copied);
}

#[test]
fn test_initial_state() {
    let state = ConnectionState::default();
    assert_eq!(state, ConnectionState::Connecting);
}

#[test]
fn state_test_state_transitions() {
    assert_eq!(ConnectionState::Connecting, ConnectionState::Connecting);
    assert_eq!(ConnectionState::Open, ConnectionState::Open);
    assert_eq!(ConnectionState::Closing, ConnectionState::Closing);
    assert_eq!(ConnectionState::Closed, ConnectionState::Closed);
}

#[test]
fn test_can_send_in_each_state() {
    assert!(!ConnectionState::Connecting.can_send());
    assert!(ConnectionState::Open.can_send());
    assert!(!ConnectionState::Closing.can_send());
    assert!(!ConnectionState::Closed.can_send());
}

#[test]
fn test_can_receive_in_each_state() {
    assert!(!ConnectionState::Connecting.can_receive());
    assert!(ConnectionState::Open.can_receive());
    assert!(ConnectionState::Closing.can_receive());
    assert!(!ConnectionState::Closed.can_receive());
}

#[test]
fn test_is_active() {
    assert!(ConnectionState::Connecting.is_active());
    assert!(ConnectionState::Open.is_active());
    assert!(ConnectionState::Closing.is_active());
    assert!(!ConnectionState::Closed.is_active());
}

#[test]
fn test_state_display() {
    assert_eq!(ConnectionState::Connecting.name(), "Connecting");
    assert_eq!(ConnectionState::Open.name(), "Open");
    assert_eq!(ConnectionState::Closing.name(), "Closing");
    assert_eq!(ConnectionState::Closed.name(), "Closed");
}

#[test]
fn test_state_clone_and_copy() {
    let state = ConnectionState::Open;
    let cloned = state.clone();
    let copied = state;
    assert_eq!(state, cloned);
    assert_eq!(state, copied);
}

#[test]
fn test_error_display() {
    let err = Error::FrameTooLarge {
        size: 20_000_000,
        max: 16_000_000,
    };
    assert_eq!(
        err.message(),
        "Frame too large: 20000000 bytes (max: 16000000)"
    );
}

#[test]
fn test_error_from_io() {
    let io_err = std::io::Error::new(std::io::ErrorKind::BrokenPipe, "pipe broken");
    let ws_err: Error = io_err.into();
    assert!(matches!(ws_err, Error::Io(_)));
}

#[test]
fn test_error_clone() {
    let err = Error::InvalidUtf8;
    let cloned = err.clone();
    assert_eq!(err, cloned);
}

#[test]
fn test_message_text_creation() {
    let msg = Message::text("hello".to_string());
    assert!(matches!(msg, Message::Text(s) if s == "hello"));

    let msg = Message::text(String::from("world"));
    assert!(matches!(msg, Message::Text(s) if s == "world"));
}

#[test]
fn test_message_binary_creation() {
    let msg = Message::binary(vec![1, 2, 3]);
    assert!(matches!(msg, Message::Binary(ref d) if d == &[1, 2, 3]));

    let msg = Message::binary(vec![4, 5, 6]);
    assert!(matches!(msg, Message::Binary(ref d) if d == &[4, 5, 6]));
}

#[test]
fn test_message_ping_pong() {
    let ping = Message::ping(vec![1, 2, 3]);
    assert!(matches!(ping, Message::Ping(ref d) if d == &[1, 2, 3]));

    let pong = Message::pong(vec![1, 2, 3]);
    assert!(matches!(pong, Message::Pong(ref d) if d == &[1, 2, 3]));
}

#[test]
fn test_message_close_with_code() {
    let msg = Message::close(CloseCode::Normal, "goodbye".to_string());
    match msg {
        Message::Close(Some(frame)) => {
            assert_eq!(frame.code, CloseCode::Normal);
            assert_eq!(frame.reason, "goodbye");
        }
        _ => panic!("Expected Close message with frame"),
    }
}

#[test]
fn test_message_close_without_code() {
    let msg = Message::Close(None);
    assert!(matches!(msg, Message::Close(None)));
}

#[test]
fn test_message_is_data() {
    assert!(Message::text("hello".to_string()).is_data());
    assert!(Message::binary(vec![1]).is_data());
    assert!(!Message::ping(vec![]).is_data());
    assert!(!Message::pong(vec![]).is_data());
    assert!(!Message::Close(None).is_data());
}

#[test]
fn test_message_is_control() {
    assert!(!Message::text("hello".to_string()).is_control());
    assert!(!Message::binary(vec![1]).is_control());
    assert!(Message::ping(vec![]).is_control());
    assert!(Message::pong(vec![]).is_control());
    assert!(Message::Close(None).is_control());
}

#[test]
fn test_message_into_text() {
    let msg = Message::text("hello".to_string());
    assert_eq!(msg.into_text(), Some(String::from("hello")));

    let msg = Message::binary(vec![1]);
    assert_eq!(msg.into_text(), None);
}

#[test]
fn test_message_into_binary() {
    let msg = Message::binary(vec![1, 2, 3]);
    assert_eq!(msg.into_binary(), Some(vec![1, 2, 3]));

    let msg = Message::text("hello".to_string());
    assert_eq!(msg.into_binary(), None);
}

#[test]
fn test_message_as_text() {
    let msg = Message::text("hello".to_string());
    assert_eq!(msg.as_text(), Some("hello"));

    let msg = Message::binary(vec![1]);
    assert_eq!(msg.as_text(), None);
}

#[test]
fn test_message_as_binary() {
    let msg = Message::binary(vec![1, 2, 3]);
    assert_eq!(msg.as_binary().map(|v| v.as_slice()), Some([1, 2, 3].as_slice()));

    let msg = Message::text("hello".to_string());
    assert!(msg.as_binary().is_none());
}

#[test]
fn test_close_code_from_u16() {
    assert_eq!(CloseCode::from_u16(1000), CloseCode::Normal);
    assert_eq!(CloseCode::from_u16(1001), CloseCode::GoingAway);
    assert_eq!(CloseCode::from_u16(1002), CloseCode::ProtocolError);
    assert_eq!(CloseCode::from_u16(1003), CloseCode::UnsupportedData);
    assert_eq!(CloseCode::from_u16(1007), CloseCode::InvalidPayload);
    assert_eq!(CloseCode::from_u16(1008), CloseCode::PolicyViolation);
    assert_eq!(CloseCode::from_u16(1009), CloseCode::MessageTooBig);
    assert_eq!(CloseCode::from_u16(1010), CloseCode::MandatoryExtension);
    assert_eq!(CloseCode::from_u16(1011), CloseCode::InternalError);
    assert_eq!(CloseCode::from_u16(3000), CloseCode::Other(3000));
    assert_eq!(CloseCode::from_u16(4999), CloseCode::Other(4999));
}

#[test]
fn test_close_code_as_u16() {
    assert_eq!(CloseCode::Normal.as_u16(), 1000);
    assert_eq!(CloseCode::GoingAway.as_u16(), 1001);
    assert_eq!(CloseCode::ProtocolError.as_u16(), 1002);
    assert_eq!(CloseCode::Other(3500).as_u16(), 3500);
}

#[test]
fn test_close_code_validity() {
    assert!(CloseCode::Normal.is_valid());
    assert!(CloseCode::GoingAway.is_valid());
    assert!(CloseCode::ProtocolError.is_valid());
    assert!(CloseCode::UnsupportedData.is_valid());
    assert!(CloseCode::InvalidPayload.is_valid());
    assert!(CloseCode::PolicyViolation.is_valid());
    assert!(CloseCode::MessageTooBig.is_valid());
    assert!(CloseCode::MandatoryExtension.is_valid());
    assert!(CloseCode::InternalError.is_valid());

    assert!(CloseCode::Other(1012).is_valid());
    assert!(CloseCode::Other(1013).is_valid());
    assert!(CloseCode::Other(1014).is_valid());

    assert!(CloseCode::Other(3000).is_valid());
    assert!(CloseCode::Other(4999).is_valid());

    assert!(!CloseCode::Other(0).is_valid());
    assert!(!CloseCode::Other(999).is_valid());
    assert!(!CloseCode::Other(1004).is_valid());
    assert!(!CloseCode::Other(1005).is_valid());
    assert!(!CloseCode::Other(1006).is_valid());
    assert!(!CloseCode::Other(1015).is_valid());
    assert!(!CloseCode::Other(2999).is_valid());
    assert!(!CloseCode::Other(5000).is_valid());
}

#[test]
fn test_close_code_reserved() {
    assert!(CloseCode::Other(1004).is_reserved());
    assert!(CloseCode::Other(1005).is_reserved());
    assert!(CloseCode::Other(1006).is_reserved());
    assert!(CloseCode::Other(1015).is_reserved());

    assert!(!CloseCode::Normal.is_reserved());
    assert!(!CloseCode::Other(1012).is_reserved());
    assert!(!CloseCode::Other(3000).is_reserved());
}

#[test]
fn test_message_is_text() {
    assert!(Message::text("hello".to_string()).is_text());
    assert!(!Message::binary(vec![1]).is_text());
    assert!(!Message::ping(vec![]).is_text());
}

#[test]
fn test_message_is_binary() {
    assert!(Message::binary(vec![1]).is_binary());
    assert!(!Message::text("hello".to_string()).is_binary());
    assert!(!Message::pong(vec![]).is_binary());
}
