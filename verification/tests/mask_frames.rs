//! Tests of the masking routines and the frame codec.

use rsws::protocol::mask::{apply_mask, apply_mask_fast};
use rsws::protocol::Frame;
use rsws::{Error, OpCode};

#[test]
fn test_masking_reversible() {
    let mask = [0x12, 0x34, 0x56, 0x78];
    let original = b"Hello, WebSocket!".to_vec();
    let mut data = original.clone();

    apply_mask(&mut data, mask);
    assert_ne!(data, original);

    apply_mask(&mut data, mask);
    assert_eq!(data, original);
}

#[test]
fn test_masking_example_from_rfc() {
    let mask = [0x37, 0xfa, 0x21, 0x3d];
    let mut data = b"Hello".to_vec();

    apply_mask(&mut data, mask);
    assert_eq!(data, vec![0x7f, 0x9f, 0x4d, 0x51, 0x58]);
}

#[test]
fn test_masking_empty() {
    let mask = [0x12, 0x34, 0x56, 0x78];
    let mut data: Vec<u8> = vec![];
    apply_mask(&mut data, mask);
    assert_eq!(data, Vec::<u8>::new());
}

#[test]
fn test_masking_single_byte() {
    let mask = [0xff, 0x00, 0x00, 0x00];
    let mut data = vec![0xaa];
    apply_mask(&mut data, mask);
    assert_eq!(data, vec![0x55]);
}

#[test]
fn test_masking_aligned() {
    let mask = [0x11, 0x22, 0x33, 0x44];
    let mut data = vec![0x00; 8];
    apply_mask(&mut data, mask);
    assert_eq!(data, vec![0x11, 0x22, 0x33, 0x44, 0x11, 0x22, 0x33, 0x44]);
}

#[test]
fn test_masking_fast_equivalent() {
    let mask = [0xab, 0xcd, 0xef, 0x12];
    let original = b"The quick brown fox jumps over the lazy dog".to_vec();

    let mut data1 = original.clone();
    let mut data2 = original.clone();

    apply_mask(&mut data1, mask);
    apply_mask_fast(&mut data2, mask);

    assert_eq!(data1, data2);
}

#[test]
fn test_masking_simd_equivalent() {
    let mask = [0xab, 0xcd, 0xef, 0x12];
    let test_sizes = [
        0, 1, 2, 3, 4, 5, 7, 8, 15, 16, 17, 31, 32, 33, 63, 64, 65, 100, 127, 128, 129, 255,
        256, 257, 511, 512, 513, 1000, 1024, 4096,
    ];
    for size in test_sizes {
        let original: Vec<u8> = (0..size).map(|i| (i & 0xff) as u8).collect();
        let mut data_bytewise = original.clone();
        let mut data_wordwise = original.clone();
        apply_mask(&mut data_bytewise, mask);
        apply_mask_fast(&mut data_wordwise, mask);
        assert_eq!(data_bytewise, data_wordwise, "SIMD mismatch at size {}", size);
    }
}

#[test]
fn test_parse_unmasked_text_frame() {
    let data = &[0x81, 0x05, 0x48, 0x65, 0x6c, 0x6c, 0x6f];
    let (frame, len) = Frame::parse(data).unwrap();
    assert_eq!(len, 7);
    assert!(frame.fin);
    assert!(!frame.rsv1);
    assert!(!frame.rsv2);
    assert!(!frame.rsv3);
    assert_eq!(frame.opcode, OpCode::Text);
    assert_eq!(frame.payload().as_slice(), b"Hello");
}

#[test]
fn test_parse_masked_text_frame() {
    let data = &[
        0x81, 0x85, 0x37, 0xfa, 0x21, 0x3d, 0x7f, 0x9f, 0x4d, 0x51, 0x58,
    ];
    let (frame, len) = Frame::parse(data).unwrap();
    assert_eq!(len, 11);
    assert!(frame.fin);
    assert_eq!(frame.opcode, OpCode::Text);
    assert_eq!(frame.payload().as_slice(), b"Hello");
}

#[test]
fn test_parse_binary_frame() {
    let data = &[0x82, 0x03, 0x01, 0x02, 0x03];
    let (frame, len) = Frame::parse(data).unwrap();
    assert_eq!(len, 5);
    assert!(frame.fin);
    assert_eq!(frame.opcode, OpCode::Binary);
    assert_eq!(frame.payload().as_slice(), &[0x01, 0x02, 0x03]);
}

#[test]
fn test_parse_close_frame() {
    let data = &[0x88, 0x02, 0x03, 0xe8];
    let (frame, len) = Frame::parse(data).unwrap();
    assert_eq!(len, 4);
    assert!(frame.fin);
    assert_eq!(frame.opcode, OpCode::Close);
    assert_eq!(frame.payload().as_slice(), &[0x03, 0xe8]);
}

#[test]
fn test_parse_ping_frame() {
    let data = &[0x89, 0x04, 0x70, 0x69, 0x6e, 0x67];
    let (frame, len) = Frame::parse(data).unwrap();
    assert_eq!(len, 6);
    assert!(frame.fin);
    assert_eq!(frame.opcode, OpCode::Ping);
    assert_eq!(frame.payload().as_slice(), b"ping");
}

#[test]
fn test_parse_pong_frame() {
    let data = &[0x8a, 0x04, 0x70, 0x6f, 0x6e, 0x67];
    let (frame, len) = Frame::parse(data).unwrap();
    assert_eq!(len, 6);
    assert!(frame.fin);
    assert_eq!(frame.opcode, OpCode::Pong);
    assert_eq!(frame.payload().as_slice(), b"pong");
}

#[test]
fn test_parse_fragmented_frame() {
    let data = &[0x01, 0x03, 0x48, 0x65, 0x6c];
    let (frame, len) = Frame::parse(data).unwrap();
    assert_eq!(len, 5);
    assert!(!frame.fin);
    assert_eq!(frame.opcode, OpCode::Text);
    assert_eq!(frame.payload().as_slice(), b"Hel");
}

#[test]
fn test_parse_continuation_frame() {
    let data = &[0x80, 0x02, 0x6c, 0x6f];
    let (frame, len) = Frame::parse(data).unwrap();
    assert_eq!(len, 4);
    assert!(frame.fin);
    assert_eq!(frame.opcode, OpCode::Continuation);
    assert_eq!(frame.payload().as_slice(), b"lo");
}

#[test]
fn test_parse_extended_length_126() {
    let mut data = vec![0x82, 0x7e, 0x01, 0x00];
    data.extend(vec![0xab; 256]);

    let (frame, len) = Frame::parse(&data).unwrap();
    assert_eq!(len, 4 + 256);
    assert!(frame.fin);
    assert_eq!(frame.opcode, OpCode::Binary);
    assert_eq!(frame.payload().len(), 256);
    assert!(frame.payload().iter().all(|&b| b == 0xab));
}

#[test]
fn test_parse_extended_length_127() {
    let mut data = vec![0x82, 0x7f];
    data.extend(65536u64.to_be_bytes());
    data.extend(vec![0xcd; 65536]);

    let (frame, len) = Frame::parse(&data).unwrap();
    assert_eq!(len, 10 + 65536);
    assert!(frame.fin);
    assert_eq!(frame.opcode, OpCode::Binary);
    assert_eq!(frame.payload().len(), 65536);
    assert!(frame.payload().iter().all(|&b| b == 0xcd));
}

#[test]
fn test_parse_empty_payload() {
    let data = &[0x81, 0x00];
    let (frame, len) = Frame::parse(data).unwrap();
    assert_eq!(len, 2);
    assert!(frame.fin);
    assert_eq!(frame.opcode, OpCode::Text);
    assert_eq!(frame.payload().as_slice(), b"");
}

#[test]
fn test_validate_fragmented_control_frame() {
    let mut frame = Frame::ping(b"test".to_vec());
    frame.fin = false;

    let result = frame.validate();
    assert!(matches!(result, Err(Error::FragmentedControlFrame)));
}

#[test]
fn test_validate_control_frame_too_large() {
    let frame = Frame::ping(vec![0u8; 126]);

    let result = frame.validate();
    assert!(matches!(result, Err(Error::ControlFrameTooLarge(126))));
}

#[test]
fn test_validate_reserved_bits_set() {
    let mut frame = Frame::text(b"test".to_vec());
    frame.rsv1 = true;

    let result = frame.validate();
    assert!(matches!(result, Err(Error::ReservedBitsSet)));
}

#[test]
fn test_parse_invalid_opcode() {
    let data = &[0x83, 0x00];
    let result = Frame::parse(data);
    assert!(matches!(result, Err(Error::ReservedOpcode(0x03))));
}

#[test]
fn test_parse_reserved_opcode() {
    let data = &[0x8b, 0x00];
    let result = Frame::parse(data);
    assert!(matches!(result, Err(Error::ReservedOpcode(0x0B))));
}

#[test]
fn test_parse_incomplete_header() {
    let data = &[0x81];
    let result = Frame::parse(data);
    assert!(matches!(result, Err(Error::IncompleteFrame { needed: 1 })));
}

#[test]
fn test_parse_incomplete_payload() {
    let data = &[0x81, 0x05, 0x48, 0x65, 0x6c];
    let result = Frame::parse(data);
    assert!(matches!(result, Err(Error::IncompleteFrame { needed: 2 })));
}

#[test]
fn test_parse_incomplete_extended_length_126() {
    let data = &[0x82, 0x7e, 0x01];
    let result = Frame::parse(data);
    assert!(matches!(result, Err(Error::IncompleteFrame { needed: 1 })));
}

#[test]
fn test_parse_incomplete_extended_length_127() {
    let data = &[0x82, 0x7f, 0x00, 0x00, 0x00];
    let result = Frame::parse(data);
    assert!(matches!(result, Err(Error::IncompleteFrame { needed: 5 })));
}

#[test]
fn test_write_unmasked_text_frame() {
    let frame = Frame::text(b"Hello".to_vec());
    let mut buf = vec![0u8; 32];

    let len = frame.write(&mut buf, None).unwrap();

    assert_eq!(len, 7);
    assert_eq!(&buf[..7], &[0x81, 0x05, 0x48, 0x65, 0x6c, 0x6c, 0x6f]);
}

#[test]
fn test_write_masked_text_frame() {
    let frame = Frame::text(b"Hello".to_vec());
    let mask = [0x37, 0xfa, 0x21, 0x3d];
    let mut buf = vec![0u8; 32];

    let len = frame.write(&mut buf, Some(mask)).unwrap();

    assert_eq!(len, 11);
    assert_eq!(buf[0], 0x81);
    assert_eq!(buf[1], 0x85);
    assert_eq!(&buf[2..6], &mask);
    assert_eq!(&buf[6..11], &[0x7f, 0x9f, 0x4d, 0x51, 0x58]);
}

#[test]
fn test_write_extended_length_126() {
    let payload = vec![0xab; 256];
    let frame = Frame::binary(payload);
    let mut buf = vec![0u8; 512];

    let len = frame.write(&mut buf, None).unwrap();

    assert_eq!(len, 4 + 256);
    assert_eq!(buf[0], 0x82);
    assert_eq!(buf[1], 0x7e);
    assert_eq!(&buf[2..4], &[0x01, 0x00]);
    assert!(buf[4..4 + 256].iter().all(|&b| b == 0xab));
}

#[test]
fn test_write_extended_length_127() {
    let payload = vec![0xcd; 65536];
    let frame = Frame::binary(payload);
    let mut buf = vec![0u8; 70000];

    let len = frame.write(&mut buf, None).unwrap();

    assert_eq!(len, 10 + 65536);
    assert_eq!(buf[0], 0x82);
    assert_eq!(buf[1], 0x7f);
    assert_eq!(&buf[2..10], &65536u64.to_be_bytes());
    assert!(buf[10..10 + 65536].iter().all(|&b| b == 0xcd));
}

#[test]
fn test_roundtrip_unmasked() {
    let original = Frame::text(b"WebSocket roundtrip test!".to_vec());
    let mut buf = vec![0u8; 64];

    let written = original.write(&mut buf, None).unwrap();
    let (parsed, consumed) = Frame::parse(&buf[..written]).unwrap();

    assert_eq!(consumed, written);
    assert_eq!(parsed.fin, original.fin);
    assert_eq!(parsed.opcode, original.opcode);
    assert_eq!(parsed.payload(), original.payload());
}

#[test]
fn test_roundtrip_masked() {
    let original = Frame::text(b"Masked roundtrip test!".to_vec());
    let mask = [0x12, 0x34, 0x56, 0x78];
    let mut buf = vec![0u8; 64];

    let written = original.write(&mut buf, Some(mask)).unwrap();
    let (parsed, consumed) = Frame::parse(&buf[..written]).unwrap();

    assert_eq!(consumed, written);
    assert_eq!(parsed.fin, original.fin);
    assert_eq!(parsed.opcode, original.opcode);
    assert_eq!(parsed.payload(), original.payload());
}

#[test]
fn test_write_buffer_too_small() {
    let frame = Frame::text(b"Hello".to_vec());
    let mut buf = vec![0u8; 4];

    let result = frame.write(&mut buf, None);
    assert!(matches!(result, Err(Error::InvalidFrame(_))));
}

#[test]
fn test_wire_size() {
    let frame = Frame::text(b"Hello".to_vec());
    assert_eq!(frame.wire_size(false), 7);
    assert_eq!(frame.wire_size(true), 11);

    let frame = Frame::binary(vec![0u8; 256]);
    assert_eq!(frame.wire_size(false), 260);
    assert_eq!(frame.wire_size(true), 264);

    let frame = Frame::binary(vec![0u8; 65536]);
    assert_eq!(frame.wire_size(false), 65546);
    assert_eq!(frame.wire_size(true), 65550);
}

#[test]
fn test_close_frame_with_reason() {
    let frame = Frame::close(Some(1000), "Normal closure");
    assert_eq!(frame.opcode, OpCode::Close);
    assert!(frame.fin);

    let payload = frame.payload();
    assert_eq!(u16::from_be_bytes([payload[0], payload[1]]), 1000);
    assert_eq!(&payload[2..], b"Normal closure");
}

#[test]
fn test_validate_valid_frame() {
    let frame = Frame::text(b"Valid frame".to_vec());
    assert!(frame.validate().is_ok());

    let ping = Frame::ping(b"ping".to_vec());
    assert!(ping.validate().is_ok());

    let close = Frame::close(Some(1000), "bye");
    assert!(close.validate().is_ok());
}

#[test]
fn test_parse_rsv_bits_set() {
    let data = &[0xc1, 0x00];
    let (frame, _) = Frame::parse(data).unwrap();
    assert!(frame.rsv1);
    assert!(!frame.rsv2);
    assert!(!frame.rsv3);
    assert!(matches!(frame.validate(), Err(Error::ReservedBitsSet)));
}

#[test]
fn test_max_control_frame_payload() {
    let frame = Frame::ping(vec![0u8; 125]);
    assert!(frame.validate().is_ok());
}

#[test]
fn test_into_payload() {
    let frame = Frame::text(b"Owned data".to_vec());
    let payload = frame.into_payload();
    assert_eq!(payload, b"Owned data");
}

#[test]
fn test_parse_incomplete_mask_key() {
    let data = &[0x81, 0x85, 0x37, 0xfa];
    let result = Frame::parse(data);
    assert!(matches!(result, Err(Error::IncompleteFrame { .. })));
}

#[test]
fn test_parse_unmasked_zero_copy() {
    let data = vec![0x81, 0x05, 0x48, 0x65, 0x6c, 0x6c, 0x6f];
    let (frame, len) = Frame::parse_zero_copy(&data).unwrap();
    assert_eq!(len, 7);
    assert!(frame.fin);
    assert_eq!(frame.opcode, OpCode::Text);
    assert_eq!(frame.payload().as_slice(), b"Hello");
}

#[test]
fn test_payload_exceeds_platform_max() {
    let mut data = vec![0x82, 0xFF];
    data.extend_from_slice(&u64::MAX.to_be_bytes());
    data.extend_from_slice(&[0x00, 0x00, 0x00, 0x00]);

    let result = Frame::parse(&data);
    assert!(result.is_err());
}

#[test]
fn test_large_valid_payload_header() {
    let mut data = vec![0x82, 0x7E, 0x01, 0x2C];
    data.extend_from_slice(&vec![0xAB; 300]);

    let result = Frame::parse(&data);
    assert!(result.is_ok());
    let (frame, _) = result.unwrap();
    assert_eq!(frame.payload().len(), 300);
}

#[test]
fn test_concatenated_frames_parse_in_order() {
    let first = Frame::text(b"one".to_vec());
    let second = Frame::binary(vec![9, 8, 7]);
    let mut buf1 = vec![0u8; 16];
    let mut buf2 = vec![0u8; 16];
    let n1 = first.write(&mut buf1, None).unwrap();
    let n2 = second.write(&mut buf2, None).unwrap();
    let mut all = buf1[..n1].to_vec();
    all.extend_from_slice(&buf2[..n2]);

    let (f1, c1) = Frame::parse(&all).unwrap();
    assert_eq!(f1.payload().as_slice(), b"one");
    let (f2, c2) = Frame::parse(&all[c1..]).unwrap();
    assert_eq!(f2.payload().as_slice(), &[9, 8, 7]);
    assert_eq!(c1 + c2, all.len());
}

#[test]
fn test_every_truncation_is_incomplete() {
    let frame = Frame::text(b"truncation check".to_vec());
    let mut buf = vec![0u8; 64];
    let n = frame.write(&mut buf, Some([1, 2, 3, 4])).unwrap();
    for cut in 0..n {
        let result = Frame::parse(&buf[..cut]);
        match result {
            Err(Error::IncompleteFrame { needed }) => assert!(needed > 0),
            other => panic!("expected incomplete frame at cut {}, got {:?}", cut, other.is_ok()),
        }
    }
}
