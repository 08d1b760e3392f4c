//! Tests of message reassembly and outgoing fragmentation.

use rsws::protocol::assembler::{AssembledMessage, MessageAssembler};
use rsws::protocol::Frame;
use rsws::connection::MessageFragmenter;
use rsws::{Config, Error, Limits, OpCode};

fn test_config() -> Config {
    Config::new()
}

fn small_limits_config() -> Config {
    Config::new().with_limits(Limits::new(1024, 100, 3, 4096))
}

#[test]
fn test_single_frame_message() {
    let mut assembler = MessageAssembler::new(test_config());
    let frame = Frame::text(b"Hello".to_vec());

    let result = assembler.push(frame).unwrap();
    assert!(result.is_some());

    let msg = result.unwrap();
    assert_eq!(msg.opcode, OpCode::Text);
    assert_eq!(msg.payload, b"Hello");
    assert!(!assembler.is_assembling());
}

#[test]
fn test_two_fragment_message() {
    let mut assembler = MessageAssembler::new(test_config());

    let frame1 = Frame::new(false, OpCode::Text, b"Hel".to_vec());
    assert!(assembler.push(frame1).unwrap().is_none());
    assert!(assembler.is_assembling());

    let frame2 = Frame::new(true, OpCode::Continuation, b"lo".to_vec());
    let result = assembler.push(frame2).unwrap();
    assert!(result.is_some());

    let msg = result.unwrap();
    assert_eq!(msg.opcode, OpCode::Text);
    assert_eq!(msg.payload, b"Hello");
}

#[test]
fn test_many_fragments() {
    let mut assembler = MessageAssembler::new(test_config());

    let frame1 = Frame::new(false, OpCode::Binary, vec![1, 2]);
    assert!(assembler.push(frame1).unwrap().is_none());

    let frame2 = Frame::new(false, OpCode::Continuation, vec![3, 4]);
    assert!(assembler.push(frame2).unwrap().is_none());

    let frame3 = Frame::new(false, OpCode::Continuation, vec![5, 6]);
    assert!(assembler.push(frame3).unwrap().is_none());

    let frame4 = Frame::new(true, OpCode::Continuation, vec![7, 8]);
    let result = assembler.push(frame4).unwrap();

    let msg = result.unwrap();
    assert_eq!(msg.opcode, OpCode::Binary);
    assert_eq!(msg.payload, vec![1, 2, 3, 4, 5, 6, 7, 8]);
}

#[test]
fn test_interleaved_control_frame() {
    let mut assembler = MessageAssembler::new(test_config());

    let frame1 = Frame::new(false, OpCode::Text, b"Hel".to_vec());
    assert!(assembler.push(frame1).unwrap().is_none());

    let ping = Frame::ping(b"ping".to_vec());
    assert!(assembler.push(ping).unwrap().is_none());
    assert!(assembler.is_assembling());

    let frame2 = Frame::new(true, OpCode::Continuation, b"lo".to_vec());
    let result = assembler.push(frame2).unwrap();

    let msg = result.unwrap();
    assert_eq!(msg.payload, b"Hello");
}

#[test]
fn test_max_message_size_exceeded() {
    let mut assembler = MessageAssembler::new(small_limits_config());

    let frame = Frame::text(vec![0u8; 150]);
    let result = assembler.push(frame);

    assert!(matches!(result, Err(Error::MessageTooLarge { .. })));
}

#[test]
fn test_max_fragment_count_exceeded() {
    let mut assembler = MessageAssembler::new(small_limits_config());

    let f1 = Frame::new(false, OpCode::Binary, vec![1]);
    let f2 = Frame::new(false, OpCode::Continuation, vec![2]);
    let f3 = Frame::new(false, OpCode::Continuation, vec![3]);
    let f4 = Frame::new(true, OpCode::Continuation, vec![4]);

    assert!(assembler.push(f1).is_ok());
    assert!(assembler.push(f2).is_ok());
    assert!(assembler.push(f3).is_ok());

    let result = assembler.push(f4);
    assert!(matches!(result, Err(Error::TooManyFragments { .. })));
}

#[test]
fn test_continuation_without_start_fails() {
    let mut assembler = MessageAssembler::new(test_config());

    let frame = Frame::new(true, OpCode::Continuation, b"data".to_vec());
    let result = assembler.push(frame);

    assert!(matches!(result, Err(Error::ProtocolViolation(_))));
}

#[test]
fn test_text_message_utf8_validation() {
    let mut assembler = MessageAssembler::new(test_config());

    let frame1 = Frame::new(false, OpCode::Text, vec![0xf0, 0x9f]);
    assert!(assembler.push(frame1).is_ok());

    let frame2 = Frame::new(true, OpCode::Continuation, vec![0x8e, 0x89]);
    let result = assembler.push(frame2).unwrap();

    let msg = result.unwrap();
    assert_eq!(msg.into_text().unwrap(), "\u{1f389}");
}

#[test]
fn test_text_message_invalid_utf8_fails() {
    let mut assembler = MessageAssembler::new(test_config());

    let frame = Frame::new(true, OpCode::Text, vec![0x80, 0x81]);
    let result = assembler.push(frame);

    assert!(matches!(result, Err(Error::InvalidUtf8)));
}

#[test]
fn test_binary_message_no_utf8_validation() {
    let mut assembler = MessageAssembler::new(test_config());

    let frame = Frame::new(true, OpCode::Binary, vec![0x80, 0x81, 0xff]);
    let result = assembler.push(frame).unwrap();

    let msg = result.unwrap();
    assert_eq!(msg.opcode, OpCode::Binary);
    assert_eq!(msg.into_binary(), vec![0x80, 0x81, 0xff]);
}

#[test]
fn test_assembled_message_into_text() {
    let msg = AssembledMessage {
        opcode: OpCode::Text,
        payload: b"Hello".to_vec(),
        rsv1: false,
    };
    assert_eq!(msg.into_text().unwrap(), "Hello");
}

#[test]
fn test_reset() {
    let mut assembler = MessageAssembler::new(test_config());

    let frame1 = Frame::new(false, OpCode::Text, b"partial".to_vec());
    assembler.push(frame1).unwrap();
    assert!(assembler.is_assembling());

    assembler.reset();
    assert!(!assembler.is_assembling());

    let frame2 = Frame::text(b"fresh".to_vec());
    let result = assembler.push(frame2).unwrap();
    assert!(result.is_some());
}

#[test]
fn test_new_message_without_continuation_fails() {
    let mut assembler = MessageAssembler::new(test_config());

    let frame1 = Frame::new(false, OpCode::Text, b"first".to_vec());
    assembler.push(frame1).unwrap();

    let frame2 = Frame::new(true, OpCode::Text, b"second".to_vec());
    let result = assembler.push(frame2);

    assert!(matches!(result, Err(Error::ProtocolViolation(_))));
}

#[test]
fn test_reassembly_single_allocation() {
    let mut assembler = MessageAssembler::new(test_config());

    let frame1 = Frame::new(false, OpCode::Binary, vec![1, 2, 3, 4]);
    assert!(assembler.push(frame1).unwrap().is_none());

    let frame2 = Frame::new(false, OpCode::Continuation, vec![5, 6, 7, 8]);
    assert!(assembler.push(frame2).unwrap().is_none());

    let frame3 = Frame::new(true, OpCode::Continuation, vec![9, 10, 11, 12]);
    let result = assembler.push(frame3).unwrap();

    let msg = result.unwrap();
    assert_eq!(msg.opcode, OpCode::Binary);
    assert_eq!(msg.payload, vec![1, 2, 3, 4, 5, 6, 7, 8, 9, 10, 11, 12]);

    assert!(!assembler.is_assembling());
}

fn collect_frames(mut frag: MessageFragmenter) -> Vec<Frame> {
    let mut frames = Vec::new();
    while let Some(f) = frag.next() {
        frames.push(f);
    }
    frames
}

#[test]
fn test_no_fragmentation_needed() {
    let payload = b"Hello".to_vec();
    let frag = MessageFragmenter::new(payload, OpCode::Text, 1024);

    assert!(!frag.needs_fragmentation());

    let frames = collect_frames(frag);
    assert_eq!(frames.len(), 1);
    assert!(frames[0].fin);
    assert_eq!(frames[0].opcode, OpCode::Text);
    assert_eq!(frames[0].payload().as_slice(), b"Hello");
}

#[test]
fn test_exact_fragmentation() {
    let payload = vec![0xAB; 30];
    let frag = MessageFragmenter::new(payload, OpCode::Binary, 10);

    assert!(frag.needs_fragmentation());

    let frames = collect_frames(frag);
    assert_eq!(frames.len(), 3);

    assert!(!frames[0].fin);
    assert_eq!(frames[0].opcode, OpCode::Binary);
    assert_eq!(frames[0].payload().len(), 10);

    assert!(!frames[1].fin);
    assert_eq!(frames[1].opcode, OpCode::Continuation);
    assert_eq!(frames[1].payload().len(), 10);

    assert!(frames[2].fin);
    assert_eq!(frames[2].opcode, OpCode::Continuation);
    assert_eq!(frames[2].payload().len(), 10);
}

#[test]
fn test_uneven_fragmentation() {
    let payload = vec![0xCD; 25];
    let frag = MessageFragmenter::new(payload, OpCode::Binary, 10);

    let frames = collect_frames(frag);
    assert_eq!(frames.len(), 3);

    assert_eq!(frames[0].payload().len(), 10);
    assert_eq!(frames[1].payload().len(), 10);
    assert_eq!(frames[2].payload().len(), 5);
    assert!(frames[2].fin);
}

#[test]
fn test_empty_payload() {
    let payload = Vec::new();
    let frag = MessageFragmenter::new(payload, OpCode::Text, 1024);

    let frames = collect_frames(frag);
    assert_eq!(frames.len(), 1);
    assert!(frames[0].fin);
    assert_eq!(frames[0].payload().len(), 0);
}

#[test]
fn test_payload_equals_fragment_size() {
    let payload = vec![0xEF; 100];
    let frag = MessageFragmenter::new(payload, OpCode::Binary, 100);

    assert!(!frag.needs_fragmentation());

    let frames = collect_frames(frag);
    assert_eq!(frames.len(), 1);
    assert!(frames[0].fin);
    assert_eq!(frames[0].payload().len(), 100);
}

#[test]
fn test_text_fragmentation() {
    let text = "A".repeat(25);
    let frag = MessageFragmenter::new(text.as_bytes().to_vec(), OpCode::Text, 10);

    let frames = collect_frames(frag);
    assert_eq!(frames.len(), 3);

    assert_eq!(frames[0].opcode, OpCode::Text);
    assert_eq!(frames[1].opcode, OpCode::Continuation);
    assert_eq!(frames[2].opcode, OpCode::Continuation);
}

#[test]
fn test_remaining_bytes() {
    let payload = vec![0xAB; 30];
    let mut frag = MessageFragmenter::new(payload, OpCode::Binary, 10);

    assert_eq!(frag.remaining(), 30);
    frag.next();
    assert_eq!(frag.remaining(), 20);
    frag.next();
    assert_eq!(frag.remaining(), 10);
    frag.next();
    assert_eq!(frag.remaining(), 0);
}

#[test]
fn test_fragments_concatenate_to_payload() {
    let payload: Vec<u8> = (0..97u8).collect();
    let frag = MessageFragmenter::new(payload.clone(), OpCode::Binary, 8);
    let frames = collect_frames(frag);
    let mut joined: Vec<u8> = Vec::new();
    for f in &frames {
        joined.extend_from_slice(f.payload().as_slice());
    }
    assert_eq!(joined, payload);
    for (i, f) in frames.iter().enumerate() {
        assert_eq!(f.fin, i == frames.len() - 1);
    }
}
