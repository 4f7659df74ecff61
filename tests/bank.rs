use protohackers::frame::{decode_frame, decode_message, FrameDecoder, Message};
use protohackers::session::Session;
use tokio_util::bytes::BytesMut;

const DIAGNOSTIC: &[u8] = b"undefined behavior";

fn exchange(reads: &[&[u8]]) -> Vec<u8> {
    let mut session = Session::new();
    let mut written = Vec::new();
    for chunk in reads {
        written.extend(session.receive(chunk));
    }
    written.extend(session.finish());
    written
}

fn frame(tag: u8, a: i32, b: i32) -> Vec<u8> {
    let mut f = vec![tag];
    f.extend_from_slice(&a.to_be_bytes());
    f.extend_from_slice(&b.to_be_bytes());
    f
}

#[test]
fn transactions() {
    let written = exchange(&[
        // I 12345 101
        &[0x49, 0x00, 0x00, 0x30, 0x39, 0x00, 0x00, 0x00, 0x65],
        // I 12346 102
        &[0x49, 0x00, 0x00, 0x30, 0x3a, 0x00, 0x00, 0x00, 0x66],
        // I 12347 100
        &[0x49, 0x00, 0x00, 0x30, 0x3b, 0x00, 0x00, 0x00, 0x64],
        // I 40960 5
        &[0x49, 0x00, 0x00, 0xa0, 0x00, 0x00, 0x00, 0x00, 0x05],
        // Q 12288 16384
        &[0x51, 0x00, 0x00, 0x30, 0x00, 0x00, 0x00, 0x40, 0x00],
    ]);
    assert_eq!(written, vec![0x00, 0x00, 0x00, 0x65]);
}

#[test]
fn query_empty_db() {
    let written = exchange(&[
        // Q 12288 16384
        &[0x51, 0x00, 0x00, 0x30, 0x00, 0x00, 0x00, 0x40, 0x00],
    ]);
    assert_eq!(written, vec![0, 0, 0, 0]);
}

#[test]
fn query_min_after_max() {
    let written = exchange(&[
        &[0x49, 0x00, 0x00, 0x30, 0x39, 0x00, 0x00, 0x00, 0x65],
        &[0x49, 0x00, 0x00, 0x30, 0x3a, 0x00, 0x00, 0x00, 0x66],
        &[0x49, 0x00, 0x00, 0x30, 0x3b, 0x00, 0x00, 0x00, 0x64],
        &[0x49, 0x00, 0x00, 0xa0, 0x00, 0x00, 0x00, 0x00, 0x05],
        // Q 16384 12288
        &[0x51, 0x00, 0x00, 0x40, 0x00, 0x00, 0x00, 0x30, 0x00],
    ]);
    assert_eq!(written, vec![0, 0, 0, 0]);
}

#[test]
fn invalid_message_type() {
    let written = exchange(&[
        &[0x49, 0x00, 0x00, 0x30, 0x39, 0x00, 0x00, 0x00, 0x65],
        &[0x49, 0x00, 0x00, 0x30, 0x3a, 0x00, 0x00, 0x00, 0x66],
        &[0x49, 0x00, 0x00, 0x30, 0x3b, 0x00, 0x00, 0x00, 0x64],
        &[0x49, 0x00, 0x00, 0xa0, 0x00, 0x00, 0x00, 0x00, 0x05],
        // P 16384 12288 (invalid)
        &[0x50, 0x00, 0x00, 0xa0, 0x00, 0x00, 0x00, 0x00, 0x05],
        // Q 12288 16384
        &[0x51, 0x00, 0x00, 0x30, 0x00, 0x00, 0x00, 0x40, 0x00],
    ]);
    let mut expected = DIAGNOSTIC.to_vec();
    expected.extend_from_slice(&[0x00, 0x00, 0x00, 0x65]);
    assert_eq!(written, expected);
}

#[test]
fn truncated_message() {
    let written = exchange(&[
        &[0x49, 0x00, 0x00, 0x30, 0x39, 0x00, 0x00, 0x00, 0x65],
        &[0x49, 0x00, 0x00, 0xa0, 0x00],
    ]);
    assert_eq!(written, DIAGNOSTIC.to_vec());
}

#[test]
fn split_messages() {
    let written = exchange(&[
        // I 12345 101, in two reads
        &[0x49, 0x00, 0x00, 0x30],
        &[0x39, 0x00, 0x00, 0x00, 0x65],
        &[0x49, 0x00, 0x00, 0x30, 0x3a, 0x00, 0x00, 0x00, 0x66],
        &[0x49, 0x00, 0x00, 0x30, 0x3b, 0x00, 0x00, 0x00, 0x64],
        &[0x49, 0x00, 0x00, 0xa0, 0x00, 0x00, 0x00, 0x00, 0x05],
        &[0x51, 0x00, 0x00, 0x30, 0x00, 0x00, 0x00, 0x40, 0x00],
    ]);
    assert_eq!(written, vec![0x00, 0x00, 0x00, 0x65]);
}

#[test]
fn negative_timestamps() {
    let written = exchange(&[
        &[0x49, 0x00, 0x00, 0x00, 0x00, 0x77, 0x35, 0x94, 0x00],
        &[0x49, 0x00, 0x00, 0x00, 0x01, 0x7a, 0x30, 0x84, 0x80],
        &[0x49, 0x00, 0x00, 0x00, 0x02, 0x7d, 0x2b, 0x75, 0x00],
        &[0x51, 0x00, 0x00, 0x00, 0x00, 0x00, 0x00, 0x00, 0x02],
        &[0x51, 0x82, 0xd4, 0x8b, 0x00, 0x7d, 0x2b, 0x75, 0x00],
    ]);
    assert_eq!(written, vec![0x7a, 0x30, 0x84, 0x80, 0x7a, 0x30, 0x84, 0x80]);
}

#[test]
fn byte_by_byte_matches_single_read() {
    let mut stream = Vec::new();
    stream.extend(frame(b'I', 12345, 101));
    stream.extend(frame(b'Q', -7, 7));
    stream.extend(frame(b'X', 1, 2));
    stream.extend(frame(b'I', -2_000_000_000, -5));
    stream.extend([0x49, 0x01]);
    let mut whole = FrameDecoder::new();
    let at_once = whole.feed(&stream);
    let mut pieces = FrameDecoder::new();
    let mut one_by_one = Vec::new();
    for b in &stream {
        one_by_one.extend(pieces.feed(&[*b]));
    }
    assert_eq!(at_once, one_by_one);
    assert_eq!(
        at_once,
        vec![
            Message::Insert { timestamp: 12345, price: 101 },
            Message::Query { start: -7, end: 7 },
            Message::Invalid,
            Message::Insert { timestamp: -2_000_000_000, price: -5 },
        ]
    );
    assert_eq!(whole.pending_len(), 2);
    assert_eq!(pieces.pending_len(), 2);
}

#[test]
fn coalesced_and_split_reads_give_same_replies() {
    let mut stream = Vec::new();
    stream.extend(frame(b'I', 1, 10));
    stream.extend(frame(b'I', 2, 21));
    stream.extend(frame(b'Q', 1, 2));
    stream.extend(frame(b'P', 0, 0));
    stream.extend(frame(b'Q', 2, 1));
    let at_once = exchange(&[&stream]);
    let split = exchange(&[&stream[..5], &stream[5..13], &stream[13..30], &stream[30..]]);
    assert_eq!(at_once, split);
    let mut expected = vec![0, 0, 0, 15];
    expected.extend_from_slice(DIAGNOSTIC);
    expected.extend_from_slice(&[0, 0, 0, 0]);
    assert_eq!(at_once, expected);
}

#[test]
fn decoder_waits_for_a_whole_frame() {
    let mut d = FrameDecoder::new();
    assert!(d.feed(&[0x51, 0, 0, 0]).is_empty());
    assert_eq!(d.pending_len(), 4);
    assert_eq!(d.feed(&[1, 0, 0, 0, 2]), vec![Message::Query { start: 1, end: 2 }]);
    assert_eq!(d.pending_len(), 0);
}

#[test]
fn decode_frame_takes_nine_bytes() {
    let mut buf = BytesMut::new();
    buf.extend_from_slice(&frame(b'I', 3, -4));
    buf.extend_from_slice(&[0x51, 0xff]);
    assert_eq!(decode_frame(&mut buf), Some(Message::Insert { timestamp: 3, price: -4 }));
    assert_eq!(&buf[..], &[0x51, 0xff]);
    assert_eq!(decode_frame(&mut buf), None);
    assert_eq!(&buf[..], &[0x51, 0xff]);
}

#[test]
fn decode_message_tags() {
    assert_eq!(
        decode_message(&frame(b'I', -1, i32::MAX)),
        Message::Insert { timestamp: -1, price: i32::MAX }
    );
    assert_eq!(
        decode_message(&frame(b'Q', i32::MIN, 0)),
        Message::Query { start: i32::MIN, end: 0 }
    );
    assert_eq!(decode_message(&frame(0x50, 16384, 12288)), Message::Invalid);
    assert_eq!(decode_message(&frame(0x00, 0, 0)), Message::Invalid);
}

#[test]
fn invalid_frame_does_not_end_session() {
    let mut session = Session::new();
    assert_eq!(session.receive(&frame(0x50, 1, 2)), DIAGNOSTIC.to_vec());
    assert!(session.receive(&frame(b'I', 5, 50)).is_empty());
    assert_eq!(session.receive(&frame(b'Q', 0, 10)), vec![0, 0, 0, 50]);
}

#[test]
fn finish_without_leftover_writes_nothing() {
    let mut session = Session::new();
    assert!(session.receive(&frame(b'I', 5, 50)).is_empty());
    assert!(session.finish().is_empty());
}
