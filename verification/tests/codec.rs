//! Header and cursor codecs: byte-exact layouts, round trips, boundary
//! values, and the corrupt-state rejection.

use yaque::error::QueueError;
use yaque::header::Header;
use yaque::state::{decode_state, encode_state, QueueState, SEGMENT_MAX};

#[test]
fn header_zero_length_is_four_zero_bytes() {
    let h = Header::new(0);
    let bytes = h.encode();
    assert_eq!(bytes, vec![0u8, 0, 0, 0]);
    // a zero-length record is not the end of a segment
    let back = Header::decode(&bytes);
    assert!(!back.is_eof());
    assert_eq!(back.len(), 0);
}

#[test]
fn header_eof_sentinel_is_four_ff_bytes() {
    let bytes = Header::Eof.encode();
    assert_eq!(bytes, vec![0xffu8, 0xff, 0xff, 0xff]);
    assert!(Header::decode(&bytes).is_eof());
}

#[test]
fn header_max_length_is_allowed() {
    let h = Header::new(0xFFFF_FFFE);
    let bytes = h.encode();
    assert_eq!(bytes, vec![0xfeu8, 0xff, 0xff, 0xff]);
    let back = Header::decode(&bytes);
    assert!(!back.is_eof());
    assert_eq!(back.len(), 0xFFFF_FFFE);
}

#[test]
fn header_is_little_endian() {
    let bytes = Header::new(0x0102_0304).encode();
    assert_eq!(bytes, vec![0x04u8, 0x03, 0x02, 0x01]);
}

#[test]
fn header_decode_then_encode_reproduces_bytes() {
    let samples: Vec<Vec<u8>> = vec![
        vec![0u8, 0, 0, 0],
        vec![5u8, 0, 0, 0],
        vec![0x2cu8, 0x01, 0, 0],
        vec![0x78u8, 0x56, 0x34, 0x12],
        vec![0xffu8, 0xff, 0xff, 0xff],
    ];
    for bytes in samples {
        let h = Header::decode(&bytes);
        assert_eq!(h.encode(), bytes);
    }
}

#[test]
fn header_encode_then_decode_reproduces_header() {
    let lengths: Vec<u32> = vec![0, 1, 5, 300, 70_000, 0x1234_5678, 0xFFFF_FFFE];
    for len in lengths {
        let h = Header::new(len);
        let back = Header::decode(&h.encode());
        assert_eq!(back, h);
        assert_eq!(back.len(), len);
    }
}

#[test]
fn state_round_trips_through_metadata_bytes() {
    let s = QueueState { segment: 3, position: 12_345 };
    let bytes = encode_state(&s);
    assert_eq!(bytes.len(), 16);
    assert_eq!(decode_state(&bytes), Ok(s));
}

#[test]
fn state_metadata_layout_is_little_endian() {
    let s = QueueState { segment: 3, position: 12_345 };
    let bytes = encode_state(&s);
    assert_eq!(
        bytes,
        vec![3u8, 0, 0, 0, 0, 0, 0, 0, 0x39, 0x30, 0, 0, 0, 0, 0, 0]
    );
}

#[test]
fn truncated_metadata_is_corrupt_state() {
    let bytes: Vec<u8> = vec![1u8, 2, 3, 4, 5];
    assert_eq!(decode_state(&bytes), Err(QueueError::CorruptState));
    let empty: Vec<u8> = Vec::new();
    assert_eq!(decode_state(&empty), Err(QueueError::CorruptState));
}

#[test]
fn cursor_helpers_move_as_stated() {
    let mut s = QueueState { segment: 0, position: 0 };
    s.advance_position(10);
    assert_eq!(s.position, 10);
    assert_eq!(s.segment, 0);
    assert!(!s.is_past_end());
    let next = s.advance_segment();
    assert_eq!(next, 1);
    assert_eq!(s.segment, 1);
    assert_eq!(s.position, 0);
    s.retreat_segment();
    assert_eq!(s.segment, 0);
    s.position = SEGMENT_MAX;
    assert!(s.is_past_end());
}
