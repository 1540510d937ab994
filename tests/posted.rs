use vaa_claim::error::VaaError;
use vaa_claim::message::{PostedVAAData, SignatureItem};

fn sample() -> PostedVAAData {
    PostedVAAData {
        version: 1,
        guardian_set_index: 0x01020304,
        timestamp: 0x05060708,
        nonce: 0x090A0B0C,
        emitter_chain: 0x0D0E,
        emitter_address: [0x11; 32],
        sequence: 0x2122232425262728,
        consistency_level: 32,
        payload: vec![0xDE, 0xAD, 0xBE, 0xEF],
    }
}

#[test]
fn posted_wire_layout() {
    let b = sample().encode();
    assert_eq!(b.len(), 60);
    assert_eq!(b[0], 1);
    assert_eq!(&b[1..5], &[1, 2, 3, 4]);
    assert_eq!(&b[5..9], &[5, 6, 7, 8]);
    assert_eq!(&b[9..13], &[9, 10, 11, 12]);
    assert_eq!(&b[13..15], &[13, 14]);
    assert_eq!(&b[15..47], &[0x11; 32]);
    assert_eq!(&b[47..55], &[0x21, 0x22, 0x23, 0x24, 0x25, 0x26, 0x27, 0x28]);
    assert_eq!(b[55], 32);
    assert_eq!(&b[56..], &[0xDE, 0xAD, 0xBE, 0xEF]);
}

#[test]
fn posted_round_trip() {
    let b = sample().encode();
    let m = PostedVAAData::decode(&b).unwrap();
    assert_eq!(m.version, 1);
    assert_eq!(m.guardian_set_index, 0x01020304);
    assert_eq!(m.timestamp, 0x05060708);
    assert_eq!(m.nonce, 0x090A0B0C);
    assert_eq!(m.emitter_chain, 0x0D0E);
    assert_eq!(m.emitter_address, [0x11; 32]);
    assert_eq!(m.sequence, 0x2122232425262728);
    assert_eq!(m.consistency_level, 32);
    assert_eq!(m.payload, vec![0xDE, 0xAD, 0xBE, 0xEF]);
    assert_eq!(m.encode(), b);
}

#[test]
fn posted_short_buffer_and_empty_payload() {
    let b = sample().encode();
    assert_eq!(PostedVAAData::decode(&b[..55]).err(), Some(VaaError::ShortBuffer));
    let m = PostedVAAData::decode(&b[..56]).unwrap();
    assert!(m.payload.is_empty());
    assert_eq!(m.sequence, 0x2122232425262728);
}

#[test]
fn posted_byte_order_matters() {
    let mut b = sample().encode();
    b.swap(13, 14);
    let m = PostedVAAData::decode(&b).unwrap();
    assert_eq!(m.emitter_chain, 0x0E0D);
}

#[test]
fn signature_item_holds_fields() {
    let s = SignatureItem {
        signature: vec![1, 2, 3],
        key: [7u8; 20],
        index: 4,
    };
    assert_eq!(s.signature.len(), 3);
    assert_eq!(s.key, [7u8; 20]);
    assert_eq!(s.index, 4);
}
