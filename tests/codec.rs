use vaa_claim::be::{get_u16, get_u32, get_u64, put_u16, put_u32, put_u64};
use vaa_claim::codec::{decode_payload, DeserializePayload, RawPayload, SerializePayload};
use vaa_claim::error::VaaError;
use vaa_claim::governance::{
    check_header, pad_module, write_header, DeserializeGovernancePayload,
    SerializeGovernancePayload, CHAIN_ID_SOLANA,
};
use vaa_claim::guardian_set::GovernancePayloadGuardianSetChange;

fn header(chain: u16) -> Vec<u8> {
    let mut h = vec![0u8; 28];
    h.extend_from_slice(b"Core");
    h.push(2);
    h.extend_from_slice(&chain.to_be_bytes());
    h
}

fn body() -> Vec<u8> {
    let mut b = vec![0, 0, 0, 5, 2];
    b.extend_from_slice(&[0xAA; 20]);
    b.extend_from_slice(&[0xBB; 20]);
    b
}

fn change() -> GovernancePayloadGuardianSetChange {
    GovernancePayloadGuardianSetChange {
        new_guardian_set_index: 5,
        new_guardian_set: vec![[0xAA; 20], [0xBB; 20]],
    }
}

#[test]
fn governance_local_chain() {
    let mut bytes = header(CHAIN_ID_SOLANA);
    bytes.extend(body());
    let p = decode_payload::<GovernancePayloadGuardianSetChange>(&bytes).unwrap();
    assert_eq!(p.new_guardian_set_index, 5);
    assert_eq!(p.new_guardian_set, vec![[0xAA; 20], [0xBB; 20]]);
}

#[test]
fn governance_wildcard_chain() {
    let mut bytes = header(0);
    bytes.extend(body());
    let p = decode_payload::<GovernancePayloadGuardianSetChange>(&bytes).unwrap();
    assert_eq!(p.new_guardian_set_index, 5);
    assert_eq!(p.new_guardian_set.len(), 2);
}

#[test]
fn governance_wrong_chain() {
    let mut bytes = header(CHAIN_ID_SOLANA + 1);
    bytes.extend(body());
    let r = decode_payload::<GovernancePayloadGuardianSetChange>(&bytes);
    assert_eq!(r.err(), Some(VaaError::InvalidGovernanceChain));
    // No body follows: the header alone decides.
    let r = decode_payload::<GovernancePayloadGuardianSetChange>(&header(CHAIN_ID_SOLANA + 1));
    assert_eq!(r.err(), Some(VaaError::InvalidGovernanceChain));
}

#[test]
fn governance_module_and_action_mismatch() {
    let mut bytes = header(CHAIN_ID_SOLANA);
    bytes[31] = b'f';
    assert_eq!(check_header(&bytes, 0, b"Core", 2), Err(VaaError::InvalidGovernanceModule));
    let mut bytes = header(CHAIN_ID_SOLANA);
    bytes[32] = 3;
    assert_eq!(check_header(&bytes, 0, b"Core", 2), Err(VaaError::InvalidGovernanceAction));
    let bytes = header(CHAIN_ID_SOLANA);
    assert_eq!(check_header(&bytes, 0, b"Core", 2), Ok(35));
    assert_eq!(check_header(&bytes[..34], 0, b"Core", 2), Err(VaaError::ShortBuffer));
    assert_eq!(check_header(&bytes[..10], 0, b"Core", 2), Err(VaaError::ShortBuffer));
    assert_eq!(
        GovernancePayloadGuardianSetChange::check_governance_header(&bytes, 0),
        Ok(35)
    );
}

#[test]
fn module_padding() {
    let p = pad_module(b"TokenBridge").unwrap();
    assert_eq!(p.len(), 32);
    assert_eq!(&p[..21], &[0u8; 21]);
    assert_eq!(&p[21..], b"TokenBridge");
    assert_eq!(pad_module(&[b'x'; 33]), Err(VaaError::FieldOutOfRange));
    assert_eq!(pad_module(&[b'x'; 32]).unwrap(), vec![b'x'; 32]);
    assert_eq!(pad_module(b"").unwrap(), vec![0u8; 32]);
}

#[test]
fn header_writing() {
    let mut out = vec![7u8];
    assert_eq!(write_header(b"Core", 2, &mut out), Ok(()));
    let mut expected = vec![7u8];
    expected.extend(header(CHAIN_ID_SOLANA));
    assert_eq!(out, expected);
    let mut out = vec![7u8];
    assert_eq!(write_header(&[b'x'; 40], 2, &mut out), Err(VaaError::FieldOutOfRange));
    assert_eq!(out, vec![7u8]);
}

#[test]
fn guardian_set_change_round_trip() {
    let bytes = change().try_to_governance_vec().unwrap();
    let mut expected = header(CHAIN_ID_SOLANA);
    expected.extend(body());
    assert_eq!(bytes, expected);
    let back = decode_payload::<GovernancePayloadGuardianSetChange>(&bytes).unwrap();
    assert_eq!(back.new_guardian_set_index, 5);
    assert_eq!(back.new_guardian_set, vec![[0xAA; 20], [0xBB; 20]]);
    assert_eq!(back.try_to_governance_vec().unwrap(), bytes);
    let body_bytes = SerializePayload::try_to_vec(&change()).unwrap();
    assert_eq!(body_bytes, body());
    // The body alone lacks the header.
    let r = decode_payload::<GovernancePayloadGuardianSetChange>(&body_bytes);
    assert_eq!(r.err(), Some(VaaError::InvalidGovernanceModule));
}

#[test]
fn trailing_bytes_rejected() {
    let mut bytes = body();
    bytes.push(0);
    let mut framed = header(CHAIN_ID_SOLANA);
    framed.extend(bytes);
    let r = decode_payload::<GovernancePayloadGuardianSetChange>(&framed);
    assert_eq!(r.err(), Some(VaaError::TrailingBytes));
}

#[test]
fn guardian_set_short_buffer() {
    let mut b = header(CHAIN_ID_SOLANA);
    b.extend(body());
    let r = decode_payload::<GovernancePayloadGuardianSetChange>(&b[..79]);
    assert_eq!(r.err(), Some(VaaError::ShortBuffer));
    let r = decode_payload::<GovernancePayloadGuardianSetChange>(&b[..38]);
    assert_eq!(r.err(), Some(VaaError::ShortBuffer));
    let mut prefixed = vec![0xFFu8; 3];
    prefixed.extend(b.clone());
    prefixed.push(9);
    let (v, end) = GovernancePayloadGuardianSetChange::deserialize(&prefixed, 3).unwrap();
    assert_eq!(end, 3 + 80);
    assert_eq!(v.new_guardian_set.len(), 2);
    assert_eq!(v.new_guardian_set_index, 5);
}

#[test]
fn too_many_guardians_is_out_of_range() {
    let p = GovernancePayloadGuardianSetChange {
        new_guardian_set_index: 1,
        new_guardian_set: vec![[1u8; 20]; 256],
    };
    let mut out = vec![3u8];
    assert_eq!(p.serialize(&mut out), Err(VaaError::FieldOutOfRange));
    assert_eq!(out, vec![3u8]);
    assert_eq!(p.try_to_governance_vec().err(), Some(VaaError::FieldOutOfRange));
}

#[test]
fn raw_payload_takes_everything() {
    let r = decode_payload::<RawPayload>(&[0xDE, 0xAD, 0xBE, 0xEF]).unwrap();
    assert_eq!(r.bytes, vec![0xDE, 0xAD, 0xBE, 0xEF]);
    let (r, end) = RawPayload::deserialize(&[1, 2, 3, 4], 1).unwrap();
    assert_eq!(r.bytes, vec![2, 3, 4]);
    assert_eq!(end, 4);
    assert_eq!(SerializePayload::try_to_vec(&r).unwrap(), vec![2, 3, 4]);
}

#[test]
fn integers_are_big_endian() {
    assert_eq!(get_u16(&[0x01, 0x02], 0), Ok(0x0102));
    assert_eq!(get_u16(&[0x02, 0x01], 0), Ok(0x0201));
    assert_eq!(get_u16(&[0x01], 0), Err(VaaError::ShortBuffer));
    assert_eq!(get_u32(&[9, 0xDE, 0xAD, 0xBE, 0xEF], 1), Ok(0xDEADBEEF));
    assert_eq!(get_u32(&[0xEF, 0xBE, 0xAD, 0xDE], 0), Ok(0xEFBEADDE));
    assert_eq!(get_u64(&[1, 2, 3, 4, 5, 6, 7, 8], 0), Ok(0x0102030405060708));
    assert_eq!(get_u64(&[1, 2, 3, 4, 5, 6, 7], 0), Err(VaaError::ShortBuffer));
    let mut out = Vec::new();
    put_u16(&mut out, 0x0102);
    put_u32(&mut out, 0x03040506);
    put_u64(&mut out, 0x0708090A0B0C0D0E);
    assert_eq!(out, vec![1, 2, 3, 4, 5, 6, 7, 8, 9, 10, 11, 12, 13, 14]);
}

#[test]
fn governance_identity_of_core_change() {
    assert_eq!(GovernancePayloadGuardianSetChange::module(), b"Core".to_vec());
    assert_eq!(GovernancePayloadGuardianSetChange::action(), 2);
}

#[test]
fn governance_index_is_big_endian() {
    let mut b = header(CHAIN_ID_SOLANA);
    b.extend([0x01, 0x02, 0x03, 0x04, 0x00]);
    let p = decode_payload::<GovernancePayloadGuardianSetChange>(&b).unwrap();
    assert_eq!(p.new_guardian_set_index, 0x01020304);
    assert!(p.new_guardian_set.is_empty());
    b[35..39].reverse();
    let p = decode_payload::<GovernancePayloadGuardianSetChange>(&b).unwrap();
    assert_eq!(p.new_guardian_set_index, 0x04030201);
}
