use solana_program::pubkey::Pubkey;
use vaa_claim::claim::{check_derivation, Claim, ClaimDerivationData, ClaimableVAA};
use vaa_claim::codec::RawPayload;
use vaa_claim::error::VaaError;
use vaa_claim::governance::{SerializeGovernancePayload, CHAIN_ID_SOLANA};
use vaa_claim::guardian_set::GovernancePayloadGuardianSetChange;
use vaa_claim::message::{PayloadMessage, PostedVAAData};

const PROGRAM: [u8; 32] = [9u8; 32];
const PAYER: [u8; 32] = [5u8; 32];

fn posted(chain: u16, address: [u8; 32], sequence: u64, payload: Vec<u8>) -> PostedVAAData {
    PostedVAAData {
        version: 1,
        guardian_set_index: 0,
        timestamp: 1_600_000_000,
        nonce: 42,
        emitter_chain: chain,
        emitter_address: address,
        sequence,
        consistency_level: 1,
        payload,
    }
}

fn derive(chain: u16, address: [u8; 32], sequence: u64) -> [u8; 32] {
    let c = chain.to_be_bytes();
    let s = sequence.to_be_bytes();
    let seeds: [&[u8]; 3] = [&address, &c, &s];
    Pubkey::find_program_address(&seeds, &Pubkey::new_from_array(PROGRAM))
        .0
        .to_bytes()
}

fn claimable(claim_address: [u8; 32]) -> ClaimableVAA<RawPayload> {
    let data = posted(2, [1u8; 32], 7, vec![0xDE, 0xAD, 0xBE, 0xEF]);
    let message = PayloadMessage::<RawPayload>::peel(data).unwrap();
    ClaimableVAA {
        message,
        claim: Claim {
            address: claim_address,
            claimed: false,
        },
    }
}

#[test]
fn happy_path_claim() {
    let address = derive(2, [1u8; 32], 7);
    let mut vaa = claimable(address);
    assert_eq!(vaa.message.payload().bytes, vec![0xDE, 0xAD, 0xBE, 0xEF]);
    assert_eq!(vaa.verify(&PROGRAM), Ok(()));
    assert!(!vaa.is_claimed());
    let creation = vaa.claim(&PROGRAM, &PAYER).unwrap();
    assert_eq!(creation.address, address);
    assert_eq!(creation.payer, PAYER);
    assert_eq!(creation.identity.emitter_chain, 2);
    assert_eq!(creation.identity.emitter_address, [1u8; 32]);
    assert_eq!(creation.identity.sequence, 7);
    assert!(vaa.is_claimed());
    assert_eq!(vaa.claim.address, address);
}

#[test]
fn replay_is_rejected() {
    let address = derive(2, [1u8; 32], 7);
    let mut vaa = claimable(address);
    assert!(vaa.claim(&PROGRAM, &PAYER).is_ok());
    assert_eq!(vaa.claim(&PROGRAM, &PAYER).err(), Some(VaaError::AlreadyExecuted));
    assert!(vaa.is_claimed());
    assert_eq!(vaa.claim.address, address);
    assert_eq!(vaa.claim(&PROGRAM, &PAYER).err(), Some(VaaError::AlreadyExecuted));
}

#[test]
fn derivation_substitution_is_rejected() {
    let foreign = derive(2, [1u8; 32], 8);
    let mut vaa = claimable(foreign);
    assert_eq!(vaa.verify(&PROGRAM), Err(VaaError::DerivationMismatch));
    assert_eq!(vaa.claim(&PROGRAM, &PAYER).err(), Some(VaaError::DerivationMismatch));
    assert!(!vaa.is_claimed());
}

#[test]
fn derivation_mismatch_wins_over_claimed_bit() {
    let foreign = derive(3, [1u8; 32], 7);
    let mut vaa = claimable(foreign);
    vaa.claim.claimed = true;
    assert_eq!(vaa.claim(&PROGRAM, &PAYER).err(), Some(VaaError::DerivationMismatch));
}

#[test]
fn derivation_depends_on_program() {
    let address = derive(2, [1u8; 32], 7);
    let vaa = claimable(address);
    assert_eq!(vaa.verify(&[8u8; 32]), Err(VaaError::DerivationMismatch));
}

#[test]
fn claim_seeds_are_big_endian() {
    let d = ClaimDerivationData {
        emitter_address: [1u8; 32],
        emitter_chain: 0x0102,
        sequence: 0x0102030405060708,
    };
    let seeds = d.seeds();
    assert_eq!(seeds.len(), 3);
    assert_eq!(seeds[0], vec![1u8; 32]);
    assert_eq!(seeds[1], vec![1, 2]);
    assert_eq!(seeds[2], vec![1, 2, 3, 4, 5, 6, 7, 8]);
}

#[test]
fn check_derivation_cases() {
    assert_eq!(check_derivation(Some([4u8; 32]), &[4u8; 32]), Ok(()));
    let mut other = [4u8; 32];
    other[31] = 5;
    assert_eq!(check_derivation(Some(other), &[4u8; 32]), Err(VaaError::DerivationMismatch));
    assert_eq!(check_derivation(None, &[4u8; 32]), Err(VaaError::DerivationMismatch));
}

#[test]
fn meta_keeps_posted_record() {
    let vaa = claimable([0u8; 32]);
    let m = vaa.message.meta();
    assert_eq!(m.emitter_chain, 2);
    assert_eq!(m.sequence, 7);
    assert_eq!(m.nonce, 42);
    assert_eq!(m.payload, vec![0xDE, 0xAD, 0xBE, 0xEF]);
}

fn governance_bytes(chain: u16, body: &[u8]) -> Vec<u8> {
    let mut b = vec![0u8; 28];
    b.extend_from_slice(b"Core");
    b.push(2);
    b.extend_from_slice(&chain.to_be_bytes());
    b.extend_from_slice(body);
    b
}

fn change_body() -> Vec<u8> {
    let mut b = vec![0, 0, 0, 3, 1];
    b.extend_from_slice(&[0xCC; 20]);
    b
}

#[test]
fn typed_view_of_governance_local_chain() {
    let data = posted(1, [3u8; 32], 11, governance_bytes(CHAIN_ID_SOLANA, &change_body()));
    let m = PayloadMessage::<GovernancePayloadGuardianSetChange>::peel(data).unwrap();
    assert_eq!(m.payload().new_guardian_set_index, 3);
    assert_eq!(m.payload().new_guardian_set, vec![[0xCC; 20]]);
    assert_eq!(m.meta().sequence, 11);
}

#[test]
fn typed_view_of_governance_wildcard_and_empty_set() {
    let data = posted(1, [3u8; 32], 11, governance_bytes(0, &[0, 0, 0, 9, 0]));
    let m = PayloadMessage::<GovernancePayloadGuardianSetChange>::peel(data).unwrap();
    assert_eq!(m.payload().new_guardian_set_index, 9);
    assert!(m.payload().new_guardian_set.is_empty());
}

#[test]
fn typed_view_of_governance_wrong_chain() {
    let data = posted(1, [3u8; 32], 11, governance_bytes(CHAIN_ID_SOLANA + 1, &[0xDE, 0xAD, 0xBE, 0xEF]));
    let r = PayloadMessage::<GovernancePayloadGuardianSetChange>::peel(data);
    assert_eq!(r.err(), Some(VaaError::InvalidGovernanceChain));
    let data = posted(1, [3u8; 32], 11, governance_bytes(CHAIN_ID_SOLANA + 1, &[]));
    let r = PayloadMessage::<GovernancePayloadGuardianSetChange>::peel(data);
    assert_eq!(r.err(), Some(VaaError::InvalidGovernanceChain));
}

#[test]
fn typed_view_round_trip_of_governance() {
    let v = GovernancePayloadGuardianSetChange {
        new_guardian_set_index: 4,
        new_guardian_set: vec![[1u8; 20], [2u8; 20], [3u8; 20]],
    };
    let bytes = v.try_to_governance_vec().unwrap();
    let data = posted(1, [3u8; 32], 11, bytes.clone());
    let m = PayloadMessage::<GovernancePayloadGuardianSetChange>::peel(data).unwrap();
    assert_eq!(m.payload().new_guardian_set_index, 4);
    assert_eq!(m.payload().new_guardian_set, v.new_guardian_set);
    assert_eq!(m.payload().try_to_governance_vec().unwrap(), bytes);
    let mut longer = bytes.clone();
    longer.push(0);
    let data = posted(1, [3u8; 32], 11, longer);
    let r = PayloadMessage::<GovernancePayloadGuardianSetChange>::peel(data);
    assert_eq!(r.err(), Some(VaaError::TrailingBytes));
}

#[test]
fn governance_claim_flow() {
    let data = posted(1, [3u8; 32], 11, governance_bytes(CHAIN_ID_SOLANA, &change_body()));
    let message = PayloadMessage::<GovernancePayloadGuardianSetChange>::peel(data).unwrap();
    let mut vaa = ClaimableVAA {
        message,
        claim: Claim {
            address: derive(1, [3u8; 32], 11),
            claimed: false,
        },
    };
    assert_eq!(vaa.verify(&PROGRAM), Ok(()));
    assert!(vaa.claim(&PROGRAM, &PAYER).is_ok());
    assert_eq!(vaa.claim(&PROGRAM, &PAYER).err(), Some(VaaError::AlreadyExecuted));
}
