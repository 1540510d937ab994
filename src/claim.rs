//! Single-use claims: a record at an address derived from the message's
//! identity marks the message as executed, once and for good.
use crate::be::{be_bytes, put_u16, put_u64};
use crate::codec::DeserializePayload;
use crate::error::VaaError;
use crate::message::{PayloadMessage, PostedVAAData};
use solana_program::pubkey::Pubkey;
use vstd::prelude::*;

verus! {

/// The identity of a message: the replay-protection key of its claim.
pub struct ClaimDerivationData {
    pub emitter_address: [u8; 32],
    pub emitter_chain: u16,
    pub sequence: u64,
}

/// The identity of a posted message.
pub open spec fn identity_of(m: PostedVAAData) -> ClaimDerivationData {
    ClaimDerivationData {
        emitter_address: m.emitter_address,
        emitter_chain: m.emitter_chain,
        sequence: m.sequence,
    }
}

/// The seeds of a claim address: the emitter address, then the emitter chain
/// and the sequence in big-endian order.
pub open spec fn claim_seeds(d: ClaimDerivationData) -> Seq<Seq<u8>> {
    seq![d.emitter_address@, be_bytes(d.emitter_chain as nat, 2), be_bytes(d.sequence as nat, 8)]
}

/// The views of a list of byte vectors.
pub open spec fn seed_views(s: Seq<Vec<u8>>) -> Seq<Seq<u8>> {
    s.map_values(|v: Vec<u8>| v@)
}

/// The program-derived address of `seeds` under `program_id`, when one
/// exists.
pub uninterp spec fn program_address(seeds: Seq<Seq<u8>>, program_id: Seq<u8>) -> Option<Seq<u8>>;

/// Relies on `Pubkey::try_find_program_address`: the canonical
/// program-derived address for the seeds and the program id, a function of
/// those two alone, or `None` where no bump seed gives one.
#[verifier::external_body]
fn find_program_address(seeds: &Vec<Vec<u8>>, program_id: &[u8; 32]) -> (r: Option<[u8; 32]>)
    ensures
        match r {
            Some(a) => program_address(seed_views(seeds@), program_id@) == Some(a@),
            None => program_address(seed_views(seeds@), program_id@) is None,
        },
{
    let s: Vec<&[u8]> = seeds.iter().map(|x| x.as_slice()).collect();
    let program = Pubkey::new_from_array(*program_id);
    Pubkey::try_find_program_address(&s, &program).map(|(k, _)| k.to_bytes())
}

impl ClaimDerivationData {
    /// The seeds of this identity's claim address.
    pub fn seeds(&self) -> (r: Vec<Vec<u8>>)
        ensures
            seed_views(r@) == claim_seeds(*self),
    {
        let mut chain: Vec<u8> = Vec::new();
        put_u16(&mut chain, self.emitter_chain);
        let mut seq: Vec<u8> = Vec::new();
        put_u64(&mut seq, self.sequence);
        let mut addr: Vec<u8> = Vec::new();
        addr.extend_from_slice(&self.emitter_address);
        proof {
            assert(addr@ =~= self.emitter_address@);
            assert(chain@ =~= be_bytes(self.emitter_chain as nat, 2));
            assert(seq@ =~= be_bytes(self.sequence as nat, 8));
        }
        let r = vec![addr, chain, seq];
        proof {
            assert(r@.len() == 3);
            assert(seed_views(r@) =~= claim_seeds(*self));
        }
        r
    }
}

/// The verdict on a claim record at `address` when the derivation gave
/// `derived`: the two must be the same address.
pub open spec fn derivation_verdict(derived: Option<Seq<u8>>, address: Seq<u8>) -> Result<
    (),
    VaaError,
> {
    if derived == Some(address) {
        Ok(())
    } else {
        Err(VaaError::DerivationMismatch)
    }
}

/// The view of an optional address.
pub open spec fn address_view(a: Option<[u8; 32]>) -> Option<Seq<u8>> {
    match a {
        Some(x) => Some(x@),
        None => None,
    }
}

/// Compares a claim record's address with the derived one.
pub fn check_derivation(derived: Option<[u8; 32]>, address: &[u8; 32]) -> (r: Result<(), VaaError>)
    ensures
        r == derivation_verdict(address_view(derived), address@),
{
    match derived {
        None => Err(VaaError::DerivationMismatch),
        Some(d) => {
            let mut i: usize = 0;
            while i < 32
                invariant
                    i <= 32,
                    forall|k: int| 0 <= k < i ==> d@[k] == address@[k],
                    derived == Some(d),
                decreases 32 - i,
            {
                if d[i] != address[i] {
                    proof {
                        assert(d@[i as int] != address@[i as int]);
                        assert(d@ != address@);
                        assert(address_view(derived) != Some(address@));
                    }
                    return Err(VaaError::DerivationMismatch);
                }
                i = i + 1;
            }
            proof {
                assert(d@ =~= address@);
            }
            Ok(())
        },
    }
}

/// The result of a claim attempt on a record whose bit is `claimed`, where
/// `derivation_ok` says whether the record sits at the derived address.
pub open spec fn claim_outcome(claimed: bool, derivation_ok: bool) -> Result<(), VaaError> {
    if !derivation_ok {
        Err(VaaError::DerivationMismatch)
    } else if claimed {
        Err(VaaError::AlreadyExecuted)
    } else {
        Ok(())
    }
}

/// The claimed bit after a claim attempt: set by a success, never cleared.
pub open spec fn claimed_after(claimed: bool, derivation_ok: bool) -> bool {
    claimed || claim_outcome(claimed, derivation_ok) is Ok
}

/// How many of a run of claim attempts on one record succeed, starting from
/// the bit `claimed`; each attempt says whether its derivation matched.
pub open spec fn successful_claims(claimed: bool, attempts: Seq<bool>) -> nat
    decreases attempts.len(),
{
    if attempts.len() == 0 {
        0
    } else {
        let now: nat = if claim_outcome(claimed, attempts[0]) is Ok {
            1
        } else {
            0
        };
        now + successful_claims(claimed_after(claimed, attempts[0]), attempts.drop_first())
    }
}

/// The record that marks a message as executed, at the address the caller
/// supplied for it.
pub struct Claim {
    pub address: [u8; 32],
    pub claimed: bool,
}

/// What the host must do to commit a successful claim: allocate the record
/// at `address` from the given seeds, funded by `payer` to the rent-exempt
/// amount, holding `claimed = true`.
pub struct ClaimCreation {
    pub address: [u8; 32],
    pub payer: [u8; 32],
    pub identity: ClaimDerivationData,
}

/// A decoded message together with its claim record.
pub struct ClaimableVAA<T: DeserializePayload> {
    pub message: PayloadMessage<T>,
    pub claim: Claim,
}

impl<T: DeserializePayload> ClaimableVAA<T> {
    /// The identity of the message.
    pub open spec fn identity(&self) -> ClaimDerivationData {
        identity_of(self.message.spec_meta())
    }

    /// Whether the claim record sits at the address derived for the message
    /// under `program_id`.
    pub open spec fn derivation(&self, program_id: Seq<u8>) -> Result<(), VaaError> {
        derivation_verdict(
            program_address(claim_seeds(self.identity()), program_id),
            self.claim.address@,
        )
    }

    fn derivation_data(&self) -> (r: ClaimDerivationData)
        ensures
            r == self.identity(),
    {
        let m = self.message.meta();
        ClaimDerivationData {
            emitter_address: m.emitter_address,
            emitter_chain: m.emitter_chain,
            sequence: m.sequence,
        }
    }

    /// Checks that the claim record sits at the address derived from the
    /// message's identity under `program_id`.
    pub fn verify(&self, program_id: &[u8; 32]) -> (r: Result<(), VaaError>)
        ensures
            r == self.derivation(program_id@),
    {
        let seeds = self.derivation_data().seeds();
        let derived = find_program_address(&seeds, program_id);
        check_derivation(derived, &self.claim.address)
    }

    /// Whether the message was already executed.
    pub fn is_claimed(&self) -> (r: bool)
        ensures
            r == self.claim.claimed,
    {
        self.claim.claimed
    }

    /// Claims the message for execution: the record must sit at the derived
    /// address and must not be claimed yet. On success the record's bit is
    /// set and the creation to commit is returned; on failure nothing
    /// changes.
    pub fn claim(&mut self, program_id: &[u8; 32], payer: &[u8; 32]) -> (r: Result<
        ClaimCreation,
        VaaError,
    >)
        ensures
            ({
                let outcome = claim_outcome(
                    old(self).claim.claimed,
                    old(self).derivation(program_id@) is Ok,
                );
                &&& outcome is Err ==> r is Err && r->Err_0 == outcome->Err_0 && *final(self)
                    == *old(self)
                &&& outcome is Ok ==> (r matches Ok(c) && c.address == old(self).claim.address
                    && c.payer == *payer && c.identity == old(self).identity()
                    && final(self).message == old(self).message
                    && final(self).claim.address == old(self).claim.address)
            }),
            final(self).claim.claimed == claimed_after(
                old(self).claim.claimed,
                old(self).derivation(program_id@) is Ok,
            ),
    {
        match self.verify(program_id) {
            Ok(()) => {},
            Err(e) => return Err(e),
        }
        if self.is_claimed() {
            return Err(VaaError::AlreadyExecuted);
        }
        let identity = self.derivation_data();
        self.claim.claimed = true;
        Ok(ClaimCreation { address: self.claim.address, payer: *payer, identity })
    }
}

/// Over any run of claim attempts on one message's record, at most one
/// succeeds, and none does once the record is claimed.
pub proof fn lemma_claim_at_most_once(claimed: bool, attempts: Seq<bool>)
    ensures
        successful_claims(claimed, attempts) <= 1,
        claimed ==> successful_claims(claimed, attempts) == 0,
    decreases attempts.len(),
{
    if attempts.len() > 0 {
        lemma_claim_at_most_once(claimed_after(claimed, attempts[0]), attempts.drop_first());
        if claim_outcome(claimed, attempts[0]) is Ok {
            assert(claimed_after(claimed, attempts[0]));
        }
    }
}

/// Two claimable messages with one identity whose records both sit at the
/// derived address under one program hold the same record address: every
/// claim on that identity goes through one record, the record of
/// `lemma_claim_at_most_once`.
pub proof fn lemma_one_record_per_identity<T: DeserializePayload, U: DeserializePayload>(
    a: ClaimableVAA<T>,
    b: ClaimableVAA<U>,
    program_id: Seq<u8>,
)
    requires
        a.identity() == b.identity(),
        a.derivation(program_id) is Ok,
        b.derivation(program_id) is Ok,
    ensures
        a.claim.address == b.claim.address,
{
    assert(a.claim.address@ == b.claim.address@);
    broadcast use vstd::array::group_array_axioms;
}

/// Once a claim has succeeded, every later attempt with a matching
/// derivation fails with `AlreadyExecuted` and leaves the bit set.
pub proof fn lemma_replay_rejected(claimed: bool, derivation_ok: bool)
    requires
        claim_outcome(claimed, derivation_ok) is Ok,
    ensures
        claimed_after(claimed, derivation_ok),
        claim_outcome(claimed_after(claimed, derivation_ok), true) == Err::<(), VaaError>(
            VaaError::AlreadyExecuted,
        ),
        claimed_after(claimed_after(claimed, derivation_ok), true),
{
}

/// A claim on a record that is not at the derived address fails with
/// `DerivationMismatch` and leaves the bit as it was, whatever the bit.
pub proof fn lemma_derivation_binding(derived: Option<Seq<u8>>, address: Seq<u8>, claimed: bool)
    requires
        derived != Some(address),
    ensures
        claim_outcome(claimed, derivation_verdict(derived, address) is Ok) == Err::<(), VaaError>(
            VaaError::DerivationMismatch,
        ),
        claimed_after(claimed, derivation_verdict(derived, address) is Ok) == claimed,
{
}

} // verus!
