//! A verified message as posted on the ledger, and its typed view.
use crate::be::{
    be_bytes, be_value, get_u16, get_u32, get_u64, lemma_be_bytes_len, lemma_be_bytes_of_value,
    lemma_be_value_of_bytes, pow256, put_u16, put_u32, put_u64,
};
use crate::codec::{decode_payload, decoded, DeserializePayload, RawPayload};
use crate::error::VaaError;
use vstd::prelude::*;

verus! {

/// A message whose guardian signatures were checked, as the ledger holds it.
/// Its payload bytes are kept verbatim.
pub struct PostedVAAData {
    pub version: u8,
    pub guardian_set_index: u32,
    pub timestamp: u32,
    pub nonce: u32,
    pub emitter_chain: u16,
    pub emitter_address: [u8; 32],
    pub sequence: u64,
    pub consistency_level: u8,
    pub payload: Vec<u8>,
}

/// Width of the fixed part of a posted message, before its payload.
pub const POSTED_HEADER_LEN: usize = 56;

/// The wire form of a posted message: its fields in order, integers
/// big-endian, then the payload, whose length is what remains.
pub open spec fn posted_bytes(m: PostedVAAData) -> Seq<u8> {
    seq![m.version] + be_bytes(m.guardian_set_index as nat, 4) + be_bytes(m.timestamp as nat, 4)
        + be_bytes(m.nonce as nat, 4) + be_bytes(m.emitter_chain as nat, 2) + m.emitter_address@
        + be_bytes(m.sequence as nat, 8) + seq![m.consistency_level] + m.payload@
}

/// Whether `m` holds what the wire form `b` says, field by field.
pub open spec fn posted_fields(m: PostedVAAData, b: Seq<u8>) -> bool {
    &&& b.len() >= 56
    &&& m.version == b[0]
    &&& m.guardian_set_index as nat == be_value(b.subrange(1, 5))
    &&& m.timestamp as nat == be_value(b.subrange(5, 9))
    &&& m.nonce as nat == be_value(b.subrange(9, 13))
    &&& m.emitter_chain as nat == be_value(b.subrange(13, 15))
    &&& m.emitter_address@ == b.subrange(15, 47)
    &&& m.sequence as nat == be_value(b.subrange(47, 55))
    &&& m.consistency_level == b[55]
    &&& m.payload@ == b.skip(56)
}

/// The 32 bytes of `buf` from `pos`.
fn read_bytes32(buf: &[u8], pos: usize) -> (r: [u8; 32])
    requires
        pos + 32 <= buf@.len(),
    ensures
        r@ == buf@.subrange(pos as int, pos + 32),
{
    let mut r = [0u8; 32];
    let mut j: usize = 0;
    while j < 32
        invariant
            j <= 32,
            pos + 32 <= buf.len(),
            forall|t: int| 0 <= t < j ==> r@[t] == buf@[pos + t],
        decreases 32 - j,
    {
        r[j] = buf[pos + j];
        j = j + 1;
    }
    proof {
        assert(r@ =~= buf@.subrange(pos as int, pos + 32));
    }
    r
}

impl PostedVAAData {
    /// The message in its wire form.
    pub fn encode(&self) -> (r: Vec<u8>)
        ensures
            r@ == posted_bytes(*self),
    {
        let mut out: Vec<u8> = Vec::new();
        out.push(self.version);
        put_u32(&mut out, self.guardian_set_index);
        put_u32(&mut out, self.timestamp);
        put_u32(&mut out, self.nonce);
        put_u16(&mut out, self.emitter_chain);
        out.extend_from_slice(&self.emitter_address);
        put_u64(&mut out, self.sequence);
        out.push(self.consistency_level);
        out.extend_from_slice(self.payload.as_slice());
        proof {
            assert(out@ =~= posted_bytes(*self));
        }
        out
    }

    /// Reads a message from its wire form; the payload is every byte after
    /// the fixed fields. Fewer bytes than the fixed fields is `ShortBuffer`.
    pub fn decode(buf: &[u8]) -> (r: Result<PostedVAAData, VaaError>)
        ensures
            buf@.len() < 56 ==> r == Err::<PostedVAAData, VaaError>(VaaError::ShortBuffer),
            buf@.len() >= 56 ==> (r matches Ok(m) && posted_fields(m, buf@)),
    {
        if buf.len() < POSTED_HEADER_LEN {
            return Err(VaaError::ShortBuffer);
        }
        let version = buf[0];
        let guardian_set_index = match get_u32(buf, 1) {
            Ok(x) => x,
            Err(e) => return Err(e),
        };
        let timestamp = match get_u32(buf, 5) {
            Ok(x) => x,
            Err(e) => return Err(e),
        };
        let nonce = match get_u32(buf, 9) {
            Ok(x) => x,
            Err(e) => return Err(e),
        };
        let emitter_chain = match get_u16(buf, 13) {
            Ok(x) => x,
            Err(e) => return Err(e),
        };
        let emitter_address = read_bytes32(buf, 15);
        let sequence = match get_u64(buf, 47) {
            Ok(x) => x,
            Err(e) => return Err(e),
        };
        let consistency_level = buf[55];
        let payload = match RawPayload::deserialize(buf, POSTED_HEADER_LEN) {
            Ok((p, _)) => p.bytes,
            Err(e) => return Err(e),
        };
        proof {
            assert(payload@ =~= buf@.skip(56));
        }
        Ok(
            PostedVAAData {
                version,
                guardian_set_index,
                timestamp,
                nonce,
                emitter_chain,
                emitter_address,
                sequence,
                consistency_level,
                payload,
            },
        )
    }
}

/// Decoding the wire form of a message gives back each of its fields.
pub proof fn lemma_posted_round_trip(m: PostedVAAData)
    ensures
        posted_fields(m, posted_bytes(m)),
{
    let b = posted_bytes(m);
    reveal_with_fuel(pow256, 9);
    lemma_be_bytes_len(m.guardian_set_index as nat, 4);
    lemma_be_bytes_len(m.timestamp as nat, 4);
    lemma_be_bytes_len(m.nonce as nat, 4);
    lemma_be_bytes_len(m.emitter_chain as nat, 2);
    lemma_be_bytes_len(m.sequence as nat, 8);
    lemma_be_value_of_bytes(m.guardian_set_index as nat, 4);
    lemma_be_value_of_bytes(m.timestamp as nat, 4);
    lemma_be_value_of_bytes(m.nonce as nat, 4);
    lemma_be_value_of_bytes(m.emitter_chain as nat, 2);
    lemma_be_value_of_bytes(m.sequence as nat, 8);
    assert(b.subrange(1, 5) =~= be_bytes(m.guardian_set_index as nat, 4));
    assert(b.subrange(5, 9) =~= be_bytes(m.timestamp as nat, 4));
    assert(b.subrange(9, 13) =~= be_bytes(m.nonce as nat, 4));
    assert(b.subrange(13, 15) =~= be_bytes(m.emitter_chain as nat, 2));
    assert(b.subrange(15, 47) =~= m.emitter_address@);
    assert(b.subrange(47, 55) =~= be_bytes(m.sequence as nat, 8));
    assert(b.skip(56) =~= m.payload@);
}

/// A message read from some bytes writes back to exactly those bytes.
pub proof fn lemma_posted_canonical(m: PostedVAAData, b: Seq<u8>)
    requires
        posted_fields(m, b),
    ensures
        posted_bytes(m) == b,
{
    lemma_be_bytes_of_value(b.subrange(1, 5));
    lemma_be_bytes_of_value(b.subrange(5, 9));
    lemma_be_bytes_of_value(b.subrange(9, 13));
    lemma_be_bytes_of_value(b.subrange(13, 15));
    lemma_be_bytes_of_value(b.subrange(47, 55));
    assert(posted_bytes(m) =~= b);
}

/// One guardian's signature over a message.
pub struct SignatureItem {
    pub signature: Vec<u8>,
    pub key: [u8; 20],
    pub index: u8,
}

/// A posted message together with its payload decoded as `T`. It offers no
/// way to change either part.
pub struct PayloadMessage<T: DeserializePayload> {
    data: PostedVAAData,
    body: T,
}

impl<T: DeserializePayload> PayloadMessage<T> {
    /// The posted message this view was built from.
    pub closed spec fn spec_meta(&self) -> PostedVAAData {
        self.data
    }

    /// The decoded payload.
    pub closed spec fn spec_body(&self) -> T {
        self.body
    }

    /// Decodes the posted message's payload as `T`; the payload must be
    /// taken whole.
    pub fn peel(data: PostedVAAData) -> (r: Result<Self, VaaError>)
        ensures
            match decoded::<T>(data.payload@) {
                Ok(v) => r matches Ok(m) && m.spec_meta() == data && m.spec_body()@ == v,
                Err(e) => r is Err && r->Err_0 == e,
            },
    {
        match decode_payload::<T>(data.payload.as_slice()) {
            Ok(body) => Ok(PayloadMessage { data, body }),
            Err(e) => Err(e),
        }
    }

    /// The posted message's metadata and raw payload.
    pub fn meta(&self) -> (r: &PostedVAAData)
        ensures
            *r == self.spec_meta(),
    {
        &self.data
    }

    /// The decoded payload.
    pub fn payload(&self) -> (r: &T)
        ensures
            *r == self.spec_body(),
    {
        &self.body
    }
}

} // verus!
