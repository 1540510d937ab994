//! The core module's guardian-set change: a governance payload that names
//! the next guardian set by index and lists its 20-byte keys.
use crate::be::{
    be_bytes, be_value, get_u32, lemma_be_bytes_len, lemma_be_value_of_bytes, pow256, put_u32,
};
use crate::codec::{DeserializePayload, SelfDelimiting, SerializePayload};
use crate::error::VaaError;
use crate::governance::{
    check_header, framed, governance_header, header_check, lemma_chain_acceptance,
    DeserializeGovernancePayload, SerializeGovernancePayload, CHAIN_ID_SOLANA,
};
use vstd::prelude::*;

verus! {

/// Width of one guardian key.
pub const GUARDIAN_KEY_LEN: usize = 20;

/// Installs a new guardian set: its index and the keys of its members, at
/// most 255 of them.
pub struct GovernancePayloadGuardianSetChange {
    pub new_guardian_set_index: u32,
    pub new_guardian_set: Vec<[u8; 20]>,
}

impl View for GovernancePayloadGuardianSetChange {
    /// The index, and each key as its bytes.
    type V = (u32, Seq<Seq<u8>>);

    open spec fn view(&self) -> (u32, Seq<Seq<u8>>) {
        (self.new_guardian_set_index, self.new_guardian_set@.map_values(|k: [u8; 20]| k@))
    }
}

/// The module name `Core`, in ASCII.
pub open spec fn core_module() -> Seq<u8> {
    seq![0x43u8, 0x6fu8, 0x72u8, 0x65u8]
}

/// The keys written one after another.
pub open spec fn concat_keys(ks: Seq<Seq<u8>>) -> Seq<u8>
    decreases ks.len(),
{
    if ks.len() == 0 {
        Seq::empty()
    } else {
        concat_keys(ks.drop_last()) + ks.last()
    }
}

/// The `n` keys that follow the count byte in `b`.
pub open spec fn keys_at(b: Seq<u8>, n: nat) -> Seq<Seq<u8>> {
    Seq::new(n, |i: int| b.subrange(5 + 20 * i, 25 + 20 * i))
}

proof fn lemma_concat_keys(ks: Seq<Seq<u8>>)
    requires
        forall|i: int| 0 <= i < ks.len() ==> #[trigger] ks[i].len() == 20,
    ensures
        concat_keys(ks).len() == 20 * ks.len(),
        forall|i: int| 0 <= i < ks.len() ==> #[trigger] concat_keys(ks).subrange(20 * i, 20 * i + 20) == ks[i],
    decreases ks.len(),
{
    if ks.len() > 0 {
        let d = ks.drop_last();
        lemma_concat_keys(d);
        let c = concat_keys(ks);
        assert(c == concat_keys(d) + ks.last());
        assert forall|i: int| 0 <= i < ks.len() implies #[trigger] c.subrange(20 * i, 20 * i + 20) == ks[i] by {
            if i < d.len() {
                assert(c.subrange(20 * i, 20 * i + 20) =~= concat_keys(d).subrange(20 * i, 20 * i + 20));
            } else {
                assert(c.subrange(20 * i, 20 * i + 20) =~= ks.last());
            }
        }
    }
}

impl SerializePayload for GovernancePayloadGuardianSetChange {
    open spec fn encodable(v: (u32, Seq<Seq<u8>>)) -> bool {
        &&& v.1.len() <= 255
        &&& forall|i: int| 0 <= i < v.1.len() ==> #[trigger] v.1[i].len() == 20
    }

    open spec fn encoding(v: (u32, Seq<Seq<u8>>)) -> Seq<u8> {
        be_bytes(v.0 as nat, 4) + seq![v.1.len() as u8] + concat_keys(v.1)
    }

    fn serialize(&self, out: &mut Vec<u8>) -> (r: Result<(), VaaError>) {
        let n = self.new_guardian_set.len();
        if n > 255 {
            return Err(VaaError::FieldOutOfRange);
        }
        let ghost ks = self@.1;
        put_u32(out, self.new_guardian_set_index);
        out.push(n as u8);
        let ghost start = out@;
        let mut i: usize = 0;
        while i < n
            invariant
                i <= n,
                n == self.new_guardian_set@.len(),
                ks == self@.1,
                out@ == start + concat_keys(ks.take(i as int)),
            decreases n - i,
        {
            let key: &[u8; 20] = &self.new_guardian_set[i];
            out.extend_from_slice(key);
            proof {
                assert(ks.take(i + 1).drop_last() =~= ks.take(i as int));
                assert(ks[i as int] == key@);
            }
            i = i + 1;
        }
        proof {
            assert(ks.take(n as int) =~= ks);
        }
        Ok(())
    }
}

/// What reading a guardian-set change body from the front of `b` gives:
/// the index, the key count, then that many keys.
pub open spec fn guardian_set_body(b: Seq<u8>) -> Result<((u32, Seq<Seq<u8>>), nat), VaaError> {
    if b.len() < 5 {
        Err(VaaError::ShortBuffer)
    } else if b.len() < 5 + 20 * (b[4] as nat) {
        Err(VaaError::ShortBuffer)
    } else {
        Ok(((be_value(b.take(4)) as u32, keys_at(b, b[4] as nat)), 5 + 20 * (b[4] as nat)))
    }
}

/// Reads a body (without header) from `buf` at `pos`.
fn deserialize_body(buf: &[u8], pos: usize) -> (r: Result<(GovernancePayloadGuardianSetChange, usize), VaaError>)
requires
    pos <= buf@.len(),
ensures
    match guardian_set_body(buf@.subrange(pos as int, buf@.len() as int)) {
        Ok((v, n)) => r matches Ok((x, end)) && x@ == v && end == pos + n,
        Err(e) => r == Err::<(GovernancePayloadGuardianSetChange, usize), VaaError>(e),
    },
{
    let ghost b = buf@.subrange(pos as int, buf@.len() as int);
    if buf.len() - pos < 5 {
        return Err(VaaError::ShortBuffer);
    }
    let index = match get_u32(buf, pos) {
        Ok(x) => x,
        Err(e) => return Err(e),
    };
    proof {
        assert(b.take(4) =~= buf@.subrange(pos as int, pos + 4));
    }
    let n = buf[pos + 4] as usize;
    if buf.len() - pos - 5 < GUARDIAN_KEY_LEN * n {
        return Err(VaaError::ShortBuffer);
    }
    let mut keys: Vec<[u8; 20]> = Vec::new();
    let mut i: usize = 0;
    while i < n
        invariant
            i <= n,
            n <= 255,
            pos + 5 + 20 * n <= buf.len(),
            b == buf@.subrange(pos as int, buf@.len() as int),
            keys@.len() == i,
            forall|k: int| 0 <= k < i ==> #[trigger] keys@[k]@ == b.subrange(5 + 20 * k, 25 + 20 * k),
        decreases n - i,
    {
        let base: usize = pos + 5 + GUARDIAN_KEY_LEN * i;
        let mut key = [0u8; 20];
        let mut j: usize = 0;
        while j < GUARDIAN_KEY_LEN
            invariant
                j <= 20,
                i < n,
                base == pos + 5 + 20 * i,
                pos + 5 + 20 * n <= buf.len(),
                forall|t: int| 0 <= t < j ==> key@[t] == buf@[base + t],
            decreases 20 - j,
        {
            key[j] = buf[base + j];
            j = j + 1;
        }
        proof {
            assert(key@ =~= b.subrange(5 + 20 * i, 25 + 20 * i));
        }
        keys.push(key);
        i = i + 1;
    }
    let r = GovernancePayloadGuardianSetChange { new_guardian_set_index: index, new_guardian_set: keys };
    proof {
        assert(r@.1 =~= keys_at(b, n as nat));
    }
    Ok((r, pos + 5 + GUARDIAN_KEY_LEN * n))
}

impl DeserializePayload for GovernancePayloadGuardianSetChange {
    open spec fn parse(b: Seq<u8>) -> Result<((u32, Seq<Seq<u8>>), nat), VaaError> {
        framed(header_check(b, core_module(), 2), guardian_set_body(b.skip(35)))
    }

    open spec fn wire(v: (u32, Seq<Seq<u8>>)) -> Seq<u8> {
        governance_header(core_module(), 2, CHAIN_ID_SOLANA) + Self::encoding(v)
    }

    fn deserialize(buf: &[u8], pos: usize) -> (r: Result<(Self, usize), VaaError>) {
        let module = Self::module();
        let action = Self::action();
        let start = match check_header(buf, pos, module.as_slice(), action) {
            Ok(p) => p,
            Err(e) => return Err(e),
        };
        proof {
            let sub = buf@.subrange(pos as int, buf@.len() as int);
            assert(module@ == core_module());
            assert(action == 2);
            assert(header_check(sub, module@, 2) is Ok);
            assert(sub.len() >= 35);
            assert(buf@.len() == buf.len());
            assert(start == pos + 35);
            assert(buf@.subrange(start as int, buf@.len() as int) =~= buf@.subrange(
                pos as int,
                buf@.len() as int,
            ).skip(35));
        }
        deserialize_body(buf, start)
    }

    proof fn lemma_round_trip(v: (u32, Seq<Seq<u8>>)) {
        lemma_parse_wire_prefix(v, Seq::empty());
        assert(Self::wire(v) + Seq::<u8>::empty() =~= Self::wire(v));
    }
}

impl SelfDelimiting for GovernancePayloadGuardianSetChange {
    proof fn lemma_parse_prefix(v: (u32, Seq<Seq<u8>>), rest: Seq<u8>) {
        lemma_parse_wire_prefix(v, rest);
    }
}

impl SerializeGovernancePayload for GovernancePayloadGuardianSetChange {
    /// The module name `Core`.
    open spec fn spec_module() -> Seq<u8> {
        core_module()
    }

    open spec fn spec_action() -> u8 {
        2
    }

    fn module() -> (r: Vec<u8>) {
        let r = vec![0x43u8, 0x6fu8, 0x72u8, 0x65u8];
        proof {
            assert(r@ =~= core_module());
        }
        r
    }

    fn action() -> (r: u8) {
        2
    }
}

impl DeserializeGovernancePayload for GovernancePayloadGuardianSetChange {
    open spec fn parse_body(b: Seq<u8>) -> Result<((u32, Seq<Seq<u8>>), nat), VaaError> {
        guardian_set_body(b)
    }

    proof fn lemma_parse_framed(b: Seq<u8>) {
    }

    proof fn lemma_wire_framed(v: (u32, Seq<Seq<u8>>)) {
    }

    proof fn lemma_body_prefix(v: (u32, Seq<Seq<u8>>), rest: Seq<u8>) {
        lemma_body_encoding(v, rest);
    }
}

/// Reading a body's encoding, followed by anything, gives the body and
/// takes exactly its encoding.
proof fn lemma_body_encoding(v: (u32, Seq<Seq<u8>>), rest: Seq<u8>)
    requires
        <GovernancePayloadGuardianSetChange as SerializePayload>::encodable(v),
    ensures
        guardian_set_body(<GovernancePayloadGuardianSetChange as SerializePayload>::encoding(v) + rest)
            == Ok::<((u32, Seq<Seq<u8>>), nat), VaaError>(
            (v, <GovernancePayloadGuardianSetChange as SerializePayload>::encoding(v).len()),
        ),
{
    let e = <GovernancePayloadGuardianSetChange as SerializePayload>::encoding(v);
    let b = e + rest;
    let n = v.1.len();
    lemma_be_bytes_len(v.0 as nat, 4);
    lemma_concat_keys(v.1);
    reveal_with_fuel(pow256, 5);
    lemma_be_value_of_bytes(v.0 as nat, 4);
    assert(b.take(4) =~= be_bytes(v.0 as nat, 4));
    assert(b[4] == n as u8);
    assert(keys_at(b, n) =~= v.1) by {
        assert forall|i: int| 0 <= i < n implies #[trigger] keys_at(b, n)[i] == v.1[i] by {
            assert(concat_keys(v.1).subrange(20 * i, 20 * i + 20) == v.1[i]);
            assert(b.subrange(5 + 20 * i, 25 + 20 * i) =~= concat_keys(v.1).subrange(
                20 * i,
                20 * i + 20,
            ));
        }
    }
}

/// The written form of a change, followed by anything, reads back as the
/// change and takes exactly the written form.
proof fn lemma_parse_wire_prefix(v: (u32, Seq<Seq<u8>>), rest: Seq<u8>)
    requires
        <GovernancePayloadGuardianSetChange as SerializePayload>::encodable(v),
    ensures
        <GovernancePayloadGuardianSetChange as DeserializePayload>::parse(
            <GovernancePayloadGuardianSetChange as DeserializePayload>::wire(v) + rest,
        ) == Ok::<((u32, Seq<Seq<u8>>), nat), VaaError>(
            (v, <GovernancePayloadGuardianSetChange as DeserializePayload>::wire(v).len()),
        ),
{
    let e = <GovernancePayloadGuardianSetChange as SerializePayload>::encoding(v);
    let h = governance_header(core_module(), 2, CHAIN_ID_SOLANA);
    let w = <GovernancePayloadGuardianSetChange as DeserializePayload>::wire(v);
    assert(w == h + e);
    lemma_be_bytes_len(CHAIN_ID_SOLANA as nat, 2);
    assert(h.len() == 35);
    lemma_guardian_set_prefix(v, CHAIN_ID_SOLANA, rest);
}

/// A change with its header addressed to this chain or to every chain reads
/// back as the change, taking the header and the body and leaving the rest.
proof fn lemma_guardian_set_prefix(v: (u32, Seq<Seq<u8>>), chain: u16, rest: Seq<u8>)
    requires
        <GovernancePayloadGuardianSetChange as SerializePayload>::encodable(v),
        chain == CHAIN_ID_SOLANA || chain == crate::governance::CHAIN_ID_ANY,
    ensures
        ({
            let e = <GovernancePayloadGuardianSetChange as SerializePayload>::encoding(v);
            let b = governance_header(core_module(), 2, chain) + e + rest;
            framed(header_check(b, core_module(), 2), guardian_set_body(b.skip(35))) == Ok::<
                ((u32, Seq<Seq<u8>>), nat),
                VaaError,
            >((v, 35 + e.len()))
        }),
{
    let e = <GovernancePayloadGuardianSetChange as SerializePayload>::encoding(v);
    let h = governance_header(core_module(), 2, chain);
    let b = h + e + rest;
    lemma_be_bytes_len(chain as nat, 2);
    lemma_chain_acceptance(core_module(), 2, chain, e + rest);
    assert(b =~= h + (e + rest));
    assert(b.skip(35) =~= e + rest);
    lemma_body_encoding(v, rest);
}

} // verus!
