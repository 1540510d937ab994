//! Governance framing: a fixed header of module tag, action and target chain
//! in front of a payload body.
use crate::be::{be_bytes, be_value, get_u16, pow256, lemma_be_bytes_len, lemma_be_value_of_bytes, put_u16};
use crate::codec::{decoded, DeserializePayload, SerializePayload};
use crate::error::VaaError;
use vstd::prelude::*;

verus! {

/// The id of the chain this program runs on.
pub const CHAIN_ID_SOLANA: u16 = 1;

/// The chain id that addresses every chain at once.
pub const CHAIN_ID_ANY: u16 = 0;

/// Width of the module tag field.
pub const MODULE_LEN: usize = 32;

/// Width of the whole header: module tag, action byte, chain id.
pub const GOVERNANCE_HEADER_LEN: usize = 35;

/// The module name right-aligned in a 32-byte field of zeros.
pub open spec fn padded_module(m: Seq<u8>) -> Seq<u8> {
    Seq::new((32 - m.len()) as nat, |i: int| 0u8) + m
}

/// The header bytes for module `m`, `action` and target chain `chain`.
pub open spec fn governance_header(m: Seq<u8>, action: u8, chain: u16) -> Seq<u8> {
    padded_module(m) + seq![action] + be_bytes(chain as nat, 2)
}

/// A target chain is accepted when it names this chain or every chain.
pub open spec fn chain_accepted(c: nat) -> bool {
    c == CHAIN_ID_SOLANA as nat || c == CHAIN_ID_ANY as nat
}

/// The verdict on the header at the front of `b`, for module `m` and
/// `action`, checking the fields in order.
pub open spec fn header_check(b: Seq<u8>, m: Seq<u8>, action: u8) -> Result<(), VaaError> {
    if b.len() < 32 {
        Err(VaaError::ShortBuffer)
    } else if m.len() > 32 || b.take(32) != padded_module(m) {
        Err(VaaError::InvalidGovernanceModule)
    } else if b.len() < 33 {
        Err(VaaError::ShortBuffer)
    } else if b[32] != action {
        Err(VaaError::InvalidGovernanceAction)
    } else if b.len() < 35 {
        Err(VaaError::ShortBuffer)
    } else if !chain_accepted(be_value(b.subrange(33, 35))) {
        Err(VaaError::InvalidGovernanceChain)
    } else {
        Ok(())
    }
}

/// The module name in its 32-byte field, or `FieldOutOfRange` when the name
/// is longer than the field.
pub fn pad_module(module: &[u8]) -> (r: Result<Vec<u8>, VaaError>)
    ensures
        module@.len() <= 32 ==> (r matches Ok(p) && p@ == padded_module(module@)),
        module@.len() > 32 ==> r == Err::<Vec<u8>, VaaError>(VaaError::FieldOutOfRange),
{
    if module.len() > MODULE_LEN {
        return Err(VaaError::FieldOutOfRange);
    }
    let fill: usize = MODULE_LEN - module.len();
    let mut out: Vec<u8> = Vec::new();
    let mut i: usize = 0;
    while i < fill
        invariant
            i <= fill,
            out@ == Seq::new(i as nat, |k: int| 0u8),
        decreases fill - i,
    {
        out.push(0u8);
        i = i + 1;
        proof {
            assert(out@ =~= Seq::new(i as nat, |k: int| 0u8));
        }
    }
    out.extend_from_slice(module);
    proof {
        assert(out@ =~= padded_module(module@));
    }
    Ok(out)
}

/// Appends the header for `module`, `action` and this chain to `out`; a
/// module name longer than 32 bytes is refused and `out` left as it was.
pub fn write_header(module: &[u8], action: u8, out: &mut Vec<u8>) -> (r: Result<(), VaaError>)
    ensures
        module@.len() <= 32 ==> r is Ok && final(out)@ == old(out)@ + governance_header(
            module@,
            action,
            CHAIN_ID_SOLANA,
        ),
        module@.len() > 32 ==> r == Err::<(), VaaError>(VaaError::FieldOutOfRange) && final(out)@
            == old(out)@,
{
    let padded = match pad_module(module) {
        Ok(p) => p,
        Err(e) => return Err(e),
    };
    out.extend_from_slice(padded.as_slice());
    out.push(action);
    put_u16(out, CHAIN_ID_SOLANA);
    proof {
        assert(final(out)@ =~= old(out)@ + governance_header(module@, action, CHAIN_ID_SOLANA));
    }
    Ok(())
}

/// Checks the header at `pos` against `module` and `action`, and returns
/// the position of the body after it.
pub fn check_header(buf: &[u8], pos: usize, module: &[u8], action: u8) -> (r: Result<usize, VaaError>)
    requires
        pos <= buf@.len(),
    ensures
        match header_check(buf@.subrange(pos as int, buf@.len() as int), module@, action) {
            Ok(_) => r == Ok::<usize, VaaError>((pos + 35) as usize),
            Err(e) => r == Err::<usize, VaaError>(e),
        },
{
    let ghost b = buf@.subrange(pos as int, buf@.len() as int);
    if buf.len() - pos < MODULE_LEN {
        return Err(VaaError::ShortBuffer);
    }
    let padded = match pad_module(module) {
        Ok(p) => p,
        Err(_) => return Err(VaaError::InvalidGovernanceModule),
    };
    let mut i: usize = 0;
    while i < MODULE_LEN
        invariant
            i <= 32,
            pos + 32 <= buf.len(),
            padded@.len() == 32,
            padded@ == padded_module(module@),
            b == buf@.subrange(pos as int, buf@.len() as int),
            forall|k: int| 0 <= k < i ==> b[k] == padded@[k],
        decreases 32 - i,
    {
        if buf[pos + i] != padded[i] {
            proof {
                assert(b.take(32)[i as int] != padded_module(module@)[i as int]);
            }
            return Err(VaaError::InvalidGovernanceModule);
        }
        i = i + 1;
    }
    proof {
        assert(b.take(32) =~= padded_module(module@));
    }
    if buf.len() - pos < 33 {
        return Err(VaaError::ShortBuffer);
    }
    if buf[pos + 32] != action {
        return Err(VaaError::InvalidGovernanceAction);
    }
    let chain = match get_u16(buf, pos + 33) {
        Ok(c) => c,
        Err(e) => return Err(e),
    };
    proof {
        assert(b.subrange(33, 35) =~= buf@.subrange(pos + 33, pos + 35));
    }
    if chain != CHAIN_ID_SOLANA && chain != CHAIN_ID_ANY {
        return Err(VaaError::InvalidGovernanceChain);
    }
    Ok(pos + GOVERNANCE_HEADER_LEN)
}

/// A payload type that travels behind a governance header: it names its
/// module and its action within that module.
pub trait SerializeGovernancePayload: SerializePayload {
    /// The module name, in ASCII bytes.
    spec fn spec_module() -> Seq<u8>;

    /// The action code within the module.
    spec fn spec_action() -> u8;

    fn module() -> (r: Vec<u8>)
        ensures
            r@ == Self::spec_module(),
    ;

    fn action() -> (r: u8)
        ensures
            r == Self::spec_action(),
    ;

    /// Appends this type's header, addressed to this chain, to `c`.
    fn write_governance_header(&self, c: &mut Vec<u8>) -> (r: Result<(), VaaError>)
        ensures
            Self::spec_module().len() <= 32 ==> r is Ok && final(c)@ == old(c)@ + governance_header(
                Self::spec_module(),
                Self::spec_action(),
                CHAIN_ID_SOLANA,
            ),
            Self::spec_module().len() > 32 ==> r == Err::<(), VaaError>(VaaError::FieldOutOfRange)
                && final(c)@ == old(c)@,
    {
        let m = Self::module();
        write_header(m.as_slice(), Self::action(), c)
    }

    /// The header followed by the body, in a new buffer.
    fn try_to_governance_vec(&self) -> (r: Result<Vec<u8>, VaaError>)
        ensures
            Self::spec_module().len() <= 32 && <Self as SerializePayload>::encodable(self@) ==> (r matches Ok(b)
                && b@ == governance_header(Self::spec_module(), Self::spec_action(), CHAIN_ID_SOLANA)
                + <Self as SerializePayload>::encoding(self@)),
            Self::spec_module().len() > 32 || !<Self as SerializePayload>::encodable(self@) ==> r
                == Err::<Vec<u8>, VaaError>(VaaError::FieldOutOfRange),
    {
        let mut result: Vec<u8> = Vec::new();
        match self.write_governance_header(&mut result) {
            Ok(()) => {},
            Err(e) => return Err(e),
        }
        match self.serialize(&mut result) {
            Ok(()) => Ok(result),
            Err(e) => Err(e),
        }
    }
}

/// What reading a governance payload gives: the header's verdict first,
/// and only when it passes, the body after the header's 35 bytes.
pub open spec fn framed<V>(header: Result<(), VaaError>, body: Result<(V, nat), VaaError>) -> Result<
    (V, nat),
    VaaError,
> {
    match header {
        Err(e) => Err(e),
        Ok(_) => match body {
            Ok((v, n)) => Ok((v, n + 35)),
            Err(e) => Err(e),
        },
    }
}

/// A governance payload type that can also be read. Its reader checks the
/// header before it reads the body.
pub trait DeserializeGovernancePayload: DeserializePayload + SerializeGovernancePayload {
    /// What reading a body (without header) from the front of `b` gives.
    spec fn parse_body(b: Seq<u8>) -> Result<(<Self as View>::V, nat), VaaError>;

    /// Reading a payload is checking the header, then reading the body.
    proof fn lemma_parse_framed(b: Seq<u8>)
        ensures
            <Self as DeserializePayload>::parse(b) == framed(
                header_check(b, Self::spec_module(), Self::spec_action()),
                Self::parse_body(b.skip(35)),
            ),
    ;

    /// The written form is the header addressed to this chain, then the
    /// body.
    proof fn lemma_wire_framed(v: <Self as View>::V)
        ensures
            <Self as DeserializePayload>::wire(v) == governance_header(
                Self::spec_module(),
                Self::spec_action(),
                CHAIN_ID_SOLANA,
            ) + <Self as SerializePayload>::encoding(v),
    ;

    /// Reading the body's encoding, followed by anything, gives the body and
    /// takes exactly its encoding.
    proof fn lemma_body_prefix(v: <Self as View>::V, rest: Seq<u8>)
        requires
            <Self as SerializePayload>::encodable(v),
        ensures
            Self::parse_body(<Self as SerializePayload>::encoding(v) + rest) == Ok::<
                (<Self as View>::V, nat),
                VaaError,
            >((v, <Self as SerializePayload>::encoding(v).len())),
    ;

    /// Checks this type's header at `pos` and returns the position of the
    /// body after it.
    fn check_governance_header(buf: &[u8], pos: usize) -> (r: Result<usize, VaaError>)
        requires
            pos <= buf@.len(),
        ensures
            match header_check(
                buf@.subrange(pos as int, buf@.len() as int),
                Self::spec_module(),
                Self::spec_action(),
            ) {
                Ok(_) => r == Ok::<usize, VaaError>((pos + 35) as usize),
                Err(e) => r == Err::<usize, VaaError>(e),
            },
    {
        let m = Self::module();
        check_header(buf, pos, m.as_slice(), Self::action())
    }
}

/// The module field of a header is the name right-aligned behind zeros,
/// and the header is 35 bytes long.
pub proof fn lemma_module_padding(m: Seq<u8>, action: u8, chain: u16)
    requires
        m.len() <= 32,
    ensures
        governance_header(m, action, chain).len() == 35,
        governance_header(m, action, chain).take(32) == Seq::new((32 - m.len()) as nat, |i: int| 0u8) + m,
        forall|i: int| 0 <= i < 32 - m.len() ==> governance_header(m, action, chain)[i] == 0u8,
        governance_header(m, action, chain).subrange(32 - m.len(), 32) == m,
{
    lemma_be_bytes_len(chain as nat, 2);
    let h = governance_header(m, action, chain);
    assert(h.take(32) =~= padded_module(m));
    assert(h.subrange(32 - m.len(), 32) =~= m);
}

/// A well-formed header passes the check exactly when its chain id names
/// this chain or every chain; otherwise it fails with
/// `InvalidGovernanceChain`. Whatever follows the header does not matter.
pub proof fn lemma_chain_acceptance(m: Seq<u8>, action: u8, chain: u16, rest: Seq<u8>)
    requires
        m.len() <= 32,
    ensures
        (chain == CHAIN_ID_SOLANA || chain == CHAIN_ID_ANY) ==> header_check(
            governance_header(m, action, chain) + rest,
            m,
            action,
        ) == Ok::<(), VaaError>(()),
        (chain != CHAIN_ID_SOLANA && chain != CHAIN_ID_ANY) ==> header_check(
            governance_header(m, action, chain) + rest,
            m,
            action,
        ) == Err::<(), VaaError>(VaaError::InvalidGovernanceChain),
{
    reveal_with_fuel(pow256, 3);
    assert(pow256(2) == 65536);
    lemma_be_bytes_len(chain as nat, 2);
    lemma_be_value_of_bytes(chain as nat, 2);
    let b = governance_header(m, action, chain) + rest;
    assert(b.take(32) =~= padded_module(m));
    assert(b[32] == action);
    assert(b.subrange(33, 35) =~= be_bytes(chain as nat, 2));
}

/// A governance payload whose header is addressed to this chain or to every
/// chain reads back as its body, taking the header and the body's encoding
/// and leaving whatever follows.
pub proof fn lemma_governance_prefix<T: DeserializeGovernancePayload>(
    v: <T as View>::V,
    chain: u16,
    rest: Seq<u8>,
)
    requires
        T::spec_module().len() <= 32,
        <T as SerializePayload>::encodable(v),
        chain == CHAIN_ID_SOLANA || chain == CHAIN_ID_ANY,
    ensures
        <T as DeserializePayload>::parse(
            governance_header(T::spec_module(), T::spec_action(), chain)
                + <T as SerializePayload>::encoding(v) + rest,
        ) == Ok::<(<T as View>::V, nat), VaaError>(
            (v, 35 + <T as SerializePayload>::encoding(v).len()),
        ),
{
    let h = governance_header(T::spec_module(), T::spec_action(), chain);
    let e = <T as SerializePayload>::encoding(v);
    let b = h + e + rest;
    lemma_be_bytes_len(chain as nat, 2);
    lemma_chain_acceptance(T::spec_module(), T::spec_action(), chain, e + rest);
    assert(b =~= h + (e + rest));
    assert(b.skip(35) =~= e + rest);
    T::lemma_parse_framed(b);
    T::lemma_body_prefix(v, rest);
}

/// A governance payload, with its header addressed to this chain or to
/// every chain, decodes to its body.
pub proof fn lemma_governance_round_trip<T: DeserializeGovernancePayload>(v: <T as View>::V, chain: u16)
    requires
        T::spec_module().len() <= 32,
        <T as SerializePayload>::encodable(v),
        chain == CHAIN_ID_SOLANA || chain == CHAIN_ID_ANY,
    ensures
        decoded::<T>(
            governance_header(T::spec_module(), T::spec_action(), chain)
                + <T as SerializePayload>::encoding(v),
        ) == Ok::<<T as View>::V, VaaError>(v),
{
    let b = governance_header(T::spec_module(), T::spec_action(), chain)
        + <T as SerializePayload>::encoding(v);
    lemma_governance_prefix::<T>(v, chain, Seq::empty());
    assert(b + Seq::<u8>::empty() =~= b);
    lemma_be_bytes_len(chain as nat, 2);
}

/// A governance payload whose header names another chain fails with
/// `InvalidGovernanceChain`, whatever follows the header: the body is not
/// read.
pub proof fn lemma_governance_wrong_chain<T: DeserializeGovernancePayload>(chain: u16, tail: Seq<u8>)
    requires
        T::spec_module().len() <= 32,
        chain != CHAIN_ID_SOLANA,
        chain != CHAIN_ID_ANY,
    ensures
        decoded::<T>(governance_header(T::spec_module(), T::spec_action(), chain) + tail) == Err::<
            <T as View>::V,
            VaaError,
        >(VaaError::InvalidGovernanceChain),
{
    let b = governance_header(T::spec_module(), T::spec_action(), chain) + tail;
    lemma_chain_acceptance(T::spec_module(), T::spec_action(), chain, tail);
    T::lemma_parse_framed(b);
}

/// The written form of a governance payload is self-delimiting: it reads
/// back as the payload and leaves what follows.
pub proof fn lemma_governance_wire_prefix<T: DeserializeGovernancePayload>(
    v: <T as View>::V,
    rest: Seq<u8>,
)
    requires
        T::spec_module().len() <= 32,
        <T as SerializePayload>::encodable(v),
    ensures
        <T as DeserializePayload>::parse(<T as DeserializePayload>::wire(v) + rest) == Ok::<
            (<T as View>::V, nat),
            VaaError,
        >((v, <T as DeserializePayload>::wire(v).len())),
{
    T::lemma_wire_framed(v);
    lemma_governance_prefix::<T>(v, CHAIN_ID_SOLANA, rest);
    lemma_be_bytes_len(CHAIN_ID_SOLANA as nat, 2);
}

} // verus!
