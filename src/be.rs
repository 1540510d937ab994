//! Big-endian integers: their value as a byte sequence, and the reads and
//! writes of fixed-width integers.
use byteorder::{BigEndian, ByteOrder};
use vstd::prelude::*;

verus! {

/// `256` to the power `k`.
pub open spec fn pow256(k: nat) -> nat
    decreases k,
{
    if k == 0 {
        1
    } else {
        256 * pow256((k - 1) as nat)
    }
}

/// The number that `s` writes in big-endian order: the first byte weighs most.
pub open spec fn be_value(s: Seq<u8>) -> nat
    decreases s.len(),
{
    if s.len() == 0 {
        0
    } else {
        be_value(s.drop_last()) * 256 + s.last() as nat
    }
}

/// The `k` low-order base-256 digits of `n`, most significant first.
pub open spec fn be_bytes(n: nat, k: nat) -> Seq<u8>
    decreases k,
{
    if k == 0 {
        Seq::empty()
    } else {
        be_bytes(n / 256, (k - 1) as nat).push((n % 256) as u8)
    }
}

pub proof fn lemma_pow256_positive(k: nat)
    ensures
        pow256(k) >= 1,
    decreases k,
{
    if k > 0 {
        lemma_pow256_positive((k - 1) as nat);
    }
}

pub proof fn lemma_be_bytes_len(n: nat, k: nat)
    ensures
        be_bytes(n, k).len() == k,
    decreases k,
{
    if k > 0 {
        lemma_be_bytes_len(n / 256, (k - 1) as nat);
    }
}

/// The value of a byte sequence is below `256` to the power of its length.
pub proof fn lemma_be_value_bound(s: Seq<u8>)
    ensures
        be_value(s) < pow256(s.len()),
    decreases s.len(),
{
    if s.len() > 0 {
        lemma_be_value_bound(s.drop_last());
        let v = be_value(s.drop_last());
        let p = pow256((s.len() - 1) as nat);
        assert(v * 256 + (s.last() as nat) < p * 256) by (nonlinear_arith)
            requires
                v < p,
                (s.last() as nat) < 256,
        ;
    }
}

/// Writing `n` in `k` digits and reading it back gives `n`, when it fits.
pub proof fn lemma_be_value_of_bytes(n: nat, k: nat)
    requires
        n < pow256(k),
    ensures
        be_value(be_bytes(n, k)) == n,
    decreases k,
{
    if k > 0 {
        let q = n / 256;
        let p = pow256((k - 1) as nat);
        assert(q < p) by (nonlinear_arith)
            requires
                n < 256 * p,
                q == n / 256,
        ;
        lemma_be_value_of_bytes(q, (k - 1) as nat);
        let s = be_bytes(n, k);
        assert(s.drop_last() =~= be_bytes(q, (k - 1) as nat));
    }
}

/// Reading a byte sequence and writing the value back in as many digits gives
/// the same bytes.
pub proof fn lemma_be_bytes_of_value(s: Seq<u8>)
    ensures
        be_bytes(be_value(s), s.len()) == s,
    decreases s.len(),
{
    if s.len() > 0 {
        let d = s.drop_last();
        lemma_be_bytes_of_value(d);
        let v = be_value(d);
        let last = s.last() as nat;
        assert((v * 256 + last) / 256 == v && (v * 256 + last) % 256 == last) by (nonlinear_arith)
            requires
                last < 256,
        ;
        assert(be_bytes(be_value(s), s.len()) =~= d.push(s.last()));
        assert(d.push(s.last()) =~= s);
    }
}

/// Two byte sequences of one length with one value are the same sequence.
pub proof fn lemma_be_value_injective(a: Seq<u8>, b: Seq<u8>)
    requires
        a.len() == b.len(),
        be_value(a) == be_value(b),
    ensures
        a == b,
{
    lemma_be_bytes_of_value(a);
    lemma_be_bytes_of_value(b);
}

/// Reading bytes in the opposite order gives another number, unless the
/// bytes read the same both ways.
pub proof fn lemma_byte_order_matters(s: Seq<u8>)
    requires
        s != s.reverse(),
    ensures
        be_value(s) != be_value(s.reverse()),
{
    if be_value(s) == be_value(s.reverse()) {
        lemma_be_value_injective(s, s.reverse());
    }
}

/// Relies on byteorder's `BigEndian::read_u16`: the first two bytes of the
/// slice, most significant first.
#[verifier::external_body]
fn read_u16_at(buf: &[u8], pos: usize) -> (r: u16)
    requires
        pos + 2 <= buf@.len(),
    ensures
        r as nat == be_value(buf@.subrange(pos as int, pos + 2)),
{
    BigEndian::read_u16(&buf[pos..])
}

/// Relies on byteorder's `BigEndian::read_u32`: the first four bytes of the
/// slice, most significant first.
#[verifier::external_body]
fn read_u32_at(buf: &[u8], pos: usize) -> (r: u32)
    requires
        pos + 4 <= buf@.len(),
    ensures
        r as nat == be_value(buf@.subrange(pos as int, pos + 4)),
{
    BigEndian::read_u32(&buf[pos..])
}

/// Relies on byteorder's `BigEndian::read_u64`: the first eight bytes of the
/// slice, most significant first.
#[verifier::external_body]
fn read_u64_at(buf: &[u8], pos: usize) -> (r: u64)
    requires
        pos + 8 <= buf@.len(),
    ensures
        r as nat == be_value(buf@.subrange(pos as int, pos + 8)),
{
    BigEndian::read_u64(&buf[pos..])
}

/// Relies on byteorder's `BigEndian::write_u16`: `n` as two bytes, most
/// significant first.
#[verifier::external_body]
fn u16_bytes(n: u16) -> (r: [u8; 2])
    ensures
        r@ == be_bytes(n as nat, 2),
{
    let mut b = [0u8; 2];
    BigEndian::write_u16(&mut b, n);
    b
}

/// Relies on byteorder's `BigEndian::write_u32`: `n` as four bytes, most
/// significant first.
#[verifier::external_body]
fn u32_bytes(n: u32) -> (r: [u8; 4])
    ensures
        r@ == be_bytes(n as nat, 4),
{
    let mut b = [0u8; 4];
    BigEndian::write_u32(&mut b, n);
    b
}

/// Relies on byteorder's `BigEndian::write_u64`: `n` as eight bytes, most
/// significant first.
#[verifier::external_body]
fn u64_bytes(n: u64) -> (r: [u8; 8])
    ensures
        r@ == be_bytes(n as nat, 8),
{
    let mut b = [0u8; 8];
    BigEndian::write_u64(&mut b, n);
    b
}

/// Reads the big-endian `u16` at `pos`, or fails when fewer than two bytes
/// are left there.
pub fn get_u16(buf: &[u8], pos: usize) -> (r: Result<u16, crate::error::VaaError>)
    requires
        pos <= buf@.len(),
    ensures
        buf@.len() - pos < 2 ==> r == Err::<u16, crate::error::VaaError>(
            crate::error::VaaError::ShortBuffer,
        ),
        buf@.len() - pos >= 2 ==> (r matches Ok(v) && v as nat == be_value(buf@.subrange(pos as int, pos + 2))),
{
    if buf.len() - pos < 2 {
        Err(crate::error::VaaError::ShortBuffer)
    } else {
        Ok(read_u16_at(buf, pos))
    }
}

/// Reads the big-endian `u32` at `pos`, or fails when fewer than four bytes
/// are left there.
pub fn get_u32(buf: &[u8], pos: usize) -> (r: Result<u32, crate::error::VaaError>)
    requires
        pos <= buf@.len(),
    ensures
        buf@.len() - pos < 4 ==> r == Err::<u32, crate::error::VaaError>(
            crate::error::VaaError::ShortBuffer,
        ),
        buf@.len() - pos >= 4 ==> (r matches Ok(v) && v as nat == be_value(buf@.subrange(pos as int, pos + 4))),
{
    if buf.len() - pos < 4 {
        Err(crate::error::VaaError::ShortBuffer)
    } else {
        Ok(read_u32_at(buf, pos))
    }
}

/// Reads the big-endian `u64` at `pos`, or fails when fewer than eight bytes
/// are left there.
pub fn get_u64(buf: &[u8], pos: usize) -> (r: Result<u64, crate::error::VaaError>)
    requires
        pos <= buf@.len(),
    ensures
        buf@.len() - pos < 8 ==> r == Err::<u64, crate::error::VaaError>(
            crate::error::VaaError::ShortBuffer,
        ),
        buf@.len() - pos >= 8 ==> (r matches Ok(v) && v as nat == be_value(buf@.subrange(pos as int, pos + 8))),
{
    if buf.len() - pos < 8 {
        Err(crate::error::VaaError::ShortBuffer)
    } else {
        Ok(read_u64_at(buf, pos))
    }
}

/// Appends `n` as two big-endian bytes.
pub fn put_u16(out: &mut Vec<u8>, n: u16)
    ensures
        final(out)@ == old(out)@ + be_bytes(n as nat, 2),
{
    let b = u16_bytes(n);
    out.extend_from_slice(&b);
}

/// Appends `n` as four big-endian bytes.
pub fn put_u32(out: &mut Vec<u8>, n: u32)
    ensures
        final(out)@ == old(out)@ + be_bytes(n as nat, 4),
{
    let b = u32_bytes(n);
    out.extend_from_slice(&b);
}

/// Appends `n` as eight big-endian bytes.
pub fn put_u64(out: &mut Vec<u8>, n: u64)
    ensures
        final(out)@ == old(out)@ + be_bytes(n as nat, 8),
{
    let b = u64_bytes(n);
    out.extend_from_slice(&b);
}

} // verus!
