//! The payload codec: how a payload body is written to and read from bytes.
use crate::error::VaaError;
use vstd::prelude::*;

verus! {

/// A payload body that can be written as bytes.
pub trait SerializePayload: View + Sized {
    /// Whether a body can be written at all (its variable-length parts fit
    /// their length prefixes).
    spec fn encodable(v: Self::V) -> bool;

    /// The canonical bytes of an encodable body.
    spec fn encoding(v: Self::V) -> Seq<u8>;

    /// Appends the body's bytes to `out`, or fails with `FieldOutOfRange`
    /// and leaves `out` as it was.
    fn serialize(&self, out: &mut Vec<u8>) -> (r: Result<(), VaaError>)
        ensures
            Self::encodable(self@) ==> r is Ok && final(out)@ == old(out)@ + Self::encoding(self@),
            !Self::encodable(self@) ==> r == Err::<(), VaaError>(VaaError::FieldOutOfRange)
                && final(out)@ == old(out)@,
    ;

    /// The body's bytes in a new buffer.
    fn try_to_vec(&self) -> (r: Result<Vec<u8>, VaaError>)
        ensures
            Self::encodable(self@) ==> (r matches Ok(b) && b@ == Self::encoding(self@)),
            !Self::encodable(self@) ==> r == Err::<Vec<u8>, VaaError>(VaaError::FieldOutOfRange),
    {
        let mut result: Vec<u8> = Vec::new();
        match self.serialize(&mut result) {
            Ok(()) => Ok(result),
            Err(e) => Err(e),
        }
    }
}

/// A payload body that can be read from the front of a byte sequence, and
/// written back.
pub trait DeserializePayload: SerializePayload {
    /// What reading the front of `b` gives: the body and the number of bytes
    /// it took, or the error.
    spec fn parse(b: Seq<u8>) -> Result<(<Self as View>::V, nat), VaaError>;

    /// The bytes that carry `v` as a whole payload, as this type's writer
    /// produces them (for a governance payload, the header and the body).
    spec fn wire(v: <Self as View>::V) -> Seq<u8>;

    /// Reads a body from `buf` starting at `pos`, and returns it with the
    /// position just past its last byte. The bytes after it are not read.
    fn deserialize(buf: &[u8], pos: usize) -> (r: Result<(Self, usize), VaaError>)
        requires
            pos <= buf@.len(),
        ensures
            match Self::parse(buf@.subrange(pos as int, buf@.len() as int)) {
                Ok((v, n)) => r matches Ok((x, end)) && x@ == v && end == pos + n,
                Err(e) => r == Err::<(Self, usize), VaaError>(e),
            },
    ;

    /// Reading the written form of an encodable `v` gives `v` and takes every
    /// byte of it.
    proof fn lemma_round_trip(v: <Self as View>::V)
        requires
            <Self as SerializePayload>::encodable(v),
        ensures
            Self::parse(Self::wire(v)) == Ok::<(<Self as View>::V, nat), VaaError>(
                (v, Self::wire(v).len()),
            ),
    ;
}

/// A payload type whose written form delimits itself: what follows it is
/// left unread.
pub trait SelfDelimiting: DeserializePayload {
    /// Reading the written form of `v`, followed by anything, gives `v` and
    /// takes exactly the written form.
    proof fn lemma_parse_prefix(v: <Self as View>::V, rest: Seq<u8>)
        requires
            <Self as SerializePayload>::encodable(v),
        ensures
            Self::parse(Self::wire(v) + rest) == Ok::<(<Self as View>::V, nat), VaaError>(
                (v, Self::wire(v).len()),
            ),
    ;
}

/// Decoding a whole top-level payload: the body must take every byte.
pub open spec fn decoded<T: DeserializePayload>(b: Seq<u8>) -> Result<T::V, VaaError> {
    match T::parse(b) {
        Ok((v, n)) => if n == b.len() {
            Ok(v)
        } else {
            Err(VaaError::TrailingBytes)
        },
        Err(e) => Err(e),
    }
}

/// Decodes `buf` as one payload of type `T`; bytes left over after the body
/// are a `TrailingBytes` failure.
pub fn decode_payload<T: DeserializePayload>(buf: &[u8]) -> (r: Result<T, VaaError>)
    ensures
        match decoded::<T>(buf@) {
            Ok(v) => r matches Ok(x) && x@ == v,
            Err(e) => r == Err::<T, VaaError>(e),
        },
{
    proof {
        assert(buf@.subrange(0, buf@.len() as int) =~= buf@);
    }
    match T::deserialize(buf, 0) {
        Ok((v, end)) => {
            if end == buf.len() {
                Ok(v)
            } else {
                Err(VaaError::TrailingBytes)
            }
        },
        Err(e) => Err(e),
    }
}

/// The written form of any payload decodes back to the payload.
pub proof fn lemma_decode_encode<T: DeserializePayload>(v: <T as View>::V)
    requires
        <T as SerializePayload>::encodable(v),
    ensures
        decoded::<T>(T::wire(v)) == Ok::<<T as View>::V, VaaError>(v),
{
    T::lemma_round_trip(v);
}

/// Decoding a canonical written form and writing the result again gives
/// the same bytes.
pub proof fn lemma_encode_decode<T: DeserializePayload>(v0: <T as View>::V, b: Seq<u8>)
    requires
        <T as SerializePayload>::encodable(v0),
        b == T::wire(v0),
    ensures
        decoded::<T>(b) matches Ok(v) && <T as SerializePayload>::encodable(v) && T::wire(v) == b,
{
    T::lemma_round_trip(v0);
}

/// Bytes appended to the written form of a self-delimiting payload make
/// decoding fail with `TrailingBytes`.
pub proof fn lemma_trailing_rejected<T: SelfDelimiting>(v: <T as View>::V, extra: Seq<u8>)
    requires
        <T as SerializePayload>::encodable(v),
        extra.len() > 0,
    ensures
        decoded::<T>(T::wire(v) + extra) == Err::<<T as View>::V, VaaError>(
            VaaError::TrailingBytes,
        ),
{
    T::lemma_parse_prefix(v, extra);
}

/// An opaque body: every byte that is left, taken as it is. Its form is
/// length-implicit, so it does not delimit itself: bytes appended to it are
/// read as part of it, never rejected as trailing. It suits a payload that is
/// the whole message, not one that is followed by anything.
pub struct RawPayload {
    pub bytes: Vec<u8>,
}

impl View for RawPayload {
    type V = Seq<u8>;

    open spec fn view(&self) -> Seq<u8> {
        self.bytes@
    }
}

impl SerializePayload for RawPayload {
    open spec fn encodable(v: Seq<u8>) -> bool {
        true
    }

    open spec fn encoding(v: Seq<u8>) -> Seq<u8> {
        v
    }

    fn serialize(&self, out: &mut Vec<u8>) -> (r: Result<(), VaaError>) {
        out.extend_from_slice(self.bytes.as_slice());
        Ok(())
    }
}

impl DeserializePayload for RawPayload {
    open spec fn parse(b: Seq<u8>) -> Result<(Seq<u8>, nat), VaaError> {
        Ok((b, b.len()))
    }

    open spec fn wire(v: Seq<u8>) -> Seq<u8> {
        v
    }

    proof fn lemma_round_trip(v: Seq<u8>) {
    }

    fn deserialize(buf: &[u8], pos: usize) -> (r: Result<(Self, usize), VaaError>) {
        let mut bytes: Vec<u8> = Vec::new();
        let mut i: usize = pos;
        while i < buf.len()
            invariant
                pos <= i <= buf@.len(),
                bytes@ == buf@.subrange(pos as int, i as int),
            decreases buf@.len() - i,
        {
            bytes.push(buf[i]);
            i = i + 1;
            proof {
                assert(bytes@ =~= buf@.subrange(pos as int, i as int));
            }
        }
        Ok((RawPayload { bytes }, buf.len()))
    }
}

} // verus!
