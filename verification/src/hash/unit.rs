//! The symbols that a sponge works on, and how they are written as bytes.

use crate::errors::ProofError;
use vstd::prelude::*;

verus! {

/// A symbol that a sponge absorbs and gives out, with its encoding as bytes.
///
/// Every unit takes the same number of bytes, the encoding of a sequence is the
/// concatenation of the encodings of its units, and decoding is the inverse of
/// encoding: no two sequences share an encoding.
pub trait Unit: Copy + Sized {
    /// The number of bytes that one unit takes.
    spec fn spec_byte_size() -> nat;

    /// The bytes that stand for `units`.
    spec fn spec_encode(units: Seq<Self>) -> Seq<u8>;

    /// An encoding is as long as its units take.
    proof fn lemma_encode_len(units: Seq<Self>)
        ensures
            Self::spec_encode(units).len() == units.len() * Self::spec_byte_size(),
            Self::spec_byte_size() > 0,
    ;

    /// Encoding goes through concatenation.
    proof fn lemma_encode_concat(a: Seq<Self>, b: Seq<Self>)
        ensures
            Self::spec_encode(a + b) == Self::spec_encode(a) + Self::spec_encode(b),
    ;

    /// The units that `bytes` stands for, if it is an encoding.
    spec fn spec_decode(bytes: Seq<u8>) -> Option<Seq<Self>>;

    /// Decoding undoes encoding.
    proof fn lemma_decode_encode(units: Seq<Self>)
        ensures
            Self::spec_decode(Self::spec_encode(units)) == Some(units),
    ;

    /// Only encodings decode.
    proof fn lemma_encode_decode(bytes: Seq<u8>)
        requires
            Self::spec_decode(bytes) is Some,
        ensures
            Self::spec_encode(Self::spec_decode(bytes)->Some_0) == bytes,
    ;

    /// The unit that stands for the byte `b` where a byte string, such as that
    /// of an IO pattern, is fed to a sponge over these units.
    spec fn spec_from_byte(b: u8) -> Self;

    /// The unit that stands for the byte `b`.
    fn from_byte(b: u8) -> (u: Self)
        ensures
            u == Self::spec_from_byte(b),
    ;

    /// The number of bytes that one unit takes.
    fn byte_size() -> (n: usize)
        ensures
            n == Self::spec_byte_size(),
    ;

    /// Appends the encoding of `units` to `out`.
    fn write(units: &[Self], out: &mut Vec<u8>)
        ensures
            final(out)@ == old(out)@ + Self::spec_encode(units@),
    ;

    /// Decodes `bytes` into `out`. It succeeds exactly when `bytes` is the
    /// encoding of as many units as `out` holds.
    fn read(bytes: &[u8], out: &mut [Self]) -> (r: Result<(), ProofError>)
        ensures
            final(out)@.len() == old(out)@.len(),
            r is Ok <==> (Self::spec_decode(bytes@) is Some && Self::spec_decode(
                bytes@,
            )->Some_0.len() == old(out)@.len()),
            r is Ok ==> Some(final(out)@) == Self::spec_decode(bytes@),
            r is Err ==> r == Err::<(), ProofError>(ProofError::SerializationError),
    ;
}

/// Whether `bytes` is the encoding of exactly `n` units.
pub open spec fn decodes_to_len<U: Unit>(bytes: Seq<u8>, n: nat) -> bool {
    U::spec_decode(bytes) is Some && U::spec_decode(bytes)->Some_0.len() == n
}

/// The units that stand for `bytes`, one for each byte.
pub open spec fn units_of_bytes<U: Unit>(bytes: Seq<u8>) -> Seq<U> {
    Seq::new(bytes.len(), |i: int| U::spec_from_byte(bytes[i]))
}

/// The units that stand for `bytes`, one for each byte.
pub fn bytes_to_units<U: Unit>(bytes: &[u8]) -> (units: Vec<U>)
    ensures
        units@ == units_of_bytes::<U>(bytes@),
{
    let n: usize = bytes.len();
    let mut units: Vec<U> = Vec::new();
    let mut i: usize = 0;
    while i < n
        invariant
            n == bytes@.len(),
            i <= n,
            units@.len() == i,
            forall|j: int| 0 <= j < i ==> units@[j] == U::spec_from_byte(bytes@[j]),
        decreases n - i,
    {
        units.push(U::from_byte(bytes[i]));
        i += 1;
    }
    assert(units@ =~= units_of_bytes::<U>(bytes@));
    units
}

/// Over bytes, a byte string stands for itself.
pub proof fn lemma_bytes_are_their_units(bytes: Seq<u8>)
    ensures
        units_of_bytes::<u8>(bytes) == bytes,
{
    assert(units_of_bytes::<u8>(bytes) =~= bytes);
}

impl Unit for u8 {
    open spec fn spec_byte_size() -> nat {
        1
    }

    open spec fn spec_encode(units: Seq<u8>) -> Seq<u8> {
        units
    }

    proof fn lemma_encode_len(units: Seq<u8>) {
    }

    proof fn lemma_encode_concat(a: Seq<u8>, b: Seq<u8>) {
    }

    open spec fn spec_decode(bytes: Seq<u8>) -> Option<Seq<u8>> {
        Some(bytes)
    }

    proof fn lemma_decode_encode(units: Seq<u8>) {
    }

    proof fn lemma_encode_decode(bytes: Seq<u8>) {
    }

    open spec fn spec_from_byte(b: u8) -> u8 {
        b
    }

    fn from_byte(b: u8) -> (u: u8) {
        b
    }

    fn byte_size() -> (n: usize) {
        1
    }

    fn write(units: &[u8], out: &mut Vec<u8>) {
        out.extend_from_slice(units);
    }

    fn read(bytes: &[u8], out: &mut [u8]) -> (r: Result<(), ProofError>) {
        let n: usize = out.len();
        if bytes.len() != n {
            return Err(ProofError::SerializationError);
        }
        let mut i: usize = 0;
        while i < n
            invariant
                n == bytes@.len(),
                out@.len() == n,
                i <= n,
                forall|j: int| 0 <= j < i ==> out@[j] == bytes@[j],
            decreases n - i,
        {
            out[i] = bytes[i];
            i += 1;
        }
        assert(out@ =~= bytes@);
        Ok(())
    }
}

} // verus!
