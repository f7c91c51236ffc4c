//! Scalars and points of the Ristretto group in a transcript.
//!
//! Both are held by their canonical encoding: a scalar as the 32 bytes of an
//! integer below the group order, the lowest byte first, and a point as the 32
//! bytes of its compressed form.

use crate::arthur::{Arthur, ArthurState};
use crate::bare;
use crate::csrng::Csrng;
use crate::encoding::{
    chunk, chunks, concat, le_nat, lemma_chunks_of_concat, lemma_le_nat_zero_extended,
};
use crate::errors::{io_result, IOPatternError, ProofError};
use crate::hash::{challenges, DuplexHash};
use crate::iopattern::{IOPattern, Op};
use crate::laws::lemma_reads_what_was_added;
use crate::merlin::{Merlin, MerlinState};
use crate::safe::{allows, outcome, refusal, SafeState};
use crate::traits::{
    FieldChallenges, FieldIOPattern, FieldPublic, FieldReader, FieldWriter, GroupIOPattern,
    GroupPublic, GroupReader, GroupWriter,
};
use vstd::slice::slice_subrange;
use vstd::string::StringSliceAdditionalSpecFns;
use vstd::prelude::*;

verus! {

/// The number of bytes of an encoded scalar.
pub const SCALAR_LEN: usize = 32;

/// The number of bytes of a compressed point.
pub const POINT_LEN: usize = 32;

/// The number of bytes that are squeezed for one scalar challenge: those that
/// the group order fills, and 16 more, so that the challenge reduced modulo
/// the group order is as good as uniform.
pub const CHALLENGE_LEN: usize = 47;

/// The order of the Ristretto group: 2^252 + 27742317777372353535851937790883648493.
pub open spec fn group_order() -> nat {
    7237005577332262213973186563042994240857116359379907606001950938285454250989nat
}

/// Whether `bytes` is the encoding of a scalar: 32 bytes that stand for an
/// integer below the group order.
pub open spec fn is_scalar(bytes: Seq<u8>) -> bool {
    bytes.len() == SCALAR_LEN && le_nat(bytes) < group_order()
}

/// Whether the 32 bytes `bytes` are the compressed form of a point of the
/// Ristretto group.
pub uninterp spec fn ristretto_decompresses(bytes: Seq<u8>) -> bool;

/// Whether `bytes` is the encoding of a point.
pub open spec fn is_point(bytes: Seq<u8>) -> bool {
    bytes.len() == POINT_LEN && ristretto_decompresses(bytes)
}

/// Whether `bytes` stands for an integer below the group order, by
/// `Scalar::from_canonical_bytes` of curve25519-dalek, which gives a scalar
/// for exactly those byte strings.
#[verifier::external_body]
fn scalar_is_canonical(bytes: &[u8; 32]) -> (r: bool)
    ensures
        r == (le_nat(bytes@) < group_order()),
{
    curve25519_dalek::Scalar::from_canonical_bytes(*bytes).is_some().into()
}

/// The 64 bytes `bytes`, read as an integer with the lowest byte first and
/// reduced modulo the group order, by `Scalar::from_bytes_mod_order_wide` of
/// curve25519-dalek; the result is the encoding of that scalar.
#[verifier::external_body]
fn scalar_reduce_wide(bytes: &[u8; 64]) -> (r: [u8; 32])
    ensures
        le_nat(r@) == le_nat(bytes@) % group_order(),
{
    curve25519_dalek::Scalar::from_bytes_mod_order_wide(bytes).to_bytes()
}

/// Whether `bytes` is the compressed form of a point, by
/// `CompressedRistretto::decompress` of curve25519-dalek, which gives a point
/// for exactly the canonical encodings.
#[verifier::external_body]
fn point_decompresses(bytes: &[u8; 32]) -> (r: bool)
    ensures
        r == ristretto_decompresses(bytes@),
{
    curve25519_dalek::ristretto::CompressedRistretto(*bytes).decompress().is_some()
}

/// A scalar of the Ristretto group, held as its canonical encoding.
#[derive(Clone, Copy, Debug)]
pub struct Scalar {
    bytes: [u8; 32],
}

impl Scalar {
    #[verifier::type_invariant]
    spec fn canonical(self) -> bool {
        is_scalar(self.bytes@)
    }

    /// The encoding of the scalar.
    pub closed spec fn view(&self) -> Seq<u8> {
        self.bytes@
    }

    /// The scalar that `bytes` is the canonical encoding of, if it is one.
    pub fn from_canonical_bytes(bytes: [u8; 32]) -> (r: Option<Scalar>)
        ensures
            r is Some <==> is_scalar(bytes@),
            r is Some ==> r->Some_0@ == bytes@,
    {
        if scalar_is_canonical(&bytes) {
            Some(Scalar { bytes })
        } else {
            None
        }
    }

    /// The scalar that the 64 bytes `bytes` stand for when they are read as an
    /// integer, the lowest byte first, and reduced modulo the group order.
    pub fn from_bytes_mod_order_wide(bytes: &[u8; 64]) -> (s: Scalar)
        ensures
            is_scalar(s@),
            le_nat(s@) == le_nat(bytes@) % group_order(),
    {
        let reduced: [u8; 32] = scalar_reduce_wide(bytes);
        Scalar { bytes: reduced }
    }

    /// The canonical encoding of the scalar.
    pub fn as_bytes(&self) -> (bytes: &[u8; 32])
        ensures
            bytes@ == self@,
            is_scalar(bytes@),
    {
        proof {
            use_type_invariant(self);
        }
        &self.bytes
    }
}

/// A point of the Ristretto group, held as its compressed form.
#[derive(Clone, Copy, Debug)]
pub struct RistrettoPoint {
    bytes: [u8; 32],
}

impl RistrettoPoint {
    #[verifier::type_invariant]
    spec fn valid(self) -> bool {
        is_point(self.bytes@)
    }

    /// The compressed form of the point.
    pub closed spec fn view(&self) -> Seq<u8> {
        self.bytes@
    }

    /// The point that `bytes` is the compressed form of, if it is one.
    pub fn from_compressed(bytes: [u8; 32]) -> (r: Option<RistrettoPoint>)
        ensures
            r is Some <==> is_point(bytes@),
            r is Some ==> r->Some_0@ == bytes@,
    {
        if point_decompresses(&bytes) {
            Some(RistrettoPoint { bytes })
        } else {
            None
        }
    }

    /// The compressed form of the point.
    pub fn as_bytes(&self) -> (bytes: &[u8; 32])
        ensures
            bytes@ == self@,
            is_point(bytes@),
    {
        proof {
            use_type_invariant(self);
        }
        &self.bytes
    }
}

/// The encodings of `scalars`.
pub open spec fn scalar_encodings(scalars: Seq<Scalar>) -> Seq<Seq<u8>> {
    Seq::new(scalars.len(), |i: int| scalars[i]@)
}

/// The compressed forms of `points`.
pub open spec fn point_encodings(points: Seq<RistrettoPoint>) -> Seq<Seq<u8>> {
    Seq::new(points.len(), |i: int| points[i]@)
}

/// The 32 bytes of `bytes` from `at` on.
fn take32(bytes: &[u8], at: usize) -> (out: [u8; 32])
    requires
        at + 32 <= bytes@.len(),
    ensures
        out@ == bytes@.subrange(at as int, at + 32),
{
    let len: usize = bytes.len();
    let mut out: [u8; 32] = [0u8; 32];
    let mut j: usize = 0;
    while j < 32
        invariant
            j <= 32,
            at + 32 <= bytes@.len() == len,
            forall|k: int| 0 <= k < j ==> out@[k] == bytes@[at + k],
        decreases 32 - j,
    {
        out[j] = bytes[at + j];
        j += 1;
    }
    assert(out@ =~= bytes@.subrange(at as int, at + 32));
    out
}

/// The encodings of `scalars`, one after the other.
pub fn encode_scalars(scalars: &[Scalar]) -> (bytes: Vec<u8>)
    ensures
        bytes@ == concat(scalar_encodings(scalars@)),
        forall|i: int| 0 <= i < scalars@.len() ==> is_scalar(#[trigger] scalar_encodings(scalars@)[i]),
{
    let n: usize = scalars.len();
    let mut bytes: Vec<u8> = Vec::new();
    let mut i: usize = 0;
    while i < n
        invariant
            n == scalars@.len(),
            i <= n,
            bytes@ == concat(scalar_encodings(scalars@.subrange(0, i as int))),
            forall|k: int| 0 <= k < i ==> is_scalar(#[trigger] scalar_encodings(scalars@)[k]),
        decreases n - i,
    {
        bytes.extend_from_slice(scalars[i].as_bytes().as_slice());
        i += 1;
        proof {
            let done = scalar_encodings(scalars@.subrange(0, i as int));
            assert(done.drop_last() =~= scalar_encodings(scalars@.subrange(0, i - 1)));
        }
    }
    assert(scalars@.subrange(0, n as int) =~= scalars@);
    bytes
}

/// The compressed forms of `points`, one after the other.
pub fn encode_points(points: &[RistrettoPoint]) -> (bytes: Vec<u8>)
    ensures
        bytes@ == concat(point_encodings(points@)),
        forall|i: int| 0 <= i < points@.len() ==> is_point(#[trigger] point_encodings(points@)[i]),
{
    let n: usize = points.len();
    let mut bytes: Vec<u8> = Vec::new();
    let mut i: usize = 0;
    while i < n
        invariant
            n == points@.len(),
            i <= n,
            bytes@ == concat(point_encodings(points@.subrange(0, i as int))),
            forall|k: int| 0 <= k < i ==> is_point(#[trigger] point_encodings(points@)[k]),
        decreases n - i,
    {
        bytes.extend_from_slice(points[i].as_bytes().as_slice());
        i += 1;
        proof {
            let done = point_encodings(points@.subrange(0, i as int));
            assert(done.drop_last() =~= point_encodings(points@.subrange(0, i - 1)));
        }
    }
    assert(points@.subrange(0, n as int) =~= points@);
    bytes
}

/// Whether each of the first `n` runs of 32 bytes in `bytes` is the encoding
/// of a scalar.
pub open spec fn all_scalars(bytes: Seq<u8>, n: nat) -> bool {
    forall|i: int| 0 <= i < n ==> is_scalar(#[trigger] chunk(bytes, i, SCALAR_LEN as int))
}

/// Whether each of the first `n` runs of 32 bytes in `bytes` is the
/// compressed form of a point.
pub open spec fn all_points(bytes: Seq<u8>, n: nat) -> bool {
    forall|i: int| 0 <= i < n ==> is_point(#[trigger] chunk(bytes, i, POINT_LEN as int))
}

/// The `n` scalars that `bytes` holds one after the other, if `bytes` is `n`
/// runs of 32 bytes and each run is the encoding of a scalar.
pub fn decode_scalars(bytes: &[u8], n: usize) -> (r: Option<Vec<Scalar>>)
    ensures
        r is Some <==> bytes@.len() == n * SCALAR_LEN && all_scalars(bytes@, n as nat),
        r is Some ==> scalar_encodings(r->Some_0@) == chunks(bytes@, n as nat, SCALAR_LEN as int),
{
    let len: usize = bytes.len();
    match n.checked_mul(SCALAR_LEN) {
        Some(total) => {
            if total != len {
                return None;
            }
        },
        None => {
            return None;
        },
    }
    let mut scalars: Vec<Scalar> = Vec::new();
    let mut i: usize = 0;
    while i < n
        invariant
            bytes@.len() == n * SCALAR_LEN == len,
            i <= n,
            scalars@.len() == i,
            forall|k: int| 0 <= k < i ==> is_scalar(#[trigger] chunk(bytes@, k, SCALAR_LEN as int)),
            forall|k: int|
                0 <= k < i ==> (#[trigger] scalars@[k])@ == chunk(bytes@, k, SCALAR_LEN as int),
        decreases n - i,
    {
        let encoding: [u8; 32] = take32(bytes, i * SCALAR_LEN);
        assert(encoding@ == chunk(bytes@, i as int, SCALAR_LEN as int));
        match Scalar::from_canonical_bytes(encoding) {
            Some(scalar) => {
                scalars.push(scalar);
            },
            None => {
                return None;
            },
        }
        i += 1;
    }
    assert(scalar_encodings(scalars@) =~= chunks(bytes@, n as nat, SCALAR_LEN as int));
    Some(scalars)
}

/// The `n` points that `bytes` holds one after the other, if `bytes` is `n`
/// runs of 32 bytes and each run is the compressed form of a point.
pub fn decode_points(bytes: &[u8], n: usize) -> (r: Option<Vec<RistrettoPoint>>)
    ensures
        r is Some <==> bytes@.len() == n * POINT_LEN && all_points(bytes@, n as nat),
        r is Some ==> point_encodings(r->Some_0@) == chunks(bytes@, n as nat, POINT_LEN as int),
{
    let len: usize = bytes.len();
    match n.checked_mul(POINT_LEN) {
        Some(total) => {
            if total != len {
                return None;
            }
        },
        None => {
            return None;
        },
    }
    let mut points: Vec<RistrettoPoint> = Vec::new();
    let mut i: usize = 0;
    while i < n
        invariant
            bytes@.len() == n * POINT_LEN == len,
            i <= n,
            points@.len() == i,
            forall|k: int| 0 <= k < i ==> is_point(#[trigger] chunk(bytes@, k, POINT_LEN as int)),
            forall|k: int|
                0 <= k < i ==> (#[trigger] points@[k])@ == chunk(bytes@, k, POINT_LEN as int),
        decreases n - i,
    {
        let encoding: [u8; 32] = take32(bytes, i * POINT_LEN);
        assert(encoding@ == chunk(bytes@, i as int, POINT_LEN as int));
        match RistrettoPoint::from_compressed(encoding) {
            Some(point) => {
                points.push(point);
            },
            None => {
                return None;
            },
        }
        i += 1;
    }
    assert(point_encodings(points@) =~= chunks(bytes@, n as nat, POINT_LEN as int));
    Some(points)
}

/// The scalar that a challenge of 47 bytes gives: the bytes are read as an
/// integer, the lowest first, and reduced modulo the group order.
pub open spec fn challenge_value(bytes: Seq<u8>) -> nat {
    le_nat(bytes) % group_order()
}

/// Whether `scalars` are the scalars that the first runs of 47 bytes in
/// `bytes` give, one scalar for each run.
pub open spec fn are_challenges(scalars: Seq<Scalar>, bytes: Seq<u8>) -> bool {
    forall|i: int|
        0 <= i < scalars.len() ==> is_scalar((#[trigger] scalars[i])@) && le_nat(scalars[i]@)
            == challenge_value(chunk(bytes, i, CHALLENGE_LEN as int))
}

/// The `n` scalars that the challenge `bytes` gives, one for each run of 47
/// bytes.
pub fn scalars_of_challenge(bytes: &[u8], n: usize) -> (scalars: Vec<Scalar>)
    requires
        bytes@.len() == n * CHALLENGE_LEN,
    ensures
        scalars@.len() == n,
        are_challenges(scalars@, bytes@),
{
    let len: usize = bytes.len();
    let mut scalars: Vec<Scalar> = Vec::new();
    let mut i: usize = 0;
    while i < n
        invariant
            bytes@.len() == n * CHALLENGE_LEN == len,
            i <= n,
            scalars@.len() == i,
            are_challenges(scalars@, bytes@),
        decreases n - i,
    {
        let at: usize = i * CHALLENGE_LEN;
        let mut wide: [u8; 64] = [0u8; 64];
        let mut j: usize = 0;
        while j < 64
            invariant
                j <= 64,
                at + CHALLENGE_LEN <= bytes@.len() == len,
                forall|k: int| 0 <= k < j && k < CHALLENGE_LEN ==> wide@[k] == bytes@[at + k],
                forall|k: int| CHALLENGE_LEN <= k < j ==> wide@[k] == 0,
            decreases 64 - j,
        {
            wide[j] = if j < CHALLENGE_LEN {
                bytes[at + j]
            } else {
                0u8
            };
            j += 1;
        }
        let scalar = Scalar::from_bytes_mod_order_wide(&wide);
        proof {
            let run = chunk(bytes@, i as int, CHALLENGE_LEN as int);
            assert(run =~= wide@.subrange(0, CHALLENGE_LEN as int));
            lemma_le_nat_zero_extended(run, wide@);
        }
        scalars.push(scalar);
        i += 1;
    }
    scalars
}

/// Declaring scalars and points of the Ristretto group by the names that
/// the operations of [`DalekBridge`] have.
pub trait DalekIO: Sized {
    /// Declares that `count` scalars are absorbed next.
    fn absorb_scalars(self, count: usize, label: &str) -> Result<Self, IOPatternError>;

    /// Declares that `count` points are absorbed next.
    fn absorb_points(self, count: usize, label: &str) -> Result<Self, IOPatternError>;
}

/// Absorbing scalars and points of the Ristretto group into a transcript
/// without a proof.
pub trait DalekBridge {
    /// Absorbs the encoding of each of `scalars`, one after the other.
    fn absorb_scalars(&mut self, scalars: &[Scalar]) -> Result<(), IOPatternError>;

    /// Absorbs the compressed form of each of `points`, one after the other.
    fn absorb_points(&mut self, points: &[RistrettoPoint]) -> Result<(), IOPatternError>;
}

impl<H: DuplexHash<u8>> FieldIOPattern<Scalar> for IOPattern<H, u8> {
    /// Declares that `count` scalars are absorbed next, 32 bytes each.
    fn add_scalars(self, count: usize, label: &str) -> (r: Result<Self, IOPatternError>)
        ensures
            self.declares_each(r, Op::Absorb(0), count, SCALAR_LEN, label.spec_bytes()),
    {
        self.absorb_each(count, SCALAR_LEN, label)
    }

    /// Declares that `count` scalars are squeezed next, each from 47 bytes.
    fn challenge_scalars(self, count: usize, label: &str) -> (r: Result<Self, IOPatternError>)
        ensures
            self.declares_each(r, Op::Squeeze(0), count, CHALLENGE_LEN, label.spec_bytes()),
    {
        self.squeeze_each(count, CHALLENGE_LEN, label)
    }
}

impl<H: DuplexHash<u8>> GroupIOPattern<RistrettoPoint> for IOPattern<H, u8> {
    /// Declares that `count` points are absorbed next, 32 bytes each.
    fn add_points(self, count: usize, label: &str) -> (r: Result<Self, IOPatternError>)
        ensures
            self.declares_each(r, Op::Absorb(0), count, POINT_LEN, label.spec_bytes()),
    {
        self.absorb_each(count, POINT_LEN, label)
    }
}

impl<H: DuplexHash<u8>> DalekIO for IOPattern<H, u8> {
    fn absorb_scalars(self, count: usize, label: &str) -> (r: Result<Self, IOPatternError>)
        ensures
            self.declares_each(r, Op::Absorb(0), count, SCALAR_LEN, label.spec_bytes()),
    {
        self.absorb_each(count, SCALAR_LEN, label)
    }

    fn absorb_points(self, count: usize, label: &str) -> (r: Result<Self, IOPatternError>)
        ensures
            self.declares_each(r, Op::Absorb(0), count, POINT_LEN, label.spec_bytes()),
    {
        self.absorb_each(count, POINT_LEN, label)
    }
}

/// Whether `r` and the state `after` are what squeezing `n` scalars in the
/// state `before` gives. The result is an error where 47 bytes for each
/// scalar are more than a `usize` counts, or more than the pattern allows; in
/// both cases nothing is left on the stack. Otherwise it holds the scalars of
/// the squeezed bytes.
pub open spec fn squeezes_scalars<H: DuplexHash<u8>>(
    before: SafeState<u8>,
    after: SafeState<u8>,
    n: nat,
    r: Result<Vec<Scalar>, ProofError>,
) -> bool {
    let len = (n * CHALLENGE_LEN) as nat;
    if len > usize::MAX {
        &&& after == before.abandoned()
        &&& r matches Err(e) && e == ProofError::InvalidIO(IOPatternError::CountOverflow)
    } else {
        &&& after == before.squeeze(len)
        &&& match r {
            Ok(scalars) => {
                &&& allows(before.stack, Op::Squeeze(len as usize))
                &&& scalars@.len() == n
                &&& are_challenges(scalars@, challenges::<u8, H>(before.history, len))
            },
            Err(e) => {
                &&& !allows(before.stack, Op::Squeeze(len as usize))
                &&& e == ProofError::InvalidIO(refusal(before.stack, Op::Squeeze(len as usize)))
            },
        }
    }
}

impl<H: DuplexHash<u8>, R: Csrng> FieldWriter<Scalar> for Merlin<H, u8, R> {
    /// Adds the encodings of `input` to the proof, as one run of bytes.
    fn add_scalars(&mut self, input: &[Scalar]) -> (r: Result<(), ProofError>)
        ensures
            r == io_result(
                outcome(
                    old(self)@.safe.stack,
                    Op::Absorb(concat(scalar_encodings(input@)).len() as usize),
                ),
            ),
            final(self).source() == old(self).source(),
            final(self)@ == old(self)@.add_units(concat(scalar_encodings(input@))),
    {
        let bytes = encode_scalars(input);
        match self.add_units(bytes.as_slice()) {
            Ok(()) => Ok(()),
            Err(e) => Err(ProofError::InvalidIO(e)),
        }
    }
}

impl<H: DuplexHash<u8>, R: Csrng> FieldPublic<Scalar> for Merlin<H, u8, R> {
    /// Absorbs the encodings of `input` without writing them to the proof.
    fn public_scalars(&mut self, input: &[Scalar]) -> (r: Result<(), ProofError>)
        ensures
            r == io_result(
                outcome(
                    old(self)@.safe.stack,
                    Op::Absorb(concat(scalar_encodings(input@)).len() as usize),
                ),
            ),
            final(self).source() == old(self).source(),
            final(self)@ == old(self)@.public_units(concat(scalar_encodings(input@))),
    {
        let bytes = encode_scalars(input);
        match self.public_units(bytes.as_slice()) {
            Ok(()) => Ok(()),
            Err(e) => Err(ProofError::InvalidIO(e)),
        }
    }
}

impl<H: DuplexHash<u8>, R: Csrng> GroupWriter<RistrettoPoint> for Merlin<H, u8, R> {
    /// Adds the compressed forms of `input` to the proof, as one run of bytes.
    fn add_points(&mut self, input: &[RistrettoPoint]) -> (r: Result<(), ProofError>)
        ensures
            r == io_result(
                outcome(
                    old(self)@.safe.stack,
                    Op::Absorb(concat(point_encodings(input@)).len() as usize),
                ),
            ),
            final(self).source() == old(self).source(),
            final(self)@ == old(self)@.add_units(concat(point_encodings(input@))),
    {
        let bytes = encode_points(input);
        match self.add_units(bytes.as_slice()) {
            Ok(()) => Ok(()),
            Err(e) => Err(ProofError::InvalidIO(e)),
        }
    }
}

impl<H: DuplexHash<u8>, R: Csrng> GroupPublic<RistrettoPoint> for Merlin<H, u8, R> {
    /// Absorbs the compressed forms of `input` without writing them to the
    /// proof.
    fn public_points(&mut self, input: &[RistrettoPoint]) -> (r: Result<(), ProofError>)
        ensures
            r == io_result(
                outcome(
                    old(self)@.safe.stack,
                    Op::Absorb(concat(point_encodings(input@)).len() as usize),
                ),
            ),
            final(self).source() == old(self).source(),
            final(self)@ == old(self)@.public_units(concat(point_encodings(input@))),
    {
        let bytes = encode_points(input);
        match self.public_units(bytes.as_slice()) {
            Ok(()) => Ok(()),
            Err(e) => Err(ProofError::InvalidIO(e)),
        }
    }
}

impl<H: DuplexHash<u8>, R: Csrng> FieldChallenges<Scalar> for Merlin<H, u8, R> {
    /// Squeezes `n` scalars: 47 bytes for each, reduced modulo the group
    /// order.
    fn challenge_scalars(&mut self, n: usize) -> (r: Result<Vec<Scalar>, ProofError>)
        ensures
            squeezes_scalars::<H>(old(self)@.safe, final(self)@.safe, n as nat, r),
            final(self).source() == old(self).source(),
            final(self)@.rng == old(self)@.rng,
            final(self)@.transcript == old(self)@.transcript,
    {
        match self.challenge_runs(n, CHALLENGE_LEN) {
            Ok(bytes) => Ok(scalars_of_challenge(bytes.as_slice(), n)),
            Err(e) => Err(e),
        }
    }
}

/// What reading `n` objects of 32 bytes each returns, where `valid` says
/// whether the bytes read are `n` encodings: an error where the bytes are more
/// than a `usize` counts; the error of reading the bytes, where that fails;
/// and a serialization error where the bytes were read and are not `n`
/// encodings.
pub open spec fn decode_outcome(a: ArthurState<u8>, n: nat, valid: bool) -> Result<(), ProofError> {
    if n * 32 > usize::MAX {
        Err(ProofError::InvalidIO(IOPatternError::CountOverflow))
    } else if a.read_outcome(n * 32) is Err {
        a.read_outcome(n * 32)
    } else if !valid {
        Err(ProofError::SerializationError)
    } else {
        Ok(())
    }
}

/// The state after an attempt to read `n` objects of 32 bytes each: the bytes
/// are read and absorbed if they can be, and the proof is given up where they
/// are not `n` encodings.
pub open spec fn decode_step(a: ArthurState<u8>, n: nat, valid: bool) -> ArthurState<u8> {
    if n * 32 > usize::MAX {
        a.abandoned()
    } else if a.read_outcome(n * 32) is Ok && !valid {
        a.fill_next_units(n * 32).abandoned()
    } else {
        a.fill_next_units(n * 32)
    }
}

impl<'a, H: DuplexHash<u8>> FieldReader<Scalar> for Arthur<'a, H, u8> {
    /// Reads `n` scalars from the proof and absorbs their encodings. An
    /// encoding that does not stand for an integer below the group order is a
    /// serialization error.
    fn next_scalars(&mut self, n: usize) -> (r: Result<Vec<Scalar>, ProofError>)
        ensures
            final(self)@ == decode_step(
                old(self)@,
                n as nat,
                all_scalars(old(self)@.next_units((n * SCALAR_LEN) as nat), n as nat),
            ),
            match r {
                Ok(scalars) => {
                    &&& decode_outcome(old(self)@, n as nat, true) is Ok
                    &&& all_scalars(old(self)@.next_units((n * SCALAR_LEN) as nat), n as nat)
                    &&& scalar_encodings(scalars@) == chunks(
                        old(self)@.next_units((n * SCALAR_LEN) as nat),
                        n as nat,
                        SCALAR_LEN as int,
                    )
                },
                Err(e) => decode_outcome(
                    old(self)@,
                    n as nat,
                    all_scalars(old(self)@.next_units((n * SCALAR_LEN) as nat), n as nat),
                ) == Err::<(), ProofError>(e),
            },
    {
        let bytes = match self.next_runs(n, SCALAR_LEN) {
            Ok(bytes) => bytes,
            Err(e) => {
                return Err(e);
            },
        };
        match decode_scalars(bytes.as_slice(), n) {
            Some(scalars) => Ok(scalars),
            None => Err(self.malformed()),
        }
    }
}

impl<'a, H: DuplexHash<u8>> GroupReader<RistrettoPoint> for Arthur<'a, H, u8> {
    /// Reads `n` points from the proof and absorbs their compressed forms. An
    /// encoding that is not the compressed form of a point is a serialization
    /// error.
    fn next_points(&mut self, n: usize) -> (r: Result<Vec<RistrettoPoint>, ProofError>)
        ensures
            final(self)@ == decode_step(
                old(self)@,
                n as nat,
                all_points(old(self)@.next_units((n * POINT_LEN) as nat), n as nat),
            ),
            match r {
                Ok(points) => {
                    &&& decode_outcome(old(self)@, n as nat, true) is Ok
                    &&& all_points(old(self)@.next_units((n * POINT_LEN) as nat), n as nat)
                    &&& point_encodings(points@) == chunks(
                        old(self)@.next_units((n * POINT_LEN) as nat),
                        n as nat,
                        POINT_LEN as int,
                    )
                },
                Err(e) => decode_outcome(
                    old(self)@,
                    n as nat,
                    all_points(old(self)@.next_units((n * POINT_LEN) as nat), n as nat),
                ) == Err::<(), ProofError>(e),
            },
    {
        let bytes = match self.next_runs(n, POINT_LEN) {
            Ok(bytes) => bytes,
            Err(e) => {
                return Err(e);
            },
        };
        match decode_points(bytes.as_slice(), n) {
            Some(points) => Ok(points),
            None => Err(self.malformed()),
        }
    }
}

impl<'a, H: DuplexHash<u8>> FieldPublic<Scalar> for Arthur<'a, H, u8> {
    /// Absorbs the encodings of `input`, which are not in the proof.
    fn public_scalars(&mut self, input: &[Scalar]) -> (r: Result<(), ProofError>)
        ensures
            r == io_result(
                outcome(
                    old(self)@.safe.stack,
                    Op::Absorb(concat(scalar_encodings(input@)).len() as usize),
                ),
            ),
            final(self)@ == old(self)@.public_units(concat(scalar_encodings(input@))),
    {
        let bytes = encode_scalars(input);
        match self.public_units(bytes.as_slice()) {
            Ok(()) => Ok(()),
            Err(e) => Err(ProofError::InvalidIO(e)),
        }
    }
}

impl<'a, H: DuplexHash<u8>> GroupPublic<RistrettoPoint> for Arthur<'a, H, u8> {
    /// Absorbs the compressed forms of `input`, which are not in the proof.
    fn public_points(&mut self, input: &[RistrettoPoint]) -> (r: Result<(), ProofError>)
        ensures
            r == io_result(
                outcome(
                    old(self)@.safe.stack,
                    Op::Absorb(concat(point_encodings(input@)).len() as usize),
                ),
            ),
            final(self)@ == old(self)@.public_units(concat(point_encodings(input@))),
    {
        let bytes = encode_points(input);
        match self.public_units(bytes.as_slice()) {
            Ok(()) => Ok(()),
            Err(e) => Err(ProofError::InvalidIO(e)),
        }
    }
}

impl<'a, H: DuplexHash<u8>> FieldChallenges<Scalar> for Arthur<'a, H, u8> {
    /// Squeezes `n` scalars: 47 bytes for each, reduced modulo the group
    /// order.
    fn challenge_scalars(&mut self, n: usize) -> (r: Result<Vec<Scalar>, ProofError>)
        ensures
            squeezes_scalars::<H>(old(self)@.safe, final(self)@.safe, n as nat, r),
            final(self)@.cursor == old(self)@.cursor,
            final(self)@.transcript == old(self)@.transcript,
    {
        match self.challenge_runs(n, CHALLENGE_LEN) {
            Ok(bytes) => Ok(scalars_of_challenge(bytes.as_slice(), n)),
            Err(e) => Err(e),
        }
    }
}

/// The state after each of `runs` was absorbed, one after the other.
pub open spec fn absorb_all(s: SafeState<u8>, runs: Seq<Seq<u8>>) -> SafeState<u8>
    decreases runs.len(),
{
    if runs.len() == 0 {
        s
    } else {
        absorb_all(s, runs.drop_last()).absorb(runs.last())
    }
}

/// What absorbing each of `runs`, one after the other, returns: the error of
/// the first absorb that the pattern refuses, if it refuses one.
pub open spec fn absorb_all_outcome(s: SafeState<u8>, runs: Seq<Seq<u8>>) -> Result<
    (),
    IOPatternError,
>
    decreases runs.len(),
{
    if runs.len() == 0 {
        Ok(())
    } else {
        match absorb_all_outcome(s, runs.drop_last()) {
            Err(e) => Err(e),
            Ok(()) => outcome(
                absorb_all(s, runs.drop_last()).stack,
                Op::Absorb(runs.last().len() as usize),
            ),
        }
    }
}

/// The state after an attempt to absorb each of `runs`, one after the other.
/// Where there is no run at all, nothing is absorbed, which the pattern must
/// allow as it must allow any absorb: an absorb has to stand at the head.
pub open spec fn absorb_each(s: SafeState<u8>, runs: Seq<Seq<u8>>) -> SafeState<u8> {
    if runs.len() == 0 {
        s.absorb(Seq::empty())
    } else {
        absorb_all(s, runs)
    }
}

/// What an attempt to absorb each of `runs`, one after the other, returns:
/// the error of the first absorb that the pattern refuses, if it refuses one.
/// Where there is no run at all, it is what an absorb of nothing returns.
pub open spec fn absorb_each_outcome(s: SafeState<u8>, runs: Seq<Seq<u8>>) -> Result<
    (),
    IOPatternError,
> {
    if runs.len() == 0 {
        outcome(s.stack, Op::Absorb(0))
    } else {
        absorb_all_outcome(s, runs)
    }
}

/// After an absorb was refused, nothing is left on the stack.
proof fn lemma_absorb_all_refused(s: SafeState<u8>, runs: Seq<Seq<u8>>)
    requires
        absorb_all_outcome(s, runs) is Err,
    ensures
        absorb_all(s, runs).stack.len() == 0,
    decreases runs.len(),
{
    if runs.len() > 0 && absorb_all_outcome(s, runs.drop_last()) is Err {
        lemma_absorb_all_refused(s, runs.drop_last());
    }
}

/// After an absorb was refused, the absorbs that follow change nothing.
proof fn lemma_absorb_all_stops(s: SafeState<u8>, runs: Seq<Seq<u8>>, k: int)
    requires
        0 <= k <= runs.len(),
        absorb_all_outcome(s, runs.subrange(0, k)) is Err,
    ensures
        absorb_all_outcome(s, runs) == absorb_all_outcome(s, runs.subrange(0, k)),
        absorb_all(s, runs) == absorb_all(s, runs.subrange(0, k)),
    decreases runs.len() - k,
{
    if k == runs.len() {
        assert(runs.subrange(0, k) =~= runs);
    } else {
        let next = runs.subrange(0, k + 1);
        assert(next.drop_last() =~= runs.subrange(0, k));
        lemma_absorb_all_refused(s, runs.subrange(0, k));
        assert(absorb_all(s, next).stack =~= absorb_all(s, runs.subrange(0, k)).stack);
        lemma_absorb_all_stops(s, runs, k + 1);
    }
}

/// Absorbs each of the `n` runs of 32 bytes in `bytes`, one after the other,
/// and stops at the first that the pattern refuses.
fn absorb_runs<H: DuplexHash<u8>>(merlin: &mut bare::Merlin<H, u8>, bytes: &[u8], n: usize) -> (r:
    Result<(), IOPatternError>)
    requires
        bytes@.len() == n * 32,
    ensures
        r == absorb_all_outcome(old(merlin)@, chunks(bytes@, n as nat, 32)),
        final(merlin)@ == absorb_all(old(merlin)@, chunks(bytes@, n as nat, 32)),
{
    let ghost runs = chunks(bytes@, n as nat, 32);
    let len: usize = bytes.len();
    let mut i: usize = 0;
    while i < n
        invariant
            bytes@.len() == n * 32 == len,
            runs == chunks(bytes@, n as nat, 32),
            i <= n,
            absorb_all_outcome(old(merlin)@, runs.subrange(0, i as int)) is Ok,
            merlin@ == absorb_all(old(merlin)@, runs.subrange(0, i as int)),
        decreases n - i,
    {
        let run = slice_subrange(bytes, i * 32, i * 32 + 32);
        proof {
            assert(run@ == runs[i as int]);
            assert(runs.subrange(0, i + 1).drop_last() =~= runs.subrange(0, i as int));
        }
        match merlin.absorb_native(run) {
            Ok(()) => {},
            Err(e) => {
                proof {
                    lemma_absorb_all_stops(old(merlin)@, runs, i + 1);
                }
                return Err(e);
            },
        }
        i += 1;
    }
    assert(runs.subrange(0, n as int) =~= runs);
    Ok(())
}

impl<H: DuplexHash<u8>> DalekBridge for bare::Merlin<H, u8> {
    /// Absorbs the encoding of each of `scalars`, one after the other, and
    /// stops at the first that the pattern refuses. Without scalars it
    /// absorbs nothing, which the pattern refuses unless an absorb stands at
    /// its head.
    fn absorb_scalars(&mut self, scalars: &[Scalar]) -> (r: Result<(), IOPatternError>)
        ensures
            r == absorb_each_outcome(old(self)@, scalar_encodings(scalars@)),
            final(self)@ == absorb_each(old(self)@, scalar_encodings(scalars@)),
    {
        let bytes = encode_scalars(scalars);
        if scalars.len() == 0 {
            assert(bytes@ =~= Seq::<u8>::empty());
            return self.absorb_native(bytes.as_slice());
        }
        proof {
            lemma_chunks_of_concat(scalar_encodings(scalars@), 32);
        }
        absorb_runs(self, bytes.as_slice(), scalars.len())
    }

    /// Absorbs the compressed form of each of `points`, one after the other,
    /// and stops at the first that the pattern refuses. Without points it
    /// absorbs nothing, which the pattern refuses unless an absorb stands at
    /// its head.
    fn absorb_points(&mut self, points: &[RistrettoPoint]) -> (r: Result<(), IOPatternError>)
        ensures
            r == absorb_each_outcome(old(self)@, point_encodings(points@)),
            final(self)@ == absorb_each(old(self)@, point_encodings(points@)),
    {
        let bytes = encode_points(points);
        if points.len() == 0 {
            assert(bytes@ =~= Seq::<u8>::empty());
            return self.absorb_native(bytes.as_slice());
        }
        proof {
            lemma_chunks_of_concat(point_encodings(points@), 32);
        }
        absorb_runs(self, bytes.as_slice(), points.len())
    }
}

/// Scalars that are written to a proof are read from it.
///
/// Let the prover add the encodings `scalars`, each the encoding of a scalar,
/// and let a verifier with the same operations to come and the same sponge
/// history stand at the place of the proof where the prover was. Then reading
/// as many scalars succeeds, gives `scalars`, and leaves the verifier with the
/// state of the prover.
pub proof fn lemma_scalars_round_trip(
    m: MerlinState<u8>,
    a: ArthurState<u8>,
    scalars: Seq<Seq<u8>>,
)
    requires
        forall|i: int| 0 <= i < scalars.len() ==> is_scalar(#[trigger] scalars[i]),
        scalars.len() * 32 <= usize::MAX,
        allows(m.safe.stack, Op::Absorb(concat(scalars).len() as usize)),
        a.safe == m.safe,
        a.cursor == m.transcript.len(),
        m.add_units(concat(scalars)).transcript.is_prefix_of(a.transcript),
    ensures
        ({
            let n = scalars.len();
            let read = a.next_units(n * 32);
            &&& all_scalars(read, n)
            &&& decode_outcome(a, n, all_scalars(read, n)) is Ok
            &&& chunks(read, n, 32) == scalars
            &&& decode_step(a, n, all_scalars(read, n)).safe == m.add_units(concat(scalars)).safe
        }),
{
    lemma_chunks_of_concat(scalars, 32);
    lemma_reads_what_was_added(m, a, concat(scalars));
    let n = scalars.len();
    assert forall|i: int| 0 <= i < n implies is_scalar(#[trigger] chunk(concat(scalars), i, 32)) by {
        assert(chunks(concat(scalars), n, 32)[i] == scalars[i]);
    }
}

/// Points that are written to a proof are read from it.
///
/// Let the prover add the compressed forms `points`, each that of a point, and
/// let a verifier with the same operations to come and the same sponge history
/// stand at the place of the proof where the prover was. Then reading as many
/// points succeeds, gives `points`, and leaves the verifier with the state of
/// the prover.
pub proof fn lemma_points_round_trip(
    m: MerlinState<u8>,
    a: ArthurState<u8>,
    points: Seq<Seq<u8>>,
)
    requires
        forall|i: int| 0 <= i < points.len() ==> is_point(#[trigger] points[i]),
        points.len() * 32 <= usize::MAX,
        allows(m.safe.stack, Op::Absorb(concat(points).len() as usize)),
        a.safe == m.safe,
        a.cursor == m.transcript.len(),
        m.add_units(concat(points)).transcript.is_prefix_of(a.transcript),
    ensures
        ({
            let n = points.len();
            let read = a.next_units(n * 32);
            &&& all_points(read, n)
            &&& decode_outcome(a, n, all_points(read, n)) is Ok
            &&& chunks(read, n, 32) == points
            &&& decode_step(a, n, all_points(read, n)).safe == m.add_units(concat(points)).safe
        }),
{
    lemma_chunks_of_concat(points, 32);
    lemma_reads_what_was_added(m, a, concat(points));
    let n = points.len();
    assert forall|i: int| 0 <= i < n implies is_point(#[trigger] chunk(concat(points), i, 32)) by {
        assert(chunks(concat(points), n, 32)[i] == points[i]);
    }
}

/// A run of 32 bytes in the proof that does not stand for an integer below
/// the group order is a serialization error for the verifier that reads it as
/// a scalar, and no operation succeeds after it.
pub proof fn lemma_non_canonical_scalar(a: ArthurState<u8>, n: nat, i: int)
    requires
        n * 32 <= usize::MAX,
        a.read_outcome(n * 32) is Ok,
        0 <= i < n,
        !is_scalar(chunk(a.next_units(n * 32), i, 32)),
    ensures
        decode_outcome(a, n, all_scalars(a.next_units(n * 32), n)) == Err::<(), _>(
            ProofError::SerializationError,
        ),
        decode_step(a, n, all_scalars(a.next_units(n * 32), n)).safe.stack.len() == 0,
{
}

/// A run of 32 bytes in the proof that is not the compressed form of a point
/// is a serialization error for the verifier that reads it as a point, and no
/// operation succeeds after it.
pub proof fn lemma_invalid_point(a: ArthurState<u8>, n: nat, i: int)
    requires
        n * 32 <= usize::MAX,
        a.read_outcome(n * 32) is Ok,
        0 <= i < n,
        !is_point(chunk(a.next_units(n * 32), i, 32)),
    ensures
        decode_outcome(a, n, all_points(a.next_units(n * 32), n)) == Err::<(), _>(
            ProofError::SerializationError,
        ),
        decode_step(a, n, all_points(a.next_units(n * 32), n)).safe.stack.len() == 0,
{
}

} // verus!
