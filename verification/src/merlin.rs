//! The prover's side of a transcript.

use crate::csrng::{os_rng, Csrng, DefaultRng};
use crate::encoding::{le_bytes, le_nat, le_u64, u32_from_le, u32_to_le};
use crate::errors::{EntropyError, IOPatternError, ProofError};
use crate::hash::keccak::Keccak;
use crate::hash::unit::Unit;
use crate::hash::{
    absorbed, challenges, ratcheted, squeezed, DefaultHash, DuplexHash, SpongeOp,
};
use crate::iopattern::{encode_pattern, IOPattern, Op};
use crate::safe::{allows, outcome, refusal, squeezes_runs, Safe, SafeState};
use crate::traits::{ByteWriter, UnitTranscript};
use vstd::prelude::*;
use vstd::slice::slice_subrange;
use vstd::std_specs::convert::FromSpecImpl;

verus! {

/// The number of bytes that the generator draws from its source of randomness
/// at most, each time it is asked for bytes.
pub const SEED_LEN: usize = 32;

/// The history of the generator's sponge after it was seeded with `seed` and
/// gave out `n` bytes: the seed is absorbed, the bytes are squeezed, and the
/// sponge is ratcheted so that what it gave cannot be computed again.
pub open spec fn reseeded(h: Seq<SpongeOp<u8>>, seed: Seq<u8>, n: nat) -> Seq<SpongeOp<u8>> {
    ratcheted(squeezed(absorbed(h, seed), n))
}

/// Whether `r`, the history `after` and the bytes `dest` are what a fill
/// gives the generator with the history `before`, asked for as many bytes as
/// `old_dest` holds. Where it succeeds, a seed of at most 32 bytes, and of no
/// more than were asked for, was absorbed, the bytes were squeezed, and the
/// sponge was ratcheted. Where it fails, nothing has changed.
pub open spec fn is_fill(
    before: Seq<SpongeOp<u8>>,
    after: Seq<SpongeOp<u8>>,
    old_dest: Seq<u8>,
    dest: Seq<u8>,
    r: Result<(), EntropyError>,
) -> bool {
    match r {
        Ok(()) => exists|seed: Seq<u8>|
            {
                &&& seed.len() == if old_dest.len() < SEED_LEN {
                    old_dest.len()
                } else {
                    SEED_LEN as nat
                }
                &&& after == #[trigger] reseeded(before, seed, old_dest.len())
                &&& dest == challenges::<u8, Keccak>(absorbed(before, seed), old_dest.len())
            },
        Err(_) => after == before && dest == old_dest,
    }
}

/// A random number generator that is bound to the protocol transcript.
///
/// It is a sponge of its own that absorbs what the prover absorbs and, each
/// time it is asked for bytes, fresh bytes of a source of randomness. After
/// each use the sponge is ratcheted.
pub struct ProverRng<R: Csrng> {
    sponge: Keccak,
    csrng: R,
}

impl<R: Csrng + Clone> Clone for ProverRng<R> {
    /// A copy whose sponge has the same history, around a copy of the source
    /// of randomness.
    fn clone(&self) -> (rng: Self)
        ensures
            rng.history() == self.history(),
            cloned::<R>(self.source(), rng.source()),
    {
        ProverRng { sponge: self.sponge.clone(), csrng: self.csrng.clone() }
    }
}

impl<R: Csrng> ProverRng<R> {
    /// The history of the generator's sponge.
    pub closed spec fn history(&self) -> Seq<SpongeOp<u8>> {
        self.sponge.history()
    }

    /// The source of randomness that the generator draws from.
    pub closed spec fn source(&self) -> R {
        self.csrng
    }

    /// Fills `dest` from the sponge after it has absorbed `seed`, and ratchets
    /// the sponge.
    pub fn fill_bytes_seeded(&mut self, seed: &[u8], dest: &mut [u8])
        ensures
            final(self).source() == old(self).source(),
            final(self).history() == reseeded(old(self).history(), seed@, old(dest)@.len()),
            final(dest)@ == challenges::<u8, Keccak>(
                absorbed(old(self).history(), seed@),
                old(dest)@.len(),
            ),
    {
        self.sponge.absorb_unchecked(seed);
        self.sponge.squeeze_unchecked(dest);
        self.sponge.ratchet_unchecked();
        assert(dest@ =~= challenges::<u8, Keccak>(
            absorbed(old(self).history(), seed@),
            old(dest)@.len(),
        ));
    }

    /// What the generator does with what its source gave. Where the source
    /// has filled `seed`, `dest` is filled from the sponge after it has
    /// absorbed `seed`, and the sponge is ratcheted. Where the source has
    /// failed, nothing is changed and the failure is returned.
    pub fn fill_bytes_drawn(&mut self, filled: bool, seed: &[u8], dest: &mut [u8]) -> (r: Result<
        (),
        EntropyError,
    >)
        ensures
            r is Ok <==> filled,
            final(self).source() == old(self).source(),
            final(self).history() == if filled {
                reseeded(old(self).history(), seed@, old(dest)@.len())
            } else {
                old(self).history()
            },
            final(dest)@ == if filled {
                challenges::<u8, Keccak>(absorbed(old(self).history(), seed@), old(dest)@.len())
            } else {
                old(dest)@
            },
    {
        if !filled {
            return Err(EntropyError);
        }
        self.fill_bytes_seeded(seed, dest);
        Ok(())
    }

    /// Fills `dest` with random bytes: at most 32 bytes are drawn from the
    /// source of randomness and absorbed, then `dest` is squeezed from the
    /// sponge, which is ratcheted at the end. Where the source fails, nothing
    /// is changed. With a source that never fails, it succeeds.
    pub fn fill_bytes(&mut self, dest: &mut [u8]) -> (r: Result<(), EntropyError>)
        ensures
            final(dest)@.len() == old(dest)@.len(),
            R::never_fails() ==> r is Ok,
            is_fill(old(self).history(), final(self).history(), old(dest)@, final(dest)@, r),
    {
        let len: usize = if dest.len() < SEED_LEN {
            dest.len()
        } else {
            SEED_LEN
        };
        let mut seed: Vec<u8> = Vec::new();
        seed.resize(len, 0u8);
        let filled: bool = self.csrng.try_fill(seed.as_mut_slice());
        let r = self.fill_bytes_drawn(filled, seed.as_slice(), dest);
        assert(filled ==> final(self).history() == reseeded(
            old(self).history(),
            seed@,
            old(dest)@.len(),
        ));
        r
    }

    /// Fills `dest` with random bytes, as `fill_bytes` does: the source of
    /// randomness is asked, its bytes are absorbed, `dest` is squeezed and the
    /// sponge is ratcheted. Where the source fails, nothing is changed. With a
    /// source that never fails, it succeeds.
    pub fn try_fill_bytes(&mut self, dest: &mut [u8]) -> (r: Result<(), EntropyError>)
        ensures
            final(dest)@.len() == old(dest)@.len(),
            R::never_fails() ==> r is Ok,
            is_fill(old(self).history(), final(self).history(), old(dest)@, final(dest)@, r),
    {
        self.fill_bytes(dest)
    }

    /// Four random bytes, read as an integer with the lowest byte first. With
    /// a source that never fails, it succeeds.
    pub fn next_u32(&mut self) -> (r: Result<u32, EntropyError>)
        ensures
            R::never_fails() ==> r is Ok,
            match r {
                Ok(n) => exists|seed: Seq<u8>|
                    {
                        &&& seed.len() == 4
                        &&& final(self).history() == #[trigger] reseeded(
                            old(self).history(),
                            seed,
                            4,
                        )
                        &&& n as nat == le_nat(
                            challenges::<u8, Keccak>(absorbed(old(self).history(), seed), 4),
                        )
                    },
                Err(_) => final(self).history() == old(self).history(),
            },
    {
        let mut buf: Vec<u8> = Vec::new();
        buf.resize(4, 0u8);
        match self.fill_bytes(buf.as_mut_slice()) {
            Ok(()) => {
                assert(buf@.subrange(0, 4) =~= buf@);
                Ok(u32_from_le(buf.as_slice(), 0))
            },
            Err(e) => Err(e),
        }
    }

    /// Eight random bytes, read as an integer with the lowest byte first.
    /// With a source that never fails, it succeeds.
    pub fn next_u64(&mut self) -> (r: Result<u64, EntropyError>)
        ensures
            R::never_fails() ==> r is Ok,
            match r {
                Ok(n) => exists|seed: Seq<u8>|
                    {
                        &&& seed.len() == 8
                        &&& final(self).history() == #[trigger] reseeded(
                            old(self).history(),
                            seed,
                            8,
                        )
                        &&& n as nat == le_nat(
                            challenges::<u8, Keccak>(absorbed(old(self).history(), seed), 8),
                        )
                    },
                Err(_) => final(self).history() == old(self).history(),
            },
    {
        let mut buf: Vec<u8> = Vec::new();
        buf.resize(8, 0u8);
        match self.fill_bytes(buf.as_mut_slice()) {
            Ok(()) => Ok(le_u64(buf.as_slice())),
            Err(e) => Err(e),
        }
    }
}

/// What a [`Merlin`] stands for.
pub struct MerlinState<U> {
    /// The operations still to come and the history of the sponge.
    pub safe: SafeState<U>,
    /// The history of the sponge of the random number generator.
    pub rng: Seq<SpongeOp<u8>>,
    /// The bytes of the proof written so far.
    pub transcript: Seq<u8>,
}

/// What writing a hint of `len` bytes returns: the pattern must ask for a hint,
/// and the length must fit the four bytes that are written before the hint.
pub open spec fn hint_outcome(stack: Seq<Op>, len: nat) -> Result<(), ProofError> {
    if !allows(stack, Op::Hint) {
        Err(ProofError::InvalidIO(refusal(stack, Op::Hint)))
    } else if len > u32::MAX {
        Err(ProofError::SerializationError)
    } else {
        Ok(())
    }
}

impl<U: Unit> MerlinState<U> {
    /// The state of a prover made for the IO pattern with the byte string `io`
    /// and the operations `ops`: the sponge of the generator has absorbed the
    /// byte string, and nothing is written yet.
    pub open spec fn initial(io: Seq<u8>, ops: Seq<Op>) -> MerlinState<U> {
        MerlinState {
            safe: SafeState::<U>::initial(io, ops),
            rng: absorbed(Seq::empty(), io),
            transcript: Seq::empty(),
        }
    }

    /// The state after an attempt to absorb `input` without writing it to the
    /// proof: where the pattern allows it, `input` enters the sponge and its
    /// encoding enters the sponge of the generator.
    pub open spec fn public_units(self, input: Seq<U>) -> MerlinState<U> {
        if allows(self.safe.stack, Op::Absorb(input.len() as usize)) {
            MerlinState {
                safe: self.safe.absorb(input),
                rng: absorbed(self.rng, U::spec_encode(input)),
                transcript: self.transcript,
            }
        } else {
            MerlinState { safe: self.safe.absorb(input), rng: self.rng, transcript: self.transcript }
        }
    }

    /// The state after an attempt to add `input` to the proof: as with
    /// `public_units`, and the encoding of `input` is written to the proof.
    pub open spec fn add_units(self, input: Seq<U>) -> MerlinState<U> {
        let next = self.public_units(input);
        if allows(self.safe.stack, Op::Absorb(input.len() as usize)) {
            MerlinState {
                safe: next.safe,
                rng: next.rng,
                transcript: self.transcript + U::spec_encode(input),
            }
        } else {
            next
        }
    }

    /// The state with nothing left on the stack.
    pub open spec fn abandoned(self) -> MerlinState<U> {
        MerlinState { safe: self.safe.abandoned(), rng: self.rng, transcript: self.transcript }
    }

    /// The state after an attempt to squeeze `n` units.
    pub open spec fn fill_challenge_units(self, n: nat) -> MerlinState<U> {
        MerlinState { safe: self.safe.squeeze(n), rng: self.rng, transcript: self.transcript }
    }

    /// The state after an attempt to ratchet.
    pub open spec fn ratchet(self) -> MerlinState<U> {
        MerlinState { safe: self.safe.ratchet(), rng: self.rng, transcript: self.transcript }
    }

    /// The state after an attempt to write the hint `bytes`: where it
    /// succeeds, the length of the hint, as four bytes with the lowest first,
    /// and the hint itself are written to the proof.
    pub open spec fn hint(self, bytes: Seq<u8>) -> MerlinState<U> {
        if hint_outcome(self.safe.stack, bytes.len()) is Ok {
            MerlinState {
                safe: self.safe.hint(),
                rng: self.rng,
                transcript: self.transcript + le_bytes(bytes.len(), 4) + bytes,
            }
        } else {
            self.abandoned()
        }
    }
}

/// The prover's state in an interactive proof: the sponge that the verifier
/// has too, the proof written so far, and a random number generator that is
/// bound to what has been absorbed.
///
/// An operation that fails leaves the sponge and the proof as they are, and no
/// operation succeeds after it.
pub struct Merlin<H = DefaultHash, U = u8, R = DefaultRng> where
    U: Unit,
    H: DuplexHash<U>,
    R: Csrng,
 {
    rng: ProverRng<R>,
    safe: Safe<H, U>,
    transcript: Vec<u8>,
}

impl<H, U, R> Clone for Merlin<H, U, R> where U: Unit, H: DuplexHash<U>, R: Csrng + Clone {
    /// A copy in the same state, with the same proof, around a copy of the
    /// source of randomness.
    fn clone(&self) -> (merlin: Self)
        ensures
            merlin@ == self@,
            cloned::<R>(self.source(), merlin.source()),
    {
        Merlin {
            rng: self.rng.clone(),
            safe: self.safe.clone(),
            transcript: self.transcript.clone(),
        }
    }
}

impl<H, U, R> Merlin<H, U, R> where U: Unit, H: DuplexHash<U>, R: Csrng {
    /// What the prover stands for.
    pub closed spec fn view(&self) -> MerlinState<U> {
        MerlinState { safe: self.safe@, rng: self.rng.history(), transcript: self.transcript@ }
    }

    /// The source of randomness that the prover's generator draws from. Only
    /// the generator asks it.
    pub closed spec fn source(&self) -> R {
        self.rng.source()
    }

    /// A prover for `io_pattern` whose random number generator draws from
    /// `csrng`, of which nothing is drawn yet.
    pub fn new(io_pattern: &IOPattern<H, U>, csrng: R) -> (merlin: Self)
        ensures
            merlin.source() == csrng,
            merlin@ == MerlinState::<U>::initial(
                encode_pattern(io_pattern.domsep(), io_pattern.decls()),
                io_pattern.ops(),
            ),
    {
        let safe = Safe::new(io_pattern);
        let mut sponge = Keccak::default();
        sponge.absorb_unchecked(io_pattern.as_bytes());
        let rng = ProverRng { sponge, csrng };
        Merlin { rng, safe, transcript: Vec::new() }
    }

    /// Adds `input` to the proof: it is absorbed by the sponge, written to the
    /// proof, and used to seed the random number generator anew.
    pub fn add_units(&mut self, input: &[U]) -> (r: Result<(), IOPatternError>)
        ensures
            r == outcome(old(self)@.safe.stack, Op::Absorb(input@.len() as usize)),
            final(self).source() == old(self).source(),
            final(self)@ == old(self)@.add_units(input@),
    {
        let old_len: usize = self.transcript.len();
        match self.safe.absorb(input) {
            Ok(()) => {},
            Err(e) => {
                return Err(e);
            },
        }
        U::write(input, &mut self.transcript);
        let written = slice_subrange(self.transcript.as_slice(), old_len, self.transcript.len());
        assert(written@ =~= U::spec_encode(input@));
        self.rng.sponge.absorb_unchecked(written);
        Ok(())
    }

    /// Absorbs `input` without writing it to the proof. The random number
    /// generator is seeded with it all the same.
    pub fn public_units(&mut self, input: &[U]) -> (r: Result<(), IOPatternError>)
        ensures
            r == outcome(old(self)@.safe.stack, Op::Absorb(input@.len() as usize)),
            final(self).source() == old(self).source(),
            final(self)@ == old(self)@.public_units(input@),
    {
        let len: usize = self.transcript.len();
        let r = self.add_units(input);
        self.transcript.truncate(len);
        assert(self.transcript@ =~= old(self).transcript@);
        r
    }

    /// Fills `output` with a challenge squeezed from the sponge.
    pub fn fill_challenge_units(&mut self, output: &mut [U]) -> (r: Result<(), IOPatternError>)
        ensures
            r == outcome(old(self)@.safe.stack, Op::Squeeze(old(output)@.len() as usize)),
            final(self).source() == old(self).source(),
            final(self)@ == old(self)@.fill_challenge_units(old(output)@.len()),
            final(output)@ == if r is Ok {
                challenges::<U, H>(old(self)@.safe.history, old(output)@.len())
            } else {
                old(output)@
            },
    {
        self.safe.squeeze(output)
    }

    /// Ratchets the sponge. The random number generator is not touched.
    pub fn ratchet(&mut self) -> (r: Result<(), IOPatternError>)
        ensures
            r == outcome(old(self)@.safe.stack, Op::Ratchet),
            final(self).source() == old(self).source(),
            final(self)@ == old(self)@.ratchet(),
    {
        self.safe.ratchet()
    }

    /// Writes the hint `bytes` to the proof, after its length as four bytes
    /// with the lowest first. Neither sponge is touched.
    pub fn hint(&mut self, bytes: &[u8]) -> (r: Result<(), ProofError>)
        ensures
            r == hint_outcome(old(self)@.safe.stack, bytes@.len()),
            final(self).source() == old(self).source(),
            final(self)@ == old(self)@.hint(bytes@),
    {
        match self.safe.hint() {
            Ok(()) => {},
            Err(e) => {
                return Err(ProofError::InvalidIO(e));
            },
        }
        if bytes.len() > u32::MAX as usize {
            self.safe.abandon();
            return Err(ProofError::SerializationError);
        }
        let prefix: [u8; 4] = u32_to_le(bytes.len() as u32);
        self.transcript.extend_from_slice(prefix.as_slice());
        self.transcript.extend_from_slice(bytes);
        assert(self.transcript@ =~= old(self).transcript@ + le_bytes(bytes@.len(), 4) + bytes@);
        Ok(())
    }

    /// Whether no operation is left: the protocol has run to its end, or an
    /// operation has failed, which its error has told.
    pub fn finished(&self) -> (r: bool)
        ensures
            r == (self@.safe.stack.len() == 0),
    {
        self.safe.finished()
    }

    /// Gives the proof up: no operation succeeds from now on.
    pub fn abandon(&mut self)
        ensures
            final(self).source() == old(self).source(),
            final(self)@ == old(self)@.abandoned(),
    {
        self.safe.abandon();
    }

    /// The random number generator that is bound to the transcript.
    pub fn rng(&mut self) -> (rng: &mut ProverRng<R>)
        ensures
            rng.history() == old(self)@.rng,
            rng.source() == old(self).source(),
            final(self).source() == final(rng).source(),
            final(self)@ == (MerlinState {
                safe: old(self)@.safe,
                rng: final(rng).history(),
                transcript: old(self)@.transcript,
            }),
    {
        &mut self.rng
    }

    /// The proof written so far: the encodings of the units that were added,
    /// in order and without anything between them, and the hints, each after
    /// its length. Challenges and public units are not in it.
    pub fn transcript(&self) -> (bytes: &[u8])
        ensures
            bytes@ == self@.transcript,
    {
        self.transcript.as_slice()
    }
}

impl<U, H> From<&IOPattern<H, U>> for Merlin<H, U, DefaultRng> where U: Unit, H: DuplexHash<U> {
    /// A prover for `io_pattern` that draws its randomness from the operating
    /// system.
    fn from(io_pattern: &IOPattern<H, U>) -> (merlin: Self)
        ensures
            merlin@ == MerlinState::<U>::initial(
                encode_pattern(io_pattern.domsep(), io_pattern.decls()),
                io_pattern.ops(),
            ),
    {
        Merlin::new(io_pattern, os_rng())
    }
}

/// A prover holds two sponges, of which a specification knows the histories
/// only: what `from` returns is said by its own contract.
impl<U, H> FromSpecImpl<&IOPattern<H, U>> for Merlin<H, U, DefaultRng> where U: Unit, H: DuplexHash<U> {
    open spec fn obeys_from_spec() -> bool {
        false
    }

    open spec fn from_spec(io_pattern: &IOPattern<H, U>) -> Self {
        arbitrary()
    }
}

impl<H, U, R> UnitTranscript<U> for Merlin<H, U, R> where U: Unit, H: DuplexHash<U>, R: Csrng {
    /// Absorbs `input` without writing it to the proof. The random number
    /// generator is seeded with it all the same.
    fn public_units(&mut self, input: &[U]) -> (r: Result<(), IOPatternError>)
        ensures
            r == outcome(old(self)@.safe.stack, Op::Absorb(input@.len() as usize)),
            final(self).source() == old(self).source(),
            final(self)@ == old(self)@.public_units(input@),
    {
        Merlin::public_units(self, input)
    }

    /// Fills `output` with a challenge squeezed from the sponge.
    fn fill_challenge_units(&mut self, output: &mut [U]) -> (r: Result<(), IOPatternError>)
        ensures
            r == outcome(old(self)@.safe.stack, Op::Squeeze(old(output)@.len() as usize)),
            final(self).source() == old(self).source(),
            final(self)@ == old(self)@.fill_challenge_units(old(output)@.len()),
            final(output)@ == if r is Ok {
                challenges::<U, H>(old(self)@.safe.history, old(output)@.len())
            } else {
                old(output)@
            },
    {
        Merlin::fill_challenge_units(self, output)
    }
}

impl<H, R> ByteWriter for Merlin<H, u8, R> where H: DuplexHash<u8>, R: Csrng {
    /// Adds the bytes `input` to the proof.
    fn add_bytes(&mut self, input: &[u8]) -> (r: Result<(), IOPatternError>)
        ensures
            r == outcome(old(self)@.safe.stack, Op::Absorb(input@.len() as usize)),
            final(self).source() == old(self).source(),
            final(self)@ == old(self)@.add_units(input@),
    {
        self.add_units(input)
    }
}

impl<H, R> Merlin<H, u8, R> where H: DuplexHash<u8>, R: Csrng {
    /// Absorbs the bytes `input` without writing them to the proof.
    pub fn public_bytes(&mut self, input: &[u8]) -> (r: Result<(), IOPatternError>)
        ensures
            r == outcome(old(self)@.safe.stack, Op::Absorb(input@.len() as usize)),
            final(self).source() == old(self).source(),
            final(self)@ == old(self)@.public_units(input@),
    {
        self.public_units(input)
    }

    /// Squeezes a challenge of `n` bytes.
    pub fn challenge_bytes(&mut self, n: usize) -> (r: Result<Vec<u8>, IOPatternError>)
        ensures
            final(self).source() == old(self).source(),
            final(self)@ == old(self)@.fill_challenge_units(n as nat),
            match r {
                Ok(bytes) => allows(old(self)@.safe.stack, Op::Squeeze(n)) && bytes@
                    == challenges::<u8, H>(old(self)@.safe.history, n as nat),
                Err(e) => !allows(old(self)@.safe.stack, Op::Squeeze(n)) && e == refusal(
                    old(self)@.safe.stack,
                    Op::Squeeze(n),
                ),
            },
    {
        let mut bytes: Vec<u8> = Vec::new();
        if !self.safe.expects(Op::Squeeze(n)) {
            return Err(self.safe.refuse(Op::Squeeze(n)));
        }
        bytes.resize(n, 0u8);
        match self.fill_challenge_units(bytes.as_mut_slice()) {
            Ok(()) => Ok(bytes),
            Err(e) => Err(e),
        }
    }
}

impl<H, R> Merlin<H, u8, R> where H: DuplexHash<u8>, R: Csrng {
    /// Squeezes a challenge of `count` runs of `size` bytes. Where the runs
    /// are more bytes than a `usize` counts, the proof is given up.
    pub fn challenge_runs(&mut self, count: usize, size: usize) -> (r: Result<Vec<u8>, ProofError>)
        ensures
            final(self).source() == old(self).source(),
            final(self)@.rng == old(self)@.rng,
            final(self)@.transcript == old(self)@.transcript,
            squeezes_runs::<H>(old(self)@.safe, final(self)@.safe, count, size, r),
    {
        match count.checked_mul(size) {
            Some(len) => match self.challenge_bytes(len) {
                Ok(bytes) => Ok(bytes),
                Err(e) => Err(ProofError::InvalidIO(e)),
            },
            None => {
                self.safe.abandon();
                Err(ProofError::InvalidIO(IOPatternError::CountOverflow))
            },
        }
    }
}

impl<H, U> IOPattern<H, U> where U: Unit, H: DuplexHash<U> {
    /// A prover for this pattern that draws its randomness from the operating
    /// system.
    pub fn to_merlin(&self) -> (merlin: Merlin<H, U, DefaultRng>)
        ensures
            merlin@ == MerlinState::<U>::initial(
                encode_pattern(self.domsep(), self.decls()),
                self.ops(),
            ),
    {
        Merlin::new(self, os_rng())
    }
}

} // verus!
