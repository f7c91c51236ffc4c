//! The verifier's side of a transcript.

use crate::encoding::{le_nat, u32_from_le};
use crate::errors::{IOPatternError, ProofError};
use crate::hash::unit::{decodes_to_len, Unit};
use crate::hash::{challenges, DefaultHash, DuplexHash};
use crate::iopattern::{encode_pattern, IOPattern, Op};
use crate::safe::{allows, outcome, refusal, squeezes_runs, Safe, SafeState};
use crate::traits::UnitTranscript;
use vstd::prelude::*;
use vstd::slice::slice_subrange;

verus! {

/// What an [`Arthur`] stands for.
pub struct ArthurState<U> {
    /// The operations still to come and the history of the sponge.
    pub safe: SafeState<U>,
    /// The proof that is read.
    pub transcript: Seq<u8>,
    /// How many bytes of the proof have been read.
    pub cursor: nat,
}

impl<U: Unit> ArthurState<U> {
    /// The state of a verifier made for the IO pattern with the byte string
    /// `io` and the operations `ops`, to read `transcript`.
    pub open spec fn initial(io: Seq<u8>, ops: Seq<Op>, transcript: Seq<u8>) -> ArthurState<U> {
        ArthurState { safe: SafeState::<U>::initial(io, ops), transcript, cursor: 0 }
    }

    /// The bytes of the proof that have not been read.
    pub open spec fn unread(self) -> Seq<u8> {
        self.transcript.subrange(self.cursor as int, self.transcript.len() as int)
    }

    /// The bytes of the proof that the next `n` units are read from, where as
    /// many are unread.
    pub open spec fn next_bytes(self, n: nat) -> Seq<u8> {
        self.unread().subrange(0, (n * U::spec_byte_size()) as int)
    }

    /// What reading `n` units returns. The pattern must allow an absorb of
    /// `n` units, the unread bytes must be enough for them, and those bytes
    /// must be the encoding of `n` units.
    pub open spec fn read_outcome(self, n: nat) -> Result<(), ProofError> {
        let op = Op::Absorb(n as usize);
        if !allows(self.safe.stack, op) {
            Err(ProofError::InvalidIO(refusal(self.safe.stack, op)))
        } else if self.unread().len() < n * U::spec_byte_size() {
            Err(ProofError::InvalidProof)
        } else if !decodes_to_len::<U>(self.next_bytes(n), n) {
            Err(ProofError::SerializationError)
        } else {
            Ok(())
        }
    }

    /// The units that are read next, where reading `n` units succeeds.
    pub open spec fn next_units(self, n: nat) -> Seq<U> {
        U::spec_decode(self.next_bytes(n))->Some_0
    }

    /// The state with nothing left on the stack.
    pub open spec fn abandoned(self) -> ArthurState<U> {
        ArthurState {
            safe: self.safe.abandoned(),
            transcript: self.transcript,
            cursor: self.cursor,
        }
    }

    /// The state after an attempt to read `n` units: where it succeeds, the
    /// units are absorbed and their bytes are read.
    pub open spec fn fill_next_units(self, n: nat) -> ArthurState<U> {
        if self.read_outcome(n) is Ok {
            ArthurState {
                safe: self.safe.absorb(self.next_units(n)),
                transcript: self.transcript,
                cursor: self.cursor + n * U::spec_byte_size(),
            }
        } else {
            self.abandoned()
        }
    }

    /// The state after an attempt to absorb `input`, which is not in the
    /// proof.
    pub open spec fn public_units(self, input: Seq<U>) -> ArthurState<U> {
        ArthurState {
            safe: self.safe.absorb(input),
            transcript: self.transcript,
            cursor: self.cursor,
        }
    }

    /// The state after an attempt to squeeze `n` units.
    pub open spec fn fill_challenge_units(self, n: nat) -> ArthurState<U> {
        ArthurState {
            safe: self.safe.squeeze(n),
            transcript: self.transcript,
            cursor: self.cursor,
        }
    }

    /// The state after an attempt to ratchet.
    pub open spec fn ratchet(self) -> ArthurState<U> {
        ArthurState { safe: self.safe.ratchet(), transcript: self.transcript, cursor: self.cursor }
    }

    /// The length that the next four unread bytes give, the lowest first.
    pub open spec fn hint_len(self) -> nat {
        le_nat(self.unread().subrange(0, 4))
    }

    /// What reading a hint returns. The pattern must ask for a hint, four
    /// bytes must be unread, and as many bytes as they say must follow them.
    pub open spec fn hint_outcome(self) -> Result<(), ProofError> {
        if !allows(self.safe.stack, Op::Hint) {
            Err(ProofError::InvalidIO(refusal(self.safe.stack, Op::Hint)))
        } else if self.unread().len() < 4 || self.unread().len() - 4 < self.hint_len() {
            Err(ProofError::InvalidProof)
        } else {
            Ok(())
        }
    }

    /// The hint that is read next, where reading a hint succeeds.
    pub open spec fn next_hint(self) -> Seq<u8> {
        self.unread().subrange(4, 4 + self.hint_len() as int)
    }

    /// The state after an attempt to read a hint: where it succeeds, the four
    /// bytes of the length and the hint are read, and the sponge is not
    /// touched.
    pub open spec fn hint(self) -> ArthurState<U> {
        if self.hint_outcome() is Ok {
            ArthurState {
                safe: self.safe.hint(),
                transcript: self.transcript,
                cursor: self.cursor + 4 + self.hint_len(),
            }
        } else {
            self.abandoned()
        }
    }
}

/// The verifier's state in an interactive proof: the sponge that the prover
/// had, and the proof with the place up to which it has been read.
///
/// An operation that fails reads nothing and leaves the sponge as it is, and
/// no operation succeeds after it.
pub struct Arthur<'a, H = DefaultHash, U = u8> where U: Unit, H: DuplexHash<U> {
    safe: Safe<H, U>,
    unread: &'a [u8],
    read: Ghost<Seq<u8>>,
}

impl<'a, H, U> Arthur<'a, H, U> where U: Unit, H: DuplexHash<U> {
    /// What the verifier stands for.
    pub closed spec fn view(&self) -> ArthurState<U> {
        ArthurState {
            safe: self.safe@,
            transcript: self.read@ + self.unread@,
            cursor: self.read@.len(),
        }
    }

    /// A verifier for `io_pattern` that reads the proof `transcript`.
    pub fn new(io_pattern: &IOPattern<H, U>, transcript: &'a [u8]) -> (arthur: Self)
        ensures
            arthur@ == ArthurState::<U>::initial(
                encode_pattern(io_pattern.domsep(), io_pattern.decls()),
                io_pattern.ops(),
                transcript@,
            ),
    {
        assert(Seq::<u8>::empty() + transcript@ =~= transcript@);
        Arthur { safe: Safe::new(io_pattern), unread: transcript, read: Ghost(Seq::empty()) }
    }

    /// Reads as many units as `output` holds from the proof and absorbs
    /// them. Where it fails, `output` holds nothing to rely on.
    pub fn fill_next_units(&mut self, output: &mut [U]) -> (r: Result<(), ProofError>)
        ensures
            final(output)@.len() == old(output)@.len(),
            r == old(self)@.read_outcome(old(output)@.len()),
            final(self)@ == old(self)@.fill_next_units(old(output)@.len()),
            r is Ok ==> final(output)@ == old(self)@.next_units(old(output)@.len()),
    {
        proof {
            U::lemma_encode_len(Seq::empty());
            assert(old(self)@.unread() =~= self.unread@);
        }
        let n: usize = output.len();
        if !self.safe.expects(Op::Absorb(n)) {
            let e = self.safe.refuse(Op::Absorb(n));
            return Err(ProofError::InvalidIO(e));
        }
        let unread: usize = self.unread.len();
        let size: usize = U::byte_size();
        if n > unread / size {
            proof {
                assert(unread < n * size) by (nonlinear_arith)
                    requires
                        n > unread / size,
                        size > 0,
                ;
            }
            self.safe.abandon();
            return Err(ProofError::InvalidProof);
        }
        proof {
            assert(n * size <= unread) by (nonlinear_arith)
                requires
                    n <= unread / size,
                    size > 0,
            ;
        }
        let len: usize = n * size;
        let bytes = slice_subrange(self.unread, 0, len);
        let rest = slice_subrange(self.unread, len, unread);
        assert(bytes@ =~= old(self)@.next_bytes(n as nat));
        match U::read(bytes, output) {
            Ok(()) => {},
            Err(_) => {
                self.safe.abandon();
                return Err(ProofError::SerializationError);
            },
        }
        proof {
            assert((self.read@ + bytes@) + rest@ =~= old(self)@.transcript);
        }
        self.unread = rest;
        self.read = Ghost(self.read@ + bytes@);
        match self.safe.absorb(output) {
            Ok(()) => Ok(()),
            Err(e) => Err(ProofError::InvalidIO(e)),
        }
    }

    /// Whether no operation is left: the protocol has run to its end, or an
    /// operation has failed, which its error has told.
    pub fn finished(&self) -> (r: bool)
        ensures
            r == (self@.safe.stack.len() == 0),
    {
        self.safe.finished()
    }

    /// Gives the proof up: no operation succeeds from now on.
    pub fn abandon(&mut self)
        ensures
            final(self)@ == old(self)@.abandoned(),
    {
        self.safe.abandon();
    }

    /// Absorbs `input`, which is known to both sides and is not in the proof.
    pub fn public_units(&mut self, input: &[U]) -> (r: Result<(), IOPatternError>)
        ensures
            r == outcome(old(self)@.safe.stack, Op::Absorb(input@.len() as usize)),
            final(self)@ == old(self)@.public_units(input@),
    {
        self.safe.absorb(input)
    }

    /// Fills `output` with a challenge squeezed from the sponge.
    pub fn fill_challenge_units(&mut self, output: &mut [U]) -> (r: Result<(), IOPatternError>)
        ensures
            r == outcome(old(self)@.safe.stack, Op::Squeeze(old(output)@.len() as usize)),
            final(self)@ == old(self)@.fill_challenge_units(old(output)@.len()),
            final(output)@ == if r is Ok {
                challenges::<U, H>(old(self)@.safe.history, old(output)@.len())
            } else {
                old(output)@
            },
    {
        self.safe.squeeze(output)
    }

    /// Ratchets the sponge.
    pub fn ratchet(&mut self) -> (r: Result<(), IOPatternError>)
        ensures
            r == outcome(old(self)@.safe.stack, Op::Ratchet),
            final(self)@ == old(self)@.ratchet(),
    {
        self.safe.ratchet()
    }

    /// Reads a hint from the proof: four bytes that give its length, the
    /// lowest first, and then the hint. The sponge is not touched.
    pub fn hint(&mut self) -> (r: Result<&'a [u8], ProofError>)
        ensures
            match r {
                Ok(bytes) => old(self)@.hint_outcome() is Ok && bytes@ == old(self)@.next_hint(),
                Err(e) => old(self)@.hint_outcome() == Err::<(), ProofError>(e),
            },
            final(self)@ == old(self)@.hint(),
    {
        proof {
            assert(old(self)@.unread() =~= self.unread@);
        }
        if !self.safe.expects(Op::Hint) {
            let e = self.safe.refuse(Op::Hint);
            return Err(ProofError::InvalidIO(e));
        }
        let unread: usize = self.unread.len();
        if unread < 4 {
            self.safe.abandon();
            return Err(ProofError::InvalidProof);
        }
        let len: u32 = u32_from_le(self.unread, 0);
        if unread - 4 < len as usize {
            self.safe.abandon();
            return Err(ProofError::InvalidProof);
        }
        let end: usize = 4 + len as usize;
        let bytes = slice_subrange(self.unread, 4, end);
        let rest = slice_subrange(self.unread, end, unread);
        proof {
            assert(bytes@ =~= old(self)@.next_hint());
            assert((self.read@ + self.unread@.subrange(0, end as int)) + rest@ =~= old(
                self,
            )@.transcript);
        }
        self.read = Ghost(self.read@ + self.unread@.subrange(0, end as int));
        self.unread = rest;
        match self.safe.hint() {
            Ok(()) => Ok(bytes),
            Err(e) => Err(ProofError::InvalidIO(e)),
        }
    }
}

impl<'a, H, U> UnitTranscript<U> for Arthur<'a, H, U> where U: Unit, H: DuplexHash<U> {
    /// Absorbs `input`, which is known to both sides and is not in the proof.
    fn public_units(&mut self, input: &[U]) -> (r: Result<(), IOPatternError>)
        ensures
            r == outcome(old(self)@.safe.stack, Op::Absorb(input@.len() as usize)),
            final(self)@ == old(self)@.public_units(input@),
    {
        Arthur::public_units(self, input)
    }

    /// Fills `output` with a challenge squeezed from the sponge.
    fn fill_challenge_units(&mut self, output: &mut [U]) -> (r: Result<(), IOPatternError>)
        ensures
            r == outcome(old(self)@.safe.stack, Op::Squeeze(old(output)@.len() as usize)),
            final(self)@ == old(self)@.fill_challenge_units(old(output)@.len()),
            final(output)@ == if r is Ok {
                challenges::<U, H>(old(self)@.safe.history, old(output)@.len())
            } else {
                old(output)@
            },
    {
        Arthur::fill_challenge_units(self, output)
    }
}

impl<'a, H> Arthur<'a, H, u8> where H: DuplexHash<u8> {
    /// Reads `n` bytes from the proof and absorbs them.
    pub fn next_bytes(&mut self, n: usize) -> (r: Result<Vec<u8>, ProofError>)
        ensures
            final(self)@ == old(self)@.fill_next_units(n as nat),
            match r {
                Ok(bytes) => old(self)@.read_outcome(n as nat) is Ok && bytes@ == old(
                    self,
                )@.next_units(n as nat),
                Err(e) => old(self)@.read_outcome(n as nat) == Err::<(), ProofError>(e),
            },
    {
        if !self.safe.expects(Op::Absorb(n)) {
            let e = self.safe.refuse(Op::Absorb(n));
            return Err(ProofError::InvalidIO(e));
        }
        if n > self.unread.len() {
            proof {
                assert(old(self)@.unread() =~= self.unread@);
            }
            self.safe.abandon();
            return Err(ProofError::InvalidProof);
        }
        let mut bytes: Vec<u8> = Vec::new();
        bytes.resize(n, 0u8);
        match self.fill_next_units(bytes.as_mut_slice()) {
            Ok(()) => Ok(bytes),
            Err(e) => Err(e),
        }
    }

    /// Reads `count` runs of `size` bytes from the proof and absorbs them.
    /// Where the runs are more bytes than a `usize` counts, the proof is given
    /// up.
    pub fn next_runs(&mut self, count: usize, size: usize) -> (r: Result<Vec<u8>, ProofError>)
        ensures
            if count * size > usize::MAX {
                &&& final(self)@ == old(self)@.abandoned()
                &&& r matches Err(e) && e == ProofError::InvalidIO(IOPatternError::CountOverflow)
            } else {
                &&& final(self)@ == old(self)@.fill_next_units((count * size) as nat)
                &&& match r {
                    Ok(bytes) => old(self)@.read_outcome((count * size) as nat) is Ok && bytes@
                        == old(self)@.next_units((count * size) as nat),
                    Err(e) => old(self)@.read_outcome((count * size) as nat) == Err::<
                        (),
                        ProofError,
                    >(e),
                }
            },
    {
        match count.checked_mul(size) {
            Some(len) => self.next_bytes(len),
            None => {
                self.safe.abandon();
                Err(ProofError::InvalidIO(IOPatternError::CountOverflow))
            },
        }
    }

    /// Gives the proof up because what was read from it is no encoding of
    /// what was asked for, and returns the error of that.
    pub fn malformed(&mut self) -> (e: ProofError)
        ensures
            final(self)@ == old(self)@.abandoned(),
            e == ProofError::SerializationError,
    {
        self.safe.abandon();
        ProofError::SerializationError
    }

    /// Squeezes a challenge of `count` runs of `size` bytes. Where the runs
    /// are more bytes than a `usize` counts, the proof is given up.
    pub fn challenge_runs(&mut self, count: usize, size: usize) -> (r: Result<Vec<u8>, ProofError>)
        ensures
            final(self)@.cursor == old(self)@.cursor,
            final(self)@.transcript == old(self)@.transcript,
            squeezes_runs::<H>(old(self)@.safe, final(self)@.safe, count, size, r),
    {
        match count.checked_mul(size) {
            Some(len) => match self.challenge_bytes(len) {
                Ok(bytes) => Ok(bytes),
                Err(e) => Err(ProofError::InvalidIO(e)),
            },
            None => {
                self.safe.abandon();
                Err(ProofError::InvalidIO(IOPatternError::CountOverflow))
            },
        }
    }

    /// Absorbs the bytes `input`, which are not in the proof.
    pub fn public_bytes(&mut self, input: &[u8]) -> (r: Result<(), IOPatternError>)
        ensures
            r == outcome(old(self)@.safe.stack, Op::Absorb(input@.len() as usize)),
            final(self)@ == old(self)@.public_units(input@),
    {
        self.public_units(input)
    }

    /// Squeezes a challenge of `n` bytes.
    pub fn challenge_bytes(&mut self, n: usize) -> (r: Result<Vec<u8>, IOPatternError>)
        ensures
            final(self)@ == old(self)@.fill_challenge_units(n as nat),
            match r {
                Ok(bytes) => allows(old(self)@.safe.stack, Op::Squeeze(n)) && bytes@
                    == challenges::<u8, H>(old(self)@.safe.history, n as nat),
                Err(e) => !allows(old(self)@.safe.stack, Op::Squeeze(n)) && e == refusal(
                    old(self)@.safe.stack,
                    Op::Squeeze(n),
                ),
            },
    {
        if !self.safe.expects(Op::Squeeze(n)) {
            return Err(self.safe.refuse(Op::Squeeze(n)));
        }
        let mut bytes: Vec<u8> = Vec::new();
        bytes.resize(n, 0u8);
        match self.fill_challenge_units(bytes.as_mut_slice()) {
            Ok(()) => Ok(bytes),
            Err(e) => Err(e),
        }
    }
}

impl<H, U> IOPattern<H, U> where U: Unit, H: DuplexHash<U> {
    /// A verifier for this pattern that reads the proof `transcript`.
    pub fn to_arthur<'a>(&self, transcript: &'a [u8]) -> (arthur: Arthur<'a, H, U>)
        ensures
            arthur@ == ArthurState::<U>::initial(
                encode_pattern(self.domsep(), self.decls()),
                self.ops(),
                transcript@,
            ),
    {
        Arthur::new(self, transcript)
    }
}

} // verus!
