//! The transcript of a public-coin protocol without a proof: a sponge that is
//! held to its IO pattern, and nothing else.

use crate::errors::IOPatternError;
use crate::hash::unit::Unit;
use crate::hash::{challenges, ratcheted, DefaultHash, DuplexHash};
use crate::iopattern::{encode_pattern, IOPattern, Op};
use crate::safe::{allows, outcome, refusal, Safe, SafeState};
use vstd::prelude::*;
use vstd::std_specs::convert::FromSpecImpl;

verus! {

/// A sponge for the Fiat-Shamir transformation of a public-coin protocol. It
/// writes no proof and holds no randomness: what both sides of the protocol
/// know is absorbed, and the verifier's coins are squeezed.
pub struct Merlin<H = DefaultHash, U = u8> where H: DuplexHash<U>, U: Unit {
    safe: Safe<H, U>,
}

impl<U: Unit, H: DuplexHash<U>> Clone for Merlin<H, U> {
    /// A copy with the same operations to come and the same sponge history.
    fn clone(&self) -> (merlin: Self)
        ensures
            merlin@ == self@,
    {
        Merlin { safe: self.safe.clone() }
    }
}

impl<U: Unit, H: DuplexHash<U>> Merlin<H, U> {
    /// The operations still to come, and the history of the sponge.
    pub closed spec fn view(&self) -> SafeState<U> {
        self.safe@
    }

    /// A transcript for `io_pattern`.
    pub fn new(io_pattern: &IOPattern<H, U>) -> (merlin: Self)
        ensures
            merlin@ == SafeState::<U>::initial(
                encode_pattern(io_pattern.domsep(), io_pattern.decls()),
                io_pattern.ops(),
            ),
    {
        let safe = Safe::new(io_pattern);
        Merlin { safe }
    }

    /// Absorbs `input`.
    pub fn absorb_native(&mut self, input: &[U]) -> (r: Result<(), IOPatternError>)
        ensures
            r == outcome(old(self)@.stack, Op::Absorb(input@.len() as usize)),
            final(self)@ == old(self)@.absorb(input@),
    {
        self.safe.absorb(input)
    }

    /// Ratchets the sponge: this marks the end of the statement.
    pub fn ratchet(&mut self) -> (r: Result<(), IOPatternError>)
        ensures
            r == outcome(old(self)@.stack, Op::Ratchet),
            final(self)@ == old(self)@.ratchet(),
    {
        self.safe.ratchet()
    }

    /// Ratchets the sponge and gives out the units that stand for the state
    /// it is left in.
    pub fn ratchet_and_store(self) -> (r: Result<Vec<U>, IOPatternError>)
        ensures
            match r {
                Ok(units) => allows(self@.stack, Op::Ratchet) && units@ == H::stored(
                    ratcheted(self@.history),
                ),
                Err(e) => !allows(self@.stack, Op::Ratchet) && e == refusal(
                    self@.stack,
                    Op::Ratchet,
                ),
            },
    {
        self.safe.ratchet_and_store()
    }

    /// Fills `output` with a challenge.
    pub fn squeeze_native(&mut self, output: &mut [U]) -> (r: Result<(), IOPatternError>)
        ensures
            r == outcome(old(self)@.stack, Op::Squeeze(old(output)@.len() as usize)),
            final(self)@ == old(self)@.squeeze(old(output)@.len()),
            final(output)@ == if r is Ok {
                challenges::<U, H>(old(self)@.history, old(output)@.len())
            } else {
                old(output)@
            },
    {
        self.safe.squeeze(output)
    }
}

impl<U: Unit, H: DuplexHash<U>> From<&IOPattern<H, U>> for Merlin<H, U> {
    /// A transcript for `io_pattern`.
    fn from(io_pattern: &IOPattern<H, U>) -> (merlin: Self)
        ensures
            merlin@ == SafeState::<U>::initial(
                encode_pattern(io_pattern.domsep(), io_pattern.decls()),
                io_pattern.ops(),
            ),
    {
        Merlin::new(io_pattern)
    }
}

/// A transcript holds a sponge, of which a specification knows the history
/// only: what `from` returns is said by its own contract.
impl<U: Unit, H: DuplexHash<U>> FromSpecImpl<&IOPattern<H, U>> for Merlin<H, U> {
    open spec fn obeys_from_spec() -> bool {
        false
    }

    open spec fn from_spec(io_pattern: &IOPattern<H, U>) -> Self {
        arbitrary()
    }
}

impl<H: DuplexHash<u8>> Merlin<H, u8> {
    /// Absorbs the bytes `input`.
    pub fn absorb_bytes(&mut self, input: &[u8]) -> (r: Result<(), IOPatternError>)
        ensures
            r == outcome(old(self)@.stack, Op::Absorb(input@.len() as usize)),
            final(self)@ == old(self)@.absorb(input@),
    {
        self.absorb_native(input)
    }

    /// Fills `output` with challenge bytes.
    pub fn squeeze_bytes(&mut self, output: &mut [u8]) -> (r: Result<(), IOPatternError>)
        ensures
            r == outcome(old(self)@.stack, Op::Squeeze(old(output)@.len() as usize)),
            final(self)@ == old(self)@.squeeze(old(output)@.len()),
            final(output)@ == if r is Ok {
                challenges::<u8, H>(old(self)@.history, old(output)@.len())
            } else {
                old(output)@
            },
    {
        self.squeeze_native(output)
    }
}

} // verus!
