//! The operations on scalars and group elements that patterns, provers and
//! verifiers offer. Each kind of scalar `F` and of group element `G` brings
//! its own contract with its implementation.

use crate::errors::{IOPatternError, ProofError};
use vstd::prelude::*;

verus! {

/// What the prover and the verifier of a proof both do to their transcript.
pub trait UnitTranscript<U> {
    /// Absorbs `input`, which both sides know and which is not in the proof.
    fn public_units(&mut self, input: &[U]) -> Result<(), IOPatternError>;

    /// Fills `output` with a challenge.
    fn fill_challenge_units(&mut self, output: &mut [U]) -> Result<(), IOPatternError>;
}

/// Writing bytes to a proof.
pub trait ByteWriter {
    /// Adds the bytes `input` to the proof.
    fn add_bytes(&mut self, input: &[u8]) -> Result<(), IOPatternError>;
}

/// Declaring scalars in an IO pattern.
pub trait FieldIOPattern<F>: Sized {
    /// Declares that `count` scalars are absorbed next.
    fn add_scalars(self, count: usize, label: &str) -> Result<Self, IOPatternError>;

    /// Declares that `count` scalars are squeezed next.
    fn challenge_scalars(self, count: usize, label: &str) -> Result<Self, IOPatternError>;
}

/// Declaring group elements in an IO pattern.
pub trait GroupIOPattern<G>: Sized {
    /// Declares that `count` group elements are absorbed next.
    fn add_points(self, count: usize, label: &str) -> Result<Self, IOPatternError>;
}

/// Writing scalars to a proof.
pub trait FieldWriter<F> {
    /// Adds `input` to the proof.
    fn add_scalars(&mut self, input: &[F]) -> Result<(), ProofError>;
}

/// Writing group elements to a proof.
pub trait GroupWriter<G> {
    /// Adds `input` to the proof.
    fn add_points(&mut self, input: &[G]) -> Result<(), ProofError>;
}

/// Absorbing scalars that both sides know.
pub trait FieldPublic<F> {
    /// Absorbs `input`, which is not in the proof.
    fn public_scalars(&mut self, input: &[F]) -> Result<(), ProofError>;
}

/// Absorbing group elements that both sides know.
pub trait GroupPublic<G> {
    /// Absorbs `input`, which is not in the proof.
    fn public_points(&mut self, input: &[G]) -> Result<(), ProofError>;
}

/// Reading scalars from a proof.
pub trait FieldReader<F> {
    /// Reads `n` scalars from the proof.
    fn next_scalars(&mut self, n: usize) -> Result<Vec<F>, ProofError>;
}

/// Reading group elements from a proof.
pub trait GroupReader<G> {
    /// Reads `n` group elements from the proof.
    fn next_points(&mut self, n: usize) -> Result<Vec<G>, ProofError>;
}

/// Squeezing scalars.
pub trait FieldChallenges<F> {
    /// Squeezes `n` scalars.
    fn challenge_scalars(&mut self, n: usize) -> Result<Vec<F>, ProofError>;
}

} // verus!
