//! The errors that the transcript engine reports.

use crate::iopattern::Op;
use vstd::prelude::*;
use vstd::std_specs::convert::FromSpecImpl;

verus! {

/// Why an IO pattern could not be built, or why an operation was refused by it.
#[derive(Clone, Copy, Debug, PartialEq, Eq)]
pub enum IOPatternError {
    /// The operation `got` was attempted while the pattern asked for `expected`;
    /// `expected` is `None` once the pattern is exhausted.
    Unexpected { expected: Option<Op>, got: Op },
    /// The domain separator is empty.
    EmptyDomainSeparator,
    /// The domain separator holds the byte that separates operations.
    SeparatorInDomainSeparator,
    /// A label holds the byte that separates operations.
    SeparatorInLabel,
    /// A count, or the sum of two counts that merge, does not fit in `usize`.
    CountOverflow,
}

/// What can go wrong while a proof is written or read.
#[derive(Clone, Copy, Debug, PartialEq, Eq)]
pub enum ProofError {
    /// The verification equation does not hold, or the proof ends too early.
    InvalidProof,
    /// The transcript was not used as its IO pattern says.
    InvalidIO(IOPatternError),
    /// Bytes could not be turned into the requested object, or the reverse.
    SerializationError,
}

/// The outcome of an operation on a proof that can only fail where the IO
/// pattern refuses it.
pub open spec fn io_result(r: Result<(), IOPatternError>) -> Result<(), ProofError> {
    match r {
        Ok(()) => Ok(()),
        Err(e) => Err(ProofError::InvalidIO(e)),
    }
}

/// The source of randomness has failed.
#[derive(Clone, Copy, Debug, PartialEq, Eq)]
pub struct EntropyError;

/// The result of an operation on a proof.
pub type ProofResult<T> = Result<T, ProofError>;

impl From<IOPatternError> for ProofError {
    /// The error of an operation that the IO pattern refused.
    fn from(e: IOPatternError) -> (r: ProofError) {
        ProofError::InvalidIO(e)
    }
}

impl FromSpecImpl<IOPatternError> for ProofError {
    open spec fn obeys_from_spec() -> bool {
        true
    }

    open spec fn from_spec(e: IOPatternError) -> ProofError {
        ProofError::InvalidIO(e)
    }
}

} // verus!
