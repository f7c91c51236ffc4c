//! A Fiat-Shamir transcript engine for public-coin interactive proofs.
//!
//! A protocol first declares, in an [`IOPattern`], the absorbs, squeezes,
//! ratchets and hints that it is going to perform. The prover ([`Merlin`]) and
//! the verifier ([`Arthur`]) are both built from that pattern, and a [`Safe`]
//! inside each of them holds every sponge operation against it.

pub mod arthur;
pub mod bare;
pub mod canonical;
pub mod csrng;
pub mod encoding;
pub mod errors;
pub mod hash;
pub mod iopattern;
pub mod laws;
pub mod merlin;
pub mod plugins;
pub mod safe;
pub mod traits;

pub use crate::arthur::Arthur;
pub use crate::csrng::{Csrng, DefaultRng};
pub use crate::errors::{IOPatternError, ProofError, ProofResult};
pub use crate::hash::unit::Unit;
pub use crate::hash::{DefaultHash, DuplexHash, SpongeOp};
pub use crate::iopattern::{IOPattern, Op};
pub use crate::merlin::{Merlin, ProverRng};
pub use crate::safe::Safe;
