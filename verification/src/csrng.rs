//! The sources of secret randomness that seed the prover's generator.

use rand::RngCore;
use vstd::prelude::*;

verus! {

/// A cryptographically secure source of random bytes. Nothing is known of the
/// bytes that it gives.
pub trait Csrng {
    /// Whether a source of this type is known never to fail. Unless a type
    /// says otherwise, it is not.
    open spec fn never_fails() -> bool {
        false
    }

    /// Fills `dest` with random bytes. It returns `false` where the source
    /// has failed; `dest` then holds nothing to rely on. A source that never
    /// fails returns `true`.
    fn try_fill(&mut self, dest: &mut [u8]) -> (filled: bool)
        ensures
            final(dest)@.len() == old(dest)@.len(),
            Self::never_fails() ==> filled,
    ;
}

/// The generator `rand::rngs::OsRng`, which asks the operating system.
/// Nothing is known of what is inside.
#[verifier::external_type_specification]
#[verifier::external_body]
pub struct ExOsRng(rand::rngs::OsRng);

/// The generator `rand::rngs::StdRng`, which can be seeded. Nothing is known
/// of what is inside.
#[verifier::external_type_specification]
#[verifier::external_body]
pub struct ExStdRng(rand::rngs::StdRng);

/// The source of randomness that a prover has unless it is given another: that
/// of the operating system.
pub type DefaultRng = rand::rngs::OsRng;

/// Asks the operating system for random bytes, by `try_fill_bytes` of
/// `rand::rngs::OsRng`. The call writes into `dest` and cannot change its
/// length; whether it succeeded is all that is told of it.
#[verifier::external_body]
fn os_try_fill_bytes(rng: &mut rand::rngs::OsRng, dest: &mut [u8]) -> (filled: bool)
    ensures
        final(dest)@.len() == old(dest)@.len(),
{
    rng.try_fill_bytes(dest).is_ok()
}

/// Takes the next bytes of a seeded generator, by `try_fill_bytes` of
/// `rand::rngs::StdRng`. The call writes into `dest` and cannot change its
/// length, and it never fails: the generator computes its bytes from its own
/// state, and its `try_fill_bytes` returns `Ok` after filling `dest`.
#[verifier::external_body]
fn std_try_fill_bytes(rng: &mut rand::rngs::StdRng, dest: &mut [u8]) -> (filled: bool)
    ensures
        final(dest)@.len() == old(dest)@.len(),
        filled,
{
    rng.try_fill_bytes(dest).is_ok()
}

/// The operating system's source of randomness: the value `rand::rngs::OsRng`,
/// which holds no state.
#[verifier::external_body]
pub(crate) fn os_rng() -> (rng: rand::rngs::OsRng) {
    rand::rngs::OsRng
}

impl Csrng for rand::rngs::OsRng {
    /// Fills `dest` with random bytes of the operating system, which may fail
    /// to give them.
    fn try_fill(&mut self, dest: &mut [u8]) -> (filled: bool) {
        os_try_fill_bytes(self, dest)
    }
}

impl Csrng for rand::rngs::StdRng {
    /// A seeded generator never fails.
    open spec fn never_fails() -> bool {
        true
    }

    /// Fills `dest` with the next bytes of the generator, which never fails.
    fn try_fill(&mut self, dest: &mut [u8]) -> (filled: bool)
        ensures
            filled,
    {
        std_try_fill_bytes(self, dest)
    }
}

} // verus!
