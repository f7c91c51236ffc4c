//! Elements of prime fields in a transcript, by their canonical encoding: the
//! bytes of an integer below the modulus, the lowest byte first.

use crate::encoding::{le_nat, same_integer};
use crate::errors::ProofError;
use vstd::arithmetic::div_mod::{lemma_mod_bound, lemma_small_mod};
use vstd::prelude::*;

verus! {

/// Moves an element from one prime field to another.
///
/// `repr` stands for the element in the first field. `swapped` stands for that
/// integer reduced modulo the order of the second field, and `control` for
/// `swapped` reduced modulo the order of the first. The element is moved only
/// if it comes back unchanged: `swapped` is returned where `repr` and `control`
/// stand for one integer, and a serialization error otherwise.
pub fn swap_field(repr: &[u8], swapped: Vec<u8>, control: &[u8]) -> (r: Result<
    Vec<u8>,
    ProofError,
>)
    ensures
        r == if le_nat(repr@) == le_nat(control@) {
            Ok::<Vec<u8>, ProofError>(swapped)
        } else {
            Err::<Vec<u8>, ProofError>(ProofError::SerializationError)
        },
{
    if same_integer(repr, control) {
        Ok(swapped)
    } else {
        Err(ProofError::SerializationError)
    }
}

/// An element of one prime field can be moved to another exactly when it is
/// below the order of the other field.
///
/// Let `a` be below `q1`. Reduced modulo `q2` and then modulo `q1`, `a` comes
/// back unchanged if and only if it is below `q2`, and what is moved is then
/// `a` itself.
pub proof fn lemma_swap_field(a: nat, q1: nat, q2: nat)
    requires
        a < q1,
        q2 > 0,
    ensures
        ((a % q2) % q1 == a) <==> a < q2,
        a < q2 ==> a % q2 == a,
{
    lemma_small_mod(a, q1);
    if a < q2 {
        lemma_small_mod(a, q2);
    } else {
        let b = a % q2;
        lemma_mod_bound(a as int, q2 as int);
        lemma_small_mod(b, q1);
    }
}

} // verus!
