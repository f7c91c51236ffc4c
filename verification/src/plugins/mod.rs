//! Algebraic objects in a transcript: how scalars and group elements are
//! written to a proof, read from it, and derived from challenges.

pub mod ark;
pub mod dalek;

use vstd::prelude::*;

verus! {

/// The number of bytes that an integer below a modulus of `modulus_bits` bits
/// takes.
pub fn bytes_modp(modulus_bits: u32) -> (n: usize)
    ensures
        n == (modulus_bits + 7) / 8,
{
    (modulus_bits / 8 + if modulus_bits % 8 == 0 {
        0
    } else {
        1
    }) as usize
}

/// The number of bytes to squeeze for an integer that, reduced to a modulus
/// of `modulus_bits` bits, is as good as uniform: the whole bytes of the
/// modulus and 16 more, which keeps the bias below 2^-128.
pub fn bytes_uniform_modp(modulus_bits: u32) -> (n: usize)
    ensures
        n == modulus_bits / 8 + 16,
{
    (modulus_bits / 8 + 16) as usize
}

} // verus!
