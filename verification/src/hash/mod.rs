//! The sponge that the transcript is hashed with, as a contract.

pub mod keccak;
pub mod unit;

use crate::hash::keccak::Keccak;

use crate::hash::unit::Unit;
use vstd::prelude::*;

verus! {

/// The sponge that a transcript is hashed with unless another is named.
pub type DefaultHash = Keccak;

/// One entry in the history of a duplex sponge.
///
/// Neighbouring absorbs are one absorb of the concatenation, and neighbouring
/// squeezes one squeeze of the sum: a history never holds two of either in a
/// row, nor an empty one.
pub enum SpongeOp<U> {
    /// These units were absorbed.
    Absorb(Seq<U>),
    /// This many units were squeezed.
    Squeeze(nat),
    /// The state was ratcheted.
    Ratchet,
}

/// The history `h` after `input` has been absorbed.
pub open spec fn absorbed<U>(h: Seq<SpongeOp<U>>, input: Seq<U>) -> Seq<SpongeOp<U>> {
    if input.len() == 0 {
        h
    } else if h.len() > 0 && h.last() is Absorb {
        h.drop_last().push(SpongeOp::Absorb(h.last()->Absorb_0 + input))
    } else {
        h.push(SpongeOp::Absorb(input))
    }
}

/// The history `h` after `n` units have been squeezed.
pub open spec fn squeezed<U>(h: Seq<SpongeOp<U>>, n: nat) -> Seq<SpongeOp<U>> {
    if n == 0 {
        h
    } else if h.len() > 0 && h.last() is Squeeze {
        h.drop_last().push(SpongeOp::Squeeze(h.last()->Squeeze_0 + n))
    } else {
        h.push(SpongeOp::Squeeze(n))
    }
}

/// The history `h` after a ratchet.
pub open spec fn ratcheted<U>(h: Seq<SpongeOp<U>>) -> Seq<SpongeOp<U>> {
    h.push(SpongeOp::Ratchet)
}

/// In a history, absorbing `a` and then `b` is absorbing `a + b`.
pub proof fn lemma_absorbed_concat<U>(h: Seq<SpongeOp<U>>, a: Seq<U>, b: Seq<U>)
    ensures
        absorbed(absorbed(h, a), b) == absorbed(h, a + b),
{
    if a.len() == 0 {
        assert(a + b =~= b);
    } else if b.len() == 0 {
        assert(a + b =~= a);
    } else if h.len() > 0 && h.last() is Absorb {
        let x = h.last()->Absorb_0;
        assert((x + a) + b =~= x + (a + b));
        assert(absorbed(h, a).drop_last() =~= h.drop_last());
    } else {
        assert(absorbed(h, a).drop_last() =~= h);
    }
}

/// In a history, squeezing `m` units and then `n` is squeezing `m + n`.
pub proof fn lemma_squeezed_sum<U>(h: Seq<SpongeOp<U>>, m: nat, n: nat)
    ensures
        squeezed(squeezed(h, m), n) == squeezed(h, m + n),
{
    if m == 0 || n == 0 {
    } else if h.len() > 0 && h.last() is Squeeze {
        assert(squeezed(h, m).drop_last() =~= h.drop_last());
    } else {
        assert(squeezed(h, m).drop_last() =~= h);
    }
}

/// How many units the squeeze at the end of `h` has given out; 0 where `h`
/// does not end in a squeeze.
pub open spec fn squeeze_offset<U>(h: Seq<SpongeOp<U>>) -> nat {
    if h.len() > 0 && h.last() is Squeeze {
        h.last()->Squeeze_0
    } else {
        0
    }
}

/// The history `h` without the squeeze at its end, if it ends in one.
pub open spec fn squeeze_base<U>(h: Seq<SpongeOp<U>>) -> Seq<SpongeOp<U>> {
    if h.len() > 0 && h.last() is Squeeze {
        h.drop_last()
    } else {
        h
    }
}

/// A duplex sponge over the units `U`: a hash state that absorbs and gives out
/// units in turn. It checks nothing against an IO pattern: that is the work
/// of [`crate::Safe`].
///
/// The contract ties the state to its history. What comes out of the sponge is a
/// function of the history alone, and two sponges of one type with one history
/// give the same units. A sponge can be copied, and the copy has its history.
pub trait DuplexHash<U: Unit>: Sized + Clone {
    /// What has happened to this sponge since it was made.
    spec fn history(&self) -> Seq<SpongeOp<U>>;

    /// The unit at position `i` of the squeeze that follows the history `h`.
    spec fn challenge(h: Seq<SpongeOp<U>>, i: nat) -> U;

    /// The units that stand for the state after the history `h`.
    spec fn stored(h: Seq<SpongeOp<U>>) -> Seq<U>;

    /// A copy of a sponge has the history of the sponge.
    proof fn lemma_clone_keeps_history(sponge: Self, copy: Self)
        requires
            cloned::<Self>(sponge, copy),
        ensures
            copy.history() == sponge.history(),
    ;

    /// A sponge in its initial, all-zero state.
    fn new() -> (sponge: Self)
        ensures
            sponge.history() == Seq::<SpongeOp<U>>::empty(),
    ;

    /// Absorbs `input`.
    fn absorb_unchecked(&mut self, input: &[U])
        ensures
            final(self).history() == absorbed(old(self).history(), input@),
    ;

    /// Fills `output` with the next units of the sponge's output.
    fn squeeze_unchecked(&mut self, output: &mut [U])
        ensures
            final(self).history() == squeezed(old(self).history(), old(output)@.len()),
            final(output)@.len() == old(output)@.len(),
            forall|j: int|
                0 <= j < old(output)@.len() ==> #[trigger] final(output)@[j] == Self::challenge(
                    squeeze_base(old(self).history()),
                    squeeze_offset(old(self).history()) + j as nat,
                ),
    ;

    /// Compresses the state one way.
    fn ratchet_unchecked(&mut self)
        ensures
            final(self).history() == ratcheted(old(self).history()),
    ;

    /// The units that stand for the current state.
    fn tag(&self) -> (t: Vec<U>)
        ensures
            t@ == Self::stored(self.history()),
    ;
}

/// The `n` units that a sponge of type `H` with history `h` gives out next.
pub open spec fn challenges<U: Unit, H: DuplexHash<U>>(h: Seq<SpongeOp<U>>, n: nat) -> Seq<U> {
    Seq::new(n, |j: int| H::challenge(squeeze_base(h), squeeze_offset(h) + j as nat))
}

} // verus!
