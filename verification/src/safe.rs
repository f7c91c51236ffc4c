//! The stack machine that holds a sponge to its IO pattern.

use crate::errors::{IOPatternError, ProofError};
use crate::hash::unit::{bytes_to_units, units_of_bytes, Unit};
use crate::hash::{
    absorbed, challenges, ratcheted, squeezed, DefaultHash, DuplexHash, SpongeOp,
};
use crate::iopattern::{encode_pattern, IOPattern, Op};
use core::marker::PhantomData;
use std::collections::VecDeque;
use vstd::prelude::*;

verus! {

/// What a [`Safe`] stands for: the operations that are still to come and the
/// history of its sponge.
pub struct SafeState<U> {
    pub stack: Seq<Op>,
    pub history: Seq<SpongeOp<U>>,
}

/// The history of a sponge that has taken in the byte string of an IO pattern
/// and has then been ratcheted.
pub open spec fn initial_history<U: Unit>(io: Seq<u8>) -> Seq<SpongeOp<U>> {
    ratcheted(absorbed(Seq::empty(), units_of_bytes::<U>(io)))
}

/// Whether the operation at the head of `stack` allows `op`: an absorb or a
/// squeeze of no more than what is left of the head, a ratchet where the head
/// is a ratchet, a hint where the head is a hint.
pub open spec fn allows(stack: Seq<Op>, op: Op) -> bool {
    stack.len() > 0 && match (stack[0], op) {
        (Op::Absorb(m), Op::Absorb(n)) => m >= n,
        (Op::Squeeze(m), Op::Squeeze(n)) => m >= n,
        (Op::Ratchet, Op::Ratchet) => true,
        (Op::Hint, Op::Hint) => true,
        _ => false,
    }
}

/// The stack after `op`, which the head allows: the head loses the units of
/// `op`, and leaves the stack when none are left.
pub open spec fn consumed(stack: Seq<Op>, op: Op) -> Seq<Op> {
    match (stack[0], op) {
        (Op::Absorb(m), Op::Absorb(n)) => if m > n {
            stack.update(0, Op::Absorb((m - n) as usize))
        } else {
            stack.drop_first()
        },
        (Op::Squeeze(m), Op::Squeeze(n)) => if m > n {
            stack.update(0, Op::Squeeze((m - n) as usize))
        } else {
            stack.drop_first()
        },
        _ => stack.drop_first(),
    }
}

/// The stack after an attempt at `op`: what is left of it where the head
/// allows `op`, and nothing otherwise, so that every later operation fails.
pub open spec fn stack_after(stack: Seq<Op>, op: Op) -> Seq<Op> {
    if allows(stack, op) {
        consumed(stack, op)
    } else {
        Seq::empty()
    }
}

/// The error of an attempt at `op` that the head of `stack` does not allow.
pub open spec fn refusal(stack: Seq<Op>, op: Op) -> IOPatternError {
    IOPatternError::Unexpected {
        expected: if stack.len() > 0 {
            Some(stack[0])
        } else {
            None
        },
        got: op,
    }
}

/// What an attempt at `op` returns.
pub open spec fn outcome(stack: Seq<Op>, op: Op) -> Result<(), IOPatternError> {
    if allows(stack, op) {
        Ok(())
    } else {
        Err(refusal(stack, op))
    }
}

impl<U> SafeState<U> {
    /// The state of a sponge made for the IO pattern with the byte string `io`
    /// and the operations `ops`.
    pub open spec fn initial(io: Seq<u8>, ops: Seq<Op>) -> SafeState<U> where U: Unit {
        SafeState { stack: ops, history: initial_history::<U>(io) }
    }

    /// The state with nothing left on the stack.
    pub open spec fn abandoned(self) -> SafeState<U> {
        SafeState { stack: Seq::empty(), history: self.history }
    }

    /// The state after an attempt to absorb `input`.
    pub open spec fn absorb(self, input: Seq<U>) -> SafeState<U> {
        let op = Op::Absorb(input.len() as usize);
        SafeState {
            stack: stack_after(self.stack, op),
            history: if allows(self.stack, op) {
                absorbed(self.history, input)
            } else {
                self.history
            },
        }
    }

    /// The state after an attempt to squeeze `n` units.
    pub open spec fn squeeze(self, n: nat) -> SafeState<U> {
        let op = Op::Squeeze(n as usize);
        SafeState {
            stack: stack_after(self.stack, op),
            history: if allows(self.stack, op) {
                squeezed(self.history, n)
            } else {
                self.history
            },
        }
    }

    /// The state after an attempt to ratchet.
    pub open spec fn ratchet(self) -> SafeState<U> {
        SafeState {
            stack: stack_after(self.stack, Op::Ratchet),
            history: if allows(self.stack, Op::Ratchet) {
                ratcheted(self.history)
            } else {
                self.history
            },
        }
    }

    /// The state after an attempt to pass a hint: the sponge is not touched.
    pub open spec fn hint(self) -> SafeState<U> {
        SafeState { stack: stack_after(self.stack, Op::Hint), history: self.history }
    }
}

/// Whether `r` and the state `after` are what squeezing `count` runs of
/// `size` bytes in the state `before` gives. The result is an error where the
/// runs are more bytes than a `usize` counts, or more than the pattern allows;
/// in both cases nothing is left on the stack. Otherwise it holds the bytes
/// squeezed.
pub open spec fn squeezes_runs<H: DuplexHash<u8>>(
    before: SafeState<u8>,
    after: SafeState<u8>,
    count: usize,
    size: usize,
    r: Result<Vec<u8>, ProofError>,
) -> bool {
    let len = (count * size) as nat;
    if len > usize::MAX {
        &&& after == before.abandoned()
        &&& r matches Err(e) && e == ProofError::InvalidIO(IOPatternError::CountOverflow)
    } else {
        &&& after == before.squeeze(len)
        &&& match r {
            Ok(bytes) => {
                &&& allows(before.stack, Op::Squeeze(len as usize))
                &&& bytes@ == challenges::<u8, H>(before.history, len)
            },
            Err(e) => {
                &&& !allows(before.stack, Op::Squeeze(len as usize))
                &&& e == ProofError::InvalidIO(refusal(before.stack, Op::Squeeze(len as usize)))
            },
        }
    }
}

/// Takes `op` from the head of `stack` if the head allows it, and empties the
/// stack otherwise.
fn take(stack: &mut VecDeque<Op>, op: Op) -> (r: Result<(), IOPatternError>)
    ensures
        r == outcome(old(stack)@, op),
        final(stack)@ == stack_after(old(stack)@, op),
{
    let head: Option<Op> = stack.pop_front();
    match (head, op) {
        (Some(Op::Absorb(m)), Op::Absorb(n)) => {
            if m >= n {
                if m > n {
                    stack.push_front(Op::Absorb(m - n));
                }
                assert(stack@ =~= stack_after(old(stack)@, op));
                return Ok(());
            }
        },
        (Some(Op::Squeeze(m)), Op::Squeeze(n)) => {
            if m >= n {
                if m > n {
                    stack.push_front(Op::Squeeze(m - n));
                }
                assert(stack@ =~= stack_after(old(stack)@, op));
                return Ok(());
            }
        },
        (Some(Op::Ratchet), Op::Ratchet) => {
            assert(stack@ =~= stack_after(old(stack)@, op));
            return Ok(());
        },
        (Some(Op::Hint), Op::Hint) => {
            assert(stack@ =~= stack_after(old(stack)@, op));
            return Ok(());
        },
        _ => {},
    }
    stack.clear();
    assert(stack@ =~= stack_after(old(stack)@, op));
    Err(IOPatternError::Unexpected { expected: head, got: op })
}

/// A sponge together with the operations that its IO pattern still allows.
/// Every operation is checked against the head of the stack before it reaches
/// the sponge. An operation that the head does not allow fails, leaves the
/// sponge as it is and empties the stack: from then on every operation fails.
pub struct Safe<H: DuplexHash<U> = DefaultHash, U: Unit = u8> {
    sponge: H,
    stack: VecDeque<Op>,
    _unit: PhantomData<U>,
}

impl<H: DuplexHash<U>, U: Unit> Clone for Safe<H, U> {
    /// A copy with the same operations to come and the same sponge history.
    fn clone(&self) -> (safe: Self)
        ensures
            safe@ == self@,
    {
        let sponge = self.sponge.clone();
        proof {
            H::lemma_clone_keeps_history(self.sponge, sponge);
        }
        Safe { sponge, stack: self.stack.clone(), _unit: PhantomData }
    }
}

impl<H: DuplexHash<U>, U: Unit> Safe<H, U> {
    /// The operations still to come, and the history of the sponge.
    pub closed spec fn view(&self) -> SafeState<U> {
        SafeState { stack: self.stack@, history: self.sponge.history() }
    }

    /// A fresh sponge that has absorbed the byte string of `io_pattern` and has
    /// then been ratcheted, held to the operations of `io_pattern`.
    pub fn new(io_pattern: &IOPattern<H, U>) -> (safe: Self)
        ensures
            safe@ == SafeState::<U>::initial(
                encode_pattern(io_pattern.domsep(), io_pattern.decls()),
                io_pattern.ops(),
            ),
    {
        let stack = io_pattern.finalize();
        let mut sponge = H::new();
        let units: Vec<U> = bytes_to_units(io_pattern.as_bytes());
        sponge.absorb_unchecked(units.as_slice());
        sponge.ratchet_unchecked();
        Safe { sponge, stack, _unit: PhantomData }
    }

    /// Absorbs `input`, if the head of the stack is an absorb of at least as
    /// many units.
    pub fn absorb(&mut self, input: &[U]) -> (r: Result<(), IOPatternError>)
        ensures
            r == outcome(old(self)@.stack, Op::Absorb(input@.len() as usize)),
            final(self)@ == old(self)@.absorb(input@),
    {
        let r = take(&mut self.stack, Op::Absorb(input.len()));
        if r.is_ok() {
            self.sponge.absorb_unchecked(input);
        }
        r
    }

    /// Fills `output` with units squeezed from the sponge, if the head of the
    /// stack is a squeeze of at least as many units. Otherwise `output` is left
    /// as it is.
    pub fn squeeze(&mut self, output: &mut [U]) -> (r: Result<(), IOPatternError>)
        ensures
            r == outcome(old(self)@.stack, Op::Squeeze(old(output)@.len() as usize)),
            final(self)@ == old(self)@.squeeze(old(output)@.len()),
            final(output)@ == if r is Ok {
                challenges::<U, H>(old(self)@.history, old(output)@.len())
            } else {
                old(output)@
            },
    {
        let r = take(&mut self.stack, Op::Squeeze(output.len()));
        if r.is_ok() {
            self.sponge.squeeze_unchecked(output);
            assert(output@ =~= challenges::<U, H>(old(self)@.history, old(output)@.len()));
        }
        r
    }

    /// Ratchets the sponge, if the head of the stack is a ratchet.
    pub fn ratchet(&mut self) -> (r: Result<(), IOPatternError>)
        ensures
            r == outcome(old(self)@.stack, Op::Ratchet),
            final(self)@ == old(self)@.ratchet(),
    {
        let r = take(&mut self.stack, Op::Ratchet);
        if r.is_ok() {
            self.sponge.ratchet_unchecked();
        }
        r
    }

    /// Takes a hint off the stack, if its head is one. The sponge is not
    /// touched.
    pub fn hint(&mut self) -> (r: Result<(), IOPatternError>)
        ensures
            r == outcome(old(self)@.stack, Op::Hint),
            final(self)@ == old(self)@.hint(),
    {
        take(&mut self.stack, Op::Hint)
    }

    /// Whether no operation is left: the protocol has run to its end, or an
    /// operation was refused, which its error has told.
    pub fn finished(&self) -> (r: bool)
        ensures
            r == (self@.stack.len() == 0),
    {
        self.stack.len() == 0
    }

    /// Whether the head of the stack allows `op`.
    pub fn expects(&self, op: Op) -> (r: bool)
        ensures
            r == allows(self@.stack, op),
    {
        if self.stack.len() == 0 {
            return false;
        }
        match (self.stack[0], op) {
            (Op::Absorb(m), Op::Absorb(n)) => m >= n,
            (Op::Squeeze(m), Op::Squeeze(n)) => m >= n,
            (Op::Ratchet, Op::Ratchet) => true,
            (Op::Hint, Op::Hint) => true,
            _ => false,
        }
    }

    /// Refuses `op`, which the head of the stack does not allow: the stack is
    /// emptied, and the error of the attempt is returned.
    pub fn refuse(&mut self, op: Op) -> (e: IOPatternError)
        requires
            !allows(old(self)@.stack, op),
        ensures
            e == refusal(old(self)@.stack, op),
            final(self)@ == old(self)@.abandoned(),
    {
        let expected: Option<Op> = if self.stack.len() > 0 {
            Some(self.stack[0])
        } else {
            None
        };
        self.stack.clear();
        IOPatternError::Unexpected { expected, got: op }
    }

    /// Empties the stack, so that every later operation fails. The sponge is
    /// not touched.
    pub fn abandon(&mut self)
        ensures
            final(self)@ == old(self)@.abandoned(),
    {
        self.stack.clear();
    }

    /// Ratchets the sponge, if the head of the stack is a ratchet, and gives
    /// out the units that stand for the state it is left in.
    pub fn ratchet_and_store(self) -> (r: Result<Vec<U>, IOPatternError>)
        ensures
            match r {
                Ok(units) => allows(self@.stack, Op::Ratchet) && units@ == H::stored(
                    ratcheted(self@.history),
                ),
                Err(e) => !allows(self@.stack, Op::Ratchet) && e == refusal(
                    self@.stack,
                    Op::Ratchet,
                ),
            },
    {
        let mut safe = self;
        match safe.ratchet() {
            Ok(()) => Ok(safe.sponge.tag()),
            Err(e) => Err(e),
        }
    }
}

} // verus!
