//! What holds of every run of a protocol, for every sponge and every unit.

use crate::arthur::ArthurState;
use crate::encoding::{le_bytes, lemma_le_round_trip, lemma_pow256_4};
use crate::errors::ProofError;
use crate::hash::unit::Unit;
use crate::hash::keccak::{
    lemma_after_absorbed, lemma_after_squeezed, lemma_challenges_of_state, Keccak, SpongeState,
};
use crate::hash::{
    absorbed, challenges, lemma_absorbed_concat, lemma_squeezed_sum, ratcheted, SpongeOp,
};
use crate::iopattern::{merge_op, merged, merges, Op};
use crate::merlin::{hint_outcome, MerlinState};
use crate::safe::{allows, initial_history, outcome, refusal, stack_after, SafeState};
use vstd::prelude::*;

verus! {

/// One thing that a prover does to its transcript, and that the verifier does
/// after it.
pub enum Step<U> {
    /// The prover adds these units to the proof; the verifier reads as many.
    Add(Seq<U>),
    /// Both absorb these units, which are not in the proof.
    Public(Seq<U>),
    /// Both squeeze this many units.
    Challenge(nat),
    /// Both ratchet.
    Ratchet,
    /// The prover writes this hint; the verifier reads one.
    Hint(Seq<u8>),
}

/// Whether the prover in state `m` succeeds at `step`.
pub open spec fn prover_succeeds<U: Unit>(m: MerlinState<U>, step: Step<U>) -> bool {
    match step {
        Step::Add(units) => allows(m.safe.stack, Op::Absorb(units.len() as usize)),
        Step::Public(units) => allows(m.safe.stack, Op::Absorb(units.len() as usize)),
        Step::Challenge(n) => allows(m.safe.stack, Op::Squeeze(n as usize)),
        Step::Ratchet => allows(m.safe.stack, Op::Ratchet),
        Step::Hint(bytes) => hint_outcome(m.safe.stack, bytes.len()) is Ok,
    }
}

/// The state of the prover after `step`.
pub open spec fn prover_step<U: Unit>(m: MerlinState<U>, step: Step<U>) -> MerlinState<U> {
    match step {
        Step::Add(units) => m.add_units(units),
        Step::Public(units) => m.public_units(units),
        Step::Challenge(n) => m.fill_challenge_units(n),
        Step::Ratchet => m.ratchet(),
        Step::Hint(bytes) => m.hint(bytes),
    }
}

/// Whether the prover in state `m` succeeds at each of `steps`, in order.
pub open spec fn prover_accepts<U: Unit>(m: MerlinState<U>, steps: Seq<Step<U>>) -> bool
    decreases steps.len(),
{
    steps.len() == 0 || (prover_succeeds(m, steps[0]) && prover_accepts(
        prover_step(m, steps[0]),
        steps.drop_first(),
    ))
}

/// The state of the prover after `steps`.
pub open spec fn prover_run<U: Unit>(m: MerlinState<U>, steps: Seq<Step<U>>) -> MerlinState<U>
    decreases steps.len(),
{
    if steps.len() == 0 {
        m
    } else {
        prover_run(prover_step(m, steps[0]), steps.drop_first())
    }
}

/// Whether the verifier in state `a` succeeds at its side of `step` and reads
/// what the prover wrote: the units that were added, the hint that was given.
pub open spec fn verifier_follows<U: Unit>(a: ArthurState<U>, step: Step<U>) -> bool {
    match step {
        Step::Add(units) => a.read_outcome(units.len()) is Ok && a.next_units(units.len())
            == units,
        Step::Public(units) => allows(a.safe.stack, Op::Absorb(units.len() as usize)),
        Step::Challenge(n) => allows(a.safe.stack, Op::Squeeze(n as usize)),
        Step::Ratchet => allows(a.safe.stack, Op::Ratchet),
        Step::Hint(bytes) => a.hint_outcome() is Ok && a.next_hint() == bytes,
    }
}

/// The state of the verifier after its side of `step`.
pub open spec fn verifier_step<U: Unit>(a: ArthurState<U>, step: Step<U>) -> ArthurState<U> {
    match step {
        Step::Add(units) => a.fill_next_units(units.len()),
        Step::Public(units) => a.public_units(units),
        Step::Challenge(n) => a.fill_challenge_units(n),
        Step::Ratchet => a.ratchet(),
        Step::Hint(_) => a.hint(),
    }
}

/// Whether the verifier in state `a` can follow the prover in state `m` through
/// `steps`: before each step the two have the same operations to come and
/// the same sponge history, so that any challenge squeezed at that step is the
/// same on both sides; the verifier succeeds at each step and reads what the
/// prover wrote; and at the end the whole proof has been read.
pub open spec fn agrees<U: Unit>(m: MerlinState<U>, a: ArthurState<U>, steps: Seq<Step<U>>) -> bool
    decreases steps.len(),
{
    &&& a.safe == m.safe
    &&& if steps.len() == 0 {
        a.cursor == a.transcript.len()
    } else {
        &&& verifier_follows(a, steps[0])
        &&& agrees(prover_step(m, steps[0]), verifier_step(a, steps[0]), steps.drop_first())
    }
}

/// A prover only ever appends to its proof.
pub proof fn lemma_proof_grows<U: Unit>(m: MerlinState<U>, steps: Seq<Step<U>>)
    ensures
        m.transcript.is_prefix_of(prover_run(m, steps).transcript),
    decreases steps.len(),
{
    if steps.len() > 0 {
        let next = prover_step(m, steps[0]);
        assert(m.transcript.is_prefix_of(next.transcript));
        lemma_proof_grows(next, steps.drop_first());
    }
}

/// The bytes that `step` adds to the proof: the encoding of added units, a
/// hint after its length, and nothing for what is public, squeezed or
/// ratcheted.
pub open spec fn step_bytes<U: Unit>(step: Step<U>) -> Seq<u8> {
    match step {
        Step::Add(units) => U::spec_encode(units),
        Step::Hint(bytes) => le_bytes(bytes.len(), 4) + bytes,
        _ => Seq::empty(),
    }
}

/// The bytes that `steps` add to the proof, in order.
pub open spec fn written<U: Unit>(steps: Seq<Step<U>>) -> Seq<u8>
    decreases steps.len(),
{
    if steps.len() == 0 {
        Seq::empty()
    } else {
        step_bytes(steps[0]) + written(steps.drop_first())
    }
}

/// The proof holds what was added and nothing else.
///
/// Where a prover succeeds at every one of `steps`, its proof has grown by
/// the encodings of the units that were added and by the hints, each after
/// its length, in the order of the steps and with nothing between them:
/// neither challenges nor public units are in it.
pub proof fn lemma_proof_is_what_was_written<U: Unit>(m: MerlinState<U>, steps: Seq<Step<U>>)
    requires
        prover_accepts(m, steps),
    ensures
        prover_run(m, steps).transcript == m.transcript + written(steps),
    decreases steps.len(),
{
    if steps.len() == 0 {
        assert(m.transcript + written(steps) =~= m.transcript);
    } else {
        let next = prover_step(m, steps[0]);
        lemma_proof_is_what_was_written(next, steps.drop_first());
        assert(next.transcript =~= m.transcript + step_bytes(steps[0]));
        assert(next.transcript + written(steps.drop_first()) =~= m.transcript + written(steps));
    }
}

/// A verifier reads the units that the prover added.
///
/// Let the prover add `units`, and let a verifier with the same operations to
/// come and the same sponge history stand at the place of the proof where
/// the prover was. Then the verifier reads `units`, and is left with the
/// state of the prover, at the place where the prover is.
pub proof fn lemma_reads_what_was_added<U: Unit>(
    m: MerlinState<U>,
    a: ArthurState<U>,
    units: Seq<U>,
)
    requires
        allows(m.safe.stack, Op::Absorb(units.len() as usize)),
        a.safe == m.safe,
        a.cursor == m.transcript.len(),
        m.add_units(units).transcript.is_prefix_of(a.transcript),
    ensures
        a.read_outcome(units.len()) is Ok,
        a.next_units(units.len()) == units,
        a.fill_next_units(units.len()).safe == m.add_units(units).safe,
        a.fill_next_units(units.len()).cursor == m.add_units(units).transcript.len(),
{
    let n = units.len();
    let m1 = m.add_units(units);
    let written = U::spec_encode(units);
    U::lemma_encode_len(units);
    U::lemma_decode_encode(units);
    assert(m1.transcript == m.transcript + written);
    assert(a.transcript.subrange(0, m1.transcript.len() as int) == m1.transcript);
    assert forall|j: int| 0 <= j < written.len() implies a.next_bytes(n)[j] == written[j] by {
        assert(a.transcript[a.cursor + j] == m1.transcript[a.cursor + j]);
    }
    assert(a.next_bytes(n) =~= written);
}

/// A verifier that stands where the prover stood, and reads the proof that
/// the prover went on to write, follows the prover to the end.
pub proof fn lemma_verifier_follows<U: Unit>(
    m: MerlinState<U>,
    a: ArthurState<U>,
    steps: Seq<Step<U>>,
)
    requires
        prover_accepts(m, steps),
        a.safe == m.safe,
        a.cursor == m.transcript.len(),
        a.transcript == prover_run(m, steps).transcript,
    ensures
        agrees(m, a, steps),
    decreases steps.len(),
{
    lemma_proof_grows(m, steps);
    if steps.len() == 0 {
    } else {
        let step = steps[0];
        let rest = steps.drop_first();
        let m1 = prover_step(m, step);
        let a1 = verifier_step(a, step);
        lemma_proof_grows(m1, rest);
        match step {
            Step::Add(units) => {
                lemma_reads_what_was_added(m, a, units);
            },
            Step::Hint(bytes) => {
                let prefix = le_bytes(bytes.len(), 4);
                lemma_pow256_4();
                lemma_le_round_trip(bytes.len(), 4);
                assert(m1.transcript == m.transcript + prefix + bytes);
                assert(a.transcript.subrange(0, m1.transcript.len() as int) == m1.transcript);
                assert forall|j: int| 0 <= j < 4 + bytes.len() implies a.unread()[j] == (prefix
                    + bytes)[j] by {
                    assert(a.transcript[a.cursor + j] == m1.transcript[a.cursor + j]);
                }
                assert(a.unread().subrange(0, 4) =~= prefix);
                assert(a.next_hint() =~= bytes);
            },
            _ => {},
        }
        lemma_verifier_follows(m1, a1, rest);
    }
}

/// The verifier of a proof derives the challenges that its prover derived.
///
/// Let a prover be made for an IO pattern and succeed at every one of `steps`.
/// Then a verifier made for the same pattern, given the proof that the prover
/// wrote, succeeds at every step: it reads the units and the hints that the
/// prover wrote, it has at every step the sponge history that the prover had,
/// so that it squeezes the same challenges, and it ends with the whole proof
/// read.
pub proof fn lemma_replay<U: Unit>(io: Seq<u8>, ops: Seq<Op>, steps: Seq<Step<U>>)
    requires
        prover_accepts(MerlinState::<U>::initial(io, ops), steps),
    ensures
        agrees(
            MerlinState::<U>::initial(io, ops),
            ArthurState::<U>::initial(
                io,
                ops,
                prover_run(MerlinState::<U>::initial(io, ops), steps).transcript,
            ),
            steps,
        ),
{
    let m = MerlinState::<U>::initial(io, ops);
    let a = ArthurState::<U>::initial(io, ops, prover_run(m, steps).transcript);
    lemma_verifier_follows(m, a, steps);
}

/// Sponges made for IO patterns with different byte strings start from
/// different histories: the byte string is the first thing absorbed.
pub proof fn lemma_domain_separation(io1: Seq<u8>, io2: Seq<u8>)
    requires
        io1 != io2,
    ensures
        initial_history::<u8>(io1) != initial_history::<u8>(io2),
{
    let h1 = initial_history::<u8>(io1);
    let h2 = initial_history::<u8>(io2);
    crate::hash::unit::lemma_bytes_are_their_units(io1);
    crate::hash::unit::lemma_bytes_are_their_units(io2);
    if h1 == h2 {
        let e = Seq::<SpongeOp<u8>>::empty();
        assert(h1.drop_last() =~= absorbed(e, io1));
        assert(h2.drop_last() =~= absorbed(e, io2));
        if io1.len() == 0 || io2.len() == 0 {
            if io1.len() == io2.len() {
                assert(io1 =~= io2);
            }
            assert(absorbed(e, io1).len() != absorbed(e, io2).len());
        } else {
            assert(absorbed(e, io1)[0] == SpongeOp::Absorb(io1));
            assert(absorbed(e, io2)[0] == SpongeOp::Absorb(io2));
        }
    }
}

/// Absorbing public units in place of adding them changes the proof and
/// nothing else.
///
/// Where the pattern allows `x` and then `y` to be absorbed, a prover that
/// absorbs `x` as public units and then adds `y` ends with the sponge, and the
/// random number generator, of a prover that adds both; its proof has grown by
/// the encoding of `y` alone.
pub proof fn lemma_public_units<U: Unit>(m: MerlinState<U>, x: Seq<U>, y: Seq<U>)
    requires
        allows(m.safe.stack, Op::Absorb(x.len() as usize)),
        allows(m.public_units(x).safe.stack, Op::Absorb(y.len() as usize)),
    ensures
        m.public_units(x).add_units(y).safe == m.add_units(x).add_units(y).safe,
        m.public_units(x).add_units(y).rng == m.add_units(x).add_units(y).rng,
        m.public_units(x).add_units(y).transcript == m.transcript + U::spec_encode(y),
        m.add_units(x).add_units(y).transcript == m.transcript + U::spec_encode(x)
            + U::spec_encode(y),
{
}

/// Whether no two neighbours in `stack` are absorbs, nor squeezes: what holds
/// of the operations of every IO pattern.
pub open spec fn is_merged(stack: Seq<Op>) -> bool {
    forall|i: int| 0 <= i < stack.len() - 1 ==> !merges(stack.subrange(0, i + 1), #[trigger] stack[i + 1])
}

/// The operations of an IO pattern never hold two absorbs, nor two squeezes,
/// in a row.
pub proof fn lemma_merged_is_merged(ops: Seq<Op>)
    ensures
        is_merged(merged(ops)),
    decreases ops.len(),
{
    if ops.len() > 0 {
        let before = merged(ops.drop_last());
        lemma_merged_is_merged(ops.drop_last());
        let after = merge_op(before, ops.last());
        assert forall|i: int| 0 <= i < after.len() - 1 implies !merges(
            after.subrange(0, i + 1),
            #[trigger] after[i + 1],
        ) by {
            if i + 1 < before.len() - 1 || (i + 1 == before.len() - 1 && !merges(
                before,
                ops.last(),
            )) {
                assert(after.subrange(0, i + 1) =~= before.subrange(0, i + 1));
                assert(after[i + 1] == before[i + 1]);
            } else if i + 1 == before.len() - 1 {
                assert(after.subrange(0, i + 1) =~= before.subrange(0, i + 1));
                assert(!merges(before.subrange(0, i + 1), before[i + 1]));
            } else {
                assert(after.subrange(0, i + 1) =~= before);
            }
        }
    }
}

/// Whatever is attempted, the stack never comes to hold two absorbs, nor two
/// squeezes, in a row.
pub proof fn lemma_stack_stays_merged(stack: Seq<Op>, op: Op)
    requires
        is_merged(stack),
    ensures
        is_merged(stack_after(stack, op)),
{
    let after = stack_after(stack, op);
    assert forall|i: int| 0 <= i < after.len() - 1 implies !merges(
        after.subrange(0, i + 1),
        #[trigger] after[i + 1],
    ) by {
        if after.len() == stack.len() {
            assert(after.subrange(0, i + 1).last() == after[i]);
            assert(stack.subrange(0, i + 1).last() == stack[i]);
            assert(!merges(stack.subrange(0, i + 1), stack[i + 1]));
        } else {
            assert(after.subrange(0, i + 1).last() == stack[i + 1]);
            assert(stack.subrange(0, i + 2).last() == stack[i + 1]);
            assert(!merges(stack.subrange(0, i + 2), stack[i + 2]));
        }
    }
}

/// The merging law of the stack machine.
///
/// Where the head of the stack allows `a` to be absorbed and then `b`, and
/// allows both at once, absorbing `a` and then `b` leaves the same operations
/// to come and the same sponge history as absorbing `a + b`.
pub proof fn lemma_absorb_merges<U>(s: SafeState<U>, a: Seq<U>, b: Seq<U>)
    requires
        is_merged(s.stack),
        a.len() + b.len() <= usize::MAX,
        allows(s.stack, Op::Absorb(a.len() as usize)),
        allows(s.absorb(a).stack, Op::Absorb(b.len() as usize)),
        allows(s.stack, Op::Absorb((a + b).len() as usize)),
    ensures
        s.absorb(a).absorb(b) == s.absorb(a + b),
{
    lemma_absorbed_concat(s.history, a, b);
    let m = s.stack[0]->Absorb_0;
    if m == a.len() {
        assert(s.stack.subrange(0, 1) =~= seq![s.stack[0]]);
        assert(s.stack.drop_first()[0] == s.stack[1]);
        assert(merges(s.stack.subrange(0, 1), s.stack[1]));
    } else {
        assert(s.absorb(a).absorb(b).stack =~= s.absorb(a + b).stack);
    }
}

/// The merging law of the stack machine, for squeezes.
///
/// Where the head of the stack allows `m` units to be squeezed and then `n`,
/// and allows both at once, squeezing `m` units and then `n` leaves the same
/// operations to come and the same sponge history as squeezing `m + n`.
pub proof fn lemma_squeeze_merges<U>(s: SafeState<U>, m: nat, n: nat)
    requires
        is_merged(s.stack),
        m + n <= usize::MAX,
        allows(s.stack, Op::Squeeze(m as usize)),
        allows(s.squeeze(m).stack, Op::Squeeze(n as usize)),
        allows(s.stack, Op::Squeeze((m + n) as usize)),
    ensures
        s.squeeze(m).squeeze(n) == s.squeeze(m + n),
{
    lemma_squeezed_sum(s.history, m, n);
    let k = s.stack[0]->Squeeze_0;
    if k == m {
        assert(s.stack.subrange(0, 1) =~= seq![s.stack[0]]);
        assert(s.stack.drop_first()[0] == s.stack[1]);
        assert(merges(s.stack.subrange(0, 1), s.stack[1]));
    } else {
        assert(s.squeeze(m).squeeze(n).stack =~= s.squeeze(m + n).stack);
    }
}

/// The merging law of the prover.
///
/// Where the pattern allows `a` to be added and then `b`, and allows both at
/// once, a prover that adds `a` and then `b` ends in the state, and with the
/// proof, of a prover that adds `a + b`.
pub proof fn lemma_add_units_merges<U: Unit>(m: MerlinState<U>, a: Seq<U>, b: Seq<U>)
    requires
        is_merged(m.safe.stack),
        a.len() + b.len() <= usize::MAX,
        allows(m.safe.stack, Op::Absorb(a.len() as usize)),
        allows(m.add_units(a).safe.stack, Op::Absorb(b.len() as usize)),
        allows(m.safe.stack, Op::Absorb((a + b).len() as usize)),
    ensures
        m.add_units(a).add_units(b) == m.add_units(a + b),
{
    lemma_absorb_merges(m.safe, a, b);
    U::lemma_encode_concat(a, b);
    lemma_absorbed_concat(m.rng, U::spec_encode(a), U::spec_encode(b));
    assert(m.add_units(a).add_units(b).transcript =~= m.add_units(a + b).transcript);
}

/// The stack of operations to come is the tail of the pattern: where the
/// operations of a pattern are performed in full and in order, each is allowed
/// when its turn comes, and after the first `k` of them the rest of the pattern
/// is left.
pub proof fn lemma_stack_is_tail(ops: Seq<Op>, k: int)
    requires
        0 <= k <= ops.len(),
    ensures
        run_ops(ops, k) == ops.subrange(k, ops.len() as int),
        forall|i: int| 0 <= i < k ==> allows(#[trigger] run_ops(ops, i), ops[i]),
    decreases k,
{
    if k == 0 {
        assert(ops.subrange(0, ops.len() as int) =~= ops);
    } else {
        lemma_stack_is_tail(ops, k - 1);
        let before = run_ops(ops, k - 1);
        assert(before[0] == ops[k - 1]);
        assert(before.drop_first() =~= ops.subrange(k, ops.len() as int));
    }
}

/// The stack that starts as `ops` after the first `k` operations of `ops`
/// were performed in full.
pub open spec fn run_ops(ops: Seq<Op>, k: int) -> Seq<Op>
    decreases k,
{
    if k <= 0 {
        ops
    } else {
        stack_after(run_ops(ops, k - 1), ops[k - 1])
    }
}

/// Once the pattern is exhausted, every operation of the stack machine is
/// refused, and the pattern stays exhausted.
pub proof fn lemma_exhausted(stack: Seq<Op>, op: Op)
    requires
        stack.len() == 0,
    ensures
        outcome(stack, op) == Err::<(), _>(refusal(stack, op)),
        stack_after(stack, op).len() == 0,
{
}

/// Once the pattern is exhausted, the prover fails at every step, with the
/// outcome that an operation outside the pattern has.
pub proof fn lemma_exhausted_prover<U: Unit>(m: MerlinState<U>, step: Step<U>)
    requires
        m.safe.stack.len() == 0,
    ensures
        !prover_succeeds(m, step),
        prover_step(m, step).safe.stack.len() == 0,
        prover_step(m, step).transcript == m.transcript,
        step is Hint ==> hint_outcome(m.safe.stack, step->Hint_0.len()) == Err::<(), _>(
            ProofError::InvalidIO(refusal(m.safe.stack, Op::Hint)),
        ),
{
}

/// Once the pattern is exhausted, the verifier fails at every step with the
/// outcome that an operation outside the pattern has, and reads nothing.
pub proof fn lemma_exhausted_verifier<U: Unit>(a: ArthurState<U>, step: Step<U>)
    requires
        a.safe.stack.len() == 0,
    ensures
        !verifier_follows(a, step),
        verifier_step(a, step).safe.stack.len() == 0,
        verifier_step(a, step).cursor == a.cursor,
        step is Add ==> a.read_outcome(step->Add_0.len()) == Err::<(), _>(
            ProofError::InvalidIO(refusal(a.safe.stack, Op::Absorb(step->Add_0.len() as usize))),
        ),
        step is Hint ==> a.hint_outcome() == Err::<(), _>(
            ProofError::InvalidIO(refusal(a.safe.stack, Op::Hint)),
        ),
{
}

/// The state of the stack machine after an attempt at what `op` tells.
pub open spec fn safe_step(s: SafeState<u8>, op: SpongeOp<u8>) -> SafeState<u8> {
    match op {
        SpongeOp::Absorb(input) => s.absorb(input),
        SpongeOp::Squeeze(n) => s.squeeze(n),
        SpongeOp::Ratchet => s.ratchet(),
    }
}

/// The state of the stack machine after an attempt at each of `more`, in
/// order.
pub open spec fn safe_run(s: SafeState<u8>, more: Seq<SpongeOp<u8>>) -> SafeState<u8>
    decreases more.len(),
{
    if more.len() == 0 {
        s
    } else {
        safe_step(safe_run(s, more.drop_last()), more.last())
    }
}

/// On the Keccak sponge, two transcripts with the same operations to come and
/// the same sponge state go on alike: whatever is attempted on both, they keep
/// the same operations to come and the same sponge state, and squeeze the same
/// bytes.
pub proof fn lemma_sponge_state_decides(
    left: SafeState<u8>,
    right: SafeState<u8>,
    more: Seq<SpongeOp<u8>>,
    n: nat,
)
    requires
        left.stack == right.stack,
        SpongeState::after(left.history) == SpongeState::after(right.history),
    ensures
        safe_run(left, more).stack == safe_run(right, more).stack,
        SpongeState::after(safe_run(left, more).history) == SpongeState::after(
            safe_run(right, more).history,
        ),
        challenges::<u8, Keccak>(safe_run(left, more).history, n) == challenges::<u8, Keccak>(
            safe_run(right, more).history,
            n,
        ),
    decreases more.len(),
{
    if more.len() > 0 {
        let a = safe_run(left, more.drop_last());
        let b = safe_run(right, more.drop_last());
        lemma_sponge_state_decides(left, right, more.drop_last(), n);
        match more.last() {
            SpongeOp::Absorb(input) => {
                lemma_after_absorbed(a.history, input);
                lemma_after_absorbed(b.history, input);
            },
            SpongeOp::Squeeze(k) => {
                lemma_after_squeezed(a.history, k);
                lemma_after_squeezed(b.history, k);
            },
            SpongeOp::Ratchet => {
                assert(ratcheted(a.history).drop_last() =~= a.history);
                assert(ratcheted(b.history).drop_last() =~= b.history);
            },
        }
    }
    lemma_challenges_of_state(safe_run(left, more).history, n);
    lemma_challenges_of_state(safe_run(right, more).history, n);
}

/// On the Keccak sponge, a ratchet cuts a transcript off from its past.
///
/// Let two transcripts have a ratchet at the head of the same operations to
/// come, and let the ratchet leave their sponges in one state, whatever was
/// absorbed into either before. Then all that is squeezed after the ratchet is
/// the same for both: what came before the ratchet is felt through the
/// ratcheted state alone.
pub proof fn lemma_ratchet_cuts_the_past(
    left: SafeState<u8>,
    right: SafeState<u8>,
    more: Seq<SpongeOp<u8>>,
    n: nat,
)
    requires
        left.stack == right.stack,
        allows(left.stack, Op::Ratchet),
        SpongeState::after(left.history).ratchet() == SpongeState::after(right.history).ratchet(),
    ensures
        safe_run(left.ratchet(), more).stack == safe_run(right.ratchet(), more).stack,
        challenges::<u8, Keccak>(safe_run(left.ratchet(), more).history, n) == challenges::<
            u8,
            Keccak,
        >(safe_run(right.ratchet(), more).history, n),
{
    assert(ratcheted(left.history).drop_last() =~= left.history);
    assert(ratcheted(right.history).drop_last() =~= right.history);
    lemma_sponge_state_decides(left.ratchet(), right.ratchet(), more, n);
}

/// A hint without bytes is written as four zero bytes.
pub proof fn lemma_empty_hint<U: Unit>(m: MerlinState<U>)
    requires
        allows(m.safe.stack, Op::Hint),
    ensures
        hint_outcome(m.safe.stack, 0) is Ok,
        m.hint(Seq::empty()).transcript == m.transcript + seq![0u8, 0u8, 0u8, 0u8],
{
    reveal_with_fuel(le_bytes, 5);
    assert(le_bytes(0, 4) =~= seq![0u8, 0u8, 0u8, 0u8]);
    assert(m.hint(Seq::empty()).transcript =~= m.transcript + seq![0u8, 0u8, 0u8, 0u8]);
}

/// An absorb of more units than are left of the head is refused, whatever
/// follows the head.
pub proof fn lemma_absorb_beyond_head(stack: Seq<Op>, n: usize)
    requires
        stack.len() > 0,
        stack[0] is Absorb,
        n > stack[0]->Absorb_0,
    ensures
        outcome(stack, Op::Absorb(n)) == Err::<(), _>(refusal(stack, Op::Absorb(n))),
{
}

} // verus!
