//! A duplex sponge over bytes, built on the permutation Keccak-f[1600].
//!
//! The state is 200 bytes, held as 25 lanes of 64 bits, byte `k` of the state
//! being byte `k % 8` of lane `k / 8`, the lowest first. The first 136 bytes
//! are the rate: input is written over them and output is read from them, and the
//! permutation is applied whenever they run out. The other 64 bytes are never
//! written nor given out by an absorb or a squeeze.

use crate::hash::{
    absorbed, challenges, ratcheted, squeeze_base, squeeze_offset, squeezed, DuplexHash, SpongeOp,
};
use vstd::prelude::*;

verus! {

/// The number of bytes that are absorbed or squeezed between two permutations.
pub const RATE: usize = 136;

/// The number of lanes of the state.
pub const LANES: usize = 25;

/// The state that Keccak-f[1600] turns the 25 lanes `lanes` into.
pub uninterp spec fn keccak_f1600(lanes: Seq<u64>) -> Seq<u64>;

/// Applies Keccak-f[1600] to `lanes`, by `keccak::f1600`. The permutation is a
/// function of the 25 lanes alone; nothing else is claimed of it.
#[verifier::external_body]
fn permute(lanes: &mut [u64; 25])
    ensures
        final(lanes)@ == keccak_f1600(old(lanes)@),
{
    keccak::f1600(lanes);
}

/// Byte `k` of the state `lanes`.
pub open spec fn byte_at(lanes: Seq<u64>, k: int) -> u8 {
    ((lanes[k / 8] >> ((8 * (k % 8)) as u64)) & 0xff) as u8
}

/// The lane `lane` with its byte `k` replaced by `b`.
pub open spec fn lane_with_byte(lane: u64, k: int, b: u8) -> u64 {
    (lane & !(0xffu64 << ((8 * k) as u64))) | ((b as u64) << ((8 * k) as u64))
}

/// The state `lanes` with its byte `k` replaced by `b`.
pub open spec fn with_byte(lanes: Seq<u64>, k: int, b: u8) -> Seq<u64> {
    lanes.update(k / 8, lane_with_byte(lanes[k / 8], k % 8, b))
}

/// In a lane, the byte that was written is read, and the other bytes are as
/// they were.
pub proof fn lemma_lane_byte(lane: u64, k: int, b: u8, j: int)
    requires
        0 <= k < 8,
        0 <= j < 8,
    ensures
        ((lane_with_byte(lane, k, b) >> ((8 * j) as u64)) & 0xff) as u8 == if j == k {
            b
        } else {
            ((lane >> ((8 * j) as u64)) & 0xff) as u8
        },
{
    let sk = (8 * k) as u64;
    let sj = (8 * j) as u64;
    let wide = b as u64;
    let written = (lane & !(0xffu64 << sk)) | (wide << sk);
    assert(sk == sj ==> (written >> sj) & 0xff == wide) by (bit_vector)
        requires
            written == (lane & !(0xffu64 << sk)) | (wide << sk),
            wide < 256,
            sk <= 56,
    ;
    assert(sk != sj ==> (written >> sj) & 0xff == (lane >> sj) & 0xff) by (bit_vector)
        requires
            written == (lane & !(0xffu64 << sk)) | (wide << sk),
            wide < 256,
            sk == 0 || sk == 8 || sk == 16 || sk == 24 || sk == 32 || sk == 40 || sk == 48 || sk
                == 56,
            sj == 0 || sj == 8 || sj == 16 || sj == 24 || sj == 32 || sj == 40 || sj == 48 || sj
                == 56,
    ;
}

/// The state is an array of 200 bytes: the byte that was written is read,
/// and the other bytes are as they were.
pub proof fn lemma_state_byte(lanes: Seq<u64>, k: int, b: u8, j: int)
    requires
        lanes.len() == LANES,
        0 <= k < 8 * LANES,
        0 <= j < 8 * LANES,
    ensures
        byte_at(with_byte(lanes, k, b), j) == if j == k {
            b
        } else {
            byte_at(lanes, j)
        },
{
    if j / 8 == k / 8 {
        lemma_lane_byte(lanes[k / 8], k % 8, b, j % 8);
    }
}

/// The state `lanes` with the bytes of the rate set to zero.
pub open spec fn without_rate(lanes: Seq<u64>) -> Seq<u64> {
    Seq::new(
        lanes.len(),
        |i: int|
            if i < RATE / 8 {
                0u64
            } else {
                lanes[i]
            },
    )
}

/// The state of the sponge: its lanes, the place in the rate where the next
/// absorbed byte goes, and the place from which the next squeezed byte comes.
pub struct SpongeState {
    pub lanes: Seq<u64>,
    pub absorb_pos: nat,
    pub squeeze_pos: nat,
}

impl SpongeState {
    /// The state of a fresh sponge: all zero, nothing absorbed, and a
    /// permutation due before the first squeeze.
    pub open spec fn initial() -> SpongeState {
        SpongeState { lanes: Seq::new(LANES as nat, |i: int| 0u64), absorb_pos: 0, squeeze_pos: RATE as nat }
    }

    /// Whether the state has 25 lanes and both places lie within the rate.
    pub open spec fn well_formed(self) -> bool {
        &&& self.lanes.len() == LANES
        &&& self.absorb_pos <= RATE
        &&& self.squeeze_pos <= RATE
    }

    /// The state, permuted first if the rate is full.
    pub open spec fn ready_to_absorb(self) -> SpongeState {
        if self.absorb_pos == RATE {
            SpongeState { lanes: keccak_f1600(self.lanes), absorb_pos: 0, squeeze_pos: self.squeeze_pos }
        } else {
            self
        }
    }

    /// The state after the byte `b` was absorbed.
    pub open spec fn absorb_byte(self, b: u8) -> SpongeState {
        let s = self.ready_to_absorb();
        SpongeState {
            lanes: with_byte(s.lanes, s.absorb_pos as int, b),
            absorb_pos: s.absorb_pos + 1,
            squeeze_pos: RATE as nat,
        }
    }

    /// The state after the bytes `input` were absorbed, one after the other.
    pub open spec fn absorb(self, input: Seq<u8>) -> SpongeState
        decreases input.len(),
    {
        if input.len() == 0 {
            self
        } else {
            self.absorb(input.drop_last()).absorb_byte(input.last())
        }
    }

    /// The state, permuted first if the rate has been given out.
    pub open spec fn ready_to_squeeze(self) -> SpongeState {
        if self.squeeze_pos == RATE {
            SpongeState { lanes: keccak_f1600(self.lanes), absorb_pos: 0, squeeze_pos: 0 }
        } else {
            self
        }
    }

    /// The byte that is squeezed next.
    pub open spec fn next_byte(self) -> u8 {
        let s = self.ready_to_squeeze();
        byte_at(s.lanes, s.squeeze_pos as int)
    }

    /// The state after one byte was squeezed.
    pub open spec fn squeeze_byte(self) -> SpongeState {
        let s = self.ready_to_squeeze();
        SpongeState { lanes: s.lanes, absorb_pos: s.absorb_pos, squeeze_pos: s.squeeze_pos + 1 }
    }

    /// The state after `n` bytes were squeezed.
    pub open spec fn squeeze(self, n: nat) -> SpongeState
        decreases n,
    {
        if n == 0 {
            self
        } else {
            self.squeeze((n - 1) as nat).squeeze_byte()
        }
    }

    /// The state after a ratchet: permuted, with the rate set to zero.
    pub open spec fn ratchet(self) -> SpongeState {
        SpongeState {
            lanes: without_rate(keccak_f1600(self.lanes)),
            absorb_pos: 0,
            squeeze_pos: RATE as nat,
        }
    }

    /// The state that a fresh sponge is in after the history `h`.
    pub open spec fn after(h: Seq<SpongeOp<u8>>) -> SpongeState
        decreases h.len(),
    {
        if h.len() == 0 {
            SpongeState::initial()
        } else {
            let s = SpongeState::after(h.drop_last());
            match h.last() {
                SpongeOp::Absorb(input) => s.absorb(input),
                SpongeOp::Squeeze(n) => s.squeeze(n),
                SpongeOp::Ratchet => s.ratchet(),
            }
        }
    }

    /// The bytes outside the rate.
    pub open spec fn capacity(self) -> Seq<u8> {
        Seq::new((8 * LANES - RATE) as nat, |i: int| byte_at(self.lanes, RATE + i))
    }
}

/// Absorbing `a` and then `b` is absorbing `a + b`.
pub proof fn lemma_absorb_concat(s: SpongeState, a: Seq<u8>, b: Seq<u8>)
    ensures
        s.absorb(a + b) == s.absorb(a).absorb(b),
    decreases b.len(),
{
    if b.len() == 0 {
        assert(a + b =~= a);
    } else {
        assert((a + b).drop_last() =~= a + b.drop_last());
        lemma_absorb_concat(s, a, b.drop_last());
    }
}

/// Squeezing `m` bytes and then `n` is squeezing `m + n`.
pub proof fn lemma_squeeze_sum(s: SpongeState, m: nat, n: nat)
    ensures
        s.squeeze(m + n) == s.squeeze(m).squeeze(n),
    decreases n,
{
    if n > 0 {
        lemma_squeeze_sum(s, m, (n - 1) as nat);
        assert((m + n - 1) as nat == m + (n - 1) as nat);
    }
}

/// The state after a history to which an absorb was added.
pub proof fn lemma_after_absorbed(h: Seq<SpongeOp<u8>>, input: Seq<u8>)
    ensures
        SpongeState::after(absorbed(h, input)) == SpongeState::after(h).absorb(input),
{
    if input.len() == 0 {
    } else if h.len() > 0 && h.last() is Absorb {
        let before = h.last()->Absorb_0;
        let next = absorbed(h, input);
        assert(next.drop_last() =~= h.drop_last());
        lemma_absorb_concat(SpongeState::after(h.drop_last()), before, input);
    } else {
        assert(absorbed(h, input).drop_last() =~= h);
    }
}

/// The state after a history to which a squeeze was added.
pub proof fn lemma_after_squeezed(h: Seq<SpongeOp<u8>>, n: nat)
    ensures
        SpongeState::after(squeezed(h, n)) == SpongeState::after(h).squeeze(n),
{
    if n == 0 {
    } else if h.len() > 0 && h.last() is Squeeze {
        let before = h.last()->Squeeze_0;
        assert(squeezed(h, n).drop_last() =~= h.drop_last());
        lemma_squeeze_sum(SpongeState::after(h.drop_last()), before, n);
    } else {
        assert(squeezed(h, n).drop_last() =~= h);
    }
}

/// The state at the start of the squeeze that a history ends in, after as
/// many bytes as that squeeze has given out, is the state after the history.
pub proof fn lemma_after_squeeze_base(h: Seq<SpongeOp<u8>>)
    ensures
        SpongeState::after(squeeze_base(h)).squeeze(squeeze_offset(h)) == SpongeState::after(h),
{
}

/// The history `h` with what `more` tells added to it, in order.
pub open spec fn extended(h: Seq<SpongeOp<u8>>, more: Seq<SpongeOp<u8>>) -> Seq<SpongeOp<u8>>
    decreases more.len(),
{
    if more.len() == 0 {
        h
    } else {
        let before = extended(h, more.drop_last());
        match more.last() {
            SpongeOp::Absorb(input) => absorbed(before, input),
            SpongeOp::Squeeze(n) => squeezed(before, n),
            SpongeOp::Ratchet => ratcheted(before),
        }
    }
}

/// The state `s` after what `more` tells was done to it, in order.
pub open spec fn state_after(s: SpongeState, more: Seq<SpongeOp<u8>>) -> SpongeState
    decreases more.len(),
{
    if more.len() == 0 {
        s
    } else {
        let before = state_after(s, more.drop_last());
        match more.last() {
            SpongeOp::Absorb(input) => before.absorb(input),
            SpongeOp::Squeeze(n) => before.squeeze(n),
            SpongeOp::Ratchet => before.ratchet(),
        }
    }
}

/// The `n` bytes that a sponge in the state `s` gives out next.
pub open spec fn output(s: SpongeState, n: nat) -> Seq<u8> {
    Seq::new(n, |j: int| s.squeeze(j as nat).next_byte())
}

/// The state after a longer history is the state after the shorter one with
/// the rest done to it.
pub proof fn lemma_after_extended(h: Seq<SpongeOp<u8>>, more: Seq<SpongeOp<u8>>)
    ensures
        SpongeState::after(extended(h, more)) == state_after(SpongeState::after(h), more),
    decreases more.len(),
{
    if more.len() > 0 {
        let before = extended(h, more.drop_last());
        lemma_after_extended(h, more.drop_last());
        match more.last() {
            SpongeOp::Absorb(input) => lemma_after_absorbed(before, input),
            SpongeOp::Squeeze(n) => lemma_after_squeezed(before, n),
            SpongeOp::Ratchet => {
                assert(ratcheted(before).drop_last() =~= before);
            },
        }
    }
}

/// What the sponge gives out next is told by its state.
pub proof fn lemma_challenges_of_state(h: Seq<SpongeOp<u8>>, n: nat)
    ensures
        challenges::<u8, Keccak>(h, n) == output(SpongeState::after(h), n),
{
    lemma_after_squeeze_base(h);
    let base = SpongeState::after(squeeze_base(h));
    assert forall|j: int| 0 <= j < n implies challenges::<u8, Keccak>(h, n)[j] == output(
        SpongeState::after(h),
        n,
    )[j] by {
        lemma_squeeze_sum(base, squeeze_offset(h), j as nat);
    }
    assert(challenges::<u8, Keccak>(h, n) =~= output(SpongeState::after(h), n));
}

/// What follows depends on what came before through the state alone.
///
/// Let two histories leave the sponge in one state. Then whatever is done to
/// the sponge after them, the state stays the same for both, and so do the
/// bytes that are squeezed.
pub proof fn lemma_state_decides(
    h1: Seq<SpongeOp<u8>>,
    h2: Seq<SpongeOp<u8>>,
    more: Seq<SpongeOp<u8>>,
    n: nat,
)
    requires
        SpongeState::after(h1) == SpongeState::after(h2),
    ensures
        SpongeState::after(extended(h1, more)) == SpongeState::after(extended(h2, more)),
        challenges::<u8, Keccak>(extended(h1, more), n) == challenges::<u8, Keccak>(
            extended(h2, more),
            n,
        ),
{
    lemma_after_extended(h1, more);
    lemma_after_extended(h2, more);
    lemma_challenges_of_state(extended(h1, more), n);
    lemma_challenges_of_state(extended(h2, more), n);
}

/// After a ratchet, what came before is felt through the ratcheted state
/// alone.
///
/// A ratchet leaves of the permuted state what lies outside the rate, and
/// nothing else. Let that be the same after two histories. Then whatever is
/// absorbed, squeezed or ratcheted after the ratchet, the bytes that are
/// squeezed are the same for both.
pub proof fn lemma_ratchet_cuts(
    h1: Seq<SpongeOp<u8>>,
    h2: Seq<SpongeOp<u8>>,
    more: Seq<SpongeOp<u8>>,
    n: nat,
)
    requires
        without_rate(keccak_f1600(SpongeState::after(h1).lanes)) == without_rate(
            keccak_f1600(SpongeState::after(h2).lanes),
        ),
    ensures
        SpongeState::after(ratcheted(h1)) == SpongeState::after(h1).ratchet(),
        SpongeState::after(ratcheted(h1)) == SpongeState::after(ratcheted(h2)),
        challenges::<u8, Keccak>(extended(ratcheted(h1), more), n) == challenges::<u8, Keccak>(
            extended(ratcheted(h2), more),
            n,
        ),
{
    assert(ratcheted(h1).drop_last() =~= h1);
    assert(ratcheted(h2).drop_last() =~= h2);
    lemma_state_decides(ratcheted(h1), ratcheted(h2), more, n);
}

/// Byte `k` of the state `lanes`.
fn get_byte(lanes: &[u64; 25], k: usize) -> (b: u8)
    requires
        k < 8 * LANES,
    ensures
        b == byte_at(lanes@, k as int),
{
    let shift: u64 = (8 * (k % 8)) as u64;
    let lane: u64 = lanes[k / 8];
    let low: u64 = (lane >> shift) & 0xff;
    assert(low < 256) by (bit_vector)
        requires
            low == (lane >> shift) & 0xff,
    ;
    low as u8
}

/// Replaces byte `k` of the state `lanes` by `b`.
fn set_byte(lanes: &mut [u64; 25], k: usize, b: u8)
    requires
        k < 8 * LANES,
    ensures
        final(lanes)@ == with_byte(old(lanes)@, k as int, b),
{
    let shift: u64 = (8 * (k % 8)) as u64;
    let lane: u64 = lanes[k / 8];
    lanes[k / 8] = (lane & !(0xffu64 << shift)) | ((b as u64) << shift);
    assert(lanes@ =~= with_byte(old(lanes)@, k as int, b));
}

/// A duplex sponge over bytes on Keccak-f[1600], with a rate of 136 bytes.
pub struct Keccak {
    lanes: [u64; 25],
    absorb_pos: usize,
    squeeze_pos: usize,
    history: Ghost<Seq<SpongeOp<u8>>>,
}

impl Keccak {
    #[verifier::type_invariant]
    spec fn well_formed(self) -> bool {
        &&& self.absorb_pos <= RATE
        &&& self.squeeze_pos <= RATE
        &&& self.state() == SpongeState::after(self.history@)
    }

    /// The lanes and the two places, as one value.
    spec fn state(self) -> SpongeState {
        SpongeState {
            lanes: self.lanes@,
            absorb_pos: self.absorb_pos as nat,
            squeeze_pos: self.squeeze_pos as nat,
        }
    }
}

impl Clone for Keccak {
    /// A sponge in the same state, with the same history.
    fn clone(&self) -> (sponge: Self)
        ensures
            sponge.history() == self.history(),
    {
        proof {
            use_type_invariant(self);
        }
        Keccak {
            lanes: self.lanes,
            absorb_pos: self.absorb_pos,
            squeeze_pos: self.squeeze_pos,
            history: Ghost(self.history@),
        }
    }
}

impl Default for Keccak {
    /// A sponge in its initial, all-zero state.
    fn default() -> (sponge: Self)
        ensures
            sponge.history() == Seq::<SpongeOp<u8>>::empty(),
    {
        Keccak::new()
    }
}

impl DuplexHash<u8> for Keccak {
    closed spec fn history(&self) -> Seq<SpongeOp<u8>> {
        self.history@
    }

    open spec fn challenge(h: Seq<SpongeOp<u8>>, i: nat) -> u8 {
        SpongeState::after(h).squeeze(i).next_byte()
    }

    open spec fn stored(h: Seq<SpongeOp<u8>>) -> Seq<u8> {
        SpongeState::after(h).capacity()
    }

    proof fn lemma_clone_keeps_history(sponge: Self, copy: Self) {
    }

    fn new() -> (sponge: Self) {
        let lanes: [u64; 25] = [
            0u64, 0u64, 0u64, 0u64, 0u64, 0u64, 0u64, 0u64, 0u64, 0u64, 0u64, 0u64, 0u64,
            0u64, 0u64, 0u64, 0u64, 0u64, 0u64, 0u64, 0u64, 0u64, 0u64, 0u64, 0u64,
        ];
        assert(lanes@ =~= SpongeState::initial().lanes);
        Keccak { lanes, absorb_pos: 0, squeeze_pos: RATE, history: Ghost(Seq::empty()) }
    }

    fn absorb_unchecked(&mut self, input: &[u8]) {
        proof {
            use_type_invariant(&*self);
        }
        let ghost start = self.state();
        let n: usize = input.len();
        let mut lanes: [u64; 25] = self.lanes;
        let mut absorb_pos: usize = self.absorb_pos;
        let mut squeeze_pos: usize = self.squeeze_pos;
        let mut i: usize = 0;
        while i < n
            invariant
                n == input@.len(),
                i <= n,
                absorb_pos <= RATE,
                squeeze_pos <= RATE,
                start.absorb(input@.subrange(0, i as int)) == (SpongeState {
                    lanes: lanes@,
                    absorb_pos: absorb_pos as nat,
                    squeeze_pos: squeeze_pos as nat,
                }),
            decreases n - i,
        {
            if absorb_pos == RATE {
                permute(&mut lanes);
                absorb_pos = 0;
            }
            set_byte(&mut lanes, absorb_pos, input[i]);
            absorb_pos += 1;
            squeeze_pos = RATE;
            i += 1;
            assert(input@.subrange(0, i as int).drop_last() =~= input@.subrange(0, i - 1));
        }
        proof {
            assert(input@.subrange(0, n as int) =~= input@);
            lemma_after_absorbed(self.history@, input@);
        }
        *self = Keccak {
            lanes,
            absorb_pos,
            squeeze_pos,
            history: Ghost(absorbed(self.history@, input@)),
        };
    }

    fn squeeze_unchecked(&mut self, output: &mut [u8]) {
        proof {
            use_type_invariant(&*self);
        }
        let ghost start = self.state();
        let ghost h = self.history@;
        let n: usize = output.len();
        let mut lanes: [u64; 25] = self.lanes;
        let mut absorb_pos: usize = self.absorb_pos;
        let mut squeeze_pos: usize = self.squeeze_pos;
        let mut i: usize = 0;
        while i < n
            invariant
                n == output@.len(),
                i <= n,
                absorb_pos <= RATE,
                squeeze_pos <= RATE,
                start.squeeze(i as nat) == (SpongeState {
                    lanes: lanes@,
                    absorb_pos: absorb_pos as nat,
                    squeeze_pos: squeeze_pos as nat,
                }),
                forall|j: int| 0 <= j < i ==> output@[j] == start.squeeze(j as nat).next_byte(),
            decreases n - i,
        {
            if squeeze_pos == RATE {
                permute(&mut lanes);
                squeeze_pos = 0;
                absorb_pos = 0;
            }
            output[i] = get_byte(&lanes, squeeze_pos);
            squeeze_pos += 1;
            i += 1;
        }
        proof {
            lemma_after_squeezed(h, n as nat);
            lemma_after_squeeze_base(h);
            assert forall|j: int| 0 <= j < n implies #[trigger] output@[j] == Self::challenge(
                squeeze_base(h),
                squeeze_offset(h) + j as nat,
            ) by {
                lemma_squeeze_sum(SpongeState::after(squeeze_base(h)), squeeze_offset(h), j as nat);
            }
        }
        *self = Keccak { lanes, absorb_pos, squeeze_pos, history: Ghost(squeezed(h, n as nat)) };
    }

    fn ratchet_unchecked(&mut self) {
        proof {
            use_type_invariant(&*self);
        }
        let mut lanes: [u64; 25] = self.lanes;
        permute(&mut lanes);
        let ghost permuted = lanes@;
        let mut i: usize = 0;
        while i < RATE / 8
            invariant
                i <= RATE / 8,
                forall|j: int| 0 <= j < i ==> lanes@[j] == 0,
                forall|j: int| i <= j < LANES ==> lanes@[j] == permuted[j],
            decreases RATE / 8 - i,
        {
            lanes[i] = 0;
            i += 1;
        }
        proof {
            assert(lanes@ =~= without_rate(permuted));
            assert(ratcheted(self.history@).drop_last() =~= self.history@);
        }
        *self = Keccak {
            lanes,
            absorb_pos: 0,
            squeeze_pos: RATE,
            history: Ghost(ratcheted(self.history@)),
        };
    }

    fn tag(&self) -> (t: Vec<u8>) {
        proof {
            use_type_invariant(self);
        }
        let mut t: Vec<u8> = Vec::new();
        let mut k: usize = RATE;
        while k < 8 * LANES
            invariant
                RATE <= k <= 8 * LANES,
                t@.len() == k - RATE,
                forall|j: int| 0 <= j < t@.len() ==> t@[j] == byte_at(self.lanes@, RATE + j),
            decreases 8 * LANES - k,
        {
            t.push(get_byte(&self.lanes, k));
            k += 1;
        }
        assert(t@ =~= self.state().capacity());
        t
    }
}

} // verus!
