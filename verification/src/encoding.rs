//! Integers as little-endian byte strings.

use vstd::prelude::*;
use vstd::slice::slice_subrange;

verus! {

/// The integer that `bytes` stands for, the lowest byte first.
pub open spec fn le_nat(bytes: Seq<u8>) -> nat
    decreases bytes.len(),
{
    if bytes.len() == 0 {
        0
    } else {
        bytes[0] as nat + 256 * le_nat(bytes.drop_first())
    }
}

/// The lowest `len` bytes of `n`, the lowest first.
pub open spec fn le_bytes(n: nat, len: nat) -> Seq<u8>
    decreases len,
{
    if len == 0 {
        Seq::empty()
    } else {
        seq![(n % 256) as u8] + le_bytes(n / 256, (len - 1) as nat)
    }
}

/// An integer does not change when zero bytes are written after its bytes.
pub proof fn lemma_le_nat_zero_extended(bytes: Seq<u8>, extended: Seq<u8>)
    requires
        bytes.is_prefix_of(extended),
        forall|i: int| bytes.len() <= i < extended.len() ==> extended[i] == 0,
    ensures
        le_nat(extended) == le_nat(bytes),
    decreases extended.len(),
{
    if extended.len() == 0 {
        assert(bytes =~= extended);
    } else if bytes.len() == 0 {
        lemma_le_nat_zero_extended(bytes, extended.drop_first());
    } else {
        assert(bytes.drop_first().is_prefix_of(extended.drop_first()));
        lemma_le_nat_zero_extended(bytes.drop_first(), extended.drop_first());
    }
}

/// Byte strings of one length that stand for one integer are equal.
pub proof fn lemma_le_nat_injective(a: Seq<u8>, b: Seq<u8>)
    requires
        a.len() == b.len(),
        le_nat(a) == le_nat(b),
    ensures
        a == b,
    decreases a.len(),
{
    if a.len() == 0 {
        assert(a =~= b);
    } else {
        lemma_le_nat_injective(a.drop_first(), b.drop_first());
        assert(a =~= seq![a[0]] + a.drop_first());
        assert(b =~= seq![b[0]] + b.drop_first());
    }
}

/// Whether `a` and `b` stand for the same integer, the lowest byte first:
/// they may differ in zero bytes at the end.
pub fn same_integer(a: &[u8], b: &[u8]) -> (r: bool)
    ensures
        r == (le_nat(a@) == le_nat(b@)),
{
    let (short, long) = if a.len() <= b.len() {
        (a, b)
    } else {
        (b, a)
    };
    let n: usize = short.len();
    let m: usize = long.len();
    let mut i: usize = n;
    while i < m
        invariant
            n <= i <= m,
            n == short@.len(),
            m == long@.len(),
            (short@ == a@ && long@ == b@) || (short@ == b@ && long@ == a@),
            forall|k: int| n <= k < i ==> long@[k] == 0,
        decreases m - i,
    {
        if long[i] != 0 {
            proof {
                lemma_le_nat_bounds(short@);
                lemma_le_nat_lower(long@, i as int);
                lemma_pow256_monotonic(n as nat, i as nat);
            }
            return false;
        }
        i += 1;
    }
    let head = slice_subrange(long, 0, n);
    proof {
        assert(head@.is_prefix_of(long@));
        lemma_le_nat_zero_extended(head@, long@);
    }
    let mut j: usize = 0;
    while j < n
        invariant
            j <= n,
            n == short@.len() == head@.len(),
            (short@ == a@ && long@ == b@) || (short@ == b@ && long@ == a@),
            le_nat(head@) == le_nat(long@),
            forall|k: int| 0 <= k < j ==> short@[k] == head@[k],
        decreases n - j,
    {
        if short[j] != head[j] {
            proof {
                if le_nat(short@) == le_nat(head@) {
                    lemma_le_nat_injective(short@, head@);
                }
            }
            return false;
        }
        j += 1;
    }
    assert(short@ =~= head@);
    true
}

/// A byte string of `n` bytes stands for an integer below `256^n`.
pub proof fn lemma_le_nat_bounds(bytes: Seq<u8>)
    ensures
        le_nat(bytes) < pow256(bytes.len()),
    decreases bytes.len(),
{
    if bytes.len() > 0 {
        lemma_le_nat_bounds(bytes.drop_first());
    }
}

/// A byte string with a byte other than zero at place `i` stands for an
/// integer of at least `256^i`.
pub proof fn lemma_le_nat_lower(bytes: Seq<u8>, i: int)
    requires
        0 <= i < bytes.len(),
        bytes[i] != 0,
    ensures
        le_nat(bytes) >= pow256(i as nat),
    decreases i,
{
    if i > 0 {
        lemma_le_nat_lower(bytes.drop_first(), i - 1);
    }
}

/// The byte strings `chunks`, one after the other.
pub open spec fn concat(chunks: Seq<Seq<u8>>) -> Seq<u8>
    decreases chunks.len(),
{
    if chunks.len() == 0 {
        Seq::empty()
    } else {
        concat(chunks.drop_last()) + chunks.last()
    }
}

/// The `i`-th run of `size` bytes in `bytes`.
pub open spec fn chunk(bytes: Seq<u8>, i: int, size: int) -> Seq<u8> {
    bytes.subrange(i * size, (i + 1) * size)
}

/// The first `n` runs of `size` bytes in `bytes`.
pub open spec fn chunks(bytes: Seq<u8>, n: nat, size: int) -> Seq<Seq<u8>> {
    Seq::new(n, |i: int| chunk(bytes, i, size))
}

/// Byte strings of `size` bytes each, written one after the other, are found
/// again as the runs of `size` bytes.
pub proof fn lemma_chunks_of_concat(parts: Seq<Seq<u8>>, size: int)
    requires
        size > 0,
        forall|i: int| 0 <= i < parts.len() ==> (#[trigger] parts[i]).len() == size,
    ensures
        concat(parts).len() == parts.len() * size,
        chunks(concat(parts), parts.len(), size) == parts,
    decreases parts.len(),
{
    if parts.len() == 0 {
        assert(chunks(concat(parts), 0, size) =~= parts);
    } else {
        let init = parts.drop_last();
        lemma_chunks_of_concat(init, size);
        let all = concat(parts);
        assert(all.len() == parts.len() * size) by (nonlinear_arith)
            requires
                all.len() == init.len() * size + size,
                init.len() == parts.len() - 1,
        ;
        assert forall|i: int| 0 <= i < parts.len() implies chunk(all, i, size) == parts[i] by {
            assert(i * size + size == (i + 1) * size) by (nonlinear_arith);
            if i < init.len() {
                assert((i + 1) * size <= init.len() * size) by (nonlinear_arith)
                    requires
                        i + 1 <= init.len(),
                        size > 0,
                ;
                assert(i * size >= 0) by (nonlinear_arith)
                    requires
                        i >= 0,
                        size > 0,
                ;
                assert(chunk(all, i, size) =~= chunk(concat(init), i, size));
                assert(chunks(concat(init), init.len(), size)[i] == init[i]);
            } else {
                assert(chunk(all, i, size) =~= parts.last());
            }
        }
        assert(chunks(all, parts.len(), size) =~= parts);
    }
}

/// The lowest `len` bytes of an integer are `len` bytes, and where the
/// integer is below `256^len` they stand for it.
pub proof fn lemma_le_round_trip(n: nat, len: nat)
    ensures
        le_bytes(n, len).len() == len,
        n < pow256(len) ==> le_nat(le_bytes(n, len)) == n,
    decreases len,
{
    if len > 0 {
        let rest = le_bytes(n / 256, (len - 1) as nat);
        assert(le_bytes(n, len).drop_first() =~= rest);
        lemma_le_round_trip(n / 256, (len - 1) as nat);
    }
}

/// `256^4` is `2^32`.
pub proof fn lemma_pow256_4()
    ensures
        pow256(4) == 0x1_0000_0000,
{
    reveal_with_fuel(pow256, 5);
}

/// The four bytes of `n`, the lowest first.
pub fn u32_to_le(n: u32) -> (bytes: [u8; 4])
    ensures
        bytes@ == le_bytes(n as nat, 4),
{
    let bytes: [u8; 4] = [
        (n % 256) as u8,
        (n / 256 % 256) as u8,
        (n / 65536 % 256) as u8,
        (n / 16777216 % 256) as u8,
    ];
    proof {
        let m = n as nat;
        assert(le_bytes(m / 256 / 256 / 256 / 256, 0) =~= Seq::<u8>::empty());
        assert(le_bytes(m / 256 / 256 / 256, 1) =~= seq![(m / 256 / 256 / 256 % 256) as u8]);
        assert(le_bytes(m / 256 / 256, 2) =~= seq![
            (m / 256 / 256 % 256) as u8,
            (m / 256 / 256 / 256 % 256) as u8,
        ]);
        assert(le_bytes(m / 256, 3) =~= seq![
            (m / 256 % 256) as u8,
            (m / 256 / 256 % 256) as u8,
            (m / 256 / 256 / 256 % 256) as u8,
        ]);
        assert(m / 256 / 256 == m / 65536);
        assert(m / 256 / 256 / 256 == m / 16777216);
        assert(bytes@ =~= le_bytes(m, 4));
    }
    bytes
}

/// The 32-bit integer that the four bytes from `at` on stand for, the lowest
/// first.
pub fn u32_from_le(bytes: &[u8], at: usize) -> (n: u32)
    requires
        at + 4 <= bytes@.len(),
    ensures
        n == le_nat(bytes@.subrange(at as int, at + 4)),
{
    let b0: u32 = bytes[at] as u32;
    let b1: u32 = bytes[at + 1] as u32;
    let b2: u32 = bytes[at + 2] as u32;
    let b3: u32 = bytes[at + 3] as u32;
    proof {
        let run = bytes@.subrange(at as int, at + 4);
        let rest1 = run.drop_first();
        let rest2 = rest1.drop_first();
        let rest3 = rest2.drop_first();
        assert(le_nat(rest3.drop_first()) == 0);
        assert(le_nat(rest3) == b3);
        assert(le_nat(rest2) == b2 + 256 * le_nat(rest3));
        assert(le_nat(rest1) == b1 + 256 * le_nat(rest2));
        assert(le_nat(run) == b0 + 256 * le_nat(rest1));
    }
    b0 + 256 * b1 + 65536 * b2 + 16777216 * b3
}

/// The integer that `bytes` stands for, the lowest byte first.
pub fn le_u64(bytes: &[u8]) -> (n: u64)
    requires
        bytes@.len() == 8,
    ensures
        n == le_nat(bytes@),
{
    let mut n: u64 = 0;
    let mut i: usize = 8;
    while i > 0
        invariant
            bytes@.len() == 8,
            i <= 8,
            n as nat == le_nat(bytes@.subrange(i as int, 8)),
            (n as nat) < pow256((8 - i) as nat),
        decreases i,
    {
        i -= 1;
        proof {
            let tail = bytes@.subrange(i as int, 8);
            assert(tail.drop_first() =~= bytes@.subrange(i + 1, 8));
            lemma_pow256_step((8 - i - 1) as nat);
            lemma_pow256_8();
            assert(pow256((8 - i) as nat) <= pow256(8)) by {
                lemma_pow256_monotonic((8 - i) as nat, 8);
            }
        }
        n = n * 256 + bytes[i] as u64;
    }
    assert(bytes@.subrange(0, 8) =~= bytes@);
    n
}

/// The power `256^k`.
pub open spec fn pow256(k: nat) -> nat
    decreases k,
{
    if k == 0 {
        1
    } else {
        256 * pow256((k - 1) as nat)
    }
}

proof fn lemma_pow256_step(k: nat)
    ensures
        pow256(k + 1) == 256 * pow256(k),
{
}

proof fn lemma_pow256_8()
    ensures
        pow256(8) == 0x1_0000_0000_0000_0000,
{
    reveal_with_fuel(pow256, 9);
}

pub proof fn lemma_pow256_monotonic(a: nat, b: nat)
    requires
        a <= b,
    ensures
        pow256(a) <= pow256(b),
        pow256(a) > 0,
    decreases b,
{
    if a < b {
        lemma_pow256_monotonic(a, (b - 1) as nat);
    } else if a > 0 {
        lemma_pow256_monotonic((a - 1) as nat, (a - 1) as nat);
    }
}

} // verus!
