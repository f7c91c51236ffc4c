//! The IO pattern: the script of sponge operations that a protocol declares
//! before it runs, and the byte string that stands for it.
//!
//! The byte string is the domain separator followed by the declared operations,
//! each after a separator byte:
//!
//! ```text
//! pattern := domain-separator (SEP op)*
//! op      := 'A' count [LABEL label] | 'S' count [LABEL label] | 'R' | 'H' [LABEL label]
//! count   := decimal digits, without a leading zero unless the count is 0
//! ```
//!
//! with `SEP` the byte 0 and `LABEL` the byte 1. An empty label is left out
//! together with its `LABEL` byte.

use crate::errors::IOPatternError;
use crate::hash::DefaultHash;
use core::marker::PhantomData;
use std::collections::VecDeque;
use vstd::prelude::*;
use vstd::string::StringSliceAdditionalSpecFns;

verus! {

/// The byte that stands before each declared operation.
pub const SEP_BYTE: u8 = 0;

/// The byte that stands between an operation and its label.
pub const LABEL_BYTE: u8 = 1;

/// One operation of a protocol, as the IO pattern declares it.
#[derive(Clone, Copy, Debug, PartialEq, Eq, Structural)]
pub enum Op {
    /// The next units of prover data enter the sponge.
    Absorb(usize),
    /// The next units are pulled out of the sponge as a challenge.
    Squeeze(usize),
    /// The sponge state is compressed one way.
    Ratchet,
    /// A blob travels with the proof without entering the sponge.
    Hint,
}

/// A declared operation with the label it was declared under.
pub struct Decl {
    pub op: Op,
    pub label: Seq<u8>,
}

/// The decimal digits of `n`, in ASCII.
pub open spec fn decimal(n: nat) -> Seq<u8>
    decreases n,
{
    if n < 10 {
        seq![(48 + n) as u8]
    } else {
        decimal(n / 10).push((48 + n % 10) as u8)
    }
}

/// The bytes that a label adds to its operation.
pub open spec fn encode_label(label: Seq<u8>) -> Seq<u8> {
    if label.len() == 0 {
        Seq::empty()
    } else {
        seq![LABEL_BYTE] + label
    }
}

/// The bytes of an operation, without its label.
pub open spec fn encode_op(op: Op) -> Seq<u8> {
    match op {
        Op::Absorb(n) => seq![65u8] + decimal(n as nat),
        Op::Squeeze(n) => seq![83u8] + decimal(n as nat),
        Op::Ratchet => seq![82u8],
        Op::Hint => seq![72u8],
    }
}

/// The bytes of one declaration.
pub open spec fn encode_decl(d: Decl) -> Seq<u8> {
    encode_op(d.op) + encode_label(d.label)
}

/// The bytes of the declarations, each after a separator byte.
pub open spec fn encode_decls(decls: Seq<Decl>) -> Seq<u8>
    decreases decls.len(),
{
    if decls.len() == 0 {
        Seq::empty()
    } else {
        encode_decls(decls.drop_last()) + seq![SEP_BYTE] + encode_decl(decls.last())
    }
}

/// The byte string of a pattern.
pub open spec fn encode_pattern(domsep: Seq<u8>, decls: Seq<Decl>) -> Seq<u8> {
    domsep + encode_decls(decls)
}

/// Whether `op` melts into the operation at the end of `ops`: an absorb into
/// an absorb, a squeeze into a squeeze.
pub open spec fn merges(ops: Seq<Op>, op: Op) -> bool {
    ops.len() > 0 && match (ops.last(), op) {
        (Op::Absorb(_), Op::Absorb(_)) => true,
        (Op::Squeeze(_), Op::Squeeze(_)) => true,
        _ => false,
    }
}

/// The count of an absorb or a squeeze; 0 for the other operations.
pub open spec fn count_of(op: Op) -> nat {
    match op {
        Op::Absorb(n) => n as nat,
        Op::Squeeze(n) => n as nat,
        _ => 0,
    }
}

/// The operation of the kind of `op` with the count `n`.
pub open spec fn with_count(op: Op, n: nat) -> Op {
    match op {
        Op::Absorb(_) => Op::Absorb(n as usize),
        Op::Squeeze(_) => Op::Squeeze(n as usize),
        o => o,
    }
}

/// Whether `op` melts into the end of `ops` and the sum of the two counts is
/// too large for a `usize`.
pub open spec fn merge_overflows(ops: Seq<Op>, op: Op) -> bool {
    merges(ops, op) && count_of(ops.last()) + count_of(op) > usize::MAX
}

/// The operations `ops` with `op` declared after them.
pub open spec fn merge_op(ops: Seq<Op>, op: Op) -> Seq<Op> {
    if merges(ops, op) {
        ops.drop_last().push(with_count(op, count_of(ops.last()) + count_of(op)))
    } else {
        ops.push(op)
    }
}

/// The operations that a sponge is held to when `ops` were declared in this
/// order.
pub open spec fn merged(ops: Seq<Op>) -> Seq<Op>
    decreases ops.len(),
{
    if ops.len() == 0 {
        Seq::empty()
    } else {
        merge_op(merged(ops.drop_last()), ops.last())
    }
}

/// Whether every sum that arises in merging `ops` fits in a `usize`.
pub open spec fn merge_fits(ops: Seq<Op>) -> bool
    decreases ops.len(),
{
    ops.len() == 0 || (merge_fits(ops.drop_last()) && !merge_overflows(
        merged(ops.drop_last()),
        ops.last(),
    ))
}

/// The operations of the declarations, without their labels.
pub open spec fn decl_ops(decls: Seq<Decl>) -> Seq<Op> {
    Seq::new(decls.len(), |i: int| decls[i].op)
}

/// What is wrong with a domain separator, if anything.
pub open spec fn domsep_error(domsep: Seq<u8>) -> Option<IOPatternError> {
    if domsep.len() == 0 {
        Some(IOPatternError::EmptyDomainSeparator)
    } else if domsep.contains(SEP_BYTE) {
        Some(IOPatternError::SeparatorInDomainSeparator)
    } else {
        None
    }
}

/// What is wrong with declaring `op` under `label` after the operations `ops`,
/// if anything.
pub open spec fn decl_error(ops: Seq<Op>, op: Op, label: Seq<u8>) -> Option<IOPatternError> {
    if label.contains(SEP_BYTE) {
        Some(IOPatternError::SeparatorInLabel)
    } else if merge_overflows(ops, op) {
        Some(IOPatternError::CountOverflow)
    } else {
        None
    }
}

/// Whether `bytes` holds the byte `b`.
pub fn holds_byte(bytes: &[u8], b: u8) -> (r: bool)
    ensures
        r == bytes@.contains(b),
{
    let n: usize = bytes.len();
    let mut i: usize = 0;
    while i < n
        invariant
            n == bytes@.len(),
            i <= n,
            forall|j: int| 0 <= j < i ==> bytes@[j] != b,
        decreases n - i,
    {
        if bytes[i] == b {
            return true;
        }
        i += 1;
    }
    false
}

/// Appends the decimal digits of `n` to `out`.
pub fn push_decimal(out: &mut Vec<u8>, n: usize)
    ensures
        final(out)@ == old(out)@ + decimal(n as nat),
    decreases n,
{
    if n >= 10 {
        push_decimal(out, n / 10);
    }
    let digit: u8 = (48 + n % 10) as u8;
    out.push(digit);
    assert(out@ =~= old(out)@ + decimal(n as nat));
}

/// Appends the bytes of `op` and of its label to `out`.
fn push_decl(out: &mut Vec<u8>, op: Op, label: &[u8])
    ensures
        final(out)@ == old(out)@ + encode_decl(Decl { op, label: label@ }),
{
    match op {
        Op::Absorb(n) => {
            out.push(65u8);
            push_decimal(out, n);
        },
        Op::Squeeze(n) => {
            out.push(83u8);
            push_decimal(out, n);
        },
        Op::Ratchet => {
            out.push(82u8);
        },
        Op::Hint => {
            out.push(72u8);
        },
    }
    assert(out@ =~= old(out)@ + encode_op(op));
    if label.len() > 0 {
        out.push(LABEL_BYTE);
        out.extend_from_slice(label);
    }
    assert(out@ =~= old(out)@ + encode_decl(Decl { op, label: label@ }));
}

/// Declares `op` after `ops`, merging it into the last operation where the two
/// are of one absorbing or squeezing kind.
fn push_merged(ops: &mut Vec<Op>, op: Op)
    requires
        !merge_overflows(old(ops)@, op),
    ensures
        final(ops)@ == merge_op(old(ops)@, op),
{
    let n: usize = ops.len();
    if n > 0 {
        let last: Op = ops[n - 1];
        match (last, op) {
            (Op::Absorb(a), Op::Absorb(b)) => {
                ops[n - 1] = Op::Absorb(a + b);
                assert(ops@ =~= merge_op(old(ops)@, op));
                return ;
            },
            (Op::Squeeze(a), Op::Squeeze(b)) => {
                ops[n - 1] = Op::Squeeze(a + b);
                assert(ops@ =~= merge_op(old(ops)@, op));
                return ;
            },
            _ => {},
        }
    }
    ops.push(op);
}

/// Whether declaring `op` after `ops` would bring a count over `usize::MAX`.
fn overflows(ops: &Vec<Op>, op: Op) -> (r: bool)
    ensures
        r == merge_overflows(ops@, op),
{
    let n: usize = ops.len();
    if n == 0 {
        return false;
    }
    match (ops[n - 1], op) {
        (Op::Absorb(a), Op::Absorb(b)) => a > usize::MAX - b,
        (Op::Squeeze(a), Op::Squeeze(b)) => a > usize::MAX - b,
        _ => false,
    }
}

/// The script of a protocol: a domain separator and the operations that the
/// protocol performs, in order, for sponges of type `H` over the units `U`.
pub struct IOPattern<H = DefaultHash, U = u8> {
    io: Vec<u8>,
    ops: Vec<Op>,
    domsep: Ghost<Seq<u8>>,
    decls: Ghost<Seq<Decl>>,
    _hash: PhantomData<(H, U)>,
}

impl<H, U> IOPattern<H, U> {
    #[verifier::type_invariant]
    spec fn well_formed(self) -> bool {
        &&& domsep_error(self.domsep@) is None
        &&& forall|i: int| 0 <= i < self.decls@.len() ==> !(#[trigger] self.decls@[i]).label.contains(SEP_BYTE)
        &&& self.io@ == encode_pattern(self.domsep@, self.decls@)
        &&& merge_fits(decl_ops(self.decls@))
        &&& self.ops@ == merged(decl_ops(self.decls@))
    }

    /// The domain separator.
    pub closed spec fn domsep(&self) -> Seq<u8> {
        self.domsep@
    }

    /// The operations in the order and under the labels of their declaration.
    pub closed spec fn decls(&self) -> Seq<Decl> {
        self.decls@
    }

    /// The operations that a sponge is held to: the declared ones, merged.
    pub closed spec fn ops(&self) -> Seq<Op> {
        self.ops@
    }

    /// Whether `r` is what declaring `op` under `label` in this pattern
    /// gives: the pattern with one more declaration, or what is wrong with it.
    pub open spec fn declares(&self, r: Result<Self, IOPatternError>, op: Op, label: Seq<u8>) -> bool {
        match r {
            Ok(p) => {
                &&& decl_error(self.ops(), op, label) is None
                &&& p.domsep() == self.domsep()
                &&& p.decls() == self.decls().push(Decl { op, label })
                &&& p.ops() == merge_op(self.ops(), op)
            },
            Err(e) => decl_error(self.ops(), op, label) == Some(e),
        }
    }

    /// A pattern with the domain separator `domsep` and no operation yet.
    /// The domain separator must not be empty, nor hold the separator byte.
    pub fn new(domsep: &str) -> (r: Result<Self, IOPatternError>)
        ensures
            match r {
                Ok(p) => {
                    &&& domsep_error(domsep.spec_bytes()) is None
                    &&& p.domsep() == domsep.spec_bytes()
                    &&& p.decls() == Seq::<Decl>::empty()
                    &&& p.ops() == Seq::<Op>::empty()
                },
                Err(e) => domsep_error(domsep.spec_bytes()) == Some(e),
            },
    {
        let bytes = domsep.as_bytes();
        if bytes.len() == 0 {
            return Err(IOPatternError::EmptyDomainSeparator);
        }
        if holds_byte(bytes, SEP_BYTE) {
            return Err(IOPatternError::SeparatorInDomainSeparator);
        }
        let mut io: Vec<u8> = Vec::new();
        io.extend_from_slice(bytes);
        proof {
            assert(decl_ops(Seq::<Decl>::empty()) =~= Seq::<Op>::empty());
            assert(io@ =~= encode_pattern(bytes@, Seq::<Decl>::empty()));
        }
        Ok(
            IOPattern {
                io,
                ops: Vec::new(),
                domsep: Ghost(bytes@),
                decls: Ghost(Seq::empty()),
                _hash: PhantomData,
            },
        )
    }

    /// Declares `op` under `label`, where nothing speaks against it.
    fn declare_valid(self, op: Op, label: &[u8]) -> (p: Self)
        requires
            decl_error(self.ops(), op, label@) is None,
        ensures
            p.domsep() == self.domsep(),
            p.decls() == self.decls().push(Decl { op, label: label@ }),
            p.ops() == merge_op(self.ops(), op),
    {
        proof {
            use_type_invariant(&self);
        }
        let ghost domsep = self.domsep@;
        let ghost decls = self.decls@;
        let ghost next = decls.push(Decl { op, label: label@ });
        let mut io = self.io;
        let mut ops = self.ops;
        io.push(SEP_BYTE);
        push_decl(&mut io, op, label);
        push_merged(&mut ops, op);
        proof {
            assert(next.drop_last() =~= decls);
            assert(decl_ops(next).drop_last() =~= decl_ops(decls));
            assert(io@ =~= encode_pattern(domsep, next));
        }
        IOPattern { io, ops, domsep: Ghost(domsep), decls: Ghost(next), _hash: PhantomData }
    }

    /// Declares `op` under `label`.
    fn declare(self, op: Op, label: &[u8]) -> (r: Result<Self, IOPatternError>)
        ensures
            self.declares(r, op, label@),
    {
        if holds_byte(label, SEP_BYTE) {
            return Err(IOPatternError::SeparatorInLabel);
        }
        if overflows(&self.ops, op) {
            return Err(IOPatternError::CountOverflow);
        }
        Ok(self.declare_valid(op, label))
    }

    /// Declares that `count` units are absorbed next. Where the last declared
    /// operation is an absorb too, the sponge is held to one absorb of the sum.
    pub fn absorb(self, count: usize, label: &str) -> (r: Result<Self, IOPatternError>)
        ensures
            self.declares(r, Op::Absorb(count), label.spec_bytes()),
    {
        self.declare(Op::Absorb(count), label.as_bytes())
    }

    /// Declares that `count` units are squeezed next. Where the last declared
    /// operation is a squeeze too, the sponge is held to one squeeze of the sum.
    pub fn squeeze(self, count: usize, label: &str) -> (r: Result<Self, IOPatternError>)
        ensures
            self.declares(r, Op::Squeeze(count), label.spec_bytes()),
    {
        self.declare(Op::Squeeze(count), label.as_bytes())
    }

    /// Declares a ratchet. It never merges and has no label.
    pub fn ratchet(self) -> (p: Self)
        ensures
            p.domsep() == self.domsep(),
            p.decls() == self.decls().push(Decl { op: Op::Ratchet, label: Seq::empty() }),
            p.ops() == self.ops().push(Op::Ratchet),
    {
        let label: [u8; 0] = [];
        let slice = label.as_slice();
        assert(slice@ =~= Seq::<u8>::empty());
        self.declare_valid(Op::Ratchet, slice)
    }

    /// Declares a hint. It never merges, and fails only where the label holds
    /// the separator byte.
    pub fn hint(self, label: &str) -> (r: Result<Self, IOPatternError>)
        ensures
            self.declares(r, Op::Hint, label.spec_bytes()),
    {
        self.declare(Op::Hint, label.as_bytes())
    }

    /// Whether `r` is what declaring an operation of the kind of `op` for
    /// `count` objects of `size` units each gives: a count that does not fit in
    /// `usize` is an error, and so is what is wrong with the declaration.
    pub open spec fn declares_each(
        &self,
        r: Result<Self, IOPatternError>,
        op: Op,
        count: usize,
        size: usize,
        label: Seq<u8>,
    ) -> bool {
        if count * size > usize::MAX {
            r matches Err(e) && e == IOPatternError::CountOverflow
        } else {
            self.declares(r, with_count(op, (count * size) as nat), label)
        }
    }

    /// Declares that `count` objects of `size` units each are absorbed next.
    pub fn absorb_each(self, count: usize, size: usize, label: &str) -> (r: Result<
        Self,
        IOPatternError,
    >)
        ensures
            self.declares_each(r, Op::Absorb(0), count, size, label.spec_bytes()),
    {
        match count.checked_mul(size) {
            Some(units) => self.absorb(units, label),
            None => Err(IOPatternError::CountOverflow),
        }
    }

    /// Declares that as many units are squeezed next as `count` objects of
    /// `size` units each take.
    pub fn squeeze_each(self, count: usize, size: usize, label: &str) -> (r: Result<
        Self,
        IOPatternError,
    >)
        ensures
            self.declares_each(r, Op::Squeeze(0), count, size, label.spec_bytes()),
    {
        match count.checked_mul(size) {
            Some(units) => self.squeeze(units, label),
            None => Err(IOPatternError::CountOverflow),
        }
    }

    /// The byte string of the pattern, which every sponge made from it absorbs
    /// first.
    pub fn as_bytes(&self) -> (bytes: &[u8])
        ensures
            bytes@ == encode_pattern(self.domsep(), self.decls()),
    {
        proof {
            use_type_invariant(self);
        }
        self.io.as_slice()
    }

    /// The operations that a sponge is held to, in order: the declared
    /// operations with each run of absorbs, and each run of squeezes, merged
    /// into one.
    pub fn finalize(&self) -> (stack: VecDeque<Op>)
        ensures
            stack@ == self.ops(),
            self.ops() == merged(decl_ops(self.decls())),
            merge_fits(decl_ops(self.decls())),
    {
        proof {
            use_type_invariant(self);
        }
        let n: usize = self.ops.len();
        let mut stack: VecDeque<Op> = VecDeque::new();
        let mut i: usize = 0;
        while i < n
            invariant
                n == self.ops@.len(),
                i <= n,
                stack@ == self.ops@.subrange(0, i as int),
            decreases n - i,
        {
            stack.push_back(self.ops[i]);
            i += 1;
            assert(stack@ =~= self.ops@.subrange(0, i as int));
        }
        assert(stack@ =~= self.ops@);
        stack
    }
}

impl<H> IOPattern<H, u8> {
    /// Declares that `count` bytes are absorbed next.
    pub fn add_bytes(self, count: usize, label: &str) -> (r: Result<Self, IOPatternError>)
        ensures
            self.declares(r, Op::Absorb(count), label.spec_bytes()),
    {
        self.absorb(count, label)
    }

    /// Declares that `count` bytes are squeezed next.
    pub fn challenge_bytes(self, count: usize, label: &str) -> (r: Result<Self, IOPatternError>)
        ensures
            self.declares(r, Op::Squeeze(count), label.spec_bytes()),
    {
        self.squeeze(count, label)
    }
}

} // verus!
