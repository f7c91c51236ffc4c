//! The byte string of an IO pattern is canonical: it tells the domain
//! separator and every declared operation with its label.

use crate::iopattern::{
    decimal, domsep_error, encode_decl, encode_decls, encode_label, encode_op, encode_pattern,
    Decl, Op, SEP_BYTE,
};
use vstd::prelude::*;

verus! {

/// Whether `b` is a decimal digit in ASCII.
pub open spec fn is_digit(b: u8) -> bool {
    48 <= b <= 57
}

/// Whether every byte of `bytes` is a decimal digit.
pub open spec fn all_digits(bytes: Seq<u8>) -> bool {
    forall|i: int| 0 <= i < bytes.len() ==> is_digit(#[trigger] bytes[i])
}

/// The integer that the decimal digits `digits` stand for.
pub open spec fn digits_value(digits: Seq<u8>) -> nat
    decreases digits.len(),
{
    if digits.len() == 0 {
        0
    } else {
        digits_value(digits.drop_last()) * 10 + (digits.last() - 48) as nat
    }
}

/// The decimal digits of an integer are digits, at least one, and stand for
/// the integer.
pub proof fn lemma_decimal(n: nat)
    ensures
        decimal(n).len() >= 1,
        all_digits(decimal(n)),
        digits_value(decimal(n)) == n,
    decreases n,
{
    if n < 10 {
        assert(decimal(n).drop_last() =~= Seq::<u8>::empty());
        assert(digits_value(decimal(n).drop_last()) == 0);
    } else {
        lemma_decimal(n / 10);
        assert(decimal(n).drop_last() =~= decimal(n / 10));
    }
}

/// Whether none of the declarations has the separator byte in its label.
pub open spec fn labels_valid(decls: Seq<Decl>) -> bool {
    forall|i: int| 0 <= i < decls.len() ==> !(#[trigger] decls[i]).label.contains(SEP_BYTE)
}

/// Two runs of digits, each followed by nothing or by something that does not
/// start with a digit, are equal where the whole strings are equal, and so is
/// what follows them.
proof fn lemma_digits_split(d1: Seq<u8>, t1: Seq<u8>, d2: Seq<u8>, t2: Seq<u8>)
    requires
        all_digits(d1),
        all_digits(d2),
        t1.len() > 0 ==> !is_digit(t1[0]),
        t2.len() > 0 ==> !is_digit(t2[0]),
        d1 + t1 == d2 + t2,
    ensures
        d1 == d2,
        t1 == t2,
{
    let whole = d1 + t1;
    if d1.len() < d2.len() {
        assert(whole[d1.len() as int] == t1[0]);
        assert((d2 + t2)[d1.len() as int] == d2[d1.len() as int]);
    } else if d2.len() < d1.len() {
        assert((d2 + t2)[d2.len() as int] == t2[0]);
        assert(whole[d2.len() as int] == d1[d2.len() as int]);
    }
    assert(d1 =~= whole.subrange(0, d1.len() as int));
    assert(d2 =~= (d2 + t2).subrange(0, d2.len() as int));
    assert(t1 =~= whole.subrange(d1.len() as int, whole.len() as int));
    assert(t2 =~= (d2 + t2).subrange(d2.len() as int, whole.len() as int));
}

/// The bytes that a label adds tell the label.
proof fn lemma_label_injective(l1: Seq<u8>, l2: Seq<u8>)
    requires
        encode_label(l1) == encode_label(l2),
    ensures
        l1 == l2,
{
    if l1.len() == 0 || l2.len() == 0 {
        assert(encode_label(l1).len() == encode_label(l2).len());
        assert(l1 =~= l2);
    } else {
        assert(l1 =~= encode_label(l1).drop_first());
        assert(l2 =~= encode_label(l2).drop_first());
    }
}

/// The bytes of a declaration tell the operation and its label.
pub proof fn lemma_decl_injective(d1: Decl, d2: Decl)
    requires
        encode_decl(d1) == encode_decl(d2),
    ensures
        d1 == d2,
{
    let e1 = encode_decl(d1);
    let e2 = encode_decl(d2);
    assert(e1[0] == encode_op(d1.op)[0]);
    assert(e2[0] == encode_op(d2.op)[0]);
    let n1 = match d1.op {
        Op::Absorb(n) => n as nat,
        Op::Squeeze(n) => n as nat,
        _ => 0,
    };
    let n2 = match d2.op {
        Op::Absorb(n) => n as nat,
        Op::Squeeze(n) => n as nat,
        _ => 0,
    };
    lemma_decimal(n1);
    lemma_decimal(n2);
    let counted = d1.op is Absorb || d1.op is Squeeze;
    let digits1 = if counted {
        decimal(n1)
    } else {
        Seq::<u8>::empty()
    };
    let digits2 = if counted {
        decimal(n2)
    } else {
        Seq::<u8>::empty()
    };
    assert(e1.drop_first() =~= digits1 + encode_label(d1.label));
    assert(e2.drop_first() =~= digits2 + encode_label(d2.label));
    lemma_digits_split(digits1, encode_label(d1.label), digits2, encode_label(d2.label));
    lemma_label_injective(d1.label, d2.label);
}

/// The bytes of a declaration whose label is free of the separator byte are
/// free of it, and there is at least one.
pub proof fn lemma_decl_has_no_separator(d: Decl)
    requires
        !d.label.contains(SEP_BYTE),
    ensures
        !encode_decl(d).contains(SEP_BYTE),
        encode_decl(d).len() >= 1,
{
    let e = encode_decl(d);
    match d.op {
        Op::Absorb(n) => lemma_decimal(n as nat),
        Op::Squeeze(n) => lemma_decimal(n as nat),
        _ => {},
    }
    assert forall|i: int| 0 <= i < e.len() implies e[i] != SEP_BYTE by {
        let head = encode_op(d.op);
        if i < head.len() {
            assert(e[i] == head[i]);
            if i > 0 {
                let n = match d.op {
                    Op::Absorb(n) => n as nat,
                    Op::Squeeze(n) => n as nat,
                    _ => 0,
                };
                assert(head[i] == decimal(n)[i - 1]);
                assert(is_digit(decimal(n)[i - 1]));
            }
        } else {
            let tail = encode_label(d.label);
            assert(e[i] == tail[i - head.len()]);
            if i - head.len() > 0 {
                assert(tail[i - head.len()] == d.label[i - head.len() - 1]);
                assert(d.label.contains(d.label[i - head.len() - 1]));
            }
        }
    }
}

/// The bytes of the declarations tell the declarations.
pub proof fn lemma_decls_injective(decls1: Seq<Decl>, decls2: Seq<Decl>)
    requires
        labels_valid(decls1),
        labels_valid(decls2),
        encode_decls(decls1) == encode_decls(decls2),
    ensures
        decls1 == decls2,
    decreases decls1.len(),
{
    if decls1.len() == 0 || decls2.len() == 0 {
        assert(encode_decls(decls1).len() == encode_decls(decls2).len());
        assert(decls1 =~= decls2);
    } else {
        let whole = encode_decls(decls1);
        let a1 = encode_decls(decls1.drop_last());
        let a2 = encode_decls(decls2.drop_last());
        let e1 = encode_decl(decls1.last());
        let e2 = encode_decl(decls2.last());
        lemma_decl_has_no_separator(decls1.last());
        lemma_decl_has_no_separator(decls2.last());
        assert(whole == a1 + seq![SEP_BYTE] + e1);
        assert(whole == a2 + seq![SEP_BYTE] + e2);
        if e1.len() < e2.len() {
            let at = whole.len() - e1.len() - 1;
            assert((a1 + seq![SEP_BYTE] + e1)[at] == SEP_BYTE);
            assert((a2 + seq![SEP_BYTE] + e2)[at] == e2[at - a2.len() - 1]);
            assert(e2.contains(e2[at - a2.len() - 1]));
        } else if e2.len() < e1.len() {
            let at = whole.len() - e2.len() - 1;
            assert((a2 + seq![SEP_BYTE] + e2)[at] == SEP_BYTE);
            assert((a1 + seq![SEP_BYTE] + e1)[at] == e1[at - a1.len() - 1]);
            assert(e1.contains(e1[at - a1.len() - 1]));
        }
        assert(e1 =~= whole.subrange(whole.len() - e1.len(), whole.len() as int));
        assert(e2 =~= whole.subrange(whole.len() - e2.len(), whole.len() as int));
        assert(a1 =~= whole.subrange(0, a1.len() as int));
        assert(a2 =~= whole.subrange(0, a2.len() as int));
        lemma_decl_injective(decls1.last(), decls2.last());
        lemma_decls_injective(decls1.drop_last(), decls2.drop_last());
        assert(decls1 =~= decls1.drop_last().push(decls1.last()));
        assert(decls2 =~= decls2.drop_last().push(decls2.last()));
    }
}

/// The bytes of the declarations are none, or start with the separator byte.
proof fn lemma_decls_start_with_separator(decls: Seq<Decl>)
    ensures
        decls.len() == 0 ==> encode_decls(decls).len() == 0,
        decls.len() > 0 ==> encode_decls(decls).len() > 0 && encode_decls(decls)[0] == SEP_BYTE,
    decreases decls.len(),
{
    if decls.len() > 0 {
        lemma_decls_start_with_separator(decls.drop_last());
    }
}

/// The byte string of a pattern tells the pattern.
///
/// Let two patterns have domain separators that are free of the separator
/// byte, and labels that are free of it. Where their byte strings are equal,
/// so are their domain separators and their declarations, labels included:
/// patterns that differ in anything are told apart by the sponge.
pub proof fn lemma_pattern_injective(
    domsep1: Seq<u8>,
    decls1: Seq<Decl>,
    domsep2: Seq<u8>,
    decls2: Seq<Decl>,
)
    requires
        domsep_error(domsep1) is None,
        domsep_error(domsep2) is None,
        labels_valid(decls1),
        labels_valid(decls2),
        encode_pattern(domsep1, decls1) == encode_pattern(domsep2, decls2),
    ensures
        domsep1 == domsep2,
        decls1 == decls2,
{
    let whole = encode_pattern(domsep1, decls1);
    let t1 = encode_decls(decls1);
    let t2 = encode_decls(decls2);
    lemma_decls_start_with_separator(decls1);
    lemma_decls_start_with_separator(decls2);
    if domsep1.len() < domsep2.len() {
        let at = domsep1.len() as int;
        assert((domsep2 + t2)[at] == domsep2[at]);
        assert(domsep2.contains(domsep2[at]));
        assert(whole[at] == t1[0]);
    } else if domsep2.len() < domsep1.len() {
        let at = domsep2.len() as int;
        assert(whole[at] == domsep1[at]);
        assert(domsep1.contains(domsep1[at]));
        assert((domsep2 + t2)[at] == t2[0]);
    }
    assert(domsep1 =~= whole.subrange(0, domsep1.len() as int));
    assert(domsep2 =~= whole.subrange(0, domsep2.len() as int));
    assert(t1 =~= whole.subrange(domsep1.len() as int, whole.len() as int));
    assert(t2 =~= whole.subrange(domsep2.len() as int, whole.len() as int));
    lemma_decls_injective(decls1, decls2);
}

} // verus!
