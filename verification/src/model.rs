//! The meaning of SMT expressions: the value an expression takes when each
//! variable is given a value, following the SMT-LIB theories of booleans and
//! fixed-size bitvectors.

use vstd::arithmetic::div_mod::*;
use vstd::arithmetic::power2::*;
use vstd::prelude::*;

use crate::primop::encode::bits_of;
use crate::smt::{BinOp, SExp, Sym, Ty, UnOp};
use crate::val::EnumMember;

verus! {

/// The value of an SMT expression: a boolean, a bitvector given by its bits
/// (least significant first), or an enumeration member.
pub enum Value {
    Bool(bool),
    Bits(Seq<bool>),
    Enum(EnumMember),
}

/// The number whose binary digits, least significant first, are `bs`.
pub open spec fn nat_of(bs: Seq<bool>) -> nat
    decreases bs.len(),
{
    if bs.len() == 0 {
        0
    } else {
        nat_of(bs.drop_last()) + if bs.last() {
            pow2((bs.len() - 1) as nat)
        } else {
            0
        }
    }
}

/// The two's complement number whose bits are `bs`.
pub open spec fn int_of(bs: Seq<bool>) -> int {
    if bs.len() > 0 && bs.last() {
        nat_of(bs) - pow2(bs.len())
    } else {
        nat_of(bs) as int
    }
}

/// The `w` bits of the integer `x` modulo `2^w`.
pub open spec fn wrap_bits(x: int, w: nat) -> Seq<bool> {
    bits_of((x % (pow2(w) as int)) as nat, w)
}

/// The quotient of `a` by `b != 0`, rounded toward zero.
pub open spec fn trunc_div(a: int, b: int) -> int {
    let q = (if a < 0 { -a } else { a }) / (if b < 0 { -b } else { b });
    if (a < 0) != (b < 0) {
        -q
    } else {
        q
    }
}

/// The value of a unary operation.
pub open spec fn un_value(op: UnOp, x: Value) -> Option<Value> {
    match (op, x) {
        (UnOp::Not, Value::Bool(b)) => Some(Value::Bool(!b)),
        (UnOp::Bvnot, Value::Bits(a)) => Some(Value::Bits(Seq::new(a.len(), |i: int| !a[i]))),
        (UnOp::Bvneg, Value::Bits(a)) => Some(Value::Bits(wrap_bits(-(nat_of(a) as int), a.len()))),
        _ => None,
    }
}

/// The value of a bitvector operation on two operands of the same width `w`.
pub open spec fn bv_value(op: BinOp, a: Seq<bool>, b: Seq<bool>) -> Option<Value> {
    let w = a.len();
    let x = nat_of(a) as int;
    let y = nat_of(b) as int;
    let sx = int_of(a);
    let sy = int_of(b);
    match op {
        BinOp::Eq => Some(Value::Bool(a == b)),
        BinOp::Neq => Some(Value::Bool(a != b)),
        BinOp::Bvand => Some(Value::Bits(Seq::new(w, |i: int| a[i] && b[i]))),
        BinOp::Bvor => Some(Value::Bits(Seq::new(w, |i: int| a[i] || b[i]))),
        BinOp::Bvxor => Some(Value::Bits(Seq::new(w, |i: int| a[i] != b[i]))),
        BinOp::Bvadd => Some(Value::Bits(wrap_bits(x + y, w))),
        BinOp::Bvsub => Some(Value::Bits(wrap_bits(x - y, w))),
        BinOp::Bvmul => Some(Value::Bits(wrap_bits(x * y, w))),
        BinOp::Bvudiv => Some(
            Value::Bits(
                if y == 0 {
                    Seq::new(w, |i: int| true)
                } else {
                    wrap_bits(x / y, w)
                },
            ),
        ),
        BinOp::Bvsdiv => Some(
            Value::Bits(
                if sy == 0 {
                    wrap_bits(if sx < 0 { 1 } else { -1 }, w)
                } else {
                    wrap_bits(trunc_div(sx, sy), w)
                },
            ),
        ),
        BinOp::Bvsmod => Some(
            Value::Bits(
                if sy == 0 {
                    a
                } else {
                    let r = sx - sy * trunc_div(sx, sy);
                    wrap_bits(if r != 0 && (r < 0) != (sy < 0) { r + sy } else { r }, w)
                },
            ),
        ),
        BinOp::Bvshl => Some(Value::Bits(Seq::new(w, |i: int| i >= y && a[i - y]))),
        BinOp::Bvlshr => Some(Value::Bits(Seq::new(w, |i: int| i + y < w && a[i + y]))),
        BinOp::Bvashr => Some(
            Value::Bits(
                Seq::new(
                    w,
                    |i: int|
                        if i + y < w {
                            a[i + y]
                        } else {
                            a[w - 1]
                        },
                ),
            ),
        ),
        BinOp::Bvslt => Some(Value::Bool(sx < sy)),
        BinOp::Bvsgt => Some(Value::Bool(sx > sy)),
        BinOp::Bvsle => Some(Value::Bool(sx <= sy)),
        BinOp::Bvsge => Some(Value::Bool(sx >= sy)),
        BinOp::Concat => Some(Value::Bits(b + a)),
        _ => None,
    }
}

/// The value of a binary operation; `None` where the operands are not of
/// the sorts it takes.
pub open spec fn bin_value(op: BinOp, x: Value, y: Value) -> Option<Value> {
    match (x, y) {
        (Value::Bool(a), Value::Bool(b)) => match op {
            BinOp::Eq => Some(Value::Bool(a == b)),
            BinOp::Neq => Some(Value::Bool(a != b)),
            BinOp::And => Some(Value::Bool(a && b)),
            BinOp::Or => Some(Value::Bool(a || b)),
            _ => None,
        },
        (Value::Enum(a), Value::Enum(b)) => if a.enum_id != b.enum_id {
            None
        } else {
            match op {
                BinOp::Eq => Some(Value::Bool(a == b)),
                BinOp::Neq => Some(Value::Bool(a != b)),
                _ => None,
            }
        },
        (Value::Bits(a), Value::Bits(b)) => if op is Concat {
            bv_value(op, a, b)
        } else if a.len() == b.len() {
            bv_value(op, a, b)
        } else {
            None
        },
        _ => None,
    }
}

/// The value of `e` where each variable `v` has the value `m(v)`; `None`
/// where `e` is ill-sorted.
pub open spec fn eval(m: spec_fn(Sym) -> Value, e: SExp) -> Option<Value>
    decreases e,
{
    match e {
        SExp::Var(v) => Some(m(v)),
        SExp::Bits(bs) => Some(Value::Bits(bs)),
        SExp::Bits64(x, n) => Some(Value::Bits(bits_of(x as nat, n as nat))),
        SExp::Enum(x) => Some(Value::Enum(x)),
        SExp::Bool(b) => Some(Value::Bool(b)),
        SExp::Un(op, a) => match eval(m, *a) {
            Some(x) => un_value(op, x),
            None => None,
        },
        SExp::Bin(op, a, b) => match (eval(m, *a), eval(m, *b)) {
            (Some(x), Some(y)) => bin_value(op, x, y),
            _ => None,
        },
        SExp::Extract(hi, lo, a) => match eval(m, *a) {
            Some(Value::Bits(x)) => if lo <= hi < x.len() {
                Some(Value::Bits(x.subrange(lo as int, hi + 1)))
            } else {
                None
            },
            _ => None,
        },
        SExp::ZeroExtend(n, a) => match eval(m, *a) {
            Some(Value::Bits(x)) => Some(Value::Bits(x + Seq::new(n as nat, |i: int| false))),
            _ => None,
        },
        SExp::SignExtend(n, a) => match eval(m, *a) {
            Some(Value::Bits(x)) => if x.len() > 0 {
                Some(Value::Bits(x + Seq::new(n as nat, |i: int| x.last())))
            } else {
                None
            },
            _ => None,
        },
        SExp::Ite(c, a, b) => match eval(m, *c) {
            Some(Value::Bool(true)) => eval(m, *a),
            Some(Value::Bool(false)) => eval(m, *b),
            _ => None,
        },
    }
}

/// A value of sort `ty`.
pub open spec fn has_sort(x: Value, ty: Ty) -> bool {
    match (x, ty) {
        (Value::Bool(_), Ty::Bool) => true,
        (Value::Bits(bs), Ty::BitVec(w)) => bs.len() == w,
        (Value::Enum(e), Ty::Enum(id)) => e.enum_id == id,
        _ => false,
    }
}

/// `m` gives each declared variable a value of its sort.
pub open spec fn fits(m: spec_fn(Sym) -> Value, decls: Seq<Option<Ty>>) -> bool {
    forall|i: int|
        0 <= i < decls.len() ==> (#[trigger] decls[i] matches Some(ty) ==> has_sort(m(Sym { id: i as u32 }), ty))
}

/// The bits of `x`, a value that is a bitvector.
pub open spec fn bits_value(x: Option<Value>) -> Seq<bool> {
    match x {
        Some(Value::Bits(bs)) => bs,
        _ => Seq::empty(),
    }
}

/// Dropping the last bit drops its place value.
pub proof fn lemma_nat_of_bound(bs: Seq<bool>)
    ensures
        nat_of(bs) < pow2(bs.len()),
    decreases bs.len(),
{
    if bs.len() > 0 {
        lemma_nat_of_bound(bs.drop_last());
        lemma_pow2_adds((bs.len() - 1) as nat, 1);
        lemma2_to64();
    } else {
        lemma2_to64();
    }
}

/// The value of two runs of bits, the second above the first.
pub proof fn lemma_nat_of_append(a: Seq<bool>, b: Seq<bool>)
    ensures
        nat_of(a + b) == nat_of(a) + pow2(a.len()) * nat_of(b),
    decreases b.len(),
{
    if b.len() == 0 {
        assert(a + b =~= a);
        assert(nat_of(b) == 0);
        assert(pow2(a.len()) * nat_of(b) == 0) by (nonlinear_arith)
            requires
                nat_of(b) == 0,
        ;
    } else {
        let c = a + b;
        let b1 = b.drop_last();
        assert(c.drop_last() =~= a + b1);
        assert(c.last() == b.last());
        lemma_nat_of_append(a, b1);
        lemma_pow2_adds(a.len(), b1.len());
        assert(c.len() - 1 == a.len() + b1.len());
        let pa = pow2(a.len()) as int;
        let pb = pow2(b1.len()) as int;
        let t = if b.last() { pb } else { 0 };
        assert(nat_of(c) == nat_of(a + b1) + if c.last() { pa * pb } else { 0 });
        assert(nat_of(b) == nat_of(b1) + t);
        assert(pa * nat_of(b1) + (if b.last() { pa * pb } else { 0 }) == pa * (nat_of(b1) + t)) by (nonlinear_arith)
            requires
                t == if b.last() { pb } else { 0 },
        ;
    }
}

/// Bits that are all zero have value zero.
pub proof fn lemma_nat_of_zeros(n: nat)
    ensures
        nat_of(Seq::new(n, |i: int| false)) == 0,
    decreases n,
{
    if n > 0 {
        assert(Seq::new(n, |i: int| false).drop_last() =~= Seq::new((n - 1) as nat, |i: int| false));
        lemma_nat_of_zeros((n - 1) as nat);
    }
}

/// The bits of a number are read back as the number modulo `2^n`.
pub proof fn lemma_nat_of_bits_of(p: nat, n: nat)
    ensures
        nat_of(bits_of(p, n)) == p % pow2(n),
    decreases n,
{
    lemma2_to64();
    if n == 0 {
        assert(bits_of(p, n) =~= Seq::<bool>::empty());
        assert(nat_of(Seq::<bool>::empty()) == 0);
        assert(pow2(0) == 1);
        assert(p % pow2(n) == 0);
    } else {
        let m = (n - 1) as nat;
        assert(bits_of(p, n).drop_last() =~= bits_of(p, m));
        lemma_nat_of_bits_of(p, m);
        let pm = pow2(m) as int;
        lemma_pow2_pos(m);
        lemma_pow2_adds(m, 1);
        let q = (p as int) / pm;
        lemma_fundamental_div_mod(p as int, pm);
        lemma_fundamental_div_mod(q, 2);
        lemma_mod_pos_bound(p as int, pm);
        lemma_mod_pos_bound(q, 2);
        let lo = (p as int) % pm;
        let hb = q % 2;
        let q2 = q / 2;
        assert(p == pm * 2 * q2 + (pm * hb + lo)) by (nonlinear_arith)
            requires
                p == pm * q + lo,
                q == 2 * q2 + hb,
        ;
        assert(0 <= pm * hb + lo < pm * 2) by (nonlinear_arith)
            requires
                0 <= lo < pm,
                0 <= hb < 2,
        ;
        lemma_fundamental_div_mod_converse(p as int, pm * 2, q2, pm * hb + lo);
        assert(pow2(n) == pm * 2);
        assert(bits_of(p, n).last() == (hb == 1));
        assert(nat_of(bits_of(p, n)) == lo + if hb == 1 { pm } else { 0 });
        assert((p as int) % (pm * 2) == pm * hb + lo);
        assert(pm * hb == if hb == 1 { pm } else { 0 }) by (nonlinear_arith)
            requires
                0 <= hb < 2,
        ;
        assert(nat_of(bits_of(p, n)) == pm * hb + lo);
    }
}

/// A bit sequence is the bits of its value.
pub proof fn lemma_bits_of_nat_of(bs: Seq<bool>)
    ensures
        bits_of(nat_of(bs), bs.len()) == bs,
{
    assert forall|k: int| 0 <= k < bs.len() implies bits_of(nat_of(bs), bs.len())[k] == bs[k] by {
        lemma_bit_of_nat_of(bs, k);
    }
    assert(bits_of(nat_of(bs), bs.len()) =~= bs);
}

/// Bit `k` of the value of `bs` is `bs[k]`.
pub proof fn lemma_bit_of_nat_of(bs: Seq<bool>, k: int)
    requires
        0 <= k < bs.len(),
    ensures
        (nat_of(bs) / pow2(k as nat)) % 2 == 1 <==> bs[k],
{
    let lo = bs.subrange(0, k);
    let hi = bs.subrange(k, bs.len() as int);
    let rest = hi.subrange(1, hi.len() as int);
    assert(bs =~= lo + hi);
    assert(hi =~= seq![bs[k]] + rest);
    lemma_nat_of_append(lo, hi);
    lemma_nat_of_append(seq![bs[k]], rest);
    lemma_nat_of_bound(lo);
    lemma2_to64();
    assert(nat_of(seq![bs[k]]) == if bs[k] { 1nat } else { 0nat }) by {
        assert(seq![bs[k]].drop_last() =~= Seq::<bool>::empty());
        assert(nat_of(Seq::<bool>::empty()) == 0);
    }
    let pk = pow2(k as nat) as int;
    lemma_pow2_pos(k as nat);
    let h = nat_of(hi) as int;
    let b = if bs[k] { 1int } else { 0int };
    assert(h == b + 2 * nat_of(rest));
    assert(lo.len() == k);
    assert(nat_of(bs) == nat_of(lo) + pk * h);
    assert(nat_of(bs) == h * pk + nat_of(lo)) by (nonlinear_arith)
        requires
            nat_of(bs) == nat_of(lo) + pk * h,
    ;
    lemma_fundamental_div_mod_converse(nat_of(bs) as int, pk, h, nat_of(lo) as int);
    lemma_mod_multiples_vanish(nat_of(rest) as int, b, 2);
}

/// The low `k` bits of `bs` are worth its value modulo `2^k`, and the bits
/// from `k` up its value divided by `2^k`.
pub proof fn lemma_nat_of_split(bs: Seq<bool>, k: int)
    requires
        0 <= k <= bs.len(),
    ensures
        nat_of(bs.subrange(0, k)) == nat_of(bs) % pow2(k as nat),
        nat_of(bs.subrange(k, bs.len() as int)) == nat_of(bs) / pow2(k as nat),
{
    let lo = bs.subrange(0, k);
    let hi = bs.subrange(k, bs.len() as int);
    assert(bs =~= lo + hi);
    lemma_nat_of_append(lo, hi);
    lemma_nat_of_bound(lo);
    lemma_pow2_pos(k as nat);
    assert(lo.len() == k);
    let pk = pow2(k as nat) as int;
    assert(nat_of(bs) == nat_of(hi) * pk + nat_of(lo)) by (nonlinear_arith)
        requires
            nat_of(bs) == nat_of(lo) + pk * nat_of(hi),
    ;
    lemma_fundamental_div_mod_converse(nat_of(bs) as int, pk, nat_of(hi) as int, nat_of(lo) as int);
}

} // verus!
