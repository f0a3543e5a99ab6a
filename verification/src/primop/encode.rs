//! Concrete values as SMT expressions.

use vstd::arithmetic::div_mod::*;
use vstd::arithmetic::power2::*;
use vstd::prelude::*;

use crate::bits::{lemma_pow2_127, pattern_of_i128, B64};
use crate::smt::{bin, BinOp, Exp, SExp, Solver};
use crate::val::{ExecError, Val};

use super::{fresh_def, symbolic_binary};

verus! {

/// The two's complement pattern of `x` in `n` bits.
pub open spec fn twos(x: int, n: nat) -> nat {
    if x < 0 {
        (x + pow2(n)) as nat
    } else {
        x as nat
    }
}

/// The `n` low bits of `p`, least significant first.
pub open spec fn bits_of(p: nat, n: nat) -> Seq<bool> {
    Seq::new(n, |k: int| (p / pow2(k as nat)) % 2 == 1)
}

/// A 128-bit integer as an SMT bitvector literal.
pub open spec fn sexp_i128(i: i128) -> SExp {
    SExp::Bits(bits_of(twos(i as int, 128), 128))
}

/// A 64-bit integer as an SMT bitvector literal.
pub open spec fn sexp_i64(i: i64) -> SExp {
    SExp::Bits(bits_of(twos(i as int, 64), 64))
}

/// A concrete bitvector as an SMT bitvector literal.
pub open spec fn sexp_bits(b: B64) -> SExp {
    SExp::Bits64(b.value() as u64, b.width() as u32)
}

/// The SMT form of a value of a base type.
pub open spec fn sexp_of_val(v: Val) -> Option<SExp> {
    match v {
        Val::I128(n) => Some(sexp_i128(n)),
        Val::I64(n) => Some(sexp_i64(n)),
        Val::Bits(b) => Some(sexp_bits(b)),
        Val::Bool(b) => Some(SExp::Bool(b)),
        Val::Enum(e) => Some(SExp::Enum(e)),
        Val::Symbolic(v) => Some(SExp::Var(v)),
        _ => None,
    }
}

/// The `n` low bits of `x`, least significant first.
fn low_bits(x: u128, n: u32) -> (r: Vec<bool>)
    ensures
        r@ == bits_of(x as nat, n as nat),
{
    let mut v: Vec<bool> = Vec::new();
    let mut cur = x;
    let mut k: u32 = 0;
    proof {
        lemma2_to64();
    }
    while k < n
        invariant
            k <= n,
            cur == x as nat / pow2(k as nat),
            v@ =~= bits_of(x as nat, k as nat),
        decreases n - k,
    {
        v.push(cur % 2 == 1);
        proof {
            lemma_pow2_pos(k as nat);
            lemma_pow2_unfold((k + 1) as nat);
            lemma_div_denominator(x as int, pow2(k as nat) as int, 2);
            assert(v@ =~= bits_of(x as nat, (k + 1) as nat));
        }
        cur = cur / 2;
        k = k + 1;
    }
    v
}

/// A 128-bit integer as an SMT bitvector literal.
pub fn smt_i128(i: i128) -> (r: Exp)
    ensures
        r@ == sexp_i128(i),
{
    proof {
        lemma_pow2_127();
    }
    let p = pattern_of_i128(i);
    Exp::Bits(low_bits(p, 128))
}

/// A 64-bit integer as an SMT bitvector literal.
pub fn smt_i64(i: i64) -> (r: Exp)
    ensures
        r@ == sexp_i64(i),
{
    proof {
        lemma2_to64_rest();
    }
    let p: u128 = if i < 0 {
        ((i as i128) + 0x1_0000_0000_0000_0000) as u128
    } else {
        i as u128
    };
    Exp::Bits(low_bits(p, 64))
}

/// An 8-bit unsigned integer as an SMT bitvector literal.
pub fn smt_u8(i: u8) -> (r: Exp)
    ensures
        r@ == SExp::Bits(bits_of(i as nat, 8)),
{
    Exp::Bits(low_bits(i as u128, 8))
}

/// A bitvector of `len` bits whose `mask_width` low bits are set.
pub fn smt_mask_lower(len: usize, mask_width: usize) -> (r: Exp)
    requires
        mask_width <= len,
    ensures
        r@ == SExp::Bits(Seq::new(len as nat, |i: int| i < mask_width)),
{
    let mut v: Vec<bool> = Vec::new();
    let mut i: usize = 0;
    while i < len
        invariant
            i <= len,
            mask_width <= len,
            v@ =~= Seq::new(i as nat, |k: int| k < mask_width),
        decreases len - i,
    {
        v.push(i < mask_width);
        i = i + 1;
    }
    Exp::Bits(v)
}

/// `n` copies of `b` as a bitvector literal.
fn constant_bits(b: bool, n: usize) -> (r: Vec<bool>)
    ensures
        r@ == Seq::new(n as nat, |k: int| b),
{
    let mut v: Vec<bool> = Vec::new();
    let mut i: usize = 0;
    while i < n
        invariant
            i <= n,
            v@ =~= Seq::new(i as nat, |k: int| b),
        decreases n - i,
    {
        v.push(b);
        i = i + 1;
    }
    v
}

/// A bitvector literal of `i` zero bits.
pub fn smt_zeros(i: i128) -> (r: Exp)
    requires
        0 <= i <= usize::MAX,
    ensures
        r@ == SExp::Bits(Seq::new(i as nat, |k: int| false)),
{
    Exp::Bits(constant_bits(false, i as usize))
}

/// A bitvector literal of `i` one bits.
pub fn smt_ones(i: i128) -> (r: Exp)
    requires
        0 <= i <= usize::MAX,
    ensures
        r@ == SExp::Bits(Seq::new(i as nat, |k: int| true)),
{
    Exp::Bits(constant_bits(true, i as usize))
}

/// A concrete bitvector as an SMT literal.
pub fn smt_sbits(bv: B64) -> (r: Exp)
    ensures
        r@ == sexp_bits(bv),
{
    Exp::Bits64(bv.bits(), bv.len())
}

/// The SMT form of a value of a base type: an integer, a bitvector, a
/// boolean, an enumeration member or a symbol.
pub fn smt_value(v: &Val) -> (r: Result<Exp, ExecError>)
    ensures
        r is Ok <==> sexp_of_val(*v) is Some,
        r matches Ok(e) ==> sexp_of_val(*v) == Some(e@),
        r matches Err(err) ==> err == ExecError::Type("smt_value"),
{
    match v {
        Val::I128(n) => Ok(smt_i128(*n)),
        Val::I64(n) => Ok(smt_i64(*n)),
        Val::Bits(bv) => Ok(smt_sbits(*bv)),
        Val::Bool(b) => Ok(Exp::Bool(*b)),
        Val::Enum(e) => Ok(Exp::Enum(*e)),
        Val::Symbolic(s) => Ok(Exp::Var(*s)),
        _ => Err(ExecError::Type("smt_value")),
    }
}

/// An operand of 128-bit integer sort as an SMT expression.
pub open spec fn lift_i128(v: Val) -> Option<SExp> {
    match v {
        Val::Symbolic(s) => Some(SExp::Var(s)),
        Val::I128(n) => Some(sexp_i128(n)),
        _ => None,
    }
}

/// An operand of 64-bit integer sort as an SMT expression.
pub open spec fn lift_i64(v: Val) -> Option<SExp> {
    match v {
        Val::Symbolic(s) => Some(SExp::Var(s)),
        Val::I64(n) => Some(sexp_i64(n)),
        _ => None,
    }
}

/// An operand of bitvector sort as an SMT expression.
pub open spec fn lift_bits(v: Val) -> Option<SExp> {
    match v {
        Val::Symbolic(s) => Some(SExp::Var(s)),
        Val::Bits(b) => Some(sexp_bits(b)),
        _ => None,
    }
}

/// The SMT form of an optional expression.
pub open spec fn opt_sexp(o: Option<Exp>) -> Option<SExp> {
    match o {
        Some(e) => Some(e@),
        None => None,
    }
}

/// The SMT form of a 128-bit integer operand, where it has one.
pub fn i128_exp(v: &Val) -> (r: Option<Exp>)
    ensures
        opt_sexp(r) == lift_i128(*v),
{
    match v {
        Val::Symbolic(s) => Some(Exp::Var(*s)),
        Val::I128(n) => Some(smt_i128(*n)),
        _ => None,
    }
}

/// The SMT form of a 64-bit integer operand, where it has one.
pub fn i64_exp(v: &Val) -> (r: Option<Exp>)
    ensures
        opt_sexp(r) == lift_i64(*v),
{
    match v {
        Val::Symbolic(s) => Some(Exp::Var(*s)),
        Val::I64(n) => Some(smt_i64(*n)),
        _ => None,
    }
}

/// The SMT form of a bitvector operand, where it has one.
pub fn bits_exp(v: &Val) -> (r: Option<Exp>)
    ensures
        opt_sexp(r) == lift_bits(*v),
{
    match v {
        Val::Symbolic(s) => Some(Exp::Var(*s)),
        Val::Bits(b) => Some(smt_sbits(*b)),
        _ => None,
    }
}

/// Defines a fresh variable as `op` applied to two operand expressions;
/// fails with `err` where either is missing.
pub fn binary_lifted(lx: Option<Exp>, ly: Option<Exp>, op: BinOp, err: ExecError, solver: &mut Solver) -> (r:
    Result<Val, ExecError>)
    requires
        old(solver).room(1),
    ensures
        symbolic_binary(*old(solver), *final(solver), r, opt_sexp(lx), opt_sexp(ly), op, err),
{
    match (lx, ly) {
        (Some(a), Some(b)) => Ok(Val::Symbolic(solver.define_const(Exp::binary(op, a, b)))),
        _ => Err(err),
    }
}

} // verus!
