//! Integers: 64-bit machine integers and 128-bit Sail integers.

use vstd::arithmetic::power::pow;
use vstd::prelude::*;

use super::encode::{
    binary_lifted, i128_exp, i64_exp, lift_i128, lift_i64, sexp_i128, smt_i128,
};
use super::{fails, fresh_def, symbolic_binary, yields};
use crate::bits::{i128_of_pattern, p2, lemma_pow2_127};
use crate::smt::{bin, sexp, un, BinOp, Def, Exp, SExp, Solver, UnOp};
use crate::val::{ExecError, Val};

verus! {

/// What `i64_to_i128` gives.
pub open spec fn i64_to_i128_post(old: Solver, new: Solver, r: Result<Val, ExecError>, x: Val) -> bool {
    match x {
        Val::I64(n) => yields(old, new, r, Val::I128(n as i128)),
        Val::Symbolic(v) => fresh_def(
            old,
            new,
            r,
            SExp::SignExtend(64, Box::new(SExp::Var(v))),
        ),
        _ => fails(old, new, r, ExecError::Type("%i64->%i")),
    }
}

/// A 64-bit integer widened to 128 bits.
pub fn i64_to_i128(x: Val, solver: &mut Solver) -> (r: Result<Val, ExecError>)
    requires
        old(solver).room(1),
    ensures
        i64_to_i128_post(*old(solver), *final(solver), r, x),
{
    proof {
        reveal_with_fuel(sexp, 3);
    }
    match x {
        Val::I64(x) => Ok(Val::I128(x as i128)),
        Val::Symbolic(x) => Ok(
            Val::Symbolic(solver.define_const(Exp::SignExtend(64, Box::new(Exp::Var(x))))),
        ),
        _ => Err(ExecError::Type("%i64->%i")),
    }
}

/// What `i128_to_i64` gives.
pub open spec fn i128_to_i64_post(old: Solver, new: Solver, r: Result<Val, ExecError>, x: Val) -> bool {
    match x {
        Val::I128(n) => if i64::MIN <= n <= i64::MAX {
            yields(old, new, r, Val::I64(n as i64))
        } else {
            fails(old, new, r, ExecError::Overflow)
        },
        Val::Symbolic(v) => fresh_def(
            old,
            new,
            r,
            SExp::Extract(63, 0, Box::new(SExp::Var(v))),
        ),
        _ => fails(old, new, r, ExecError::Type("%i->%i64")),
    }
}

/// A 128-bit integer narrowed to 64 bits, where it fits.
pub fn i128_to_i64(x: Val, solver: &mut Solver) -> (r: Result<Val, ExecError>)
    requires
        old(solver).room(1),
    ensures
        i128_to_i64_post(*old(solver), *final(solver), r, x),
{
    proof {
        reveal_with_fuel(sexp, 3);
    }
    match x {
        Val::I128(x) => {
            if i64::MIN as i128 <= x && x <= i64::MAX as i128 {
                Ok(Val::I64(x as i64))
            } else {
                Err(ExecError::Overflow)
            }
        },
        Val::Symbolic(x) => Ok(
            Val::Symbolic(solver.define_const(Exp::Extract(63, 0, Box::new(Exp::Var(x))))),
        ),
        _ => Err(ExecError::Type("%i->%i64")),
    }
}

/// Signed comparison `<` of 64-bit integers.
pub fn op_lt(x: Val, y: Val, solver: &mut Solver) -> (r: Result<Val, ExecError>)
    requires
        old(solver).room(1),
    ensures
        match (x, y) {
            (Val::I64(a), Val::I64(b)) => yields(*old(solver), *final(solver), r, Val::Bool(a < b)),
            _ => symbolic_binary(*old(solver), *final(solver), r, lift_i64(x), lift_i64(y), BinOp::Bvslt, ExecError::Type("op_lt")),
        },
{
    match (&x, &y) {
        (Val::I64(a), Val::I64(b)) => Ok(Val::Bool(*a < *b)),
        _ => binary_lifted(i64_exp(&x), i64_exp(&y), BinOp::Bvslt, ExecError::Type("op_lt"), solver),
    }
}

/// Signed comparison `>` of 64-bit integers.
pub fn op_gt(x: Val, y: Val, solver: &mut Solver) -> (r: Result<Val, ExecError>)
    requires
        old(solver).room(1),
    ensures
        match (x, y) {
            (Val::I64(a), Val::I64(b)) => yields(*old(solver), *final(solver), r, Val::Bool(a > b)),
            _ => symbolic_binary(*old(solver), *final(solver), r, lift_i64(x), lift_i64(y), BinOp::Bvsgt, ExecError::Type("op_gt")),
        },
{
    match (&x, &y) {
        (Val::I64(a), Val::I64(b)) => Ok(Val::Bool(*a > *b)),
        _ => binary_lifted(i64_exp(&x), i64_exp(&y), BinOp::Bvsgt, ExecError::Type("op_gt"), solver),
    }
}

/// Signed comparison `<=` of 64-bit integers.
pub fn op_lteq(x: Val, y: Val, solver: &mut Solver) -> (r: Result<Val, ExecError>)
    requires
        old(solver).room(1),
    ensures
        match (x, y) {
            (Val::I64(a), Val::I64(b)) => yields(*old(solver), *final(solver), r, Val::Bool(a <= b)),
            _ => symbolic_binary(*old(solver), *final(solver), r, lift_i64(x), lift_i64(y), BinOp::Bvsle, ExecError::Type("op_lteq")),
        },
{
    match (&x, &y) {
        (Val::I64(a), Val::I64(b)) => Ok(Val::Bool(*a <= *b)),
        _ => binary_lifted(i64_exp(&x), i64_exp(&y), BinOp::Bvsle, ExecError::Type("op_lteq"), solver),
    }
}

/// Signed comparison `>=` of 64-bit integers.
pub fn op_gteq(x: Val, y: Val, solver: &mut Solver) -> (r: Result<Val, ExecError>)
    requires
        old(solver).room(1),
    ensures
        match (x, y) {
            (Val::I64(a), Val::I64(b)) => yields(*old(solver), *final(solver), r, Val::Bool(a >= b)),
            _ => symbolic_binary(*old(solver), *final(solver), r, lift_i64(x), lift_i64(y), BinOp::Bvsge, ExecError::Type("op_gteq")),
        },
{
    match (&x, &y) {
        (Val::I64(a), Val::I64(b)) => Ok(Val::Bool(*a >= *b)),
        _ => binary_lifted(i64_exp(&x), i64_exp(&y), BinOp::Bvsge, ExecError::Type("op_gteq"), solver),
    }
}

/// Wrapping addition of 64-bit integers.
pub fn op_add(x: Val, y: Val, solver: &mut Solver) -> (r: Result<Val, ExecError>)
    requires
        old(solver).room(1),
    ensures
        match (x, y) {
            (Val::I64(a), Val::I64(b)) => yields(*old(solver), *final(solver), r, Val::I64(vstd::wrapping::i64_specs::wrapping_add(a, b))),
            _ => symbolic_binary(*old(solver), *final(solver), r, lift_i64(x), lift_i64(y), BinOp::Bvadd, ExecError::Type("op_add")),
        },
{
    match (&x, &y) {
        (Val::I64(a), Val::I64(b)) => Ok(Val::I64(a.wrapping_add(*b))),
        _ => binary_lifted(i64_exp(&x), i64_exp(&y), BinOp::Bvadd, ExecError::Type("op_add"), solver),
    }
}

/// Wrapping subtraction of 64-bit integers.
pub fn op_sub(x: Val, y: Val, solver: &mut Solver) -> (r: Result<Val, ExecError>)
    requires
        old(solver).room(1),
    ensures
        match (x, y) {
            (Val::I64(a), Val::I64(b)) => yields(*old(solver), *final(solver), r, Val::I64(vstd::wrapping::i64_specs::wrapping_sub(a, b))),
            _ => symbolic_binary(*old(solver), *final(solver), r, lift_i64(x), lift_i64(y), BinOp::Bvsub, ExecError::Type("op_sub")),
        },
{
    match (&x, &y) {
        (Val::I64(a), Val::I64(b)) => Ok(Val::I64(a.wrapping_sub(*b))),
        _ => binary_lifted(i64_exp(&x), i64_exp(&y), BinOp::Bvsub, ExecError::Type("op_sub"), solver),
    }
}

/// What `eq_int` gives.
pub open spec fn eq_int_post(old: Solver, new: Solver, r: Result<Val, ExecError>, x: Val, y: Val) -> bool {
    match (x, y) {
        (Val::I128(a), Val::I128(b)) => yields(old, new, r, Val::Bool(a == b)),
        _ => symbolic_binary(old, new, r, lift_i128(x), lift_i128(y), BinOp::Eq, ExecError::Type("eq_int")),
    }
}

/// Equality of integers.
pub fn eq_int(x: Val, y: Val, solver: &mut Solver) -> (r: Result<Val, ExecError>)
    requires
        old(solver).room(1),
    ensures
        eq_int_post(*old(solver), *final(solver), r, x, y),
{
    match (&x, &y) {
        (Val::I128(a), Val::I128(b)) => Ok(Val::Bool(*a == *b)),
        _ => binary_lifted(i128_exp(&x), i128_exp(&y), BinOp::Eq, ExecError::Type("eq_int"), solver),
    }
}

/// What `lteq_int` gives.
pub open spec fn lteq_int_post(old: Solver, new: Solver, r: Result<Val, ExecError>, x: Val, y: Val) -> bool {
    match (x, y) {
        (Val::I128(a), Val::I128(b)) => yields(old, new, r, Val::Bool(a <= b)),
        _ => symbolic_binary(old, new, r, lift_i128(x), lift_i128(y), BinOp::Bvsle, ExecError::Type("lteq")),
    }
}

/// Comparison `<=` of integers.
pub fn lteq_int(x: Val, y: Val, solver: &mut Solver) -> (r: Result<Val, ExecError>)
    requires
        old(solver).room(1),
    ensures
        lteq_int_post(*old(solver), *final(solver), r, x, y),
{
    match (&x, &y) {
        (Val::I128(a), Val::I128(b)) => Ok(Val::Bool(*a <= *b)),
        _ => binary_lifted(i128_exp(&x), i128_exp(&y), BinOp::Bvsle, ExecError::Type("lteq"), solver),
    }
}

/// What `gteq_int` gives.
pub open spec fn gteq_int_post(old: Solver, new: Solver, r: Result<Val, ExecError>, x: Val, y: Val) -> bool {
    match (x, y) {
        (Val::I128(a), Val::I128(b)) => yields(old, new, r, Val::Bool(a >= b)),
        _ => symbolic_binary(old, new, r, lift_i128(x), lift_i128(y), BinOp::Bvsge, ExecError::Type("gteq")),
    }
}

/// Comparison `>=` of integers.
pub fn gteq_int(x: Val, y: Val, solver: &mut Solver) -> (r: Result<Val, ExecError>)
    requires
        old(solver).room(1),
    ensures
        gteq_int_post(*old(solver), *final(solver), r, x, y),
{
    match (&x, &y) {
        (Val::I128(a), Val::I128(b)) => Ok(Val::Bool(*a >= *b)),
        _ => binary_lifted(i128_exp(&x), i128_exp(&y), BinOp::Bvsge, ExecError::Type("gteq"), solver),
    }
}

/// What `lt_int` gives.
pub open spec fn lt_int_post(old: Solver, new: Solver, r: Result<Val, ExecError>, x: Val, y: Val) -> bool {
    match (x, y) {
        (Val::I128(a), Val::I128(b)) => yields(old, new, r, Val::Bool(a < b)),
        _ => symbolic_binary(old, new, r, lift_i128(x), lift_i128(y), BinOp::Bvslt, ExecError::Type("lt")),
    }
}

/// Comparison `<` of integers.
pub fn lt_int(x: Val, y: Val, solver: &mut Solver) -> (r: Result<Val, ExecError>)
    requires
        old(solver).room(1),
    ensures
        lt_int_post(*old(solver), *final(solver), r, x, y),
{
    match (&x, &y) {
        (Val::I128(a), Val::I128(b)) => Ok(Val::Bool(*a < *b)),
        _ => binary_lifted(i128_exp(&x), i128_exp(&y), BinOp::Bvslt, ExecError::Type("lt"), solver),
    }
}

/// What `gt_int` gives.
pub open spec fn gt_int_post(old: Solver, new: Solver, r: Result<Val, ExecError>, x: Val, y: Val) -> bool {
    match (x, y) {
        (Val::I128(a), Val::I128(b)) => yields(old, new, r, Val::Bool(a > b)),
        _ => symbolic_binary(old, new, r, lift_i128(x), lift_i128(y), BinOp::Bvsgt, ExecError::Type("gt")),
    }
}

/// Comparison `>` of integers.
pub fn gt_int(x: Val, y: Val, solver: &mut Solver) -> (r: Result<Val, ExecError>)
    requires
        old(solver).room(1),
    ensures
        gt_int_post(*old(solver), *final(solver), r, x, y),
{
    match (&x, &y) {
        (Val::I128(a), Val::I128(b)) => Ok(Val::Bool(*a > *b)),
        _ => binary_lifted(i128_exp(&x), i128_exp(&y), BinOp::Bvsgt, ExecError::Type("gt"), solver),
    }
}

/// Quotient of `x` by `d` rounded toward zero.
pub open spec fn tdiv(x: int, d: int) -> int {
    if x >= 0 && d > 0 {
        x / d
    } else if x < 0 && d < 0 {
        (-x) / (-d)
    } else if x < 0 {
        -((-x) / d)
    } else {
        -(x / (-d))
    }
}

/// Remainder of `x` by `d` with the sign of `x`.
pub open spec fn trem(x: int, d: int) -> int {
    x - d * tdiv(x, d)
}

/// Division rounded toward zero, where the only overflow, `MIN / -1`,
/// gives `MIN`.
pub open spec fn wrapping_div_i128(a: i128, b: i128) -> i128 {
    if a == i128::MIN && b == -1 {
        a
    } else {
        tdiv(a as int, b as int) as i128
    }
}

/// Remainder with the sign of the dividend, where `MIN % -1` gives 0.
pub open spec fn wrapping_rem_i128(a: i128, b: i128) -> i128 {
    if a == i128::MIN && b == -1 {
        0
    } else {
        trem(a as int, b as int) as i128
    }
}

/// Negation, where `-MIN` gives `MIN`.
pub open spec fn wrapping_neg_i128(a: i128) -> i128 {
    if a == i128::MIN {
        a
    } else {
        (-a) as i128
    }
}

proof fn lemma_tdiv_bounds(a: i128, b: i128)
    requires
        b != 0,
        !(a == i128::MIN && b == -1),
    ensures
        i128::MIN <= tdiv(a as int, b as int) <= i128::MAX,
        trem(a as int, b as int) == (a as int) - (b as int) * tdiv(a as int, b as int),
{
    let x = a as int;
    let d = b as int;
    if x >= 0 && d > 0 {
        assert(0 <= x / d <= x) by (nonlinear_arith)
            requires
                x >= 0,
                d > 0,
        ;
    } else if x < 0 && d < 0 {
        assert(0 <= (-x) / (-d) <= -x) by (nonlinear_arith)
            requires
                x < 0,
                d < 0,
        ;
        if d == -1 {
            assert((-x) / 1 == -x);
        } else {
            assert((-x) / (-d) <= (-x) / 2) by (nonlinear_arith)
                requires
                    x < 0,
                    d <= -2,
            ;
        }
    } else if x < 0 {
        assert(0 <= (-x) / d <= -x) by (nonlinear_arith)
            requires
                x < 0,
                d > 0,
        ;
    } else {
        assert(0 <= x / (-d) <= x) by (nonlinear_arith)
            requires
                x >= 0,
                d < 0,
        ;
    }
}

/// What `sub_int` gives.
pub open spec fn sub_int_post(old: Solver, new: Solver, r: Result<Val, ExecError>, x: Val, y: Val) -> bool {
    match (x, y) {
        (Val::I128(a), Val::I128(b)) => yields(old, new, r, Val::I128(vstd::wrapping::i128_specs::wrapping_sub(a, b))),
        _ => symbolic_binary(old, new, r, lift_i128(x), lift_i128(y), BinOp::Bvsub, ExecError::Type("sub_int")),
    }
}

/// Integer subtraction, wrapping.
pub fn sub_int(x: Val, y: Val, solver: &mut Solver) -> (r: Result<Val, ExecError>)
    requires
        old(solver).room(1),
    ensures
        sub_int_post(*old(solver), *final(solver), r, x, y),
{
    match (&x, &y) {
        (Val::I128(a), Val::I128(b)) => Ok(Val::I128(a.wrapping_sub(*b))),
        _ => binary_lifted(i128_exp(&x), i128_exp(&y), BinOp::Bvsub, ExecError::Type("sub_int"), solver),
    }
}

/// What `mult_int` gives.
pub open spec fn mult_int_post(old: Solver, new: Solver, r: Result<Val, ExecError>, x: Val, y: Val) -> bool {
    match (x, y) {
        (Val::I128(a), Val::I128(b)) => yields(old, new, r, Val::I128(vstd::wrapping::i128_specs::wrapping_mul(a, b))),
        _ => symbolic_binary(old, new, r, lift_i128(x), lift_i128(y), BinOp::Bvmul, ExecError::Type("mult_int")),
    }
}

/// Integer multiplication, wrapping.
pub fn mult_int(x: Val, y: Val, solver: &mut Solver) -> (r: Result<Val, ExecError>)
    requires
        old(solver).room(1),
    ensures
        mult_int_post(*old(solver), *final(solver), r, x, y),
{
    match (&x, &y) {
        (Val::I128(a), Val::I128(b)) => Ok(Val::I128(a.wrapping_mul(*b))),
        _ => binary_lifted(i128_exp(&x), i128_exp(&y), BinOp::Bvmul, ExecError::Type("mult_int"), solver),
    }
}

/// Integer negation, wrapping.
pub fn neg_int(x: Val, solver: &mut Solver) -> (r: Result<Val, ExecError>)
    requires
        old(solver).room(1),
    ensures
        match x {
            Val::I128(a) => yields(*old(solver), *final(solver), r, Val::I128(wrapping_neg_i128(a))),
            Val::Symbolic(v) => fresh_def(*old(solver), *final(solver), r, un(UnOp::Bvneg, SExp::Var(v))),
            _ => fails(*old(solver), *final(solver), r, ExecError::Type("neg_int")),
        },
{
    proof {
        reveal_with_fuel(sexp, 3);
    }
    match x {
        Val::I128(a) => Ok(Val::I128(if a == i128::MIN { a } else { -a })),
        Val::Symbolic(v) => Ok(Val::Symbolic(solver.define_const(Exp::Bvneg(Box::new(Exp::Var(v)))))),
        _ => Err(ExecError::Type("neg_int")),
    }
}

/// Division of `a` by `b != 0` rounded toward zero, wrapping.
fn wrapping_div(a: i128, b: i128) -> (r: i128)
    requires
        b != 0,
    ensures
        r == wrapping_div_i128(a, b),
{
    if a == i128::MIN && b == -1 {
        a
    } else {
        proof {
            lemma_tdiv_bounds(a, b);
        }
        match a.checked_div(b) {
            Some(q) => q,
            None => a,
        }
    }
}

/// Remainder of `a` by `b != 0` with the sign of `a`, wrapping.
fn wrapping_rem(a: i128, b: i128) -> (r: i128)
    requires
        b != 0,
    ensures
        r == wrapping_rem_i128(a, b),
{
    if a == i128::MIN && b == -1 {
        0
    } else {
        proof {
            lemma_tdiv_bounds(a, b);
            let x = a as int;
            let d = b as int;
            if x >= 0 && d > 0 {
                vstd::arithmetic::div_mod::lemma_fundamental_div_mod(x, d);
                vstd::arithmetic::div_mod::lemma_mod_pos_bound(x, d);
                assert(trem(x, d) == x % d);
            } else if x < 0 && d < 0 {
                vstd::arithmetic::div_mod::lemma_fundamental_div_mod(-x, -d);
                vstd::arithmetic::div_mod::lemma_mod_pos_bound(-x, -d);
                assert(d * ((-x) / (-d)) == -((-d) * ((-x) / (-d)))) by (nonlinear_arith);
                assert(trem(x, d) == ((x * -1) % (d * -1)) * -1);
            } else if x < 0 {
                vstd::arithmetic::div_mod::lemma_fundamental_div_mod(-x, d);
                vstd::arithmetic::div_mod::lemma_mod_pos_bound(-x, d);
                assert(d * (-((-x) / d)) == -(d * ((-x) / d))) by (nonlinear_arith);
                assert(trem(x, d) == ((x * -1) % d) * -1);
            } else {
                vstd::arithmetic::div_mod::lemma_fundamental_div_mod(x, -d);
                vstd::arithmetic::div_mod::lemma_mod_pos_bound(x, -d);
                assert(d * (-(x / (-d))) == (-d) * (x / (-d))) by (nonlinear_arith);
                assert(trem(x, d) == x % (d * -1));
            }
        }
        match a.checked_rem(b) {
            Some(q) => q,
            None => 0,
        }
    }
}

/// What `tdiv_int` gives.
pub open spec fn tdiv_int_post(old: Solver, new: Solver, r: Result<Val, ExecError>, x: Val, y: Val) -> bool {
    match (x, y) {
        (Val::I128(a), Val::I128(b)) => yields(old, new, r, Val::I128(wrapping_div_i128(a, b))),
        _ => symbolic_binary(old, new, r, lift_i128(x), lift_i128(y), BinOp::Bvsdiv, ExecError::Type("tdiv_int")),
    }
}

/// Integer division rounded toward zero.
pub fn tdiv_int(x: Val, y: Val, solver: &mut Solver) -> (r: Result<Val, ExecError>)
    requires
        old(solver).room(1),
        x is I128 ==> (y matches Val::I128(b) ==> b != 0),
    ensures
        tdiv_int_post(*old(solver), *final(solver), r, x, y),
{
    match (&x, &y) {
        (Val::I128(a), Val::I128(b)) => Ok(Val::I128(wrapping_div(*a, *b))),
        _ => binary_lifted(i128_exp(&x), i128_exp(&y), BinOp::Bvsdiv, ExecError::Type("tdiv_int"), solver),
    }
}

/// Integer remainder with the sign of the dividend.
pub fn tmod_int(x: Val, y: Val, solver: &mut Solver) -> (r: Result<Val, ExecError>)
    requires
        old(solver).room(1),
        x is I128 ==> (y matches Val::I128(b) ==> b != 0),
    ensures
        match (x, y) {
            (Val::I128(a), Val::I128(b)) => yields(*old(solver), *final(solver), r, Val::I128(wrapping_rem_i128(a, b))),
            _ => symbolic_binary(*old(solver), *final(solver), r, lift_i128(x), lift_i128(y), BinOp::Bvsmod, ExecError::Type("tmod_int")),
        },
{
    match (&x, &y) {
        (Val::I128(a), Val::I128(b)) => Ok(Val::I128(wrapping_rem(*a, *b))),
        _ => binary_lifted(i128_exp(&x), i128_exp(&y), BinOp::Bvsmod, ExecError::Type("tmod_int"), solver),
    }
}

/// Euclidean division, where the only overflow, `MIN / -1`, gives `MIN`:
/// `a == b * q + r` with `0 <= r < |b|`.
pub open spec fn wrapping_ediv_i128(a: i128, b: i128) -> i128 {
    if a == i128::MIN && b == -1 {
        a
    } else {
        ((a as int) / (b as int)) as i128
    }
}

/// Euclidean remainder: the `r` with `0 <= r < |b|` and `a == b * q + r`.
pub open spec fn emod_i128(a: i128, b: i128) -> i128 {
    ((a as int) % (b as int)) as i128
}

/// The SMT Euclidean remainder of `a` by `b`: the remainder with the sign of
/// the divisor, moved up by `|b|` where it is negative.
pub open spec fn emod_sexp(a: SExp, b: SExp) -> SExp {
    let r = bin(BinOp::Bvsmod, a, b);
    SExp::Ite(
        Box::new(bin(BinOp::Bvslt, r, sexp_i128(0))),
        Box::new(bin(BinOp::Bvsub, r, b)),
        Box::new(r),
    )
}

/// The SMT Euclidean quotient of `a` by `b`: the quotient rounded toward
/// zero, moved one further down (for `b > 0`) or up (for `b < 0`) where that
/// leaves a negative remainder.
pub open spec fn ediv_sexp(a: SExp, b: SExp) -> SExp {
    let q = bin(BinOp::Bvsdiv, a, b);
    let rem = bin(BinOp::Bvsub, a, bin(BinOp::Bvmul, b, q));
    SExp::Ite(
        Box::new(bin(BinOp::Bvslt, rem, sexp_i128(0))),
        Box::new(
            SExp::Ite(
                Box::new(bin(BinOp::Bvsgt, b, sexp_i128(0))),
                Box::new(bin(BinOp::Bvsub, q, sexp_i128(1))),
                Box::new(bin(BinOp::Bvadd, q, sexp_i128(1))),
            ),
        ),
        Box::new(q),
    )
}

/// Builds `emod_sexp`.
fn emod_exp(a: Exp, b: Exp) -> (r: Exp)
    ensures
        r@ == emod_sexp(a@, b@),
{
    let b2 = b.copy();
    let rem = Exp::binary(BinOp::Bvsmod, a, b);
    let rem2 = rem.copy();
    let rem3 = rem.copy();
    let test = Exp::binary(BinOp::Bvslt, rem, smt_i128(0));
    let up = Exp::binary(BinOp::Bvsub, rem2, b2);
    Exp::Ite(Box::new(test), Box::new(up), Box::new(rem3))
}

/// Builds `ediv_sexp`.
fn ediv_exp(a: Exp, b: Exp) -> (r: Exp)
    ensures
        r@ == ediv_sexp(a@, b@),
{
    let a2 = a.copy();
    let b2 = b.copy();
    let b3 = b.copy();
    let q = Exp::binary(BinOp::Bvsdiv, a, b);
    let q2 = q.copy();
    let q3 = q.copy();
    let q4 = q.copy();
    let rem = Exp::binary(BinOp::Bvsub, a2, Exp::binary(BinOp::Bvmul, b2, q));
    let test = Exp::binary(BinOp::Bvslt, rem, smt_i128(0));
    let positive = Exp::binary(BinOp::Bvsgt, b3, smt_i128(0));
    let down = Exp::binary(BinOp::Bvsub, q2, smt_i128(1));
    let up = Exp::binary(BinOp::Bvadd, q3, smt_i128(1));
    let adjusted = Exp::Ite(Box::new(positive), Box::new(down), Box::new(up));
    assert(adjusted@ == SExp::Ite(Box::new(positive@), Box::new(down@), Box::new(up@)));
    Exp::Ite(Box::new(test), Box::new(adjusted), Box::new(q4))
}

/// What `ediv_int` gives.
pub open spec fn ediv_int_post(old: Solver, new: Solver, r: Result<Val, ExecError>, x: Val, y: Val) -> bool {
    match (x, y) {
        (Val::I128(a), Val::I128(b)) => yields(old, new, r, Val::I128(wrapping_ediv_i128(a, b))),
        _ => match (lift_i128(x), lift_i128(y)) {
            (Some(a), Some(b)) => fresh_def(old, new, r, ediv_sexp(a, b)),
            _ => fails(old, new, r, ExecError::Type("ediv_int")),
        },
    }
}

/// Euclidean integer division: the quotient `q` with `a == b * q + r` and
/// `0 <= r < |b|`.
pub fn ediv_int(x: Val, y: Val, solver: &mut Solver) -> (r: Result<Val, ExecError>)
    requires
        old(solver).room(1),
        x is I128 ==> (y matches Val::I128(b) ==> b != 0),
    ensures
        ediv_int_post(*old(solver), *final(solver), r, x, y),
{
    match (&x, &y) {
        (Val::I128(a), Val::I128(b)) => {
            let q = match a.checked_div_euclid(*b) {
                Some(q) => q,
                None => *a,
            };
            proof {
                if !(*a == i128::MIN && *b == -1) {
                    vstd::arithmetic::div_mod::lemma_fundamental_div_mod(*a as int, *b as int);
                    lemma_ediv_bounds(*a, *b);
                }
            }
            Ok(Val::I128(q))
        },
        _ => match (i128_exp(&x), i128_exp(&y)) {
            (Some(a), Some(b)) => Ok(Val::Symbolic(solver.define_const(ediv_exp(a, b)))),
            _ => Err(ExecError::Type("ediv_int")),
        },
    }
}

/// The Euclidean quotient fits in an `i128` but for `MIN / -1`.
pub proof fn lemma_ediv_bounds(a: i128, b: i128)
    requires
        b != 0,
        !(a == i128::MIN && b == -1),
    ensures
        i128::MIN <= (a as int) / (b as int) <= i128::MAX,
{
    let x = a as int;
    let d = b as int;
    vstd::arithmetic::div_mod::lemma_fundamental_div_mod(x, d);
    let q = x / d;
    let r = x % d;
    assert(0 <= r < if d > 0 { d } else { -d });
    if d > 0 {
        assert(i128::MIN <= q <= i128::MAX) by (nonlinear_arith)
            requires
                x == d * q + r,
                0 <= r < d,
                i128::MIN <= x <= i128::MAX,
                d >= 1,
        ;
    } else {
        assert(i128::MIN <= q <= i128::MAX) by (nonlinear_arith)
            requires
                x == d * q + r,
                0 <= r < -d,
                i128::MIN <= x <= i128::MAX,
                d <= -1,
                !(x == i128::MIN && d == -1),
        ;
    }
}

/// What `emod_int` gives.
pub open spec fn emod_int_post(old: Solver, new: Solver, r: Result<Val, ExecError>, x: Val, y: Val) -> bool {
    match (x, y) {
        (Val::I128(a), Val::I128(b)) => yields(old, new, r, Val::I128(emod_i128(a, b))),
        _ => match (lift_i128(x), lift_i128(y)) {
            (Some(a), Some(b)) => fresh_def(old, new, r, emod_sexp(a, b)),
            _ => fails(old, new, r, ExecError::Type("emod_int")),
        },
    }
}

/// Euclidean integer remainder: the `r` with `0 <= r < |b|` and
/// `a == b * q + r`.
pub fn emod_int(x: Val, y: Val, solver: &mut Solver) -> (r: Result<Val, ExecError>)
    requires
        old(solver).room(1),
        x is I128 ==> (y matches Val::I128(b) ==> b != 0),
    ensures
        emod_int_post(*old(solver), *final(solver), r, x, y),
{
    match (&x, &y) {
        (Val::I128(a), Val::I128(b)) => {
            proof {
                vstd::arithmetic::div_mod::lemma_fundamental_div_mod(*a as int, *b as int);
            }
            let m = match a.checked_rem_euclid(*b) {
                Some(m) => m,
                None => 0,
            };
            Ok(Val::I128(m))
        },
        _ => match (i128_exp(&x), i128_exp(&y)) {
            (Some(a), Some(b)) => Ok(Val::Symbolic(solver.define_const(emod_exp(a, b)))),
            _ => Err(ExecError::Type("emod_int")),
        },
    }
}

/// Integer division rounded toward zero; a symbolic operand is divided as an
/// unsigned bitvector.
pub fn udiv_int(x: Val, y: Val, solver: &mut Solver) -> (r: Result<Val, ExecError>)
    requires
        old(solver).room(1),
        x is I128 ==> (y matches Val::I128(b) ==> b != 0),
    ensures
        match (x, y) {
            (Val::I128(a), Val::I128(b)) => yields(*old(solver), *final(solver), r, Val::I128(wrapping_div_i128(a, b))),
            _ => symbolic_binary(*old(solver), *final(solver), r, lift_i128(x), lift_i128(y), BinOp::Bvudiv, ExecError::Type("udiv_int")),
        },
{
    match (&x, &y) {
        (Val::I128(a), Val::I128(b)) => Ok(Val::I128(wrapping_div(*a, *b))),
        _ => binary_lifted(i128_exp(&x), i128_exp(&y), BinOp::Bvudiv, ExecError::Type("udiv_int"), solver),
    }
}

/// Shift left of an integer by `0 <= b < 128` places.
pub fn shl_int(x: Val, y: Val, solver: &mut Solver) -> (r: Result<Val, ExecError>)
    requires
        old(solver).room(1),
        x is I128 ==> (y matches Val::I128(b) ==> 0 <= b < 128),
    ensures
        match (x, y) {
            (Val::I128(a), Val::I128(b)) => yields(*old(solver), *final(solver), r, Val::I128(a << (b as u32))),
            _ => symbolic_binary(*old(solver), *final(solver), r, lift_i128(x), lift_i128(y), BinOp::Bvshl, ExecError::Type("shl_int")),
        },
{
    match (&x, &y) {
        (Val::I128(a), Val::I128(b)) => Ok(Val::I128(a.wrapping_shl(*b as u32))),
        _ => binary_lifted(i128_exp(&x), i128_exp(&y), BinOp::Bvshl, ExecError::Type("shl_int"), solver),
    }
}

/// Arithmetic shift right of an integer by `0 <= b < 128` places.
pub fn shr_int(x: Val, y: Val, solver: &mut Solver) -> (r: Result<Val, ExecError>)
    requires
        old(solver).room(1),
        x is I128 ==> (y matches Val::I128(b) ==> 0 <= b < 128),
    ensures
        match (x, y) {
            (Val::I128(a), Val::I128(b)) => yields(*old(solver), *final(solver), r, Val::I128(a >> (b as u32))),
            _ => symbolic_binary(*old(solver), *final(solver), r, lift_i128(x), lift_i128(y), BinOp::Bvashr, ExecError::Type("shr_int")),
        },
{
    match (&x, &y) {
        (Val::I128(a), Val::I128(b)) => Ok(Val::I128(a.wrapping_shr(*b as u32))),
        _ => binary_lifted(i128_exp(&x), i128_exp(&y), BinOp::Bvashr, ExecError::Type("shr_int"), solver),
    }
}

/// Shift left of a 64-bit integer by `0 <= b < 64` places.
pub fn shl_mach_int(x: Val, y: Val, solver: &mut Solver) -> (r: Result<Val, ExecError>)
    requires
        old(solver).room(1),
        x is I64 ==> (y matches Val::I64(b) ==> 0 <= b < 64),
    ensures
        match (x, y) {
            (Val::I64(a), Val::I64(b)) => yields(*old(solver), *final(solver), r, Val::I64(a << (b as u32))),
            _ => symbolic_binary(*old(solver), *final(solver), r, lift_i64(x), lift_i64(y), BinOp::Bvshl, ExecError::Type("shl_mach_int")),
        },
{
    match (&x, &y) {
        (Val::I64(a), Val::I64(b)) => Ok(Val::I64(a.wrapping_shl(*b as u32))),
        _ => binary_lifted(i64_exp(&x), i64_exp(&y), BinOp::Bvshl, ExecError::Type("shl_mach_int"), solver),
    }
}

/// Arithmetic shift right of a 64-bit integer by `0 <= b < 64` places.
pub fn shr_mach_int(x: Val, y: Val, solver: &mut Solver) -> (r: Result<Val, ExecError>)
    requires
        old(solver).room(1),
        x is I64 ==> (y matches Val::I64(b) ==> 0 <= b < 64),
    ensures
        match (x, y) {
            (Val::I64(a), Val::I64(b)) => yields(*old(solver), *final(solver), r, Val::I64(a >> (b as u32))),
            _ => symbolic_binary(*old(solver), *final(solver), r, lift_i64(x), lift_i64(y), BinOp::Bvashr, ExecError::Type("shr_mach_int")),
        },
{
    match (&x, &y) {
        (Val::I64(a), Val::I64(b)) => Ok(Val::I64(a.wrapping_shr(*b as u32))),
        _ => binary_lifted(i64_exp(&x), i64_exp(&y), BinOp::Bvashr, ExecError::Type("shr_mach_int"), solver),
    }
}

/// Absolute value of an integer other than `i128::MIN`.
pub fn abs_int(x: Val, solver: &mut Solver) -> (r: Result<Val, ExecError>)
    requires
        old(solver).room(1),
        x matches Val::I128(a) ==> a != i128::MIN,
    ensures
        match x {
            Val::I128(a) => yields(*old(solver), *final(solver), r, Val::I128((if a < 0 { -a } else { a as int }) as i128)),
            Val::Symbolic(v) => fresh_def(
                *old(solver),
                *final(solver),
                r,
                SExp::Ite(
                    Box::new(bin(BinOp::Bvslt, SExp::Var(v), sexp_i128(0))),
                    Box::new(un(UnOp::Bvneg, SExp::Var(v))),
                    Box::new(SExp::Var(v)),
                ),
            ),
            _ => fails(*old(solver), *final(solver), r, ExecError::Type("abs_int")),
        },
{
    proof {
        reveal_with_fuel(sexp, 4);
    }
    match x {
        Val::I128(a) => Ok(Val::I128(if a < 0 { -a } else { a })),
        Val::Symbolic(v) => {
            let e = Exp::Ite(
                Box::new(Exp::Bvslt(Box::new(Exp::Var(v)), Box::new(smt_i128(0)))),
                Box::new(Exp::Bvneg(Box::new(Exp::Var(v)))),
                Box::new(Exp::Var(v)),
            );
            Ok(Val::Symbolic(solver.define_const(e)))
        },
        _ => Err(ExecError::Type("abs_int")),
    }
}

/// What `add_int` gives.
pub open spec fn add_int_post(old: Solver, new: Solver, r: Result<Val, ExecError>, x: Val, y: Val) -> bool {
    match (x, y) {
        (Val::I128(a), Val::I128(b)) => yields(old, new, r, Val::I128(vstd::wrapping::i128_specs::wrapping_add(a, b))),
        (Val::Symbolic(v), Val::I128(0)) => yields(old, new, r, Val::Symbolic(v)),
        (Val::I128(0), Val::Symbolic(v)) => yields(old, new, r, Val::Symbolic(v)),
        _ => symbolic_binary(old, new, r, lift_i128(x), lift_i128(y), BinOp::Bvadd, ExecError::Type("add_int")),
    }
}

/// Integer addition, wrapping; adding a concrete zero to a symbolic integer
/// returns the symbol itself.
pub fn add_int(x: Val, y: Val, solver: &mut Solver) -> (r: Result<Val, ExecError>)
    requires
        old(solver).room(1),
    ensures
        add_int_post(*old(solver), *final(solver), r, x, y),
{
    match (&x, &y) {
        (Val::I128(a), Val::I128(b)) => Ok(Val::I128(a.wrapping_add(*b))),
        (Val::Symbolic(v), Val::I128(b)) => {
            if *b != 0 {
                binary_lifted(i128_exp(&x), i128_exp(&y), BinOp::Bvadd, ExecError::Type("add_int"), solver)
            } else {
                Ok(Val::Symbolic(*v))
            }
        },
        (Val::I128(a), Val::Symbolic(v)) => {
            if *a != 0 {
                binary_lifted(i128_exp(&x), i128_exp(&y), BinOp::Bvadd, ExecError::Type("add_int"), solver)
            } else {
                Ok(Val::Symbolic(*v))
            }
        },
        _ => binary_lifted(i128_exp(&x), i128_exp(&y), BinOp::Bvadd, ExecError::Type("add_int"), solver),
    }
}

/// The SMT choice `if a op b then a else b`.
pub open spec fn pick(op: BinOp, a: SExp, b: SExp) -> SExp {
    SExp::Ite(Box::new(bin(op, a, b)), Box::new(a), Box::new(b))
}

/// Defines a fresh variable as `if a op b then a else b`, where both operands
/// are integers; fails with `err` otherwise.
fn symbolic_pick(x: &Val, y: &Val, op: BinOp, err: ExecError, solver: &mut Solver) -> (r: Result<Val, ExecError>)
    requires
        old(solver).room(1),
    ensures
        match (lift_i128(*x), lift_i128(*y)) {
            (Some(a), Some(b)) => fresh_def(*old(solver), *final(solver), r, pick(op, a, b)),
            _ => fails(*old(solver), *final(solver), r, err),
        },
{
    proof {
        reveal_with_fuel(sexp, 2);
    }
    match (i128_exp(x), i128_exp(y)) {
        (Some(a), Some(b)) => {
            let a2 = i128_exp(x).unwrap();
            let b2 = i128_exp(y).unwrap();
            let e = Exp::Ite(Box::new(Exp::binary(op, a, b)), Box::new(a2), Box::new(b2));
            Ok(Val::Symbolic(solver.define_const(e)))
        },
        _ => Err(err),
    }
}

/// What `max_int` gives.
pub open spec fn max_int_post(old: Solver, new: Solver, r: Result<Val, ExecError>, x: Val, y: Val) -> bool {
    match (x, y) {
        (Val::I128(a), Val::I128(b)) => yields(old, new, r, Val::I128(if a >= b { a } else { b })),
        _ => match (lift_i128(x), lift_i128(y)) {
            (Some(a), Some(b)) => fresh_def(old, new, r, pick(BinOp::Bvsgt, a, b)),
            _ => fails(old, new, r, ExecError::Type("max_int")),
        },
    }
}

/// The greater of two integers.
pub fn max_int(x: Val, y: Val, solver: &mut Solver) -> (r: Result<Val, ExecError>)
    requires
        old(solver).room(1),
    ensures
        max_int_post(*old(solver), *final(solver), r, x, y),
{
    match (&x, &y) {
        (Val::I128(a), Val::I128(b)) => Ok(Val::I128(if *a >= *b { *a } else { *b })),
        _ => symbolic_pick(&x, &y, BinOp::Bvsgt, ExecError::Type("max_int"), solver),
    }
}

/// What `min_int` gives.
pub open spec fn min_int_post(old: Solver, new: Solver, r: Result<Val, ExecError>, x: Val, y: Val) -> bool {
    match (x, y) {
        (Val::I128(a), Val::I128(b)) => yields(old, new, r, Val::I128(if a <= b { a } else { b })),
        _ => match (lift_i128(x), lift_i128(y)) {
            (Some(a), Some(b)) => fresh_def(old, new, r, pick(BinOp::Bvslt, a, b)),
            _ => fails(old, new, r, ExecError::Type("max_int")),
        },
    }
}

/// The lesser of two integers.
pub fn min_int(x: Val, y: Val, solver: &mut Solver) -> (r: Result<Val, ExecError>)
    requires
        old(solver).room(1),
    ensures
        min_int_post(*old(solver), *final(solver), r, x, y),
{
    match (&x, &y) {
        (Val::I128(a), Val::I128(b)) => Ok(Val::I128(if *a <= *b { *a } else { *b })),
        _ => symbolic_pick(&x, &y, BinOp::Bvslt, ExecError::Type("max_int"), solver),
    }
}

/// Two to the power `0 <= x < 128`, as a 128-bit two's complement integer.
pub fn pow2(x: Val, solver: &mut Solver) -> (r: Result<Val, ExecError>)
    requires
        old(solver).room(1),
        x matches Val::I128(a) ==> 0 <= a < 128,
    ensures
        match x {
            Val::I128(a) => yields(*old(solver), *final(solver), r, Val::I128(i128_of_pattern(vstd::arithmetic::power2::pow2(a as nat)) as i128)),
            Val::Symbolic(v) => fresh_def(*old(solver), *final(solver), r, bin(BinOp::Bvshl, sexp_i128(1), SExp::Var(v))),
            _ => fails(*old(solver), *final(solver), r, ExecError::Type("pow2")),
        },
{
    proof {
        reveal_with_fuel(sexp, 3);
        lemma_pow2_127();
    }
    match x {
        Val::I128(a) => {
            let p = p2(a as u32);
            if a == 127 {
                Ok(Val::I128(i128::MIN))
            } else {
                proof {
                    vstd::arithmetic::power2::lemma_pow2_strictly_increases(a as nat, 127);
                }
                Ok(Val::I128(p as i128))
            }
        },
        Val::Symbolic(v) => {
            let e = Exp::Bvshl(Box::new(smt_i128(1)), Box::new(Exp::Var(v)));
            Ok(Val::Symbolic(solver.define_const(e)))
        },
        _ => Err(ExecError::Type("pow2")),
    }
}

proof fn lemma_pow_step(b: int, e: nat)
    ensures
        pow(b, e + 1) == b * pow(b, e),
{
    reveal(pow);
}

proof fn lemma_pow_minus_one(e: nat)
    ensures
        pow(-1, e) == if e % 2 == 0 { 1int } else { -1int },
    decreases e,
{
    reveal(pow);
    if e > 0 {
        lemma_pow_minus_one((e - 1) as nat);
    }
}

/// Absolute value.
pub open spec fn abs(x: int) -> int {
    if x < 0 {
        -x
    } else {
        x
    }
}

/// For `|b| >= 2` and `k < e`, `|b^e|` is at least twice `|b^k|`.
proof fn lemma_pow_abs_doubles(b: int, k: nat, e: nat)
    requires
        abs(b) >= 2,
        k < e,
    ensures
        2 * abs(pow(b, k)) <= abs(pow(b, e)),
    decreases e - k,
{
    lemma_pow_step(b, (e - 1) as nat);
    let p = pow(b, (e - 1) as nat);
    assert(abs(b * p) == abs(b) * abs(p)) by (nonlinear_arith);
    assert(abs(b) * abs(p) >= 2 * abs(p)) by (nonlinear_arith)
        requires
            abs(b) >= 2,
            abs(p) >= 0,
    ;
    if k + 1 < e {
        lemma_pow_abs_doubles(b, k, (e - 1) as nat);
    }
}

/// `x` to the power `y`, where that fits in an `i128`.
fn checked_pow(x: i128, y: u32) -> (r: i128)
    requires
        i128::MIN <= pow(x as int, y as nat) <= i128::MAX,
    ensures
        r == pow(x as int, y as nat),
{
    proof {
        reveal(pow);
    }
    if x == 1 {
        proof {
            vstd::arithmetic::power::lemma1_pow(y as nat);
        }
        return 1;
    }
    if x == 0 {
        if y == 0 {
            return 1;
        }
        proof {
            vstd::arithmetic::power::lemma0_pow(y as nat);
        }
        return 0;
    }
    if x == -1 {
        proof {
            lemma_pow_minus_one(y as nat);
        }
        return if y % 2 == 0 { 1 } else { -1 };
    }
    let mut acc: i128 = 1;
    let mut k: u32 = 0;
    while k < y
        invariant
            k <= y,
            x >= 2 || x <= -2,
            acc == pow(x as int, k as nat),
            i128::MIN <= pow(x as int, y as nat) <= i128::MAX,
        decreases y - k,
    {
        proof {
            lemma_pow_step(x as int, k as nat);
            if k + 1 < y {
                lemma_pow_abs_doubles(x as int, (k + 1) as nat, y as nat);
            }
        }
        acc = acc * x;
        k = k + 1;
    }
    acc
}

/// Integer power `x^y`, for an exponent that fits in `u32` and a result that
/// fits in an `i128`; an exponent out of that range is an overflow.
pub fn pow_int(x: Val, y: Val, solver: &mut Solver) -> (r: Result<Val, ExecError>)
    requires
        x matches Val::I128(a) ==> (y matches Val::I128(b) ==> (0 <= b <= u32::MAX ==> i128::MIN
            <= pow(a as int, b as nat) <= i128::MAX)),
    ensures
        match (x, y) {
            (Val::I128(a), Val::I128(b)) => if 0 <= b <= u32::MAX {
                yields(*old(solver), *final(solver), r, Val::I128(pow(a as int, b as nat) as i128))
            } else {
                fails(*old(solver), *final(solver), r, ExecError::Overflow)
            },
            _ => fails(*old(solver), *final(solver), r, ExecError::Type("pow_int")),
        },
{
    match (x, y) {
        (Val::I128(a), Val::I128(b)) => {
            if 0 <= b && b <= 0xffff_ffff {
                Ok(Val::I128(checked_pow(a, b as u32)))
            } else {
                Err(ExecError::Overflow)
            }
        },
        (_, _) => Err(ExecError::Type("pow_int")),
    }
}

/// Subtraction cut off at zero, for concrete operands whose difference fits
/// in an `i128`.
pub fn sub_nat(x: Val, y: Val, solver: &mut Solver) -> (r: Result<Val, ExecError>)
    requires
        old(solver).room(1),
        x matches Val::I128(a) ==> (y matches Val::I128(b) ==> i128::MIN <= a - b <= i128::MAX),
    ensures
        match (x, y) {
            (Val::I128(a), Val::I128(b)) => yields(*old(solver), *final(solver), r, Val::I128((if a - b >= 0 { a - b } else { 0 }) as i128)),
            _ => match (lift_i128(x), lift_i128(y)) {
                (Some(a), Some(b)) => fresh_def(
                    *old(solver),
                    *final(solver),
                    r,
                    pick(BinOp::Bvsgt, bin(BinOp::Bvsub, a, b), sexp_i128(0)),
                ),
                _ => fails(*old(solver), *final(solver), r, ExecError::Type("sub_nat")),
            },
        },
{
    proof {
        reveal_with_fuel(sexp, 3);
    }
    match (&x, &y) {
        (Val::I128(a), Val::I128(b)) => {
            let d = *a - *b;
            Ok(Val::I128(if d >= 0 { d } else { 0 }))
        },
        _ => match (i128_exp(&x), i128_exp(&y)) {
            (Some(a), Some(b)) => {
                let a2 = i128_exp(&x).unwrap();
                let b2 = i128_exp(&y).unwrap();
                let diff = Exp::Bvsub(Box::new(a), Box::new(b));
                let diff2 = Exp::Bvsub(Box::new(a2), Box::new(b2));
                let e = Exp::Ite(
                    Box::new(Exp::Bvsgt(Box::new(diff), Box::new(smt_i128(0)))),
                    Box::new(diff2),
                    Box::new(smt_i128(0)),
                );
                Ok(Val::Symbolic(solver.define_const(e)))
            },
            _ => Err(ExecError::Type("sub_nat")),
        },
    }
}

} // verus!
