//! Bitvectors: width, reading as numbers, bitwise and arithmetic operations,
//! extension, replication, shifts and concatenation.

use vstd::arithmetic::power2::pow2;
use vstd::prelude::*;

use super::encode::{
    binary_lifted, bits_exp, lift_bits, sexp_bits, sexp_i128, smt_i128, smt_ones, smt_sbits,
    smt_zeros,
};
use super::{fails, fails_after_fresh, fresh_def, symbolic_binary, unchanged, yields, yields_bits};
use crate::bits::{
    i128_of_pattern, lshr_of, pattern_of_i128, replicate_of, shiftl_of, shiftr_of, signed_of,
    u128_pattern, B64,
};
use crate::smt::{bin, sexp, un, BinOp, Def, Exp, SExp, Solver, Sym, UnOp};
use crate::val::{ExecError, Val};

verus! {

/// The width of a concrete or symbolic bitvector, or a type error where the
/// value is not a bitvector.
pub fn length_bits(bits: &Val, solver: &mut Solver) -> (r: Result<u32, ExecError>)
    ensures
        unchanged(*old(solver), *final(solver)),
        match *bits {
            Val::Bits(b) => r == Ok::<u32, ExecError>(b.width() as u32) && b.wf(),
            Val::Symbolic(v) => match old(solver).sym_length(v) {
                Some(n) => r == Ok::<u32, ExecError>(n),
                None => r == Err::<u32, ExecError>(ExecError::Type("length_bits")),
            },
            _ => r == Err::<u32, ExecError>(ExecError::Type("length_bits")),
        },
{
    match bits {
        Val::Bits(b) => Ok(b.len()),
        Val::Symbolic(v) => match solver.length(*v) {
            Some(len) => Ok(len),
            None => Err(ExecError::Type("length_bits")),
        },
        _ => Err(ExecError::Type("length_bits")),
    }
}

/// The width of a bitvector, as an integer.
pub fn length(x: Val, solver: &mut Solver) -> (r: Result<Val, ExecError>)
    ensures
        match x {
            Val::Symbolic(v) => match old(solver).sym_length(v) {
                Some(n) => yields(*old(solver), *final(solver), r, Val::I128(n as i128)),
                None => fails(*old(solver), *final(solver), r, ExecError::Type("length")),
            },
            Val::Bits(b) => yields(*old(solver), *final(solver), r, Val::I128(b.width() as i128)),
            _ => fails(*old(solver), *final(solver), r, ExecError::Type("length")),
        },
{
    match x {
        Val::Symbolic(v) => match solver.length(v) {
            Some(len) => Ok(Val::I128(len as i128)),
            None => Err(ExecError::Type("length")),
        },
        Val::Bits(bv) => Ok(Val::I128(bv.len_i128())),
        _ => Err(ExecError::Type("length")),
    }
}

/// A value below `2^64` read as a 64-bit two's complement integer.
pub open spec fn i64_of_u64(v: nat) -> int {
    if v >= 0x8000_0000_0000_0000 {
        v - 0x1_0000_0000_0000_0000
    } else {
        v as int
    }
}

/// The unsigned reading of a bitvector as a 64-bit integer (wrapping past
/// `i64::MAX`); a symbolic bitvector of at most 64 bits is zero-extended.
pub fn op_unsigned(bits: Val, solver: &mut Solver) -> (r: Result<Val, ExecError>)
    requires
        old(solver).room(1),
        bits matches Val::Symbolic(v) ==> (old(solver).sym_length(v) matches Some(n) ==> n <= 64),
    ensures
        match bits {
            Val::Bits(b) => yields(*old(solver), *final(solver), r, Val::I64(i64_of_u64(b.value()) as i64)),
            Val::Symbolic(v) => match old(solver).sym_length(v) {
                Some(n) => fresh_def(*old(solver), *final(solver), r, SExp::ZeroExtend((64 - n) as u32, Box::new(SExp::Var(v)))),
                None => fails(*old(solver), *final(solver), r, ExecError::Type("op_unsigned")),
            },
            _ => fails(*old(solver), *final(solver), r, ExecError::Type("op_unsigned")),
        },
{
    proof {
        reveal_with_fuel(sexp, 2);
    }
    match bits {
        Val::Bits(b) => {
            let v = b.bits();
            proof {
                vstd::arithmetic::power2::lemma2_to64_rest();
                crate::bits::lemma_pow2_strictly_increases_or_eq(b.width(), 64);
            }
            if v >= 0x8000_0000_0000_0000 {
                Ok(Val::I64(((v - 0x8000_0000_0000_0000) as i64) + i64::MIN))
            } else {
                Ok(Val::I64(v as i64))
            }
        },
        Val::Symbolic(v) => match solver.length(v) {
            Some(length) => Ok(
                Val::Symbolic(solver.define_const(Exp::ZeroExtend(64 - length, Box::new(Exp::Var(v))))),
            ),
            None => Err(ExecError::Type("op_unsigned")),
        },
        _ => Err(ExecError::Type("op_unsigned")),
    }
}

/// The signed reading of a bitvector as a 64-bit integer; a symbolic
/// bitvector of at most 64 bits is sign-extended.
pub fn op_signed(bits: Val, solver: &mut Solver) -> (r: Result<Val, ExecError>)
    requires
        old(solver).room(1),
        bits matches Val::Symbolic(v) ==> (old(solver).sym_length(v) matches Some(n) ==> n <= 64),
    ensures
        match bits {
            Val::Bits(b) => yields(*old(solver), *final(solver), r, Val::I64(signed_of(b.width(), b.value()) as i64)),
            Val::Symbolic(v) => match old(solver).sym_length(v) {
                Some(n) => fresh_def(*old(solver), *final(solver), r, SExp::SignExtend((64 - n) as u32, Box::new(SExp::Var(v)))),
                None => fails(*old(solver), *final(solver), r, ExecError::Type("op_unsigned")),
            },
            _ => fails(*old(solver), *final(solver), r, ExecError::Type("op_unsigned")),
        },
{
    proof {
        reveal_with_fuel(sexp, 2);
    }
    match bits {
        Val::Bits(b) => {
            let s = b.signed();
            let _w = b.len();
            proof {
                vstd::arithmetic::power2::lemma2_to64_rest();
                crate::bits::lemma_pow2_strictly_increases_or_eq(b.width(), 64);
                if b.width() > 0 {
                    crate::bits::lemma_pow2_strictly_increases_or_eq((b.width() - 1) as nat, 63);
                    vstd::arithmetic::power2::lemma_pow2_unfold(b.width());
                }
            }
            Ok(Val::I64(s as i64))
        },
        Val::Symbolic(v) => match solver.length(v) {
            Some(length) => Ok(
                Val::Symbolic(solver.define_const(Exp::SignExtend(64 - length, Box::new(Exp::Var(v))))),
            ),
            None => Err(ExecError::Type("op_unsigned")),
        },
        _ => Err(ExecError::Type("op_unsigned")),
    }
}

/// What `sail_unsigned` gives.
pub open spec fn sail_unsigned_post(old: Solver, new: Solver, r: Result<Val, ExecError>, bits: Val) -> bool {
    match bits {
        Val::Bits(b) => yields(old, new, r, Val::I128(b.value() as i128)),
        Val::Symbolic(v) => match old.sym_length(v) {
            Some(n) => fresh_def(old, new, r, SExp::ZeroExtend((128 - n) as u32, Box::new(SExp::Var(v)))),
            None => fails(old, new, r, ExecError::Type("sail_unsigned")),
        },
        _ => fails(old, new, r, ExecError::Type("sail_unsigned")),
    }
}

/// The unsigned reading of a bitvector as an integer; a symbolic bitvector
/// of at most 128 bits is zero-extended to 128.
pub fn sail_unsigned(bits: Val, solver: &mut Solver) -> (r: Result<Val, ExecError>)
    requires
        old(solver).room(1),
        bits matches Val::Symbolic(v) ==> (old(solver).sym_length(v) matches Some(n) ==> n <= 128),
    ensures
        sail_unsigned_post(*old(solver), *final(solver), r, bits),
{
    proof {
        reveal_with_fuel(sexp, 2);
    }
    match bits {
        Val::Bits(b) => Ok(Val::I128(b.unsigned())),
        Val::Symbolic(v) => match solver.length(v) {
            Some(length) => Ok(
                Val::Symbolic(solver.define_const(Exp::ZeroExtend(128 - length, Box::new(Exp::Var(v))))),
            ),
            None => Err(ExecError::Type("sail_unsigned")),
        },
        _ => Err(ExecError::Type("sail_unsigned")),
    }
}

/// What `sail_signed` gives.
pub open spec fn sail_signed_post(old: Solver, new: Solver, r: Result<Val, ExecError>, bits: Val) -> bool {
    match bits {
        Val::Bits(b) => yields(old, new, r, Val::I128(signed_of(b.width(), b.value()) as i128)),
        Val::Symbolic(v) => match old.sym_length(v) {
            Some(n) => fresh_def(old, new, r, SExp::SignExtend((128 - n) as u32, Box::new(SExp::Var(v)))),
            None => fails(old, new, r, ExecError::Type("sail_signed")),
        },
        _ => fails(old, new, r, ExecError::Type("sail_signed")),
    }
}

/// The signed reading of a bitvector as an integer; a symbolic bitvector of
/// at most 128 bits is sign-extended to 128.
pub fn sail_signed(bits: Val, solver: &mut Solver) -> (r: Result<Val, ExecError>)
    requires
        old(solver).room(1),
        bits matches Val::Symbolic(v) ==> (old(solver).sym_length(v) matches Some(n) ==> n <= 128),
    ensures
        sail_signed_post(*old(solver), *final(solver), r, bits),
{
    proof {
        reveal_with_fuel(sexp, 2);
    }
    match bits {
        Val::Bits(b) => Ok(Val::I128(b.signed())),
        Val::Symbolic(v) => match solver.length(v) {
            Some(length) => Ok(
                Val::Symbolic(solver.define_const(Exp::SignExtend(128 - length, Box::new(Exp::Var(v))))),
            ),
            None => Err(ExecError::Type("sail_signed")),
        },
        _ => Err(ExecError::Type("sail_signed")),
    }
}

/// Equality of bitvectors: the same width and the same bits.
pub fn eq_bits(x: Val, y: Val, solver: &mut Solver) -> (r: Result<Val, ExecError>)
    requires
        old(solver).room(1),
    ensures
        match (x, y) {
            (Val::Bits(a), Val::Bits(b)) => yields(*old(solver), *final(solver), r, Val::Bool(a == b)),
            _ => symbolic_binary(*old(solver), *final(solver), r, lift_bits(x), lift_bits(y), BinOp::Eq, ExecError::Type("eq_bits")),
        },
{
    match (&x, &y) {
        (Val::Bits(a), Val::Bits(b)) => Ok(Val::Bool(*a == *b)),
        _ => binary_lifted(bits_exp(&x), bits_exp(&y), BinOp::Eq, ExecError::Type("eq_bits"), solver),
    }
}

/// Disequality of bitvectors.
pub fn neq_bits(x: Val, y: Val, solver: &mut Solver) -> (r: Result<Val, ExecError>)
    requires
        old(solver).room(1),
    ensures
        match (x, y) {
            (Val::Bits(a), Val::Bits(b)) => yields(*old(solver), *final(solver), r, Val::Bool(a != b)),
            _ => symbolic_binary(*old(solver), *final(solver), r, lift_bits(x), lift_bits(y), BinOp::Neq, ExecError::Type("neq_bits")),
        },
{
    match (&x, &y) {
        (Val::Bits(a), Val::Bits(b)) => Ok(Val::Bool(*a != *b)),
        _ => binary_lifted(bits_exp(&x), bits_exp(&y), BinOp::Neq, ExecError::Type("neq_bits"), solver),
    }
}

/// What `not_bits` gives.
pub open spec fn not_bits_post(old: Solver, new: Solver, r: Result<Val, ExecError>, x: Val) -> bool {
    match x {
        Val::Bits(b) => yields_bits(old, new, r, b.width(), (pow2(b.width()) - 1 - b.value()) as nat),
        Val::Symbolic(v) => fresh_def(old, new, r, un(UnOp::Bvnot, SExp::Var(v))),
        _ => fails(old, new, r, ExecError::Type("not_bits")),
    }
}

/// Bitwise complement.
pub fn not_bits(x: Val, solver: &mut Solver) -> (r: Result<Val, ExecError>)
    requires
        old(solver).room(1),
    ensures
        not_bits_post(*old(solver), *final(solver), r, x),
{
    proof {
        reveal_with_fuel(sexp, 2);
    }
    match x {
        Val::Symbolic(v) => Ok(Val::Symbolic(solver.define_const(Exp::Bvnot(Box::new(Exp::Var(v)))))),
        Val::Bits(b) => Ok(Val::Bits(b.not())),
        _ => Err(ExecError::Type("not_bits")),
    }
}

/// What `xor_bits` gives.
pub open spec fn xor_bits_post(old: Solver, new: Solver, r: Result<Val, ExecError>, x: Val, y: Val) -> bool {
    match (x, y) {
        (Val::Bits(a), Val::Bits(b)) => yields_bits(old, new, r, a.width(), ((a.value() as u64) ^ (b.value() as u64)) as nat % pow2(a.width())),
        _ => symbolic_binary(old, new, r, lift_bits(x), lift_bits(y), BinOp::Bvxor, ExecError::Type("xor_bits")),
    }
}

/// Bitwise exclusive or, at the width of the first operand.
pub fn xor_bits(x: Val, y: Val, solver: &mut Solver) -> (r: Result<Val, ExecError>)
    requires
        old(solver).room(1),
    ensures
        xor_bits_post(*old(solver), *final(solver), r, x, y),
{
    match (&x, &y) {
        (Val::Bits(a), Val::Bits(b)) => Ok(Val::Bits(a.xor(*b))),
        _ => binary_lifted(bits_exp(&x), bits_exp(&y), BinOp::Bvxor, ExecError::Type("xor_bits"), solver),
    }
}

/// What `or_bits` gives.
pub open spec fn or_bits_post(old: Solver, new: Solver, r: Result<Val, ExecError>, x: Val, y: Val) -> bool {
    match (x, y) {
        (Val::Bits(a), Val::Bits(b)) => yields_bits(old, new, r, a.width(), ((a.value() as u64) | (b.value() as u64)) as nat % pow2(a.width())),
        _ => symbolic_binary(old, new, r, lift_bits(x), lift_bits(y), BinOp::Bvor, ExecError::Type("or_bits")),
    }
}

/// Bitwise or, at the width of the first operand.
pub fn or_bits(x: Val, y: Val, solver: &mut Solver) -> (r: Result<Val, ExecError>)
    requires
        old(solver).room(1),
    ensures
        or_bits_post(*old(solver), *final(solver), r, x, y),
{
    match (&x, &y) {
        (Val::Bits(a), Val::Bits(b)) => Ok(Val::Bits(a.or(*b))),
        _ => binary_lifted(bits_exp(&x), bits_exp(&y), BinOp::Bvor, ExecError::Type("or_bits"), solver),
    }
}

/// What `and_bits` gives.
pub open spec fn and_bits_post(old: Solver, new: Solver, r: Result<Val, ExecError>, x: Val, y: Val) -> bool {
    match (x, y) {
        (Val::Bits(a), Val::Bits(b)) => yields_bits(old, new, r, a.width(), ((a.value() as u64) & (b.value() as u64)) as nat % pow2(a.width())),
        _ => symbolic_binary(old, new, r, lift_bits(x), lift_bits(y), BinOp::Bvand, ExecError::Type("and_bits")),
    }
}

/// Bitwise and, at the width of the first operand.
pub fn and_bits(x: Val, y: Val, solver: &mut Solver) -> (r: Result<Val, ExecError>)
    requires
        old(solver).room(1),
    ensures
        and_bits_post(*old(solver), *final(solver), r, x, y),
{
    match (&x, &y) {
        (Val::Bits(a), Val::Bits(b)) => Ok(Val::Bits(a.and(*b))),
        _ => binary_lifted(bits_exp(&x), bits_exp(&y), BinOp::Bvand, ExecError::Type("and_bits"), solver),
    }
}

/// What `add_bits` gives.
pub open spec fn add_bits_post(old: Solver, new: Solver, r: Result<Val, ExecError>, x: Val, y: Val) -> bool {
    match (x, y) {
        (Val::Bits(a), Val::Bits(b)) => yields_bits(old, new, r, a.width(), (a.value() + b.value()) % pow2(a.width())),
        _ => symbolic_binary(old, new, r, lift_bits(x), lift_bits(y), BinOp::Bvadd, ExecError::Type("add_bits")),
    }
}

/// Addition of bitvectors modulo `2^width` of the first operand.
pub fn add_bits(x: Val, y: Val, solver: &mut Solver) -> (r: Result<Val, ExecError>)
    requires
        old(solver).room(1),
    ensures
        add_bits_post(*old(solver), *final(solver), r, x, y),
{
    match (&x, &y) {
        (Val::Bits(a), Val::Bits(b)) => Ok(Val::Bits(a.add(*b))),
        _ => binary_lifted(bits_exp(&x), bits_exp(&y), BinOp::Bvadd, ExecError::Type("add_bits"), solver),
    }
}

/// What `sub_bits` gives.
pub open spec fn sub_bits_post(old: Solver, new: Solver, r: Result<Val, ExecError>, x: Val, y: Val) -> bool {
    match (x, y) {
        (Val::Bits(a), Val::Bits(b)) => yields_bits(old, new, r, a.width(), ((a.value() - b.value()) % (pow2(a.width()) as int)) as nat),
        _ => symbolic_binary(old, new, r, lift_bits(x), lift_bits(y), BinOp::Bvsub, ExecError::Type("sub_bits")),
    }
}

/// Subtraction of bitvectors modulo `2^width` of the first operand.
pub fn sub_bits(x: Val, y: Val, solver: &mut Solver) -> (r: Result<Val, ExecError>)
    requires
        old(solver).room(1),
    ensures
        sub_bits_post(*old(solver), *final(solver), r, x, y),
{
    match (&x, &y) {
        (Val::Bits(a), Val::Bits(b)) => Ok(Val::Bits(a.sub(*b))),
        _ => binary_lifted(bits_exp(&x), bits_exp(&y), BinOp::Bvsub, ExecError::Type("sub_bits"), solver),
    }
}

/// What `zeros` gives.
pub open spec fn zeros_post(old: Solver, new: Solver, r: Result<Val, ExecError>, len: Val) -> bool {
    match len {
        Val::I128(n) => if n <= 64 {
            yields_bits(old, new, r, n as nat, 0)
        } else {
            fresh_def(old, new, r, SExp::Bits(Seq::new(n as nat, |k: int| false)))
        },
        Val::Symbolic(_) => fails(old, new, r, ExecError::SymbolicLength("zeros")),
        _ => fails(old, new, r, ExecError::Type("zeros")),
    }
}

/// `len` zero bits: concrete up to 64 bits, an SMT literal beyond.
pub fn zeros(len: Val, solver: &mut Solver) -> (r: Result<Val, ExecError>)
    requires
        old(solver).room(1),
        len matches Val::I128(n) ==> 0 <= n <= usize::MAX,
    ensures
        zeros_post(*old(solver), *final(solver), r, len),
{
    match len {
        Val::I128(len) => {
            if len <= 64 {
                Ok(Val::Bits(B64::zeros(len as u32)))
            } else {
                Ok(Val::Symbolic(solver.define_const(smt_zeros(len))))
            }
        },
        Val::Symbolic(_) => Err(ExecError::SymbolicLength("zeros")),
        _ => Err(ExecError::Type("zeros")),
    }
}

/// What `ones` gives.
pub open spec fn ones_post(old: Solver, new: Solver, r: Result<Val, ExecError>, len: Val) -> bool {
    match len {
        Val::I128(n) => if n <= 64 {
            yields_bits(old, new, r, n as nat, (pow2(n as nat) - 1) as nat)
        } else {
            fresh_def(old, new, r, SExp::Bits(Seq::new(n as nat, |k: int| true)))
        },
        Val::Symbolic(_) => fails(old, new, r, ExecError::SymbolicLength("ones")),
        _ => fails(old, new, r, ExecError::Type("ones")),
    }
}

/// `len` one bits: concrete up to 64 bits, an SMT literal beyond.
pub fn ones(len: Val, solver: &mut Solver) -> (r: Result<Val, ExecError>)
    requires
        old(solver).room(1),
        len matches Val::I128(n) ==> 0 <= n <= usize::MAX,
    ensures
        ones_post(*old(solver), *final(solver), r, len),
{
    match len {
        Val::I128(len) => {
            if len <= 64 {
                Ok(Val::Bits(B64::ones(len as u32)))
            } else {
                Ok(Val::Symbolic(solver.define_const(smt_ones(len))))
            }
        },
        Val::Symbolic(_) => Err(ExecError::SymbolicLength("ones")),
        _ => Err(ExecError::Type("ones")),
    }
}

/// `n` reduced modulo `2^64`, as a pattern below `2^64`.
fn low64(n: i128) -> (r: u128)
    ensures
        r < pow2(64),
        (r as int) % (pow2(64) as int) == (n as int) % (pow2(64) as int),
{
    proof {
        crate::bits::lemma_pow2_127();
        vstd::arithmetic::power2::lemma2_to64_rest();
        crate::bits::lemma_pattern_congruent(n as int);
    }
    let p = pattern_of_i128(n);
    proof {
        crate::bits::lemma_mod_pow2_congruent(p as int, n as int, 128, 64);
        vstd::arithmetic::div_mod::lemma_mod_pos_bound(p as int, pow2(64) as int);
        vstd::arithmetic::div_mod::lemma_mod_twice(p as int, pow2(64) as int);
    }
    p % 0x1_0000_0000_0000_0000
}

/// `v + n` or `v - n` modulo `2^w`, for a `w`-bit `v`.
fn add_mod_pow2(v: u64, w: u32, n: i128, negate: bool) -> (r: u64)
    requires
        w <= 64,
    ensures
        r < pow2(w as nat),
        negate ==> r as int == (v - n) % (pow2(w as nat) as int),
        !negate ==> r as int == (v + n) % (pow2(w as nat) as int),
{
    let m = crate::bits::p2(w);
    let low = low64(n);
    proof {
        vstd::arithmetic::power2::lemma2_to64_rest();
        crate::bits::lemma_pow2_strictly_increases_or_eq(w as nat, 64);
        vstd::arithmetic::power2::lemma_pow2_pos(w as nat);
        crate::bits::lemma_mod_pow2_congruent(low as int, n as int, 64, w as nat);
    }
    let lm = low % m;
    let s = if negate {
        (v as u128 + (m - lm)) % m
    } else {
        (v as u128 + lm) % m
    };
    proof {
        let mi = m as int;
        vstd::arithmetic::div_mod::lemma_mod_twice(low as int, mi);
        vstd::arithmetic::div_mod::lemma_mod_pos_bound(low as int, mi);
        if negate {
            vstd::arithmetic::div_mod::lemma_sub_mod_noop(v as int, n as int, mi);
            vstd::arithmetic::div_mod::lemma_sub_mod_noop(v as int, lm as int, mi);
            vstd::arithmetic::div_mod::lemma_mod_multiples_vanish(1, v as int - lm as int, mi);
            vstd::arithmetic::div_mod::lemma_mod_pos_bound(v as int + mi - lm as int, mi);
        } else {
            vstd::arithmetic::div_mod::lemma_add_mod_noop(v as int, n as int, mi);
            vstd::arithmetic::div_mod::lemma_add_mod_noop(v as int, lm as int, mi);
            vstd::arithmetic::div_mod::lemma_mod_pos_bound(v as int + lm as int, mi);
        }
    }
    s as u64
}

/// Where the bitvector operand is symbolic of width `1 <= len <= 128`, the
/// SMT addition or subtraction of the low `len` bits of the integer operand.
fn bits_int_symbolic(bits: Sym, n: Exp, negate: bool, name: &'static str, solver: &mut Solver) -> (r: Result<Val, ExecError>)
    requires
        old(solver).room(1),
        old(solver).sym_length(bits) matches Some(len) ==> 1 <= len <= 128,
    ensures
        match old(solver).sym_length(bits) {
            Some(len) => fresh_def(
                *old(solver),
                *final(solver),
                r,
                bin(
                    if negate { BinOp::Bvsub } else { BinOp::Bvadd },
                    SExp::Var(bits),
                    SExp::Extract((len - 1) as u32, 0, Box::new(n@)),
                ),
            ),
            None => fails_after_fresh(*old(solver), *final(solver), r, ExecError::Type(name)),
        },
{
    proof {
        reveal_with_fuel(sexp, 2);
    }
    let result = solver.fresh();
    let len = match solver.length(bits) {
        Some(len) => len,
        None => return Err(ExecError::Type(name)),
    };
    let low = Exp::Extract(len - 1, 0, Box::new(n));
    let op = if negate { BinOp::Bvsub } else { BinOp::Bvadd };
    let e = Exp::binary(op, Exp::Var(bits), low);
    let ghost es = e@;
    solver.add(Def::DefineConst(result, e));
    proof {
        assert(solver.decls() =~= old(solver).decls().push(crate::smt::sort_of(old(solver).decls().push(None), es)));
    }
    Ok(Val::Symbolic(result))
}

/// Adds an integer to a bitvector modulo `2^width`.
pub fn add_bits_int(bits: Val, n: Val, solver: &mut Solver) -> (r: Result<Val, ExecError>)
    requires
        old(solver).room(1),
        bits matches Val::Symbolic(v) ==> (old(solver).sym_length(v) matches Some(len) ==> 1 <= len <= 128),
    ensures
        match (bits, n) {
            (Val::Bits(b), Val::I128(k)) => yields_bits(*old(solver), *final(solver), r, b.width(), ((b.value() + k) % (pow2(b.width()) as int)) as nat),
            (Val::Symbolic(v), Val::I128(k)) => match old(solver).sym_length(v) {
                Some(len) => fresh_def(*old(solver), *final(solver), r, bin(BinOp::Bvadd, SExp::Var(v), SExp::Extract((len - 1) as u32, 0, Box::new(sexp_i128(k))))),
                None => fails_after_fresh(*old(solver), *final(solver), r, ExecError::Type("add_bits_int")),
            },
            (Val::Symbolic(v), Val::Symbolic(k)) => match old(solver).sym_length(v) {
                Some(len) => fresh_def(*old(solver), *final(solver), r, bin(BinOp::Bvadd, SExp::Var(v), SExp::Extract((len - 1) as u32, 0, Box::new(SExp::Var(k))))),
                None => fails_after_fresh(*old(solver), *final(solver), r, ExecError::Type("add_bits_int")),
            },
            _ => fails(*old(solver), *final(solver), r, ExecError::Type("add_bits_int")),
        },
{
    match (bits, n) {
        (Val::Bits(b), Val::I128(k)) => {
            let w = b.len();
            let s = add_mod_pow2(b.bits(), w, k, false);
            proof {
                vstd::arithmetic::div_mod::lemma_small_mod(s as nat, pow2(w as nat));
            }
            Ok(Val::Bits(B64::new(s, w)))
        },
        (Val::Symbolic(v), Val::I128(k)) => bits_int_symbolic(v, smt_i128(k), false, "add_bits_int", solver),
        (Val::Symbolic(v), Val::Symbolic(k)) => bits_int_symbolic(v, Exp::Var(k), false, "add_bits_int", solver),
        (_, _) => Err(ExecError::Type("add_bits_int")),
    }
}

/// Subtracts an integer from a bitvector modulo `2^width`.
pub fn sub_bits_int(bits: Val, n: Val, solver: &mut Solver) -> (r: Result<Val, ExecError>)
    requires
        old(solver).room(1),
        bits matches Val::Symbolic(v) ==> (old(solver).sym_length(v) matches Some(len) ==> 1 <= len <= 128),
    ensures
        match (bits, n) {
            (Val::Bits(b), Val::I128(k)) => yields_bits(*old(solver), *final(solver), r, b.width(), ((b.value() - k) % (pow2(b.width()) as int)) as nat),
            (Val::Symbolic(v), Val::I128(k)) => match old(solver).sym_length(v) {
                Some(len) => fresh_def(*old(solver), *final(solver), r, bin(BinOp::Bvsub, SExp::Var(v), SExp::Extract((len - 1) as u32, 0, Box::new(sexp_i128(k))))),
                None => fails_after_fresh(*old(solver), *final(solver), r, ExecError::Type("sub_bits_int")),
            },
            (Val::Symbolic(v), Val::Symbolic(k)) => match old(solver).sym_length(v) {
                Some(len) => fresh_def(*old(solver), *final(solver), r, bin(BinOp::Bvsub, SExp::Var(v), SExp::Extract((len - 1) as u32, 0, Box::new(SExp::Var(k))))),
                None => fails_after_fresh(*old(solver), *final(solver), r, ExecError::Type("sub_bits_int")),
            },
            _ => fails(*old(solver), *final(solver), r, ExecError::Type("sub_bits_int")),
        },
{
    match (bits, n) {
        (Val::Bits(b), Val::I128(k)) => {
            let w = b.len();
            let s = add_mod_pow2(b.bits(), w, k, true);
            proof {
                vstd::arithmetic::div_mod::lemma_small_mod(s as nat, pow2(w as nat));
            }
            Ok(Val::Bits(B64::new(s, w)))
        },
        (Val::Symbolic(v), Val::I128(k)) => bits_int_symbolic(v, smt_i128(k), true, "sub_bits_int", solver),
        (Val::Symbolic(v), Val::Symbolic(k)) => bits_int_symbolic(v, Exp::Var(k), true, "sub_bits_int", solver),
        (_, _) => Err(ExecError::Type("sub_bits_int")),
    }
}

/// Shared by `zero_extend` and `sign_extend`: extends a bitvector to the
/// width `len`, concretely up to 64 bits and in the solver beyond.
fn extension(bits: Val, len: Val, sign: bool, name: &'static str, solver: &mut Solver) -> (r: Result<Val, ExecError>)
    requires
        old(solver).room(1),
        bits matches Val::Bits(b) ==> (len matches Val::I128(n) ==> ((n as u32) <= 64 ==> b.width() <= n as u32)),
        bits matches Val::Symbolic(v) ==> (len is I128 ==> (old(solver).sym_length(v) matches Some(o) ==> o <= len->I128_0 as u32)),
    ensures
        extension_post(*old(solver), *final(solver), r, bits, len, sign, name),
{
    proof {
        reveal_with_fuel(sexp, 2);
    }
    match (bits, len) {
        (Val::Bits(b), Val::I128(n)) => {
            let n32 = n as u32;
            if n32 > 64 {
                let ext = n32 - b.len();
                let inner = Box::new(smt_sbits(b));
                let e = if sign { Exp::SignExtend(ext, inner) } else { Exp::ZeroExtend(ext, inner) };
                Ok(Val::Symbolic(solver.define_const(e)))
            } else {
                let _w = b.len();
                Ok(Val::Bits(if sign { b.sign_extend(n32) } else { b.zero_extend(n32) }))
            }
        },
        (Val::Symbolic(v), Val::I128(n)) => {
            let ext = match solver.length(v) {
                Some(orig_len) => (n as u32) - orig_len,
                None => return Err(ExecError::Type(name)),
            };
            let inner = Box::new(Exp::Var(v));
            let e = if sign { Exp::SignExtend(ext, inner) } else { Exp::ZeroExtend(ext, inner) };
            Ok(Val::Symbolic(solver.define_const(e)))
        },
        (_, Val::Symbolic(_)) => Err(ExecError::SymbolicLength("extension")),
        (_, _) => Err(ExecError::Type(name)),
    }
}

/// The SMT extension of `e` by `n` bits, signed or not.
pub open spec fn extend_sexp(sign: bool, n: u32, e: SExp) -> SExp {
    if sign {
        SExp::SignExtend(n, Box::new(e))
    } else {
        SExp::ZeroExtend(n, Box::new(e))
    }
}

/// The value of a `w`-bit value `v` extended to `n` bits, signed or not.
pub open spec fn extended_value(sign: bool, w: nat, v: nat, n: nat) -> nat {
    if sign && w > 0 && v >= pow2((w - 1) as nat) {
        (v + pow2(n) - pow2(w)) as nat
    } else {
        v
    }
}

/// What `zero_extend` (`sign == false`) and `sign_extend` give.
pub open spec fn extension_post(
    old: Solver,
    new: Solver,
    r: Result<Val, ExecError>,
    bits: Val,
    len: Val,
    sign: bool,
    name: &'static str,
) -> bool {
    match (bits, len) {
        (Val::Bits(b), Val::I128(n)) => if (n as u32) > 64 {
            fresh_def(old, new, r, extend_sexp(sign, ((n as u32) - b.width()) as u32, sexp_bits(b)))
        } else {
            yields_bits(old, new, r, (n as u32) as nat, extended_value(sign, b.width(), b.value(), (n as u32) as nat))
        },
        (Val::Symbolic(v), Val::I128(n)) => match old.sym_length(v) {
            Some(o) => fresh_def(old, new, r, extend_sexp(sign, ((n as u32) - o) as u32, SExp::Var(v))),
            None => fails(old, new, r, ExecError::Type(name)),
        },
        (_, Val::Symbolic(_)) => fails(old, new, r, ExecError::SymbolicLength("extension")),
        _ => fails(old, new, r, ExecError::Type(name)),
    }
}

/// Zero-extends a bitvector to `len` bits.
pub fn zero_extend(bits: Val, len: Val, solver: &mut Solver) -> (r: Result<Val, ExecError>)
    requires
        old(solver).room(1),
        bits matches Val::Bits(b) ==> (len matches Val::I128(n) ==> ((n as u32) <= 64 ==> b.width() <= n as u32)),
        bits matches Val::Symbolic(v) ==> (len is I128 ==> (old(solver).sym_length(v) matches Some(o) ==> o <= len->I128_0 as u32)),
    ensures
        extension_post(*old(solver), *final(solver), r, bits, len, false, "zero_extend"),
{
    extension(bits, len, false, "zero_extend", solver)
}

/// Sign-extends a bitvector to `len` bits.
pub fn sign_extend(bits: Val, len: Val, solver: &mut Solver) -> (r: Result<Val, ExecError>)
    requires
        old(solver).room(1),
        bits matches Val::Bits(b) ==> (len matches Val::I128(n) ==> ((n as u32) <= 64 ==> b.width() <= n as u32)),
        bits matches Val::Symbolic(v) ==> (len is I128 ==> (old(solver).sym_length(v) matches Some(o) ==> o <= len->I128_0 as u32)),
    ensures
        extension_post(*old(solver), *final(solver), r, bits, len, true, "sign_extend"),
{
    extension(bits, len, true, "sign_extend", solver)
}

/// `times` copies of `e`, concatenated.
pub open spec fn replicate_sexp(e: SExp, times: nat) -> SExp
    decreases times,
{
    if times == 0 {
        SExp::Bits64(0, 0)
    } else if times == 1 {
        e
    } else {
        bin(BinOp::Concat, e, replicate_sexp(e, (times - 1) as nat))
    }
}

/// `times` copies of `bits`, concatenated, as an SMT expression.
pub fn replicate_exp(bits: Exp, times: i128) -> (r: Exp)
    requires
        times >= 0,
    ensures
        r@ == replicate_sexp(bits@, times as nat),
    decreases times,
{
    if times == 0 {
        Exp::Bits64(0, 0)
    } else if times == 1 {
        bits
    } else {
        let first = bits.copy();
        Exp::binary(BinOp::Concat, first, replicate_exp(bits, times - 1))
    }
}

/// What `replicate_bits` gives.
pub open spec fn replicate_post(old: Solver, new: Solver, r: Result<Val, ExecError>, bits: Val, times: Val) -> bool {
    match (bits, times) {
        (Val::Bits(b), Val::I128(t)) => if t == 0 {
            yields_bits(old, new, r, 0, 0)
        } else if t <= 1 {
            yields(old, new, r, Val::Bits(b))
        } else if b.width() * t <= 64 {
            yields_bits(old, new, r, (b.width() * t) as nat, replicate_of(b.width(), b.value(), t as nat))
        } else {
            fresh_def(old, new, r, replicate_sexp(sexp_bits(b), t as nat))
        },
        (Val::Symbolic(v), Val::I128(t)) => if t == 0 {
            yields_bits(old, new, r, 0, 0)
        } else {
            fresh_def(old, new, r, replicate_sexp(SExp::Var(v), t as nat))
        },
        _ => fails(old, new, r, ExecError::Type("replicate_bits")),
    }
}

/// `times` copies of a bitvector, concatenated: concretely where they fit in
/// 64 bits, in the solver otherwise.
pub fn replicate_bits(bits: Val, times: Val, solver: &mut Solver) -> (r: Result<Val, ExecError>)
    requires
        old(solver).room(1),
        bits is Symbolic ==> (times matches Val::I128(t) ==> t >= 0),
    ensures
        replicate_post(*old(solver), *final(solver), r, bits, times),
{
    proof {
        reveal_with_fuel(sexp, 2);
    }
    match (bits, times) {
        (Val::Bits(b), Val::I128(t)) => match b.replicate(t) {
            Some(replicated) => Ok(Val::Bits(replicated)),
            None => Ok(Val::Symbolic(solver.define_const(replicate_exp(smt_sbits(b), t)))),
        },
        (Val::Symbolic(v), Val::I128(t)) => {
            if t == 0 {
                Ok(Val::Bits(B64::zeros(0)))
            } else {
                Ok(Val::Symbolic(solver.define_const(replicate_exp(Exp::Var(v), t))))
            }
        },
        (_, _) => Err(ExecError::Type("replicate_bits")),
    }
}

/// What `sail_truncate_lsb` gives.
pub open spec fn truncate_lsb_post(old: Solver, new: Solver, r: Result<Val, ExecError>, bits: Val, len: Val) -> bool {
    match (bits, len) {
        (Val::Bits(b), Val::I128(n)) => if 0 <= n <= b.width() {
            yields_bits(old, new, r, n as nat, lshr_of(b.width(), b.value(), (b.width() - n) as nat))
        } else {
            fails(old, new, r, ExecError::Type("sail_truncateLSB"))
        },
        (Val::Symbolic(v), Val::I128(n)) => if n == 0 {
            yields_bits(old, new, r, 0, 0)
        } else {
            match old.sym_length(v) {
                Some(o) => fresh_def(old, new, r, SExp::Extract((o - 1) as u32, (o - (n as u32)) as u32, Box::new(SExp::Var(v)))),
                None => fails(old, new, r, ExecError::Type("sail_truncateLSB")),
            }
        },
        (_, Val::Symbolic(_)) => fails(old, new, r, ExecError::SymbolicLength("sail_truncateLSB")),
        _ => fails(old, new, r, ExecError::Type("sail_truncateLSB")),
    }
}

/// The `len` most significant bits of a bitvector.
pub fn sail_truncate_lsb(bits: Val, len: Val, solver: &mut Solver) -> (r: Result<Val, ExecError>)
    requires
        old(solver).room(1),
        bits matches Val::Symbolic(v) ==> (len matches Val::I128(n) ==> (n != 0 ==> (old(solver).sym_length(v) matches Some(o) ==> (n as u32) <= o && o >= 1))),
    ensures
        truncate_lsb_post(*old(solver), *final(solver), r, bits, len),
{
    proof {
        reveal_with_fuel(sexp, 2);
    }
    match (bits, len) {
        (Val::Bits(b), Val::I128(n)) => {
            let w = b.len();
            match b.truncate_lsb(n) {
                Some(truncated) => {
                    proof {
                        if n == 0 {
                            vstd::arithmetic::power2::lemma2_to64();
                            crate::bits::lemma_div_pow2_bound(b.value(), b.width(), 0);
                        }
                    }
                    Ok(Val::Bits(truncated))
                },
                None => Err(ExecError::Type("sail_truncateLSB")),
            }
        },
        (Val::Symbolic(v), Val::I128(n)) => {
            if n == 0 {
                proof {
                    vstd::arithmetic::power2::lemma2_to64();
                }
                Ok(Val::Bits(B64::new(0, 0)))
            } else {
                match solver.length(v) {
                    Some(orig_len) => {
                        let low = orig_len - (n as u32);
                        Ok(Val::Symbolic(solver.define_const(Exp::Extract(orig_len - 1, low, Box::new(Exp::Var(v))))))
                    },
                    None => Err(ExecError::Type("sail_truncateLSB")),
                }
            }
        },
        (_, Val::Symbolic(_)) => Err(ExecError::SymbolicLength("sail_truncateLSB")),
        (_, _) => Err(ExecError::Type("sail_truncateLSB")),
    }
}

/// A 128-bit shift amount `e` brought to the width `len` of the bitvector it
/// shifts.
pub open spec fn fit_shift(len: u32, e: SExp) -> SExp {
    if len < 128 {
        SExp::Extract((len - 1) as u32, 0, Box::new(e))
    } else if len > 128 {
        SExp::ZeroExtend((len - 128) as u32, Box::new(e))
    } else {
        e
    }
}

/// Brings a 128-bit shift amount to the width `len >= 1`.
pub fn fit_to(len: u32, e: Exp) -> (r: Exp)
    requires
        len >= 1,
    ensures
        r@ == fit_shift(len, e@),
{
    proof {
        reveal_with_fuel(sexp, 2);
    }
    if len < 128 {
        Exp::Extract(len - 1, 0, Box::new(e))
    } else if len > 128 {
        Exp::ZeroExtend(len - 128, Box::new(e))
    } else {
        e
    }
}

/// What `shiftr` (`left == false`) and `shiftl` give.
pub open spec fn shift_post(old: Solver, new: Solver, r: Result<Val, ExecError>, bits: Val, shift: Val, left: bool) -> bool {
    let op = if left { BinOp::Bvshl } else { BinOp::Bvlshr };
    let name: &'static str = if left { "shiftl" } else { "shiftr" };
    match (bits, shift) {
        (Val::Symbolic(x), Val::Symbolic(y)) => match old.sym_length(x) {
            Some(len) => fresh_def(old, new, r, bin(op, SExp::Var(x), fit_shift(len, SExp::Var(y)))),
            None => fails(old, new, r, ExecError::Type(name)),
        },
        (Val::Symbolic(x), Val::I128(0)) => yields(old, new, r, Val::Symbolic(x)),
        (Val::Symbolic(x), Val::I128(y)) => match old.sym_length(x) {
            Some(len) => fresh_def(old, new, r, bin(op, SExp::Var(x), fit_shift(len, sexp_i128(y)))),
            None => fails(old, new, r, ExecError::Type(name)),
        },
        (Val::Bits(x), Val::Symbolic(y)) => fresh_def(
            old,
            new,
            r,
            bin(op, sexp_bits(x), SExp::Extract((x.width() - 1) as u32, 0, Box::new(SExp::Var(y)))),
        ),
        (Val::Bits(x), Val::I128(y)) => yields_bits(
            old,
            new,
            r,
            x.width(),
            if left { shiftl_of(x.width(), x.value(), y as int) } else { shiftr_of(x.width(), x.value(), y as int) },
        ),
        _ => fails(old, new, r, ExecError::Type(name)),
    }
}

/// Shared by `shiftr` and `shiftl`.
fn shift(bits: Val, amount: Val, left: bool, solver: &mut Solver) -> (r: Result<Val, ExecError>)
    requires
        old(solver).room(1),
        bits matches Val::Symbolic(x) ==> (old(solver).sym_length(x) matches Some(len) ==> len >= 1),
        bits matches Val::Bits(x) ==> (amount is Symbolic ==> x.width() >= 1),
    ensures
        shift_post(*old(solver), *final(solver), r, bits, amount, left),
{
    proof {
        reveal_with_fuel(sexp, 3);
    }
    let op = if left { BinOp::Bvshl } else { BinOp::Bvlshr };
    let name: &'static str = if left { "shiftl" } else { "shiftr" };
    match (bits, amount) {
        (Val::Symbolic(x), Val::Symbolic(y)) => match solver.length(x) {
            Some(length) => {
                let s = fit_to(length, Exp::Var(y));
                Ok(Val::Symbolic(solver.define_const(Exp::binary(op, Exp::Var(x), s))))
            },
            None => Err(ExecError::Type(name)),
        },
        (Val::Symbolic(x), Val::I128(0)) => Ok(Val::Symbolic(x)),
        (Val::Symbolic(x), Val::I128(y)) => match solver.length(x) {
            Some(length) => {
                let s = fit_to(length, smt_i128(y));
                Ok(Val::Symbolic(solver.define_const(Exp::binary(op, Exp::Var(x), s))))
            },
            None => Err(ExecError::Type(name)),
        },
        (Val::Bits(x), Val::Symbolic(y)) => {
            let s = Exp::Extract(x.len() - 1, 0, Box::new(Exp::Var(y)));
            Ok(Val::Symbolic(solver.define_const(Exp::binary(op, smt_sbits(x), s))))
        },
        (Val::Bits(x), Val::I128(y)) => Ok(Val::Bits(if left { x.shiftl(y) } else { x.shiftr(y) })),
        (_, _) => Err(ExecError::Type(name)),
    }
}

/// Logical shift right of a bitvector by an integer amount.
pub fn shiftr(bits: Val, shift_amount: Val, solver: &mut Solver) -> (r: Result<Val, ExecError>)
    requires
        old(solver).room(1),
        bits matches Val::Symbolic(x) ==> (old(solver).sym_length(x) matches Some(len) ==> len >= 1),
        bits matches Val::Bits(x) ==> (shift_amount is Symbolic ==> x.width() >= 1),
    ensures
        shift_post(*old(solver), *final(solver), r, bits, shift_amount, false),
{
    shift(bits, shift_amount, false, solver)
}

/// Shift left of a bitvector by an integer amount.
pub fn shiftl(bits: Val, len: Val, solver: &mut Solver) -> (r: Result<Val, ExecError>)
    requires
        old(solver).room(1),
        bits matches Val::Symbolic(x) ==> (old(solver).sym_length(x) matches Some(n) ==> n >= 1),
        bits matches Val::Bits(x) ==> (len is Symbolic ==> x.width() >= 1),
    ensures
        shift_post(*old(solver), *final(solver), r, bits, len, true),
{
    shift(bits, len, true, solver)
}

/// What `shift_bits_right` (`left == false`) and `shift_bits_left` give.
pub open spec fn shift_bits_post(old: Solver, new: Solver, r: Result<Val, ExecError>, bits: Val, shift: Val, left: bool) -> bool {
    let op = if left { BinOp::Bvshl } else { BinOp::Bvlshr };
    let name: &'static str = if left { "shift_bits_left" } else { "shift_bits_right" };
    let has_len = match bits {
        Val::Bits(_) => true,
        Val::Symbolic(v) => old.sym_length(v) is Some,
        _ => false,
    };
    if !has_len {
        fails(old, new, r, ExecError::Type("length_bits"))
    } else {
        match (bits, shift) {
            (Val::Bits(x), Val::Bits(y)) => yields_bits(
                old,
                new,
                r,
                x.width(),
                if left { shiftl_of(x.width(), x.value(), y.value() as int) } else { shiftr_of(x.width(), x.value(), y.value() as int) },
            ),
            _ => match (lift_bits(bits), lift_bits(shift)) {
                (Some(a), Some(b)) => fresh_def(old, new, r, bin(op, a, b)),
                _ => fails(old, new, r, ExecError::Type(name)),
            },
        }
    }
}

/// Shared by `shift_bits_right` and `shift_bits_left`.
fn shift_bits(bits: Val, shift: Val, left: bool, solver: &mut Solver) -> (r: Result<Val, ExecError>)
    requires
        old(solver).room(1),
    ensures
        shift_bits_post(*old(solver), *final(solver), r, bits, shift, left),
{
    let op = if left { BinOp::Bvshl } else { BinOp::Bvlshr };
    let name: &'static str = if left { "shift_bits_left" } else { "shift_bits_right" };
    let _bits_len = length_bits(&bits, solver)?;
    match (&bits, &shift) {
        (Val::Bits(x), Val::Bits(y)) => Ok(Val::Bits(if left { x.shiftl(y.bits() as i128) } else { x.shiftr(y.bits() as i128) })),
        _ => binary_lifted(bits_exp(&bits), bits_exp(&shift), op, ExecError::Type(name), solver),
    }
}

/// Logical shift right of a bitvector by the unsigned value of another.
pub fn shift_bits_right(bits: Val, shift: Val, solver: &mut Solver) -> (r: Result<Val, ExecError>)
    requires
        old(solver).room(1),
    ensures
        shift_bits_post(*old(solver), *final(solver), r, bits, shift, false),
{
    shift_bits(bits, shift, false, solver)
}

/// Shift left of a bitvector by the unsigned value of another.
pub fn shift_bits_left(bits: Val, shift: Val, solver: &mut Solver) -> (r: Result<Val, ExecError>)
    requires
        old(solver).room(1),
    ensures
        shift_bits_post(*old(solver), *final(solver), r, bits, shift, true),
{
    shift_bits(bits, shift, true, solver)
}

/// What `append` gives.
pub open spec fn append_post(old: Solver, new: Solver, r: Result<Val, ExecError>, lhs: Val, rhs: Val) -> bool {
    match (lhs, rhs) {
        (Val::Symbolic(x), Val::Bits(y)) => if y.width() == 0 {
            fresh_def(old, new, r, SExp::Var(x))
        } else {
            fresh_def(old, new, r, bin(BinOp::Concat, SExp::Var(x), sexp_bits(y)))
        },
        (Val::Bits(x), Val::Symbolic(y)) => if x.width() == 0 {
            fresh_def(old, new, r, SExp::Var(y))
        } else {
            fresh_def(old, new, r, bin(BinOp::Concat, sexp_bits(x), SExp::Var(y)))
        },
        (Val::Bits(x), Val::Bits(y)) => if x.width() + y.width() <= 64 {
            yields_bits(old, new, r, x.width() + y.width(), x.value() * pow2(y.width()) + y.value())
        } else {
            fresh_def(old, new, r, bin(BinOp::Concat, sexp_bits(x), sexp_bits(y)))
        },
        _ => symbolic_binary(old, new, r, lift_bits(lhs), lift_bits(rhs), BinOp::Concat, ExecError::Type("append")),
    }
}

/// Concatenation of two bitvectors, the first in the high bits: concrete
/// where the result fits in 64 bits, in the solver otherwise.
pub fn append(lhs: Val, rhs: Val, solver: &mut Solver) -> (r: Result<Val, ExecError>)
    requires
        old(solver).room(1),
    ensures
        append_post(*old(solver), *final(solver), r, lhs, rhs),
{
    proof {
        reveal_with_fuel(sexp, 2);
    }
    match (&lhs, &rhs) {
        (Val::Symbolic(x), Val::Bits(y)) => {
            if y.len() == 0 {
                Ok(Val::Symbolic(solver.define_const(Exp::Var(*x))))
            } else {
                Ok(Val::Symbolic(solver.define_const(Exp::binary(BinOp::Concat, Exp::Var(*x), smt_sbits(*y)))))
            }
        },
        (Val::Bits(x), Val::Symbolic(y)) => {
            if x.len() == 0 {
                Ok(Val::Symbolic(solver.define_const(Exp::Var(*y))))
            } else {
                Ok(Val::Symbolic(solver.define_const(Exp::binary(BinOp::Concat, smt_sbits(*x), Exp::Var(*y)))))
            }
        },
        (Val::Bits(x), Val::Bits(y)) => match x.append(*y) {
            Some(z) => Ok(Val::Bits(z)),
            None => Ok(Val::Symbolic(solver.define_const(Exp::binary(BinOp::Concat, smt_sbits(*x), smt_sbits(*y))))),
        },
        _ => binary_lifted(bits_exp(&lhs), bits_exp(&rhs), BinOp::Concat, ExecError::Type("append"), solver),
    }
}

} // verus!
