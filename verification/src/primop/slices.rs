//! Slices of bitvectors and integers: reading a run of bits, and writing one.

use vstd::arithmetic::power2::pow2;
use vstd::prelude::*;

use super::bitvec::{fit_shift, fit_to, length_bits, sail_unsigned};
use super::ints::{mult_int, udiv_int, wrapping_div_i128};
use super::encode::{
    bits_exp, i128_exp, lift_bits, lift_i128, opt_sexp, sexp_bits, sexp_i128, sexp_i64,
    sexp_of_val, smt_i128, smt_i64, smt_mask_lower, smt_sbits, smt_value,
};
use super::{fails, fresh_def, take3, unchanged, yields, yields_bits};
use crate::bits::B64;
use crate::bits::{i128_of_pattern, set_slice_int as splice_i128, set_slice_of, u128_pattern};
use crate::smt::{
    bin, lemma_defines_each_none, lemma_defines_each_push, lemma_sorts_after_len, sexp, sorts_after, un, BinOp, Def, Exp, SDef, SExp, Solver, Sym,
    UnOp,
};
use crate::val::{copy_val, ExecError, LocalFrame, Val};

verus! {

/// The width of a concrete or symbolic bitvector; `None` where the value is
/// not a bitvector.
pub open spec fn val_length(s: Solver, v: Val) -> Option<u32> {
    match v {
        Val::Bits(b) => Some(b.width() as u32),
        Val::Symbolic(x) => s.sym_length(x),
        _ => None,
    }
}

/// The bits from `f` to `f + len - 1` of a `bl`-bit expression; the whole
/// expression where that is all of it.
pub open spec fn extract_from(bl: u32, bits: SExp, f: int, len: i128) -> SExp {
    if f == 0 && len as u32 == bl {
        bits
    } else {
        SExp::Extract((f + len - 1) as u32, f as u32, Box::new(bits))
    }
}

/// The `len` bits of the `bl`-bit expression `bits` from position `from`
/// upwards; `None` where `from` is not an integer.
pub open spec fn slice_sexp(bl: u32, bits: SExp, from: Val, len: i128) -> Option<SExp> {
    match from {
        Val::Symbolic(f) => Some(
            SExp::Extract(
                ((len as u32) - 1) as u32,
                0,
                Box::new(bin(BinOp::Bvlshr, bits, fit_shift(bl, SExp::Var(f)))),
            ),
        ),
        Val::I128(f) => Some(extract_from(bl, bits, f as int, len)),
        Val::I64(f) => Some(extract_from(bl, bits, f as int, len)),
        _ => None,
    }
}

/// The slice of `len` bits from `from` fits in the `bl` bits it is taken
/// from, and its bounds can be computed.
pub open spec fn slice_ok(bl: u32, from: Val, len: i128) -> bool {
    &&& (len as u32) <= bl
    &&& match from {
        Val::Symbolic(_) => (len as u32) >= 1,
        Val::I128(f) => i128::MIN <= f + len - 1 && f + len <= i128::MAX,
        Val::I64(f) => i128::MIN <= f + len - 1 && f + len <= i128::MAX,
        _ => true,
    }
}

/// The slice was defined as a fresh variable, or failed for a position that
/// is not an integer.
pub open spec fn slice_post(
    old: Solver,
    new: Solver,
    r: Result<Val, ExecError>,
    bl: u32,
    bits: SExp,
    from: Val,
    len: i128,
) -> bool {
    match slice_sexp(bl, bits, from, len) {
        Some(e) => fresh_def(old, new, r, e),
        None => fails(old, new, r, ExecError::Type("slice!")),
    }
}

/// The bits from `f` to `f + len - 1` of `bits`.
fn extract_exp(bl: u32, bits: Exp, f: i128, len: i128) -> (r: Exp)
    requires
        i128::MIN <= f + len - 1 && f + len <= i128::MAX,
    ensures
        r@ == extract_from(bl, bits@, f as int, len),
{
    if f == 0 && len as u32 == bl {
        bits
    } else {
        Exp::Extract((f + len - 1) as u32, f as u32, Box::new(bits))
    }
}

/// Defines the slice of `len` bits of `bits` from position `from`.
fn slice_exp(bl: u32, bits: Exp, from: Val, len: i128, solver: &mut Solver) -> (r: Result<Val, ExecError>)
    requires
        old(solver).room(1),
        slice_ok(bl, from, len),
    ensures
        slice_post(*old(solver), *final(solver), r, bl, bits@, from, len),
{
    match from {
        Val::Symbolic(f) => {
            let shift = fit_to(bl, Exp::Var(f));
            proof {
                reveal_with_fuel(sexp, 2);
            }
            let shifted = Exp::binary(BinOp::Bvlshr, bits, shift);
            let e = Exp::Extract((len as u32) - 1, 0, Box::new(shifted));
            Ok(Val::Symbolic(solver.define_const(e)))
        },
        Val::I128(f) => Ok(Val::Symbolic(solver.define_const(extract_exp(bl, bits, f, len)))),
        Val::I64(f) => Ok(Val::Symbolic(solver.define_const(extract_exp(bl, bits, f as i128, len)))),
        _ => Err(ExecError::Type("slice!")),
    }
}

/// What slicing a concrete bitvector `b` gives at a position `from` that is
/// not concrete: zeros where `b` is zero, the slice defined in the solver
/// otherwise.
pub open spec fn slice_concrete_post(
    old: Solver,
    new: Solver,
    r: Result<Val, ExecError>,
    b: B64,
    from: Val,
    len: i128,
) -> bool {
    if b.value() == 0 {
        yields_bits(old, new, r, b.width(), 0)
    } else {
        slice_post(old, new, r, b.width() as u32, sexp_bits(b), from, len)
    }
}

/// The `length` bits of a bitvector from position `from` upwards, where the
/// position is a 64-bit integer or a symbol.
pub fn op_slice(bits: Val, from: Val, length: u32, solver: &mut Solver) -> (r: Result<Val, ExecError>)
    requires
        old(solver).room(1),
        match bits {
            Val::Symbolic(v) => old(solver).sym_length(v) matches Some(bl) ==> slice_ok(bl, from, length as i128),
            Val::Bits(b) => !(from is I64) && b.value() != 0 ==> slice_ok(b.width() as u32, from, length as i128),
            _ => true,
        },
    ensures
        match bits {
            Val::Bits(b) => match from {
                Val::I64(f) => if (f as u32) + length <= b.width() {
                    yields_bits(*old(solver), *final(solver), r, length as nat, (b.value() / pow2((f as u32) as nat)) % pow2(length as nat))
                } else {
                    fails(*old(solver), *final(solver), r, ExecError::Type("op_slice"))
                },
                _ => slice_concrete_post(*old(solver), *final(solver), r, b, from, length as i128),
            },
            Val::Symbolic(v) => match old(solver).sym_length(v) {
                Some(bl) => slice_post(*old(solver), *final(solver), r, bl, SExp::Var(v), from, length as i128),
                None => fails(*old(solver), *final(solver), r, ExecError::Type("length_bits")),
            },
            _ => fails(*old(solver), *final(solver), r, ExecError::Type("length_bits")),
        },
{
    let bits_length = length_bits(&bits, solver)?;
    match bits {
        Val::Symbolic(v) => slice_exp(bits_length, Exp::Var(v), from, length as i128, solver),
        Val::Bits(b) => match from {
            Val::I64(f) => match b.slice(f as u32, length) {
                Some(s) => Ok(Val::Bits(s)),
                None => Err(ExecError::Type("op_slice")),
            },
            _ => {
                if b.is_zero() {
                    Ok(Val::Bits(B64::zeros(b.len())))
                } else {
                    slice_exp(bits_length, smt_sbits(b), from, length as i128, solver)
                }
            },
        },
        _ => Err(ExecError::Type("op_slice")),
    }
}

/// What `slice_internal` gives for a bitvector of `bl` bits.
pub open spec fn slice_internal_post(
    old: Solver,
    new: Solver,
    r: Result<Val, ExecError>,
    bits: Val,
    from: Val,
    length: Val,
) -> bool {
    match val_length(old, bits) {
        None => fails(old, new, r, ExecError::Type("length_bits")),
        Some(bl) => match length {
            Val::I128(len) => match bits {
                Val::Symbolic(v) => slice_post(old, new, r, bl, SExp::Var(v), from, len),
                Val::Bits(b) => match from {
                    Val::I128(f) => if (f as u32) + (len as u32) <= b.width() {
                        yields_bits(old, new, r, (len as u32) as nat, (b.value() / pow2((f as u32) as nat)) % pow2((len as u32) as nat))
                    } else {
                        fails(old, new, r, ExecError::Type("slice_internal"))
                    },
                    _ => slice_concrete_post(old, new, r, b, from, len),
                },
                _ => fails(old, new, r, ExecError::Type("slice_internal")),
            },
            Val::Symbolic(_) => fails(old, new, r, ExecError::SymbolicLength("slice_internal")),
            _ => fails(old, new, r, ExecError::Type("slice_internal")),
        },
    }
}

/// Where `slice_internal` computes a slice in the solver, it fits.
pub open spec fn slice_internal_ok(s: Solver, bits: Val, from: Val, length: Val) -> bool {
    length matches Val::I128(len) ==> match bits {
        Val::Symbolic(v) => s.sym_length(v) matches Some(bl) ==> slice_ok(bl, from, len),
        Val::Bits(b) => !(from is I128) && b.value() != 0 ==> slice_ok(b.width() as u32, from, len),
        _ => true,
    }
}

/// The `length` bits of a bitvector from position `from` upwards.
pub fn slice_internal(bits: Val, from: Val, length: Val, solver: &mut Solver) -> (r: Result<Val, ExecError>)
    requires
        old(solver).room(1),
        slice_internal_ok(*old(solver), bits, from, length),
    ensures
        slice_internal_post(*old(solver), *final(solver), r, bits, from, length),
{
    let bits_length = length_bits(&bits, solver)?;
    match length {
        Val::I128(len) => match bits {
            Val::Symbolic(v) => slice_exp(bits_length, Exp::Var(v), from, len, solver),
            Val::Bits(b) => match from {
                Val::I128(f) => match b.slice(f as u32, len as u32) {
                    Some(s) => Ok(Val::Bits(s)),
                    None => Err(ExecError::Type("slice_internal")),
                },
                _ => {
                    if b.is_zero() {
                        Ok(Val::Bits(B64::zeros(b.len())))
                    } else {
                        slice_exp(bits_length, smt_sbits(b), from, len, solver)
                    }
                },
            },
            _ => Err(ExecError::Type("slice_internal")),
        },
        Val::Symbolic(_) => Err(ExecError::SymbolicLength("slice_internal")),
        _ => Err(ExecError::Type("slice_internal")),
    }
}

/// `slice(bits, from, length)`: the `length` bits of `bits` from position
/// `from` upwards.
pub fn slice(args: Vec<Val>, solver: &mut Solver, frame: &mut LocalFrame) -> (r: Result<Val, ExecError>)
    requires
        args@.len() >= 3,
        old(solver).room(1),
        slice_internal_ok(*old(solver), args@[0], args@[1], args@[2]),
    ensures
        slice_internal_post(*old(solver), *final(solver), r, args@[0], args@[1], args@[2]),
        *final(frame) == *old(frame),
{
    let (bits, from, length) = take3(args, 0, 1, 2);
    slice_internal(bits, from, length, solver)
}

/// The `len` low bits of a bitvector.
pub fn sail_truncate(bits: Val, len: Val, solver: &mut Solver) -> (r: Result<Val, ExecError>)
    requires
        old(solver).room(1),
        slice_internal_ok(*old(solver), bits, Val::I128(0), len),
    ensures
        slice_internal_post(*old(solver), *final(solver), r, bits, Val::I128(0), len),
{
    slice_internal(bits, Val::I128(0), len, solver)
}

/// What `subrange_internal` gives.
pub open spec fn subrange_internal_post(old: Solver, new: Solver, r: Result<Val, ExecError>, bits: Val, high: Val, low: Val) -> bool {
    match (bits, high, low) {
        (Val::Symbolic(v), Val::I128(h), Val::I128(l)) => fresh_def(old, new, r, SExp::Extract(h as u32, l as u32, Box::new(SExp::Var(v)))),
        (Val::Bits(b), Val::I128(h), Val::I128(l)) => if (l as u32) <= (h as u32) < b.width() {
            yields_bits(old, new, r, ((h as u32) - (l as u32) + 1) as nat, (b.value() / pow2((l as u32) as nat)) % pow2(((h as u32) - (l as u32) + 1) as nat))
        } else {
            fails(old, new, r, ExecError::Type("subrange_internal"))
        },
        (_, _, Val::Symbolic(_)) => fails(old, new, r, ExecError::SymbolicLength("subrange_internal")),
        (_, Val::Symbolic(_), _) => fails(old, new, r, ExecError::SymbolicLength("subrange_internal")),
        _ => fails(old, new, r, ExecError::Type("subrange_internal")),
    }
}

/// The bits of a bitvector from `low` up to `high` inclusive.
pub fn subrange_internal(bits: Val, high: Val, low: Val, solver: &mut Solver) -> (r: Result<Val, ExecError>)
    requires
        old(solver).room(1),
    ensures
        subrange_internal_post(*old(solver), *final(solver), r, bits, high, low),
{
    proof {
        reveal_with_fuel(sexp, 2);
    }
    match (bits, high, low) {
        (Val::Symbolic(v), Val::I128(h), Val::I128(l)) => {
            Ok(Val::Symbolic(solver.define_const(Exp::Extract(h as u32, l as u32, Box::new(Exp::Var(v))))))
        },
        (Val::Bits(b), Val::I128(h), Val::I128(l)) => match b.extract(h as u32, l as u32) {
            Some(s) => Ok(Val::Bits(s)),
            None => Err(ExecError::Type("subrange_internal")),
        },
        (_, _, Val::Symbolic(_)) => Err(ExecError::SymbolicLength("subrange_internal")),
        (_, Val::Symbolic(_), _) => Err(ExecError::SymbolicLength("subrange_internal")),
        (_, _, _) => Err(ExecError::Type("subrange_internal")),
    }
}

/// `subrange(bits, high, low)`: the bits of `bits` from `low` up to `high`.
pub fn subrange(args: Vec<Val>, solver: &mut Solver, frame: &mut LocalFrame) -> (r: Result<Val, ExecError>)
    requires
        args@.len() >= 3,
        old(solver).room(1),
    ensures
        subrange_internal_post(*old(solver), *final(solver), r, args@[0], args@[1], args@[2]),
        *final(frame) == *old(frame),
{
    let (bits, high, low) = take3(args, 0, 1, 2);
    subrange_internal(bits, high, low, solver)
}

/// A mask of `bl` bits of which the `ul` low ones are set.
pub open spec fn low_mask(bl: u32, ul: u32) -> SExp {
    SExp::Bits(Seq::new(bl as nat, |i: int| i < ul))
}

/// An update of `ul` bits zero-extended to `bl` bits.
pub open spec fn widened(bl: u32, ul: u32, update: SExp) -> SExp {
    if bl == ul {
        update
    } else {
        SExp::ZeroExtend((bl - ul) as u32, Box::new(update))
    }
}

/// The `bl`-bit expression `bits` with the `ul`-bit `update` written over
/// it from bit position `n` upwards; `None` stands for position zero, where
/// no shift is needed.
pub open spec fn splice_sexp(bl: u32, ul: u32, bits: SExp, n: Option<SExp>, update: SExp) -> SExp {
    let mask = low_mask(bl, ul);
    let upd = widened(bl, ul, update);
    match n {
        Some(n) => {
            let shift = fit_shift(bl, n);
            bin(
                BinOp::Bvor,
                bin(BinOp::Bvand, bits, un(UnOp::Bvnot, bin(BinOp::Bvshl, mask, shift))),
                bin(BinOp::Bvshl, upd, shift),
            )
        },
        None => bin(BinOp::Bvor, bin(BinOp::Bvand, bits, un(UnOp::Bvnot, mask)), upd),
    }
}

/// Builds `splice_sexp`.
fn splice_exp(bl: u32, ul: u32, bits: Exp, n: Option<Exp>, update: Exp) -> (r: Exp)
    requires
        ul <= bl,
        n is Some ==> bl >= 1,
    ensures
        r@ == splice_sexp(bl, ul, bits@, opt_sexp(n), update@),
{
    let mask = smt_mask_lower(bl as usize, ul as usize);
    proof {
        assert(mask@ == low_mask(bl, ul)) by {
            assert(Seq::new(bl as usize as nat, |i: int| i < ul as usize) =~= Seq::new(bl as nat, |i: int| i < ul));
        }
    }
    let upd = if bl == ul {
        update
    } else {
        Exp::ZeroExtend(bl - ul, Box::new(update))
    };
    match n {
        Some(n) => {
            let shift = fit_to(bl, n);
            let shift2 = shift.copy();
            let kept = Exp::unary(UnOp::Bvnot, Exp::binary(BinOp::Bvshl, mask, shift));
            Exp::binary(BinOp::Bvor, Exp::binary(BinOp::Bvand, bits, kept), Exp::binary(BinOp::Bvshl, upd, shift2))
        },
        None => {
            let kept = Exp::unary(UnOp::Bvnot, mask);
            Exp::binary(BinOp::Bvor, Exp::binary(BinOp::Bvand, bits, kept), upd)
        },
    }
}

/// The SMT form of a bit position of 128-bit integer sort: `Some(None)` for
/// the concrete position zero.
pub open spec fn position_i128(n: Val) -> Option<Option<SExp>> {
    match n {
        Val::I128(k) => if k == 0 {
            Some(None)
        } else {
            Some(Some(sexp_i128(k)))
        },
        Val::Symbolic(v) => Some(Some(SExp::Var(v))),
        _ => None,
    }
}

/// The SMT form of a bit position of 64-bit integer sort: `Some(None)` for
/// the concrete position zero.
pub open spec fn position_i64(n: Val) -> Option<Option<SExp>> {
    match n {
        Val::I64(k) => if k == 0 {
            Some(None)
        } else {
            Some(Some(sexp_i64(k)))
        },
        Val::Symbolic(v) => Some(Some(SExp::Var(v))),
        _ => None,
    }
}

/// The SMT form of an optional position.
pub open spec fn opt_position(p: Option<Option<Exp>>) -> Option<Option<SExp>> {
    match p {
        Some(n) => Some(opt_sexp(n)),
        None => None,
    }
}

/// Builds `position_i128` (`wide`) or `position_i64`.
fn position_exp(n: &Val, wide: bool) -> (r: Option<Option<Exp>>)
    ensures
        opt_position(r) == (if wide { position_i128(*n) } else { position_i64(*n) }),
{
    match n {
        Val::I128(k) => if wide {
            if *k == 0 {
                Some(None)
            } else {
                Some(Some(smt_i128(*k)))
            }
        } else {
            None
        },
        Val::I64(k) => if wide {
            None
        } else {
            if *k == 0 {
                Some(None)
            } else {
                Some(Some(smt_i64(*k)))
            }
        },
        Val::Symbolic(v) => Some(Some(Exp::Var(*v))),
        _ => None,
    }
}

/// Where the operands have SMT forms, the splice defined as a fresh
/// variable; otherwise a type error `name`.
pub open spec fn splice_post(
    old: Solver,
    new: Solver,
    r: Result<Val, ExecError>,
    bl: u32,
    ul: u32,
    bits: Option<SExp>,
    pos: Option<Option<SExp>>,
    update: Option<SExp>,
    name: &'static str,
) -> bool {
    match (bits, pos, update) {
        (Some(be), Some(p), Some(ue)) => fresh_def(old, new, r, splice_sexp(bl, ul, be, p, ue)),
        _ => fails(old, new, r, ExecError::Type(name)),
    }
}

/// The splice can be built: the update fits, and a shifted one has bits to
/// shift.
pub open spec fn splice_ok(bl: u32, ul: u32, pos: Option<Option<SExp>>) -> bool {
    pos matches Some(p) ==> (ul <= bl && (p is Some ==> bl >= 1))
}

/// Defines the splice of `update` into `bits` at `pos`.
fn splice_vals(
    bl: u32,
    ul: u32,
    bits: Option<Exp>,
    pos: Option<Option<Exp>>,
    update: Option<Exp>,
    name: &'static str,
    solver: &mut Solver,
) -> (r: Result<Val, ExecError>)
    requires
        old(solver).room(1),
        splice_ok(bl, ul, opt_position(pos)),
    ensures
        splice_post(*old(solver), *final(solver), r, bl, ul, opt_sexp(bits), opt_position(pos), opt_sexp(update), name),
{
    match (bits, pos, update) {
        (Some(b), Some(p), Some(u)) => Ok(Val::Symbolic(solver.define_const(splice_exp(bl, ul, b, p, u)))),
        _ => Err(ExecError::Type(name)),
    }
}

/// What `set_slice_internal` (`wide`, positions of 128-bit integer sort) and
/// `op_set_slice` (positions of 64-bit integer sort) give.
pub open spec fn set_slice_post(
    old: Solver,
    new: Solver,
    r: Result<Val, ExecError>,
    bits: Val,
    n: Val,
    update: Val,
    wide: bool,
) -> bool {
    let pos = if wide { position_i128(n) } else { position_i64(n) };
    match (val_length(old, bits), val_length(old, update)) {
        (Some(bl), Some(ul)) => match (bits, n, update) {
            (Val::Bits(b), Val::I128(k), Val::Bits(u)) if wide => yields_bits(old, new, r, b.width(), set_slice_of(b.width(), b.value(), (k as u32) as nat, u.width(), u.value())),
            (Val::Bits(b), Val::I64(k), Val::Bits(u)) if !wide => yields_bits(old, new, r, b.width(), set_slice_of(b.width(), b.value(), (k as u32) as nat, u.width(), u.value())),
            _ => splice_post(old, new, r, bl, ul, lift_bits(bits), pos, lift_bits(update), "set_slice"),
        },
        _ => fails(old, new, r, ExecError::Type("length_bits")),
    }
}

/// The operands of `set_slice_internal` (`wide`) or `op_set_slice` are all
/// concrete, so that no splice is built.
pub open spec fn set_slice_concrete(bits: Val, n: Val, update: Val, wide: bool) -> bool {
    &&& bits is Bits
    &&& update is Bits
    &&& if wide { n is I128 } else { n is I64 }
}

/// Where `set_slice_internal` or `op_set_slice` builds a splice, it can be
/// built.
pub open spec fn set_slice_ok(s: Solver, bits: Val, n: Val, update: Val, wide: bool) -> bool {
    let pos = if wide { position_i128(n) } else { position_i64(n) };
    match (val_length(s, bits), val_length(s, update)) {
        (Some(bl), Some(ul)) => set_slice_concrete(bits, n, update, wide) || splice_ok(bl, ul, pos),
        _ => true,
    }
}

/// Writes `update` over `bits` from position `n` upwards, keeping the width
/// of `bits`; positions are of 128-bit (`wide`) or 64-bit integer sort.
fn set_slice_at(bits: Val, n: Val, update: Val, wide: bool, solver: &mut Solver) -> (r: Result<Val, ExecError>)
    requires
        old(solver).room(1),
        set_slice_ok(*old(solver), bits, n, update, wide),
    ensures
        set_slice_post(*old(solver), *final(solver), r, bits, n, update, wide),
{
    let bits_length = length_bits(&bits, solver)?;
    let update_length = length_bits(&update, solver)?;
    match (&bits, &n, &update) {
        (Val::Bits(b), Val::I128(k), Val::Bits(u)) if wide => {
            return Ok(Val::Bits(b.set_slice(*k as u32, *u)));
        },
        (Val::Bits(b), Val::I64(k), Val::Bits(u)) if !wide => {
            return Ok(Val::Bits(b.set_slice(*k as u32, *u)));
        },
        _ => {},
    }
    let pos = position_exp(&n, wide);
    splice_vals(bits_length, update_length, bits_exp(&bits), pos, bits_exp(&update), "set_slice", solver)
}

/// Writes `update` over `bits` from position `n` upwards, keeping the width
/// of `bits`.
pub fn set_slice_internal(bits: Val, n: Val, update: Val, solver: &mut Solver) -> (r: Result<Val, ExecError>)
    requires
        old(solver).room(1),
        set_slice_ok(*old(solver), bits, n, update, true),
    ensures
        set_slice_post(*old(solver), *final(solver), r, bits, n, update, true),
{
    set_slice_at(bits, n, update, true, solver)
}

/// `set_slice_internal` with a position that is a 64-bit integer.
pub fn op_set_slice(bits: Val, n: Val, update: Val, solver: &mut Solver) -> (r: Result<Val, ExecError>)
    requires
        old(solver).room(1),
        set_slice_ok(*old(solver), bits, n, update, false),
    ensures
        set_slice_post(*old(solver), *final(solver), r, bits, n, update, false),
{
    set_slice_at(bits, n, update, false, solver)
}

/// `set_slice(_, _, bits, n, update)`: the two leading widths are not read.
pub fn set_slice(args: Vec<Val>, solver: &mut Solver, frame: &mut LocalFrame) -> (r: Result<Val, ExecError>)
    requires
        args@.len() >= 5,
        old(solver).room(1),
        set_slice_ok(*old(solver), args@[2], args@[3], args@[4], true),
    ensures
        set_slice_post(*old(solver), *final(solver), r, args@[2], args@[3], args@[4], true),
        *final(frame) == *old(frame),
{
    let (bits, n, update) = take3(args, 2, 3, 4);
    set_slice_internal(bits, n, update, solver)
}

/// What `set_slice_int_internal` gives: the bits of a 128-bit integer from
/// position `n` upwards replaced by `update`.
pub open spec fn set_slice_int_post(
    old: Solver,
    new: Solver,
    r: Result<Val, ExecError>,
    number: Val,
    n: Val,
    update: Val,
) -> bool {
    match val_length(old, update) {
        None => fails(old, new, r, ExecError::Type("length_bits")),
        Some(ul) => match (number, n, update) {
            (Val::I128(i), Val::I128(k), Val::Bits(u)) => yields(
                old,
                new,
                r,
                Val::I128(i128_of_pattern(set_slice_of(128, u128_pattern(i as int), (k as u32) as nat, u.width(), u.value())) as i128),
            ),
            _ => splice_post(old, new, r, 128, ul, lift_i128(number), position_i128(n), lift_bits(update), "set_slice_int"),
        },
    }
}

/// Where `set_slice_int_internal` builds a splice, it can be built.
pub open spec fn set_slice_int_ok(s: Solver, n: Val, update: Val) -> bool {
    val_length(s, update) matches Some(ul) ==> splice_ok(128, ul, position_i128(n))
}

/// Writes `update` over the 128-bit two's complement form of an integer from
/// position `n` upwards.
pub fn set_slice_int_internal(number: Val, n: Val, update: Val, solver: &mut Solver) -> (r: Result<Val, ExecError>)
    requires
        old(solver).room(1),
        set_slice_int_ok(*old(solver), n, update),
    ensures
        set_slice_int_post(*old(solver), *final(solver), r, number, n, update),
{
    let update_length = length_bits(&update, solver)?;
    if let (Val::I128(i), Val::I128(k), Val::Bits(u)) = (&number, &n, &update) {
        return Ok(Val::I128(splice_i128(*i, *k as u32, *u)));
    }
    let pos = position_exp(&n, true);
    splice_vals(128, update_length, i128_exp(&number), pos, bits_exp(&update), "set_slice_int", solver)
}

/// `set_slice_int(_, int, n, update)`: the leading width is not read.
pub fn set_slice_int(args: Vec<Val>, solver: &mut Solver, frame: &mut LocalFrame) -> (r: Result<Val, ExecError>)
    requires
        args@.len() >= 4,
        old(solver).room(1),
        set_slice_int_ok(*old(solver), args@[2], args@[3]),
    ensures
        set_slice_int_post(*old(solver), *final(solver), r, args@[1], args@[2], args@[3]),
        *final(frame) == *old(frame),
{
    let (number, n, update) = take3(args, 1, 2, 3);
    set_slice_int_internal(number, n, update, solver)
}

/// `vector_update_subrange(bits, _, n, update)`: `update` written over
/// `bits` from position `n`.
pub fn vector_update_subrange(args: Vec<Val>, solver: &mut Solver, frame: &mut LocalFrame) -> (r: Result<Val, ExecError>)
    requires
        args@.len() >= 4,
        old(solver).room(1),
        set_slice_ok(*old(solver), args@[0], args@[2], args@[3], true),
    ensures
        set_slice_post(*old(solver), *final(solver), r, args@[0], args@[2], args@[3], true),
        *final(frame) == *old(frame),
{
    let (bits, n, update) = take3(args, 0, 2, 3);
    set_slice_internal(bits, n, update, solver)
}

/// `bitvector_update(bits, n, update)`: `update` written over `bits` from the
/// 64-bit position `n`.
pub fn bitvector_update(args: Vec<Val>, solver: &mut Solver, frame: &mut LocalFrame) -> (r: Result<Val, ExecError>)
    requires
        args@.len() >= 3,
        old(solver).room(1),
        set_slice_ok(*old(solver), args@[0], args@[1], args@[2], false),
    ensures
        set_slice_post(*old(solver), *final(solver), r, args@[0], args@[1], args@[2], false),
        *final(frame) == *old(frame),
{
    let (bits, n, update) = take3(args, 0, 1, 2);
    op_set_slice(bits, n, update, solver)
}

/// The definitions that writing `ue` at the symbolic index `n` gives the
/// first `m` elements of `xs`: element `i` becomes `if n == i then ue else
/// xs[i]`.
pub open spec fn update_sexps(n: Sym, ue: SExp, xs: Seq<Val>, m: nat) -> Seq<SExp> {
    Seq::new(
        m,
        |i: int|
            SExp::Ite(
                Box::new(bin(BinOp::Eq, SExp::Var(n), SExp::Bits64(i as u64, 128))),
                Box::new(ue),
                Box::new(sexp_of_val(xs[i]).unwrap()),
            ),
    )
}

/// `j` is the first position of `xs` whose element has no SMT form.
pub open spec fn first_bare(xs: Seq<Val>, j: int) -> bool {
    &&& 0 <= j < xs.len()
    &&& sexp_of_val(xs[j]) is None
    &&& forall|k: int| 0 <= k < j ==> (#[trigger] sexp_of_val(xs[k])) is Some
}

/// How many elements an update at a symbolic index defines before it meets
/// a value without an SMT form; none where the written value has none.
pub open spec fn updated_count(ue: Option<SExp>, xs: Seq<Val>) -> nat {
    if ue is None {
        0
    } else if exists|j: int| first_bare(xs, j) {
        (choose|j: int| first_bare(xs, j)) as nat
    } else {
        xs.len()
    }
}

/// The symbols numbered `base`, `base + 1`, ..., `base + m - 1`.
pub open spec fn fresh_syms(base: nat, m: nat) -> Seq<Val> {
    Seq::new(m, |i: int| Val::Symbolic(Sym { id: (base + i) as u32 }))
}

/// What writing `upd` at a symbolic index `n` of the vector `xs` gives:
/// each element is replaced by a fresh variable defined by `update_sexps`;
/// where an element or `upd` has no SMT form, the operation fails there, one
/// fresh variable having been taken and left undefined.
pub open spec fn update_symbolic_post(
    old: Solver,
    new: Solver,
    r: Result<Val, ExecError>,
    xs: Seq<Val>,
    n: Sym,
    upd: Val,
) -> bool {
    let ue = sexp_of_val(upd);
    let d = updated_count(ue, xs);
    let es = update_sexps(n, ue.unwrap(), xs, d);
    if d == xs.len() {
        &&& r matches Ok(Val::Vector(w)) && w@ == fresh_syms(old.decls().len(), d)
        &&& Solver::defines_each(&old, &new, es)
    } else {
        &&& r == Err::<Val, ExecError>(ExecError::Type("smt_value"))
        &&& new.decls() == sorts_after(old.decls(), es).push(None)
        &&& new.defs() == old.defs() + Seq::new(
            d,
            |i: int| SDef::DefineConst(Sym { id: (old.decls().len() + i) as u32 }, es[i]),
        )
        &&& new.events() == old.events()
        &&& new.cycles() == old.cycles()
    }
}

/// Writes `upd` at the symbolic index `n` of the vector `xs`.
fn update_symbolic(xs: Vec<Val>, n: Sym, upd: &Val, solver: &mut Solver) -> (r: Result<Val, ExecError>)
    requires
        old(solver).room(xs@.len() + 1),
    ensures
        update_symbolic_post(*old(solver), *final(solver), r, xs@, n, *upd),
{
    let ghost s0 = *solver;
    let ghost xs0 = xs@;
    let ghost ue = sexp_of_val(*upd);
    let ghost base = s0.decls().len();
    let mut vec = xs;
    let mut i: usize = 0;
    proof {
        assert(sorts_after(s0.decls(), update_sexps(n, ue.unwrap(), xs0, 0)) == s0.decls());
        assert(s0.defs() + Seq::new(0, |k: int| SDef::DefineConst(Sym { id: (base + k) as u32 }, update_sexps(n, ue.unwrap(), xs0, 0)[k])) =~= s0.defs());
    }
    while i < vec.len()
        invariant
            vec@.len() == xs0.len(),
            i <= xs0.len(),
            s0 == *old(solver),
            xs0 == xs@,
            s0.room(xs0.len() + 1),
            base == s0.decls().len(),
            ue == sexp_of_val(*upd),
            forall|k: int| 0 <= k < i ==> vec@[k] == Val::Symbolic(Sym { id: (base + k) as u32 }),
            forall|k: int| i <= k < xs0.len() ==> vec@[k] == xs0[k],
            forall|k: int| 0 <= k < i ==> (#[trigger] sexp_of_val(xs0[k])) is Some,
            i > 0 ==> ue is Some,
            Solver::defines_each(&s0, solver, update_sexps(n, ue.unwrap(), xs0, i as nat)),
        decreases xs0.len() - i,
    {
        let ghost es = update_sexps(n, ue.unwrap(), xs0, i as nat);
        proof {
            lemma_sorts_after_len(s0.decls(), es);
        }
        let var = solver.fresh();
        let a = smt_value(upd);
        let b = smt_value(&vec[i]);
        match (a, b) {
            (Ok(a), Ok(b)) => {
                let test = Exp::binary(BinOp::Eq, Exp::Var(n), Exp::Bits64(i as u64, 128));
                let e = Exp::Ite(Box::new(test), Box::new(a), Box::new(b));
                let ghost es1 = update_sexps(n, ue.unwrap(), xs0, (i + 1) as nat);
                proof {
                    assert(e@ == es1[i as int]);
                    assert(es1.drop_last() =~= es);
                }
                solver.add(Def::DefineConst(var, e));
                vec.set(i, Val::Symbolic(var));
                proof {
                    let d = sorts_after(s0.decls(), es);
                    assert(solver.decls() =~= sorts_after(s0.decls(), es1));
                    assert(solver.defs() =~= s0.defs() + Seq::new(
                        es1.len(),
                        |k: int| SDef::DefineConst(Sym { id: (base + k) as u32 }, es1[k]),
                    ));
                }
            },
            _ => {
                proof {
                    if ue is Some {
                        assert(sexp_of_val(xs0[i as int]) is None);
                        assert(first_bare(xs0, i as int));
                        let j = choose|j: int| first_bare(xs0, j);
                        assert(first_bare(xs0, j));
                        if j < i {
                            assert(sexp_of_val(xs0[j]) is Some);
                        }
                        if j > i {
                            assert(sexp_of_val(xs0[i as int]) is Some);
                        }
                        assert(updated_count(ue, xs0) == i);
                    } else {
                        assert(updated_count(ue, xs0) == 0);
                    }
                    assert(solver.defs() =~= s0.defs() + Seq::new(
                        es.len(),
                        |k: int| SDef::DefineConst(Sym { id: (base + k) as u32 }, es[k]),
                    ));
                }
                return Err(ExecError::Type("smt_value"));
            },
        }
        i = i + 1;
    }
    proof {
        assert(vec@ =~= fresh_syms(base, xs0.len()));
        assert(!exists|j: int| first_bare(xs0, j));
    }
    Ok(Val::Vector(vec))
}

/// What `vector_update` gives.
pub open spec fn vector_update_post(old: Solver, new: Solver, r: Result<Val, ExecError>, vec: Val, n: Val, upd: Val) -> bool {
    match vec {
        Val::Vector(xs) => match n {
            Val::I128(k) => r matches Ok(Val::Vector(w)) && w@ == xs@.update((k as usize) as int, upd) && super::unchanged(old, new),
            Val::Symbolic(v) => update_symbolic_post(old, new, r, xs@, v, upd),
            _ => fails(old, new, r, ExecError::Type("vector_update (index)")),
        },
        Val::Bits(_) => set_slice_post(old, new, r, vec, n, upd, true),
        Val::Symbolic(v) => if old.sym_length(v) is Some {
            set_slice_post(old, new, r, vec, n, upd, true)
        } else {
            fails(old, new, r, ExecError::Type("vector_update"))
        },
        _ => fails(old, new, r, ExecError::Type("vector_update")),
    }
}

/// `vector_update(vec, n, x)`: element `n` of a vector replaced by `x`, or
/// bit `n` of a bitvector replaced by the one-bit `x`.
pub fn vector_update(args: Vec<Val>, solver: &mut Solver, frame: &mut LocalFrame) -> (r: Result<Val, ExecError>)
    requires
        args@.len() >= 3,
        old(solver).room(1),
        match args@[0] {
            Val::Vector(xs) => match args@[1] {
                Val::I128(k) => (k as usize) < xs@.len(),
                _ => old(solver).room(xs@.len() + 1),
            },
            _ => set_slice_ok(*old(solver), args@[0], args@[1], args@[2], true),
        },
    ensures
        vector_update_post(*old(solver), *final(solver), r, args@[0], args@[1], args@[2]),
        *final(frame) == *old(frame),
{
    let (vec, n, upd) = take3(args, 0, 1, 2);
    match vec {
        Val::Vector(xs) => match n {
            Val::I128(k) => {
                let mut xs = xs;
                xs.set(k as usize, upd);
                Ok(Val::Vector(xs))
            },
            Val::Symbolic(v) => update_symbolic(xs, v, &upd, solver),
            _ => Err(ExecError::Type("vector_update (index)")),
        },
        Val::Bits(_) => set_slice_internal(vec, n, upd, solver),
        Val::Symbolic(v) => {
            if solver.is_bitvector(v) {
                set_slice_internal(vec, n, upd, solver)
            } else {
                Err(ExecError::Type("vector_update"))
            }
        },
        _ => Err(ExecError::Type("vector_update")),
    }
}

/// `x` divided by `2^f`, rounded down: an arithmetic shift right.
fn shr_floor(x: i128, f: i128) -> (r: i128)
    requires
        0 <= f < 128,
    ensures
        r == (x as int) / (pow2(f as nat) as int),
{
    let d = crate::bits::p2(f as u32);
    proof {
        crate::bits::lemma_pow2_127();
        vstd::arithmetic::power2::lemma_pow2_pos(f as nat);
        crate::bits::lemma_pow2_strictly_increases_or_eq(f as nat, 127);
    }
    if x >= 0 {
        let q = (x as u128) / d;
        proof {
            assert(q <= x) by (nonlinear_arith)
                requires
                    q == (x as u128) / d,
                    d >= 1,
                    x >= 0,
            ;
        }
        q as i128
    } else {
        let m: u128 = ((-(x + 1)) as u128) + 1;
        let q = m / d;
        let rem = m % d;
        proof {
            vstd::arithmetic::div_mod::lemma_fundamental_div_mod(m as int, d as int);
            vstd::arithmetic::div_mod::lemma_mod_pos_bound(m as int, d as int);
            assert(q <= m) by (nonlinear_arith)
                requires
                    q == m / d,
                    d >= 1,
            ;
            assert(m == d * q + rem);
            assert(x == -(m as int));
            if rem == 0 {
                assert(x == (-(q as int)) * (d as int) + 0) by (nonlinear_arith)
                    requires
                        x == -(m as int),
                        m == d * q + rem,
                        rem == 0,
                ;
                vstd::arithmetic::div_mod::lemma_fundamental_div_mod_converse(x as int, d as int, -(q as int), 0);
            } else {
                assert(q < m) by (nonlinear_arith)
                    requires
                        m == d * q + rem,
                        rem > 0,
                        d >= 1,
                ;
                assert(x == (-(q as int) - 1) * (d as int) + (d - rem)) by (nonlinear_arith)
                    requires
                        x == -(m as int),
                        m == d * q + rem,
                ;
                vstd::arithmetic::div_mod::lemma_fundamental_div_mod_converse(x as int, d as int, -(q as int) - 1, d - rem);
            }
        }
        if rem == 0 {
            -(((q - 1) as i128)) - 1
        } else {
            -(q as i128) - 1
        }
    }
}

/// `x` modulo `2^l`, for `l <= 64`.
fn low_bits_of(x: i128, l: u32) -> (r: u64)
    requires
        l <= 64,
    ensures
        r == (x as int) % (pow2(l as nat) as int),
{
    let p = crate::bits::pattern_of_i128(x);
    let m = crate::bits::p2(l);
    proof {
        crate::bits::lemma_pow2_127();
        vstd::arithmetic::power2::lemma2_to64_rest();
        vstd::arithmetic::power2::lemma_pow2_pos(l as nat);
        crate::bits::lemma_pow2_strictly_increases_or_eq(l as nat, 64);
        crate::bits::lemma_pattern_congruent(x as int);
        crate::bits::lemma_mod_pow2_congruent(p as int, x as int, 128, l as nat);
        vstd::arithmetic::div_mod::lemma_mod_pos_bound(p as int, m as int);
    }
    (p % m) as u64
}

/// What `get_slice_int_internal` gives: `length` bits of the 128-bit two's
/// complement form of an integer, from position `from` upwards.
pub open spec fn get_slice_int_post(
    old: Solver,
    new: Solver,
    r: Result<Val, ExecError>,
    length: Val,
    n: Val,
    from: Val,
) -> bool {
    match length {
        Val::I128(l) => match n {
            Val::Symbolic(v) => slice_post(old, new, r, 128, SExp::Var(v), from, l),
            Val::I128(i) => match from {
                Val::I128(f) if l <= 64 => yields_bits(old, new, r, l as nat, ((i as int / (pow2(f as nat) as int)) % (pow2(l as nat) as int)) as nat),
                _ => slice_post(old, new, r, 128, sexp_i128(i), from, l),
            },
            _ => fails(old, new, r, ExecError::Type("get_slice_int")),
        },
        Val::Symbolic(_) => fails(old, new, r, ExecError::SymbolicLength("get_slice_int")),
        _ => fails(old, new, r, ExecError::Type("get_slice_int")),
    }
}

/// Where `get_slice_int_internal` slices, the slice is in range.
pub open spec fn get_slice_int_ok(length: Val, n: Val, from: Val) -> bool {
    length matches Val::I128(l) ==> match n {
        Val::Symbolic(_) => slice_ok(128, from, l),
        Val::I128(_) => match from {
            Val::I128(f) if l <= 64 => 0 <= l && 0 <= f < 128,
            _ => slice_ok(128, from, l),
        },
        _ => true,
    }
}

/// `length` bits of the 128-bit two's complement form of an integer, from
/// position `from` upwards.
pub fn get_slice_int_internal(length: Val, n: Val, from: Val, solver: &mut Solver) -> (r: Result<Val, ExecError>)
    requires
        old(solver).room(1),
        get_slice_int_ok(length, n, from),
    ensures
        get_slice_int_post(*old(solver), *final(solver), r, length, n, from),
{
    match length {
        Val::I128(l) => match n {
            Val::Symbolic(v) => slice_exp(128, Exp::Var(v), from, l, solver),
            Val::I128(i) => match from {
                Val::I128(f) if l <= 64 => {
                    let q = shr_floor(i, f);
                    let bits = low_bits_of(q, l as u32);
                    proof {
                        vstd::arithmetic::power2::lemma_pow2_pos(l as nat);
                        vstd::arithmetic::div_mod::lemma_mod_bound(q as int, pow2(l as nat) as int);
                        vstd::arithmetic::div_mod::lemma_small_mod(bits as nat, pow2(l as nat));
                    }
                    let b = B64::new(bits, l as u32);
                    assert(b.value() == bits);
                    Ok(Val::Bits(b))
                },
                _ => slice_exp(128, smt_i128(i), from, l, solver),
            },
            _ => Err(ExecError::Type("get_slice_int")),
        },
        Val::Symbolic(_) => Err(ExecError::SymbolicLength("get_slice_int")),
        _ => Err(ExecError::Type("get_slice_int")),
    }
}

/// `get_slice_int(length, n, from)`.
pub fn get_slice_int(args: Vec<Val>, solver: &mut Solver, frame: &mut LocalFrame) -> (r: Result<Val, ExecError>)
    requires
        args@.len() >= 3,
        old(solver).room(1),
        get_slice_int_ok(args@[0], args@[1], args@[2]),
    ensures
        get_slice_int_post(*old(solver), *final(solver), r, args@[0], args@[1], args@[2]),
        *final(frame) == *old(frame),
{
    let (length, n, from) = take3(args, 0, 1, 2);
    get_slice_int_internal(length, n, from, solver)
}

/// The symbol numbered `base + k`.
pub open spec fn nth_sym(base: nat, k: nat) -> Sym {
    Sym { id: (base + k) as u32 }
}

/// The mask that clears the bits below a power of two `a` in `bl` bits.
pub open spec fn align_mask(bl: u32, a: i128) -> SExp {
    SExp::Bits64(
        (pow2(bl as nat) - 1 - (((a as u64) - 1) as nat % pow2(bl as nat))) as u64,
        bl,
    )
}

/// What `align_bits` gives: the unsigned value of `bv` rounded down to a
/// multiple of `alignment`, in the width of `bv`.
pub open spec fn align_bits_post(
    old: Solver,
    new: Solver,
    r: Result<Val, ExecError>,
    bv: Val,
    alignment: Val,
) -> bool {
    let base = old.decls().len();
    match val_length(old, bv) {
        None => fails(old, new, r, ExecError::Type("length_bits")),
        Some(bl) => if aligns_by_mask(bv, alignment, bl) {
            fresh_def(
                old,
                new,
                r,
                bin(BinOp::Bvand, SExp::Var(bv->Symbolic_0), align_mask(bl, alignment->I128_0)),
            )
        } else {
            match (bv, alignment) {
            (Val::Bits(b), Val::I128(a)) => yields_bits(
                old,
                new,
                r,
                bl as nat,
                ((vstd::wrapping::i128_specs::wrapping_mul(a, wrapping_div_i128(b.value() as i128, a)) as int)
                    % (pow2(bl as nat) as int)) as nat,
            ),
            (Val::Bits(b), Val::Symbolic(s)) => {
                &&& r == Ok::<Val, ExecError>(Val::Symbolic(nth_sym(base, 2)))
                &&& Solver::defines_each(
                    &old,
                    &new,
                    seq![
                        bin(BinOp::Bvudiv, sexp_i128(b.value() as i128), SExp::Var(s)),
                        bin(BinOp::Bvmul, SExp::Var(s), SExp::Var(nth_sym(base, 0))),
                        extract_from(128, SExp::Var(nth_sym(base, 1)), 0, bl as i128),
                    ],
                )
            },
            (Val::Symbolic(v), a) => {
                let widened = SExp::ZeroExtend((128 - bl) as u32, Box::new(SExp::Var(v)));
                match lift_i128(a) {
                    Some(ae) => {
                        &&& r == Ok::<Val, ExecError>(Val::Symbolic(nth_sym(base, 3)))
                        &&& Solver::defines_each(
                            &old,
                            &new,
                            seq![
                                widened,
                                bin(BinOp::Bvudiv, SExp::Var(nth_sym(base, 0)), ae),
                                bin(BinOp::Bvmul, ae, SExp::Var(nth_sym(base, 1))),
                                extract_from(128, SExp::Var(nth_sym(base, 2)), 0, bl as i128),
                            ],
                        )
                    },
                    None => {
                        &&& r == Err::<Val, ExecError>(ExecError::Type("udiv_int"))
                        &&& Solver::defines_each(&old, &new, seq![widened])
                    },
                }
            },
            _ => fails(old, new, r, ExecError::Type("udiv_int")),
            }
        },
    }
}

/// Where both operands are concrete, `align_bits` computes the aligned value.
proof fn lemma_align_concrete(old: Solver, new: Solver, r: Result<Val, ExecError>, bv: Val, alignment: Val)
    requires
        bv matches Val::Bits(b) && alignment matches Val::I128(a) && yields_bits(
            old,
            new,
            r,
            (b.width() as u32) as nat,
            ((vstd::wrapping::i128_specs::wrapping_mul(a, wrapping_div_i128(b.value() as i128, a)) as int)
                % (pow2((b.width() as u32) as nat) as int)) as nat,
        ),
    ensures
        align_bits_post(old, new, r, bv, alignment),
{
}

/// A symbolic bitvector of at most 64 bits aligned to a power of two is
/// masked.
pub open spec fn aligns_by_mask(bv: Val, alignment: Val, bl: u32) -> bool {
    &&& bv is Symbolic
    &&& alignment matches Val::I128(a)
    &&& bl <= 64
    &&& (a & ((a - 1) as i128)) == 0
}

/// The inputs on which `align_bits` does not divide by zero, overflow, or
/// widen a bitvector of more than 128 bits.
pub open spec fn align_bits_ok(s: Solver, bv: Val, alignment: Val) -> bool {
    match (bv, alignment) {
        (Val::Symbolic(v), Val::I128(a)) => {
            &&& a != i128::MIN
            &&& (s.sym_length(v) matches Some(bl) && bl <= 64 && (a & ((a - 1) as i128)) == 0 ==> (a as u64) >= 1)
            &&& (s.sym_length(v) matches Some(bl) ==> bl <= 128)
        },
        (Val::Symbolic(v), _) => s.sym_length(v) matches Some(bl) ==> bl <= 128,
        (Val::Bits(_), Val::I128(a)) => a != 0,
        _ => true,
    }
}

/// Rounds the unsigned value of a bitvector down to a multiple of
/// `alignment`, keeping its width.
pub fn align_bits(bv: Val, alignment: Val, solver: &mut Solver) -> (r: Result<Val, ExecError>)
    requires
        old(solver).room(4),
        align_bits_ok(*old(solver), bv, alignment),
    ensures
        align_bits_post(*old(solver), *final(solver), r, bv, alignment),
{
    let ghost s0 = *solver;
    let ghost base = s0.decls().len();
    let bv_len = length_bits(&bv, solver)?;
    if let (Val::Symbolic(v), Val::I128(a)) = (&bv, &alignment) {
        let small = bv_len <= 64;
        let power_of_two = (*a & (*a - 1)) == 0;
        if small && power_of_two {
            let mask = B64::new((*a as u64) - 1, bv_len).not();
            let e = Exp::binary(BinOp::Bvand, Exp::Var(*v), smt_sbits(mask));
            return Ok(Val::Symbolic(solver.define_const(e)));
        }
    }
    let a2 = copy_val(&alignment);
    proof {
        assert(lift_i128(a2) == lift_i128(alignment));
        lemma_defines_each_none(s0);
    }
    let ghost mut es: Seq<SExp> = Seq::empty();
    let x = match sail_unsigned(bv, solver) {
        Ok(x) => x,
        Err(e) => return Err(e),
    };
    proof {
        if bv is Symbolic {
            let e0 = SExp::ZeroExtend((128 - bv_len) as u32, Box::new(SExp::Var(bv->Symbolic_0)));
            lemma_defines_each_push(s0, s0, *solver, es, e0);
            es = es.push(e0);
        }
    }
    let ghost s1 = *solver;
    let ghost ex = lift_i128(x);
    let ghost ea = lift_i128(alignment);
    let q = match udiv_int(x, alignment, solver) {
        Ok(q) => q,
        Err(e) => return Err(e),
    };
    proof {
        if !(x is I128 && alignment is I128) {
            let e1 = bin(BinOp::Bvudiv, ex.unwrap(), ea.unwrap());
            lemma_defines_each_push(s0, s1, *solver, es, e1);
            es = es.push(e1);
        }
    }
    let ghost s2 = *solver;
    let ghost eq = lift_i128(q);
    let m = match mult_int(a2, q, solver) {
        Ok(m) => m,
        Err(e) => return Err(e),
    };
    proof {
        if !(a2 is I128 && q is I128) {
            let e2 = bin(BinOp::Bvmul, ea.unwrap(), eq.unwrap());
            lemma_defines_each_push(s0, s2, *solver, es, e2);
            es = es.push(e2);
        }
    }
    let ghost s3 = *solver;
    let ghost mv = m;
    let r = get_slice_int_internal(Val::I128(bv_len as i128), m, Val::I128(0), solver);
    proof {
        vstd::arithmetic::power2::lemma2_to64();
        if mv is Symbolic {
            let e3 = extract_from(128, SExp::Var(mv->Symbolic_0), 0, bv_len as i128);
            lemma_defines_each_push(s0, s3, *solver, es, e3);
            es = es.push(e3);
        }
        if bv is Bits && alignment is I128 {
            let b = bv->Bits_0;
            let a = alignment->I128_0;
            let wm = vstd::wrapping::i128_specs::wrapping_mul(a, wrapping_div_i128(b.value() as i128, a));
            assert((wm as int) / (pow2(0) as int) == wm as int);
            lemma_align_concrete(s0, *solver, r, bv, alignment);
        } else if bv is Bits && alignment is Symbolic {
            let b = bv->Bits_0;
            let sa = alignment->Symbolic_0;
            assert(s1.decls() == s0.decls());
            lemma_sorts_after_len(s0.decls(), seq![bin(BinOp::Bvudiv, sexp_i128(b.value() as i128), SExp::Var(sa))]);
            assert(q == Val::Symbolic(nth_sym(base, 0)));
            assert(mv == Val::Symbolic(nth_sym(base, 1)));
            assert(es == seq![
                bin(BinOp::Bvudiv, sexp_i128(b.value() as i128), SExp::Var(sa)),
                bin(BinOp::Bvmul, SExp::Var(sa), SExp::Var(nth_sym(base, 0))),
                extract_from(128, SExp::Var(nth_sym(base, 1)), 0, bv_len as i128),
            ]);
            assert(align_bits_post(s0, *solver, r, bv, alignment));
        } else if bv is Bits {
            assert(align_bits_post(s0, *solver, r, bv, alignment));
        } else if ea is Some {
            assert(!(alignment matches Val::I128(a) && bv_len <= 64 && (a & ((a - 1) as i128)) == 0));
            assert(es == seq![
                SExp::ZeroExtend((128 - bv_len) as u32, Box::new(SExp::Var(bv->Symbolic_0))),
                bin(BinOp::Bvudiv, SExp::Var(nth_sym(base, 0)), ea.unwrap()),
                bin(BinOp::Bvmul, ea.unwrap(), SExp::Var(nth_sym(base, 1))),
                extract_from(128, SExp::Var(nth_sym(base, 2)), 0, bv_len as i128),
            ]);
            assert(align_bits_post(s0, *solver, r, bv, alignment));
        } else {
            assert(align_bits_post(s0, *solver, r, bv, alignment));
        }
    }
    r
}

} // verus!
