//! Equality of values of any base type, and of lists.

use vstd::prelude::*;

use super::encode::{binary_lifted, opt_sexp, sexp_bits, smt_sbits};
use super::{fails, symbolic_binary, yields};
use crate::smt::{BinOp, Exp, SExp, Solver};
use crate::val::{ExecError, Val};

verus! {

/// An operand of an equality test as an SMT expression.
pub open spec fn lift_eq(v: Val) -> Option<SExp> {
    match v {
        Val::Symbolic(s) => Some(SExp::Var(s)),
        Val::Bits(b) => Some(sexp_bits(b)),
        Val::Enum(e) => Some(SExp::Enum(e)),
        _ => None,
    }
}

/// The SMT form of an operand of an equality test, where it has one.
fn eq_exp(v: &Val) -> (r: Option<Exp>)
    ensures
        opt_sexp(r) == lift_eq(*v),
{
    match v {
        Val::Symbolic(s) => Some(Exp::Var(*s)),
        Val::Bits(b) => Some(smt_sbits(*b)),
        Val::Enum(e) => Some(Exp::Enum(*e)),
        _ => None,
    }
}

/// What `eq_anything` (`negate == false`) and `neq_anything` give.
pub open spec fn eq_anything_post(old: Solver, new: Solver, r: Result<Val, ExecError>, lhs: Val, rhs: Val, negate: bool) -> bool {
    let name: &'static str = if negate { "neq_anything" } else { "eq_anything" };
    match (lhs, rhs) {
        (Val::Bits(a), Val::Bits(b)) => yields(old, new, r, Val::Bool((a == b) != negate)),
        (Val::Enum(a), Val::Enum(b)) => yields(old, new, r, Val::Bool((a == b) != negate)),
        _ => if lhs is Symbolic || rhs is Symbolic {
            symbolic_binary(old, new, r, lift_eq(lhs), lift_eq(rhs), if negate { BinOp::Neq } else { BinOp::Eq }, ExecError::Type(name))
        } else {
            fails(old, new, r, ExecError::Type(name))
        },
    }
}

/// Shared by `eq_anything` and `neq_anything`.
fn compare_anything(lhs: Val, rhs: Val, negate: bool, solver: &mut Solver) -> (r: Result<Val, ExecError>)
    requires
        old(solver).room(1),
    ensures
        eq_anything_post(*old(solver), *final(solver), r, lhs, rhs, negate),
{
    let name: &'static str = if negate { "neq_anything" } else { "eq_anything" };
    let op = if negate { BinOp::Neq } else { BinOp::Eq };
    match (&lhs, &rhs) {
        (Val::Bits(a), Val::Bits(b)) => Ok(Val::Bool((*a == *b) != negate)),
        (Val::Enum(a), Val::Enum(b)) => Ok(Val::Bool((*a == *b) != negate)),
        (Val::Symbolic(_), _) | (_, Val::Symbolic(_)) => binary_lifted(eq_exp(&lhs), eq_exp(&rhs), op, ExecError::Type(name), solver),
        (_, _) => Err(ExecError::Type(name)),
    }
}

/// Equality of bitvectors, enumeration members, or symbols of those sorts.
pub fn eq_anything(lhs: Val, rhs: Val, solver: &mut Solver) -> (r: Result<Val, ExecError>)
    requires
        old(solver).room(1),
    ensures
        eq_anything_post(*old(solver), *final(solver), r, lhs, rhs, false),
{
    compare_anything(lhs, rhs, false, solver)
}

/// Disequality of bitvectors, enumeration members, or symbols of those sorts.
pub fn neq_anything(lhs: Val, rhs: Val, solver: &mut Solver) -> (r: Result<Val, ExecError>)
    requires
        old(solver).room(1),
    ensures
        eq_anything_post(*old(solver), *final(solver), r, lhs, rhs, true),
{
    compare_anything(lhs, rhs, true, solver)
}

/// Equality where lists are compared only by emptiness: lists of different
/// lengths differ, two empty lists are equal, and other lists cannot be
/// compared; any other values as `eq_anything`.
pub fn op_eq(x: Val, y: Val, solver: &mut Solver) -> (r: Result<Val, ExecError>)
    requires
        old(solver).room(1),
    ensures
        match (x, y) {
            (Val::List(xs), Val::List(ys)) => if xs@.len() != ys@.len() {
                yields(*old(solver), *final(solver), r, Val::Bool(false))
            } else if xs@.len() == 0 {
                yields(*old(solver), *final(solver), r, Val::Bool(true))
            } else {
                fails(*old(solver), *final(solver), r, ExecError::Type("op_eq"))
            },
            _ => eq_anything_post(*old(solver), *final(solver), r, x, y, false),
        },
{
    match (x, y) {
        (Val::List(xs), Val::List(ys)) => {
            if xs.len() != ys.len() {
                Ok(Val::Bool(false))
            } else if xs.len() == 0 && ys.len() == 0 {
                Ok(Val::Bool(true))
            } else {
                Err(ExecError::Type("op_eq"))
            }
        },
        (x, y) => eq_anything(x, y, solver),
    }
}

/// Disequality with lists compared as `op_eq` compares them.
pub fn op_neq(x: Val, y: Val, solver: &mut Solver) -> (r: Result<Val, ExecError>)
    requires
        old(solver).room(1),
    ensures
        match (x, y) {
            (Val::List(xs), Val::List(ys)) => if xs@.len() != ys@.len() {
                yields(*old(solver), *final(solver), r, Val::Bool(true))
            } else if xs@.len() == 0 {
                yields(*old(solver), *final(solver), r, Val::Bool(false))
            } else {
                fails(*old(solver), *final(solver), r, ExecError::Type("op_neq"))
            },
            _ => eq_anything_post(*old(solver), *final(solver), r, x, y, true),
        },
{
    match (x, y) {
        (Val::List(xs), Val::List(ys)) => {
            if xs.len() != ys.len() {
                Ok(Val::Bool(true))
            } else if xs.len() == 0 && ys.len() == 0 {
                Ok(Val::Bool(false))
            } else {
                Err(ExecError::Type("op_neq"))
            }
        },
        (x, y) => neq_anything(x, y, solver),
    }
}

} // verus!
