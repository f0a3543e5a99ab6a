//! Booleans: assumptions, assertions, connectives and choice.

use vstd::prelude::*;

use super::encode::{sexp_bits, smt_sbits, smt_value, sexp_of_val};
use super::{asserted, fails, fresh_def, symbolic_binary, unchanged, yields};
use crate::bits::B64;
use crate::smt::{bin, sexp, un, BinOp, Def, Exp, SExp, SmtResult, Solver, UnOp};
use crate::val::{ExecError, LocalFrame, Val};

verus! {

/// A boolean operand as an SMT expression.
pub open spec fn lift_bool(v: Val) -> Option<SExp> {
    match v {
        Val::Symbolic(s) => Some(SExp::Var(s)),
        Val::Bool(b) => Some(SExp::Bool(b)),
        _ => None,
    }
}

/// Assumes that `x` holds: a symbolic `x` becomes an assertion, a false one
/// the assertion `false`.
pub fn assume_bool(x: Val, solver: &mut Solver) -> (r: Result<Val, ExecError>)
    ensures
        match x {
            Val::Symbolic(v) => asserted(*old(solver), *final(solver), r, SExp::Var(v)),
            Val::Bool(true) => yields(*old(solver), *final(solver), r, Val::Unit),
            Val::Bool(false) => asserted(*old(solver), *final(solver), r, SExp::Bool(false)),
            _ => fails(*old(solver), *final(solver), r, ExecError::Type("assert")),
        },
{
    proof {
        reveal_with_fuel(sexp, 3);
    }
    match x {
        Val::Symbolic(v) => {
            solver.add(Def::Assert(Exp::Var(v)));
            Ok(Val::Unit)
        },
        Val::Bool(b) => {
            if b {
                Ok(Val::Unit)
            } else {
                solver.add(Def::Assert(Exp::Bool(false)));
                Ok(Val::Unit)
            }
        },
        _ => Err(ExecError::Type("assert")),
    }
}

/// Asserts `x`, succeeding where it can hold: for a symbolic `x`,
/// `can_be_true` is the solver's answer to whether `x` can be true under the
/// commands given so far, and where it can, `x` is asserted.
pub fn optimistic_assert(x: Val, message: Val, solver: &mut Solver, can_be_true: SmtResult) -> (r:
    Result<Val, ExecError>)
    ensures
        match message {
            Val::String(m) => match x {
                Val::Symbolic(v) => match can_be_true {
                    SmtResult::Sat => asserted(*old(solver), *final(solver), r, SExp::Var(v)),
                    SmtResult::Unsat => fails(
                        *old(solver),
                        *final(solver),
                        r,
                        ExecError::AssertionFailed(m),
                    ),
                    SmtResult::Unknown => fails(*old(solver), *final(solver), r, ExecError::SmtUnknown),
                },
                Val::Bool(true) => yields(*old(solver), *final(solver), r, Val::Unit),
                Val::Bool(false) => fails(
                    *old(solver),
                    *final(solver),
                    r,
                    ExecError::AssertionFailed(m),
                ),
                _ => fails(*old(solver), *final(solver), r, ExecError::Type("optimistic_assert")),
            },
            _ => fails(*old(solver), *final(solver), r, ExecError::Type("optimistic_assert")),
        },
{
    proof {
        reveal_with_fuel(sexp, 3);
    }
    let message = match message {
        Val::String(message) => message,
        _ => return Err(ExecError::Type("optimistic_assert")),
    };
    match x {
        Val::Symbolic(v) => {
            let can = match can_be_true {
                SmtResult::Sat => true,
                SmtResult::Unsat => false,
                SmtResult::Unknown => return Err(ExecError::SmtUnknown),
            };
            if can {
                solver.add(Def::Assert(Exp::Var(v)));
                Ok(Val::Unit)
            } else {
                Err(ExecError::AssertionFailed(message))
            }
        },
        Val::Bool(b) => {
            if b {
                Ok(Val::Unit)
            } else {
                Err(ExecError::AssertionFailed(message))
            }
        },
        _ => Err(ExecError::Type("optimistic_assert")),
    }
}

/// Asserts `x`, failing where it can fail: for a symbolic `x`, `can_be_false`
/// is the solver's answer to whether `x` can be false under the commands given
/// so far.
pub fn pessimistic_assert(x: Val, message: Val, solver: &mut Solver, can_be_false: SmtResult) -> (r:
    Result<Val, ExecError>)
    ensures
        match message {
            Val::String(m) => match x {
                Val::Symbolic(v) => match can_be_false {
                    SmtResult::Sat => fails(
                        *old(solver),
                        *final(solver),
                        r,
                        ExecError::AssertionFailed(m),
                    ),
                    SmtResult::Unsat => yields(*old(solver), *final(solver), r, Val::Unit),
                    SmtResult::Unknown => fails(*old(solver), *final(solver), r, ExecError::SmtUnknown),
                },
                Val::Bool(true) => yields(*old(solver), *final(solver), r, Val::Unit),
                Val::Bool(false) => fails(
                    *old(solver),
                    *final(solver),
                    r,
                    ExecError::AssertionFailed(m),
                ),
                _ => fails(*old(solver), *final(solver), r, ExecError::Type("pessimistic_assert")),
            },
            _ => fails(*old(solver), *final(solver), r, ExecError::Type("pessimistic_assert")),
        },
{
    let message = match message {
        Val::String(message) => message,
        _ => return Err(ExecError::Type("pessimistic_assert")),
    };
    match x {
        Val::Symbolic(_) => {
            let can = match can_be_false {
                SmtResult::Sat => true,
                SmtResult::Unsat => false,
                SmtResult::Unknown => return Err(ExecError::SmtUnknown),
            };
            if can {
                Err(ExecError::AssertionFailed(message))
            } else {
                Ok(Val::Unit)
            }
        },
        Val::Bool(b) => {
            if b {
                Ok(Val::Unit)
            } else {
                Err(ExecError::AssertionFailed(message))
            }
        },
        _ => Err(ExecError::Type("pessimistic_assert")),
    }
}

/// What `not_bool` gives.
pub open spec fn not_bool_post(old: Solver, new: Solver, r: Result<Val, ExecError>, x: Val) -> bool {
    match x {
        Val::Symbolic(v) => fresh_def(old, new, r, un(UnOp::Not, SExp::Var(v))),
        Val::Bool(b) => yields(old, new, r, Val::Bool(!b)),
        _ => fails(old, new, r, ExecError::Type("not")),
    }
}

/// Boolean negation.
pub fn not_bool(x: Val, solver: &mut Solver) -> (r: Result<Val, ExecError>)
    requires
        old(solver).room(1),
    ensures
        not_bool_post(*old(solver), *final(solver), r, x),
{
    proof {
        reveal_with_fuel(sexp, 3);
    }
    match x {
        Val::Symbolic(x) => Ok(Val::Symbolic(solver.define_const(Exp::Not(Box::new(Exp::Var(x)))))),
        Val::Bool(x) => Ok(Val::Bool(!x)),
        _ => Err(ExecError::Type("not")),
    }
}

/// The SMT form of a boolean operand.
fn bool_exp(v: &Val) -> (r: Exp)
    requires
        lift_bool(*v) is Some,
    ensures
        lift_bool(*v) == Some(r@),
{
    match v {
        Val::Symbolic(s) => Exp::Var(*s),
        Val::Bool(b) => Exp::Bool(*b),
        _ => Exp::Bool(false),
    }
}

/// What `and_bool` gives.
pub open spec fn and_bool_post(old: Solver, new: Solver, r: Result<Val, ExecError>, x: Val, y: Val) -> bool {
    match (x, y) {
        (Val::Bool(a), Val::Bool(b)) => yields(old, new, r, Val::Bool(a && b)),
        _ => symbolic_binary(
            old,
            new,
            r,
            lift_bool(x),
            lift_bool(y),
            BinOp::And,
            ExecError::Type("and_bool"),
        ),
    }
}

/// Boolean conjunction.
pub fn and_bool(x: Val, y: Val, solver: &mut Solver) -> (r: Result<Val, ExecError>)
    requires
        old(solver).room(1),
    ensures
        and_bool_post(*old(solver), *final(solver), r, x, y),
{
    proof {
        reveal_with_fuel(sexp, 3);
    }
    match (&x, &y) {
        (Val::Bool(a), Val::Bool(b)) => Ok(Val::Bool(*a && *b)),
        (Val::Symbolic(_), Val::Symbolic(_)) | (Val::Symbolic(_), Val::Bool(_)) | (
            Val::Bool(_),
            Val::Symbolic(_),
        ) => {
            let e = Exp::And(Box::new(bool_exp(&x)), Box::new(bool_exp(&y)));
            Ok(Val::Symbolic(solver.define_const(e)))
        },
        _ => Err(ExecError::Type("and_bool")),
    }
}

/// What `or_bool` gives.
pub open spec fn or_bool_post(old: Solver, new: Solver, r: Result<Val, ExecError>, x: Val, y: Val) -> bool {
    match (x, y) {
        (Val::Bool(a), Val::Bool(b)) => yields(old, new, r, Val::Bool(a || b)),
        _ => symbolic_binary(
            old,
            new,
            r,
            lift_bool(x),
            lift_bool(y),
            BinOp::Or,
            ExecError::Type("or_bool"),
        ),
    }
}

/// Boolean disjunction.
pub fn or_bool(x: Val, y: Val, solver: &mut Solver) -> (r: Result<Val, ExecError>)
    requires
        old(solver).room(1),
    ensures
        or_bool_post(*old(solver), *final(solver), r, x, y),
{
    proof {
        reveal_with_fuel(sexp, 3);
    }
    match (&x, &y) {
        (Val::Bool(a), Val::Bool(b)) => Ok(Val::Bool(*a || *b)),
        (Val::Symbolic(_), Val::Symbolic(_)) | (Val::Symbolic(_), Val::Bool(_)) | (
            Val::Bool(_),
            Val::Symbolic(_),
        ) => {
            let e = Exp::Or(Box::new(bool_exp(&x)), Box::new(bool_exp(&y)));
            Ok(Val::Symbolic(solver.define_const(e)))
        },
        _ => Err(ExecError::Type("or_bool")),
    }
}

/// Boolean equality.
pub fn eq_bool(x: Val, y: Val, solver: &mut Solver) -> (r: Result<Val, ExecError>)
    requires
        old(solver).room(1),
    ensures
        match (x, y) {
            (Val::Bool(a), Val::Bool(b)) => yields(*old(solver), *final(solver), r, Val::Bool(a == b)),
            _ => symbolic_binary(
                *old(solver),
                *final(solver),
                r,
                lift_bool(x),
                lift_bool(y),
                BinOp::Eq,
                ExecError::Type("eq_bool"),
            ),
        },
{
    proof {
        reveal_with_fuel(sexp, 3);
    }
    match (&x, &y) {
        (Val::Bool(a), Val::Bool(b)) => Ok(Val::Bool(*a == *b)),
        (Val::Symbolic(_), Val::Symbolic(_)) | (Val::Symbolic(_), Val::Bool(_)) | (
            Val::Bool(_),
            Val::Symbolic(_),
        ) => {
            let e = Exp::Eq(Box::new(bool_exp(&x)), Box::new(bool_exp(&y)));
            Ok(Val::Symbolic(solver.define_const(e)))
        },
        _ => Err(ExecError::Type("eq_bool")),
    }
}

/// The bit one where the condition holds, zero where it does not.
pub fn one_if(condition: Val, solver: &mut Solver) -> (r: Result<Val, ExecError>)
    requires
        old(solver).room(1),
    ensures
        match condition {
            Val::Bool(true) => r matches Ok(Val::Bits(b)) && b.width() == 1 && b.value() == 1
                && unchanged(*old(solver), *final(solver)),
            Val::Bool(false) => r matches Ok(Val::Bits(b)) && b.width() == 1 && b.value() == 0
                && unchanged(*old(solver), *final(solver)),
            Val::Symbolic(v) => fresh_def(
                *old(solver),
                *final(solver),
                r,
                SExp::Ite(
                    Box::new(SExp::Var(v)),
                    Box::new(SExp::Bits64(1, 1)),
                    Box::new(SExp::Bits64(0, 1)),
                ),
            ),
            _ => fails(*old(solver), *final(solver), r, ExecError::Type("one_if")),
        },
{
    proof {
        reveal_with_fuel(sexp, 3);
    }
    match condition {
        Val::Bool(true) => Ok(Val::Bits(B64::bit_one())),
        Val::Bool(false) => Ok(Val::Bits(B64::bit_zero())),
        Val::Symbolic(v) => {
            let e = Exp::Ite(
                Box::new(Exp::Var(v)),
                Box::new(smt_sbits(B64::bit_one())),
                Box::new(smt_sbits(B64::bit_zero())),
            );
            Ok(Val::Symbolic(solver.define_const(e)))
        },
        _ => Err(ExecError::Type("one_if")),
    }
}

/// The bit zero where the condition holds, one where it does not.
pub fn zero_if(condition: Val, solver: &mut Solver) -> (r: Result<Val, ExecError>)
    requires
        old(solver).room(1),
    ensures
        match condition {
            Val::Bool(true) => r matches Ok(Val::Bits(b)) && b.width() == 1 && b.value() == 0
                && unchanged(*old(solver), *final(solver)),
            Val::Bool(false) => r matches Ok(Val::Bits(b)) && b.width() == 1 && b.value() == 1
                && unchanged(*old(solver), *final(solver)),
            Val::Symbolic(v) => fresh_def(
                *old(solver),
                *final(solver),
                r,
                SExp::Ite(
                    Box::new(SExp::Var(v)),
                    Box::new(SExp::Bits64(0, 1)),
                    Box::new(SExp::Bits64(1, 1)),
                ),
            ),
            _ => fails(*old(solver), *final(solver), r, ExecError::Type("one_if")),
        },
{
    proof {
        reveal_with_fuel(sexp, 3);
    }
    match condition {
        Val::Bool(true) => Ok(Val::Bits(B64::bit_zero())),
        Val::Bool(false) => Ok(Val::Bits(B64::bit_one())),
        Val::Symbolic(v) => {
            let e = Exp::Ite(
                Box::new(Exp::Var(v)),
                Box::new(smt_sbits(B64::bit_zero())),
                Box::new(smt_sbits(B64::bit_one())),
            );
            Ok(Val::Symbolic(solver.define_const(e)))
        },
        _ => Err(ExecError::Type("one_if")),
    }
}

/// If-then-else over `args[0]`, `args[1]` and `args[2]`: a concrete condition
/// picks a branch; a symbolic one defines the choice in the solver.
pub fn ite(args: Vec<Val>, solver: &mut Solver, frame: &mut LocalFrame) -> (r: Result<Val, ExecError>)
    requires
        args@.len() >= 1,
        (args@[0] is Symbolic || args@[0] is Bool) ==> args@.len() >= 3,
        old(solver).room(1),
    ensures
        *final(frame) == *old(frame),
        match args@[0] {
            Val::Symbolic(c) => match (sexp_of_val(args@[1]), sexp_of_val(args@[2])) {
                (Some(a), Some(b)) => fresh_def(
                    *old(solver),
                    *final(solver),
                    r,
                    SExp::Ite(Box::new(SExp::Var(c)), Box::new(a), Box::new(b)),
                ),
                _ => fails(*old(solver), *final(solver), r, ExecError::Type("smt_value")),
            },
            Val::Bool(true) => yields(*old(solver), *final(solver), r, args@[1]),
            Val::Bool(false) => yields(*old(solver), *final(solver), r, args@[2]),
            _ => fails(*old(solver), *final(solver), r, ExecError::Type("ite")),
        },
{
    proof {
        reveal_with_fuel(sexp, 3);
    }
    let mut args = args;
    match args[0] {
        Val::Symbolic(b) => {
            let t = smt_value(&args[1])?;
            let e = smt_value(&args[2])?;
            let def = Exp::Ite(Box::new(Exp::Var(b)), Box::new(t), Box::new(e));
            Ok(Val::Symbolic(solver.define_const(def)))
        },
        Val::Bool(true) => Ok(args.swap_remove(1)),
        Val::Bool(false) => Ok(args.swap_remove(2)),
        _ => Err(ExecError::Type("ite")),
    }
}

/// A one-bit bitvector as a boolean: true where the bit is one.
pub fn bit_to_bool(bit: Val, solver: &mut Solver) -> (r: Result<Val, ExecError>)
    requires
        old(solver).room(1),
    ensures
        match bit {
            Val::Bits(b) => yields(*old(solver), *final(solver), r, Val::Bool(b.value() % 2 == 1)),
            Val::Symbolic(v) => fresh_def(
                *old(solver),
                *final(solver),
                r,
                bin(BinOp::Eq, SExp::Bits(seq![true]), SExp::Var(v)),
            ),
            _ => fails(*old(solver), *final(solver), r, ExecError::Type("bit_to_bool")),
        },
{
    proof {
        reveal_with_fuel(sexp, 3);
    }
    match bit {
        Val::Bits(b) => Ok(Val::Bool(b.bits() % 2 == 1)),
        Val::Symbolic(v) => {
            let mut one: Vec<bool> = Vec::new();
            one.push(true);
            proof {
                assert(one@ =~= seq![true]);
            }
            let e = Exp::Eq(Box::new(Exp::Bits(one)), Box::new(Exp::Var(v)));
            Ok(Val::Symbolic(solver.define_const(e)))
        },
        _ => Err(ExecError::Type("bit_to_bool")),
    }
}

} // verus!
