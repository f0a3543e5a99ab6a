//! The primitive operations, and the tables that name them.

use vstd::prelude::*;

use crate::smt::{bin, BinOp, SDef, SExp, Solver};
use crate::val::{ExecError, Val};

pub mod encode;
pub mod logic;
pub mod ints;
pub mod bitvec;
pub mod equality;
pub mod vectors;
pub mod slices;
pub mod strings;
pub mod effects;
pub mod registry;

verus! {

/// Nothing about the solver changed between `old` and `new`.
pub open spec fn unchanged(old: Solver, new: Solver) -> bool {
    &&& new.decls() == old.decls()
    &&& new.defs() == old.defs()
    &&& new.events() == old.events()
    &&& new.cycles() == old.cycles()
}

/// The operation returned `v` and left the solver as it was.
pub open spec fn yields(old: Solver, new: Solver, r: Result<Val, ExecError>, v: Val) -> bool {
    r == Ok::<Val, ExecError>(v) && unchanged(old, new)
}

/// The operation failed with `e` and left the solver as it was.
pub open spec fn fails(old: Solver, new: Solver, r: Result<Val, ExecError>, e: ExecError) -> bool {
    r == Err::<Val, ExecError>(e) && unchanged(old, new)
}

/// The operation took a fresh variable, left it undefined, and failed with
/// `e`.
pub open spec fn fails_after_fresh(old: Solver, new: Solver, r: Result<Val, ExecError>, e: ExecError) -> bool {
    &&& r == Err::<Val, ExecError>(e)
    &&& new.decls() == old.decls().push(None)
    &&& new.defs() == old.defs()
    &&& new.events() == old.events()
    &&& new.cycles() == old.cycles()
}

/// The operation defined a fresh variable as `e`, returned it, and changed
/// nothing else.
pub open spec fn fresh_def(old: Solver, new: Solver, r: Result<Val, ExecError>, e: SExp) -> bool {
    r == Ok::<Val, ExecError>(Val::Symbolic(old.next_sym())) && Solver::defines(
        &old,
        &new,
        old.next_sym(),
        e,
    )
}

/// The operation gave the solver the assertion `e`, returned unit, and
/// changed nothing else.
pub open spec fn asserted(old: Solver, new: Solver, r: Result<Val, ExecError>, e: SExp) -> bool {
    &&& r == Ok::<Val, ExecError>(Val::Unit)
    &&& new.defs() == old.defs().push(SDef::Assert(e))
    &&& new.decls() == old.decls()
    &&& new.events() == old.events()
    &&& new.cycles() == old.cycles()
}

/// The operation returned a bitvector of `width` bits and value `value`,
/// and left the solver as it was.
pub open spec fn yields_bits(
    old: Solver,
    new: Solver,
    r: Result<Val, ExecError>,
    width: nat,
    value: nat,
) -> bool {
    &&& r matches Ok(Val::Bits(b)) && b.width() == width && b.value() == value
    &&& unchanged(old, new)
}

/// Where both operands have an SMT form, the operation defined a fresh
/// variable as `op` applied to them; otherwise it failed with `err`.
pub open spec fn symbolic_binary(
    old: Solver,
    new: Solver,
    r: Result<Val, ExecError>,
    lx: Option<SExp>,
    ly: Option<SExp>,
    op: BinOp,
    err: ExecError,
) -> bool {
    match (lx, ly) {
        (Some(a), Some(b)) => fresh_def(old, new, r, bin(op, a, b)),
        _ => fails(old, new, r, err),
    }
}

/// The arguments at positions `i < j < k` of a variadic call.
pub(crate) fn take3(args: Vec<Val>, i: usize, j: usize, k: usize) -> (r: (Val, Val, Val))
    requires
        i < j < k < args@.len(),
    ensures
        r == (args@[i as int], args@[j as int], args@[k as int]),
{
    let mut args = args;
    if args.len() > k + 1 {
        args.truncate(k + 1);
    }
    let c = args.pop().unwrap();
    args.truncate(j + 1);
    let b = args.pop().unwrap();
    args.truncate(i + 1);
    let a = args.pop().unwrap();
    (a, b, c)
}

} // verus!
