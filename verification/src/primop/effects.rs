//! Output, unknown values, events, memory requests and the other effects of
//! the primitive operations.

use vstd::prelude::*;

use super::encode::{sexp_i128, sexp_of_val, smt_i128, smt_value};
use super::{fails, take3, unchanged, yields, yields_bits};
use crate::bits::B64;
use crate::smt::{bin, sexp, BinOp, Def, Event, Exp, SDef, SExp, Solver, Sym, Ty};
use crate::val::{copy_val, same_val, ExecError, LocalFrame, Val};

verus! {

/// Writing a character: output is not modelled, so unit.
pub fn putchar(c: Val, solver: &mut Solver) -> (r: Result<Val, ExecError>)
    ensures
        yields(*old(solver), *final(solver), r, Val::Unit),
{
    Ok(Val::Unit)
}

/// Printing a message: output is not modelled, so unit.
pub fn print(message: Val, solver: &mut Solver) -> (r: Result<Val, ExecError>)
    ensures
        yields(*old(solver), *final(solver), r, Val::Unit),
{
    Ok(Val::Unit)
}

/// Printing a message to the error stream: output is not modelled, so unit.
pub fn prerr(message: Val, solver: &mut Solver) -> (r: Result<Val, ExecError>)
    ensures
        yields(*old(solver), *final(solver), r, Val::Unit),
{
    Ok(Val::Unit)
}

/// Printing a string after a prefix: unit.
pub fn print_string(prefix: Val, message: Val, solver: &mut Solver) -> (r: Result<Val, ExecError>)
    ensures
        yields(*old(solver), *final(solver), r, Val::Unit),
{
    Ok(Val::Unit)
}

/// Printing a string after a prefix to the error stream: unit.
pub fn prerr_string(prefix: Val, message: Val, solver: &mut Solver) -> (r: Result<Val, ExecError>)
    ensures
        yields(*old(solver), *final(solver), r, Val::Unit),
{
    Ok(Val::Unit)
}

/// Printing an integer after a prefix: unit.
pub fn print_int(prefix: Val, n: Val, solver: &mut Solver) -> (r: Result<Val, ExecError>)
    ensures
        yields(*old(solver), *final(solver), r, Val::Unit),
{
    Ok(Val::Unit)
}

/// Printing an integer after a prefix to the error stream: unit.
pub fn prerr_int(prefix: Val, n: Val, solver: &mut Solver) -> (r: Result<Val, ExecError>)
    ensures
        yields(*old(solver), *final(solver), r, Val::Unit),
{
    Ok(Val::Unit)
}

/// Printing a line: unit.
pub fn print_endline(message: Val, solver: &mut Solver) -> (r: Result<Val, ExecError>)
    ensures
        yields(*old(solver), *final(solver), r, Val::Unit),
{
    Ok(Val::Unit)
}

/// Printing a line to the error stream: unit.
pub fn prerr_endline(message: Val, solver: &mut Solver) -> (r: Result<Val, ExecError>)
    ensures
        yields(*old(solver), *final(solver), r, Val::Unit),
{
    Ok(Val::Unit)
}

/// Printing a bitvector after a message: unit.
pub fn print_bits(message: Val, bits: Val, solver: &mut Solver) -> (r: Result<Val, ExecError>)
    ensures
        yields(*old(solver), *final(solver), r, Val::Unit),
{
    Ok(Val::Unit)
}

/// Printing a bitvector after a message to the error stream: unit.
pub fn prerr_bits(message: Val, bits: Val, solver: &mut Solver) -> (r: Result<Val, ExecError>)
    ensures
        yields(*old(solver), *final(solver), r, Val::Unit),
{
    Ok(Val::Unit)
}

/// The operation declared a fresh variable of sort `ty`, returned it, and
/// changed nothing else.
pub open spec fn fresh_decl(old: Solver, new: Solver, r: Result<Val, ExecError>, ty: Ty) -> bool {
    &&& r == Ok::<Val, ExecError>(Val::Symbolic(old.next_sym()))
    &&& Solver::declares(&old, &new, old.next_sym(), ty)
}

/// An unknown bitvector of `sz` bits (the width taken modulo `2^32`).
pub fn undefined_bitvector(sz: Val, solver: &mut Solver) -> (r: Result<Val, ExecError>)
    requires
        old(solver).room(1),
    ensures
        match sz {
            Val::I128(n) => fresh_decl(*old(solver), *final(solver), r, Ty::BitVec(n as u32)),
            _ => fails(*old(solver), *final(solver), r, ExecError::Type("undefined_bitvector")),
        },
{
    if let Val::I128(n) = sz {
        Ok(Val::Symbolic(solver.declare_const(Ty::BitVec(n as u32))))
    } else {
        Err(ExecError::Type("undefined_bitvector"))
    }
}

/// An unknown boolean.
pub fn undefined_bool(x: Val, solver: &mut Solver) -> (r: Result<Val, ExecError>)
    requires
        old(solver).room(1),
    ensures
        fresh_decl(*old(solver), *final(solver), r, Ty::Bool),
{
    Ok(Val::Symbolic(solver.declare_const(Ty::Bool)))
}

/// An unknown integer, as a 128-bit bitvector.
pub fn undefined_int(x: Val, solver: &mut Solver) -> (r: Result<Val, ExecError>)
    requires
        old(solver).room(1),
    ensures
        fresh_decl(*old(solver), *final(solver), r, Ty::BitVec(128)),
{
    Ok(Val::Symbolic(solver.declare_const(Ty::BitVec(128))))
}

/// An unknown natural number: a 128-bit bitvector asserted to be at least
/// zero as a signed number.
pub fn undefined_nat(x: Val, solver: &mut Solver) -> (r: Result<Val, ExecError>)
    requires
        old(solver).room(1),
    ensures
        ({
            let v = old(solver).next_sym();
            &&& r == Ok::<Val, ExecError>(Val::Symbolic(v))
            &&& final(solver).decls() == old(solver).decls().push(Some(Ty::BitVec(128)))
            &&& final(solver).defs() == old(solver).defs().push(SDef::DeclareConst(v, Ty::BitVec(128))).push(
                SDef::Assert(bin(BinOp::Bvsge, SExp::Var(v), sexp_i128(0))),
            )
            &&& final(solver).events() == old(solver).events()
            &&& final(solver).cycles() == old(solver).cycles()
        }),
{
    let sym = solver.fresh();
    solver.add(Def::DeclareConst(sym, Ty::BitVec(128)));
    let e = Exp::binary(BinOp::Bvsge, Exp::Var(sym), smt_i128(0));
    proof {
        reveal_with_fuel(sexp, 2);
    }
    solver.add(Def::Assert(e));
    proof {
        assert(solver.decls() =~= old(solver).decls().push(Some(Ty::BitVec(128))));
    }
    Ok(Val::Symbolic(sym))
}

/// What `undefined_range` gives: a fresh 128-bit variable declared, then
/// asserted to be at least `lo` and at most `hi` as signed numbers; where a
/// bound has no SMT form the operation stops there with a type error.
pub open spec fn undefined_range_post(old: Solver, new: Solver, r: Result<Val, ExecError>, lo: Val, hi: Val) -> bool {
    let v = old.next_sym();
    let declared = old.defs().push(SDef::DeclareConst(v, Ty::BitVec(128)));
    &&& new.decls() == old.decls().push(Some(Ty::BitVec(128)))
    &&& new.events() == old.events()
    &&& new.cycles() == old.cycles()
    &&& match (sexp_of_val(lo), sexp_of_val(hi)) {
        (Some(l), Some(h)) => {
            &&& r == Ok::<Val, ExecError>(Val::Symbolic(v))
            &&& new.defs() == declared.push(SDef::Assert(bin(BinOp::Bvsle, l, SExp::Var(v)))).push(
                SDef::Assert(bin(BinOp::Bvsle, SExp::Var(v), h)),
            )
        },
        (Some(l), None) => {
            &&& r == Err::<Val, ExecError>(ExecError::Type("smt_value"))
            &&& new.defs() == declared.push(SDef::Assert(bin(BinOp::Bvsle, l, SExp::Var(v))))
        },
        (None, _) => {
            &&& r == Err::<Val, ExecError>(ExecError::Type("smt_value"))
            &&& new.defs() == declared
        },
    }
}

/// An unknown integer between `lo` and `hi` inclusive.
pub fn undefined_range(lo: Val, hi: Val, solver: &mut Solver) -> (r: Result<Val, ExecError>)
    requires
        old(solver).room(1),
    ensures
        undefined_range_post(*old(solver), *final(solver), r, lo, hi),
{
    let sym = solver.fresh();
    solver.add(Def::DeclareConst(sym, Ty::BitVec(128)));
    let ghost s1 = *solver;
    proof {
        assert(s1.decls() =~= old(solver).decls().push(Some(Ty::BitVec(128))));
    }
    let l = match smt_value(&lo) {
        Ok(l) => l,
        Err(e) => return Err(e),
    };
    solver.add(Def::Assert(Exp::binary(BinOp::Bvsle, l, Exp::Var(sym))));
    let h = match smt_value(&hi) {
        Ok(h) => h,
        Err(e) => return Err(e),
    };
    solver.add(Def::Assert(Exp::binary(BinOp::Bvsle, Exp::Var(sym), h)));
    Ok(Val::Symbolic(sym))
}

/// The unit value.
pub fn undefined_unit(x: Val, solver: &mut Solver) -> (r: Result<Val, ExecError>)
    ensures
        yields(*old(solver), *final(solver), r, Val::Unit),
{
    Ok(Val::Unit)
}

/// A read the program may not make: an error.
pub fn bad_read(x: Val, solver: &mut Solver) -> (r: Result<Val, ExecError>)
    ensures
        fails(*old(solver), *final(solver), r, ExecError::BadRead),
{
    Err(ExecError::BadRead)
}

/// A write the program may not make: an error.
pub fn bad_write(x: Val, solver: &mut Solver) -> (r: Result<Val, ExecError>)
    ensures
        fails(*old(solver), *final(solver), r, ExecError::BadWrite),
{
    Err(ExecError::BadWrite)
}

/// Announcing the address of a coming write: unit.
pub fn write_mem_ea(args: Vec<Val>, solver: &mut Solver, frame: &mut LocalFrame) -> (r: Result<Val, ExecError>)
    ensures
        yields(*old(solver), *final(solver), r, Val::Unit),
        *final(frame) == *old(frame),
{
    Ok(Val::Unit)
}

/// An operation that is not implemented.
pub fn unimplemented(args: Vec<Val>, solver: &mut Solver, frame: &mut LocalFrame) -> (r: Result<Val, ExecError>)
    ensures
        fails(*old(solver), *final(solver), r, ExecError::Unimplemented),
        *final(frame) == *old(frame),
{
    Err(ExecError::Unimplemented)
}

/// Counts a cycle.
pub fn cycle_count(x: Val, solver: &mut Solver) -> (r: Result<Val, ExecError>)
    requires
        old(solver).cycles() < i128::MAX,
    ensures
        r == Ok::<Val, ExecError>(Val::Unit),
        final(solver).cycles() == old(solver).cycles() + 1,
        final(solver).decls() == old(solver).decls(),
        final(solver).defs() == old(solver).defs(),
        final(solver).events() == old(solver).events(),
{
    solver.cycle_count();
    Ok(Val::Unit)
}

/// The number of cycles counted.
pub fn get_cycle_count(x: Val, solver: &mut Solver) -> (r: Result<Val, ExecError>)
    ensures
        yields(*old(solver), *final(solver), r, Val::I128(old(solver).cycles() as i128)),
{
    Ok(Val::I128(solver.get_cycle_count()))
}

/// The verbosity: 64 zero bits.
pub fn get_verbosity(x: Val, solver: &mut Solver) -> (r: Result<Val, ExecError>)
    ensures
        yields_bits(*old(solver), *final(solver), r, 64, 0),
{
    proof {
        vstd::arithmetic::power2::lemma2_to64_rest();
    }
    Ok(Val::Bits(B64::zeros(64)))
}

/// Whether the processor is sleeping: never.
pub fn sleeping(x: Val, solver: &mut Solver) -> (r: Result<Val, ExecError>)
    ensures
        yields(*old(solver), *final(solver), r, Val::Bool(false)),
{
    Ok(Val::Bool(false))
}

/// The operation recorded `event`, returned unit, and changed nothing else.
pub open spec fn records(old: Solver, new: Solver, r: Result<Val, ExecError>, event: Event) -> bool {
    &&& r == Ok::<Val, ExecError>(Val::Unit)
    &&& new.events() == old.events().push(event)
    &&& new.decls() == old.decls()
    &&& new.defs() == old.defs()
    &&& new.cycles() == old.cycles()
}

/// Records a wake-up request.
pub fn wakeup_request(x: Val, solver: &mut Solver) -> (r: Result<Val, ExecError>)
    ensures
        records(*old(solver), *final(solver), r, Event::WakeupRequest),
{
    solver.add_event(Event::WakeupRequest);
    Ok(Val::Unit)
}

/// Records a sleep request, as a wake-up request event.
pub fn sleep_request(x: Val, solver: &mut Solver) -> (r: Result<Val, ExecError>)
    ensures
        records(*old(solver), *final(solver), r, Event::WakeupRequest),
{
    solver.add_event(Event::WakeupRequest);
    Ok(Val::Unit)
}

/// Records the opcode of the instruction being executed.
pub fn instr_announce(opcode: Val, solver: &mut Solver) -> (r: Result<Val, ExecError>)
    ensures
        records(*old(solver), *final(solver), r, Event::Instr(opcode)),
{
    solver.add_event(Event::Instr(opcode));
    Ok(Val::Unit)
}

/// Records the target of a branch.
pub fn branch_announce(addr_size: Val, target: Val, solver: &mut Solver) -> (r: Result<Val, ExecError>)
    ensures
        records(*old(solver), *final(solver), r, Event::Branch { address: target }),
{
    solver.add_event(Event::Branch { address: target });
    Ok(Val::Unit)
}

/// Records a barrier.
pub fn barrier(barrier_kind: Val, solver: &mut Solver) -> (r: Result<Val, ExecError>)
    ensures
        records(*old(solver), *final(solver), r, Event::Barrier { barrier_kind }),
{
    solver.add_event(Event::Barrier { barrier_kind });
    Ok(Val::Unit)
}

/// `cache_maintenance(kind, _, address)`: records a cache operation.
pub fn cache_maintenance(args: Vec<Val>, solver: &mut Solver, frame: &mut LocalFrame) -> (r: Result<Val, ExecError>)
    requires
        args@.len() >= 3,
    ensures
        records(*old(solver), *final(solver), r, Event::CacheOp { cache_op_kind: args@[0], address: args@[2] }),
        *final(frame) == *old(frame),
{
    let (cache_op_kind, _, address) = take3(args, 0, 1, 2);
    solver.add_event(Event::CacheOp { cache_op_kind, address });
    Ok(Val::Unit)
}

/// The ELF entry point of the program, where the frame has one.
pub fn elf_entry(args: Vec<Val>, solver: &mut Solver, frame: &mut LocalFrame) -> (r: Result<Val, ExecError>)
    ensures
        unchanged(*old(solver), *final(solver)),
        *final(frame) == *old(frame),
        match old(frame).entry() {
            Some(v) => r matches Ok(w) && same_val(v, w),
            None => r == Err::<Val, ExecError>(ExecError::NoElfEntry),
        },
{
    match frame.elf_entry() {
        Some(v) => Ok(copy_val(v)),
        None => Err(ExecError::NoElfEntry),
    }
}

/// A value is already monomorphic: it is returned as it is.
pub fn monomorphize(val: Val, solver: &mut Solver) -> (r: Result<Val, ExecError>)
    ensures
        yields(*old(solver), *final(solver), r, val),
{
    Ok(val)
}

/// Records a mark on a register.
pub fn mark_register(val: Val, mark: Val, solver: &mut Solver) -> (r: Result<Val, ExecError>)
    ensures
        match (val, mark) {
            (Val::Ref(reg), Val::String(m)) => records(*old(solver), *final(solver), r, Event::MarkReg { reg, mark: m }),
            _ => fails(*old(solver), *final(solver), r, ExecError::Type("mark_register")),
        },
{
    match (val, mark) {
        (Val::Ref(reg), Val::String(mark)) => {
            solver.add_event(Event::MarkReg { reg, mark });
            Ok(Val::Unit)
        },
        _ => Err(ExecError::Type("mark_register")),
    }
}

/// An access to memory that the executor carries out: the memory model is
/// not part of the primitive operations.
pub enum MemRequest {
    /// Read `bytes` bytes at `address`, of the given kind.
    Read { read_kind: Val, address: Val, bytes: Val },
    /// Write `data` at `address`, of the given kind.
    Write { write_kind: Val, address: Val, data: Val },
}

/// `read_mem(kind, _, address, bytes)`: the read that the executor is to make
/// of memory.
pub fn read_mem(args: Vec<Val>) -> (r: MemRequest)
    requires
        args@.len() >= 4,
    ensures
        r == (MemRequest::Read { read_kind: args@[0], address: args@[2], bytes: args@[3] }),
{
    let (read_kind, address, bytes) = take3(args, 0, 2, 3);
    MemRequest::Read { read_kind, address, bytes }
}

/// `write_mem(kind, _, address, _, data)`: the write that the executor is to
/// make to memory.
pub fn write_mem(args: Vec<Val>) -> (r: MemRequest)
    requires
        args@.len() >= 5,
    ensures
        r == (MemRequest::Write { write_kind: args@[0], address: args@[2], data: args@[4] }),
{
    let (write_kind, address, data) = take3(args, 0, 2, 4);
    MemRequest::Write { write_kind, address, data }
}

} // verus!
