//! The tables that name the primitive operations, and the dispatch from an
//! operation to the function that implements it.

use vstd::prelude::*;

use super::bitvec::{add_bits, add_bits_int, and_bits, append, eq_bits, length, neq_bits, not_bits, ones, or_bits, replicate_bits, sail_signed, sail_truncate_lsb, sail_unsigned, shift_bits_left, shift_bits_right, shiftl, shiftr, sign_extend, sub_bits, sub_bits_int, xor_bits, zero_extend, zeros};
use super::effects::{bad_read, bad_write, barrier, branch_announce, cache_maintenance, cycle_count, elf_entry, get_cycle_count, get_verbosity, instr_announce, mark_register, monomorphize, prerr, prerr_bits, prerr_endline, prerr_int, prerr_string, print, print_bits, print_endline, print_int, print_string, putchar, read_mem, sleep_request, sleeping, undefined_bitvector, undefined_bool, undefined_int, undefined_nat, undefined_range, undefined_unit, unimplemented, wakeup_request, write_mem, write_mem_ea};
use super::equality::{eq_anything};
use super::ints::{abs_int, add_int, ediv_int, emod_int, eq_int, gt_int, gteq_int, i128_to_i64, i64_to_i128, lt_int, lteq_int, max_int, min_int, mult_int, neg_int, pow2, pow_int, shl_int, shl_mach_int, shr_int, shr_mach_int, sub_int, sub_nat, tdiv_int, tmod_int};
use super::logic::{and_bool, assume_bool, bit_to_bool, eq_bool, ite, not_bool, one_if, optimistic_assert, or_bool, pessimistic_assert, zero_if};
use super::slices::{align_bits, bitvector_update, get_slice_int, sail_truncate, set_slice, set_slice_int, slice, subrange, vector_update, vector_update_subrange};
use super::strings::{concat_str, dec_str, decimal_string_of_bits, eq_string, hex_str, string_drop, string_length, string_of_bits, string_of_int, string_startswith, string_take, string_to_i128, undefined_string};
use super::vectors::{choice, cons, undefined_vector, vector_access};
use crate::bits::{i128_of_pattern, signed_of, u128_pattern};
use crate::smt::{BinOp, Event, SDef, SExp, Ty, UnOp, bin, un};
use crate::val::same_val;
use super::{asserted, fails, fails_after_fresh, fresh_def, symbolic_binary, unchanged, yields, yields_bits};
use super::bitvec::{add_bits_post, and_bits_post, append_post, extension_post, not_bits_post, ones_post, or_bits_post, replicate_post, sail_signed_post, sail_unsigned_post, shift_bits_post, shift_post, sub_bits_post, truncate_lsb_post, xor_bits_post, zeros_post};
use super::effects::{fresh_decl, records, undefined_range_post};
use super::encode::{lift_bits, lift_i128, lift_i64, sexp_i128, sexp_of_val, smt_value};
use super::equality::eq_anything_post;
use super::ints::{add_int_post, ediv_int_post, emod_int_post, eq_int_post, gt_int_post, gteq_int_post, i128_to_i64_post, i64_to_i128_post, lt_int_post, lteq_int_post, max_int_post, min_int_post, mult_int_post, pick, sub_int_post, tdiv_int_post, wrapping_neg_i128, wrapping_rem_i128};
use super::logic::{and_bool_post, lift_bool, not_bool_post, or_bool_post};
use super::slices::{align_bits_ok, align_bits_post, get_slice_int_ok, get_slice_int_post, set_slice_int_ok, set_slice_int_post, set_slice_ok, set_slice_post, slice_internal_ok, slice_internal_post, subrange_internal_post, vector_update_post};
use super::strings::{bits_text, decimal_of, parse_i128, radix_digits, sym_text, yields_text};
use super::vectors::{access_bits_post, access_symbolic_post, choice_post};
use vstd::arithmetic::power::pow;
use vstd::utf8::{encode_utf8, is_char_boundary};
use super::effects::MemRequest;
use crate::smt::{SmtResult, Solver};
use crate::val::{ExecError, LocalFrame, Val};

verus! {

/// The primitive operations of one argument.
#[derive(Copy, Clone, Debug, PartialEq, Eq, Structural)]
pub enum UnaryOp {
    /// Carried out by `i64_to_i128`.
    I64ToI128,
    /// Carried out by `i128_to_i64`.
    I128ToI64,
    /// Carried out by `string_to_i128`.
    StringToI128,
    /// Carried out by `bit_to_bool`.
    BitToBool,
    /// Carried out by `assume_bool`.
    Assume,
    /// Carried out by `not_bool`.
    Not,
    /// Carried out by `neg_int`.
    NegInt,
    /// Carried out by `abs_int`.
    AbsInt,
    /// Carried out by `pow2`.
    Pow2,
    /// Carried out by `not_bits`.
    NotBits,
    /// Carried out by `length`.
    Length,
    /// Carried out by `zeros`.
    Zeros,
    /// Carried out by `ones`.
    Ones,
    /// Carried out by `sail_unsigned`.
    SailUnsigned,
    /// Carried out by `sail_signed`.
    SailSigned,
    /// Carried out by `putchar`.
    Putchar,
    /// Carried out by `print`.
    Print,
    /// Carried out by `prerr`.
    Prerr,
    /// Carried out by `print_endline`.
    PrintEndline,
    /// Carried out by `prerr_endline`.
    PrerrEndline,
    /// Carried out by `undefined_bitvector`.
    UndefinedBitvector,
    /// Carried out by `undefined_bool`.
    UndefinedBool,
    /// Carried out by `undefined_int`.
    UndefinedInt,
    /// Carried out by `undefined_nat`.
    UndefinedNat,
    /// Carried out by `undefined_unit`.
    UndefinedUnit,
    /// Carried out by `undefined_string`.
    UndefinedString,
    /// Carried out by `one_if`.
    OneIf,
    /// Carried out by `zero_if`.
    ZeroIf,
    /// Carried out by `choice`.
    Choice,
    /// Carried out by `bad_read`.
    BadRead,
    /// Carried out by `bad_write`.
    BadWrite,
    /// Carried out by `hex_str`.
    HexStr,
    /// Carried out by `dec_str`.
    DecStr,
    /// Carried out by `string_length`.
    StringLength,
    /// Carried out by `string_of_bits`.
    StringOfBits,
    /// Carried out by `decimal_string_of_bits`.
    DecimalStringOfBits,
    /// Carried out by `string_of_int`.
    StringOfInt,
    /// Carried out by `cycle_count`.
    CycleCount,
    /// Carried out by `get_cycle_count`.
    GetCycleCount,
    /// Carried out by `get_verbosity`.
    GetVerbosity,
    /// Carried out by `sleeping`.
    Sleeping,
    /// Carried out by `sleep_request`.
    SleepRequest,
    /// Carried out by `wakeup_request`.
    WakeupRequest,
    /// Carried out by `instr_announce`.
    InstrAnnounce,
    /// Carried out by `barrier`.
    Barrier,
    /// Carried out by `monomorphize`.
    Monomorphize,
}

/// The primitive operations of two arguments.
#[derive(Copy, Clone, Debug, PartialEq, Eq, Structural)]
pub enum BinaryOp {
    /// Carried out by `optimistic_assert`.
    OptimisticAssert,
    /// Carried out by `pessimistic_assert`.
    PessimisticAssert,
    /// Carried out by `and_bool`.
    AndBool,
    /// Carried out by `or_bool`.
    OrBool,
    /// Carried out by `eq_int`.
    EqInt,
    /// Carried out by `eq_bool`.
    EqBool,
    /// Carried out by `lteq_int`.
    LteqInt,
    /// Carried out by `gteq_int`.
    GteqInt,
    /// Carried out by `lt_int`.
    LtInt,
    /// Carried out by `gt_int`.
    GtInt,
    /// Carried out by `add_int`.
    AddInt,
    /// Carried out by `sub_int`.
    SubInt,
    /// Carried out by `sub_nat`.
    SubNat,
    /// Carried out by `mult_int`.
    MultInt,
    /// Carried out by `tdiv_int`.
    TdivInt,
    /// Carried out by `tmod_int`.
    TmodInt,
    /// Carried out by `ediv_int`.
    EdivInt,
    /// Carried out by `emod_int`.
    EmodInt,
    /// Carried out by `pow_int`.
    PowInt,
    /// Carried out by `shl_int`.
    ShlInt,
    /// Carried out by `shr_int`.
    ShrInt,
    /// Carried out by `shl_mach_int`.
    ShlMachInt,
    /// Carried out by `shr_mach_int`.
    ShrMachInt,
    /// Carried out by `max_int`.
    MaxInt,
    /// Carried out by `min_int`.
    MinInt,
    /// Carried out by `eq_bits`.
    EqBits,
    /// Carried out by `neq_bits`.
    NeqBits,
    /// Carried out by `xor_bits`.
    XorBits,
    /// Carried out by `or_bits`.
    OrBits,
    /// Carried out by `and_bits`.
    AndBits,
    /// Carried out by `add_bits`.
    AddBits,
    /// Carried out by `sub_bits`.
    SubBits,
    /// Carried out by `add_bits_int`.
    AddBitsInt,
    /// Carried out by `sub_bits_int`.
    SubBitsInt,
    /// Carried out by `align_bits`.
    AlignBits,
    /// Carried out by `undefined_range`.
    UndefinedRange,
    /// Carried out by `zero_extend`.
    ZeroExtend,
    /// Carried out by `sign_extend`.
    SignExtend,
    /// Carried out by `sail_truncate`.
    SailTruncate,
    /// Carried out by `sail_truncate_lsb`.
    SailTruncateLsb,
    /// Carried out by `replicate_bits`.
    ReplicateBits,
    /// Carried out by `shiftr`.
    Shiftr,
    /// Carried out by `shiftl`.
    Shiftl,
    /// Carried out by `shift_bits_right`.
    ShiftBitsRight,
    /// Carried out by `shift_bits_left`.
    ShiftBitsLeft,
    /// Carried out by `append`.
    Append,
    /// Carried out by `vector_access`.
    VectorAccess,
    /// Carried out by `eq_anything`.
    EqAnything,
    /// Carried out by `eq_string`.
    EqString,
    /// Carried out by `concat_str`.
    ConcatStr,
    /// Carried out by `string_startswith`.
    StringStartswith,
    /// Carried out by `string_drop`.
    StringDrop,
    /// Carried out by `string_take`.
    StringTake,
    /// Carried out by `cons`.
    Cons,
    /// Carried out by `undefined_vector`.
    UndefinedVector,
    /// Carried out by `print_string`.
    PrintString,
    /// Carried out by `prerr_string`.
    PrerrString,
    /// Carried out by `print_int`.
    PrintInt,
    /// Carried out by `prerr_int`.
    PrerrInt,
    /// Carried out by `print_bits`.
    PrintBits,
    /// Carried out by `prerr_bits`.
    PrerrBits,
    /// Carried out by `branch_announce`.
    BranchAnnounce,
    /// Carried out by `mark_register`.
    MarkRegister,
}

/// The primitive operations of a list of arguments.
#[derive(Copy, Clone, Debug, PartialEq, Eq, Structural)]
pub enum VariadicOp {
    /// Carried out by `slice`.
    Slice,
    /// Carried out by `subrange`.
    Subrange,
    /// Carried out by `vector_update`.
    VectorUpdate,
    /// Carried out by `vector_update_subrange`.
    VectorUpdateSubrange,
    /// Carried out by `bitvector_update`.
    BitvectorUpdate,
    /// Carried out by `set_slice`.
    SetSlice,
    /// Carried out by `get_slice_int`.
    GetSliceInt,
    /// Carried out by `set_slice_int`.
    SetSliceInt,
    /// Carried out by `read_mem`.
    ReadMem,
    /// Carried out by `write_mem`.
    WriteMem,
    /// Carried out by `write_mem_ea`.
    WriteMemEa,
    /// Carried out by `cache_maintenance`.
    CacheMaintenance,
    /// Carried out by `elf_entry`.
    ElfEntry,
    /// Carried out by `ite`.
    Ite,
    /// Carried out by `unimplemented`.
    Unimplemented,
}

/// What a primitive operation of a list of arguments gives: a value or an
/// error, or an access to memory for the executor to make.
pub enum Step {
    Done(Result<Val, ExecError>),
    Memory(MemRequest),
}

/// What the operation requires of its arguments and the solver.
pub open spec fn unary_requires(op: UnaryOp, x: Val, old: Solver) -> bool {
    match op {
        UnaryOp::I64ToI128 => {
            &&& old.room(1)
        },
        UnaryOp::I128ToI64 => {
            &&& old.room(1)
        },
        UnaryOp::StringToI128 => {
            let s = x;
            true
        },
        UnaryOp::BitToBool => {
            let bit = x;
            &&& old.room(1)
        },
        UnaryOp::Assume => {
            true
        },
        UnaryOp::Not => {
            &&& old.room(1)
        },
        UnaryOp::NegInt => {
            &&& old.room(1)
        },
        UnaryOp::AbsInt => {
            &&& old.room(1)
            &&& x matches Val::I128(a) ==> a != i128::MIN
        },
        UnaryOp::Pow2 => {
            &&& old.room(1)
            &&& x matches Val::I128(a) ==> 0 <= a < 128
        },
        UnaryOp::NotBits => {
            &&& old.room(1)
        },
        UnaryOp::Length => {
            true
        },
        UnaryOp::Zeros => {
            let len = x;
            &&& old.room(1)
            &&& len matches Val::I128(n) ==> 0 <= n <= usize::MAX
        },
        UnaryOp::Ones => {
            let len = x;
            &&& old.room(1)
            &&& len matches Val::I128(n) ==> 0 <= n <= usize::MAX
        },
        UnaryOp::SailUnsigned => {
            let bits = x;
            &&& old.room(1)
            &&& bits matches Val::Symbolic(v) ==> (old.sym_length(v) matches Some(n) ==> n <= 128)
        },
        UnaryOp::SailSigned => {
            let bits = x;
            &&& old.room(1)
            &&& bits matches Val::Symbolic(v) ==> (old.sym_length(v) matches Some(n) ==> n <= 128)
        },
        UnaryOp::Putchar => {
            let c = x;
            true
        },
        UnaryOp::Print => {
            let message = x;
            true
        },
        UnaryOp::Prerr => {
            let message = x;
            true
        },
        UnaryOp::PrintEndline => {
            let message = x;
            true
        },
        UnaryOp::PrerrEndline => {
            let message = x;
            true
        },
        UnaryOp::UndefinedBitvector => {
            let sz = x;
            &&& old.room(1)
        },
        UnaryOp::UndefinedBool => {
            &&& old.room(1)
        },
        UnaryOp::UndefinedInt => {
            &&& old.room(1)
        },
        UnaryOp::UndefinedNat => {
            &&& old.room(1)
        },
        UnaryOp::UndefinedUnit => {
            true
        },
        UnaryOp::UndefinedString => {
            true
        },
        UnaryOp::OneIf => {
            let condition = x;
            &&& old.room(1)
        },
        UnaryOp::ZeroIf => {
            let condition = x;
            &&& old.room(1)
        },
        UnaryOp::Choice => {
            let xs = x;
            &&& old.room(2)
            &&& xs matches Val::List(v) ==> 1 <= v@.len() < usize::MAX
        },
        UnaryOp::BadRead => {
            true
        },
        UnaryOp::BadWrite => {
            true
        },
        UnaryOp::HexStr => {
            let n = x;
            true
        },
        UnaryOp::DecStr => {
            let n = x;
            true
        },
        UnaryOp::StringLength => {
            let s = x;
            true
        },
        UnaryOp::StringOfBits => {
            let bv = x;
            true
        },
        UnaryOp::DecimalStringOfBits => {
            let bv = x;
            true
        },
        UnaryOp::StringOfInt => {
            let n = x;
            true
        },
        UnaryOp::CycleCount => {
            &&& old.cycles() < i128::MAX
        },
        UnaryOp::GetCycleCount => {
            true
        },
        UnaryOp::GetVerbosity => {
            true
        },
        UnaryOp::Sleeping => {
            true
        },
        UnaryOp::SleepRequest => {
            true
        },
        UnaryOp::WakeupRequest => {
            true
        },
        UnaryOp::InstrAnnounce => {
            let opcode = x;
            true
        },
        UnaryOp::Barrier => {
            let barrier_kind = x;
            true
        },
        UnaryOp::Monomorphize => {
            let val = x;
            true
        },
    }
}

/// What the operation gives.
pub open spec fn unary_ensures(op: UnaryOp, x: Val, old: Solver, new: Solver, r: Result<Val, ExecError>) -> bool {
    match op {
        UnaryOp::I64ToI128 => {
            &&& i64_to_i128_post(old, new, r, x)
        },
        UnaryOp::I128ToI64 => {
            &&& i128_to_i64_post(old, new, r, x)
        },
        UnaryOp::StringToI128 => {
            let s = x;
            &&& match s {
                Val::String(t) => match parse_i128(t@) {
                    Some(n) => yields(old, new, r, Val::I128(n)),
                    None => fails(old, new, r, ExecError::Overflow),
                },
                _ => fails(old, new, r, ExecError::Type("%string->%int")),
            }
        },
        UnaryOp::BitToBool => {
            let bit = x;
            &&& match bit {
                Val::Bits(b) => yields(old, new, r, Val::Bool(b.value() % 2 == 1)),
                Val::Symbolic(v) => fresh_def(
                    old,
                    new,
                    r,
                    bin(BinOp::Eq, SExp::Bits(seq![true]), SExp::Var(v)),
                ),
                _ => fails(old, new, r, ExecError::Type("bit_to_bool")),
            }
        },
        UnaryOp::Assume => {
            &&& match x {
                Val::Symbolic(v) => asserted(old, new, r, SExp::Var(v)),
                Val::Bool(true) => yields(old, new, r, Val::Unit),
                Val::Bool(false) => asserted(old, new, r, SExp::Bool(false)),
                _ => fails(old, new, r, ExecError::Type("assert")),
            }
        },
        UnaryOp::Not => {
            &&& not_bool_post(old, new, r, x)
        },
        UnaryOp::NegInt => {
            &&& match x {
                Val::I128(a) => yields(old, new, r, Val::I128(wrapping_neg_i128(a))),
                Val::Symbolic(v) => fresh_def(old, new, r, un(UnOp::Bvneg, SExp::Var(v))),
                _ => fails(old, new, r, ExecError::Type("neg_int")),
            }
        },
        UnaryOp::AbsInt => {
            &&& match x {
                Val::I128(a) => yields(old, new, r, Val::I128((if a < 0 { -a } else { a as int }) as i128)),
                Val::Symbolic(v) => fresh_def(
                    old,
                    new,
                    r,
                    SExp::Ite(
                        Box::new(bin(BinOp::Bvslt, SExp::Var(v), sexp_i128(0))),
                        Box::new(un(UnOp::Bvneg, SExp::Var(v))),
                        Box::new(SExp::Var(v)),
                    ),
                ),
                _ => fails(old, new, r, ExecError::Type("abs_int")),
            }
        },
        UnaryOp::Pow2 => {
            &&& match x {
                Val::I128(a) => yields(old, new, r, Val::I128(i128_of_pattern(vstd::arithmetic::power2::pow2(a as nat)) as i128)),
                Val::Symbolic(v) => fresh_def(old, new, r, bin(BinOp::Bvshl, sexp_i128(1), SExp::Var(v))),
                _ => fails(old, new, r, ExecError::Type("pow2")),
            }
        },
        UnaryOp::NotBits => {
            &&& not_bits_post(old, new, r, x)
        },
        UnaryOp::Length => {
            &&& match x {
                Val::Symbolic(v) => match old.sym_length(v) {
                    Some(n) => yields(old, new, r, Val::I128(n as i128)),
                    None => fails(old, new, r, ExecError::Type("length")),
                },
                Val::Bits(b) => yields(old, new, r, Val::I128(b.width() as i128)),
                _ => fails(old, new, r, ExecError::Type("length")),
            }
        },
        UnaryOp::Zeros => {
            let len = x;
            &&& zeros_post(old, new, r, len)
        },
        UnaryOp::Ones => {
            let len = x;
            &&& ones_post(old, new, r, len)
        },
        UnaryOp::SailUnsigned => {
            let bits = x;
            &&& sail_unsigned_post(old, new, r, bits)
        },
        UnaryOp::SailSigned => {
            let bits = x;
            &&& sail_signed_post(old, new, r, bits)
        },
        UnaryOp::Putchar => {
            let c = x;
            &&& yields(old, new, r, Val::Unit)
        },
        UnaryOp::Print => {
            let message = x;
            &&& yields(old, new, r, Val::Unit)
        },
        UnaryOp::Prerr => {
            let message = x;
            &&& yields(old, new, r, Val::Unit)
        },
        UnaryOp::PrintEndline => {
            let message = x;
            &&& yields(old, new, r, Val::Unit)
        },
        UnaryOp::PrerrEndline => {
            let message = x;
            &&& yields(old, new, r, Val::Unit)
        },
        UnaryOp::UndefinedBitvector => {
            let sz = x;
            &&& match sz {
                Val::I128(n) => fresh_decl(old, new, r, Ty::BitVec(n as u32)),
                _ => fails(old, new, r, ExecError::Type("undefined_bitvector")),
            }
        },
        UnaryOp::UndefinedBool => {
            &&& fresh_decl(old, new, r, Ty::Bool)
        },
        UnaryOp::UndefinedInt => {
            &&& fresh_decl(old, new, r, Ty::BitVec(128))
        },
        UnaryOp::UndefinedNat => {
            &&& ({
                let v = old.next_sym();
                &&& r == Ok::<Val, ExecError>(Val::Symbolic(v))
                &&& new.decls() == old.decls().push(Some(Ty::BitVec(128)))
                &&& new.defs() == old.defs().push(SDef::DeclareConst(v, Ty::BitVec(128))).push(
                    SDef::Assert(bin(BinOp::Bvsge, SExp::Var(v), sexp_i128(0))),
                )
                &&& new.events() == old.events()
                &&& new.cycles() == old.cycles()
            })
        },
        UnaryOp::UndefinedUnit => {
            &&& yields(old, new, r, Val::Unit)
        },
        UnaryOp::UndefinedString => {
            &&& yields(old, new, r, Val::Poison)
        },
        UnaryOp::OneIf => {
            let condition = x;
            &&& match condition {
                Val::Bool(true) => r matches Ok(Val::Bits(b)) && b.width() == 1 && b.value() == 1
                    && unchanged(old, new),
                Val::Bool(false) => r matches Ok(Val::Bits(b)) && b.width() == 1 && b.value() == 0
                    && unchanged(old, new),
                Val::Symbolic(v) => fresh_def(
                    old,
                    new,
                    r,
                    SExp::Ite(
                        Box::new(SExp::Var(v)),
                        Box::new(SExp::Bits64(1, 1)),
                        Box::new(SExp::Bits64(0, 1)),
                    ),
                ),
                _ => fails(old, new, r, ExecError::Type("one_if")),
            }
        },
        UnaryOp::ZeroIf => {
            let condition = x;
            &&& match condition {
                Val::Bool(true) => r matches Ok(Val::Bits(b)) && b.width() == 1 && b.value() == 0
                    && unchanged(old, new),
                Val::Bool(false) => r matches Ok(Val::Bits(b)) && b.width() == 1 && b.value() == 1
                    && unchanged(old, new),
                Val::Symbolic(v) => fresh_def(
                    old,
                    new,
                    r,
                    SExp::Ite(
                        Box::new(SExp::Var(v)),
                        Box::new(SExp::Bits64(0, 1)),
                        Box::new(SExp::Bits64(1, 1)),
                    ),
                ),
                _ => fails(old, new, r, ExecError::Type("one_if")),
            }
        },
        UnaryOp::Choice => {
            let xs = x;
            &&& match xs {
                Val::List(v) => choice_post(old, new, r, v@),
                _ => fails(old, new, r, ExecError::Type("cons")),
            }
        },
        UnaryOp::BadRead => {
            &&& fails(old, new, r, ExecError::BadRead)
        },
        UnaryOp::BadWrite => {
            &&& fails(old, new, r, ExecError::BadWrite)
        },
        UnaryOp::HexStr => {
            let n = x;
            &&& match n {
                Val::I128(k) => yields_text(old, new, r, seq!['0', 'x'] + radix_digits(crate::bits::u128_pattern(k as int), 16)),
                Val::Symbolic(v) => yields_text(old, new, r, seq!['0', 'x', '['] + sym_text(v) + seq![']']),
                _ => fails(old, new, r, ExecError::Type("hex_str")),
            }
        },
        UnaryOp::DecStr => {
            let n = x;
            &&& match n {
                Val::I128(k) => yields_text(old, new, r, decimal_of(k as int)),
                Val::Symbolic(v) => yields_text(old, new, r, seq!['['] + sym_text(v) + seq![']']),
                _ => fails(old, new, r, ExecError::Type("dec_str")),
            }
        },
        UnaryOp::StringLength => {
            let s = x;
            &&& match s {
                Val::String(t) => yields(old, new, r, Val::I128(encode_utf8(t@).len() as i128)),
                _ => fails(old, new, r, ExecError::Type("string_length")),
            }
        },
        UnaryOp::StringOfBits => {
            let bv = x;
            &&& match bv {
                Val::Bits(b) => yields_text(old, new, r, bits_text(b)),
                Val::Symbolic(v) => yields_text(old, new, r, seq!['v'] + sym_text(v)),
                _ => fails(old, new, r, ExecError::Type("string_of_bits")),
            }
        },
        UnaryOp::DecimalStringOfBits => {
            let bv = x;
            &&& match bv {
                Val::Bits(b) => yields_text(old, new, r, decimal_of(signed_of(b.width(), b.value()))),
                Val::Symbolic(v) => yields_text(old, new, r, seq!['v'] + sym_text(v)),
                _ => fails(old, new, r, ExecError::Type("decimal_string_of_bits")),
            }
        },
        UnaryOp::StringOfInt => {
            let n = x;
            &&& match n {
                Val::I128(k) => yields_text(old, new, r, decimal_of(k as int)),
                Val::Symbolic(v) => yields_text(old, new, r, seq!['v'] + sym_text(v)),
                _ => fails(old, new, r, ExecError::Type("string_of_int")),
            }
        },
        UnaryOp::CycleCount => {
            &&& r == Ok::<Val, ExecError>(Val::Unit)
            &&& new.cycles() == old.cycles() + 1
            &&& new.decls() == old.decls()
            &&& new.defs() == old.defs()
            &&& new.events() == old.events()
        },
        UnaryOp::GetCycleCount => {
            &&& yields(old, new, r, Val::I128(old.cycles() as i128))
        },
        UnaryOp::GetVerbosity => {
            &&& yields_bits(old, new, r, 64, 0)
        },
        UnaryOp::Sleeping => {
            &&& yields(old, new, r, Val::Bool(false))
        },
        UnaryOp::SleepRequest => {
            &&& records(old, new, r, Event::WakeupRequest)
        },
        UnaryOp::WakeupRequest => {
            &&& records(old, new, r, Event::WakeupRequest)
        },
        UnaryOp::InstrAnnounce => {
            let opcode = x;
            &&& records(old, new, r, Event::Instr(opcode))
        },
        UnaryOp::Barrier => {
            let barrier_kind = x;
            &&& records(old, new, r, Event::Barrier { barrier_kind })
        },
        UnaryOp::Monomorphize => {
            let val = x;
            &&& yields(old, new, r, val)
        },
    }
}

/// What the operation requires of its arguments and the solver.
pub open spec fn binary_requires(op: BinaryOp, x: Val, y: Val, answer: SmtResult, old: Solver) -> bool {
    match op {
        BinaryOp::OptimisticAssert => {
            let message = y; let can_be_true = answer;
            true
        },
        BinaryOp::PessimisticAssert => {
            let message = y; let can_be_false = answer;
            true
        },
        BinaryOp::AndBool => {
            &&& old.room(1)
        },
        BinaryOp::OrBool => {
            &&& old.room(1)
        },
        BinaryOp::EqInt => {
            &&& old.room(1)
        },
        BinaryOp::EqBool => {
            &&& old.room(1)
        },
        BinaryOp::LteqInt => {
            &&& old.room(1)
        },
        BinaryOp::GteqInt => {
            &&& old.room(1)
        },
        BinaryOp::LtInt => {
            &&& old.room(1)
        },
        BinaryOp::GtInt => {
            &&& old.room(1)
        },
        BinaryOp::AddInt => {
            &&& old.room(1)
        },
        BinaryOp::SubInt => {
            &&& old.room(1)
        },
        BinaryOp::SubNat => {
            &&& old.room(1)
            &&& x matches Val::I128(a) ==> (y matches Val::I128(b) ==> i128::MIN <= a - b <= i128::MAX)
        },
        BinaryOp::MultInt => {
            &&& old.room(1)
        },
        BinaryOp::TdivInt => {
            &&& old.room(1)
            &&& x is I128 ==> (y matches Val::I128(b) ==> b != 0)
        },
        BinaryOp::TmodInt => {
            &&& old.room(1)
            &&& x is I128 ==> (y matches Val::I128(b) ==> b != 0)
        },
        BinaryOp::EdivInt => {
            &&& old.room(1)
            &&& x is I128 ==> (y matches Val::I128(b) ==> b != 0)
        },
        BinaryOp::EmodInt => {
            &&& old.room(1)
            &&& x is I128 ==> (y matches Val::I128(b) ==> b != 0)
        },
        BinaryOp::PowInt => {
            &&& x matches Val::I128(a) ==> (y matches Val::I128(b) ==> (0 <= b <= u32::MAX ==> i128::MIN
                <= pow(a as int, b as nat) <= i128::MAX))
        },
        BinaryOp::ShlInt => {
            &&& old.room(1)
            &&& x is I128 ==> (y matches Val::I128(b) ==> 0 <= b < 128)
        },
        BinaryOp::ShrInt => {
            &&& old.room(1)
            &&& x is I128 ==> (y matches Val::I128(b) ==> 0 <= b < 128)
        },
        BinaryOp::ShlMachInt => {
            &&& old.room(1)
            &&& x is I64 ==> (y matches Val::I64(b) ==> 0 <= b < 64)
        },
        BinaryOp::ShrMachInt => {
            &&& old.room(1)
            &&& x is I64 ==> (y matches Val::I64(b) ==> 0 <= b < 64)
        },
        BinaryOp::MaxInt => {
            &&& old.room(1)
        },
        BinaryOp::MinInt => {
            &&& old.room(1)
        },
        BinaryOp::EqBits => {
            &&& old.room(1)
        },
        BinaryOp::NeqBits => {
            &&& old.room(1)
        },
        BinaryOp::XorBits => {
            &&& old.room(1)
        },
        BinaryOp::OrBits => {
            &&& old.room(1)
        },
        BinaryOp::AndBits => {
            &&& old.room(1)
        },
        BinaryOp::AddBits => {
            &&& old.room(1)
        },
        BinaryOp::SubBits => {
            &&& old.room(1)
        },
        BinaryOp::AddBitsInt => {
            let bits = x; let n = y;
            &&& old.room(1)
            &&& bits matches Val::Symbolic(v) ==> (old.sym_length(v) matches Some(len) ==> 1 <= len <= 128)
        },
        BinaryOp::SubBitsInt => {
            let bits = x; let n = y;
            &&& old.room(1)
            &&& bits matches Val::Symbolic(v) ==> (old.sym_length(v) matches Some(len) ==> 1 <= len <= 128)
        },
        BinaryOp::AlignBits => {
            let bv = x; let alignment = y;
            &&& old.room(4)
            &&& align_bits_ok(old, bv, alignment)
        },
        BinaryOp::UndefinedRange => {
            let lo = x; let hi = y;
            &&& old.room(1)
        },
        BinaryOp::ZeroExtend => {
            let bits = x; let len = y;
            &&& old.room(1)
            &&& bits matches Val::Bits(b) ==> (len matches Val::I128(n) ==> ((n as u32) <= 64 ==> b.width() <= n as u32))
            &&& bits matches Val::Symbolic(v) ==> (len is I128 ==> (old.sym_length(v) matches Some(o) ==> o <= len->I128_0 as u32))
        },
        BinaryOp::SignExtend => {
            let bits = x; let len = y;
            &&& old.room(1)
            &&& bits matches Val::Bits(b) ==> (len matches Val::I128(n) ==> ((n as u32) <= 64 ==> b.width() <= n as u32))
            &&& bits matches Val::Symbolic(v) ==> (len is I128 ==> (old.sym_length(v) matches Some(o) ==> o <= len->I128_0 as u32))
        },
        BinaryOp::SailTruncate => {
            let bits = x; let len = y;
            &&& old.room(1)
            &&& slice_internal_ok(old, bits, Val::I128(0), len)
        },
        BinaryOp::SailTruncateLsb => {
            let bits = x; let len = y;
            &&& old.room(1)
            &&& bits matches Val::Symbolic(v) ==> (len matches Val::I128(n) ==> (n != 0 ==> (old.sym_length(v) matches Some(o) ==> (n as u32) <= o && o >= 1)))
        },
        BinaryOp::ReplicateBits => {
            let bits = x; let times = y;
            &&& old.room(1)
            &&& bits is Symbolic ==> (times matches Val::I128(t) ==> t >= 0)
        },
        BinaryOp::Shiftr => {
            let bits = x; let shift_amount = y;
            &&& old.room(1)
            &&& bits matches Val::Symbolic(x) ==> (old.sym_length(x) matches Some(len) ==> len >= 1)
            &&& bits matches Val::Bits(x) ==> (shift_amount is Symbolic ==> x.width() >= 1)
        },
        BinaryOp::Shiftl => {
            let bits = x; let len = y;
            &&& old.room(1)
            &&& bits matches Val::Symbolic(x) ==> (old.sym_length(x) matches Some(n) ==> n >= 1)
            &&& bits matches Val::Bits(x) ==> (len is Symbolic ==> x.width() >= 1)
        },
        BinaryOp::ShiftBitsRight => {
            let bits = x; let shift = y;
            &&& old.room(1)
        },
        BinaryOp::ShiftBitsLeft => {
            let bits = x; let shift = y;
            &&& old.room(1)
        },
        BinaryOp::Append => {
            let lhs = x; let rhs = y;
            &&& old.room(1)
        },
        BinaryOp::VectorAccess => {
            let vec = x; let n = y;
            &&& old.room(1)
            &&& vec matches Val::Symbolic(v) ==> (old.sym_length(v) matches Some(len) ==> len >= 1)
            &&& vec matches Val::Bits(b) ==> (n is Symbolic ==> b.width() >= 1)
        },
        BinaryOp::EqAnything => {
            let lhs = x; let rhs = y;
            &&& old.room(1)
        },
        BinaryOp::EqString => {
            let lhs = x; let rhs = y;
            true
        },
        BinaryOp::ConcatStr => {
            let lhs = x; let rhs = y;
            true
        },
        BinaryOp::StringStartswith => {
            let s = x; let prefix = y;
            true
        },
        BinaryOp::StringDrop => {
            let s = x; let n = y;
            true
        },
        BinaryOp::StringTake => {
            let s = x; let n = y;
            true
        },
        BinaryOp::Cons => {
            let xs = y;
            true
        },
        BinaryOp::UndefinedVector => {
            let len = x; let elem = y;
            true
        },
        BinaryOp::PrintString => {
            let prefix = x; let message = y;
            true
        },
        BinaryOp::PrerrString => {
            let prefix = x; let message = y;
            true
        },
        BinaryOp::PrintInt => {
            let prefix = x; let n = y;
            true
        },
        BinaryOp::PrerrInt => {
            let prefix = x; let n = y;
            true
        },
        BinaryOp::PrintBits => {
            let message = x; let bits = y;
            true
        },
        BinaryOp::PrerrBits => {
            let message = x; let bits = y;
            true
        },
        BinaryOp::BranchAnnounce => {
            let addr_size = x; let target = y;
            true
        },
        BinaryOp::MarkRegister => {
            let val = x; let mark = y;
            true
        },
    }
}

/// What the operation gives.
pub open spec fn binary_ensures(op: BinaryOp, x: Val, y: Val, answer: SmtResult, old: Solver, new: Solver, r: Result<Val, ExecError>) -> bool {
    match op {
        BinaryOp::OptimisticAssert => {
            let message = y; let can_be_true = answer;
            &&& match message {
                Val::String(m) => match x {
                    Val::Symbolic(v) => match can_be_true {
                        SmtResult::Sat => asserted(old, new, r, SExp::Var(v)),
                        SmtResult::Unsat => fails(
                            old,
                            new,
                            r,
                            ExecError::AssertionFailed(m),
                        ),
                        SmtResult::Unknown => fails(old, new, r, ExecError::SmtUnknown),
                    },
                    Val::Bool(true) => yields(old, new, r, Val::Unit),
                    Val::Bool(false) => fails(
                        old,
                        new,
                        r,
                        ExecError::AssertionFailed(m),
                    ),
                    _ => fails(old, new, r, ExecError::Type("optimistic_assert")),
                },
                _ => fails(old, new, r, ExecError::Type("optimistic_assert")),
            }
        },
        BinaryOp::PessimisticAssert => {
            let message = y; let can_be_false = answer;
            &&& match message {
                Val::String(m) => match x {
                    Val::Symbolic(v) => match can_be_false {
                        SmtResult::Sat => fails(
                            old,
                            new,
                            r,
                            ExecError::AssertionFailed(m),
                        ),
                        SmtResult::Unsat => yields(old, new, r, Val::Unit),
                        SmtResult::Unknown => fails(old, new, r, ExecError::SmtUnknown),
                    },
                    Val::Bool(true) => yields(old, new, r, Val::Unit),
                    Val::Bool(false) => fails(
                        old,
                        new,
                        r,
                        ExecError::AssertionFailed(m),
                    ),
                    _ => fails(old, new, r, ExecError::Type("pessimistic_assert")),
                },
                _ => fails(old, new, r, ExecError::Type("pessimistic_assert")),
            }
        },
        BinaryOp::AndBool => {
            &&& and_bool_post(old, new, r, x, y)
        },
        BinaryOp::OrBool => {
            &&& or_bool_post(old, new, r, x, y)
        },
        BinaryOp::EqInt => {
            &&& eq_int_post(old, new, r, x, y)
        },
        BinaryOp::EqBool => {
            &&& match (x, y) {
                (Val::Bool(a), Val::Bool(b)) => yields(old, new, r, Val::Bool(a == b)),
                _ => symbolic_binary(
                    old,
                    new,
                    r,
                    lift_bool(x),
                    lift_bool(y),
                    BinOp::Eq,
                    ExecError::Type("eq_bool"),
                ),
            }
        },
        BinaryOp::LteqInt => {
            &&& lteq_int_post(old, new, r, x, y)
        },
        BinaryOp::GteqInt => {
            &&& gteq_int_post(old, new, r, x, y)
        },
        BinaryOp::LtInt => {
            &&& lt_int_post(old, new, r, x, y)
        },
        BinaryOp::GtInt => {
            &&& gt_int_post(old, new, r, x, y)
        },
        BinaryOp::AddInt => {
            &&& add_int_post(old, new, r, x, y)
        },
        BinaryOp::SubInt => {
            &&& sub_int_post(old, new, r, x, y)
        },
        BinaryOp::SubNat => {
            &&& match (x, y) {
                (Val::I128(a), Val::I128(b)) => yields(old, new, r, Val::I128((if a - b >= 0 { a - b } else { 0 }) as i128)),
                _ => match (lift_i128(x), lift_i128(y)) {
                    (Some(a), Some(b)) => fresh_def(
                        old,
                        new,
                        r,
                        pick(BinOp::Bvsgt, bin(BinOp::Bvsub, a, b), sexp_i128(0)),
                    ),
                    _ => fails(old, new, r, ExecError::Type("sub_nat")),
                },
            }
        },
        BinaryOp::MultInt => {
            &&& mult_int_post(old, new, r, x, y)
        },
        BinaryOp::TdivInt => {
            &&& tdiv_int_post(old, new, r, x, y)
        },
        BinaryOp::TmodInt => {
            &&& match (x, y) {
                (Val::I128(a), Val::I128(b)) => yields(old, new, r, Val::I128(wrapping_rem_i128(a, b))),
                _ => symbolic_binary(old, new, r, lift_i128(x), lift_i128(y), BinOp::Bvsmod, ExecError::Type("tmod_int")),
            }
        },
        BinaryOp::EdivInt => {
            &&& ediv_int_post(old, new, r, x, y)
        },
        BinaryOp::EmodInt => {
            &&& emod_int_post(old, new, r, x, y)
        },
        BinaryOp::PowInt => {
            &&& match (x, y) {
                (Val::I128(a), Val::I128(b)) => if 0 <= b <= u32::MAX {
                    yields(old, new, r, Val::I128(pow(a as int, b as nat) as i128))
                } else {
                    fails(old, new, r, ExecError::Overflow)
                },
                _ => fails(old, new, r, ExecError::Type("pow_int")),
            }
        },
        BinaryOp::ShlInt => {
            &&& match (x, y) {
                (Val::I128(a), Val::I128(b)) => yields(old, new, r, Val::I128(a << (b as u32))),
                _ => symbolic_binary(old, new, r, lift_i128(x), lift_i128(y), BinOp::Bvshl, ExecError::Type("shl_int")),
            }
        },
        BinaryOp::ShrInt => {
            &&& match (x, y) {
                (Val::I128(a), Val::I128(b)) => yields(old, new, r, Val::I128(a >> (b as u32))),
                _ => symbolic_binary(old, new, r, lift_i128(x), lift_i128(y), BinOp::Bvashr, ExecError::Type("shr_int")),
            }
        },
        BinaryOp::ShlMachInt => {
            &&& match (x, y) {
                (Val::I64(a), Val::I64(b)) => yields(old, new, r, Val::I64(a << (b as u32))),
                _ => symbolic_binary(old, new, r, lift_i64(x), lift_i64(y), BinOp::Bvshl, ExecError::Type("shl_mach_int")),
            }
        },
        BinaryOp::ShrMachInt => {
            &&& match (x, y) {
                (Val::I64(a), Val::I64(b)) => yields(old, new, r, Val::I64(a >> (b as u32))),
                _ => symbolic_binary(old, new, r, lift_i64(x), lift_i64(y), BinOp::Bvashr, ExecError::Type("shr_mach_int")),
            }
        },
        BinaryOp::MaxInt => {
            &&& max_int_post(old, new, r, x, y)
        },
        BinaryOp::MinInt => {
            &&& min_int_post(old, new, r, x, y)
        },
        BinaryOp::EqBits => {
            &&& match (x, y) {
                (Val::Bits(a), Val::Bits(b)) => yields(old, new, r, Val::Bool(a == b)),
                _ => symbolic_binary(old, new, r, lift_bits(x), lift_bits(y), BinOp::Eq, ExecError::Type("eq_bits")),
            }
        },
        BinaryOp::NeqBits => {
            &&& match (x, y) {
                (Val::Bits(a), Val::Bits(b)) => yields(old, new, r, Val::Bool(a != b)),
                _ => symbolic_binary(old, new, r, lift_bits(x), lift_bits(y), BinOp::Neq, ExecError::Type("neq_bits")),
            }
        },
        BinaryOp::XorBits => {
            &&& xor_bits_post(old, new, r, x, y)
        },
        BinaryOp::OrBits => {
            &&& or_bits_post(old, new, r, x, y)
        },
        BinaryOp::AndBits => {
            &&& and_bits_post(old, new, r, x, y)
        },
        BinaryOp::AddBits => {
            &&& add_bits_post(old, new, r, x, y)
        },
        BinaryOp::SubBits => {
            &&& sub_bits_post(old, new, r, x, y)
        },
        BinaryOp::AddBitsInt => {
            let bits = x; let n = y;
            &&& match (bits, n) {
                (Val::Bits(b), Val::I128(k)) => yields_bits(old, new, r, b.width(), ((b.value() + k) % (vstd::arithmetic::power2::pow2(b.width()) as int)) as nat),
                (Val::Symbolic(v), Val::I128(k)) => match old.sym_length(v) {
                    Some(len) => fresh_def(old, new, r, bin(BinOp::Bvadd, SExp::Var(v), SExp::Extract((len - 1) as u32, 0, Box::new(sexp_i128(k))))),
                    None => fails_after_fresh(old, new, r, ExecError::Type("add_bits_int")),
                },
                (Val::Symbolic(v), Val::Symbolic(k)) => match old.sym_length(v) {
                    Some(len) => fresh_def(old, new, r, bin(BinOp::Bvadd, SExp::Var(v), SExp::Extract((len - 1) as u32, 0, Box::new(SExp::Var(k))))),
                    None => fails_after_fresh(old, new, r, ExecError::Type("add_bits_int")),
                },
                _ => fails(old, new, r, ExecError::Type("add_bits_int")),
            }
        },
        BinaryOp::SubBitsInt => {
            let bits = x; let n = y;
            &&& match (bits, n) {
                (Val::Bits(b), Val::I128(k)) => yields_bits(old, new, r, b.width(), ((b.value() - k) % (vstd::arithmetic::power2::pow2(b.width()) as int)) as nat),
                (Val::Symbolic(v), Val::I128(k)) => match old.sym_length(v) {
                    Some(len) => fresh_def(old, new, r, bin(BinOp::Bvsub, SExp::Var(v), SExp::Extract((len - 1) as u32, 0, Box::new(sexp_i128(k))))),
                    None => fails_after_fresh(old, new, r, ExecError::Type("sub_bits_int")),
                },
                (Val::Symbolic(v), Val::Symbolic(k)) => match old.sym_length(v) {
                    Some(len) => fresh_def(old, new, r, bin(BinOp::Bvsub, SExp::Var(v), SExp::Extract((len - 1) as u32, 0, Box::new(SExp::Var(k))))),
                    None => fails_after_fresh(old, new, r, ExecError::Type("sub_bits_int")),
                },
                _ => fails(old, new, r, ExecError::Type("sub_bits_int")),
            }
        },
        BinaryOp::AlignBits => {
            let bv = x; let alignment = y;
            &&& align_bits_post(old, new, r, bv, alignment)
        },
        BinaryOp::UndefinedRange => {
            let lo = x; let hi = y;
            &&& undefined_range_post(old, new, r, lo, hi)
        },
        BinaryOp::ZeroExtend => {
            let bits = x; let len = y;
            &&& extension_post(old, new, r, bits, len, false, "zero_extend")
        },
        BinaryOp::SignExtend => {
            let bits = x; let len = y;
            &&& extension_post(old, new, r, bits, len, true, "sign_extend")
        },
        BinaryOp::SailTruncate => {
            let bits = x; let len = y;
            &&& slice_internal_post(old, new, r, bits, Val::I128(0), len)
        },
        BinaryOp::SailTruncateLsb => {
            let bits = x; let len = y;
            &&& truncate_lsb_post(old, new, r, bits, len)
        },
        BinaryOp::ReplicateBits => {
            let bits = x; let times = y;
            &&& replicate_post(old, new, r, bits, times)
        },
        BinaryOp::Shiftr => {
            let bits = x; let shift_amount = y;
            &&& shift_post(old, new, r, bits, shift_amount, false)
        },
        BinaryOp::Shiftl => {
            let bits = x; let len = y;
            &&& shift_post(old, new, r, bits, len, true)
        },
        BinaryOp::ShiftBitsRight => {
            let bits = x; let shift = y;
            &&& shift_bits_post(old, new, r, bits, shift, false)
        },
        BinaryOp::ShiftBitsLeft => {
            let bits = x; let shift = y;
            &&& shift_bits_post(old, new, r, bits, shift, true)
        },
        BinaryOp::Append => {
            let lhs = x; let rhs = y;
            &&& append_post(old, new, r, lhs, rhs)
        },
        BinaryOp::VectorAccess => {
            let vec = x; let n = y;
            &&& match vec {
                Val::Symbolic(v) => access_symbolic_post(old, new, r, v, n),
                Val::Bits(b) => access_bits_post(old, new, r, b, n),
                Val::Vector(v) => match n {
                    Val::I128(k) => if (k as usize) < v@.len() {
                        yields(old, new, r, v@[(k as usize) as int])
                    } else {
                        fails(old, new, r, ExecError::OutOfBounds("vector_access"))
                    },
                    _ => fails(old, new, r, ExecError::Type("vector_access")),
                },
                _ => fails(old, new, r, ExecError::Type("vector_access")),
            }
        },
        BinaryOp::EqAnything => {
            let lhs = x; let rhs = y;
            &&& eq_anything_post(old, new, r, lhs, rhs, false)
        },
        BinaryOp::EqString => {
            let lhs = x; let rhs = y;
            &&& match (lhs, rhs) {
                (Val::String(a), Val::String(b)) => yields(old, new, r, Val::Bool(a@ == b@)),
                _ => fails(old, new, r, ExecError::Type("eq_string")),
            }
        },
        BinaryOp::ConcatStr => {
            let lhs = x; let rhs = y;
            &&& match (lhs, rhs) {
                (Val::String(a), Val::String(b)) => yields_text(old, new, r, a@ + b@),
                _ => fails(old, new, r, ExecError::Type("concat_str")),
            }
        },
        BinaryOp::StringStartswith => {
            let s = x; let prefix = y;
            &&& match (s, prefix) {
                (Val::String(t), Val::String(p)) => yields(old, new, r, Val::Bool(encode_utf8(p@).is_prefix_of(encode_utf8(t@)))),
                _ => fails(old, new, r, ExecError::Type("string_startswith")),
            }
        },
        BinaryOp::StringDrop => {
            let s = x; let n = y;
            &&& match (s, n) {
                (Val::String(t), Val::I128(k)) => {
                    &&& r matches Ok(Val::String(u)) && encode_utf8(u@) == (if is_char_boundary(encode_utf8(t@), (k as usize) as int) {
                        encode_utf8(t@).subrange((k as usize) as int, encode_utf8(t@).len() as int)
                    } else {
                        Seq::empty()
                    })
                    &&& super::unchanged(old, new)
                },
                _ => fails(old, new, r, ExecError::Type("string_drop")),
            }
        },
        BinaryOp::StringTake => {
            let s = x; let n = y;
            &&& match (s, n) {
                (Val::String(t), Val::I128(k)) => {
                    &&& r matches Ok(Val::String(u)) && encode_utf8(u@) == (if is_char_boundary(encode_utf8(t@), (k as usize) as int) {
                        encode_utf8(t@).subrange(0, (k as usize) as int)
                    } else {
                        encode_utf8(t@)
                    })
                    &&& super::unchanged(old, new)
                },
                _ => fails(old, new, r, ExecError::Type("string_take")),
            }
        },
        BinaryOp::Cons => {
            let xs = y;
            &&& unchanged(old, new)
            &&& match xs {
                Val::Poison => r matches Ok(Val::List(w)) && w@ == seq![x],
                Val::List(v) => r matches Ok(Val::List(w)) && w@ == v@.push(x),
                _ => r == Err::<Val, ExecError>(ExecError::Type("cons")),
            }
        },
        BinaryOp::UndefinedVector => {
            let len = x; let elem = y;
            &&& unchanged(old, new)
            &&& match len {
                Val::I128(n) => if 0 <= n <= usize::MAX {
                    r matches Ok(Val::Vector(v)) && v@.len() == n && forall|i: int|
                        0 <= i < n ==> #[trigger] same_val(elem, v@[i])
                } else {
                    r == Err::<Val, ExecError>(ExecError::Overflow)
                },
                _ => r == Err::<Val, ExecError>(ExecError::SymbolicLength("undefined_vector")),
            }
        },
        BinaryOp::PrintString => {
            let prefix = x; let message = y;
            &&& yields(old, new, r, Val::Unit)
        },
        BinaryOp::PrerrString => {
            let prefix = x; let message = y;
            &&& yields(old, new, r, Val::Unit)
        },
        BinaryOp::PrintInt => {
            let prefix = x; let n = y;
            &&& yields(old, new, r, Val::Unit)
        },
        BinaryOp::PrerrInt => {
            let prefix = x; let n = y;
            &&& yields(old, new, r, Val::Unit)
        },
        BinaryOp::PrintBits => {
            let message = x; let bits = y;
            &&& yields(old, new, r, Val::Unit)
        },
        BinaryOp::PrerrBits => {
            let message = x; let bits = y;
            &&& yields(old, new, r, Val::Unit)
        },
        BinaryOp::BranchAnnounce => {
            let addr_size = x; let target = y;
            &&& records(old, new, r, Event::Branch { address: target })
        },
        BinaryOp::MarkRegister => {
            let val = x; let mark = y;
            &&& match (val, mark) {
                (Val::Ref(reg), Val::String(m)) => records(old, new, r, Event::MarkReg { reg, mark: m }),
                _ => fails(old, new, r, ExecError::Type("mark_register")),
            }
        },
    }
}

/// What the operation requires of its arguments and the solver.
pub open spec fn variadic_requires(op: VariadicOp, args: Vec<Val>, old: Solver) -> bool {
    match op {
        VariadicOp::Slice => {
            &&& args@.len() >= 3
            &&& old.room(1)
            &&& slice_internal_ok(old, args@[0], args@[1], args@[2])
        },
        VariadicOp::Subrange => {
            &&& args@.len() >= 3
            &&& old.room(1)
        },
        VariadicOp::VectorUpdate => {
            &&& args@.len() >= 3
            &&& old.room(1)
            &&& match args@[0] {
                Val::Vector(xs) => match args@[1] {
                    Val::I128(k) => (k as usize) < xs@.len(),
                    _ => old.room(xs@.len() + 1),
                },
                _ => set_slice_ok(old, args@[0], args@[1], args@[2], true),
            }
        },
        VariadicOp::VectorUpdateSubrange => {
            &&& args@.len() >= 4
            &&& old.room(1)
            &&& set_slice_ok(old, args@[0], args@[2], args@[3], true)
        },
        VariadicOp::BitvectorUpdate => {
            &&& args@.len() >= 3
            &&& old.room(1)
            &&& set_slice_ok(old, args@[0], args@[1], args@[2], false)
        },
        VariadicOp::SetSlice => {
            &&& args@.len() >= 5
            &&& old.room(1)
            &&& set_slice_ok(old, args@[2], args@[3], args@[4], true)
        },
        VariadicOp::GetSliceInt => {
            &&& args@.len() >= 3
            &&& old.room(1)
            &&& get_slice_int_ok(args@[0], args@[1], args@[2])
        },
        VariadicOp::SetSliceInt => {
            &&& args@.len() >= 4
            &&& old.room(1)
            &&& set_slice_int_ok(old, args@[2], args@[3])
        },
        VariadicOp::ReadMem => {
            &&& args@.len() >= 4
        },
        VariadicOp::WriteMem => {
            &&& args@.len() >= 5
        },
        VariadicOp::WriteMemEa => {
            true
        },
        VariadicOp::CacheMaintenance => {
            &&& args@.len() >= 3
        },
        VariadicOp::ElfEntry => {
            true
        },
        VariadicOp::Ite => {
            &&& args@.len() >= 1
            &&& (args@[0] is Symbolic || args@[0] is Bool) ==> args@.len() >= 3
            &&& old.room(1)
        },
        VariadicOp::Unimplemented => {
            true
        },
    }
}

/// What the operation gives.
pub open spec fn variadic_ensures(op: VariadicOp, args: Vec<Val>, old: Solver, new: Solver, step: Step) -> bool {
    match op {
        VariadicOp::Slice => {
            step matches Step::Done(r) && {
                &&& slice_internal_post(old, new, r, args@[0], args@[1], args@[2])
            }
        },
        VariadicOp::Subrange => {
            step matches Step::Done(r) && {
                &&& subrange_internal_post(old, new, r, args@[0], args@[1], args@[2])
            }
        },
        VariadicOp::VectorUpdate => {
            step matches Step::Done(r) && {
                &&& vector_update_post(old, new, r, args@[0], args@[1], args@[2])
            }
        },
        VariadicOp::VectorUpdateSubrange => {
            step matches Step::Done(r) && {
                &&& set_slice_post(old, new, r, args@[0], args@[2], args@[3], true)
            }
        },
        VariadicOp::BitvectorUpdate => {
            step matches Step::Done(r) && {
                &&& set_slice_post(old, new, r, args@[0], args@[1], args@[2], false)
            }
        },
        VariadicOp::SetSlice => {
            step matches Step::Done(r) && {
                &&& set_slice_post(old, new, r, args@[2], args@[3], args@[4], true)
            }
        },
        VariadicOp::GetSliceInt => {
            step matches Step::Done(r) && {
                &&& get_slice_int_post(old, new, r, args@[0], args@[1], args@[2])
            }
        },
        VariadicOp::SetSliceInt => {
            step matches Step::Done(r) && {
                &&& set_slice_int_post(old, new, r, args@[1], args@[2], args@[3])
            }
        },
        VariadicOp::ReadMem => {
            &&& step == Step::Memory(MemRequest::Read { read_kind: args@[0], address: args@[2], bytes: args@[3] })
            &&& unchanged(old, new)
        },
        VariadicOp::WriteMem => {
            &&& step == Step::Memory(MemRequest::Write { write_kind: args@[0], address: args@[2], data: args@[4] })
            &&& unchanged(old, new)
        },
        VariadicOp::WriteMemEa => {
            step matches Step::Done(r) && {
                &&& yields(old, new, r, Val::Unit)
            }
        },
        VariadicOp::CacheMaintenance => {
            step matches Step::Done(r) && {
                &&& records(old, new, r, Event::CacheOp { cache_op_kind: args@[0], address: args@[2] })
            }
        },
        VariadicOp::ElfEntry => {
            step matches Step::Done(r) && {
                &&& unchanged(old, new)
            }
        },
        VariadicOp::Ite => {
            step matches Step::Done(r) && {
                &&& match args@[0] {
                    Val::Symbolic(c) => match (sexp_of_val(args@[1]), sexp_of_val(args@[2])) {
                        (Some(a), Some(b)) => fresh_def(
                            old,
                            new,
                            r,
                            SExp::Ite(Box::new(SExp::Var(c)), Box::new(a), Box::new(b)),
                        ),
                        _ => fails(old, new, r, ExecError::Type("smt_value")),
                    },
                    Val::Bool(true) => yields(old, new, r, args@[1]),
                    Val::Bool(false) => yields(old, new, r, args@[2]),
                    _ => fails(old, new, r, ExecError::Type("ite")),
                }
            }
        },
        VariadicOp::Unimplemented => {
            step matches Step::Done(r) && {
                &&& fails(old, new, r, ExecError::Unimplemented)
            }
        },
    }
}

impl UnaryOp {
    /// Applies the operation.
    pub fn apply(self, x: Val, solver: &mut Solver) -> (r: Result<Val, ExecError>)
        requires
            unary_requires(self, x, *old(solver)),
        ensures
            unary_ensures(self, x, *old(solver), *final(solver), r),
    {
        match self {
            UnaryOp::I64ToI128 => i64_to_i128(x, solver),
            UnaryOp::I128ToI64 => i128_to_i64(x, solver),
            UnaryOp::StringToI128 => string_to_i128(x, solver),
            UnaryOp::BitToBool => bit_to_bool(x, solver),
            UnaryOp::Assume => assume_bool(x, solver),
            UnaryOp::Not => not_bool(x, solver),
            UnaryOp::NegInt => neg_int(x, solver),
            UnaryOp::AbsInt => abs_int(x, solver),
            UnaryOp::Pow2 => pow2(x, solver),
            UnaryOp::NotBits => not_bits(x, solver),
            UnaryOp::Length => length(x, solver),
            UnaryOp::Zeros => zeros(x, solver),
            UnaryOp::Ones => ones(x, solver),
            UnaryOp::SailUnsigned => sail_unsigned(x, solver),
            UnaryOp::SailSigned => sail_signed(x, solver),
            UnaryOp::Putchar => putchar(x, solver),
            UnaryOp::Print => print(x, solver),
            UnaryOp::Prerr => prerr(x, solver),
            UnaryOp::PrintEndline => print_endline(x, solver),
            UnaryOp::PrerrEndline => prerr_endline(x, solver),
            UnaryOp::UndefinedBitvector => undefined_bitvector(x, solver),
            UnaryOp::UndefinedBool => undefined_bool(x, solver),
            UnaryOp::UndefinedInt => undefined_int(x, solver),
            UnaryOp::UndefinedNat => undefined_nat(x, solver),
            UnaryOp::UndefinedUnit => undefined_unit(x, solver),
            UnaryOp::UndefinedString => undefined_string(x, solver),
            UnaryOp::OneIf => one_if(x, solver),
            UnaryOp::ZeroIf => zero_if(x, solver),
            UnaryOp::Choice => choice(x, solver),
            UnaryOp::BadRead => bad_read(x, solver),
            UnaryOp::BadWrite => bad_write(x, solver),
            UnaryOp::HexStr => hex_str(x, solver),
            UnaryOp::DecStr => dec_str(x, solver),
            UnaryOp::StringLength => string_length(x, solver),
            UnaryOp::StringOfBits => string_of_bits(x, solver),
            UnaryOp::DecimalStringOfBits => decimal_string_of_bits(x, solver),
            UnaryOp::StringOfInt => string_of_int(x, solver),
            UnaryOp::CycleCount => cycle_count(x, solver),
            UnaryOp::GetCycleCount => get_cycle_count(x, solver),
            UnaryOp::GetVerbosity => get_verbosity(x, solver),
            UnaryOp::Sleeping => sleeping(x, solver),
            UnaryOp::SleepRequest => sleep_request(x, solver),
            UnaryOp::WakeupRequest => wakeup_request(x, solver),
            UnaryOp::InstrAnnounce => instr_announce(x, solver),
            UnaryOp::Barrier => barrier(x, solver),
            UnaryOp::Monomorphize => monomorphize(x, solver),
        }
    }
}

impl BinaryOp {
    /// Applies the operation; `answer` is the solver's answer to the
    /// satisfiability query that the assertions make, and is not read by the
    /// other operations.
    pub fn apply(self, x: Val, y: Val, solver: &mut Solver, answer: SmtResult) -> (r: Result<Val, ExecError>)
        requires
            binary_requires(self, x, y, answer, *old(solver)),
        ensures
            binary_ensures(self, x, y, answer, *old(solver), *final(solver), r),
    {
        match self {
            BinaryOp::OptimisticAssert => optimistic_assert(x, y, solver, answer),
            BinaryOp::PessimisticAssert => pessimistic_assert(x, y, solver, answer),
            BinaryOp::AndBool => and_bool(x, y, solver),
            BinaryOp::OrBool => or_bool(x, y, solver),
            BinaryOp::EqInt => eq_int(x, y, solver),
            BinaryOp::EqBool => eq_bool(x, y, solver),
            BinaryOp::LteqInt => lteq_int(x, y, solver),
            BinaryOp::GteqInt => gteq_int(x, y, solver),
            BinaryOp::LtInt => lt_int(x, y, solver),
            BinaryOp::GtInt => gt_int(x, y, solver),
            BinaryOp::AddInt => add_int(x, y, solver),
            BinaryOp::SubInt => sub_int(x, y, solver),
            BinaryOp::SubNat => sub_nat(x, y, solver),
            BinaryOp::MultInt => mult_int(x, y, solver),
            BinaryOp::TdivInt => tdiv_int(x, y, solver),
            BinaryOp::TmodInt => tmod_int(x, y, solver),
            BinaryOp::EdivInt => ediv_int(x, y, solver),
            BinaryOp::EmodInt => emod_int(x, y, solver),
            BinaryOp::PowInt => pow_int(x, y, solver),
            BinaryOp::ShlInt => shl_int(x, y, solver),
            BinaryOp::ShrInt => shr_int(x, y, solver),
            BinaryOp::ShlMachInt => shl_mach_int(x, y, solver),
            BinaryOp::ShrMachInt => shr_mach_int(x, y, solver),
            BinaryOp::MaxInt => max_int(x, y, solver),
            BinaryOp::MinInt => min_int(x, y, solver),
            BinaryOp::EqBits => eq_bits(x, y, solver),
            BinaryOp::NeqBits => neq_bits(x, y, solver),
            BinaryOp::XorBits => xor_bits(x, y, solver),
            BinaryOp::OrBits => or_bits(x, y, solver),
            BinaryOp::AndBits => and_bits(x, y, solver),
            BinaryOp::AddBits => add_bits(x, y, solver),
            BinaryOp::SubBits => sub_bits(x, y, solver),
            BinaryOp::AddBitsInt => add_bits_int(x, y, solver),
            BinaryOp::SubBitsInt => sub_bits_int(x, y, solver),
            BinaryOp::AlignBits => align_bits(x, y, solver),
            BinaryOp::UndefinedRange => undefined_range(x, y, solver),
            BinaryOp::ZeroExtend => zero_extend(x, y, solver),
            BinaryOp::SignExtend => sign_extend(x, y, solver),
            BinaryOp::SailTruncate => sail_truncate(x, y, solver),
            BinaryOp::SailTruncateLsb => sail_truncate_lsb(x, y, solver),
            BinaryOp::ReplicateBits => replicate_bits(x, y, solver),
            BinaryOp::Shiftr => shiftr(x, y, solver),
            BinaryOp::Shiftl => shiftl(x, y, solver),
            BinaryOp::ShiftBitsRight => shift_bits_right(x, y, solver),
            BinaryOp::ShiftBitsLeft => shift_bits_left(x, y, solver),
            BinaryOp::Append => append(x, y, solver),
            BinaryOp::VectorAccess => vector_access(x, y, solver),
            BinaryOp::EqAnything => eq_anything(x, y, solver),
            BinaryOp::EqString => eq_string(x, y, solver),
            BinaryOp::ConcatStr => concat_str(x, y, solver),
            BinaryOp::StringStartswith => string_startswith(x, y, solver),
            BinaryOp::StringDrop => string_drop(x, y, solver),
            BinaryOp::StringTake => string_take(x, y, solver),
            BinaryOp::Cons => cons(x, y, solver),
            BinaryOp::UndefinedVector => undefined_vector(x, y, solver),
            BinaryOp::PrintString => print_string(x, y, solver),
            BinaryOp::PrerrString => prerr_string(x, y, solver),
            BinaryOp::PrintInt => print_int(x, y, solver),
            BinaryOp::PrerrInt => prerr_int(x, y, solver),
            BinaryOp::PrintBits => print_bits(x, y, solver),
            BinaryOp::PrerrBits => prerr_bits(x, y, solver),
            BinaryOp::BranchAnnounce => branch_announce(x, y, solver),
            BinaryOp::MarkRegister => mark_register(x, y, solver),
        }
    }
}

impl VariadicOp {
    /// Applies the operation.
    pub fn apply(self, args: Vec<Val>, solver: &mut Solver, frame: &mut LocalFrame) -> (step: Step)
        requires
            variadic_requires(self, args, *old(solver)),
        ensures
            variadic_ensures(self, args, *old(solver), *final(solver), step),
            *final(frame) == *old(frame),
    {
        match self {
            VariadicOp::Slice => Step::Done(slice(args, solver, frame)),
            VariadicOp::Subrange => Step::Done(subrange(args, solver, frame)),
            VariadicOp::VectorUpdate => Step::Done(vector_update(args, solver, frame)),
            VariadicOp::VectorUpdateSubrange => Step::Done(vector_update_subrange(args, solver, frame)),
            VariadicOp::BitvectorUpdate => Step::Done(bitvector_update(args, solver, frame)),
            VariadicOp::SetSlice => Step::Done(set_slice(args, solver, frame)),
            VariadicOp::GetSliceInt => Step::Done(get_slice_int(args, solver, frame)),
            VariadicOp::SetSliceInt => Step::Done(set_slice_int(args, solver, frame)),
            VariadicOp::ReadMem => Step::Memory(read_mem(args)),
            VariadicOp::WriteMem => Step::Memory(write_mem(args)),
            VariadicOp::WriteMemEa => Step::Done(write_mem_ea(args, solver, frame)),
            VariadicOp::CacheMaintenance => Step::Done(cache_maintenance(args, solver, frame)),
            VariadicOp::ElfEntry => Step::Done(elf_entry(args, solver, frame)),
            VariadicOp::Ite => Step::Done(ite(args, solver, frame)),
            VariadicOp::Unimplemented => Step::Done(unimplemented(args, solver, frame)),
        }
    }
}

/// A table as names and operations.
pub open spec fn table_view<T>(t: Seq<(String, T)>) -> Seq<(Seq<char>, T)> {
    t.map_values(|e: (String, T)| (e.0@, e.1))
}

/// Adds an entry to a table.
fn add_entry<T>(t: &mut Vec<(String, T)>, name: &str, op: T)
    ensures
        table_view(final(t)@) == table_view(old(t)@).push((name@, op)),
{
    t.push((String::from_str(name), op));
    proof {
        assert(table_view(t@) =~= table_view(old(t)@).push((name@, op)));
    }
}

/// An empty table.
fn empty_table<T>() -> (t: Vec<(String, T)>)
    ensures
        table_view(t@) == Seq::<(Seq<char>, T)>::empty(),
{
    let t: Vec<(String, T)> = Vec::new();
    proof {
        assert(table_view(t@) =~= Seq::<(Seq<char>, T)>::empty());
    }
    t
}

/// Whether the part of `a` from position `i` on comes strictly before the part
/// of `b` from position `i` on, in the order of their characters' numbers, a
/// proper prefix coming first.
pub open spec fn name_below(a: Seq<char>, b: Seq<char>, i: nat) -> bool
    decreases a.len() - i,
{
    if i >= a.len() {
        i < b.len()
    } else if i >= b.len() {
        false
    } else if a[i as int] != b[i as int] {
        (a[i as int] as int) < (b[i as int] as int)
    } else {
        name_below(a, b, i + 1)
    }
}

/// Whether `a` comes strictly before `b` in the order of names.
pub open spec fn name_before(a: Seq<char>, b: Seq<char>) -> bool {
    name_below(a, b, 0)
}

/// The names of `t` are in strictly increasing order.
pub open spec fn names_increase<T>(t: Seq<(Seq<char>, T)>) -> bool {
    forall|k: int| 0 <= k < t.len() - 1 ==> name_before(#[trigger] t[k].0, t[k + 1].0)
}

/// The names of the operations of one argument, in the order they are entered.
pub open spec fn unary_table() -> Seq<(Seq<char>, UnaryOp)> {
    seq![
        ("%i->%i64"@, UnaryOp::I128ToI64),
        ("%i64->%i"@, UnaryOp::I64ToI128),
        ("%string->%i"@, UnaryOp::StringToI128),
        ("abs_int"@, UnaryOp::AbsInt),
        ("assume"@, UnaryOp::Assume),
        ("bad_read"@, UnaryOp::BadRead),
        ("bad_write"@, UnaryOp::BadWrite),
        ("bit_to_bool"@, UnaryOp::BitToBool),
        ("cycle_count"@, UnaryOp::CycleCount),
        ("dec_str"@, UnaryOp::DecStr),
        ("decimal_string_of_bits"@, UnaryOp::DecimalStringOfBits),
        ("get_cycle_count"@, UnaryOp::GetCycleCount),
        ("hex_str"@, UnaryOp::HexStr),
        ("internal_pick"@, UnaryOp::Choice),
        ("length"@, UnaryOp::Length),
        ("monomorphize"@, UnaryOp::Monomorphize),
        ("neg_int"@, UnaryOp::NegInt),
        ("not"@, UnaryOp::Not),
        ("not_bits"@, UnaryOp::NotBits),
        ("one_if"@, UnaryOp::OneIf),
        ("ones"@, UnaryOp::Ones),
        ("platform_barrier"@, UnaryOp::Barrier),
        ("platform_instr_announce"@, UnaryOp::InstrAnnounce),
        ("pow2"@, UnaryOp::Pow2),
        ("prerr"@, UnaryOp::Prerr),
        ("prerr_endline"@, UnaryOp::PrerrEndline),
        ("print"@, UnaryOp::Print),
        ("print_endline"@, UnaryOp::PrintEndline),
        ("sail_get_verbosity"@, UnaryOp::GetVerbosity),
        ("sail_putchar"@, UnaryOp::Putchar),
        ("sail_signed"@, UnaryOp::SailSigned),
        ("sail_unsigned"@, UnaryOp::SailUnsigned),
        ("sleep_request"@, UnaryOp::SleepRequest),
        ("sleeping"@, UnaryOp::Sleeping),
        ("string_length"@, UnaryOp::StringLength),
        ("string_of_bits"@, UnaryOp::StringOfBits),
        ("string_of_int"@, UnaryOp::StringOfInt),
        ("undefined_bitvector"@, UnaryOp::UndefinedBitvector),
        ("undefined_bool"@, UnaryOp::UndefinedBool),
        ("undefined_int"@, UnaryOp::UndefinedInt),
        ("undefined_nat"@, UnaryOp::UndefinedNat),
        ("undefined_string"@, UnaryOp::UndefinedString),
        ("undefined_unit"@, UnaryOp::UndefinedUnit),
        ("wakeup_request"@, UnaryOp::WakeupRequest),
        ("zero_if"@, UnaryOp::ZeroIf),
        ("zeros"@, UnaryOp::Zeros),
    ]
}

/// The table of the operations of one argument.
pub fn unary_primops() -> (r: Vec<(String, UnaryOp)>)
    ensures
        table_view(r@) == unary_table(),
{
    let mut t = empty_table();
    add_entry(&mut t, "%i->%i64", UnaryOp::I128ToI64);
    add_entry(&mut t, "%i64->%i", UnaryOp::I64ToI128);
    add_entry(&mut t, "%string->%i", UnaryOp::StringToI128);
    add_entry(&mut t, "abs_int", UnaryOp::AbsInt);
    add_entry(&mut t, "assume", UnaryOp::Assume);
    add_entry(&mut t, "bad_read", UnaryOp::BadRead);
    add_entry(&mut t, "bad_write", UnaryOp::BadWrite);
    add_entry(&mut t, "bit_to_bool", UnaryOp::BitToBool);
    add_entry(&mut t, "cycle_count", UnaryOp::CycleCount);
    add_entry(&mut t, "dec_str", UnaryOp::DecStr);
    add_entry(&mut t, "decimal_string_of_bits", UnaryOp::DecimalStringOfBits);
    add_entry(&mut t, "get_cycle_count", UnaryOp::GetCycleCount);
    add_entry(&mut t, "hex_str", UnaryOp::HexStr);
    add_entry(&mut t, "internal_pick", UnaryOp::Choice);
    add_entry(&mut t, "length", UnaryOp::Length);
    add_entry(&mut t, "monomorphize", UnaryOp::Monomorphize);
    add_entry(&mut t, "neg_int", UnaryOp::NegInt);
    add_entry(&mut t, "not", UnaryOp::Not);
    add_entry(&mut t, "not_bits", UnaryOp::NotBits);
    add_entry(&mut t, "one_if", UnaryOp::OneIf);
    add_entry(&mut t, "ones", UnaryOp::Ones);
    add_entry(&mut t, "platform_barrier", UnaryOp::Barrier);
    add_entry(&mut t, "platform_instr_announce", UnaryOp::InstrAnnounce);
    add_entry(&mut t, "pow2", UnaryOp::Pow2);
    add_entry(&mut t, "prerr", UnaryOp::Prerr);
    add_entry(&mut t, "prerr_endline", UnaryOp::PrerrEndline);
    add_entry(&mut t, "print", UnaryOp::Print);
    add_entry(&mut t, "print_endline", UnaryOp::PrintEndline);
    add_entry(&mut t, "sail_get_verbosity", UnaryOp::GetVerbosity);
    add_entry(&mut t, "sail_putchar", UnaryOp::Putchar);
    add_entry(&mut t, "sail_signed", UnaryOp::SailSigned);
    add_entry(&mut t, "sail_unsigned", UnaryOp::SailUnsigned);
    add_entry(&mut t, "sleep_request", UnaryOp::SleepRequest);
    add_entry(&mut t, "sleeping", UnaryOp::Sleeping);
    add_entry(&mut t, "string_length", UnaryOp::StringLength);
    add_entry(&mut t, "string_of_bits", UnaryOp::StringOfBits);
    add_entry(&mut t, "string_of_int", UnaryOp::StringOfInt);
    add_entry(&mut t, "undefined_bitvector", UnaryOp::UndefinedBitvector);
    add_entry(&mut t, "undefined_bool", UnaryOp::UndefinedBool);
    add_entry(&mut t, "undefined_int", UnaryOp::UndefinedInt);
    add_entry(&mut t, "undefined_nat", UnaryOp::UndefinedNat);
    add_entry(&mut t, "undefined_string", UnaryOp::UndefinedString);
    add_entry(&mut t, "undefined_unit", UnaryOp::UndefinedUnit);
    add_entry(&mut t, "wakeup_request", UnaryOp::WakeupRequest);
    add_entry(&mut t, "zero_if", UnaryOp::ZeroIf);
    add_entry(&mut t, "zeros", UnaryOp::Zeros);
    t
}

/// The names of the operations of two arguments, in the order they are entered.
pub open spec fn binary_table() -> Seq<(Seq<char>, BinaryOp)> {
    seq![
        ("add_bits"@, BinaryOp::AddBits),
        ("add_bits_int"@, BinaryOp::AddBitsInt),
        ("add_int"@, BinaryOp::AddInt),
        ("align_bits"@, BinaryOp::AlignBits),
        ("and_bits"@, BinaryOp::AndBits),
        ("and_bool"@, BinaryOp::AndBool),
        ("append"@, BinaryOp::Append),
        ("append_64"@, BinaryOp::Append),
        ("concat_str"@, BinaryOp::ConcatStr),
        ("cons"@, BinaryOp::Cons),
        ("ediv_int"@, BinaryOp::EdivInt),
        ("emod_int"@, BinaryOp::EmodInt),
        ("eq_anything"@, BinaryOp::EqAnything),
        ("eq_bit"@, BinaryOp::EqBits),
        ("eq_bits"@, BinaryOp::EqBits),
        ("eq_bool"@, BinaryOp::EqBool),
        ("eq_int"@, BinaryOp::EqInt),
        ("eq_string"@, BinaryOp::EqString),
        ("gt"@, BinaryOp::GtInt),
        ("gteq"@, BinaryOp::GteqInt),
        ("lt"@, BinaryOp::LtInt),
        ("lteq"@, BinaryOp::LteqInt),
        ("mark_register"@, BinaryOp::MarkRegister),
        ("max_int"@, BinaryOp::MaxInt),
        ("min_int"@, BinaryOp::MinInt),
        ("mult_int"@, BinaryOp::MultInt),
        ("neq_bits"@, BinaryOp::NeqBits),
        ("optimistic_assert"@, BinaryOp::OptimisticAssert),
        ("or_bits"@, BinaryOp::OrBits),
        ("or_bool"@, BinaryOp::OrBool),
        ("pessimistic_assert"@, BinaryOp::PessimisticAssert),
        ("platform_branch_announce"@, BinaryOp::BranchAnnounce),
        ("pow_int"@, BinaryOp::PowInt),
        ("prerr_bits"@, BinaryOp::PrerrBits),
        ("prerr_int"@, BinaryOp::PrerrInt),
        ("prerr_string"@, BinaryOp::PrerrString),
        ("print_bits"@, BinaryOp::PrintBits),
        ("print_int"@, BinaryOp::PrintInt),
        ("print_string"@, BinaryOp::PrintString),
        ("replicate_bits"@, BinaryOp::ReplicateBits),
        ("sail_truncate"@, BinaryOp::SailTruncate),
        ("sail_truncateLSB"@, BinaryOp::SailTruncateLsb),
        ("shift_bits_left"@, BinaryOp::ShiftBitsLeft),
        ("shift_bits_right"@, BinaryOp::ShiftBitsRight),
        ("shiftl"@, BinaryOp::Shiftl),
        ("shiftr"@, BinaryOp::Shiftr),
        ("shl_int"@, BinaryOp::ShlInt),
        ("shl_mach_int"@, BinaryOp::ShlMachInt),
        ("shr_int"@, BinaryOp::ShrInt),
        ("shr_mach_int"@, BinaryOp::ShrMachInt),
        ("sign_extend"@, BinaryOp::SignExtend),
        ("strict_and_bool"@, BinaryOp::AndBool),
        ("strict_or_bool"@, BinaryOp::OrBool),
        ("string_drop"@, BinaryOp::StringDrop),
        ("string_startswith"@, BinaryOp::StringStartswith),
        ("string_take"@, BinaryOp::StringTake),
        ("sub_bits"@, BinaryOp::SubBits),
        ("sub_bits_int"@, BinaryOp::SubBitsInt),
        ("sub_int"@, BinaryOp::SubInt),
        ("sub_nat"@, BinaryOp::SubNat),
        ("tdiv_int"@, BinaryOp::TdivInt),
        ("tmod_int"@, BinaryOp::TmodInt),
        ("undefined_range"@, BinaryOp::UndefinedRange),
        ("undefined_vector"@, BinaryOp::UndefinedVector),
        ("vector_access"@, BinaryOp::VectorAccess),
        ("xor_bits"@, BinaryOp::XorBits),
        ("zero_extend"@, BinaryOp::ZeroExtend),
    ]
}

/// The table of the operations of two arguments.
#[verifier::rlimit(60)]
pub fn binary_primops() -> (r: Vec<(String, BinaryOp)>)
    ensures
        table_view(r@) == binary_table(),
{
    let mut t = empty_table();
    add_entry(&mut t, "add_bits", BinaryOp::AddBits);
    add_entry(&mut t, "add_bits_int", BinaryOp::AddBitsInt);
    add_entry(&mut t, "add_int", BinaryOp::AddInt);
    add_entry(&mut t, "align_bits", BinaryOp::AlignBits);
    add_entry(&mut t, "and_bits", BinaryOp::AndBits);
    add_entry(&mut t, "and_bool", BinaryOp::AndBool);
    add_entry(&mut t, "append", BinaryOp::Append);
    add_entry(&mut t, "append_64", BinaryOp::Append);
    add_entry(&mut t, "concat_str", BinaryOp::ConcatStr);
    add_entry(&mut t, "cons", BinaryOp::Cons);
    add_entry(&mut t, "ediv_int", BinaryOp::EdivInt);
    add_entry(&mut t, "emod_int", BinaryOp::EmodInt);
    add_entry(&mut t, "eq_anything", BinaryOp::EqAnything);
    add_entry(&mut t, "eq_bit", BinaryOp::EqBits);
    add_entry(&mut t, "eq_bits", BinaryOp::EqBits);
    add_entry(&mut t, "eq_bool", BinaryOp::EqBool);
    add_entry(&mut t, "eq_int", BinaryOp::EqInt);
    add_entry(&mut t, "eq_string", BinaryOp::EqString);
    add_entry(&mut t, "gt", BinaryOp::GtInt);
    add_entry(&mut t, "gteq", BinaryOp::GteqInt);
    add_entry(&mut t, "lt", BinaryOp::LtInt);
    add_entry(&mut t, "lteq", BinaryOp::LteqInt);
    add_entry(&mut t, "mark_register", BinaryOp::MarkRegister);
    add_entry(&mut t, "max_int", BinaryOp::MaxInt);
    add_entry(&mut t, "min_int", BinaryOp::MinInt);
    add_entry(&mut t, "mult_int", BinaryOp::MultInt);
    add_entry(&mut t, "neq_bits", BinaryOp::NeqBits);
    add_entry(&mut t, "optimistic_assert", BinaryOp::OptimisticAssert);
    add_entry(&mut t, "or_bits", BinaryOp::OrBits);
    add_entry(&mut t, "or_bool", BinaryOp::OrBool);
    add_entry(&mut t, "pessimistic_assert", BinaryOp::PessimisticAssert);
    add_entry(&mut t, "platform_branch_announce", BinaryOp::BranchAnnounce);
    add_entry(&mut t, "pow_int", BinaryOp::PowInt);
    add_entry(&mut t, "prerr_bits", BinaryOp::PrerrBits);
    add_entry(&mut t, "prerr_int", BinaryOp::PrerrInt);
    add_entry(&mut t, "prerr_string", BinaryOp::PrerrString);
    add_entry(&mut t, "print_bits", BinaryOp::PrintBits);
    add_entry(&mut t, "print_int", BinaryOp::PrintInt);
    add_entry(&mut t, "print_string", BinaryOp::PrintString);
    add_entry(&mut t, "replicate_bits", BinaryOp::ReplicateBits);
    add_entry(&mut t, "sail_truncate", BinaryOp::SailTruncate);
    add_entry(&mut t, "sail_truncateLSB", BinaryOp::SailTruncateLsb);
    add_entry(&mut t, "shift_bits_left", BinaryOp::ShiftBitsLeft);
    add_entry(&mut t, "shift_bits_right", BinaryOp::ShiftBitsRight);
    add_entry(&mut t, "shiftl", BinaryOp::Shiftl);
    add_entry(&mut t, "shiftr", BinaryOp::Shiftr);
    add_entry(&mut t, "shl_int", BinaryOp::ShlInt);
    add_entry(&mut t, "shl_mach_int", BinaryOp::ShlMachInt);
    add_entry(&mut t, "shr_int", BinaryOp::ShrInt);
    add_entry(&mut t, "shr_mach_int", BinaryOp::ShrMachInt);
    add_entry(&mut t, "sign_extend", BinaryOp::SignExtend);
    add_entry(&mut t, "strict_and_bool", BinaryOp::AndBool);
    add_entry(&mut t, "strict_or_bool", BinaryOp::OrBool);
    add_entry(&mut t, "string_drop", BinaryOp::StringDrop);
    add_entry(&mut t, "string_startswith", BinaryOp::StringStartswith);
    add_entry(&mut t, "string_take", BinaryOp::StringTake);
    add_entry(&mut t, "sub_bits", BinaryOp::SubBits);
    add_entry(&mut t, "sub_bits_int", BinaryOp::SubBitsInt);
    add_entry(&mut t, "sub_int", BinaryOp::SubInt);
    add_entry(&mut t, "sub_nat", BinaryOp::SubNat);
    add_entry(&mut t, "tdiv_int", BinaryOp::TdivInt);
    add_entry(&mut t, "tmod_int", BinaryOp::TmodInt);
    add_entry(&mut t, "undefined_range", BinaryOp::UndefinedRange);
    add_entry(&mut t, "undefined_vector", BinaryOp::UndefinedVector);
    add_entry(&mut t, "vector_access", BinaryOp::VectorAccess);
    add_entry(&mut t, "xor_bits", BinaryOp::XorBits);
    add_entry(&mut t, "zero_extend", BinaryOp::ZeroExtend);
    t
}

/// The names of the operations of a list of arguments, in the order they are entered.
pub open spec fn variadic_table() -> Seq<(Seq<char>, VariadicOp)> {
    seq![
        ("%string->%real"@, VariadicOp::Unimplemented),
        ("abs_real"@, VariadicOp::Unimplemented),
        ("add_real"@, VariadicOp::Unimplemented),
        ("bitvector_update"@, VariadicOp::BitvectorUpdate),
        ("div_real"@, VariadicOp::Unimplemented),
        ("elf_entry"@, VariadicOp::ElfEntry),
        ("eq_real"@, VariadicOp::Unimplemented),
        ("get_slice_int"@, VariadicOp::GetSliceInt),
        ("gt_real"@, VariadicOp::Unimplemented),
        ("gteq_real"@, VariadicOp::Unimplemented),
        ("ite"@, VariadicOp::Ite),
        ("lt_real"@, VariadicOp::Unimplemented),
        ("lteq_real"@, VariadicOp::Unimplemented),
        ("mult_real"@, VariadicOp::Unimplemented),
        ("neg_real"@, VariadicOp::Unimplemented),
        ("platform_cache_maintenance"@, VariadicOp::CacheMaintenance),
        ("platform_read_mem"@, VariadicOp::ReadMem),
        ("platform_write_mem"@, VariadicOp::WriteMem),
        ("platform_write_mem_ea"@, VariadicOp::WriteMemEa),
        ("prerr_real"@, VariadicOp::Unimplemented),
        ("print_real"@, VariadicOp::Unimplemented),
        ("real_power"@, VariadicOp::Unimplemented),
        ("round_down"@, VariadicOp::Unimplemented),
        ("round_up"@, VariadicOp::Unimplemented),
        ("set_slice"@, VariadicOp::SetSlice),
        ("set_slice_int"@, VariadicOp::SetSliceInt),
        ("slice"@, VariadicOp::Slice),
        ("sqrt_real"@, VariadicOp::Unimplemented),
        ("sub_real"@, VariadicOp::Unimplemented),
        ("to_real"@, VariadicOp::Unimplemented),
        ("undefined_real"@, VariadicOp::Unimplemented),
        ("vector_subrange"@, VariadicOp::Subrange),
        ("vector_update"@, VariadicOp::VectorUpdate),
        ("vector_update_subrange"@, VariadicOp::VectorUpdateSubrange),
    ]
}

/// The table of the operations of a list of arguments.
pub fn variadic_primops() -> (r: Vec<(String, VariadicOp)>)
    ensures
        table_view(r@) == variadic_table(),
{
    let mut t = empty_table();
    add_entry(&mut t, "%string->%real", VariadicOp::Unimplemented);
    add_entry(&mut t, "abs_real", VariadicOp::Unimplemented);
    add_entry(&mut t, "add_real", VariadicOp::Unimplemented);
    add_entry(&mut t, "bitvector_update", VariadicOp::BitvectorUpdate);
    add_entry(&mut t, "div_real", VariadicOp::Unimplemented);
    add_entry(&mut t, "elf_entry", VariadicOp::ElfEntry);
    add_entry(&mut t, "eq_real", VariadicOp::Unimplemented);
    add_entry(&mut t, "get_slice_int", VariadicOp::GetSliceInt);
    add_entry(&mut t, "gt_real", VariadicOp::Unimplemented);
    add_entry(&mut t, "gteq_real", VariadicOp::Unimplemented);
    add_entry(&mut t, "ite", VariadicOp::Ite);
    add_entry(&mut t, "lt_real", VariadicOp::Unimplemented);
    add_entry(&mut t, "lteq_real", VariadicOp::Unimplemented);
    add_entry(&mut t, "mult_real", VariadicOp::Unimplemented);
    add_entry(&mut t, "neg_real", VariadicOp::Unimplemented);
    add_entry(&mut t, "platform_cache_maintenance", VariadicOp::CacheMaintenance);
    add_entry(&mut t, "platform_read_mem", VariadicOp::ReadMem);
    add_entry(&mut t, "platform_write_mem", VariadicOp::WriteMem);
    add_entry(&mut t, "platform_write_mem_ea", VariadicOp::WriteMemEa);
    add_entry(&mut t, "prerr_real", VariadicOp::Unimplemented);
    add_entry(&mut t, "print_real", VariadicOp::Unimplemented);
    add_entry(&mut t, "real_power", VariadicOp::Unimplemented);
    add_entry(&mut t, "round_down", VariadicOp::Unimplemented);
    add_entry(&mut t, "round_up", VariadicOp::Unimplemented);
    add_entry(&mut t, "set_slice", VariadicOp::SetSlice);
    add_entry(&mut t, "set_slice_int", VariadicOp::SetSliceInt);
    add_entry(&mut t, "slice", VariadicOp::Slice);
    add_entry(&mut t, "sqrt_real", VariadicOp::Unimplemented);
    add_entry(&mut t, "sub_real", VariadicOp::Unimplemented);
    add_entry(&mut t, "to_real", VariadicOp::Unimplemented);
    add_entry(&mut t, "undefined_real", VariadicOp::Unimplemented);
    add_entry(&mut t, "vector_subrange", VariadicOp::Subrange);
    add_entry(&mut t, "vector_update", VariadicOp::VectorUpdate);
    add_entry(&mut t, "vector_update_subrange", VariadicOp::VectorUpdateSubrange);
    t
}

/// The names of the unary table are in increasing order.
pub proof fn lemma_unary_names_increase()
    ensures
        names_increase(unary_table()),
{
    assert(name_before("%i->%i64"@, "%i64->%i"@)) by {
        reveal_strlit("%i->%i64");
        reveal_strlit("%i64->%i");
        reveal_with_fuel(name_below, 4);
    }
    assert(name_before("%i64->%i"@, "%string->%i"@)) by {
        reveal_strlit("%i64->%i");
        reveal_strlit("%string->%i");
        reveal_with_fuel(name_below, 3);
    }
    assert(name_before("%string->%i"@, "abs_int"@)) by {
        reveal_strlit("%string->%i");
        reveal_strlit("abs_int");
        reveal_with_fuel(name_below, 2);
    }
    assert(name_before("abs_int"@, "assume"@)) by {
        reveal_strlit("abs_int");
        reveal_strlit("assume");
        reveal_with_fuel(name_below, 3);
    }
    assert(name_before("assume"@, "bad_read"@)) by {
        reveal_strlit("assume");
        reveal_strlit("bad_read");
        reveal_with_fuel(name_below, 2);
    }
    assert(name_before("bad_read"@, "bad_write"@)) by {
        reveal_strlit("bad_read");
        reveal_strlit("bad_write");
        reveal_with_fuel(name_below, 6);
    }
    assert(name_before("bad_write"@, "bit_to_bool"@)) by {
        reveal_strlit("bad_write");
        reveal_strlit("bit_to_bool");
        reveal_with_fuel(name_below, 3);
    }
    assert(name_before("bit_to_bool"@, "cycle_count"@)) by {
        reveal_strlit("bit_to_bool");
        reveal_strlit("cycle_count");
        reveal_with_fuel(name_below, 2);
    }
    assert(name_before("cycle_count"@, "dec_str"@)) by {
        reveal_strlit("cycle_count");
        reveal_strlit("dec_str");
        reveal_with_fuel(name_below, 2);
    }
    assert(name_before("dec_str"@, "decimal_string_of_bits"@)) by {
        reveal_strlit("dec_str");
        reveal_strlit("decimal_string_of_bits");
        reveal_with_fuel(name_below, 5);
    }
    assert(name_before("decimal_string_of_bits"@, "get_cycle_count"@)) by {
        reveal_strlit("decimal_string_of_bits");
        reveal_strlit("get_cycle_count");
        reveal_with_fuel(name_below, 2);
    }
    assert(name_before("get_cycle_count"@, "hex_str"@)) by {
        reveal_strlit("get_cycle_count");
        reveal_strlit("hex_str");
        reveal_with_fuel(name_below, 2);
    }
    assert(name_before("hex_str"@, "internal_pick"@)) by {
        reveal_strlit("hex_str");
        reveal_strlit("internal_pick");
        reveal_with_fuel(name_below, 2);
    }
    assert(name_before("internal_pick"@, "length"@)) by {
        reveal_strlit("internal_pick");
        reveal_strlit("length");
        reveal_with_fuel(name_below, 2);
    }
    assert(name_before("length"@, "monomorphize"@)) by {
        reveal_strlit("length");
        reveal_strlit("monomorphize");
        reveal_with_fuel(name_below, 2);
    }
    assert(name_before("monomorphize"@, "neg_int"@)) by {
        reveal_strlit("monomorphize");
        reveal_strlit("neg_int");
        reveal_with_fuel(name_below, 2);
    }
    assert(name_before("neg_int"@, "not"@)) by {
        reveal_strlit("neg_int");
        reveal_strlit("not");
        reveal_with_fuel(name_below, 3);
    }
    assert(name_before("not"@, "not_bits"@)) by {
        reveal_strlit("not");
        reveal_strlit("not_bits");
        reveal_with_fuel(name_below, 5);
    }
    assert(name_before("not_bits"@, "one_if"@)) by {
        reveal_strlit("not_bits");
        reveal_strlit("one_if");
        reveal_with_fuel(name_below, 2);
    }
    assert(name_before("one_if"@, "ones"@)) by {
        reveal_strlit("one_if");
        reveal_strlit("ones");
        reveal_with_fuel(name_below, 5);
    }
    assert(name_before("ones"@, "platform_barrier"@)) by {
        reveal_strlit("ones");
        reveal_strlit("platform_barrier");
        reveal_with_fuel(name_below, 2);
    }
    assert(name_before("platform_barrier"@, "platform_instr_announce"@)) by {
        reveal_strlit("platform_barrier");
        reveal_strlit("platform_instr_announce");
        reveal_with_fuel(name_below, 11);
    }
    assert(name_before("platform_instr_announce"@, "pow2"@)) by {
        reveal_strlit("platform_instr_announce");
        reveal_strlit("pow2");
        reveal_with_fuel(name_below, 3);
    }
    assert(name_before("pow2"@, "prerr"@)) by {
        reveal_strlit("pow2");
        reveal_strlit("prerr");
        reveal_with_fuel(name_below, 3);
    }
    assert(name_before("prerr"@, "prerr_endline"@)) by {
        reveal_strlit("prerr");
        reveal_strlit("prerr_endline");
        reveal_with_fuel(name_below, 7);
    }
    assert(name_before("prerr_endline"@, "print"@)) by {
        reveal_strlit("prerr_endline");
        reveal_strlit("print");
        reveal_with_fuel(name_below, 4);
    }
    assert(name_before("print"@, "print_endline"@)) by {
        reveal_strlit("print");
        reveal_strlit("print_endline");
        reveal_with_fuel(name_below, 7);
    }
    assert(name_before("print_endline"@, "sail_get_verbosity"@)) by {
        reveal_strlit("print_endline");
        reveal_strlit("sail_get_verbosity");
        reveal_with_fuel(name_below, 2);
    }
    assert(name_before("sail_get_verbosity"@, "sail_putchar"@)) by {
        reveal_strlit("sail_get_verbosity");
        reveal_strlit("sail_putchar");
        reveal_with_fuel(name_below, 7);
    }
    assert(name_before("sail_putchar"@, "sail_signed"@)) by {
        reveal_strlit("sail_putchar");
        reveal_strlit("sail_signed");
        reveal_with_fuel(name_below, 7);
    }
    assert(name_before("sail_signed"@, "sail_unsigned"@)) by {
        reveal_strlit("sail_signed");
        reveal_strlit("sail_unsigned");
        reveal_with_fuel(name_below, 7);
    }
    assert(name_before("sail_unsigned"@, "sleep_request"@)) by {
        reveal_strlit("sail_unsigned");
        reveal_strlit("sleep_request");
        reveal_with_fuel(name_below, 3);
    }
    assert(name_before("sleep_request"@, "sleeping"@)) by {
        reveal_strlit("sleep_request");
        reveal_strlit("sleeping");
        reveal_with_fuel(name_below, 7);
    }
    assert(name_before("sleeping"@, "string_length"@)) by {
        reveal_strlit("sleeping");
        reveal_strlit("string_length");
        reveal_with_fuel(name_below, 3);
    }
    assert(name_before("string_length"@, "string_of_bits"@)) by {
        reveal_strlit("string_length");
        reveal_strlit("string_of_bits");
        reveal_with_fuel(name_below, 9);
    }
    assert(name_before("string_of_bits"@, "string_of_int"@)) by {
        reveal_strlit("string_of_bits");
        reveal_strlit("string_of_int");
        reveal_with_fuel(name_below, 12);
    }
    assert(name_before("string_of_int"@, "undefined_bitvector"@)) by {
        reveal_strlit("string_of_int");
        reveal_strlit("undefined_bitvector");
        reveal_with_fuel(name_below, 2);
    }
    assert(name_before("undefined_bitvector"@, "undefined_bool"@)) by {
        reveal_strlit("undefined_bitvector");
        reveal_strlit("undefined_bool");
        reveal_with_fuel(name_below, 13);
    }
    assert(name_before("undefined_bool"@, "undefined_int"@)) by {
        reveal_strlit("undefined_bool");
        reveal_strlit("undefined_int");
        reveal_with_fuel(name_below, 12);
    }
    assert(name_before("undefined_int"@, "undefined_nat"@)) by {
        reveal_strlit("undefined_int");
        reveal_strlit("undefined_nat");
        reveal_with_fuel(name_below, 12);
    }
    assert(name_before("undefined_nat"@, "undefined_string"@)) by {
        reveal_strlit("undefined_nat");
        reveal_strlit("undefined_string");
        reveal_with_fuel(name_below, 12);
    }
    assert(name_before("undefined_string"@, "undefined_unit"@)) by {
        reveal_strlit("undefined_string");
        reveal_strlit("undefined_unit");
        reveal_with_fuel(name_below, 12);
    }
    assert(name_before("undefined_unit"@, "wakeup_request"@)) by {
        reveal_strlit("undefined_unit");
        reveal_strlit("wakeup_request");
        reveal_with_fuel(name_below, 2);
    }
    assert(name_before("wakeup_request"@, "zero_if"@)) by {
        reveal_strlit("wakeup_request");
        reveal_strlit("zero_if");
        reveal_with_fuel(name_below, 2);
    }
    assert(name_before("zero_if"@, "zeros"@)) by {
        reveal_strlit("zero_if");
        reveal_strlit("zeros");
        reveal_with_fuel(name_below, 6);
    }
    let t = unary_table();
    assert forall|k: int| 0 <= k < t.len() - 1 implies name_before(#[trigger] t[k].0, t[k + 1].0) by {
        if k == 0 {
        } else if k == 1 {
        } else if k == 2 {
        } else if k == 3 {
        } else if k == 4 {
        } else if k == 5 {
        } else if k == 6 {
        } else if k == 7 {
        } else if k == 8 {
        } else if k == 9 {
        } else if k == 10 {
        } else if k == 11 {
        } else if k == 12 {
        } else if k == 13 {
        } else if k == 14 {
        } else if k == 15 {
        } else if k == 16 {
        } else if k == 17 {
        } else if k == 18 {
        } else if k == 19 {
        } else if k == 20 {
        } else if k == 21 {
        } else if k == 22 {
        } else if k == 23 {
        } else if k == 24 {
        } else if k == 25 {
        } else if k == 26 {
        } else if k == 27 {
        } else if k == 28 {
        } else if k == 29 {
        } else if k == 30 {
        } else if k == 31 {
        } else if k == 32 {
        } else if k == 33 {
        } else if k == 34 {
        } else if k == 35 {
        } else if k == 36 {
        } else if k == 37 {
        } else if k == 38 {
        } else if k == 39 {
        } else if k == 40 {
        } else if k == 41 {
        } else if k == 42 {
        } else if k == 43 {
        } else if k == 44 {
        }
    }
}

/// The names of the binary table are in increasing order.
pub proof fn lemma_binary_names_increase()
    ensures
        names_increase(binary_table()),
{
    assert(name_before("add_bits"@, "add_bits_int"@)) by {
        reveal_strlit("add_bits");
        reveal_strlit("add_bits_int");
        reveal_with_fuel(name_below, 10);
    }
    assert(name_before("add_bits_int"@, "add_int"@)) by {
        reveal_strlit("add_bits_int");
        reveal_strlit("add_int");
        reveal_with_fuel(name_below, 6);
    }
    assert(name_before("add_int"@, "align_bits"@)) by {
        reveal_strlit("add_int");
        reveal_strlit("align_bits");
        reveal_with_fuel(name_below, 3);
    }
    assert(name_before("align_bits"@, "and_bits"@)) by {
        reveal_strlit("align_bits");
        reveal_strlit("and_bits");
        reveal_with_fuel(name_below, 3);
    }
    assert(name_before("and_bits"@, "and_bool"@)) by {
        reveal_strlit("and_bits");
        reveal_strlit("and_bool");
        reveal_with_fuel(name_below, 7);
    }
    assert(name_before("and_bool"@, "append"@)) by {
        reveal_strlit("and_bool");
        reveal_strlit("append");
        reveal_with_fuel(name_below, 3);
    }
    assert(name_before("append"@, "append_64"@)) by {
        reveal_strlit("append");
        reveal_strlit("append_64");
        reveal_with_fuel(name_below, 8);
    }
    assert(name_before("append_64"@, "concat_str"@)) by {
        reveal_strlit("append_64");
        reveal_strlit("concat_str");
        reveal_with_fuel(name_below, 2);
    }
    assert(name_before("concat_str"@, "cons"@)) by {
        reveal_strlit("concat_str");
        reveal_strlit("cons");
        reveal_with_fuel(name_below, 5);
    }
    assert(name_before("cons"@, "ediv_int"@)) by {
        reveal_strlit("cons");
        reveal_strlit("ediv_int");
        reveal_with_fuel(name_below, 2);
    }
    assert(name_before("ediv_int"@, "emod_int"@)) by {
        reveal_strlit("ediv_int");
        reveal_strlit("emod_int");
        reveal_with_fuel(name_below, 3);
    }
    assert(name_before("emod_int"@, "eq_anything"@)) by {
        reveal_strlit("emod_int");
        reveal_strlit("eq_anything");
        reveal_with_fuel(name_below, 3);
    }
    assert(name_before("eq_anything"@, "eq_bit"@)) by {
        reveal_strlit("eq_anything");
        reveal_strlit("eq_bit");
        reveal_with_fuel(name_below, 5);
    }
    assert(name_before("eq_bit"@, "eq_bits"@)) by {
        reveal_strlit("eq_bit");
        reveal_strlit("eq_bits");
        reveal_with_fuel(name_below, 8);
    }
    assert(name_before("eq_bits"@, "eq_bool"@)) by {
        reveal_strlit("eq_bits");
        reveal_strlit("eq_bool");
        reveal_with_fuel(name_below, 6);
    }
    assert(name_before("eq_bool"@, "eq_int"@)) by {
        reveal_strlit("eq_bool");
        reveal_strlit("eq_int");
        reveal_with_fuel(name_below, 5);
    }
    assert(name_before("eq_int"@, "eq_string"@)) by {
        reveal_strlit("eq_int");
        reveal_strlit("eq_string");
        reveal_with_fuel(name_below, 5);
    }
    assert(name_before("eq_string"@, "gt"@)) by {
        reveal_strlit("eq_string");
        reveal_strlit("gt");
        reveal_with_fuel(name_below, 2);
    }
    assert(name_before("gt"@, "gteq"@)) by {
        reveal_strlit("gt");
        reveal_strlit("gteq");
        reveal_with_fuel(name_below, 4);
    }
    assert(name_before("gteq"@, "lt"@)) by {
        reveal_strlit("gteq");
        reveal_strlit("lt");
        reveal_with_fuel(name_below, 2);
    }
    assert(name_before("lt"@, "lteq"@)) by {
        reveal_strlit("lt");
        reveal_strlit("lteq");
        reveal_with_fuel(name_below, 4);
    }
    assert(name_before("lteq"@, "mark_register"@)) by {
        reveal_strlit("lteq");
        reveal_strlit("mark_register");
        reveal_with_fuel(name_below, 2);
    }
    assert(name_before("mark_register"@, "max_int"@)) by {
        reveal_strlit("mark_register");
        reveal_strlit("max_int");
        reveal_with_fuel(name_below, 4);
    }
    assert(name_before("max_int"@, "min_int"@)) by {
        reveal_strlit("max_int");
        reveal_strlit("min_int");
        reveal_with_fuel(name_below, 3);
    }
    assert(name_before("min_int"@, "mult_int"@)) by {
        reveal_strlit("min_int");
        reveal_strlit("mult_int");
        reveal_with_fuel(name_below, 3);
    }
    assert(name_before("mult_int"@, "neq_bits"@)) by {
        reveal_strlit("mult_int");
        reveal_strlit("neq_bits");
        reveal_with_fuel(name_below, 2);
    }
    assert(name_before("neq_bits"@, "optimistic_assert"@)) by {
        reveal_strlit("neq_bits");
        reveal_strlit("optimistic_assert");
        reveal_with_fuel(name_below, 2);
    }
    assert(name_before("optimistic_assert"@, "or_bits"@)) by {
        reveal_strlit("optimistic_assert");
        reveal_strlit("or_bits");
        reveal_with_fuel(name_below, 3);
    }
    assert(name_before("or_bits"@, "or_bool"@)) by {
        reveal_strlit("or_bits");
        reveal_strlit("or_bool");
        reveal_with_fuel(name_below, 6);
    }
    assert(name_before("or_bool"@, "pessimistic_assert"@)) by {
        reveal_strlit("or_bool");
        reveal_strlit("pessimistic_assert");
        reveal_with_fuel(name_below, 2);
    }
    assert(name_before("pessimistic_assert"@, "platform_branch_announce"@)) by {
        reveal_strlit("pessimistic_assert");
        reveal_strlit("platform_branch_announce");
        reveal_with_fuel(name_below, 3);
    }
    assert(name_before("platform_branch_announce"@, "pow_int"@)) by {
        reveal_strlit("platform_branch_announce");
        reveal_strlit("pow_int");
        reveal_with_fuel(name_below, 3);
    }
    assert(name_before("pow_int"@, "prerr_bits"@)) by {
        reveal_strlit("pow_int");
        reveal_strlit("prerr_bits");
        reveal_with_fuel(name_below, 3);
    }
    assert(name_before("prerr_bits"@, "prerr_int"@)) by {
        reveal_strlit("prerr_bits");
        reveal_strlit("prerr_int");
        reveal_with_fuel(name_below, 8);
    }
    assert(name_before("prerr_int"@, "prerr_string"@)) by {
        reveal_strlit("prerr_int");
        reveal_strlit("prerr_string");
        reveal_with_fuel(name_below, 8);
    }
    assert(name_before("prerr_string"@, "print_bits"@)) by {
        reveal_strlit("prerr_string");
        reveal_strlit("print_bits");
        reveal_with_fuel(name_below, 4);
    }
    assert(name_before("print_bits"@, "print_int"@)) by {
        reveal_strlit("print_bits");
        reveal_strlit("print_int");
        reveal_with_fuel(name_below, 8);
    }
    assert(name_before("print_int"@, "print_string"@)) by {
        reveal_strlit("print_int");
        reveal_strlit("print_string");
        reveal_with_fuel(name_below, 8);
    }
    assert(name_before("print_string"@, "replicate_bits"@)) by {
        reveal_strlit("print_string");
        reveal_strlit("replicate_bits");
        reveal_with_fuel(name_below, 2);
    }
    assert(name_before("replicate_bits"@, "sail_truncate"@)) by {
        reveal_strlit("replicate_bits");
        reveal_strlit("sail_truncate");
        reveal_with_fuel(name_below, 2);
    }
    assert(name_before("sail_truncate"@, "sail_truncateLSB"@)) by {
        reveal_strlit("sail_truncate");
        reveal_strlit("sail_truncateLSB");
        reveal_with_fuel(name_below, 15);
    }
    assert(name_before("sail_truncateLSB"@, "shift_bits_left"@)) by {
        reveal_strlit("sail_truncateLSB");
        reveal_strlit("shift_bits_left");
        reveal_with_fuel(name_below, 3);
    }
    assert(name_before("shift_bits_left"@, "shift_bits_right"@)) by {
        reveal_strlit("shift_bits_left");
        reveal_strlit("shift_bits_right");
        reveal_with_fuel(name_below, 13);
    }
    assert(name_before("shift_bits_right"@, "shiftl"@)) by {
        reveal_strlit("shift_bits_right");
        reveal_strlit("shiftl");
        reveal_with_fuel(name_below, 7);
    }
    assert(name_before("shiftl"@, "shiftr"@)) by {
        reveal_strlit("shiftl");
        reveal_strlit("shiftr");
        reveal_with_fuel(name_below, 7);
    }
    assert(name_before("shiftr"@, "shl_int"@)) by {
        reveal_strlit("shiftr");
        reveal_strlit("shl_int");
        reveal_with_fuel(name_below, 4);
    }
    assert(name_before("shl_int"@, "shl_mach_int"@)) by {
        reveal_strlit("shl_int");
        reveal_strlit("shl_mach_int");
        reveal_with_fuel(name_below, 6);
    }
    assert(name_before("shl_mach_int"@, "shr_int"@)) by {
        reveal_strlit("shl_mach_int");
        reveal_strlit("shr_int");
        reveal_with_fuel(name_below, 4);
    }
    assert(name_before("shr_int"@, "shr_mach_int"@)) by {
        reveal_strlit("shr_int");
        reveal_strlit("shr_mach_int");
        reveal_with_fuel(name_below, 6);
    }
    assert(name_before("shr_mach_int"@, "sign_extend"@)) by {
        reveal_strlit("shr_mach_int");
        reveal_strlit("sign_extend");
        reveal_with_fuel(name_below, 3);
    }
    assert(name_before("sign_extend"@, "strict_and_bool"@)) by {
        reveal_strlit("sign_extend");
        reveal_strlit("strict_and_bool");
        reveal_with_fuel(name_below, 3);
    }
    assert(name_before("strict_and_bool"@, "strict_or_bool"@)) by {
        reveal_strlit("strict_and_bool");
        reveal_strlit("strict_or_bool");
        reveal_with_fuel(name_below, 9);
    }
    assert(name_before("strict_or_bool"@, "string_drop"@)) by {
        reveal_strlit("strict_or_bool");
        reveal_strlit("string_drop");
        reveal_with_fuel(name_below, 6);
    }
    assert(name_before("string_drop"@, "string_startswith"@)) by {
        reveal_strlit("string_drop");
        reveal_strlit("string_startswith");
        reveal_with_fuel(name_below, 9);
    }
    assert(name_before("string_startswith"@, "string_take"@)) by {
        reveal_strlit("string_startswith");
        reveal_strlit("string_take");
        reveal_with_fuel(name_below, 9);
    }
    assert(name_before("string_take"@, "sub_bits"@)) by {
        reveal_strlit("string_take");
        reveal_strlit("sub_bits");
        reveal_with_fuel(name_below, 3);
    }
    assert(name_before("sub_bits"@, "sub_bits_int"@)) by {
        reveal_strlit("sub_bits");
        reveal_strlit("sub_bits_int");
        reveal_with_fuel(name_below, 10);
    }
    assert(name_before("sub_bits_int"@, "sub_int"@)) by {
        reveal_strlit("sub_bits_int");
        reveal_strlit("sub_int");
        reveal_with_fuel(name_below, 6);
    }
    assert(name_before("sub_int"@, "sub_nat"@)) by {
        reveal_strlit("sub_int");
        reveal_strlit("sub_nat");
        reveal_with_fuel(name_below, 6);
    }
    assert(name_before("sub_nat"@, "tdiv_int"@)) by {
        reveal_strlit("sub_nat");
        reveal_strlit("tdiv_int");
        reveal_with_fuel(name_below, 2);
    }
    assert(name_before("tdiv_int"@, "tmod_int"@)) by {
        reveal_strlit("tdiv_int");
        reveal_strlit("tmod_int");
        reveal_with_fuel(name_below, 3);
    }
    assert(name_before("tmod_int"@, "undefined_range"@)) by {
        reveal_strlit("tmod_int");
        reveal_strlit("undefined_range");
        reveal_with_fuel(name_below, 2);
    }
    assert(name_before("undefined_range"@, "undefined_vector"@)) by {
        reveal_strlit("undefined_range");
        reveal_strlit("undefined_vector");
        reveal_with_fuel(name_below, 12);
    }
    assert(name_before("undefined_vector"@, "vector_access"@)) by {
        reveal_strlit("undefined_vector");
        reveal_strlit("vector_access");
        reveal_with_fuel(name_below, 2);
    }
    assert(name_before("vector_access"@, "xor_bits"@)) by {
        reveal_strlit("vector_access");
        reveal_strlit("xor_bits");
        reveal_with_fuel(name_below, 2);
    }
    assert(name_before("xor_bits"@, "zero_extend"@)) by {
        reveal_strlit("xor_bits");
        reveal_strlit("zero_extend");
        reveal_with_fuel(name_below, 2);
    }
    let t = binary_table();
    assert forall|k: int| 0 <= k < t.len() - 1 implies name_before(#[trigger] t[k].0, t[k + 1].0) by {
        if k == 0 {
        } else if k == 1 {
        } else if k == 2 {
        } else if k == 3 {
        } else if k == 4 {
        } else if k == 5 {
        } else if k == 6 {
        } else if k == 7 {
        } else if k == 8 {
        } else if k == 9 {
        } else if k == 10 {
        } else if k == 11 {
        } else if k == 12 {
        } else if k == 13 {
        } else if k == 14 {
        } else if k == 15 {
        } else if k == 16 {
        } else if k == 17 {
        } else if k == 18 {
        } else if k == 19 {
        } else if k == 20 {
        } else if k == 21 {
        } else if k == 22 {
        } else if k == 23 {
        } else if k == 24 {
        } else if k == 25 {
        } else if k == 26 {
        } else if k == 27 {
        } else if k == 28 {
        } else if k == 29 {
        } else if k == 30 {
        } else if k == 31 {
        } else if k == 32 {
        } else if k == 33 {
        } else if k == 34 {
        } else if k == 35 {
        } else if k == 36 {
        } else if k == 37 {
        } else if k == 38 {
        } else if k == 39 {
        } else if k == 40 {
        } else if k == 41 {
        } else if k == 42 {
        } else if k == 43 {
        } else if k == 44 {
        } else if k == 45 {
        } else if k == 46 {
        } else if k == 47 {
        } else if k == 48 {
        } else if k == 49 {
        } else if k == 50 {
        } else if k == 51 {
        } else if k == 52 {
        } else if k == 53 {
        } else if k == 54 {
        } else if k == 55 {
        } else if k == 56 {
        } else if k == 57 {
        } else if k == 58 {
        } else if k == 59 {
        } else if k == 60 {
        } else if k == 61 {
        } else if k == 62 {
        } else if k == 63 {
        } else if k == 64 {
        } else if k == 65 {
        }
    }
}

/// The names of the variadic table are in increasing order.
pub proof fn lemma_variadic_names_increase()
    ensures
        names_increase(variadic_table()),
{
    assert(name_before("%string->%real"@, "abs_real"@)) by {
        reveal_strlit("%string->%real");
        reveal_strlit("abs_real");
        reveal_with_fuel(name_below, 2);
    }
    assert(name_before("abs_real"@, "add_real"@)) by {
        reveal_strlit("abs_real");
        reveal_strlit("add_real");
        reveal_with_fuel(name_below, 3);
    }
    assert(name_before("add_real"@, "bitvector_update"@)) by {
        reveal_strlit("add_real");
        reveal_strlit("bitvector_update");
        reveal_with_fuel(name_below, 2);
    }
    assert(name_before("bitvector_update"@, "div_real"@)) by {
        reveal_strlit("bitvector_update");
        reveal_strlit("div_real");
        reveal_with_fuel(name_below, 2);
    }
    assert(name_before("div_real"@, "elf_entry"@)) by {
        reveal_strlit("div_real");
        reveal_strlit("elf_entry");
        reveal_with_fuel(name_below, 2);
    }
    assert(name_before("elf_entry"@, "eq_real"@)) by {
        reveal_strlit("elf_entry");
        reveal_strlit("eq_real");
        reveal_with_fuel(name_below, 3);
    }
    assert(name_before("eq_real"@, "get_slice_int"@)) by {
        reveal_strlit("eq_real");
        reveal_strlit("get_slice_int");
        reveal_with_fuel(name_below, 2);
    }
    assert(name_before("get_slice_int"@, "gt_real"@)) by {
        reveal_strlit("get_slice_int");
        reveal_strlit("gt_real");
        reveal_with_fuel(name_below, 3);
    }
    assert(name_before("gt_real"@, "gteq_real"@)) by {
        reveal_strlit("gt_real");
        reveal_strlit("gteq_real");
        reveal_with_fuel(name_below, 4);
    }
    assert(name_before("gteq_real"@, "ite"@)) by {
        reveal_strlit("gteq_real");
        reveal_strlit("ite");
        reveal_with_fuel(name_below, 2);
    }
    assert(name_before("ite"@, "lt_real"@)) by {
        reveal_strlit("ite");
        reveal_strlit("lt_real");
        reveal_with_fuel(name_below, 2);
    }
    assert(name_before("lt_real"@, "lteq_real"@)) by {
        reveal_strlit("lt_real");
        reveal_strlit("lteq_real");
        reveal_with_fuel(name_below, 4);
    }
    assert(name_before("lteq_real"@, "mult_real"@)) by {
        reveal_strlit("lteq_real");
        reveal_strlit("mult_real");
        reveal_with_fuel(name_below, 2);
    }
    assert(name_before("mult_real"@, "neg_real"@)) by {
        reveal_strlit("mult_real");
        reveal_strlit("neg_real");
        reveal_with_fuel(name_below, 2);
    }
    assert(name_before("neg_real"@, "platform_cache_maintenance"@)) by {
        reveal_strlit("neg_real");
        reveal_strlit("platform_cache_maintenance");
        reveal_with_fuel(name_below, 2);
    }
    assert(name_before("platform_cache_maintenance"@, "platform_read_mem"@)) by {
        reveal_strlit("platform_cache_maintenance");
        reveal_strlit("platform_read_mem");
        reveal_with_fuel(name_below, 11);
    }
    assert(name_before("platform_read_mem"@, "platform_write_mem"@)) by {
        reveal_strlit("platform_read_mem");
        reveal_strlit("platform_write_mem");
        reveal_with_fuel(name_below, 11);
    }
    assert(name_before("platform_write_mem"@, "platform_write_mem_ea"@)) by {
        reveal_strlit("platform_write_mem");
        reveal_strlit("platform_write_mem_ea");
        reveal_with_fuel(name_below, 20);
    }
    assert(name_before("platform_write_mem_ea"@, "prerr_real"@)) by {
        reveal_strlit("platform_write_mem_ea");
        reveal_strlit("prerr_real");
        reveal_with_fuel(name_below, 3);
    }
    assert(name_before("prerr_real"@, "print_real"@)) by {
        reveal_strlit("prerr_real");
        reveal_strlit("print_real");
        reveal_with_fuel(name_below, 4);
    }
    assert(name_before("print_real"@, "real_power"@)) by {
        reveal_strlit("print_real");
        reveal_strlit("real_power");
        reveal_with_fuel(name_below, 2);
    }
    assert(name_before("real_power"@, "round_down"@)) by {
        reveal_strlit("real_power");
        reveal_strlit("round_down");
        reveal_with_fuel(name_below, 3);
    }
    assert(name_before("round_down"@, "round_up"@)) by {
        reveal_strlit("round_down");
        reveal_strlit("round_up");
        reveal_with_fuel(name_below, 8);
    }
    assert(name_before("round_up"@, "set_slice"@)) by {
        reveal_strlit("round_up");
        reveal_strlit("set_slice");
        reveal_with_fuel(name_below, 2);
    }
    assert(name_before("set_slice"@, "set_slice_int"@)) by {
        reveal_strlit("set_slice");
        reveal_strlit("set_slice_int");
        reveal_with_fuel(name_below, 11);
    }
    assert(name_before("set_slice_int"@, "slice"@)) by {
        reveal_strlit("set_slice_int");
        reveal_strlit("slice");
        reveal_with_fuel(name_below, 3);
    }
    assert(name_before("slice"@, "sqrt_real"@)) by {
        reveal_strlit("slice");
        reveal_strlit("sqrt_real");
        reveal_with_fuel(name_below, 3);
    }
    assert(name_before("sqrt_real"@, "sub_real"@)) by {
        reveal_strlit("sqrt_real");
        reveal_strlit("sub_real");
        reveal_with_fuel(name_below, 3);
    }
    assert(name_before("sub_real"@, "to_real"@)) by {
        reveal_strlit("sub_real");
        reveal_strlit("to_real");
        reveal_with_fuel(name_below, 2);
    }
    assert(name_before("to_real"@, "undefined_real"@)) by {
        reveal_strlit("to_real");
        reveal_strlit("undefined_real");
        reveal_with_fuel(name_below, 2);
    }
    assert(name_before("undefined_real"@, "vector_subrange"@)) by {
        reveal_strlit("undefined_real");
        reveal_strlit("vector_subrange");
        reveal_with_fuel(name_below, 2);
    }
    assert(name_before("vector_subrange"@, "vector_update"@)) by {
        reveal_strlit("vector_subrange");
        reveal_strlit("vector_update");
        reveal_with_fuel(name_below, 9);
    }
    assert(name_before("vector_update"@, "vector_update_subrange"@)) by {
        reveal_strlit("vector_update");
        reveal_strlit("vector_update_subrange");
        reveal_with_fuel(name_below, 15);
    }
    let t = variadic_table();
    assert forall|k: int| 0 <= k < t.len() - 1 implies name_before(#[trigger] t[k].0, t[k + 1].0) by {
        if k == 0 {
        } else if k == 1 {
        } else if k == 2 {
        } else if k == 3 {
        } else if k == 4 {
        } else if k == 5 {
        } else if k == 6 {
        } else if k == 7 {
        } else if k == 8 {
        } else if k == 9 {
        } else if k == 10 {
        } else if k == 11 {
        } else if k == 12 {
        } else if k == 13 {
        } else if k == 14 {
        } else if k == 15 {
        } else if k == 16 {
        } else if k == 17 {
        } else if k == 18 {
        } else if k == 19 {
        } else if k == 20 {
        } else if k == 21 {
        } else if k == 22 {
        } else if k == 23 {
        } else if k == 24 {
        } else if k == 25 {
        } else if k == 26 {
        } else if k == 27 {
        } else if k == 28 {
        } else if k == 29 {
        } else if k == 30 {
        } else if k == 31 {
        } else if k == 32 {
        }
    }
}

/// The names of all three tables, in increasing order, each with the table
/// that lists it: `0` for one argument, `1` for two, `2` for a list.
pub open spec fn all_names() -> Seq<(Seq<char>, u8)> {
    seq![
        ("%i->%i64"@, 0u8),
        ("%i64->%i"@, 0u8),
        ("%string->%i"@, 0u8),
        ("%string->%real"@, 2u8),
        ("abs_int"@, 0u8),
        ("abs_real"@, 2u8),
        ("add_bits"@, 1u8),
        ("add_bits_int"@, 1u8),
        ("add_int"@, 1u8),
        ("add_real"@, 2u8),
        ("align_bits"@, 1u8),
        ("and_bits"@, 1u8),
        ("and_bool"@, 1u8),
        ("append"@, 1u8),
        ("append_64"@, 1u8),
        ("assume"@, 0u8),
        ("bad_read"@, 0u8),
        ("bad_write"@, 0u8),
        ("bit_to_bool"@, 0u8),
        ("bitvector_update"@, 2u8),
        ("concat_str"@, 1u8),
        ("cons"@, 1u8),
        ("cycle_count"@, 0u8),
        ("dec_str"@, 0u8),
        ("decimal_string_of_bits"@, 0u8),
        ("div_real"@, 2u8),
        ("ediv_int"@, 1u8),
        ("elf_entry"@, 2u8),
        ("emod_int"@, 1u8),
        ("eq_anything"@, 1u8),
        ("eq_bit"@, 1u8),
        ("eq_bits"@, 1u8),
        ("eq_bool"@, 1u8),
        ("eq_int"@, 1u8),
        ("eq_real"@, 2u8),
        ("eq_string"@, 1u8),
        ("get_cycle_count"@, 0u8),
        ("get_slice_int"@, 2u8),
        ("gt"@, 1u8),
        ("gt_real"@, 2u8),
        ("gteq"@, 1u8),
        ("gteq_real"@, 2u8),
        ("hex_str"@, 0u8),
        ("internal_pick"@, 0u8),
        ("ite"@, 2u8),
        ("length"@, 0u8),
        ("lt"@, 1u8),
        ("lt_real"@, 2u8),
        ("lteq"@, 1u8),
        ("lteq_real"@, 2u8),
        ("mark_register"@, 1u8),
        ("max_int"@, 1u8),
        ("min_int"@, 1u8),
        ("monomorphize"@, 0u8),
        ("mult_int"@, 1u8),
        ("mult_real"@, 2u8),
        ("neg_int"@, 0u8),
        ("neg_real"@, 2u8),
        ("neq_bits"@, 1u8),
        ("not"@, 0u8),
        ("not_bits"@, 0u8),
        ("one_if"@, 0u8),
        ("ones"@, 0u8),
        ("optimistic_assert"@, 1u8),
        ("or_bits"@, 1u8),
        ("or_bool"@, 1u8),
        ("pessimistic_assert"@, 1u8),
        ("platform_barrier"@, 0u8),
        ("platform_branch_announce"@, 1u8),
        ("platform_cache_maintenance"@, 2u8),
        ("platform_instr_announce"@, 0u8),
        ("platform_read_mem"@, 2u8),
        ("platform_write_mem"@, 2u8),
        ("platform_write_mem_ea"@, 2u8),
        ("pow2"@, 0u8),
        ("pow_int"@, 1u8),
        ("prerr"@, 0u8),
        ("prerr_bits"@, 1u8),
        ("prerr_endline"@, 0u8),
        ("prerr_int"@, 1u8),
        ("prerr_real"@, 2u8),
        ("prerr_string"@, 1u8),
        ("print"@, 0u8),
        ("print_bits"@, 1u8),
        ("print_endline"@, 0u8),
        ("print_int"@, 1u8),
        ("print_real"@, 2u8),
        ("print_string"@, 1u8),
        ("real_power"@, 2u8),
        ("replicate_bits"@, 1u8),
        ("round_down"@, 2u8),
        ("round_up"@, 2u8),
        ("sail_get_verbosity"@, 0u8),
        ("sail_putchar"@, 0u8),
        ("sail_signed"@, 0u8),
        ("sail_truncate"@, 1u8),
        ("sail_truncateLSB"@, 1u8),
        ("sail_unsigned"@, 0u8),
        ("set_slice"@, 2u8),
        ("set_slice_int"@, 2u8),
        ("shift_bits_left"@, 1u8),
        ("shift_bits_right"@, 1u8),
        ("shiftl"@, 1u8),
        ("shiftr"@, 1u8),
        ("shl_int"@, 1u8),
        ("shl_mach_int"@, 1u8),
        ("shr_int"@, 1u8),
        ("shr_mach_int"@, 1u8),
        ("sign_extend"@, 1u8),
        ("sleep_request"@, 0u8),
        ("sleeping"@, 0u8),
        ("slice"@, 2u8),
        ("sqrt_real"@, 2u8),
        ("strict_and_bool"@, 1u8),
        ("strict_or_bool"@, 1u8),
        ("string_drop"@, 1u8),
        ("string_length"@, 0u8),
        ("string_of_bits"@, 0u8),
        ("string_of_int"@, 0u8),
        ("string_startswith"@, 1u8),
        ("string_take"@, 1u8),
        ("sub_bits"@, 1u8),
        ("sub_bits_int"@, 1u8),
        ("sub_int"@, 1u8),
        ("sub_nat"@, 1u8),
        ("sub_real"@, 2u8),
        ("tdiv_int"@, 1u8),
        ("tmod_int"@, 1u8),
        ("to_real"@, 2u8),
        ("undefined_bitvector"@, 0u8),
        ("undefined_bool"@, 0u8),
        ("undefined_int"@, 0u8),
        ("undefined_nat"@, 0u8),
        ("undefined_range"@, 1u8),
        ("undefined_real"@, 2u8),
        ("undefined_string"@, 0u8),
        ("undefined_unit"@, 0u8),
        ("undefined_vector"@, 1u8),
        ("vector_access"@, 1u8),
        ("vector_subrange"@, 2u8),
        ("vector_update"@, 2u8),
        ("vector_update_subrange"@, 2u8),
        ("wakeup_request"@, 0u8),
        ("xor_bits"@, 1u8),
        ("zero_extend"@, 1u8),
        ("zero_if"@, 0u8),
        ("zeros"@, 0u8),
    ]
}

/// Where each name of the unary table stands in `all_names`.
pub open spec fn unary_places() -> Seq<int> {
    seq![0, 1, 2, 4, 15, 16, 17, 18, 22, 23, 24, 36, 42, 43, 45, 53, 56, 59, 60, 61, 62, 67, 70, 74, 76, 78, 82, 84, 92, 93, 94, 97, 109, 110, 116, 117, 118, 129, 130, 131, 132, 135, 136, 142, 145, 146]
}

/// Where each name of the binary table stands in `all_names`.
pub open spec fn binary_places() -> Seq<int> {
    seq![6, 7, 8, 10, 11, 12, 13, 14, 20, 21, 26, 28, 29, 30, 31, 32, 33, 35, 38, 40, 46, 48, 50, 51, 52, 54, 58, 63, 64, 65, 66, 68, 75, 77, 79, 81, 83, 85, 87, 89, 95, 96, 100, 101, 102, 103, 104, 105, 106, 107, 108, 113, 114, 115, 119, 120, 121, 122, 123, 124, 126, 127, 133, 137, 138, 143, 144]
}

/// Where each name of the variadic table stands in `all_names`.
pub open spec fn variadic_places() -> Seq<int> {
    seq![3, 5, 9, 19, 25, 27, 34, 37, 39, 41, 44, 47, 49, 55, 57, 69, 71, 72, 73, 80, 86, 88, 90, 91, 98, 99, 111, 112, 125, 128, 134, 139, 140, 141]
}

/// The names of all three tables are in increasing order.
pub proof fn lemma_all_names_increase()
    ensures
        names_increase(all_names()),
{
    assert(name_before("%i->%i64"@, "%i64->%i"@)) by {
        reveal_strlit("%i->%i64");
        reveal_strlit("%i64->%i");
        reveal_with_fuel(name_below, 4);
    }
    assert(name_before("%i64->%i"@, "%string->%i"@)) by {
        reveal_strlit("%i64->%i");
        reveal_strlit("%string->%i");
        reveal_with_fuel(name_below, 3);
    }
    assert(name_before("%string->%i"@, "%string->%real"@)) by {
        reveal_strlit("%string->%i");
        reveal_strlit("%string->%real");
        reveal_with_fuel(name_below, 12);
    }
    assert(name_before("%string->%real"@, "abs_int"@)) by {
        reveal_strlit("%string->%real");
        reveal_strlit("abs_int");
        reveal_with_fuel(name_below, 2);
    }
    assert(name_before("abs_int"@, "abs_real"@)) by {
        reveal_strlit("abs_int");
        reveal_strlit("abs_real");
        reveal_with_fuel(name_below, 6);
    }
    assert(name_before("abs_real"@, "add_bits"@)) by {
        reveal_strlit("abs_real");
        reveal_strlit("add_bits");
        reveal_with_fuel(name_below, 3);
    }
    assert(name_before("add_bits"@, "add_bits_int"@)) by {
        reveal_strlit("add_bits");
        reveal_strlit("add_bits_int");
        reveal_with_fuel(name_below, 10);
    }
    assert(name_before("add_bits_int"@, "add_int"@)) by {
        reveal_strlit("add_bits_int");
        reveal_strlit("add_int");
        reveal_with_fuel(name_below, 6);
    }
    assert(name_before("add_int"@, "add_real"@)) by {
        reveal_strlit("add_int");
        reveal_strlit("add_real");
        reveal_with_fuel(name_below, 6);
    }
    assert(name_before("add_real"@, "align_bits"@)) by {
        reveal_strlit("add_real");
        reveal_strlit("align_bits");
        reveal_with_fuel(name_below, 3);
    }
    assert(name_before("align_bits"@, "and_bits"@)) by {
        reveal_strlit("align_bits");
        reveal_strlit("and_bits");
        reveal_with_fuel(name_below, 3);
    }
    assert(name_before("and_bits"@, "and_bool"@)) by {
        reveal_strlit("and_bits");
        reveal_strlit("and_bool");
        reveal_with_fuel(name_below, 7);
    }
    assert(name_before("and_bool"@, "append"@)) by {
        reveal_strlit("and_bool");
        reveal_strlit("append");
        reveal_with_fuel(name_below, 3);
    }
    assert(name_before("append"@, "append_64"@)) by {
        reveal_strlit("append");
        reveal_strlit("append_64");
        reveal_with_fuel(name_below, 8);
    }
    assert(name_before("append_64"@, "assume"@)) by {
        reveal_strlit("append_64");
        reveal_strlit("assume");
        reveal_with_fuel(name_below, 3);
    }
    assert(name_before("assume"@, "bad_read"@)) by {
        reveal_strlit("assume");
        reveal_strlit("bad_read");
        reveal_with_fuel(name_below, 2);
    }
    assert(name_before("bad_read"@, "bad_write"@)) by {
        reveal_strlit("bad_read");
        reveal_strlit("bad_write");
        reveal_with_fuel(name_below, 6);
    }
    assert(name_before("bad_write"@, "bit_to_bool"@)) by {
        reveal_strlit("bad_write");
        reveal_strlit("bit_to_bool");
        reveal_with_fuel(name_below, 3);
    }
    assert(name_before("bit_to_bool"@, "bitvector_update"@)) by {
        reveal_strlit("bit_to_bool");
        reveal_strlit("bitvector_update");
        reveal_with_fuel(name_below, 5);
    }
    assert(name_before("bitvector_update"@, "concat_str"@)) by {
        reveal_strlit("bitvector_update");
        reveal_strlit("concat_str");
        reveal_with_fuel(name_below, 2);
    }
    assert(name_before("concat_str"@, "cons"@)) by {
        reveal_strlit("concat_str");
        reveal_strlit("cons");
        reveal_with_fuel(name_below, 5);
    }
    assert(name_before("cons"@, "cycle_count"@)) by {
        reveal_strlit("cons");
        reveal_strlit("cycle_count");
        reveal_with_fuel(name_below, 3);
    }
    assert(name_before("cycle_count"@, "dec_str"@)) by {
        reveal_strlit("cycle_count");
        reveal_strlit("dec_str");
        reveal_with_fuel(name_below, 2);
    }
    assert(name_before("dec_str"@, "decimal_string_of_bits"@)) by {
        reveal_strlit("dec_str");
        reveal_strlit("decimal_string_of_bits");
        reveal_with_fuel(name_below, 5);
    }
    assert(name_before("decimal_string_of_bits"@, "div_real"@)) by {
        reveal_strlit("decimal_string_of_bits");
        reveal_strlit("div_real");
        reveal_with_fuel(name_below, 3);
    }
    assert(name_before("div_real"@, "ediv_int"@)) by {
        reveal_strlit("div_real");
        reveal_strlit("ediv_int");
        reveal_with_fuel(name_below, 2);
    }
    assert(name_before("ediv_int"@, "elf_entry"@)) by {
        reveal_strlit("ediv_int");
        reveal_strlit("elf_entry");
        reveal_with_fuel(name_below, 3);
    }
    assert(name_before("elf_entry"@, "emod_int"@)) by {
        reveal_strlit("elf_entry");
        reveal_strlit("emod_int");
        reveal_with_fuel(name_below, 3);
    }
    assert(name_before("emod_int"@, "eq_anything"@)) by {
        reveal_strlit("emod_int");
        reveal_strlit("eq_anything");
        reveal_with_fuel(name_below, 3);
    }
    assert(name_before("eq_anything"@, "eq_bit"@)) by {
        reveal_strlit("eq_anything");
        reveal_strlit("eq_bit");
        reveal_with_fuel(name_below, 5);
    }
    assert(name_before("eq_bit"@, "eq_bits"@)) by {
        reveal_strlit("eq_bit");
        reveal_strlit("eq_bits");
        reveal_with_fuel(name_below, 8);
    }
    assert(name_before("eq_bits"@, "eq_bool"@)) by {
        reveal_strlit("eq_bits");
        reveal_strlit("eq_bool");
        reveal_with_fuel(name_below, 6);
    }
    assert(name_before("eq_bool"@, "eq_int"@)) by {
        reveal_strlit("eq_bool");
        reveal_strlit("eq_int");
        reveal_with_fuel(name_below, 5);
    }
    assert(name_before("eq_int"@, "eq_real"@)) by {
        reveal_strlit("eq_int");
        reveal_strlit("eq_real");
        reveal_with_fuel(name_below, 5);
    }
    assert(name_before("eq_real"@, "eq_string"@)) by {
        reveal_strlit("eq_real");
        reveal_strlit("eq_string");
        reveal_with_fuel(name_below, 5);
    }
    assert(name_before("eq_string"@, "get_cycle_count"@)) by {
        reveal_strlit("eq_string");
        reveal_strlit("get_cycle_count");
        reveal_with_fuel(name_below, 2);
    }
    assert(name_before("get_cycle_count"@, "get_slice_int"@)) by {
        reveal_strlit("get_cycle_count");
        reveal_strlit("get_slice_int");
        reveal_with_fuel(name_below, 6);
    }
    assert(name_before("get_slice_int"@, "gt"@)) by {
        reveal_strlit("get_slice_int");
        reveal_strlit("gt");
        reveal_with_fuel(name_below, 3);
    }
    assert(name_before("gt"@, "gt_real"@)) by {
        reveal_strlit("gt");
        reveal_strlit("gt_real");
        reveal_with_fuel(name_below, 4);
    }
    assert(name_before("gt_real"@, "gteq"@)) by {
        reveal_strlit("gt_real");
        reveal_strlit("gteq");
        reveal_with_fuel(name_below, 4);
    }
    assert(name_before("gteq"@, "gteq_real"@)) by {
        reveal_strlit("gteq");
        reveal_strlit("gteq_real");
        reveal_with_fuel(name_below, 6);
    }
    assert(name_before("gteq_real"@, "hex_str"@)) by {
        reveal_strlit("gteq_real");
        reveal_strlit("hex_str");
        reveal_with_fuel(name_below, 2);
    }
    assert(name_before("hex_str"@, "internal_pick"@)) by {
        reveal_strlit("hex_str");
        reveal_strlit("internal_pick");
        reveal_with_fuel(name_below, 2);
    }
    assert(name_before("internal_pick"@, "ite"@)) by {
        reveal_strlit("internal_pick");
        reveal_strlit("ite");
        reveal_with_fuel(name_below, 3);
    }
    assert(name_before("ite"@, "length"@)) by {
        reveal_strlit("ite");
        reveal_strlit("length");
        reveal_with_fuel(name_below, 2);
    }
    assert(name_before("length"@, "lt"@)) by {
        reveal_strlit("length");
        reveal_strlit("lt");
        reveal_with_fuel(name_below, 3);
    }
    assert(name_before("lt"@, "lt_real"@)) by {
        reveal_strlit("lt");
        reveal_strlit("lt_real");
        reveal_with_fuel(name_below, 4);
    }
    assert(name_before("lt_real"@, "lteq"@)) by {
        reveal_strlit("lt_real");
        reveal_strlit("lteq");
        reveal_with_fuel(name_below, 4);
    }
    assert(name_before("lteq"@, "lteq_real"@)) by {
        reveal_strlit("lteq");
        reveal_strlit("lteq_real");
        reveal_with_fuel(name_below, 6);
    }
    assert(name_before("lteq_real"@, "mark_register"@)) by {
        reveal_strlit("lteq_real");
        reveal_strlit("mark_register");
        reveal_with_fuel(name_below, 2);
    }
    assert(name_before("mark_register"@, "max_int"@)) by {
        reveal_strlit("mark_register");
        reveal_strlit("max_int");
        reveal_with_fuel(name_below, 4);
    }
    assert(name_before("max_int"@, "min_int"@)) by {
        reveal_strlit("max_int");
        reveal_strlit("min_int");
        reveal_with_fuel(name_below, 3);
    }
    assert(name_before("min_int"@, "monomorphize"@)) by {
        reveal_strlit("min_int");
        reveal_strlit("monomorphize");
        reveal_with_fuel(name_below, 3);
    }
    assert(name_before("monomorphize"@, "mult_int"@)) by {
        reveal_strlit("monomorphize");
        reveal_strlit("mult_int");
        reveal_with_fuel(name_below, 3);
    }
    assert(name_before("mult_int"@, "mult_real"@)) by {
        reveal_strlit("mult_int");
        reveal_strlit("mult_real");
        reveal_with_fuel(name_below, 7);
    }
    assert(name_before("mult_real"@, "neg_int"@)) by {
        reveal_strlit("mult_real");
        reveal_strlit("neg_int");
        reveal_with_fuel(name_below, 2);
    }
    assert(name_before("neg_int"@, "neg_real"@)) by {
        reveal_strlit("neg_int");
        reveal_strlit("neg_real");
        reveal_with_fuel(name_below, 6);
    }
    assert(name_before("neg_real"@, "neq_bits"@)) by {
        reveal_strlit("neg_real");
        reveal_strlit("neq_bits");
        reveal_with_fuel(name_below, 4);
    }
    assert(name_before("neq_bits"@, "not"@)) by {
        reveal_strlit("neq_bits");
        reveal_strlit("not");
        reveal_with_fuel(name_below, 3);
    }
    assert(name_before("not"@, "not_bits"@)) by {
        reveal_strlit("not");
        reveal_strlit("not_bits");
        reveal_with_fuel(name_below, 5);
    }
    assert(name_before("not_bits"@, "one_if"@)) by {
        reveal_strlit("not_bits");
        reveal_strlit("one_if");
        reveal_with_fuel(name_below, 2);
    }
    assert(name_before("one_if"@, "ones"@)) by {
        reveal_strlit("one_if");
        reveal_strlit("ones");
        reveal_with_fuel(name_below, 5);
    }
    assert(name_before("ones"@, "optimistic_assert"@)) by {
        reveal_strlit("ones");
        reveal_strlit("optimistic_assert");
        reveal_with_fuel(name_below, 3);
    }
    assert(name_before("optimistic_assert"@, "or_bits"@)) by {
        reveal_strlit("optimistic_assert");
        reveal_strlit("or_bits");
        reveal_with_fuel(name_below, 3);
    }
    assert(name_before("or_bits"@, "or_bool"@)) by {
        reveal_strlit("or_bits");
        reveal_strlit("or_bool");
        reveal_with_fuel(name_below, 6);
    }
    assert(name_before("or_bool"@, "pessimistic_assert"@)) by {
        reveal_strlit("or_bool");
        reveal_strlit("pessimistic_assert");
        reveal_with_fuel(name_below, 2);
    }
    assert(name_before("pessimistic_assert"@, "platform_barrier"@)) by {
        reveal_strlit("pessimistic_assert");
        reveal_strlit("platform_barrier");
        reveal_with_fuel(name_below, 3);
    }
    assert(name_before("platform_barrier"@, "platform_branch_announce"@)) by {
        reveal_strlit("platform_barrier");
        reveal_strlit("platform_branch_announce");
        reveal_with_fuel(name_below, 12);
    }
    assert(name_before("platform_branch_announce"@, "platform_cache_maintenance"@)) by {
        reveal_strlit("platform_branch_announce");
        reveal_strlit("platform_cache_maintenance");
        reveal_with_fuel(name_below, 11);
    }
    assert(name_before("platform_cache_maintenance"@, "platform_instr_announce"@)) by {
        reveal_strlit("platform_cache_maintenance");
        reveal_strlit("platform_instr_announce");
        reveal_with_fuel(name_below, 11);
    }
    assert(name_before("platform_instr_announce"@, "platform_read_mem"@)) by {
        reveal_strlit("platform_instr_announce");
        reveal_strlit("platform_read_mem");
        reveal_with_fuel(name_below, 11);
    }
    assert(name_before("platform_read_mem"@, "platform_write_mem"@)) by {
        reveal_strlit("platform_read_mem");
        reveal_strlit("platform_write_mem");
        reveal_with_fuel(name_below, 11);
    }
    assert(name_before("platform_write_mem"@, "platform_write_mem_ea"@)) by {
        reveal_strlit("platform_write_mem");
        reveal_strlit("platform_write_mem_ea");
        reveal_with_fuel(name_below, 20);
    }
    assert(name_before("platform_write_mem_ea"@, "pow2"@)) by {
        reveal_strlit("platform_write_mem_ea");
        reveal_strlit("pow2");
        reveal_with_fuel(name_below, 3);
    }
    assert(name_before("pow2"@, "pow_int"@)) by {
        reveal_strlit("pow2");
        reveal_strlit("pow_int");
        reveal_with_fuel(name_below, 5);
    }
    assert(name_before("pow_int"@, "prerr"@)) by {
        reveal_strlit("pow_int");
        reveal_strlit("prerr");
        reveal_with_fuel(name_below, 3);
    }
    assert(name_before("prerr"@, "prerr_bits"@)) by {
        reveal_strlit("prerr");
        reveal_strlit("prerr_bits");
        reveal_with_fuel(name_below, 7);
    }
    assert(name_before("prerr_bits"@, "prerr_endline"@)) by {
        reveal_strlit("prerr_bits");
        reveal_strlit("prerr_endline");
        reveal_with_fuel(name_below, 8);
    }
    assert(name_before("prerr_endline"@, "prerr_int"@)) by {
        reveal_strlit("prerr_endline");
        reveal_strlit("prerr_int");
        reveal_with_fuel(name_below, 8);
    }
    assert(name_before("prerr_int"@, "prerr_real"@)) by {
        reveal_strlit("prerr_int");
        reveal_strlit("prerr_real");
        reveal_with_fuel(name_below, 8);
    }
    assert(name_before("prerr_real"@, "prerr_string"@)) by {
        reveal_strlit("prerr_real");
        reveal_strlit("prerr_string");
        reveal_with_fuel(name_below, 8);
    }
    assert(name_before("prerr_string"@, "print"@)) by {
        reveal_strlit("prerr_string");
        reveal_strlit("print");
        reveal_with_fuel(name_below, 4);
    }
    assert(name_before("print"@, "print_bits"@)) by {
        reveal_strlit("print");
        reveal_strlit("print_bits");
        reveal_with_fuel(name_below, 7);
    }
    assert(name_before("print_bits"@, "print_endline"@)) by {
        reveal_strlit("print_bits");
        reveal_strlit("print_endline");
        reveal_with_fuel(name_below, 8);
    }
    assert(name_before("print_endline"@, "print_int"@)) by {
        reveal_strlit("print_endline");
        reveal_strlit("print_int");
        reveal_with_fuel(name_below, 8);
    }
    assert(name_before("print_int"@, "print_real"@)) by {
        reveal_strlit("print_int");
        reveal_strlit("print_real");
        reveal_with_fuel(name_below, 8);
    }
    assert(name_before("print_real"@, "print_string"@)) by {
        reveal_strlit("print_real");
        reveal_strlit("print_string");
        reveal_with_fuel(name_below, 8);
    }
    assert(name_before("print_string"@, "real_power"@)) by {
        reveal_strlit("print_string");
        reveal_strlit("real_power");
        reveal_with_fuel(name_below, 2);
    }
    assert(name_before("real_power"@, "replicate_bits"@)) by {
        reveal_strlit("real_power");
        reveal_strlit("replicate_bits");
        reveal_with_fuel(name_below, 4);
    }
    assert(name_before("replicate_bits"@, "round_down"@)) by {
        reveal_strlit("replicate_bits");
        reveal_strlit("round_down");
        reveal_with_fuel(name_below, 3);
    }
    assert(name_before("round_down"@, "round_up"@)) by {
        reveal_strlit("round_down");
        reveal_strlit("round_up");
        reveal_with_fuel(name_below, 8);
    }
    assert(name_before("round_up"@, "sail_get_verbosity"@)) by {
        reveal_strlit("round_up");
        reveal_strlit("sail_get_verbosity");
        reveal_with_fuel(name_below, 2);
    }
    assert(name_before("sail_get_verbosity"@, "sail_putchar"@)) by {
        reveal_strlit("sail_get_verbosity");
        reveal_strlit("sail_putchar");
        reveal_with_fuel(name_below, 7);
    }
    assert(name_before("sail_putchar"@, "sail_signed"@)) by {
        reveal_strlit("sail_putchar");
        reveal_strlit("sail_signed");
        reveal_with_fuel(name_below, 7);
    }
    assert(name_before("sail_signed"@, "sail_truncate"@)) by {
        reveal_strlit("sail_signed");
        reveal_strlit("sail_truncate");
        reveal_with_fuel(name_below, 7);
    }
    assert(name_before("sail_truncate"@, "sail_truncateLSB"@)) by {
        reveal_strlit("sail_truncate");
        reveal_strlit("sail_truncateLSB");
        reveal_with_fuel(name_below, 15);
    }
    assert(name_before("sail_truncateLSB"@, "sail_unsigned"@)) by {
        reveal_strlit("sail_truncateLSB");
        reveal_strlit("sail_unsigned");
        reveal_with_fuel(name_below, 7);
    }
    assert(name_before("sail_unsigned"@, "set_slice"@)) by {
        reveal_strlit("sail_unsigned");
        reveal_strlit("set_slice");
        reveal_with_fuel(name_below, 3);
    }
    assert(name_before("set_slice"@, "set_slice_int"@)) by {
        reveal_strlit("set_slice");
        reveal_strlit("set_slice_int");
        reveal_with_fuel(name_below, 11);
    }
    assert(name_before("set_slice_int"@, "shift_bits_left"@)) by {
        reveal_strlit("set_slice_int");
        reveal_strlit("shift_bits_left");
        reveal_with_fuel(name_below, 3);
    }
    assert(name_before("shift_bits_left"@, "shift_bits_right"@)) by {
        reveal_strlit("shift_bits_left");
        reveal_strlit("shift_bits_right");
        reveal_with_fuel(name_below, 13);
    }
    assert(name_before("shift_bits_right"@, "shiftl"@)) by {
        reveal_strlit("shift_bits_right");
        reveal_strlit("shiftl");
        reveal_with_fuel(name_below, 7);
    }
    assert(name_before("shiftl"@, "shiftr"@)) by {
        reveal_strlit("shiftl");
        reveal_strlit("shiftr");
        reveal_with_fuel(name_below, 7);
    }
    assert(name_before("shiftr"@, "shl_int"@)) by {
        reveal_strlit("shiftr");
        reveal_strlit("shl_int");
        reveal_with_fuel(name_below, 4);
    }
    assert(name_before("shl_int"@, "shl_mach_int"@)) by {
        reveal_strlit("shl_int");
        reveal_strlit("shl_mach_int");
        reveal_with_fuel(name_below, 6);
    }
    assert(name_before("shl_mach_int"@, "shr_int"@)) by {
        reveal_strlit("shl_mach_int");
        reveal_strlit("shr_int");
        reveal_with_fuel(name_below, 4);
    }
    assert(name_before("shr_int"@, "shr_mach_int"@)) by {
        reveal_strlit("shr_int");
        reveal_strlit("shr_mach_int");
        reveal_with_fuel(name_below, 6);
    }
    assert(name_before("shr_mach_int"@, "sign_extend"@)) by {
        reveal_strlit("shr_mach_int");
        reveal_strlit("sign_extend");
        reveal_with_fuel(name_below, 3);
    }
    assert(name_before("sign_extend"@, "sleep_request"@)) by {
        reveal_strlit("sign_extend");
        reveal_strlit("sleep_request");
        reveal_with_fuel(name_below, 3);
    }
    assert(name_before("sleep_request"@, "sleeping"@)) by {
        reveal_strlit("sleep_request");
        reveal_strlit("sleeping");
        reveal_with_fuel(name_below, 7);
    }
    assert(name_before("sleeping"@, "slice"@)) by {
        reveal_strlit("sleeping");
        reveal_strlit("slice");
        reveal_with_fuel(name_below, 4);
    }
    assert(name_before("slice"@, "sqrt_real"@)) by {
        reveal_strlit("slice");
        reveal_strlit("sqrt_real");
        reveal_with_fuel(name_below, 3);
    }
    assert(name_before("sqrt_real"@, "strict_and_bool"@)) by {
        reveal_strlit("sqrt_real");
        reveal_strlit("strict_and_bool");
        reveal_with_fuel(name_below, 3);
    }
    assert(name_before("strict_and_bool"@, "strict_or_bool"@)) by {
        reveal_strlit("strict_and_bool");
        reveal_strlit("strict_or_bool");
        reveal_with_fuel(name_below, 9);
    }
    assert(name_before("strict_or_bool"@, "string_drop"@)) by {
        reveal_strlit("strict_or_bool");
        reveal_strlit("string_drop");
        reveal_with_fuel(name_below, 6);
    }
    assert(name_before("string_drop"@, "string_length"@)) by {
        reveal_strlit("string_drop");
        reveal_strlit("string_length");
        reveal_with_fuel(name_below, 9);
    }
    assert(name_before("string_length"@, "string_of_bits"@)) by {
        reveal_strlit("string_length");
        reveal_strlit("string_of_bits");
        reveal_with_fuel(name_below, 9);
    }
    assert(name_before("string_of_bits"@, "string_of_int"@)) by {
        reveal_strlit("string_of_bits");
        reveal_strlit("string_of_int");
        reveal_with_fuel(name_below, 12);
    }
    assert(name_before("string_of_int"@, "string_startswith"@)) by {
        reveal_strlit("string_of_int");
        reveal_strlit("string_startswith");
        reveal_with_fuel(name_below, 9);
    }
    assert(name_before("string_startswith"@, "string_take"@)) by {
        reveal_strlit("string_startswith");
        reveal_strlit("string_take");
        reveal_with_fuel(name_below, 9);
    }
    assert(name_before("string_take"@, "sub_bits"@)) by {
        reveal_strlit("string_take");
        reveal_strlit("sub_bits");
        reveal_with_fuel(name_below, 3);
    }
    assert(name_before("sub_bits"@, "sub_bits_int"@)) by {
        reveal_strlit("sub_bits");
        reveal_strlit("sub_bits_int");
        reveal_with_fuel(name_below, 10);
    }
    assert(name_before("sub_bits_int"@, "sub_int"@)) by {
        reveal_strlit("sub_bits_int");
        reveal_strlit("sub_int");
        reveal_with_fuel(name_below, 6);
    }
    assert(name_before("sub_int"@, "sub_nat"@)) by {
        reveal_strlit("sub_int");
        reveal_strlit("sub_nat");
        reveal_with_fuel(name_below, 6);
    }
    assert(name_before("sub_nat"@, "sub_real"@)) by {
        reveal_strlit("sub_nat");
        reveal_strlit("sub_real");
        reveal_with_fuel(name_below, 6);
    }
    assert(name_before("sub_real"@, "tdiv_int"@)) by {
        reveal_strlit("sub_real");
        reveal_strlit("tdiv_int");
        reveal_with_fuel(name_below, 2);
    }
    assert(name_before("tdiv_int"@, "tmod_int"@)) by {
        reveal_strlit("tdiv_int");
        reveal_strlit("tmod_int");
        reveal_with_fuel(name_below, 3);
    }
    assert(name_before("tmod_int"@, "to_real"@)) by {
        reveal_strlit("tmod_int");
        reveal_strlit("to_real");
        reveal_with_fuel(name_below, 3);
    }
    assert(name_before("to_real"@, "undefined_bitvector"@)) by {
        reveal_strlit("to_real");
        reveal_strlit("undefined_bitvector");
        reveal_with_fuel(name_below, 2);
    }
    assert(name_before("undefined_bitvector"@, "undefined_bool"@)) by {
        reveal_strlit("undefined_bitvector");
        reveal_strlit("undefined_bool");
        reveal_with_fuel(name_below, 13);
    }
    assert(name_before("undefined_bool"@, "undefined_int"@)) by {
        reveal_strlit("undefined_bool");
        reveal_strlit("undefined_int");
        reveal_with_fuel(name_below, 12);
    }
    assert(name_before("undefined_int"@, "undefined_nat"@)) by {
        reveal_strlit("undefined_int");
        reveal_strlit("undefined_nat");
        reveal_with_fuel(name_below, 12);
    }
    assert(name_before("undefined_nat"@, "undefined_range"@)) by {
        reveal_strlit("undefined_nat");
        reveal_strlit("undefined_range");
        reveal_with_fuel(name_below, 12);
    }
    assert(name_before("undefined_range"@, "undefined_real"@)) by {
        reveal_strlit("undefined_range");
        reveal_strlit("undefined_real");
        reveal_with_fuel(name_below, 13);
    }
    assert(name_before("undefined_real"@, "undefined_string"@)) by {
        reveal_strlit("undefined_real");
        reveal_strlit("undefined_string");
        reveal_with_fuel(name_below, 12);
    }
    assert(name_before("undefined_string"@, "undefined_unit"@)) by {
        reveal_strlit("undefined_string");
        reveal_strlit("undefined_unit");
        reveal_with_fuel(name_below, 12);
    }
    assert(name_before("undefined_unit"@, "undefined_vector"@)) by {
        reveal_strlit("undefined_unit");
        reveal_strlit("undefined_vector");
        reveal_with_fuel(name_below, 12);
    }
    assert(name_before("undefined_vector"@, "vector_access"@)) by {
        reveal_strlit("undefined_vector");
        reveal_strlit("vector_access");
        reveal_with_fuel(name_below, 2);
    }
    assert(name_before("vector_access"@, "vector_subrange"@)) by {
        reveal_strlit("vector_access");
        reveal_strlit("vector_subrange");
        reveal_with_fuel(name_below, 9);
    }
    assert(name_before("vector_subrange"@, "vector_update"@)) by {
        reveal_strlit("vector_subrange");
        reveal_strlit("vector_update");
        reveal_with_fuel(name_below, 9);
    }
    assert(name_before("vector_update"@, "vector_update_subrange"@)) by {
        reveal_strlit("vector_update");
        reveal_strlit("vector_update_subrange");
        reveal_with_fuel(name_below, 15);
    }
    assert(name_before("vector_update_subrange"@, "wakeup_request"@)) by {
        reveal_strlit("vector_update_subrange");
        reveal_strlit("wakeup_request");
        reveal_with_fuel(name_below, 2);
    }
    assert(name_before("wakeup_request"@, "xor_bits"@)) by {
        reveal_strlit("wakeup_request");
        reveal_strlit("xor_bits");
        reveal_with_fuel(name_below, 2);
    }
    assert(name_before("xor_bits"@, "zero_extend"@)) by {
        reveal_strlit("xor_bits");
        reveal_strlit("zero_extend");
        reveal_with_fuel(name_below, 2);
    }
    assert(name_before("zero_extend"@, "zero_if"@)) by {
        reveal_strlit("zero_extend");
        reveal_strlit("zero_if");
        reveal_with_fuel(name_below, 7);
    }
    assert(name_before("zero_if"@, "zeros"@)) by {
        reveal_strlit("zero_if");
        reveal_strlit("zeros");
        reveal_with_fuel(name_below, 6);
    }
    let t = all_names();
    assert forall|k: int| 0 <= k < t.len() - 1 implies name_before(#[trigger] t[k].0, t[k + 1].0) by {
        if k == 0 {
        } else if k == 1 {
        } else if k == 2 {
        } else if k == 3 {
        } else if k == 4 {
        } else if k == 5 {
        } else if k == 6 {
        } else if k == 7 {
        } else if k == 8 {
        } else if k == 9 {
        } else if k == 10 {
        } else if k == 11 {
        } else if k == 12 {
        } else if k == 13 {
        } else if k == 14 {
        } else if k == 15 {
        } else if k == 16 {
        } else if k == 17 {
        } else if k == 18 {
        } else if k == 19 {
        } else if k == 20 {
        } else if k == 21 {
        } else if k == 22 {
        } else if k == 23 {
        } else if k == 24 {
        } else if k == 25 {
        } else if k == 26 {
        } else if k == 27 {
        } else if k == 28 {
        } else if k == 29 {
        } else if k == 30 {
        } else if k == 31 {
        } else if k == 32 {
        } else if k == 33 {
        } else if k == 34 {
        } else if k == 35 {
        } else if k == 36 {
        } else if k == 37 {
        } else if k == 38 {
        } else if k == 39 {
        } else if k == 40 {
        } else if k == 41 {
        } else if k == 42 {
        } else if k == 43 {
        } else if k == 44 {
        } else if k == 45 {
        } else if k == 46 {
        } else if k == 47 {
        } else if k == 48 {
        } else if k == 49 {
        } else if k == 50 {
        } else if k == 51 {
        } else if k == 52 {
        } else if k == 53 {
        } else if k == 54 {
        } else if k == 55 {
        } else if k == 56 {
        } else if k == 57 {
        } else if k == 58 {
        } else if k == 59 {
        } else if k == 60 {
        } else if k == 61 {
        } else if k == 62 {
        } else if k == 63 {
        } else if k == 64 {
        } else if k == 65 {
        } else if k == 66 {
        } else if k == 67 {
        } else if k == 68 {
        } else if k == 69 {
        } else if k == 70 {
        } else if k == 71 {
        } else if k == 72 {
        } else if k == 73 {
        } else if k == 74 {
        } else if k == 75 {
        } else if k == 76 {
        } else if k == 77 {
        } else if k == 78 {
        } else if k == 79 {
        } else if k == 80 {
        } else if k == 81 {
        } else if k == 82 {
        } else if k == 83 {
        } else if k == 84 {
        } else if k == 85 {
        } else if k == 86 {
        } else if k == 87 {
        } else if k == 88 {
        } else if k == 89 {
        } else if k == 90 {
        } else if k == 91 {
        } else if k == 92 {
        } else if k == 93 {
        } else if k == 94 {
        } else if k == 95 {
        } else if k == 96 {
        } else if k == 97 {
        } else if k == 98 {
        } else if k == 99 {
        } else if k == 100 {
        } else if k == 101 {
        } else if k == 102 {
        } else if k == 103 {
        } else if k == 104 {
        } else if k == 105 {
        } else if k == 106 {
        } else if k == 107 {
        } else if k == 108 {
        } else if k == 109 {
        } else if k == 110 {
        } else if k == 111 {
        } else if k == 112 {
        } else if k == 113 {
        } else if k == 114 {
        } else if k == 115 {
        } else if k == 116 {
        } else if k == 117 {
        } else if k == 118 {
        } else if k == 119 {
        } else if k == 120 {
        } else if k == 121 {
        } else if k == 122 {
        } else if k == 123 {
        } else if k == 124 {
        } else if k == 125 {
        } else if k == 126 {
        } else if k == 127 {
        } else if k == 128 {
        } else if k == 129 {
        } else if k == 130 {
        } else if k == 131 {
        } else if k == 132 {
        } else if k == 133 {
        } else if k == 134 {
        } else if k == 135 {
        } else if k == 136 {
        } else if k == 137 {
        } else if k == 138 {
        } else if k == 139 {
        } else if k == 140 {
        } else if k == 141 {
        } else if k == 142 {
        } else if k == 143 {
        } else if k == 144 {
        } else if k == 145 {
        }
    }
}

/// Each name of the unary table stands in `all_names` at its place, with
/// the tag of the unary table.
pub proof fn lemma_unary_places()
    ensures
        unary_places().len() == unary_table().len(),
        forall|i: int| 0 <= i < unary_table().len() ==> 0 <= #[trigger] unary_places()[i] < all_names().len()
            && all_names()[unary_places()[i]] == (unary_table()[i].0, 0u8),
{
    let t = unary_table();
    let p = unary_places();
    assert forall|i: int| 0 <= i < t.len() implies 0 <= #[trigger] p[i] < all_names().len() && all_names()[p[i]] == (t[i].0, 0u8) by {
        if i == 0 {
        } else if i == 1 {
        } else if i == 2 {
        } else if i == 3 {
        } else if i == 4 {
        } else if i == 5 {
        } else if i == 6 {
        } else if i == 7 {
        } else if i == 8 {
        } else if i == 9 {
        } else if i == 10 {
        } else if i == 11 {
        } else if i == 12 {
        } else if i == 13 {
        } else if i == 14 {
        } else if i == 15 {
        } else if i == 16 {
        } else if i == 17 {
        } else if i == 18 {
        } else if i == 19 {
        } else if i == 20 {
        } else if i == 21 {
        } else if i == 22 {
        } else if i == 23 {
        } else if i == 24 {
        } else if i == 25 {
        } else if i == 26 {
        } else if i == 27 {
        } else if i == 28 {
        } else if i == 29 {
        } else if i == 30 {
        } else if i == 31 {
        } else if i == 32 {
        } else if i == 33 {
        } else if i == 34 {
        } else if i == 35 {
        } else if i == 36 {
        } else if i == 37 {
        } else if i == 38 {
        } else if i == 39 {
        } else if i == 40 {
        } else if i == 41 {
        } else if i == 42 {
        } else if i == 43 {
        } else if i == 44 {
        } else if i == 45 {
        }
    }
}

/// Each name of the binary table stands in `all_names` at its place, with
/// the tag of the binary table.
pub proof fn lemma_binary_places()
    ensures
        binary_places().len() == binary_table().len(),
        forall|i: int| 0 <= i < binary_table().len() ==> 0 <= #[trigger] binary_places()[i] < all_names().len()
            && all_names()[binary_places()[i]] == (binary_table()[i].0, 1u8),
{
    let t = binary_table();
    let p = binary_places();
    assert forall|i: int| 0 <= i < t.len() implies 0 <= #[trigger] p[i] < all_names().len() && all_names()[p[i]] == (t[i].0, 1u8) by {
        if i == 0 {
        } else if i == 1 {
        } else if i == 2 {
        } else if i == 3 {
        } else if i == 4 {
        } else if i == 5 {
        } else if i == 6 {
        } else if i == 7 {
        } else if i == 8 {
        } else if i == 9 {
        } else if i == 10 {
        } else if i == 11 {
        } else if i == 12 {
        } else if i == 13 {
        } else if i == 14 {
        } else if i == 15 {
        } else if i == 16 {
        } else if i == 17 {
        } else if i == 18 {
        } else if i == 19 {
        } else if i == 20 {
        } else if i == 21 {
        } else if i == 22 {
        } else if i == 23 {
        } else if i == 24 {
        } else if i == 25 {
        } else if i == 26 {
        } else if i == 27 {
        } else if i == 28 {
        } else if i == 29 {
        } else if i == 30 {
        } else if i == 31 {
        } else if i == 32 {
        } else if i == 33 {
        } else if i == 34 {
        } else if i == 35 {
        } else if i == 36 {
        } else if i == 37 {
        } else if i == 38 {
        } else if i == 39 {
        } else if i == 40 {
        } else if i == 41 {
        } else if i == 42 {
        } else if i == 43 {
        } else if i == 44 {
        } else if i == 45 {
        } else if i == 46 {
        } else if i == 47 {
        } else if i == 48 {
        } else if i == 49 {
        } else if i == 50 {
        } else if i == 51 {
        } else if i == 52 {
        } else if i == 53 {
        } else if i == 54 {
        } else if i == 55 {
        } else if i == 56 {
        } else if i == 57 {
        } else if i == 58 {
        } else if i == 59 {
        } else if i == 60 {
        } else if i == 61 {
        } else if i == 62 {
        } else if i == 63 {
        } else if i == 64 {
        } else if i == 65 {
        } else if i == 66 {
        }
    }
}

/// Each name of the variadic table stands in `all_names` at its place, with
/// the tag of the variadic table.
pub proof fn lemma_variadic_places()
    ensures
        variadic_places().len() == variadic_table().len(),
        forall|i: int| 0 <= i < variadic_table().len() ==> 0 <= #[trigger] variadic_places()[i] < all_names().len()
            && all_names()[variadic_places()[i]] == (variadic_table()[i].0, 2u8),
{
    let t = variadic_table();
    let p = variadic_places();
    assert forall|i: int| 0 <= i < t.len() implies 0 <= #[trigger] p[i] < all_names().len() && all_names()[p[i]] == (t[i].0, 2u8) by {
        if i == 0 {
        } else if i == 1 {
        } else if i == 2 {
        } else if i == 3 {
        } else if i == 4 {
        } else if i == 5 {
        } else if i == 6 {
        } else if i == 7 {
        } else if i == 8 {
        } else if i == 9 {
        } else if i == 10 {
        } else if i == 11 {
        } else if i == 12 {
        } else if i == 13 {
        } else if i == 14 {
        } else if i == 15 {
        } else if i == 16 {
        } else if i == 17 {
        } else if i == 18 {
        } else if i == 19 {
        } else if i == 20 {
        } else if i == 21 {
        } else if i == 22 {
        } else if i == 23 {
        } else if i == 24 {
        } else if i == 25 {
        } else if i == 26 {
        } else if i == 27 {
        } else if i == 28 {
        } else if i == 29 {
        } else if i == 30 {
        } else if i == 31 {
        } else if i == 32 {
        } else if i == 33 {
        }
    }
}

/// The operation that the last entry named `name` gives, as a table built by
/// successive insertions would hold it; `None` where no entry has that name.
pub open spec fn find_op<T>(t: Seq<(Seq<char>, T)>, name: Seq<char>) -> Option<T>
    decreases t.len(),
{
    if t.len() == 0 {
        None
    } else if t.last().0 == name {
        Some(t.last().1)
    } else {
        find_op(t.drop_last(), name)
    }
}

/// The operation a table gives the name `name`.
pub fn lookup<T: Copy>(table: &Vec<(String, T)>, name: &String) -> (r: Option<T>)
    ensures
        r == find_op(table_view(table@), name@),
{
    let mut i = table.len();
    proof {
        assert(table_view(table@).take(i as int) =~= table_view(table@));
    }
    while i > 0
        invariant
            i <= table@.len(),
            find_op(table_view(table@), name@) == find_op(table_view(table@).take(i as int), name@),
        decreases i,
    {
        let ghost t = table_view(table@).take(i as int);
        proof {
            assert(t.drop_last() =~= table_view(table@).take(i - 1));
        }
        let entry = &table[i - 1];
        if entry.0 == *name {
            return Some(entry.1);
        }
        i = i - 1;
    }
    None
}


/// All the primitive operations, by name.
pub struct Primops {
    pub unary: Vec<(String, UnaryOp)>,
    pub binary: Vec<(String, BinaryOp)>,
    pub variadic: Vec<(String, VariadicOp)>,
}

impl Default for Primops {
    fn default() -> (r: Primops)
        ensures
            table_view(r.unary@) == unary_table(),
            table_view(r.binary@) == binary_table(),
            table_view(r.variadic@) == variadic_table(),
    {
        Primops { unary: unary_primops(), binary: binary_primops(), variadic: variadic_primops() }
    }
}

} // verus!
