use lib::bits::B64;
use lib::primop::bitvec::{not_bits, sail_signed, sail_unsigned, sign_extend, zero_extend};
use lib::primop::equality::{eq_anything, neq_anything};
use lib::primop::registry::{BinaryOp, UnaryOp};
use lib::primop::slices::{set_slice_internal, slice_internal, subrange_internal};
use lib::primop::strings::{dec_str, string_to_i128};
use lib::primop::vectors::{cons, op_head, op_tail};
use lib::smt::{SmtResult, Solver, Ty};
use lib::val::{EnumMember, ExecError, Val};

fn bv(value: u64, width: u32) -> Val {
    Val::Bits(B64::new(value, width))
}

fn expect_bits(r: Result<Val, ExecError>) -> (u32, u64) {
    match r {
        Ok(Val::Bits(b)) => (b.len(), b.bits()),
        other => panic!("expected bits, got {:?}", other),
    }
}

#[test]
fn slice_reads_back_set_slice() {
    let mut s = Solver::new();
    let written = set_slice_internal(bv(0x1234, 16), Val::I128(4), bv(0xa, 4), &mut s).unwrap();
    assert_eq!(expect_bits(slice_internal(written, Val::I128(4), Val::I128(4), &mut s)), (4, 0xa));
}

#[test]
fn set_slice_keeps_other_bits() {
    let mut s = Solver::new();
    let written = set_slice_internal(bv(0x1234, 16), Val::I128(4), bv(0xa, 4), &mut s);
    assert_eq!(expect_bits(written), (16, 0x12a4));
}

#[test]
fn parse_reads_back_decimal() {
    let mut s = Solver::new();
    for n in [0i128, 7, -7, 1234567890123, i128::MAX, i128::MIN] {
        let text = dec_str(Val::I128(n), &mut s).unwrap();
        assert!(matches!(string_to_i128(text, &mut s), Ok(Val::I128(m)) if m == n));
    }
}

#[test]
fn head_and_tail_of_cons() {
    let mut s = Solver::new();
    let l = cons(Val::Bool(true), Val::List(vec![Val::Bool(false)]), &mut s).unwrap();
    assert!(matches!(op_head(l, &mut s), Ok(Val::Bool(true))));
    let l = cons(Val::Bool(true), Val::List(vec![Val::Bool(false)]), &mut s).unwrap();
    match op_tail(l, &mut s) {
        Ok(Val::List(v)) => assert!(matches!(v.as_slice(), [Val::Bool(false)])),
        other => panic!("{:?}", other),
    }
}

#[test]
fn i64_round_trip() {
    let mut s = Solver::new();
    let wide = UnaryOp::I64ToI128.apply(Val::I64(-3), &mut s).unwrap();
    assert!(matches!(UnaryOp::I128ToI64.apply(wide, &mut s), Ok(Val::I64(-3))));
}

#[test]
fn not_twice_is_identity() {
    let mut s = Solver::new();
    let once = not_bits(bv(0b0110, 4), &mut s).unwrap();
    assert_eq!(expect_bits(not_bits(once, &mut s)), (4, 0b0110));
}

#[test]
fn add_then_sub_bits_int() {
    let mut s = Solver::new();
    let a = BinaryOp::AddBitsInt.apply(bv(0xfe, 8), Val::I128(300), &mut s, SmtResult::Sat).unwrap();
    let b = BinaryOp::SubBitsInt.apply(a, Val::I128(300), &mut s, SmtResult::Sat);
    assert_eq!(expect_bits(b), (8, 0xfe));
}

#[test]
fn cycle_count_counts_one() {
    let mut s = Solver::new();
    UnaryOp::CycleCount.apply(Val::Unit, &mut s).unwrap();
    assert!(matches!(UnaryOp::GetCycleCount.apply(Val::Unit, &mut s), Ok(Val::I128(1))));
}

#[test]
fn neq_is_not_eq() {
    let mut s = Solver::new();
    let e = EnumMember { enum_id: 1, member: 2 };
    let f = EnumMember { enum_id: 1, member: 3 };
    assert!(matches!(eq_anything(Val::Enum(e), Val::Enum(f), &mut s), Ok(Val::Bool(false))));
    assert!(matches!(neq_anything(Val::Enum(e), Val::Enum(f), &mut s), Ok(Val::Bool(true))));
}

#[test]
fn eq_and_neq_refuse_the_same_operands() {
    let mut s = Solver::new();
    assert!(matches!(eq_anything(Val::I128(1), Val::I128(1), &mut s), Err(ExecError::Type("eq_anything"))));
    assert!(matches!(neq_anything(Val::I128(1), Val::I128(1), &mut s), Err(ExecError::Type("neq_anything"))));
    assert!(matches!(eq_anything(bv(1, 1), Val::Bool(true), &mut s), Err(ExecError::Type("eq_anything"))));
    assert!(matches!(neq_anything(bv(1, 1), Val::Bool(true), &mut s), Err(ExecError::Type("neq_anything"))));
    assert!(s.trace().is_empty());
}

#[test]
fn eq_and_neq_on_a_symbol_define_opposite_tests() {
    let mut s = Solver::new();
    let v = s.declare_const(Ty::BitVec(4));
    let mut t = Solver::new();
    let w = t.declare_const(Ty::BitVec(4));
    assert!(matches!(eq_anything(Val::Symbolic(v), bv(3, 4), &mut s), Ok(Val::Symbolic(_))));
    assert!(matches!(neq_anything(Val::Symbolic(w), bv(3, 4), &mut t), Ok(Val::Symbolic(_))));
    assert_eq!(s.trace().len(), 2);
    assert_eq!(t.trace().len(), 2);
    assert!(matches!(&s.trace()[1], lib::smt::Def::DefineConst(_, lib::smt::Exp::Eq(_, _))));
    assert!(matches!(&t.trace()[1], lib::smt::Def::DefineConst(_, lib::smt::Exp::Neq(_, _))));
}

#[test]
fn subrange_recovers_appended_parts() {
    let mut s = Solver::new();
    let c = BinaryOp::Append.apply(bv(0x3, 2), bv(0x15, 6), &mut s, SmtResult::Sat).unwrap();
    let c2 = BinaryOp::Append.apply(bv(0x3, 2), bv(0x15, 6), &mut s, SmtResult::Sat).unwrap();
    assert_eq!(expect_bits(subrange_internal(c, Val::I128(7), Val::I128(6), &mut s)), (2, 0x3));
    assert_eq!(expect_bits(subrange_internal(c2, Val::I128(5), Val::I128(0), &mut s)), (6, 0x15));
}

#[test]
fn extension_keeps_readings() {
    let mut s = Solver::new();
    let z = zero_extend(bv(0x9, 4), Val::I128(12), &mut s).unwrap();
    assert!(matches!(sail_unsigned(z, &mut s), Ok(Val::I128(9))));
    let x = sign_extend(bv(0x9, 4), Val::I128(12), &mut s).unwrap();
    assert!(matches!(sail_signed(x, &mut s), Ok(Val::I128(-7))));
}

#[test]
fn operations_keep_the_solver_history() {
    let mut s = Solver::new();
    let v = s.declare_const(Ty::BitVec(8));
    let before = s.trace().len();
    let _ = BinaryOp::AddBits.apply(Val::Symbolic(v), bv(1, 8), &mut s, SmtResult::Sat);
    let _ = UnaryOp::NotBits.apply(Val::Symbolic(v), &mut s);
    assert_eq!(s.trace().len(), before + 2);
    assert!(matches!(s.trace()[0], lib::smt::Def::DeclareConst(_, Ty::BitVec(8))));
}

#[test]
fn shift_left_then_right_clears_top_bits() {
    let mut s = Solver::new();
    let l = BinaryOp::Shiftl.apply(bv(0xb6, 8), Val::I128(3), &mut s, SmtResult::Sat).unwrap();
    let r = BinaryOp::Shiftr.apply(l, Val::I128(3), &mut s, SmtResult::Sat);
    assert_eq!(expect_bits(r), (8, 0x16));
}
