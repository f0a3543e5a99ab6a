use lib::bits::B64;
use lib::primop::bitvec::{
    add_bits, add_bits_int, append, length_bits, not_bits, replicate_bits, sail_signed,
    sail_truncate_lsb, sail_unsigned, shiftl, shiftr, sign_extend, sub_bits_int, zero_extend, zeros,
};
use lib::primop::effects::{
    bad_read, bad_write, cycle_count, elf_entry, get_cycle_count, instr_announce, read_mem,
    undefined_nat, undefined_range, unimplemented, MemRequest,
};
use lib::primop::encode::{smt_i128, smt_i64, smt_u8, smt_value};
use lib::primop::equality::{eq_anything, neq_anything};
use lib::primop::ints::{
    abs_int, add_int, ediv_int, emod_int, i128_to_i64, i64_to_i128, mult_int, pow2, pow_int,
    sub_nat, tdiv_int, tmod_int,
};
use lib::primop::logic::{ite, optimistic_assert, pessimistic_assert};
use lib::primop::slices::{
    align_bits, get_slice_int_internal, op_set_slice, set_slice_int_internal, set_slice_internal,
    slice_internal, subrange_internal, vector_update,
};
use lib::primop::strings::{
    concat_str, dec_str, decimal_string_of_bits, hex_str, string_drop, string_length,
    string_of_bits, string_startswith, string_take, string_to_i128,
};
use lib::primop::vectors::{choice, cons, op_head, op_tail, undefined_vector, vector_access};
use lib::smt::{Def, Event, Exp, SmtResult, Solver, Sym, Ty};
use lib::val::{ExecError, LocalFrame, Val};

fn bv(value: u64, width: u32) -> Val {
    Val::Bits(B64::new(value, width))
}

fn expect_bits(r: Result<Val, ExecError>) -> (u32, u64) {
    match r {
        Ok(Val::Bits(b)) => (b.len(), b.bits()),
        other => panic!("expected bits, got {:?}", other),
    }
}

fn expect_i128(r: Result<Val, ExecError>) -> i128 {
    match r {
        Ok(Val::I128(n)) => n,
        other => panic!("expected an integer, got {:?}", other),
    }
}

fn expect_string(r: Result<Val, ExecError>) -> String {
    match r {
        Ok(Val::String(s)) => s,
        other => panic!("expected a string, got {:?}", other),
    }
}

fn bitvector_var(solver: &mut Solver, width: u32) -> Sym {
    solver.declare_const(Ty::BitVec(width))
}

#[test]
fn smt_i128_sets_the_bits_of_the_number() {
    match smt_i128(5) {
        Exp::Bits(bs) => {
            assert_eq!(bs.len(), 128);
            assert!(bs[0] && !bs[1] && bs[2]);
            assert!(bs[3..].iter().all(|b| !b));
        }
        other => panic!("{:?}", other),
    }
}

#[test]
fn smt_i64_of_minus_one_is_all_ones() {
    match smt_i64(-1) {
        Exp::Bits(bs) => {
            assert_eq!(bs.len(), 64);
            assert!(bs.iter().all(|b| *b));
        }
        other => panic!("{:?}", other),
    }
}

#[test]
fn smt_u8_is_least_significant_first() {
    match smt_u8(0x81) {
        Exp::Bits(bs) => assert_eq!(bs, vec![true, false, false, false, false, false, false, true]),
        other => panic!("{:?}", other),
    }
}

#[test]
fn smt_value_of_bits_and_of_a_string() {
    assert!(matches!(smt_value(&bv(3, 4)), Ok(Exp::Bits64(3, 4))));
    assert!(matches!(smt_value(&Val::String("x".to_string())), Err(ExecError::Type("smt_value"))));
}

#[test]
fn length_bits_of_concrete_and_symbolic() {
    let mut s = Solver::new();
    let v = bitvector_var(&mut s, 12);
    assert_eq!(length_bits(&bv(3, 4), &mut s).unwrap(), 4);
    assert_eq!(length_bits(&Val::Symbolic(v), &mut s).unwrap(), 12);
    assert!(matches!(length_bits(&Val::Bool(true), &mut s), Err(ExecError::Type("length_bits"))));
}

#[test]
fn integer_arithmetic() {
    let mut s = Solver::new();
    assert_eq!(expect_i128(add_int(Val::I128(2), Val::I128(3), &mut s)), 5);
    assert_eq!(expect_i128(mult_int(Val::I128(-4), Val::I128(5), &mut s)), -20);
    assert_eq!(expect_i128(tdiv_int(Val::I128(-7), Val::I128(2), &mut s)), -3);
    assert_eq!(expect_i128(tmod_int(Val::I128(-7), Val::I128(2), &mut s)), -1);
    assert_eq!(expect_i128(abs_int(Val::I128(-9), &mut s)), 9);
    assert_eq!(expect_i128(pow2(Val::I128(10), &mut s)), 1024);
    assert_eq!(expect_i128(pow_int(Val::I128(3), Val::I128(4), &mut s)), 81);
    assert_eq!(expect_i128(sub_nat(Val::I128(3), Val::I128(5), &mut s)), 0);
    assert!(s.trace().is_empty());
}

#[test]
fn symbolic_addition_defines_a_variable() {
    let mut s = Solver::new();
    let v = bitvector_var(&mut s, 128);
    let r = add_int(Val::Symbolic(v), Val::I128(1), &mut s);
    assert!(matches!(r, Ok(Val::Symbolic(Sym { id: 1 }))));
    assert_eq!(s.trace().len(), 2);
    assert!(matches!(&s.trace()[1], Def::DefineConst(Sym { id: 1 }, Exp::Bvadd(_, _))));
}

#[test]
fn narrowing_overflows() {
    let mut s = Solver::new();
    assert!(matches!(i128_to_i64(Val::I128(1 << 70), &mut s), Err(ExecError::Overflow)));
    assert!(matches!(i128_to_i64(Val::I128(-5), &mut s), Ok(Val::I64(-5))));
    assert!(matches!(i64_to_i128(Val::I64(-5), &mut s), Ok(Val::I128(-5))));
}

#[test]
fn bitvector_arithmetic_wraps() {
    let mut s = Solver::new();
    assert_eq!(expect_bits(add_bits(bv(0xff, 8), bv(1, 8), &mut s)), (8, 0));
    assert_eq!(expect_bits(add_bits_int(bv(0xfe, 8), Val::I128(3), &mut s)), (8, 1));
    assert_eq!(expect_bits(sub_bits_int(bv(1, 8), Val::I128(2), &mut s)), (8, 0xff));
    assert_eq!(expect_bits(not_bits(bv(0b1010, 4), &mut s)), (4, 0b0101));
}

#[test]
fn extension_and_reading_as_numbers() {
    let mut s = Solver::new();
    assert_eq!(expect_bits(zero_extend(bv(0x80, 8), Val::I128(16), &mut s)), (16, 0x80));
    assert_eq!(expect_bits(sign_extend(bv(0x80, 8), Val::I128(16), &mut s)), (16, 0xff80));
    assert_eq!(expect_i128(sail_unsigned(bv(0xff, 8), &mut s)), 255);
    assert_eq!(expect_i128(sail_signed(bv(0xff, 8), &mut s)), -1);
}

#[test]
fn replicate_and_append() {
    let mut s = Solver::new();
    assert_eq!(expect_bits(replicate_bits(bv(0b10, 2), Val::I128(3), &mut s)), (6, 0b101010));
    assert_eq!(expect_bits(append(bv(0xa, 4), bv(0x5, 4), &mut s)), (8, 0xa5));
    assert_eq!(expect_bits(sail_truncate_lsb(bv(0xabcd, 16), Val::I128(4), &mut s)), (4, 0xa));
}

#[test]
fn shifts_of_concrete_bitvectors() {
    let mut s = Solver::new();
    assert_eq!(expect_bits(shiftl(bv(0x81, 8), Val::I128(1), &mut s)), (8, 0x02));
    assert_eq!(expect_bits(shiftr(bv(0x81, 8), Val::I128(4), &mut s)), (8, 0x08));
}

#[test]
fn slicing_concrete_bitvectors() {
    let mut s = Solver::new();
    assert_eq!(expect_bits(slice_internal(bv(0xabcd, 16), Val::I128(4), Val::I128(8), &mut s)), (8, 0xbc));
    assert_eq!(expect_bits(subrange_internal(bv(0xabcd, 16), Val::I128(15), Val::I128(12), &mut s)), (4, 0xa));
    assert_eq!(expect_bits(set_slice_internal(bv(0, 16), Val::I128(4), bv(0xf, 4), &mut s)), (16, 0xf0));
    assert!(matches!(slice_internal(bv(1, 4), Val::I128(3), Val::I128(4), &mut s), Err(ExecError::Type("slice_internal"))));
    assert!(matches!(slice_internal(bv(1, 4), Val::I128(0), Val::Symbolic(Sym { id: 0 }), &mut s), Err(ExecError::SymbolicLength("slice_internal"))));
}

#[test]
fn slicing_at_a_symbolic_position() {
    let mut s = Solver::new();
    let n = bitvector_var(&mut s, 128);
    let r = slice_internal(bv(0xabcd, 16), Val::Symbolic(n), Val::I128(4), &mut s);
    assert!(matches!(r, Ok(Val::Symbolic(Sym { id: 1 }))));
    assert!(matches!(&s.trace()[1], Def::DefineConst(_, Exp::Extract(3, 0, _))));
    let zero = slice_internal(bv(0, 16), Val::Symbolic(n), Val::I128(4), &mut s);
    assert_eq!(expect_bits(zero), (16, 0));
}

#[test]
fn integer_slices() {
    let mut s = Solver::new();
    assert_eq!(expect_bits(get_slice_int_internal(Val::I128(8), Val::I128(-1), Val::I128(4), &mut s)), (8, 0xff));
    assert_eq!(expect_bits(get_slice_int_internal(Val::I128(4), Val::I128(0x1234), Val::I128(8), &mut s)), (4, 0x2));
    assert_eq!(expect_i128(set_slice_int_internal(Val::I128(0), Val::I128(4), bv(0xf, 4), &mut s)), 0xf0);
    assert_eq!(expect_i128(set_slice_int_internal(Val::I128(-1), Val::I128(0), bv(0, 8), &mut s)), -256);
}

#[test]
fn aligning_bitvectors() {
    let mut s = Solver::new();
    assert_eq!(expect_bits(align_bits(bv(0x1234, 16), Val::I128(16), &mut s)), (16, 0x1230));
    let v = bitvector_var(&mut s, 16);
    let r = align_bits(Val::Symbolic(v), Val::I128(8), &mut s);
    assert!(matches!(r, Ok(Val::Symbolic(_))));
    match s.trace().last() {
        Some(Def::DefineConst(_, Exp::Bvand(_, mask))) => assert!(matches!(**mask, Exp::Bits64(0xfff8, 16))),
        other => panic!("{:?}", other),
    }
}

#[test]
fn equality_of_anything() {
    let mut s = Solver::new();
    assert!(matches!(eq_anything(bv(1, 4), bv(1, 4), &mut s), Ok(Val::Bool(true))));
    assert!(matches!(neq_anything(bv(1, 4), bv(1, 4), &mut s), Ok(Val::Bool(false))));
    assert!(matches!(eq_anything(Val::I128(1), Val::I128(1), &mut s), Err(ExecError::Type("eq_anything"))));
}

#[test]
fn strings_of_numbers() {
    let mut s = Solver::new();
    assert_eq!(expect_string(hex_str(Val::I128(255), &mut s)), "0xff");
    assert_eq!(expect_string(hex_str(Val::I128(-1), &mut s)), format!("0x{}", "f".repeat(32)));
    assert_eq!(expect_string(dec_str(Val::I128(-120), &mut s)), "-120");
    assert_eq!(expect_string(dec_str(Val::Symbolic(Sym { id: 3 }), &mut s)), "[3]");
    assert_eq!(expect_string(hex_str(Val::Symbolic(Sym { id: 3 }), &mut s)), "0x[3]");
    assert_eq!(expect_string(string_of_bits(bv(0x0f, 8), &mut s)), "0x0f");
    assert_eq!(expect_string(string_of_bits(bv(5, 3), &mut s)), "0b101");
    assert_eq!(expect_string(string_of_bits(Val::Symbolic(Sym { id: 7 }), &mut s)), "v7");
    assert_eq!(expect_string(decimal_string_of_bits(bv(0xff, 8), &mut s)), "-1");
}

#[test]
fn parsing_integers() {
    let mut s = Solver::new();
    let parse = |t: &str, s: &mut Solver| string_to_i128(Val::String(t.to_string()), s);
    assert_eq!(expect_i128(parse("42", &mut s)), 42);
    assert_eq!(expect_i128(parse("+42", &mut s)), 42);
    assert_eq!(expect_i128(parse("-170141183460469231731687303715884105728", &mut s)), i128::MIN);
    assert!(matches!(parse("170141183460469231731687303715884105728", &mut s), Err(ExecError::Overflow)));
    assert!(matches!(parse("", &mut s), Err(ExecError::Overflow)));
    assert!(matches!(parse("-", &mut s), Err(ExecError::Overflow)));
    assert!(matches!(parse("12a", &mut s), Err(ExecError::Overflow)));
    assert!(matches!(parse("é1", &mut s), Err(ExecError::Overflow)));
    assert!(matches!(string_to_i128(Val::I128(1), &mut s), Err(ExecError::Type("%string->%int"))));
}

#[test]
fn string_operations() {
    let mut s = Solver::new();
    let st = |t: &str| Val::String(t.to_string());
    assert_eq!(expect_string(concat_str(st("ab"), st("cd"), &mut s)), "abcd");
    assert!(matches!(string_startswith(st("hello"), st("he"), &mut s), Ok(Val::Bool(true))));
    assert!(matches!(string_startswith(st("hello"), st("lo"), &mut s), Ok(Val::Bool(false))));
    assert_eq!(expect_i128(string_length(st("héllo"), &mut s)), 6);
    assert_eq!(expect_string(string_drop(st("hello"), Val::I128(2), &mut s)), "llo");
    assert_eq!(expect_string(string_drop(st("hello"), Val::I128(9), &mut s)), "");
    assert_eq!(expect_string(string_take(st("hello"), Val::I128(2), &mut s)), "he");
    assert_eq!(expect_string(string_take(st("hello"), Val::I128(9), &mut s)), "hello");
    assert_eq!(expect_string(string_take(st("héllo"), Val::I128(2), &mut s)), "héllo");
}

#[test]
fn lists() {
    let mut s = Solver::new();
    let l = cons(Val::I128(1), Val::Poison, &mut s).unwrap();
    let l = cons(Val::I128(2), l, &mut s).unwrap();
    let Val::List(items) = &l else { panic!() };
    assert_eq!(items.len(), 2);
    let l2 = match &l {
        Val::List(v) => Val::List(v.iter().map(|x| match x {
            Val::I128(n) => Val::I128(*n),
            _ => panic!(),
        }).collect()),
        _ => panic!(),
    };
    assert!(matches!(op_head(l, &mut s), Ok(Val::I128(2))));
    match op_tail(l2, &mut s) {
        Ok(Val::List(v)) => assert!(matches!(v.as_slice(), [Val::I128(1)])),
        other => panic!("{:?}", other),
    }
    assert!(matches!(op_head(Val::List(vec![]), &mut s), Err(ExecError::Type("op_head"))));
}

#[test]
fn vectors() {
    let mut s = Solver::new();
    let v = undefined_vector(Val::I128(3), Val::Bool(false), &mut s).unwrap();
    let mut frame = LocalFrame::new(None);
    let v = vector_update(vec![v, Val::I128(1), Val::Bool(true)], &mut s, &mut frame).unwrap();
    let Val::Vector(items) = &v else { panic!() };
    assert!(matches!(items.as_slice(), [Val::Bool(false), Val::Bool(true), Val::Bool(false)]));
    assert!(matches!(vector_access(v, Val::I128(1), &mut s), Ok(Val::Bool(true))));
    assert!(matches!(vector_access(Val::Vector(vec![]), Val::I128(0), &mut s), Err(ExecError::OutOfBounds("vector_access"))));
    assert_eq!(expect_bits(vector_access(bv(0b100, 3), Val::I128(2), &mut s)), (1, 1));
}

#[test]
fn updating_a_vector_at_a_symbolic_index() {
    let mut s = Solver::new();
    let n = bitvector_var(&mut s, 128);
    let mut frame = LocalFrame::new(None);
    let v = Val::Vector(vec![Val::Bool(false), Val::Bool(false)]);
    let r = vector_update(vec![v, Val::Symbolic(n), Val::Bool(true)], &mut s, &mut frame).unwrap();
    let Val::Vector(items) = r else { panic!() };
    assert!(matches!(items.as_slice(), [Val::Symbolic(Sym { id: 1 }), Val::Symbolic(Sym { id: 2 })]));
    assert!(matches!(&s.trace()[2], Def::DefineConst(Sym { id: 2 }, Exp::Ite(_, _, _))));
    let bad = Val::Vector(vec![Val::Bool(false), Val::Unit]);
    let r = vector_update(vec![bad, Val::Symbolic(n), Val::Bool(true)], &mut s, &mut frame);
    assert!(matches!(r, Err(ExecError::Type("smt_value"))));
    assert_eq!(s.trace().len(), 4);
}

#[test]
fn choosing_among_a_list() {
    let mut s = Solver::new();
    let xs = Val::List(vec![Val::I128(1), Val::I128(2), Val::I128(3)]);
    assert!(matches!(choice(xs, &mut s), Ok(Val::Symbolic(Sym { id: 1 }))));
    assert!(matches!(&s.trace()[0], Def::DeclareConst(Sym { id: 0 }, Ty::BitVec(2))));
    assert!(matches!(&s.trace()[1], Def::DefineConst(Sym { id: 1 }, Exp::Ite(_, _, _))));
}

#[test]
fn if_then_else() {
    let mut s = Solver::new();
    let mut frame = LocalFrame::new(None);
    assert!(matches!(ite(vec![Val::Bool(true), Val::I128(1), Val::I128(2)], &mut s, &mut frame), Ok(Val::I128(1))));
    assert!(matches!(ite(vec![Val::Bool(false), Val::I128(1), Val::I128(2)], &mut s, &mut frame), Ok(Val::I128(2))));
    assert!(matches!(ite(vec![Val::Unit, Val::I128(1), Val::I128(2)], &mut s, &mut frame), Err(ExecError::Type("ite"))));
}

#[test]
fn assertions() {
    let mut s = Solver::new();
    let msg = || Val::String("m".to_string());
    assert!(matches!(optimistic_assert(Val::Bool(true), msg(), &mut s, SmtResult::Sat), Ok(Val::Unit)));
    match optimistic_assert(Val::Bool(false), msg(), &mut s, SmtResult::Sat) {
        Err(ExecError::AssertionFailed(m)) => assert_eq!(m, "m"),
        other => panic!("{:?}", other),
    }
    let b = s.declare_const(Ty::Bool);
    assert!(matches!(optimistic_assert(Val::Symbolic(b), msg(), &mut s, SmtResult::Unknown), Err(ExecError::SmtUnknown)));
    assert!(matches!(optimistic_assert(Val::Symbolic(b), msg(), &mut s, SmtResult::Sat), Ok(Val::Unit)));
    assert!(matches!(s.trace().last(), Some(Def::Assert(Exp::Var(_)))));
    assert!(matches!(pessimistic_assert(Val::Symbolic(b), msg(), &mut s, SmtResult::Sat), Err(ExecError::AssertionFailed(_))));
    assert!(matches!(pessimistic_assert(Val::Symbolic(b), msg(), &mut s, SmtResult::Unsat), Ok(Val::Unit)));
}

#[test]
fn unknown_values() {
    let mut s = Solver::new();
    assert!(matches!(undefined_nat(Val::Unit, &mut s), Ok(Val::Symbolic(Sym { id: 0 }))));
    assert!(matches!(&s.trace()[0], Def::DeclareConst(_, Ty::BitVec(128))));
    assert!(matches!(&s.trace()[1], Def::Assert(Exp::Bvsge(_, _))));
    assert!(matches!(undefined_range(Val::I128(0), Val::Unit, &mut s), Err(ExecError::Type("smt_value"))));
    assert_eq!(s.trace().len(), 4);
    assert!(matches!(zeros(Val::Symbolic(Sym { id: 0 }), &mut s), Err(ExecError::SymbolicLength("zeros"))));
}

#[test]
fn effects_and_errors() {
    let mut s = Solver::new();
    let mut frame = LocalFrame::new(None);
    assert!(matches!(bad_read(Val::Unit, &mut s), Err(ExecError::BadRead)));
    assert!(matches!(bad_write(Val::Unit, &mut s), Err(ExecError::BadWrite)));
    assert!(matches!(unimplemented(vec![], &mut s, &mut frame), Err(ExecError::Unimplemented)));
    assert!(matches!(elf_entry(vec![], &mut s, &mut frame), Err(ExecError::NoElfEntry)));
    let mut with_entry = LocalFrame::new(Some(Val::I128(0x1000)));
    assert!(matches!(elf_entry(vec![], &mut s, &mut with_entry), Ok(Val::I128(0x1000))));
    assert!(matches!(instr_announce(Val::I128(7), &mut s), Ok(Val::Unit)));
    assert!(matches!(s.recorded_events().as_slice(), [Event::Instr(Val::I128(7))]));
    cycle_count(Val::Unit, &mut s).unwrap();
    assert_eq!(expect_i128(get_cycle_count(Val::Unit, &mut s)), 1);
}

#[test]
fn memory_requests() {
    let r = read_mem(vec![Val::Unit, Val::I128(64), bv(0x80, 64), Val::I128(4)]);
    match r {
        MemRequest::Read { address, bytes, .. } => {
            assert_eq!(expect_bits(Ok(address)), (64, 0x80));
            assert!(matches!(bytes, Val::I128(4)));
        }
        _ => panic!(),
    }
}

#[test]
fn euclidean_division_and_remainder() {
    let mut s = Solver::new();
    let cases: [(i128, i128, i128, i128); 6] = [
        (-7, 2, -4, 1),
        (7, -2, -3, 1),
        (-7, -2, 4, 1),
        (7, 2, 3, 1),
        (-6, 3, -2, 0),
        (i128::MIN, -1, i128::MIN, 0),
    ];
    for (a, b, q, r) in cases.iter() {
        assert_eq!(expect_i128(ediv_int(Val::I128(*a), Val::I128(*b), &mut s)), *q);
        assert_eq!(expect_i128(emod_int(Val::I128(*a), Val::I128(*b), &mut s)), *r);
    }
    assert!(s.trace().is_empty());
}

#[test]
fn symbolic_euclidean_division_defines_a_variable() {
    let mut s = Solver::new();
    let v = bitvector_var(&mut s, 128);
    let r = ediv_int(Val::Symbolic(v), Val::I128(2), &mut s);
    assert!(matches!(r, Ok(Val::Symbolic(Sym { id: 1 }))));
    let r = emod_int(Val::I128(-7), Val::Symbolic(v), &mut s);
    assert!(matches!(r, Ok(Val::Symbolic(Sym { id: 2 }))));
    assert_eq!(s.trace().len(), 3);
}

#[test]
fn add_bits_int_on_a_symbol_without_width_takes_a_fresh_variable_and_fails() {
    let mut s = Solver::new();
    let v = s.declare_const(Ty::Bool);
    let r = add_bits_int(Val::Symbolic(v), Val::I128(3), &mut s);
    assert!(matches!(r, Err(ExecError::Type("add_bits_int"))));
    assert_eq!(s.fresh(), Sym { id: 2 });
}

#[test]
fn vector_update_of_a_bit() {
    let mut s = Solver::new();
    let mut frame = LocalFrame::new(None);
    let r = vector_update(vec![bv(0, 4), Val::I128(2), bv(1, 1)], &mut s, &mut frame);
    assert_eq!(expect_bits(r), (4, 0b0100));
    assert!(s.trace().is_empty());
}

#[test]
fn op_set_slice_agrees_with_set_slice_internal() {
    let mut s = Solver::new();
    let a = op_set_slice(bv(0x1234, 16), Val::I64(4), bv(0xa, 4), &mut s);
    let b = set_slice_internal(bv(0x1234, 16), Val::I128(4), bv(0xa, 4), &mut s);
    assert_eq!(expect_bits(a), (16, 0x12a4));
    assert_eq!(expect_bits(b), (16, 0x12a4));
    assert!(s.trace().is_empty());
}

#[test]
fn concrete_set_slice_with_a_wider_update() {
    let mut s = Solver::new();
    let r = set_slice_internal(bv(0, 4), Val::I128(0), bv(0xff, 8), &mut s);
    assert!(matches!(r, Ok(Val::Bits(_))));
    assert_eq!(expect_bits(r).0, 4);
}

#[test]
fn smt_i64_is_the_low_half_of_smt_i128() {
    for i in [0i64, 5, -5, i64::MIN, i64::MAX, -0x1234_5678_9abc].iter() {
        let narrow = match smt_i64(*i) {
            Exp::Bits(bs) => bs,
            other => panic!("{:?}", other),
        };
        let wide = match smt_i128(*i as i128) {
            Exp::Bits(bs) => bs,
            other => panic!("{:?}", other),
        };
        assert_eq!(narrow.len(), 64);
        assert_eq!(narrow[..], wide[..64]);
        for n in 0..64 {
            assert_eq!(narrow[n], ((i >> n) & 1) == 1);
        }
    }
}

#[test]
fn vector_update_on_a_symbol_defines_what_set_slice_internal_defines() {
    let mut s = Solver::new();
    let mut frame = LocalFrame::new(None);
    let v = bitvector_var(&mut s, 8);
    let r1 = vector_update(vec![Val::Symbolic(v), Val::I128(3), bv(1, 1)], &mut s, &mut frame);
    let mut t = Solver::new();
    let w = bitvector_var(&mut t, 8);
    let r2 = set_slice_internal(Val::Symbolic(w), Val::I128(3), bv(1, 1), &mut t);
    assert!(matches!(r1, Ok(Val::Symbolic(Sym { id: 1 }))));
    assert!(matches!(r2, Ok(Val::Symbolic(Sym { id: 1 }))));
    assert_eq!(s.trace().len(), 2);
    assert_eq!(t.trace().len(), 2);
    assert_eq!(format!("{:?}", s.trace()[1]), format!("{:?}", t.trace()[1]));
}

#[test]
fn op_set_slice_on_a_symbol_defines_the_same_variable() {
    let mut s = Solver::new();
    let v = bitvector_var(&mut s, 16);
    let r1 = op_set_slice(Val::Symbolic(v), Val::I64(4), bv(0xa, 4), &mut s);
    let mut t = Solver::new();
    let w = bitvector_var(&mut t, 16);
    let r2 = set_slice_internal(Val::Symbolic(w), Val::I128(4), bv(0xa, 4), &mut t);
    assert!(matches!(r1, Ok(Val::Symbolic(Sym { id: 1 }))));
    assert!(matches!(r2, Ok(Val::Symbolic(Sym { id: 1 }))));
    assert_eq!(s.trace().len(), t.trace().len());
    let r3 = op_set_slice(Val::Symbolic(v), Val::I64(0), bv(0xa, 4), &mut s);
    let r4 = set_slice_internal(Val::Symbolic(w), Val::I128(0), bv(0xa, 4), &mut t);
    assert!(matches!(r3, Ok(Val::Symbolic(Sym { id: 2 }))));
    assert!(matches!(r4, Ok(Val::Symbolic(Sym { id: 2 }))));
    assert_eq!(format!("{:?}", s.trace()[2]), format!("{:?}", t.trace()[2]));
}
