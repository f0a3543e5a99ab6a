use lib::primop::registry::{
    binary_primops, lookup, unary_primops, variadic_primops, BinaryOp, Primops, Step, UnaryOp,
    VariadicOp,
};
use lib::smt::{SmtResult, Solver};
use lib::val::{ExecError, LocalFrame, Val};

#[test]
fn tables_hold_every_operation() {
    assert_eq!(unary_primops().len(), 46);
    assert_eq!(binary_primops().len(), 67);
    assert_eq!(variadic_primops().len(), 34);
}

#[test]
fn lookup_by_name() {
    let unary = unary_primops();
    let binary = binary_primops();
    let variadic = variadic_primops();
    assert_eq!(lookup(&unary, &"not".to_string()), Some(UnaryOp::Not));
    assert_eq!(lookup(&unary, &"internal_pick".to_string()), Some(UnaryOp::Choice));
    assert_eq!(lookup(&binary, &"strict_and_bool".to_string()), Some(BinaryOp::AndBool));
    assert_eq!(lookup(&binary, &"ediv_int".to_string()), Some(BinaryOp::EdivInt));
    assert_eq!(lookup(&binary, &"emod_int".to_string()), Some(BinaryOp::EmodInt));
    assert_eq!(lookup(&binary, &"tdiv_int".to_string()), Some(BinaryOp::TdivInt));
    assert_eq!(lookup(&binary, &"tmod_int".to_string()), Some(BinaryOp::TmodInt));
    assert_eq!(lookup(&variadic, &"sqrt_real".to_string()), Some(VariadicOp::Unimplemented));
    assert_eq!(lookup(&variadic, &"no_such_op".to_string()), None);
}

#[test]
fn default_holds_the_three_tables() {
    let p = Primops::default();
    assert_eq!(p.unary.len(), unary_primops().len());
    assert_eq!(p.binary.len(), binary_primops().len());
    assert_eq!(p.variadic.len(), variadic_primops().len());
}

#[test]
fn apply_dispatches_to_the_operation() {
    let mut s = Solver::new();
    let mut frame = LocalFrame::new(None);
    assert!(matches!(BinaryOp::AddInt.apply(Val::I128(1), Val::I128(2), &mut s, SmtResult::Sat), Ok(Val::I128(3))));
    assert!(matches!(UnaryOp::Not.apply(Val::Bool(true), &mut s), Ok(Val::Bool(false))));
    match VariadicOp::Unimplemented.apply(vec![], &mut s, &mut frame) {
        Step::Done(Err(ExecError::Unimplemented)) => {}
        _ => panic!(),
    }
    match VariadicOp::WriteMem.apply(vec![Val::Unit, Val::Unit, Val::I128(8), Val::Unit, Val::I128(1)], &mut s, &mut frame) {
        Step::Memory(lib::primop::effects::MemRequest::Write { address: Val::I128(8), data: Val::I128(1), .. }) => {}
        _ => panic!(),
    }
}

#[test]
fn every_listed_name_is_found_with_its_operation() {
    let unary = unary_primops();
    for (name, op) in unary.iter() {
        assert_eq!(lookup(&unary, name), Some(*op));
    }
    let binary = binary_primops();
    for (name, op) in binary.iter() {
        assert_eq!(lookup(&binary, name), Some(*op));
    }
    let variadic = variadic_primops();
    for (name, op) in variadic.iter() {
        assert_eq!(lookup(&variadic, name), Some(*op));
    }
}

#[test]
fn names_are_listed_once() {
    let p = Primops::default();
    let mut names: Vec<String> = p.unary.iter().map(|e| e.0.clone()).collect();
    names.sort();
    names.dedup();
    assert_eq!(names.len(), 46);
    let mut names: Vec<String> = p.binary.iter().map(|e| e.0.clone()).collect();
    names.sort();
    names.dedup();
    assert_eq!(names.len(), 67);
    let mut names: Vec<String> = p.variadic.iter().map(|e| e.0.clone()).collect();
    names.sort();
    names.dedup();
    assert_eq!(names.len(), 34);
}

#[test]
fn real_number_operations_are_unimplemented() {
    let variadic = variadic_primops();
    let reals = [
        "%string->%real", "neg_real", "mult_real", "sub_real", "add_real", "div_real",
        "sqrt_real", "abs_real", "round_down", "round_up", "to_real", "eq_real", "lt_real",
        "gt_real", "lteq_real", "gteq_real", "real_power", "print_real", "prerr_real",
        "undefined_real",
    ];
    for name in reals.iter() {
        let op = lookup(&variadic, &name.to_string());
        assert_eq!(op, Some(VariadicOp::Unimplemented));
        let mut s = Solver::new();
        let mut frame = LocalFrame::new(None);
        match op.unwrap().apply(vec![Val::I128(1), Val::I128(2)], &mut s, &mut frame) {
            Step::Done(Err(ExecError::Unimplemented)) => {}
            _ => panic!(),
        }
        assert!(s.trace().is_empty());
    }
    let unimplemented = variadic.iter().filter(|e| e.1 == VariadicOp::Unimplemented).count();
    assert_eq!(unimplemented, 20);
}

#[test]
fn euclidean_division_by_name() {
    let binary = binary_primops();
    let mut s = Solver::new();
    let ediv = lookup(&binary, &"ediv_int".to_string()).unwrap();
    let emod = lookup(&binary, &"emod_int".to_string()).unwrap();
    assert!(matches!(ediv.apply(Val::I128(-7), Val::I128(2), &mut s, SmtResult::Sat), Ok(Val::I128(-4))));
    assert!(matches!(emod.apply(Val::I128(-7), Val::I128(2), &mut s, SmtResult::Sat), Ok(Val::I128(1))));
    let tdiv = lookup(&binary, &"tdiv_int".to_string()).unwrap();
    let tmod = lookup(&binary, &"tmod_int".to_string()).unwrap();
    assert!(matches!(tdiv.apply(Val::I128(-7), Val::I128(2), &mut s, SmtResult::Sat), Ok(Val::I128(-3))));
    assert!(matches!(tmod.apply(Val::I128(-7), Val::I128(2), &mut s, SmtResult::Sat), Ok(Val::I128(-1))));
}

#[test]
fn no_name_is_in_two_tables() {
    let p = Primops::default();
    let mut names: Vec<String> = p.unary.iter().map(|e| e.0.clone()).collect();
    names.extend(p.binary.iter().map(|e| e.0.clone()));
    names.extend(p.variadic.iter().map(|e| e.0.clone()));
    names.sort();
    names.dedup();
    assert_eq!(names.len(), 46 + 67 + 34);
    assert_eq!(lookup(&p.binary, &"not".to_string()), None);
    assert_eq!(lookup(&p.variadic, &"not".to_string()), None);
    assert_eq!(lookup(&p.unary, &"slice".to_string()), None);
}
