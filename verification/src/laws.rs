//! Properties that relate the primitive operations to one another.

use vstd::arithmetic::div_mod::*;
use vstd::arithmetic::mul::*;
use vstd::arithmetic::power2::*;
use vstd::prelude::*;

use crate::bits::{set_slice_of, shiftl_of, shiftr_of, signed_of, B64};
use crate::primop::bitvec::extended_value;
use crate::primop::equality::{eq_anything_post, lift_eq};
use crate::primop::fresh_def;
use crate::primop::registry::{
    all_names, binary_places, lemma_all_names_increase, lemma_binary_places, lemma_unary_places,
    lemma_variadic_places, unary_places, variadic_places,
    binary_ensures, binary_table, find_op, lemma_binary_names_increase, lemma_unary_names_increase,
    lemma_variadic_names_increase, name_before, name_below, names_increase, unary_ensures,
    unary_table, variadic_ensures, variadic_table, BinaryOp, Step, UnaryOp, VariadicOp,
};
use crate::primop::unchanged;
use crate::primop::ints::{emod_i128, lemma_ediv_bounds, wrapping_ediv_i128};
use crate::primop::encode::{bits_of, lift_bits, sexp_i128, sexp_i64, twos};
use crate::primop::slices::subrange_internal_post;
use crate::primop::vectors::{head_post, tail_post};
use crate::primop::slices::{set_slice_post, slice_internal_post, splice_sexp, val_length, vector_update_post};
use crate::primop::strings::{decimal_of, digit_char, digits_value, is_digit, parse_i128, radix_digits, unsigned_part};
use crate::smt::{bin, sort_of, BinOp, SDef, lemma_sorts_after_len, sorts_after, SExp, SmtResult, Solver, Ty};
use crate::primop::vectors::choice_post;
use crate::primop::registry::{binary_requires, unary_requires, variadic_requires};
use crate::val::{ExecError, Val};

verus! {

/// Bits written by a splice at position `k` are read back from position
/// `k`.
pub proof fn lemma_set_slice_read(w: nat, v: nat, k: nat, uw: nat, u: nat)
    requires
        v < pow2(w),
        u < pow2(uw),
        k + uw <= w,
    ensures
        (set_slice_of(w, v, k, uw, u) / pow2(k)) % pow2(uw) == u,
{
    let pk = pow2(k) as int;
    let pu = pow2(uw) as int;
    let pe = pow2(k + uw) as int;
    let pr = pow2((w - (k + uw)) as nat) as int;
    let pw = pow2(w) as int;
    lemma_pow2_pos(k);
    lemma_pow2_pos(uw);
    lemma_pow2_pos(k + uw);
    lemma_pow2_pos((w - (k + uw)) as nat);
    lemma_pow2_adds(k, uw);
    lemma_pow2_adds(k + uw, (w - (k + uw)) as nat);
    assert(pe == pk * pu);
    assert(pw == pe * pr);
    let lo = (v as int) % pk;
    let h = (v as int) / pe;
    lemma_mod_pos_bound(v as int, pk);
    lemma_div_pos_is_pos(v as int, pe);
    assert(h < pr) by {
        lemma_multiply_divide_lt(v as int, pe, pr);
    }
    let q = (u as int) + h * pu;
    let s = lo + (u as int) * pk + h * pe;
    assert(s == pk * q + lo) by (nonlinear_arith)
        requires
            q == (u as int) + h * pu,
            s == lo + (u as int) * pk + h * pe,
            pe == pk * pu,
    ;
    assert(s < pw) by (nonlinear_arith)
        requires
            s == lo + (u as int) * pk + h * pe,
            0 <= lo < pk,
            0 <= u < pu,
            0 <= h < pr,
            pe == pk * pu,
            pw == pe * pr,
    ;
    assert(s >= 0) by (nonlinear_arith)
        requires
            s == lo + (u as int) * pk + h * pe,
            0 <= lo,
            0 <= u,
            0 <= h,
            0 < pk,
            0 < pe,
    ;
    lemma_small_mod(s as nat, pw as nat);
    assert(set_slice_of(w, v, k, uw, u) == s);
    lemma_fundamental_div_mod_converse(s, pk, q, lo);
    assert(q == h * pu + (u as int));
    lemma_fundamental_div_mod_converse(q, pu, h, u as int);
}

/// Reading back the bits that `set_slice` wrote gives what was written:
/// splicing `u` into `b` at position `k` and then taking `u`'s width of bits
/// from `k` gives `u`.
pub proof fn law_slice_after_set_slice(
    s0: Solver,
    s1: Solver,
    s2: Solver,
    b: B64,
    k: i128,
    u: B64,
    r1: Result<Val, ExecError>,
    r2: Result<Val, ExecError>,
)
    requires
        b.wf(),
        u.wf(),
        0 <= k,
        k + u.width() <= b.width(),
        set_slice_post(s0, s1, r1, Val::Bits(b), Val::I128(k), Val::Bits(u), true),
        r1 matches Ok(c) && slice_internal_post(s1, s2, r2, c, Val::I128(k), Val::I128(u.width() as i128)),
    ensures
        r2 == Ok::<Val, ExecError>(Val::Bits(u)),
{
    lemma_set_slice_read(b.width(), b.value(), k as nat, u.width(), u.value());
    let d = r2->Ok_0->Bits_0;
    B64::lemma_ext(d, u);
}

/// The code of a digit character.
pub proof fn lemma_digit_code(d: nat)
    requires
        d < 10,
    ensures
        digit_char(d) as nat == 48 + d,
{
}

/// The decimal digits of `m` are digits, at least one, and have the value
/// `m`.
pub proof fn lemma_decimal_digits(m: nat)
    ensures
        radix_digits(m, 10).len() >= 1,
        forall|i: int| 0 <= i < radix_digits(m, 10).len() ==> #[trigger] is_digit(radix_digits(m, 10)[i]),
        digits_value(radix_digits(m, 10)) == m,
    decreases m,
{
    let ds = radix_digits(m, 10);
    if m < 10 {
        lemma_digit_code(m);
        assert(ds == seq![digit_char(m)]);
        assert(ds.drop_last() =~= Seq::<char>::empty());
        assert(digits_value(ds.drop_last()) == 0);
    } else {
        lemma_div_decreases(m as int, 10);
        lemma_decimal_digits(m / 10);
        let pre = radix_digits(m / 10, 10);
        lemma_digit_code(m % 10);
        lemma_fundamental_div_mod(m as int, 10);
        assert(ds == pre.push(digit_char(m % 10)));
        assert(ds.drop_last() =~= pre);
        assert forall|i: int| 0 <= i < ds.len() implies #[trigger] is_digit(ds[i]) by {
            if i < pre.len() {
                assert(ds[i] == pre[i]);
            }
        }
    }
}

/// Reading an integer back from its decimal text gives the integer.
pub proof fn law_parse_decimal(n: i128)
    ensures
        parse_i128(decimal_of(n as int)) == Some(n),
{
    if n < 0 {
        let m = (-(n as int)) as nat;
        lemma_decimal_digits(m);
        let cs = decimal_of(n as int);
        assert(cs == seq!['-'] + radix_digits(m, 10));
        assert(cs[0] == '-');
        assert(unsigned_part(cs) =~= radix_digits(m, 10));
    } else {
        lemma_decimal_digits(n as nat);
        let cs = decimal_of(n as int);
        assert(is_digit(cs[0]));
        assert(unsigned_part(cs) == cs);
    }
}

/// The head of a list just extended by `x` is `x`.
pub proof fn law_head_of_cons(
    s0: Solver,
    s1: Solver,
    s2: Solver,
    x: Val,
    xs: Val,
    answer: SmtResult,
    r1: Result<Val, ExecError>,
    r2: Result<Val, ExecError>,
)
    requires
        xs is List || xs is Poison,
        binary_ensures(BinaryOp::Cons, x, xs, answer, s0, s1, r1),
        r1 matches Ok(l) && head_post(s1, s2, r2, l),
    ensures
        r2 == Ok::<Val, ExecError>(x),
{
}

/// The tail of a list just extended by `x` is the list as it was; the
/// poison value stands for the empty list.
pub proof fn law_tail_of_cons(
    s0: Solver,
    s1: Solver,
    s2: Solver,
    x: Val,
    xs: Val,
    answer: SmtResult,
    r1: Result<Val, ExecError>,
    r2: Result<Val, ExecError>,
)
    requires
        xs is List || xs is Poison,
        binary_ensures(BinaryOp::Cons, x, xs, answer, s0, s1, r1),
        r1 matches Ok(l) && tail_post(s1, s2, r2, l),
    ensures
        r2 matches Ok(Val::List(w)) && w@ == (match xs {
            Val::List(v) => v@,
            _ => Seq::empty(),
        }),
{
    if let Val::List(v) = xs {
        assert(v@.push(x).drop_last() =~= v@);
    } else {
        assert(seq![x].drop_last() =~= Seq::<Val>::empty());
    }
}

/// Reading element `k` of a vector just updated at `k` gives the value
/// written there.
pub proof fn law_access_after_update(
    s0: Solver,
    s1: Solver,
    s2: Solver,
    args: Vec<Val>,
    k: i128,
    answer: SmtResult,
    step: Step,
    r2: Result<Val, ExecError>,
)
    requires
        args@.len() >= 3,
        args@[0] matches Val::Vector(xs) && (k as usize) < xs@.len(),
        args@[1] == Val::I128(k),
        variadic_ensures(VariadicOp::VectorUpdate, args, s0, s1, step),
        step matches Step::Done(Ok(v)) && binary_ensures(BinaryOp::VectorAccess, v, Val::I128(k), answer, s1, s2, r2),
    ensures
        r2 == Ok::<Val, ExecError>(args@[2]),
{
}

/// Widening a 64-bit integer to 128 bits and narrowing it back gives the
/// integer.
pub proof fn law_i64_round_trip(
    s0: Solver,
    s1: Solver,
    s2: Solver,
    n: i64,
    r1: Result<Val, ExecError>,
    r2: Result<Val, ExecError>,
)
    requires
        unary_ensures(UnaryOp::I64ToI128, Val::I64(n), s0, s1, r1),
        r1 matches Ok(v) && unary_ensures(UnaryOp::I128ToI64, v, s1, s2, r2),
    ensures
        r2 == Ok::<Val, ExecError>(Val::I64(n)),
{
}

/// Complementing the bits of a bitvector twice gives the bitvector.
pub proof fn law_not_not(
    s0: Solver,
    s1: Solver,
    s2: Solver,
    b: B64,
    r1: Result<Val, ExecError>,
    r2: Result<Val, ExecError>,
)
    requires
        b.wf(),
        unary_ensures(UnaryOp::NotBits, Val::Bits(b), s0, s1, r1),
        r1 matches Ok(v) && unary_ensures(UnaryOp::NotBits, v, s1, s2, r2),
    ensures
        r2 == Ok::<Val, ExecError>(Val::Bits(b)),
{
    B64::lemma_ext(r2->Ok_0->Bits_0, b);
}

/// Adding an integer to a bitvector and subtracting it again gives the
/// bitvector.
pub proof fn law_add_sub_bits_int(
    s0: Solver,
    s1: Solver,
    s2: Solver,
    b: B64,
    k: i128,
    answer: SmtResult,
    r1: Result<Val, ExecError>,
    r2: Result<Val, ExecError>,
)
    requires
        b.wf(),
        binary_ensures(BinaryOp::AddBitsInt, Val::Bits(b), Val::I128(k), answer, s0, s1, r1),
        r1 matches Ok(v) && binary_ensures(BinaryOp::SubBitsInt, v, Val::I128(k), answer, s1, s2, r2),
    ensures
        r2 == Ok::<Val, ExecError>(Val::Bits(b)),
{
    let m = pow2(b.width()) as int;
    lemma_pow2_pos(b.width());
    let v = b.value() as int;
    lemma_add_mod_noop(v, k as int, m);
    lemma_sub_mod_noop((v + k) % m, k as int, m);
    lemma_mod_twice(v + k, m);
    lemma_sub_mod_noop(v + k, k as int, m);
    lemma_small_mod(b.value(), m as nat);
    B64::lemma_ext(r2->Ok_0->Bits_0, b);
}

/// Counting a cycle makes the cycle count one more.
pub proof fn law_cycle_count(
    s0: Solver,
    s1: Solver,
    s2: Solver,
    x: Val,
    y: Val,
    r1: Result<Val, ExecError>,
    r2: Result<Val, ExecError>,
)
    requires
        unary_ensures(UnaryOp::CycleCount, x, s0, s1, r1),
        unary_ensures(UnaryOp::GetCycleCount, y, s1, s2, r2),
    ensures
        r2 == Ok::<Val, ExecError>(Val::I128((s0.cycles() + 1) as i128)),
{
}

/// `neq_anything` is the negation of `eq_anything` on every pair of operands,
/// both called on the same solver: two bitvectors or two enumeration members
/// give opposite booleans; other operands without a symbol are refused by both
/// with a type error; where a symbol takes part, both define the same fresh
/// variable, as the equality and as the disequality of the same two SMT
/// operands, or both fail.
pub proof fn law_neq_is_not_eq(
    s0: Solver,
    s1: Solver,
    t0: Solver,
    t1: Solver,
    lhs: Val,
    rhs: Val,
    r1: Result<Val, ExecError>,
    r2: Result<Val, ExecError>,
)
    requires
        s0 == t0,
        eq_anything_post(s0, s1, r1, lhs, rhs, false),
        eq_anything_post(t0, t1, r2, lhs, rhs, true),
    ensures
        (lhs is Bits && rhs is Bits) || (lhs is Enum && rhs is Enum) ==> (r1 matches Ok(Val::Bool(e))
            && r2 == Ok::<Val, ExecError>(Val::Bool(!e))),
        !((lhs is Bits && rhs is Bits) || (lhs is Enum && rhs is Enum)) && !(lhs is Symbolic) && !(rhs is Symbolic)
            ==> (r1 == Err::<Val, ExecError>(ExecError::Type("eq_anything"))
            && r2 == Err::<Val, ExecError>(ExecError::Type("neq_anything"))),
        lhs is Symbolic || rhs is Symbolic ==> match (lift_eq(lhs), lift_eq(rhs)) {
            (Some(a), Some(b)) => fresh_def(s0, s1, r1, bin(BinOp::Eq, a, b)) && fresh_def(
                t0,
                t1,
                r2,
                bin(BinOp::Neq, a, b),
            ),
            _ => r1 == Err::<Val, ExecError>(ExecError::Type("eq_anything")) && r2 == Err::<Val, ExecError>(
                ExecError::Type("neq_anything"),
            ),
        },
{
}

/// Concatenating two bitvectors and taking the bits above the second gives
/// the first; taking the low bits gives the second.
pub proof fn law_subrange_of_append(
    s0: Solver,
    s1: Solver,
    s2: Solver,
    s3: Solver,
    x: B64,
    y: B64,
    answer: SmtResult,
    r1: Result<Val, ExecError>,
    hi: Result<Val, ExecError>,
    lo: Result<Val, ExecError>,
)
    requires
        x.wf(),
        y.wf(),
        1 <= x.width(),
        1 <= y.width(),
        x.width() + y.width() <= 64,
        binary_ensures(BinaryOp::Append, Val::Bits(x), Val::Bits(y), answer, s0, s1, r1),
        r1 matches Ok(c) && subrange_internal_post(
            s1,
            s2,
            hi,
            c,
            Val::I128((x.width() + y.width() - 1) as i128),
            Val::I128(y.width() as i128),
        ),
        r1 matches Ok(c) && subrange_internal_post(s1, s3, lo, c, Val::I128((y.width() - 1) as i128), Val::I128(0)),
    ensures
        hi == Ok::<Val, ExecError>(Val::Bits(x)),
        lo == Ok::<Val, ExecError>(Val::Bits(y)),
{
    let py = pow2(y.width()) as int;
    let px = pow2(x.width()) as int;
    let c = (x.value() as int) * py + (y.value() as int);
    lemma_pow2_pos(y.width());
    lemma_pow2_pos(x.width());
    lemma2_to64();
    lemma_fundamental_div_mod_converse(c, py, x.value() as int, y.value() as int);
    lemma_small_mod(x.value(), px as nat);
    assert(c / 1 == c);
    assert(((y.width() - 1) as u32 - 0 + 1) as nat == y.width());
    lemma_mod_multiples_vanish(x.value() as int, y.value() as int, py);
    lemma_small_mod(y.value(), py as nat);
    B64::lemma_ext(hi->Ok_0->Bits_0, x);
    B64::lemma_ext(lo->Ok_0->Bits_0, y);
}

/// Sign-extending keeps the signed reading of the bits.
pub proof fn lemma_sign_extension(w: nat, v: nat, n: nat)
    requires
        v < pow2(w),
        w <= n,
    ensures
        signed_of(n, extended_value(true, w, v, n)) == signed_of(w, v),
{
    lemma_pow2_pos(w);
    lemma_pow2_pos(n);
    if w > 0 {
        lemma_pow2_unfold(w);
        lemma_pow2_unfold(n);
        crate::bits::lemma_pow2_strictly_increases_or_eq((w - 1) as nat, (n - 1) as nat);
        crate::bits::lemma_pow2_strictly_increases_or_eq(w, n);
        if v >= pow2((w - 1) as nat) {
            let e = v + pow2(n) - pow2(w);
            assert(e >= pow2((n - 1) as nat));
            assert(extended_value(true, w, v, n) == e);
            assert(signed_of(n, e as nat) == e - pow2(n));
        } else {
            assert(extended_value(true, w, v, n) == v);
        }
    } else {
        lemma2_to64();
        assert(v == 0);
        if n > 0 {
            lemma_pow2_pos((n - 1) as nat);
        }
    }
}

/// Zero-extending a bitvector keeps its unsigned reading.
pub proof fn law_zero_extend_unsigned(
    s0: Solver,
    s1: Solver,
    s2: Solver,
    b: B64,
    n: i128,
    answer: SmtResult,
    r1: Result<Val, ExecError>,
    r2: Result<Val, ExecError>,
)
    requires
        b.wf(),
        b.width() <= n <= 64,
        binary_ensures(BinaryOp::ZeroExtend, Val::Bits(b), Val::I128(n), answer, s0, s1, r1),
        r1 matches Ok(c) && unary_ensures(UnaryOp::SailUnsigned, c, s1, s2, r2),
    ensures
        r2 == Ok::<Val, ExecError>(Val::I128(b.value() as i128)),
{
}

/// Sign-extending a bitvector keeps its signed reading.
pub proof fn law_sign_extend_signed(
    s0: Solver,
    s1: Solver,
    s2: Solver,
    b: B64,
    n: i128,
    answer: SmtResult,
    r1: Result<Val, ExecError>,
    r2: Result<Val, ExecError>,
)
    requires
        b.wf(),
        b.width() <= n <= 64,
        binary_ensures(BinaryOp::SignExtend, Val::Bits(b), Val::I128(n), answer, s0, s1, r1),
        r1 matches Ok(c) && unary_ensures(UnaryOp::SailSigned, c, s1, s2, r2),
    ensures
        r2 == Ok::<Val, ExecError>(Val::I128(signed_of(b.width(), b.value()) as i128)),
{
    lemma_sign_extension(b.width(), b.value(), n as nat);
}

/// `new` keeps all of `old`: the sorts, the commands and the events only
/// grow, and the cycle counter does not go down.
pub open spec fn keeps(old: Solver, new: Solver) -> bool {
    &&& old.decls().is_prefix_of(new.decls())
    &&& old.defs().is_prefix_of(new.defs())
    &&& old.events().is_prefix_of(new.events())
    &&& old.cycles() <= new.cycles()
}

/// A sequence begins itself.
pub broadcast proof fn lemma_prefix_refl<T>(s: Seq<T>)
    ensures
        #[trigger] s.is_prefix_of(s),
{
    assert(s.subrange(0, s.len() as int) =~= s);
}

/// A sequence begins the sequence with one more element.
pub broadcast proof fn lemma_prefix_push<T>(s: Seq<T>, x: T)
    ensures
        #[trigger] s.is_prefix_of(s.push(x)),
{
    assert(s.push(x).subrange(0, s.len() as int) =~= s);
}

/// A sequence begins itself followed by more.
pub broadcast proof fn lemma_prefix_concat<T>(s: Seq<T>, t: Seq<T>)
    ensures
        #[trigger] s.is_prefix_of(s + t),
{
    assert((s + t).subrange(0, s.len() as int) =~= s);
}

/// Beginning a sequence is transitive.
pub broadcast proof fn lemma_prefix_trans<T>(a: Seq<T>, b: Seq<T>, c: Seq<T>)
    requires
        #[trigger] a.is_prefix_of(b),
        #[trigger] b.is_prefix_of(c),
    ensures
        a.is_prefix_of(c),
{
    assert forall|i: int| 0 <= i < a.len() implies a[i] == c[i] by {
        assert(a[i] == b.subrange(0, a.len() as int)[i]);
        assert(b[i] == c.subrange(0, b.len() as int)[i]);
    }
    assert(a =~= c.subrange(0, a.len() as int));
}

/// The sorts after a run of definitions begin with the sorts before.
pub broadcast proof fn lemma_sorts_after_prefix(decls: Seq<Option<Ty>>, es: Seq<SExp>)
    ensures
        decls.is_prefix_of(#[trigger] sorts_after(decls, es)),
{
    lemma_sorts_after_len(decls, es);
}

/// A symbolic choice keeps what the solver had.
proof fn lemma_choice_keeps(old: Solver, new: Solver, r: Result<Val, ExecError>, xs: Seq<Val>)
    requires
        old.room(2),
        choice_post(old, new, r, xs),
    ensures
        keeps(old, new),
{
    broadcast use lemma_prefix_push, lemma_prefix_trans;

    let sz = crate::primop::vectors::clog2(xs.len() + 1) as u32;
    let d1 = old.decls().push(Some(Ty::BitVec(sz)));
    let declared = d1.push(None);
    assert(old.decls().is_prefix_of(d1));
    assert(d1.is_prefix_of(declared));
    assert(old.decls().is_prefix_of(declared));
    let i = old.decls().len() + 1int;
    assert forall|c: Option<Ty>| old.decls().is_prefix_of(#[trigger] declared.update(i, c)) by {
        assert(declared.update(i, c).subrange(0, old.decls().len() as int) =~= old.decls());
    }
    let sym = old.next_sym();
    let defs = old.defs().push(crate::smt::SDef::DeclareConst(sym, Ty::BitVec(sz)));
    assert(old.defs().is_prefix_of(defs));
    assert forall|d: crate::smt::SDef| old.defs().is_prefix_of(#[trigger] defs.push(d)) by {
        assert(defs.is_prefix_of(defs.push(d)));
    }
    assert(old.events().is_prefix_of(old.events())) by {
        assert(old.events().subrange(0, old.events().len() as int) =~= old.events());
    }
    match crate::primop::vectors::chain_sexp(sym, 0, sz, xs) {
        Some(e) => {
            assert(new.decls() == declared.update(i, crate::smt::sort_of(declared, e)));
        },
        None => {},
    }
}

/// Every operation of one argument keeps what the solver had.
pub proof fn law_unary_keeps(op: UnaryOp, x: Val, old: Solver, new: Solver, r: Result<Val, ExecError>)
    requires
        unary_requires(op, x, old),
        unary_ensures(op, x, old, new, r),
    ensures
        keeps(old, new),
{
    broadcast use lemma_prefix_refl, lemma_prefix_push, lemma_prefix_concat, lemma_prefix_trans, lemma_sorts_after_prefix;

    if op == UnaryOp::Choice {
        if let Val::List(v) = x {
            lemma_choice_keeps(old, new, r, v@);
        }
    }
}

/// Every operation of two arguments keeps what the solver had.
pub proof fn law_binary_keeps(
    op: BinaryOp,
    x: Val,
    y: Val,
    answer: SmtResult,
    old: Solver,
    new: Solver,
    r: Result<Val, ExecError>,
)
    requires
        binary_requires(op, x, y, answer, old),
        binary_ensures(op, x, y, answer, old, new, r),
    ensures
        keeps(old, new),
{
    broadcast use lemma_prefix_refl, lemma_prefix_push, lemma_prefix_concat, lemma_prefix_trans, lemma_sorts_after_prefix;

}

/// Every operation of a list of arguments keeps what the solver had.
pub proof fn law_variadic_keeps(op: VariadicOp, args: Vec<Val>, old: Solver, new: Solver, step: Step)
    requires
        variadic_requires(op, args, old),
        variadic_ensures(op, args, old, new, step),
    ensures
        keeps(old, new),
{
    broadcast use lemma_prefix_refl, lemma_prefix_push, lemma_prefix_concat, lemma_prefix_trans, lemma_sorts_after_prefix;

}

/// A splice at position `k` of `uw` bits keeps the bits below `k` and those
/// from `k + uw` upwards.
pub proof fn lemma_set_slice_keeps(w: nat, v: nat, k: nat, uw: nat, u: nat)
    requires
        v < pow2(w),
        u < pow2(uw),
        k + uw <= w,
    ensures
        set_slice_of(w, v, k, uw, u) % pow2(k) == v % pow2(k),
        set_slice_of(w, v, k, uw, u) / pow2(k + uw) == v / pow2(k + uw),
{
    let pk = pow2(k) as int;
    let pu = pow2(uw) as int;
    let pe = pow2(k + uw) as int;
    let pr = pow2((w - (k + uw)) as nat) as int;
    let pw = pow2(w) as int;
    lemma_pow2_pos(k);
    lemma_pow2_pos(uw);
    lemma_pow2_pos(k + uw);
    lemma_pow2_pos((w - (k + uw)) as nat);
    lemma_pow2_adds(k, uw);
    lemma_pow2_adds(k + uw, (w - (k + uw)) as nat);
    let lo = (v as int) % pk;
    let h = (v as int) / pe;
    lemma_mod_pos_bound(v as int, pk);
    lemma_div_pos_is_pos(v as int, pe);
    assert(h < pr) by {
        lemma_multiply_divide_lt(v as int, pe, pr);
    }
    let q = (u as int) + h * pu;
    let s = lo + (u as int) * pk + h * pe;
    assert(s == pk * q + lo) by (nonlinear_arith)
        requires
            q == (u as int) + h * pu,
            s == lo + (u as int) * pk + h * pe,
            pe == pk * pu,
    ;
    assert(s < pw) by (nonlinear_arith)
        requires
            s == lo + (u as int) * pk + h * pe,
            0 <= lo < pk,
            0 <= u < pu,
            0 <= h < pr,
            pe == pk * pu,
            pw == pe * pr,
    ;
    assert(0 <= lo + (u as int) * pk < pe) by (nonlinear_arith)
        requires
            0 <= lo < pk,
            0 <= u < pu,
            pe == pk * pu,
    ;
    lemma_small_mod(s as nat, pw as nat);
    assert(set_slice_of(w, v, k, uw, u) == s);
    lemma_fundamental_div_mod_converse(s, pk, q, lo);
    assert(s == pe * h + (lo + (u as int) * pk)) by (nonlinear_arith)
        requires
            s == lo + (u as int) * pk + h * pe,
    ;
    lemma_fundamental_div_mod_converse(s, pe, h, lo + (u as int) * pk);
}

/// Writing with `set_slice` keeps the bits outside the slice written.
pub proof fn law_set_slice_keeps_other_bits(
    s0: Solver,
    s1: Solver,
    b: B64,
    k: i128,
    u: B64,
    r1: Result<Val, ExecError>,
)
    requires
        b.wf(),
        u.wf(),
        0 <= k,
        k + u.width() <= b.width(),
        set_slice_post(s0, s1, r1, Val::Bits(b), Val::I128(k), Val::Bits(u), true),
    ensures
        r1 matches Ok(Val::Bits(c)) && c.width() == b.width()
            && c.value() % pow2(k as nat) == b.value() % pow2(k as nat)
            && c.value() / pow2((k + u.width()) as nat) == b.value() / pow2((k + u.width()) as nat),
{
    lemma_set_slice_keeps(b.width(), b.value(), k as nat, u.width(), u.value());
}

/// Shifting left by `k` and back right by `k` keeps the low `w - k` bits.
pub proof fn lemma_shift_round_trip(w: nat, v: nat, k: nat)
    requires
        v < pow2(w),
        k < w,
    ensures
        shiftr_of(w, shiftl_of(w, v, k as int), k as int) == v % pow2((w - k) as nat),
{
    let pk = pow2(k) as int;
    let pr = pow2((w - k) as nat) as int;
    lemma_pow2_pos(k);
    lemma_pow2_pos((w - k) as nat);
    lemma_pow2_adds(k, (w - k) as nat);
    assert(pow2(w) as int == pk * pr);
    lemma_mul_is_commutative(v as int, pk);
    lemma_truncate_middle(v as int, pk, pr);
    lemma_mod_pos_bound(v as int, pr);
    lemma_div_multiples_vanish(v as int % pr, pk);
}

/// Shifting a bitvector left by `k` places and then right by `k` clears its
/// top `k` bits and keeps the rest.
pub proof fn law_shift_round_trip(
    s0: Solver,
    s1: Solver,
    s2: Solver,
    b: B64,
    k: i128,
    answer: SmtResult,
    r1: Result<Val, ExecError>,
    r2: Result<Val, ExecError>,
)
    requires
        b.wf(),
        0 <= k < b.width(),
        binary_ensures(BinaryOp::Shiftl, Val::Bits(b), Val::I128(k), answer, s0, s1, r1),
        r1 matches Ok(c) && binary_ensures(BinaryOp::Shiftr, c, Val::I128(k), answer, s1, s2, r2),
    ensures
        r2 matches Ok(Val::Bits(d)) && d.width() == b.width() && d.value() == b.value() % pow2(
            (b.width() - k) as nat,
        ),
{
    lemma_shift_round_trip(b.width(), b.value(), k as nat);
}

/// No name comes before itself.
pub proof fn lemma_below_irreflexive(a: Seq<char>, i: nat)
    ensures
        !name_below(a, a, i),
    decreases a.len() - i,
{
    if i < a.len() {
        lemma_below_irreflexive(a, i + 1);
    }
}

/// The order of names is transitive.
pub proof fn lemma_below_transitive(a: Seq<char>, b: Seq<char>, c: Seq<char>, i: nat)
    requires
        name_below(a, b, i),
        name_below(b, c, i),
    ensures
        name_below(a, c, i),
    decreases a.len() - i,
{
    if i < a.len() && i < b.len() && i < c.len() && a[i as int] == b[i as int] && b[i as int] == c[i as int] {
        lemma_below_transitive(a, b, c, i + 1);
    }
}

/// In a table whose names increase, each name comes before every later one.
pub proof fn lemma_names_ordered<T>(t: Seq<(Seq<char>, T)>, i: int, j: int)
    requires
        names_increase(t),
        0 <= i < j < t.len(),
    ensures
        name_before(t[i].0, t[j].0),
    decreases j - i,
{
    assert(name_before(t[j - 1].0, t[j].0));
    if j > i + 1 {
        lemma_names_ordered(t, i, j - 1);
        lemma_below_transitive(t[i].0, t[j - 1].0, t[j].0, 0);
    }
}

/// In a table whose names increase, each entry is found under its own name.
pub proof fn lemma_find_listed<T>(t: Seq<(Seq<char>, T)>, i: int)
    requires
        names_increase(t),
        0 <= i < t.len(),
    ensures
        find_op(t, t[i].0) == Some(t[i].1),
    decreases t.len(),
{
    if i < t.len() - 1 {
        lemma_names_ordered(t, i, t.len() - 1);
        lemma_below_irreflexive(t[i].0, 0);
        let d = t.drop_last();
        assert forall|k: int| 0 <= k < d.len() - 1 implies name_before(#[trigger] d[k].0, d[k + 1].0) by {
            assert(name_before(t[k].0, t[k + 1].0));
        }
        lemma_find_listed(d, i);
    }
}

/// Each name of the table of operations of one argument is looked up to the
/// operation listed with it: no name is listed twice.
pub proof fn law_unary_lookup(i: int)
    requires
        0 <= i < unary_table().len(),
    ensures
        find_op(unary_table(), unary_table()[i].0) == Some(unary_table()[i].1),
{
    lemma_unary_names_increase();
    lemma_find_listed(unary_table(), i);
}

/// Each name of the table of operations of two arguments is looked up to the
/// operation listed with it: no name is listed twice.
pub proof fn law_binary_lookup(i: int)
    requires
        0 <= i < binary_table().len(),
    ensures
        find_op(binary_table(), binary_table()[i].0) == Some(binary_table()[i].1),
{
    lemma_binary_names_increase();
    lemma_find_listed(binary_table(), i);
}

/// Each name of the table of operations of a list of arguments is looked up
/// to the operation listed with it: no name is listed twice.
pub proof fn law_variadic_lookup(i: int)
    requires
        0 <= i < variadic_table().len(),
    ensures
        find_op(variadic_table(), variadic_table()[i].0) == Some(variadic_table()[i].1),
{
    lemma_variadic_names_increase();
    lemma_find_listed(variadic_table(), i);
}

/// The names of the operations on real numbers.
pub open spec fn real_names() -> Seq<Seq<char>> {
    seq![
        "%string->%real"@,
        "neg_real"@,
        "mult_real"@,
        "sub_real"@,
        "add_real"@,
        "div_real"@,
        "sqrt_real"@,
        "abs_real"@,
        "round_down"@,
        "round_up"@,
        "to_real"@,
        "eq_real"@,
        "lt_real"@,
        "gt_real"@,
        "lteq_real"@,
        "gteq_real"@,
        "real_power"@,
        "print_real"@,
        "prerr_real"@,
        "undefined_real"@,
    ]
}

/// No operation on real numbers is handled: each of their names is looked up
/// to the unimplemented operation, which fails with `Unimplemented` and
/// leaves the solver unchanged, whatever its arguments (its `apply` leaves the
/// frame unchanged too).
pub proof fn law_reals_unimplemented(k: int, args: Vec<Val>, old: Solver, new: Solver, step: Step)
    requires
        0 <= k < real_names().len(),
        variadic_ensures(VariadicOp::Unimplemented, args, old, new, step),
    ensures
        find_op(variadic_table(), real_names()[k]) == Some(VariadicOp::Unimplemented),
        step == Step::Done(Err::<Val, ExecError>(ExecError::Unimplemented)),
        unchanged(old, new),
{
    if k == 0 {
        law_variadic_lookup(0);
    } else if k == 1 {
        law_variadic_lookup(14);
    } else if k == 2 {
        law_variadic_lookup(13);
    } else if k == 3 {
        law_variadic_lookup(28);
    } else if k == 4 {
        law_variadic_lookup(2);
    } else if k == 5 {
        law_variadic_lookup(4);
    } else if k == 6 {
        law_variadic_lookup(27);
    } else if k == 7 {
        law_variadic_lookup(1);
    } else if k == 8 {
        law_variadic_lookup(22);
    } else if k == 9 {
        law_variadic_lookup(23);
    } else if k == 10 {
        law_variadic_lookup(29);
    } else if k == 11 {
        law_variadic_lookup(6);
    } else if k == 12 {
        law_variadic_lookup(11);
    } else if k == 13 {
        law_variadic_lookup(8);
    } else if k == 14 {
        law_variadic_lookup(12);
    } else if k == 15 {
        law_variadic_lookup(9);
    } else if k == 16 {
        law_variadic_lookup(21);
    } else if k == 17 {
        law_variadic_lookup(20);
    } else if k == 18 {
        law_variadic_lookup(19);
    } else if k == 19 {
        law_variadic_lookup(30);
    }
}

/// The 64-bit literal of an integer is the low half of the 128-bit literal
/// of the same integer, bit for bit.
pub proof fn law_i64_literal_low_half(i: i64)
    ensures
        sexp_i128(i as i128) matches SExp::Bits(wide) && sexp_i64(i) == SExp::Bits(wide.subrange(0, 64)),
{
    let a = twos(i as int, 128) as int;
    let b = twos(i as int, 64) as int;
    let p64 = pow2(64) as int;
    lemma2_to64();
    lemma_pow2_adds(64, 64);
    let m: int = if i < 0 { p64 - 1 } else { 0 };
    assert(a == b + p64 * m) by (nonlinear_arith)
        requires
            pow2(128) == p64 * p64,
            p64 == 0x1_0000_0000_0000_0000,
            i < 0 ==> a == i + pow2(128) && b == i + p64 && m == p64 - 1,
            i >= 0 ==> a == i && b == i && m == 0,
    ;
    assert forall|k: int| 0 <= k < 64 implies #[trigger] bits_of(a as nat, 128)[k] == bits_of(b as nat, 64)[k] by {
        let pk = pow2(k as nat) as int;
        let ph = pow2((63 - k) as nat) as int;
        lemma_pow2_pos(k as nat);
        lemma_pow2_adds(k as nat, (64 - k) as nat);
        lemma_pow2_adds(1, (63 - k) as nat);
        let q = b / pk;
        let r = b % pk;
        lemma_fundamental_div_mod(b, pk);
        lemma_mod_pos_bound(b, pk);
        let q2 = q + 2 * ph * m;
        assert(a == pk * q2 + r) by (nonlinear_arith)
            requires
                a == b + p64 * m,
                b == pk * q + r,
                p64 == pk * pow2((64 - k) as nat),
                pow2((64 - k) as nat) == pow2(1) * ph,
                pow2(1) == 2,
                q2 == q + 2 * ph * m,
        ;
        lemma_fundamental_div_mod_converse(a, pk, q2, r);
        lemma_mod_multiples_vanish(ph * m, q, 2);
        assert(2 * ph * m == 2 * (ph * m)) by (nonlinear_arith);
    }
    assert(bits_of(b as nat, 64) =~= bits_of(a as nat, 128).subrange(0, 64));
}

/// The outcome of `set_slice_internal` (`wide`) or `op_set_slice` is fixed by
/// the operands and the solver it starts from: two calls from the same solver
/// give the same result and leave solvers that agree in every part.
pub proof fn lemma_set_slice_post_determined(
    s0: Solver,
    s1: Solver,
    t1: Solver,
    r1: Result<Val, ExecError>,
    r2: Result<Val, ExecError>,
    bits: Val,
    n: Val,
    update: Val,
    wide: bool,
)
    requires
        set_slice_post(s0, s1, r1, bits, n, update, wide),
        set_slice_post(s0, t1, r2, bits, n, update, wide),
    ensures
        r1 == r2,
        unchanged(s1, t1),
{
    if let (Ok(Val::Bits(x)), Ok(Val::Bits(y))) = (r1, r2) {
        B64::lemma_ext(x, y);
    }
}

/// `op_set_slice`, with a 64-bit position, does what `set_slice_internal`
/// does with the same position as a 128-bit integer, both called on the same
/// solver: the same result (the same bitvector, the same fresh variable, or
/// the same error), the same solver where the position is zero or the
/// operands are concrete, and otherwise the same splice definition but for the
/// literal of the position, whose 64 bits are the low 64 bits of the 128-bit
/// literal (a splice into at most 64 bits reads no others).
pub proof fn law_op_set_slice_as_set_slice_internal(
    s0: Solver,
    s1: Solver,
    t1: Solver,
    bits: Val,
    k: i64,
    update: Val,
    r1: Result<Val, ExecError>,
    r2: Result<Val, ExecError>,
)
    requires
        set_slice_post(s0, s1, r1, bits, Val::I64(k), update, false),
        set_slice_post(s0, t1, r2, bits, Val::I128(k as i128), update, true),
    ensures
        r1 == r2,
        k == 0 || (bits is Bits && update is Bits) || r1 is Err ==> unchanged(s1, t1),
        k != 0 && !(bits is Bits && update is Bits) && r1 is Ok ==> {
            &&& val_length(s0, bits) matches Some(bl)
            &&& val_length(s0, update) matches Some(ul)
            &&& lift_bits(bits) matches Some(be)
            &&& lift_bits(update) matches Some(ue)
            &&& s1.defs() == s0.defs().push(
                SDef::DefineConst(s0.next_sym(), splice_sexp(bl, ul, be, Some(sexp_i64(k)), ue)),
            )
            &&& t1.defs() == s0.defs().push(
                SDef::DefineConst(s0.next_sym(), splice_sexp(bl, ul, be, Some(sexp_i128(k as i128)), ue)),
            )
            &&& s1.events() == t1.events()
            &&& s1.cycles() == t1.cycles()
            &&& s1.decls() == t1.decls()
        },
        sexp_i128(k as i128) matches SExp::Bits(wide) && sexp_i64(k) == SExp::Bits(wide.subrange(0, 64)),
{
    assert(((k as i128) as u32) == (k as u32)) by (bit_vector);
    law_i64_literal_low_half(k);
    reveal_with_fuel(sort_of, 3);
    if let (Ok(Val::Bits(x)), Ok(Val::Bits(y))) = (r1, r2) {
        B64::lemma_ext(x, y);
    }
}

/// `vector_update` on a bitvector, or on a symbol of bitvector sort, is
/// `set_slice_internal` on the same operands: called on the same solver, the
/// two give the same result and leave solvers that agree in every part.
pub proof fn law_vector_update_as_set_slice(
    s0: Solver,
    s1: Solver,
    t1: Solver,
    r1: Result<Val, ExecError>,
    r2: Result<Val, ExecError>,
    vec: Val,
    n: Val,
    upd: Val,
)
    requires
        vec is Bits || (vec matches Val::Symbolic(v) && s0.sym_length(v) is Some),
        vector_update_post(s0, s1, r1, vec, n, upd),
        set_slice_post(s0, t1, r2, vec, n, upd, true),
    ensures
        set_slice_post(s0, s1, r1, vec, n, upd, true),
        r1 == r2,
        unchanged(s1, t1),
{
    lemma_set_slice_post_determined(s0, s1, t1, r1, r2, vec, n, upd, true);
}

/// `ediv_int` and `emod_int` divide in the Euclidean way: the quotient `q`
/// and the remainder `r` of `a` by `b` satisfy `a == b * q + r` with
/// `0 <= r < |b|` (but for `MIN / -1`, whose quotient does not fit).
pub proof fn law_euclidean_division(a: i128, b: i128)
    requires
        b != 0,
        !(a == i128::MIN && b == -1),
    ensures
        a == b * wrapping_ediv_i128(a, b) + emod_i128(a, b),
        0 <= emod_i128(a, b) < (if b > 0 { b as int } else { -b }),
{
    lemma_fundamental_div_mod(a as int, b as int);
    lemma_ediv_bounds(a, b);
}

/// Bit `n` of the 64-bit literal of an integer is bit `n` of the integer in
/// two's complement: `(i >> n) & 1`.
pub proof fn law_i64_literal_bits(i: i64, n: u32)
    requires
        n < 64,
    ensures
        sexp_i64(i) matches SExp::Bits(bs) && bs.len() == 64 && bs[n as int] == (((i >> n) & 1) == 1),
{
    let x = #[verifier::truncate] (i as u64);
    assert(i < 0 ==> x == i + 0x1_0000_0000_0000_0000) by (bit_vector)
        requires
            x == i as u64,
    ;
    assert(i >= 0 ==> x == i) by (bit_vector)
        requires
            x == i as u64,
    ;
    lemma2_to64();
    assert(x as int == twos(i as int, 64));
    let sh = n as u64;
    vstd::bits::lemma_u64_shr_is_div(x, sh);
    let y = x >> sh;
    assert(((y & 1) == 1) == (y % 2 == 1)) by (bit_vector);
    assert((((i >> n) & 1) == 1) == (((x >> sh) & 1) == 1)) by (bit_vector)
        requires
            x == i as u64,
            sh == n as u64,
            n < 64,
    ;
}

/// Entries at different places of a table whose names increase have
/// different names.
pub proof fn lemma_increasing_distinct<T>(t: Seq<(Seq<char>, T)>, p: int, q: int)
    requires
        names_increase(t),
        0 <= p < t.len(),
        0 <= q < t.len(),
        p != q,
    ensures
        t[p].0 != t[q].0,
{
    if p < q {
        lemma_names_ordered(t, p, q);
    } else {
        lemma_names_ordered(t, q, p);
    }
    lemma_below_irreflexive(t[p].0, 0);
}

/// No name is listed in two of the tables: a name of one argument is no name
/// of two arguments or of a list, and a name of two arguments is no name of a
/// list.
pub proof fn law_tables_disjoint(i: int, j: int)
    ensures
        0 <= i < unary_table().len() && 0 <= j < binary_table().len() ==> unary_table()[i].0 != binary_table()[j].0,
        0 <= i < unary_table().len() && 0 <= j < variadic_table().len() ==> unary_table()[i].0 != variadic_table()[j].0,
        0 <= i < binary_table().len() && 0 <= j < variadic_table().len() ==> binary_table()[i].0 != variadic_table()[j].0,
{
    lemma_all_names_increase();
    lemma_unary_places();
    lemma_binary_places();
    lemma_variadic_places();
    let all = all_names();
    if 0 <= i < unary_table().len() && 0 <= j < binary_table().len() {
        lemma_increasing_distinct(all, unary_places()[i], binary_places()[j]);
    }
    if 0 <= i < unary_table().len() && 0 <= j < variadic_table().len() {
        lemma_increasing_distinct(all, unary_places()[i], variadic_places()[j]);
    }
    if 0 <= i < binary_table().len() && 0 <= j < variadic_table().len() {
        lemma_increasing_distinct(all, binary_places()[i], variadic_places()[j]);
    }
}

/// Each name of an operation of one argument is looked up to the operation of
/// that name.
pub proof fn law_unary_names()
    ensures
        find_op(unary_table(), "%i64->%i"@) == Some(UnaryOp::I64ToI128),
        find_op(unary_table(), "%i->%i64"@) == Some(UnaryOp::I128ToI64),
        find_op(unary_table(), "%string->%i"@) == Some(UnaryOp::StringToI128),
        find_op(unary_table(), "bit_to_bool"@) == Some(UnaryOp::BitToBool),
        find_op(unary_table(), "assume"@) == Some(UnaryOp::Assume),
        find_op(unary_table(), "not"@) == Some(UnaryOp::Not),
        find_op(unary_table(), "neg_int"@) == Some(UnaryOp::NegInt),
        find_op(unary_table(), "abs_int"@) == Some(UnaryOp::AbsInt),
        find_op(unary_table(), "pow2"@) == Some(UnaryOp::Pow2),
        find_op(unary_table(), "not_bits"@) == Some(UnaryOp::NotBits),
        find_op(unary_table(), "length"@) == Some(UnaryOp::Length),
        find_op(unary_table(), "zeros"@) == Some(UnaryOp::Zeros),
        find_op(unary_table(), "ones"@) == Some(UnaryOp::Ones),
        find_op(unary_table(), "sail_unsigned"@) == Some(UnaryOp::SailUnsigned),
        find_op(unary_table(), "sail_signed"@) == Some(UnaryOp::SailSigned),
        find_op(unary_table(), "sail_putchar"@) == Some(UnaryOp::Putchar),
        find_op(unary_table(), "print"@) == Some(UnaryOp::Print),
        find_op(unary_table(), "prerr"@) == Some(UnaryOp::Prerr),
        find_op(unary_table(), "print_endline"@) == Some(UnaryOp::PrintEndline),
        find_op(unary_table(), "prerr_endline"@) == Some(UnaryOp::PrerrEndline),
        find_op(unary_table(), "undefined_bitvector"@) == Some(UnaryOp::UndefinedBitvector),
        find_op(unary_table(), "undefined_bool"@) == Some(UnaryOp::UndefinedBool),
        find_op(unary_table(), "undefined_int"@) == Some(UnaryOp::UndefinedInt),
        find_op(unary_table(), "undefined_nat"@) == Some(UnaryOp::UndefinedNat),
        find_op(unary_table(), "undefined_unit"@) == Some(UnaryOp::UndefinedUnit),
        find_op(unary_table(), "undefined_string"@) == Some(UnaryOp::UndefinedString),
        find_op(unary_table(), "one_if"@) == Some(UnaryOp::OneIf),
        find_op(unary_table(), "zero_if"@) == Some(UnaryOp::ZeroIf),
        find_op(unary_table(), "internal_pick"@) == Some(UnaryOp::Choice),
        find_op(unary_table(), "bad_read"@) == Some(UnaryOp::BadRead),
        find_op(unary_table(), "bad_write"@) == Some(UnaryOp::BadWrite),
        find_op(unary_table(), "hex_str"@) == Some(UnaryOp::HexStr),
        find_op(unary_table(), "dec_str"@) == Some(UnaryOp::DecStr),
        find_op(unary_table(), "string_length"@) == Some(UnaryOp::StringLength),
        find_op(unary_table(), "string_of_bits"@) == Some(UnaryOp::StringOfBits),
        find_op(unary_table(), "decimal_string_of_bits"@) == Some(UnaryOp::DecimalStringOfBits),
        find_op(unary_table(), "string_of_int"@) == Some(UnaryOp::StringOfInt),
        find_op(unary_table(), "cycle_count"@) == Some(UnaryOp::CycleCount),
        find_op(unary_table(), "get_cycle_count"@) == Some(UnaryOp::GetCycleCount),
        find_op(unary_table(), "sail_get_verbosity"@) == Some(UnaryOp::GetVerbosity),
        find_op(unary_table(), "sleeping"@) == Some(UnaryOp::Sleeping),
        find_op(unary_table(), "sleep_request"@) == Some(UnaryOp::SleepRequest),
        find_op(unary_table(), "wakeup_request"@) == Some(UnaryOp::WakeupRequest),
        find_op(unary_table(), "platform_instr_announce"@) == Some(UnaryOp::InstrAnnounce),
        find_op(unary_table(), "platform_barrier"@) == Some(UnaryOp::Barrier),
        find_op(unary_table(), "monomorphize"@) == Some(UnaryOp::Monomorphize),
{
    law_unary_lookup(1);
    law_unary_lookup(0);
    law_unary_lookup(2);
    law_unary_lookup(7);
    law_unary_lookup(4);
    law_unary_lookup(17);
    law_unary_lookup(16);
    law_unary_lookup(3);
    law_unary_lookup(23);
    law_unary_lookup(18);
    law_unary_lookup(14);
    law_unary_lookup(45);
    law_unary_lookup(20);
    law_unary_lookup(31);
    law_unary_lookup(30);
    law_unary_lookup(29);
    law_unary_lookup(26);
    law_unary_lookup(24);
    law_unary_lookup(27);
    law_unary_lookup(25);
    law_unary_lookup(37);
    law_unary_lookup(38);
    law_unary_lookup(39);
    law_unary_lookup(40);
    law_unary_lookup(42);
    law_unary_lookup(41);
    law_unary_lookup(19);
    law_unary_lookup(44);
    law_unary_lookup(13);
    law_unary_lookup(5);
    law_unary_lookup(6);
    law_unary_lookup(12);
    law_unary_lookup(9);
    law_unary_lookup(34);
    law_unary_lookup(35);
    law_unary_lookup(10);
    law_unary_lookup(36);
    law_unary_lookup(8);
    law_unary_lookup(11);
    law_unary_lookup(28);
    law_unary_lookup(33);
    law_unary_lookup(32);
    law_unary_lookup(43);
    law_unary_lookup(22);
    law_unary_lookup(21);
    law_unary_lookup(15);
}

/// Each name of an operation of two arguments is looked up to the operation of
/// that name.
pub proof fn law_binary_names()
    ensures
        find_op(binary_table(), "optimistic_assert"@) == Some(BinaryOp::OptimisticAssert),
        find_op(binary_table(), "pessimistic_assert"@) == Some(BinaryOp::PessimisticAssert),
        find_op(binary_table(), "and_bool"@) == Some(BinaryOp::AndBool),
        find_op(binary_table(), "strict_and_bool"@) == Some(BinaryOp::AndBool),
        find_op(binary_table(), "or_bool"@) == Some(BinaryOp::OrBool),
        find_op(binary_table(), "strict_or_bool"@) == Some(BinaryOp::OrBool),
        find_op(binary_table(), "eq_int"@) == Some(BinaryOp::EqInt),
        find_op(binary_table(), "eq_bool"@) == Some(BinaryOp::EqBool),
        find_op(binary_table(), "lteq"@) == Some(BinaryOp::LteqInt),
        find_op(binary_table(), "gteq"@) == Some(BinaryOp::GteqInt),
        find_op(binary_table(), "lt"@) == Some(BinaryOp::LtInt),
        find_op(binary_table(), "gt"@) == Some(BinaryOp::GtInt),
        find_op(binary_table(), "add_int"@) == Some(BinaryOp::AddInt),
        find_op(binary_table(), "sub_int"@) == Some(BinaryOp::SubInt),
        find_op(binary_table(), "sub_nat"@) == Some(BinaryOp::SubNat),
        find_op(binary_table(), "mult_int"@) == Some(BinaryOp::MultInt),
        find_op(binary_table(), "tdiv_int"@) == Some(BinaryOp::TdivInt),
        find_op(binary_table(), "tmod_int"@) == Some(BinaryOp::TmodInt),
        find_op(binary_table(), "ediv_int"@) == Some(BinaryOp::EdivInt),
        find_op(binary_table(), "emod_int"@) == Some(BinaryOp::EmodInt),
        find_op(binary_table(), "pow_int"@) == Some(BinaryOp::PowInt),
        find_op(binary_table(), "shl_int"@) == Some(BinaryOp::ShlInt),
        find_op(binary_table(), "shr_int"@) == Some(BinaryOp::ShrInt),
        find_op(binary_table(), "shl_mach_int"@) == Some(BinaryOp::ShlMachInt),
        find_op(binary_table(), "shr_mach_int"@) == Some(BinaryOp::ShrMachInt),
        find_op(binary_table(), "max_int"@) == Some(BinaryOp::MaxInt),
        find_op(binary_table(), "min_int"@) == Some(BinaryOp::MinInt),
        find_op(binary_table(), "eq_bit"@) == Some(BinaryOp::EqBits),
        find_op(binary_table(), "eq_bits"@) == Some(BinaryOp::EqBits),
        find_op(binary_table(), "neq_bits"@) == Some(BinaryOp::NeqBits),
        find_op(binary_table(), "xor_bits"@) == Some(BinaryOp::XorBits),
        find_op(binary_table(), "or_bits"@) == Some(BinaryOp::OrBits),
        find_op(binary_table(), "and_bits"@) == Some(BinaryOp::AndBits),
        find_op(binary_table(), "add_bits"@) == Some(BinaryOp::AddBits),
        find_op(binary_table(), "sub_bits"@) == Some(BinaryOp::SubBits),
        find_op(binary_table(), "add_bits_int"@) == Some(BinaryOp::AddBitsInt),
        find_op(binary_table(), "sub_bits_int"@) == Some(BinaryOp::SubBitsInt),
        find_op(binary_table(), "align_bits"@) == Some(BinaryOp::AlignBits),
        find_op(binary_table(), "undefined_range"@) == Some(BinaryOp::UndefinedRange),
        find_op(binary_table(), "zero_extend"@) == Some(BinaryOp::ZeroExtend),
        find_op(binary_table(), "sign_extend"@) == Some(BinaryOp::SignExtend),
        find_op(binary_table(), "sail_truncate"@) == Some(BinaryOp::SailTruncate),
        find_op(binary_table(), "sail_truncateLSB"@) == Some(BinaryOp::SailTruncateLsb),
        find_op(binary_table(), "replicate_bits"@) == Some(BinaryOp::ReplicateBits),
        find_op(binary_table(), "shiftr"@) == Some(BinaryOp::Shiftr),
        find_op(binary_table(), "shiftl"@) == Some(BinaryOp::Shiftl),
        find_op(binary_table(), "shift_bits_right"@) == Some(BinaryOp::ShiftBitsRight),
        find_op(binary_table(), "shift_bits_left"@) == Some(BinaryOp::ShiftBitsLeft),
        find_op(binary_table(), "append"@) == Some(BinaryOp::Append),
        find_op(binary_table(), "append_64"@) == Some(BinaryOp::Append),
        find_op(binary_table(), "vector_access"@) == Some(BinaryOp::VectorAccess),
        find_op(binary_table(), "eq_anything"@) == Some(BinaryOp::EqAnything),
        find_op(binary_table(), "eq_string"@) == Some(BinaryOp::EqString),
        find_op(binary_table(), "concat_str"@) == Some(BinaryOp::ConcatStr),
        find_op(binary_table(), "string_startswith"@) == Some(BinaryOp::StringStartswith),
        find_op(binary_table(), "string_drop"@) == Some(BinaryOp::StringDrop),
        find_op(binary_table(), "string_take"@) == Some(BinaryOp::StringTake),
        find_op(binary_table(), "cons"@) == Some(BinaryOp::Cons),
        find_op(binary_table(), "undefined_vector"@) == Some(BinaryOp::UndefinedVector),
        find_op(binary_table(), "print_string"@) == Some(BinaryOp::PrintString),
        find_op(binary_table(), "prerr_string"@) == Some(BinaryOp::PrerrString),
        find_op(binary_table(), "print_int"@) == Some(BinaryOp::PrintInt),
        find_op(binary_table(), "prerr_int"@) == Some(BinaryOp::PrerrInt),
        find_op(binary_table(), "print_bits"@) == Some(BinaryOp::PrintBits),
        find_op(binary_table(), "prerr_bits"@) == Some(BinaryOp::PrerrBits),
        find_op(binary_table(), "platform_branch_announce"@) == Some(BinaryOp::BranchAnnounce),
        find_op(binary_table(), "mark_register"@) == Some(BinaryOp::MarkRegister),
{
    law_binary_lookup(27);
    law_binary_lookup(30);
    law_binary_lookup(5);
    law_binary_lookup(51);
    law_binary_lookup(29);
    law_binary_lookup(52);
    law_binary_lookup(16);
    law_binary_lookup(15);
    law_binary_lookup(21);
    law_binary_lookup(19);
    law_binary_lookup(20);
    law_binary_lookup(18);
    law_binary_lookup(2);
    law_binary_lookup(58);
    law_binary_lookup(59);
    law_binary_lookup(25);
    law_binary_lookup(60);
    law_binary_lookup(61);
    law_binary_lookup(10);
    law_binary_lookup(11);
    law_binary_lookup(32);
    law_binary_lookup(46);
    law_binary_lookup(48);
    law_binary_lookup(47);
    law_binary_lookup(49);
    law_binary_lookup(23);
    law_binary_lookup(24);
    law_binary_lookup(13);
    law_binary_lookup(14);
    law_binary_lookup(26);
    law_binary_lookup(65);
    law_binary_lookup(28);
    law_binary_lookup(4);
    law_binary_lookup(0);
    law_binary_lookup(56);
    law_binary_lookup(1);
    law_binary_lookup(57);
    law_binary_lookup(3);
    law_binary_lookup(62);
    law_binary_lookup(66);
    law_binary_lookup(50);
    law_binary_lookup(40);
    law_binary_lookup(41);
    law_binary_lookup(39);
    law_binary_lookup(45);
    law_binary_lookup(44);
    law_binary_lookup(43);
    law_binary_lookup(42);
    law_binary_lookup(6);
    law_binary_lookup(7);
    law_binary_lookup(64);
    law_binary_lookup(12);
    law_binary_lookup(17);
    law_binary_lookup(8);
    law_binary_lookup(54);
    law_binary_lookup(53);
    law_binary_lookup(55);
    law_binary_lookup(9);
    law_binary_lookup(63);
    law_binary_lookup(38);
    law_binary_lookup(35);
    law_binary_lookup(37);
    law_binary_lookup(34);
    law_binary_lookup(36);
    law_binary_lookup(33);
    law_binary_lookup(31);
    law_binary_lookup(22);
}

/// Each name of an operation of a list of arguments is looked up to the operation of
/// that name.
pub proof fn law_variadic_names()
    ensures
        find_op(variadic_table(), "slice"@) == Some(VariadicOp::Slice),
        find_op(variadic_table(), "vector_subrange"@) == Some(VariadicOp::Subrange),
        find_op(variadic_table(), "vector_update"@) == Some(VariadicOp::VectorUpdate),
        find_op(variadic_table(), "vector_update_subrange"@) == Some(VariadicOp::VectorUpdateSubrange),
        find_op(variadic_table(), "bitvector_update"@) == Some(VariadicOp::BitvectorUpdate),
        find_op(variadic_table(), "set_slice"@) == Some(VariadicOp::SetSlice),
        find_op(variadic_table(), "get_slice_int"@) == Some(VariadicOp::GetSliceInt),
        find_op(variadic_table(), "set_slice_int"@) == Some(VariadicOp::SetSliceInt),
        find_op(variadic_table(), "platform_read_mem"@) == Some(VariadicOp::ReadMem),
        find_op(variadic_table(), "platform_write_mem"@) == Some(VariadicOp::WriteMem),
        find_op(variadic_table(), "platform_write_mem_ea"@) == Some(VariadicOp::WriteMemEa),
        find_op(variadic_table(), "platform_cache_maintenance"@) == Some(VariadicOp::CacheMaintenance),
        find_op(variadic_table(), "elf_entry"@) == Some(VariadicOp::ElfEntry),
        find_op(variadic_table(), "ite"@) == Some(VariadicOp::Ite),
        find_op(variadic_table(), "%string->%real"@) == Some(VariadicOp::Unimplemented),
        find_op(variadic_table(), "neg_real"@) == Some(VariadicOp::Unimplemented),
        find_op(variadic_table(), "mult_real"@) == Some(VariadicOp::Unimplemented),
        find_op(variadic_table(), "sub_real"@) == Some(VariadicOp::Unimplemented),
        find_op(variadic_table(), "add_real"@) == Some(VariadicOp::Unimplemented),
        find_op(variadic_table(), "div_real"@) == Some(VariadicOp::Unimplemented),
        find_op(variadic_table(), "sqrt_real"@) == Some(VariadicOp::Unimplemented),
        find_op(variadic_table(), "abs_real"@) == Some(VariadicOp::Unimplemented),
        find_op(variadic_table(), "round_down"@) == Some(VariadicOp::Unimplemented),
        find_op(variadic_table(), "round_up"@) == Some(VariadicOp::Unimplemented),
        find_op(variadic_table(), "to_real"@) == Some(VariadicOp::Unimplemented),
        find_op(variadic_table(), "eq_real"@) == Some(VariadicOp::Unimplemented),
        find_op(variadic_table(), "lt_real"@) == Some(VariadicOp::Unimplemented),
        find_op(variadic_table(), "gt_real"@) == Some(VariadicOp::Unimplemented),
        find_op(variadic_table(), "lteq_real"@) == Some(VariadicOp::Unimplemented),
        find_op(variadic_table(), "gteq_real"@) == Some(VariadicOp::Unimplemented),
        find_op(variadic_table(), "real_power"@) == Some(VariadicOp::Unimplemented),
        find_op(variadic_table(), "print_real"@) == Some(VariadicOp::Unimplemented),
        find_op(variadic_table(), "prerr_real"@) == Some(VariadicOp::Unimplemented),
        find_op(variadic_table(), "undefined_real"@) == Some(VariadicOp::Unimplemented),
{
    law_variadic_lookup(26);
    law_variadic_lookup(31);
    law_variadic_lookup(32);
    law_variadic_lookup(33);
    law_variadic_lookup(3);
    law_variadic_lookup(24);
    law_variadic_lookup(7);
    law_variadic_lookup(25);
    law_variadic_lookup(16);
    law_variadic_lookup(17);
    law_variadic_lookup(18);
    law_variadic_lookup(15);
    law_variadic_lookup(5);
    law_variadic_lookup(10);
    law_variadic_lookup(0);
    law_variadic_lookup(14);
    law_variadic_lookup(13);
    law_variadic_lookup(28);
    law_variadic_lookup(2);
    law_variadic_lookup(4);
    law_variadic_lookup(27);
    law_variadic_lookup(1);
    law_variadic_lookup(22);
    law_variadic_lookup(23);
    law_variadic_lookup(29);
    law_variadic_lookup(6);
    law_variadic_lookup(11);
    law_variadic_lookup(8);
    law_variadic_lookup(12);
    law_variadic_lookup(9);
    law_variadic_lookup(21);
    law_variadic_lookup(20);
    law_variadic_lookup(19);
    law_variadic_lookup(30);
}

} // verus!
