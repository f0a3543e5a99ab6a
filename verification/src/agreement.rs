//! What the SMT definitions of the operations mean: under every value of the
//! variables, a symbolic result takes the value that the concrete operation
//! gives on the same operands.

use vstd::arithmetic::div_mod::*;
use vstd::arithmetic::power2::*;
use vstd::prelude::*;

use crate::bits::{B64, lshr_of, replicate_of, set_slice_of, shl_of};
use crate::model::{
    bits_value, eval, fits, lemma_bits_of_nat_of, lemma_nat_of_append, lemma_nat_of_bits_of,
    lemma_bit_of_nat_of, lemma_nat_of_bound, lemma_nat_of_split, lemma_nat_of_zeros, int_of, nat_of, trunc_div, wrap_bits, Value,
};
use crate::primop::bitvec::fit_shift;
use crate::primop::encode::{bits_of, lift_bits, sexp_bits, lift_i128, sexp_i128, sexp_of_val, twos};
use crate::primop::bitvec::{
    add_bits_post, and_bits_post, not_bits_post, ones_post, zeros_post, sail_signed_post, sail_unsigned_post, or_bits_post, sub_bits_post, xor_bits_post,
    append_post, extend_sexp, extended_value, extension_post, replicate_post, replicate_sexp, shift_post,
    truncate_lsb_post,
};
use crate::primop::fresh_def;
use crate::primop::ints::{ediv_sexp, emod_sexp, max_int_post, min_int_post, pick};
use crate::primop::logic::{and_bool_post, lift_bool, not_bool_post, or_bool_post};
use crate::primop::ints::{
    add_int_post, ediv_int_post, emod_int_post, eq_int_post, i128_to_i64_post, tdiv_int_post, i64_to_i128_post, gt_int_post, gteq_int_post, lt_int_post, lteq_int_post, mult_int_post, sub_int_post,
};
use crate::primop::vectors::{access_bits_post, access_symbolic_post};
use crate::primop::slices::{
    extract_from, low_mask, position_i128, position_i64, set_slice_concrete, set_slice_int_ok, set_slice_int_post, set_slice_ok, set_slice_post, slice_internal_post, slice_post, get_slice_int_post, subrange_internal_post, splice_sexp,
    update_sexps, update_symbolic_post, updated_count, val_length, widened,
};
use crate::smt::{bin, sort_of, un, BinOp, SDef, SExp, Solver, Sym, Ty, UnOp};
use crate::val::{ExecError, Val};

verus! {

/// The bits that the model `m` gives the variable `v`.
pub open spec fn var_bits(m: spec_fn(Sym) -> Value, v: Sym) -> Seq<bool> {
    bits_value(Some(m(v)))
}

/// A slice of `len` bits of a symbolic bitvector of `bl` bits, from a
/// concrete position `f` with `f + len <= bl`, is a fresh variable of `len`
/// bits which, whatever value the bitvector takes, holds its bits `f` to
/// `f + len - 1`: its value is the bitvector's divided by `2^f`, modulo
/// `2^len`, as the concrete slice computes it.
pub proof fn law_symbolic_slice(
    s0: Solver,
    s1: Solver,
    r: Result<Val, ExecError>,
    v: Sym,
    f: i128,
    len: i128,
    bl: u32,
    m: spec_fn(Sym) -> Value,
)
    requires
        s0.sym_length(v) == Some(bl),
        s0.room(1),
        0 <= f,
        1 <= len,
        f + len <= bl,
        fits(m, s0.decls()),
        slice_internal_post(s0, s1, r, Val::Symbolic(v), Val::I128(f), Val::I128(len)),
    ensures
        r == Ok::<Val, ExecError>(Val::Symbolic(s0.next_sym())),
        s1.sym_length(s0.next_sym()) == Some(len as u32),
        s1.defs().last() matches SDef::DefineConst(z, e) && z == s0.next_sym() && eval(m, e) == Some(
            Value::Bits(var_bits(m, v).subrange(f as int, f + len)),
        ) && nat_of(var_bits(m, v).subrange(f as int, f + len)) == (nat_of(var_bits(m, v)) / pow2(f as nat))
            % pow2(len as nat),
{
    assert(s0.decls()[v.id as int] == Some(Ty::BitVec(bl)));
    assert(Sym { id: (v.id as int) as u32 } == v);
    assert(m(v) is Bits);
    let x = var_bits(m, v);
    assert(x.len() == bl);
    if f == 0 && len as u32 == bl {
        assert(x.subrange(0, len as int) =~= x);
    }
    let e = extract_from(bl, SExp::Var(v), f as int, len);
    assert(slice_post(s0, s1, r, bl, SExp::Var(v), Val::I128(f), len));
    assert(fresh_def(s0, s1, r, e));
    assert(sort_of(s0.decls().push(None), e) == Some(Ty::BitVec(len as u32)));
    assert(m(v) == Value::Bits(x));
    assert(eval(m, SExp::Var(v)) == Some(Value::Bits(x)));
    if !(f == 0 && len as u32 == bl) {
        let hi = (f + len - 1) as u32;
        let lo = f as u32;
        assert(hi as int == f + len - 1 && lo as int == f);
        assert(e == SExp::Extract(hi, lo, Box::new(SExp::Var(v))));
    }
    assert(eval(m, e) == Some(Value::Bits(x.subrange(f as int, f + len))));
    assert(s1.decls()[s0.decls().len() as int] == Some(Ty::BitVec(len as u32)));
    let hi = x.subrange(f as int, bl as int);
    lemma_nat_of_split(x, f as int);
    lemma_nat_of_split(hi, len as int);
    assert(hi.subrange(0, len as int) =~= x.subrange(f as int, f + len));
    if f == 0 && len as u32 == bl {
        assert(x.subrange(0, len as int) =~= x);
    }
}

/// Adding a copy on top of `t - 1` copies adds the copied value times
/// `2^(w * (t - 1))`.
pub proof fn lemma_replicate_of_top(w: nat, v: nat, t: nat)
    requires
        t >= 1,
    ensures
        replicate_of(w, v, t) == replicate_of(w, v, (t - 1) as nat) + v * pow2(w * (t - 1) as nat),
    decreases t,
{
    lemma2_to64();
    if t == 1 {
        assert(w * (t - 1) as nat == 0) by (nonlinear_arith)
            requires
                t == 1,
        ;
        assert(replicate_of(w, v, 0) == 0);
        let pw = pow2(w) as int;
        assert(0 * pw == 0) by (nonlinear_arith);
        assert(replicate_of(w, v, 1) == v);
        assert(v * pow2(0) == v);
    } else {
        let a = (w * (t - 2)) as nat;
        let b = (w * (t - 1)) as nat;
        lemma_replicate_of_top(w, v, (t - 1) as nat);
        assert(a + w == b) by (nonlinear_arith)
            requires
                a == w * (t - 2),
                b == w * (t - 1),
                t >= 2,
        ;
        assert((t - 1) as nat - 1 == t - 2);
        lemma_pow2_adds(a, w);
        let r2 = replicate_of(w, v, (t - 2) as nat) as int;
        let r1 = replicate_of(w, v, (t - 1) as nat) as int;
        let pa = pow2(a) as int;
        let pw = pow2(w) as int;
        assert(r1 == r2 + v * pa);
        assert(replicate_of(w, v, t) == r1 * pw + v);
        assert(r1 == r2 * pw + v);
        assert((r2 + v * pa) * pw + v == (r2 * pw + v) + v * (pa * pw)) by (nonlinear_arith);
    }
}

/// The sort of `t >= 1` copies of a `w`-bit expression is `w * t` bits.
pub proof fn lemma_replicate_sort(decls: Seq<Option<Ty>>, e: SExp, w: u32, t: nat)
    requires
        sort_of(decls, e) == Some(Ty::BitVec(w)),
        t >= 1,
        w * t <= u32::MAX,
    ensures
        sort_of(decls, replicate_sexp(e, t)) == Some(Ty::BitVec((w * t) as u32)),
    decreases t,
{
    if t >= 2 {
        assert(w * (t - 1) <= w * t) by (nonlinear_arith)
            requires
                t >= 2,
        ;
        lemma_replicate_sort(decls, e, w, (t - 1) as nat);
        assert(w + w * (t - 1) == w * t) by (nonlinear_arith);
    }
}

/// Under a model where `e` has the bits `bs`, `t >= 1` copies of `e` have
/// `bs.len() * t` bits, bit `i` being bit `i % bs.len()` of `bs`, and the
/// value of `t` concatenated copies of the value of `bs`.
pub proof fn lemma_eval_replicate(m: spec_fn(Sym) -> Value, e: SExp, bs: Seq<bool>, t: nat)
    requires
        eval(m, e) == Some(Value::Bits(bs)),
        t >= 1,
    ensures
        eval(m, replicate_sexp(e, t)) matches Some(Value::Bits(x)) && x.len() == bs.len() * t && (forall|i: int|
            0 <= i < x.len() ==> #[trigger] x[i] == bs[i % (bs.len() as int)]) && nat_of(x) == replicate_of(
            bs.len(),
            nat_of(bs),
            t,
        ),
    decreases t,
{
    let w = bs.len();
    if t == 1 {
        assert forall|i: int| 0 <= i < bs.len() implies #[trigger] bs[i] == bs[i % (w as int)] by {
            lemma_small_mod(i as nat, w);
        }
        assert(replicate_of(w, nat_of(bs), 0) == 0);
    } else {
        lemma_eval_replicate(m, e, bs, (t - 1) as nat);
        let rr = bits_value(eval(m, replicate_sexp(e, (t - 1) as nat)));
        let x = rr + bs;
        assert(eval(m, replicate_sexp(e, t)) == Some(Value::Bits(x)));
        assert(w * (t - 1) + w == w * t) by (nonlinear_arith);
        assert forall|i: int| 0 <= i < x.len() implies #[trigger] x[i] == bs[i % (w as int)] by {
            if i >= rr.len() {
                let j = i - rr.len();
                lemma_fundamental_div_mod_converse(i, w as int, (t - 1) as int, j);
                assert(rr.len() == (t - 1) * w) by (nonlinear_arith)
                    requires
                        rr.len() == w * (t - 1),
                ;
            }
        }
        lemma_nat_of_append(rr, bs);
        lemma_replicate_of_top(w, nat_of(bs), t);
        assert(pow2(rr.len()) * nat_of(bs) == nat_of(bs) * pow2(rr.len())) by (nonlinear_arith);
    }
}

/// `t >= 1` copies of a symbolic `w`-bit bitvector, with `w * t` within the
/// widths the solver takes, are a fresh variable of `w * t` bits which,
/// whatever value the bitvector takes, holds that value `t` times over: bit
/// `i` is bit `i % w` of the bitvector, and the value is what the concrete
/// copying gives.
pub proof fn law_symbolic_replicate(
    s0: Solver,
    s1: Solver,
    r: Result<Val, ExecError>,
    v: Sym,
    t: i128,
    w: u32,
    m: spec_fn(Sym) -> Value,
)
    requires
        s0.sym_length(v) == Some(w),
        s0.room(1),
        1 <= t,
        w * t <= u32::MAX,
        fits(m, s0.decls()),
        replicate_post(s0, s1, r, Val::Symbolic(v), Val::I128(t)),
    ensures
        r == Ok::<Val, ExecError>(Val::Symbolic(s0.next_sym())),
        s1.sym_length(s0.next_sym()) == Some((w * t) as u32),
        s1.defs().last() matches SDef::DefineConst(z, e) && z == s0.next_sym() && {
            let x = bits_value(eval(m, e));
            &&& eval(m, e) == Some(Value::Bits(x))
            &&& x.len() == w * t
            &&& forall|i: int| 0 <= i < x.len() ==> #[trigger] x[i] == var_bits(m, v)[i % (w as int)]
            &&& nat_of(x) == replicate_of(w as nat, nat_of(var_bits(m, v)), t as nat)
        },
{
    assert(s0.decls()[v.id as int] == Some(Ty::BitVec(w)));
    assert(Sym { id: (v.id as int) as u32 } == v);
    assert(m(v) is Bits);
    let bs = var_bits(m, v);
    assert(m(v) == Value::Bits(bs));
    let e = replicate_sexp(SExp::Var(v), t as nat);
    assert(fresh_def(s0, s1, r, e));
    lemma_eval_replicate(m, SExp::Var(v), bs, t as nat);
    let decls = s0.decls().push(None);
    assert(decls[v.id as int] == Some(Ty::BitVec(w)));
    lemma_replicate_sort(decls, SExp::Var(v), w, t as nat);
    assert(s1.decls()[s0.decls().len() as int] == Some(Ty::BitVec((w * t) as u32)));
}

/// Writing `upd` at a symbolic index `n` of a vector replaces each element
/// `i` by a fresh variable which, whatever 128-bit value `n` takes, equals
/// `upd` where `n` is `i` and the old element `i` elsewhere: under `n = k`
/// the vector reads as the vector with element `k` updated.
pub proof fn law_symbolic_vector_update(
    s0: Solver,
    s1: Solver,
    r: Result<Val, ExecError>,
    xs: Seq<Val>,
    n: Sym,
    upd: Val,
    m: spec_fn(Sym) -> Value,
)
    requires
        update_symbolic_post(s0, s1, r, xs, n, upd),
        r is Ok,
        xs.len() <= u64::MAX,
        m(n) is Bits,
        var_bits(m, n).len() == 128,
    ensures
        r matches Ok(Val::Vector(w)) && w@.len() == xs.len() && (forall|i: int|
            #![trigger w@[i]]
            0 <= i < xs.len() ==> (s1.defs()[s0.defs().len() + i] matches SDef::DefineConst(z, e) && w@[i]
                == Val::Symbolic(z) && eval(m, e) == if nat_of(var_bits(m, n)) == i {
                eval(m, sexp_of_val(upd).unwrap())
            } else {
                eval(m, sexp_of_val(xs[i]).unwrap())
            })),
{
    let nb = var_bits(m, n);
    assert(m(n) == Value::Bits(nb));
    lemma_bits_of_nat_of(nb);
    let ue = sexp_of_val(upd);
    let d = updated_count(ue, xs);
    assert(d == xs.len());
    let es = update_sexps(n, ue.unwrap(), xs, d);
    if let Ok(Val::Vector(w)) = r {
        assert forall|i: int| #![trigger w@[i]] 0 <= i < xs.len() implies (s1.defs()[s0.defs().len() + i] matches SDef::DefineConst(z, e)
            && w@[i] == Val::Symbolic(z) && eval(m, e) == if nat_of(nb) == i {
            eval(m, ue.unwrap())
        } else {
            eval(m, sexp_of_val(xs[i]).unwrap())
        }) by {
            assert(s1.defs()[s0.defs().len() + i] == SDef::DefineConst(Sym { id: (s0.decls().len() + i) as u32 }, es[i]));
            lemma_nat_of_bits_of(i as nat, 128);
            lemma_pow2_strictly_increases(64, 128);
            lemma2_to64();
            assert((i as u64) as nat == i);
            let lit = bits_of((i as u64) as nat, 128);
            lemma_small_mod(i as nat, pow2(128));
            assert(eval(m, SExp::Var(n)) == Some(Value::Bits(nb)));
            assert(eval(m, SExp::Bits64(i as u64, 128)) == Some(Value::Bits(lit)));
            assert(eval(m, bin(BinOp::Eq, SExp::Var(n), SExp::Bits64(i as u64, 128))) == Some(Value::Bool(nb == lit)));
            if nat_of(nb) == i {
                assert(nb == lit);
            } else {
                assert(nb != lit);
            }
        }
    }
}

/// The bits that the model `m` gives an operand: those of a symbol, or of a
/// concrete bitvector.
pub open spec fn operand_bits(m: spec_fn(Sym) -> Value, x: Val) -> Seq<bool> {
    match lift_bits(x) {
        Some(e) => bits_value(eval(m, e)),
        None => Seq::empty(),
    }
}

/// The bits of `b` with the bits of `u` written over them from position
/// `k` upwards.
pub open spec fn spliced(b: Seq<bool>, k: int, u: Seq<bool>) -> Seq<bool> {
    Seq::new(b.len(), |i: int| if k <= i < k + u.len() { u[i - k] } else { b[i] })
}

/// `n < 2^n`.
pub proof fn lemma_below_pow2(n: nat)
    ensures
        n < pow2(n),
    decreases n,
{
    lemma2_to64();
    if n > 0 {
        lemma_below_pow2((n - 1) as nat);
        lemma_pow2_adds((n - 1) as nat, 1);
        lemma_pow2_pos((n - 1) as nat);
    }
}

/// A nonnegative 128-bit position, brought to `bl >= 1` bits as a shift
/// amount, keeps its value where it is below `2^bl`.
pub proof fn lemma_eval_fit_position(m: spec_fn(Sym) -> Value, bl: u32, k: i128)
    requires
        bl >= 1,
        0 <= k,
        k < pow2(bl as nat),
    ensures
        ({
            let z = bits_value(eval(m, fit_shift(bl, sexp_i128(k))));
            &&& eval(m, fit_shift(bl, sexp_i128(k))) == Some(Value::Bits(z))
            &&& z.len() == bl
            &&& nat_of(z) == k
        }),
{
    let lit = bits_of(k as nat, 128);
    assert(sexp_i128(k) == SExp::Bits(lit));
    assert(eval(m, SExp::Bits(lit)) == Some(Value::Bits(lit)));
    lemma2_to64();
    crate::bits::lemma_pow2_127();
    if bl < 128 {
        assert(lit.subrange(0, bl as int) =~= bits_of(k as nat, bl as nat));
        lemma_nat_of_bits_of(k as nat, bl as nat);
        lemma_small_mod(k as nat, pow2(bl as nat));
        assert(fit_shift(bl, SExp::Bits(lit)) == SExp::Extract((bl - 1) as u32, 0, Box::new(SExp::Bits(lit))));
    } else {
        lemma_nat_of_bits_of(k as nat, 128);
        lemma_small_mod(k as nat, pow2(128));
        if bl > 128 {
            let zs = Seq::new((bl - 128) as nat, |i: int| false);
            lemma_nat_of_append(lit, zs);
            lemma_nat_of_zeros((bl - 128) as nat);
            assert(eval(m, fit_shift(bl, SExp::Bits(lit))) == Some(Value::Bits(lit + zs)));
        }
    }
}

/// Under a model, the splice of the `ul` bits `u` into the `bl` bits `b` at
/// a position of value `k` (`None` for zero) is `b` with `u` written over it
/// from bit `k`.
pub proof fn lemma_eval_splice(
    m: spec_fn(Sym) -> Value,
    bl: u32,
    ul: u32,
    be: SExp,
    p: Option<SExp>,
    ue: SExp,
    b: Seq<bool>,
    u: Seq<bool>,
    k: int,
)
    requires
        eval(m, be) == Some(Value::Bits(b)),
        b.len() == bl,
        eval(m, ue) == Some(Value::Bits(u)),
        u.len() == ul,
        0 <= k,
        k + ul <= bl,
        p is None ==> k == 0,
        p matches Some(pe) ==> (bl >= 1 && {
            let sh = bits_value(eval(m, fit_shift(bl, pe)));
            &&& eval(m, fit_shift(bl, pe)) == Some(Value::Bits(sh))
            &&& sh.len() == bl
            &&& nat_of(sh) == k
        }),
    ensures
        eval(m, splice_sexp(bl, ul, be, p, ue)) == Some(Value::Bits(spliced(b, k, u))),
{
    let mb = Seq::new(bl as nat, |i: int| i < ul);
    let mask = low_mask(bl, ul);
    assert(eval(m, mask) == Some(Value::Bits(mb)));
    let zs = Seq::new((bl - ul) as nat, |i: int| false);
    let ub = if bl == ul { u } else { u + zs };
    let upd = widened(bl, ul, ue);
    assert(eval(m, upd) == Some(Value::Bits(ub)));
    assert(ub.len() == bl);
    match p {
        None => {
            let nm = Seq::new(bl as nat, |i: int| !mb[i]);
            assert(eval(m, un(UnOp::Bvnot, mask)) == Some(Value::Bits(nm)));
            let kept = Seq::new(bl as nat, |i: int| b[i] && nm[i]);
            assert(eval(m, bin(BinOp::Bvand, be, un(UnOp::Bvnot, mask))) == Some(Value::Bits(kept)));
            let res = Seq::new(bl as nat, |i: int| kept[i] || ub[i]);
            assert(eval(m, splice_sexp(bl, ul, be, p, ue)) == Some(Value::Bits(res)));
            assert(res =~= spliced(b, k, u));
        },
        Some(pe) => {
            let shift = fit_shift(bl, pe);
            let sh = bits_value(eval(m, shift));
            assert(eval(m, shift) == Some(Value::Bits(sh)));
            let y = nat_of(sh) as int;
            let sm = Seq::new(bl as nat, |i: int| i >= y && mb[i - y]);
            assert(eval(m, bin(BinOp::Bvshl, mask, shift)) == Some(Value::Bits(sm)));
            let nm = Seq::new(bl as nat, |i: int| !sm[i]);
            assert(eval(m, un(UnOp::Bvnot, bin(BinOp::Bvshl, mask, shift))) == Some(Value::Bits(nm)));
            let kept = Seq::new(bl as nat, |i: int| b[i] && nm[i]);
            assert(eval(m, bin(BinOp::Bvand, be, un(UnOp::Bvnot, bin(BinOp::Bvshl, mask, shift)))) == Some(
                Value::Bits(kept),
            ));
            let su = Seq::new(bl as nat, |i: int| i >= y && ub[i - y]);
            assert(eval(m, bin(BinOp::Bvshl, upd, shift)) == Some(Value::Bits(su)));
            let res = Seq::new(bl as nat, |i: int| kept[i] || su[i]);
            assert(eval(m, splice_sexp(bl, ul, be, p, ue)) == Some(Value::Bits(res)));
            assert(res =~= spliced(b, k, u));
        },
    }
}

/// The value of a splice is what the concrete `set_slice` computes from the
/// values of its operands.
pub proof fn lemma_spliced_value(b: Seq<bool>, k: int, u: Seq<bool>)
    requires
        0 <= k,
        k + u.len() <= b.len(),
    ensures
        nat_of(spliced(b, k, u)) == set_slice_of(b.len(), nat_of(b), k as nat, u.len(), nat_of(u)),
{
    let e = k + u.len();
    let lo = b.subrange(0, k);
    let hi = b.subrange(e, b.len() as int);
    let x = spliced(b, k, u);
    assert(x =~= lo + (u + hi));
    lemma_nat_of_append(lo, u + hi);
    lemma_nat_of_append(u, hi);
    lemma_nat_of_split(b, k);
    lemma_nat_of_split(b, e);
    lemma_pow2_adds(k as nat, u.len());
    lemma_nat_of_bound(x);
    let pk = pow2(k as nat) as int;
    let pu = pow2(u.len()) as int;
    let sum = nat_of(lo) + pk * (nat_of(u) + pu * nat_of(hi));
    assert(sum == nat_of(lo) + nat_of(u) * pk + nat_of(hi) * (pk * pu)) by (nonlinear_arith)
        requires
            sum == nat_of(lo) + pk * (nat_of(u) + pu * nat_of(hi)),
    ;
    lemma_small_mod(nat_of(x), pow2(b.len()));
}

/// Writing `update` (`ul` bits) over a bitvector `bits` of `bl` bits from a
/// concrete position `k` with `k + ul <= bl`, where one of them is symbolic,
/// defines a fresh variable of `bl` bits which, whatever values the symbols
/// take, is `bits` with `update` written from bit `k` upwards: its value is
/// the one the concrete `set_slice` computes, so that reading back bits `k`
/// to `k + ul - 1` gives `update` and the other bits are those of `bits`.
pub proof fn law_symbolic_set_slice(
    s0: Solver,
    s1: Solver,
    r: Result<Val, ExecError>,
    bits: Val,
    k: i128,
    update: Val,
    bl: u32,
    ul: u32,
    m: spec_fn(Sym) -> Value,
)
    requires
        set_slice_post(s0, s1, r, bits, Val::I128(k), update, true),
        !(bits is Bits && update is Bits),
        val_length(s0, bits) == Some(bl),
        val_length(s0, update) == Some(ul),
        0 <= k,
        k + ul <= bl,
        s0.room(1),
        fits(m, s0.decls()),
    ensures
        r == Ok::<Val, ExecError>(Val::Symbolic(s0.next_sym())),
        s1.sym_length(s0.next_sym()) == Some(bl),
        s1.defs().last() matches SDef::DefineConst(z, e) && z == s0.next_sym() && {
            let x = bits_value(eval(m, e));
            let b = operand_bits(m, bits);
            let u = operand_bits(m, update);
            &&& eval(m, e) == Some(Value::Bits(x))
            &&& x.len() == bl
            &&& forall|i: int| 0 <= i < bl ==> #[trigger] x[i] == if k <= i < k + ul { u[i - k] } else { b[i] }
            &&& nat_of(x) == set_slice_of(bl as nat, nat_of(b), k as nat, ul as nat, nat_of(u))
        },
{
    lemma_operand_bits(m, s0, bits, bl);
    lemma_operand_bits(m, s0, update, ul);
    let b = operand_bits(m, bits);
    let u = operand_bits(m, update);
    let be = lift_bits(bits).unwrap();
    let ue = lift_bits(update).unwrap();
    let pos = position_i128(Val::I128(k));
    let p = pos.unwrap();
    if k != 0 {
        lemma_below_pow2(bl as nat);
        lemma_eval_fit_position(m, bl, k);
    }
    lemma_eval_splice(m, bl, ul, be, p, ue, b, u, k as int);
    lemma_spliced_value(b, k as int, u);
    let e = splice_sexp(bl, ul, be, p, ue);
    assert(fresh_def(s0, s1, r, e));
    reveal_with_fuel(sort_of, 3);
    assert(sort_of(s0.decls().push(None), be) == Some(Ty::BitVec(bl)));
    assert(s1.decls()[s0.decls().len() as int] == Some(Ty::BitVec(bl)));
}

/// The bits a model gives a bitvector operand of `w` bits are `w` bits.
pub proof fn lemma_operand_bits(m: spec_fn(Sym) -> Value, s: Solver, x: Val, w: u32)
    requires
        val_length(s, x) == Some(w),
        fits(m, s.decls()),
    ensures
        lift_bits(x) matches Some(e) && eval(m, e) == Some(Value::Bits(operand_bits(m, x))),
        operand_bits(m, x).len() == w,
{
    match x {
        Val::Symbolic(v) => {
            assert(s.decls()[v.id as int] == Some(Ty::BitVec(w)));
            assert(Sym { id: (v.id as int) as u32 } == v);
            assert(m(v) is Bits);
        },
        _ => {},
    }
}

/// A bitvector position of value below `2^bl`, brought to `bl >= 1` bits as
/// a shift amount, keeps its value: a 128-bit position, or a narrower one
/// where `bl` is within its width.
pub proof fn lemma_eval_fit(m: spec_fn(Sym) -> Value, bl: u32, pe: SExp, z: Seq<bool>)
    requires
        eval(m, pe) == Some(Value::Bits(z)),
        bl >= 1,
        z.len() == 128 || (bl <= z.len() && bl < 128),
        nat_of(z) < pow2(bl as nat),
    ensures
        ({
            let sh = bits_value(eval(m, fit_shift(bl, pe)));
            &&& eval(m, fit_shift(bl, pe)) == Some(Value::Bits(sh))
            &&& sh.len() == bl
            &&& nat_of(sh) == nat_of(z)
        }),
{
    let f = fit_shift(bl, pe);
    if bl < 128 {
        lemma_nat_of_split(z, bl as int);
        lemma_small_mod(nat_of(z), pow2(bl as nat));
        assert(f == SExp::Extract((bl - 1) as u32, 0, Box::new(pe)));
        assert(eval(m, f) == Some(Value::Bits(z.subrange(0, bl as int))));
        assert(nat_of(z.subrange(0, bl as int)) == nat_of(z));
    } else if bl > 128 {
        let zs = Seq::new((bl - 128) as nat, |i: int| false);
        lemma_nat_of_append(z, zs);
        lemma_nat_of_zeros((bl - 128) as nat);
        assert(pow2(z.len()) * nat_of(zs) == 0) by (nonlinear_arith)
            requires
                nat_of(zs) == 0,
        ;
        assert(f == SExp::ZeroExtend((bl - 128) as u32, Box::new(pe)));
        assert(eval(m, f) == Some(Value::Bits(z + zs)));
        assert(nat_of(z + zs) == nat_of(z));
    } else {
        assert(f == pe);
    }
}

/// The bits of an integer operand (a bit position, or the integer that
/// `set_slice_int` writes into): the two's complement bits of a concrete
/// 128-bit or 64-bit integer, or those the model gives a symbol.
pub open spec fn int_bits(m: spec_fn(Sym) -> Value, n: Val) -> Seq<bool> {
    match n {
        Val::I128(k) => bits_of(twos(k as int, 128), 128),
        Val::I64(k) => bits_of(twos(k as int, 64), 64),
        Val::Symbolic(f) => var_bits(m, f),
        _ => Seq::empty(),
    }
}

/// Writing `update` (`ul` bits) over a bitvector `bits` of `bl` bits from a
/// position `n` (of 128-bit integer sort where `wide`, of 64-bit sort
/// otherwise; concrete, or a symbol of 128 bits), where some operand is
/// symbolic, defines a fresh variable of `bl` bits which, whatever values the
/// symbols take that put the position `k` at `k + ul <= bl`, is `bits` with
/// `update` written from bit `k` upwards, of the value the concrete
/// `set_slice` computes.
pub proof fn law_symbolic_set_slice_at(
    s0: Solver,
    s1: Solver,
    r: Result<Val, ExecError>,
    bits: Val,
    n: Val,
    update: Val,
    wide: bool,
    bl: u32,
    ul: u32,
    m: spec_fn(Sym) -> Value,
)
    requires
        set_slice_ok(s0, bits, n, update, wide),
        set_slice_post(s0, s1, r, bits, n, update, wide),
        !set_slice_concrete(bits, n, update, wide),
        val_length(s0, bits) == Some(bl),
        val_length(s0, update) == Some(ul),
        match n {
            Val::I128(k) => wide && 0 <= k,
            Val::I64(k) => !wide && 0 <= k && (k != 0 ==> bl <= 64),
            Val::Symbolic(f) => m(f) is Bits && var_bits(m, f).len() == 128,
            _ => false,
        },
        nat_of(int_bits(m, n)) + ul <= bl,
        s0.room(1),
        fits(m, s0.decls()),
    ensures
        r == Ok::<Val, ExecError>(Val::Symbolic(s0.next_sym())),
        s1.sym_length(s0.next_sym()) == Some(bl),
        s1.defs().last() matches SDef::DefineConst(z, e) && z == s0.next_sym() && {
            let x = bits_value(eval(m, e));
            let b = operand_bits(m, bits);
            let u = operand_bits(m, update);
            let k = nat_of(int_bits(m, n)) as int;
            &&& eval(m, e) == Some(Value::Bits(x))
            &&& x.len() == bl
            &&& forall|i: int| 0 <= i < bl ==> #[trigger] x[i] == if k <= i < k + ul { u[i - k] } else { b[i] }
            &&& nat_of(x) == set_slice_of(bl as nat, nat_of(b), k as nat, ul as nat, nat_of(u))
        },
{
    lemma_operand_bits(m, s0, bits, bl);
    lemma_operand_bits(m, s0, update, ul);
    let b = operand_bits(m, bits);
    let u = operand_bits(m, update);
    let be = lift_bits(bits).unwrap();
    let ue = lift_bits(update).unwrap();
    let pos = if wide { position_i128(n) } else { position_i64(n) };
    let p = pos.unwrap();
    let z = int_bits(m, n);
    let k = nat_of(z);
    lemma_below_pow2(bl as nat);
    lemma2_to64();
    match n {
        Val::I128(c) => {
            lemma_nat_of_bits_of(c as nat, 128);
            crate::bits::lemma_pow2_127();
            lemma_small_mod(c as nat, pow2(128));
            assert(k == c);
        },
        Val::I64(c) => {
            lemma_nat_of_bits_of(c as nat, 64);
            lemma_small_mod(c as nat, pow2(64));
            assert(k == c);
        },
        _ => {},
    }
    if p is Some {
        let pe = p.unwrap();
        assert(eval(m, pe) == Some(Value::Bits(z)));
        lemma_eval_fit(m, bl, pe, z);
    }
    lemma_eval_splice(m, bl, ul, be, p, ue, b, u, k as int);
    lemma_spliced_value(b, k as int, u);
    let e = splice_sexp(bl, ul, be, p, ue);
    assert(fresh_def(s0, s1, r, e));
    reveal_with_fuel(sort_of, 3);
    assert(sort_of(s0.decls().push(None), be) == Some(Ty::BitVec(bl)));
    assert(s1.decls()[s0.decls().len() as int] == Some(Ty::BitVec(bl)));
}

/// A slice of `len` bits of a symbolic bitvector of `bl` bits from a position
/// given by a 128-bit symbol is a fresh variable of `len` bits which, whatever
/// values the symbols take that put the position `f` at `f + len <= bl`,
/// holds bits `f` to `f + len - 1` of the bitvector.
pub proof fn law_symbolic_slice_from_symbol(
    s0: Solver,
    s1: Solver,
    r: Result<Val, ExecError>,
    v: Sym,
    f: Sym,
    len: i128,
    bl: u32,
    m: spec_fn(Sym) -> Value,
)
    requires
        s0.sym_length(v) == Some(bl),
        s0.sym_length(f) == Some(128u32),
        s0.room(1),
        1 <= len,
        fits(m, s0.decls()),
        nat_of(var_bits(m, f)) + len <= bl,
        slice_internal_post(s0, s1, r, Val::Symbolic(v), Val::Symbolic(f), Val::I128(len)),
    ensures
        r == Ok::<Val, ExecError>(Val::Symbolic(s0.next_sym())),
        s1.sym_length(s0.next_sym()) == Some(len as u32),
        s1.defs().last() matches SDef::DefineConst(z, e) && z == s0.next_sym() && {
            let st = nat_of(var_bits(m, f)) as int;
            &&& eval(m, e) == Some(Value::Bits(var_bits(m, v).subrange(st, st + len)))
            &&& nat_of(var_bits(m, v).subrange(st, st + len)) == (nat_of(var_bits(m, v)) / pow2(st as nat)) % pow2(
                len as nat,
            )
        },
{
    lemma_operand_bits(m, s0, Val::Symbolic(v), bl);
    lemma_operand_bits(m, s0, Val::Symbolic(f), 128);
    let x = var_bits(m, v);
    let fz = var_bits(m, f);
    let st = nat_of(fz) as int;
    lemma_below_pow2(bl as nat);
    assert(eval(m, SExp::Var(f)) == Some(Value::Bits(fz)));
    assert(eval(m, SExp::Var(v)) == Some(Value::Bits(x)));
    lemma_eval_fit(m, bl, SExp::Var(f), fz);
    let sh = fit_shift(bl, SExp::Var(f));
    let shifted = Seq::new(bl as nat, |i: int| i + st < bl && x[i + st]);
    assert(eval(m, bin(BinOp::Bvlshr, SExp::Var(v), sh)) == Some(Value::Bits(shifted)));
    let e = SExp::Extract(((len as u32) - 1) as u32, 0, Box::new(bin(BinOp::Bvlshr, SExp::Var(v), sh)));
    assert(slice_post(s0, s1, r, bl, SExp::Var(v), Val::Symbolic(f), len));
    assert(fresh_def(s0, s1, r, e));
    assert(shifted.subrange(0, len as int) =~= x.subrange(st, st + len));
    assert(eval(m, e) == Some(Value::Bits(x.subrange(st, st + len))));
    assert(sort_of(s0.decls().push(None), e) == Some(Ty::BitVec(len as u32)));
    assert(s1.decls()[s0.decls().len() as int] == Some(Ty::BitVec(len as u32)));
    let hi = x.subrange(st, bl as int);
    lemma_nat_of_split(x, st);
    lemma_nat_of_split(hi, len as int);
    assert(hi.subrange(0, len as int) =~= x.subrange(st, st + len));
}

/// Writing `update` (`ul` bits) over the 128-bit two's complement form of an
/// integer `number` from a position `n` (concrete, or a 128-bit symbol),
/// where some operand is symbolic, defines a fresh 128-bit variable which,
/// whatever values the symbols take that put the position `k` at
/// `k + ul <= 128`, is `number` with `update` written from bit `k` upwards.
pub proof fn law_symbolic_set_slice_int(
    s0: Solver,
    s1: Solver,
    r: Result<Val, ExecError>,
    number: Val,
    n: Val,
    update: Val,
    ul: u32,
    m: spec_fn(Sym) -> Value,
)
    requires
        set_slice_int_ok(s0, n, update),
        set_slice_int_post(s0, s1, r, number, n, update),
        !(number is I128 && n is I128 && update is Bits),
        match number {
            Val::I128(_) => true,
            Val::Symbolic(v) => s0.sym_length(v) == Some(128u32),
            _ => false,
        },
        match n {
            Val::I128(k) => 0 <= k,
            Val::Symbolic(f) => m(f) is Bits && var_bits(m, f).len() == 128,
            _ => false,
        },
        val_length(s0, update) == Some(ul),
        nat_of(int_bits(m, n)) + ul <= 128,
        s0.room(1),
        fits(m, s0.decls()),
    ensures
        r == Ok::<Val, ExecError>(Val::Symbolic(s0.next_sym())),
        s1.sym_length(s0.next_sym()) == Some(128u32),
        s1.defs().last() matches SDef::DefineConst(z, e) && z == s0.next_sym() && {
            let x = bits_value(eval(m, e));
            let b = int_bits(m, number);
            let u = operand_bits(m, update);
            let k = nat_of(int_bits(m, n)) as int;
            &&& eval(m, e) == Some(Value::Bits(x))
            &&& x.len() == 128
            &&& forall|i: int| 0 <= i < 128 ==> #[trigger] x[i] == if k <= i < k + ul { u[i - k] } else { b[i] }
            &&& nat_of(x) == set_slice_of(128, nat_of(b), k as nat, ul as nat, nat_of(u))
        },
{
    lemma_operand_bits(m, s0, update, ul);
    let b = int_bits(m, number);
    let u = operand_bits(m, update);
    let be = lift_i128(number).unwrap();
    if let Val::Symbolic(v) = number {
        lemma_operand_bits(m, s0, number, 128);
    }
    assert(eval(m, be) == Some(Value::Bits(b)));
    assert(b.len() == 128);
    let ue = lift_bits(update).unwrap();
    let p = position_i128(n).unwrap();
    let z = int_bits(m, n);
    let k = nat_of(z);
    lemma_below_pow2(128);
    lemma2_to64();
    if let Val::I128(c) = n {
        lemma_nat_of_bits_of(c as nat, 128);
        crate::bits::lemma_pow2_127();
        lemma_small_mod(c as nat, pow2(128));
        assert(k == c);
    }
    if p is Some {
        let pe = p.unwrap();
        assert(eval(m, pe) == Some(Value::Bits(z)));
        lemma_eval_fit(m, 128, pe, z);
    }
    lemma_eval_splice(m, 128, ul, be, p, ue, b, u, k as int);
    lemma_spliced_value(b, k as int, u);
    let e = splice_sexp(128, ul, be, p, ue);
    assert(fresh_def(s0, s1, r, e));
    reveal_with_fuel(sort_of, 3);
    assert(sort_of(s0.decls().push(None), be) == Some(Ty::BitVec(128)));
    assert(s1.decls()[s0.decls().len() as int] == Some(Ty::BitVec(128)));
}

/// The bits of a symbolic bitvector from `l` up to `h` inclusive, `l <= h`
/// within its `bl` bits, are a fresh variable of `h - l + 1` bits which,
/// whatever value the bitvector takes, holds those bits: its value is the
/// bitvector's divided by `2^l`, modulo `2^(h - l + 1)`, as the concrete
/// subrange computes it.
pub proof fn law_symbolic_subrange(
    s0: Solver,
    s1: Solver,
    r: Result<Val, ExecError>,
    v: Sym,
    h: i128,
    l: i128,
    bl: u32,
    m: spec_fn(Sym) -> Value,
)
    requires
        s0.sym_length(v) == Some(bl),
        0 <= l <= h < bl,
        s0.room(1),
        fits(m, s0.decls()),
        subrange_internal_post(s0, s1, r, Val::Symbolic(v), Val::I128(h), Val::I128(l)),
    ensures
        r == Ok::<Val, ExecError>(Val::Symbolic(s0.next_sym())),
        s1.sym_length(s0.next_sym()) == Some((h - l + 1) as u32),
        s1.defs().last() matches SDef::DefineConst(z, e) && z == s0.next_sym() && eval(m, e) == Some(
            Value::Bits(var_bits(m, v).subrange(l as int, h + 1)),
        ) && nat_of(var_bits(m, v).subrange(l as int, h + 1)) == (nat_of(var_bits(m, v)) / pow2(l as nat)) % pow2(
            (h - l + 1) as nat,
        ),
{
    lemma_operand_bits(m, s0, Val::Symbolic(v), bl);
    let x = var_bits(m, v);
    assert(eval(m, SExp::Var(v)) == Some(Value::Bits(x)));
    let e = SExp::Extract(h as u32, l as u32, Box::new(SExp::Var(v)));
    assert(fresh_def(s0, s1, r, e));
    assert(eval(m, e) == Some(Value::Bits(x.subrange(l as int, h + 1))));
    assert(s1.decls()[s0.decls().len() as int] == Some(Ty::BitVec((h - l + 1) as u32)));
    let hi = x.subrange(l as int, bl as int);
    lemma_nat_of_split(x, l as int);
    lemma_nat_of_split(hi, h - l + 1);
    assert(hi.subrange(0, h - l + 1) =~= x.subrange(l as int, h + 1));
}

/// The `n >= 1` most significant bits of a symbolic bitvector of `o >= n`
/// bits are a fresh variable of `n` bits which, whatever value the bitvector
/// takes, holds its top `n` bits: the value divided by `2^(o - n)`.
pub proof fn law_symbolic_truncate_lsb(
    s0: Solver,
    s1: Solver,
    r: Result<Val, ExecError>,
    v: Sym,
    n: i128,
    o: u32,
    m: spec_fn(Sym) -> Value,
)
    requires
        s0.sym_length(v) == Some(o),
        1 <= n <= o,
        s0.room(1),
        fits(m, s0.decls()),
        truncate_lsb_post(s0, s1, r, Val::Symbolic(v), Val::I128(n)),
    ensures
        r == Ok::<Val, ExecError>(Val::Symbolic(s0.next_sym())),
        s1.sym_length(s0.next_sym()) == Some(n as u32),
        s1.defs().last() matches SDef::DefineConst(z, e) && z == s0.next_sym() && eval(m, e) == Some(
            Value::Bits(var_bits(m, v).subrange(o - n, o as int)),
        ) && nat_of(var_bits(m, v).subrange(o - n, o as int)) == nat_of(var_bits(m, v)) / pow2((o - n) as nat),
{
    lemma_operand_bits(m, s0, Val::Symbolic(v), o);
    let x = var_bits(m, v);
    assert(eval(m, SExp::Var(v)) == Some(Value::Bits(x)));
    let e = SExp::Extract((o - 1) as u32, (o - (n as u32)) as u32, Box::new(SExp::Var(v)));
    assert(fresh_def(s0, s1, r, e));
    assert(eval(m, e) == Some(Value::Bits(x.subrange(o - n, o as int))));
    assert(s1.decls()[s0.decls().len() as int] == Some(Ty::BitVec(n as u32)));
    lemma_nat_of_split(x, o - n);
}

/// `len >= 1` bits of a symbolic 128-bit integer from a concrete position
/// `f` with `f + len <= 128` are a fresh variable of `len` bits which,
/// whatever value the integer takes, holds its bits `f` to `f + len - 1`.
pub proof fn law_symbolic_get_slice_int(
    s0: Solver,
    s1: Solver,
    r: Result<Val, ExecError>,
    len: i128,
    v: Sym,
    f: i128,
    m: spec_fn(Sym) -> Value,
)
    requires
        s0.sym_length(v) == Some(128u32),
        0 <= f,
        1 <= len,
        f + len <= 128,
        s0.room(1),
        fits(m, s0.decls()),
        get_slice_int_post(s0, s1, r, Val::I128(len), Val::Symbolic(v), Val::I128(f)),
    ensures
        r == Ok::<Val, ExecError>(Val::Symbolic(s0.next_sym())),
        s1.sym_length(s0.next_sym()) == Some(len as u32),
        s1.defs().last() matches SDef::DefineConst(z, e) && z == s0.next_sym() && eval(m, e) == Some(
            Value::Bits(var_bits(m, v).subrange(f as int, f + len)),
        ),
{
    lemma_operand_bits(m, s0, Val::Symbolic(v), 128);
    let x = var_bits(m, v);
    assert(eval(m, SExp::Var(v)) == Some(Value::Bits(x)));
    let e = extract_from(128, SExp::Var(v), f as int, len);
    assert(slice_post(s0, s1, r, 128, SExp::Var(v), Val::I128(f), len));
    assert(fresh_def(s0, s1, r, e));
    if f == 0 && len as u32 == 128 {
        assert(x.subrange(0, len as int) =~= x);
    } else {
        let hi = (f + len - 1) as u32;
        let lo = f as u32;
        assert(e == SExp::Extract(hi, lo, Box::new(SExp::Var(v))));
    }
    assert(eval(m, e) == Some(Value::Bits(x.subrange(f as int, f + len))));
    assert(s1.decls()[s0.decls().len() as int] == Some(Ty::BitVec(len as u32)));
}

/// The top bit of a bitvector is set exactly where its value is at least
/// `2^(len - 1)`.
pub proof fn lemma_top_bit(b: Seq<bool>)
    requires
        b.len() >= 1,
    ensures
        b[b.len() - 1] <==> nat_of(b) >= pow2((b.len() - 1) as nat),
{
    lemma_nat_of_bound(b.drop_last());
}

/// All-ones bits are worth `2^n - 1`.
pub proof fn lemma_nat_of_ones(n: nat)
    ensures
        nat_of(Seq::new(n, |i: int| true)) + 1 == pow2(n),
    decreases n,
{
    lemma2_to64();
    if n > 0 {
        assert(Seq::new(n, |i: int| true).drop_last() =~= Seq::new((n - 1) as nat, |i: int| true));
        lemma_nat_of_ones((n - 1) as nat);
        lemma_pow2_adds((n - 1) as nat, 1);
    }
}

/// Extending a bitvector operand of `o` bits (a symbol, or a concrete
/// bitvector extended beyond 64 bits) to `n >= o` bits gives a fresh variable
/// of `n` bits which, whatever values the symbols take, holds the operand's
/// bits and above them zeros (`zero_extend`) or copies of its top bit
/// (`sign_extend`, for `o >= 1`): its value is the unsigned or the signed
/// extension that the concrete operation computes.
pub proof fn law_symbolic_extension(
    s0: Solver,
    s1: Solver,
    r: Result<Val, ExecError>,
    bits: Val,
    n: i128,
    sign: bool,
    name: &'static str,
    o: u32,
    m: spec_fn(Sym) -> Value,
)
    requires
        val_length(s0, bits) == Some(o),
        bits matches Val::Bits(c) ==> c.wf() && n > 64,
        o <= n <= u32::MAX,
        sign ==> o >= 1,
        s0.room(1),
        fits(m, s0.decls()),
        extension_post(s0, s1, r, bits, Val::I128(n), sign, name),
    ensures
        r == Ok::<Val, ExecError>(Val::Symbolic(s0.next_sym())),
        s1.defs().last() matches SDef::DefineConst(z, e) && z == s0.next_sym() && {
            let b = operand_bits(m, bits);
            let x = bits_value(eval(m, e));
            &&& eval(m, e) == Some(Value::Bits(x))
            &&& x.len() == n
            &&& forall|i: int| 0 <= i < n ==> #[trigger] x[i] == if i < o { b[i] } else { sign && b[o - 1] }
            &&& nat_of(x) == extended_value(sign, o as nat, nat_of(b), n as nat)
        },
{
    lemma_operand_bits(m, s0, bits, o);
    let b = operand_bits(m, bits);
    let be = lift_bits(bits).unwrap();
    let k = ((n as u32) - o) as u32;
    let e = extend_sexp(sign, k, be);
    assert(n as u32 == n);
    match bits {
        Val::Bits(c) => {
            assert(o == c.width());
            assert(be == sexp_bits(c));
        },
        Val::Symbolic(v) => {
            assert(s0.sym_length(v) == Some(o));
        },
        _ => {},
    }
    assert(fresh_def(s0, s1, r, e));
    let fill = Seq::new(k as nat, |i: int| sign && b[o - 1]);
    let x = b + fill;
    assert(eval(m, be) == Some(Value::Bits(b)));
    if sign {
        assert(b.last() == b[o - 1]);
        assert(Seq::new(k as nat, |i: int| b.last()) =~= fill);
    } else {
        assert(Seq::new(k as nat, |i: int| false) =~= fill);
    }
    assert(eval(m, e) == Some(Value::Bits(x)));
    assert(x.len() == n);
    assert forall|i: int| 0 <= i < n implies #[trigger] x[i] == if i < o { b[i] } else { sign && b[o - 1] } by {}
    lemma_nat_of_append(b, fill);
    lemma_nat_of_bound(b);
    let v = nat_of(b);
    let po = pow2(o as nat) as int;
    let pk = pow2(k as nat) as int;
    if sign && b[o - 1] {
        assert(fill =~= Seq::new(k as nat, |i: int| true));
        lemma_nat_of_ones(k as nat);
        lemma_pow2_adds(o as nat, k as nat);
        lemma_top_bit(b);
        assert(po * (pk - 1) == po * pk - po) by (nonlinear_arith);
        assert(nat_of(x) == v + pow2(n as nat) - pow2(o as nat));
    } else {
        assert(fill =~= Seq::new(k as nat, |i: int| false));
        lemma_nat_of_zeros(k as nat);
        if sign {
            lemma_top_bit(b);
        }
        assert(po * 0 == 0);
        assert(nat_of(x) == v);
    }
}

/// Appending two bitvector operands, one of them symbolic (or both concrete
/// beyond 64 bits together), gives a fresh variable which, whatever values the
/// symbols take, holds the bits of `rhs` below those of `lhs`: its value is
/// `lhs * 2^|rhs| + rhs`, as the concrete append computes it.
pub proof fn law_symbolic_append(
    s0: Solver,
    s1: Solver,
    r: Result<Val, ExecError>,
    lhs: Val,
    rhs: Val,
    wl: u32,
    wr: u32,
    m: spec_fn(Sym) -> Value,
)
    requires
        val_length(s0, lhs) == Some(wl),
        val_length(s0, rhs) == Some(wr),
        !(lhs is Bits && rhs is Bits && wl + wr <= 64),
        s0.room(1),
        fits(m, s0.decls()),
        append_post(s0, s1, r, lhs, rhs),
    ensures
        r == Ok::<Val, ExecError>(Val::Symbolic(s0.next_sym())),
        s1.defs().last() matches SDef::DefineConst(z, e) && z == s0.next_sym() && {
            let a = operand_bits(m, lhs);
            let b = operand_bits(m, rhs);
            &&& eval(m, e) == Some(Value::Bits(b + a))
            &&& nat_of(b + a) == nat_of(a) * pow2(wr as nat) + nat_of(b)
        },
{
    lemma_operand_bits(m, s0, lhs, wl);
    lemma_operand_bits(m, s0, rhs, wr);
    let a = operand_bits(m, lhs);
    let b = operand_bits(m, rhs);
    if rhs is Bits && wr == 0 {
        assert(b + a =~= a);
    }
    if lhs is Bits && wl == 0 {
        assert(a.len() == 0);
        assert(b + a =~= b);
    }
    lemma_nat_of_append(b, a);
    if a.len() == 0 {
        assert(nat_of(a) == 0);
    }
    assert(pow2(wr as nat) * nat_of(a) == nat_of(a) * pow2(wr as nat)) by (nonlinear_arith);
}

/// Bit `i` of a symbolic bitvector of `len >= 1` bits, at an index that is
/// concrete or a 128-bit symbol, is a fresh one-bit variable which, whatever
/// values the symbols take that put the index `i` below `len`, holds bit `i`
/// of the bitvector: its value divided by `2^i`, modulo 2.
pub proof fn law_symbolic_access(
    s0: Solver,
    s1: Solver,
    r: Result<Val, ExecError>,
    v: Sym,
    n: Val,
    len: u32,
    m: spec_fn(Sym) -> Value,
)
    requires
        s0.sym_length(v) == Some(len),
        len >= 1,
        match n {
            Val::I128(k) => 0 <= k,
            Val::Symbolic(f) => m(f) is Bits && var_bits(m, f).len() == 128,
            _ => false,
        },
        nat_of(int_bits(m, n)) < len,
        s0.room(1),
        fits(m, s0.decls()),
        access_symbolic_post(s0, s1, r, v, n),
    ensures
        r == Ok::<Val, ExecError>(Val::Symbolic(s0.next_sym())),
        s1.sym_length(s0.next_sym()) == Some(1u32),
        s1.defs().last() matches SDef::DefineConst(z, e) && z == s0.next_sym() && {
            let x = var_bits(m, v);
            let i = nat_of(int_bits(m, n)) as int;
            &&& eval(m, e) == Some(Value::Bits(seq![x[i]]))
            &&& x[i] <==> (nat_of(x) / pow2(i as nat)) % 2 == 1
        },
{
    lemma_operand_bits(m, s0, Val::Symbolic(v), len);
    let x = var_bits(m, v);
    assert(eval(m, SExp::Var(v)) == Some(Value::Bits(x)));
    let z = int_bits(m, n);
    let i = nat_of(z);
    lemma_below_pow2(len as nat);
    lemma2_to64();
    let pe = match n {
        Val::Symbolic(f) => SExp::Var(f),
        _ => sexp_i128(n->I128_0),
    };
    if let Val::I128(c) = n {
        lemma_nat_of_bits_of(c as nat, 128);
        crate::bits::lemma_pow2_127();
        lemma_small_mod(c as nat, pow2(128));
    }
    assert(eval(m, pe) == Some(Value::Bits(z)));
    lemma_eval_fit(m, len, pe, z);
    let sh = fit_shift(len, pe);
    let shifted = Seq::new(len as nat, |j: int| j + i < len && x[j + i]);
    assert(eval(m, bin(BinOp::Bvlshr, SExp::Var(v), sh)) == Some(Value::Bits(shifted)));
    let e = SExp::Extract(0, 0, Box::new(bin(BinOp::Bvlshr, SExp::Var(v), sh)));
    assert(fresh_def(s0, s1, r, e));
    assert(shifted.subrange(0, 1) =~= seq![x[i as int]]);
    assert(eval(m, e) == Some(Value::Bits(seq![x[i as int]])));
    assert(s1.decls()[s0.decls().len() as int] == Some(Ty::BitVec(1)));
    lemma_bit_of_nat_of(x, i as int);
}

/// Shifting a symbolic bitvector of `len >= 1` bits by an amount that is a
/// nonzero concrete integer or a 128-bit symbol gives a fresh variable which,
/// whatever values the symbols take that put the amount `s` below `2^len`,
/// holds the bits shifted by `s` places (up for `shiftl`, down for
/// `shiftr`), zeros filling in: its value is the one the concrete shift
/// computes.
pub proof fn law_symbolic_shift(
    s0: Solver,
    s1: Solver,
    r: Result<Val, ExecError>,
    x: Sym,
    amount: Val,
    left: bool,
    len: u32,
    m: spec_fn(Sym) -> Value,
)
    requires
        s0.sym_length(x) == Some(len),
        len >= 1,
        match amount {
            Val::I128(k) => 0 < k,
            Val::Symbolic(f) => m(f) is Bits && var_bits(m, f).len() == 128,
            _ => false,
        },
        nat_of(int_bits(m, amount)) < pow2(len as nat),
        s0.room(1),
        fits(m, s0.decls()),
        shift_post(s0, s1, r, Val::Symbolic(x), amount, left),
    ensures
        r == Ok::<Val, ExecError>(Val::Symbolic(s0.next_sym())),
        s1.defs().last() matches SDef::DefineConst(z, e) && z == s0.next_sym() && {
            let b = var_bits(m, x);
            let s = nat_of(int_bits(m, amount)) as int;
            let y = bits_value(eval(m, e));
            &&& eval(m, e) == Some(Value::Bits(y))
            &&& y.len() == len
            &&& forall|i: int| 0 <= i < len ==> #[trigger] y[i] == if left {
                i >= s && b[i - s]
            } else {
                i + s < len && b[i + s]
            }
            &&& nat_of(y) == if left { shl_of(len as nat, nat_of(b), s as nat) } else { lshr_of(len as nat, nat_of(b), s as nat) }
        },
{
    lemma_operand_bits(m, s0, Val::Symbolic(x), len);
    let b = var_bits(m, x);
    assert(eval(m, SExp::Var(x)) == Some(Value::Bits(b)));
    let z = int_bits(m, amount);
    let s = nat_of(z);
    lemma2_to64();
    let pe = match amount {
        Val::Symbolic(f) => SExp::Var(f),
        _ => sexp_i128(amount->I128_0),
    };
    if let Val::I128(c) = amount {
        lemma_nat_of_bits_of(c as nat, 128);
        crate::bits::lemma_pow2_127();
        lemma_small_mod(c as nat, pow2(128));
    }
    assert(eval(m, pe) == Some(Value::Bits(z)));
    lemma_eval_fit(m, len, pe, z);
    let op = if left { BinOp::Bvshl } else { BinOp::Bvlshr };
    let e = bin(op, SExp::Var(x), fit_shift(len, pe));
    assert(fresh_def(s0, s1, r, e));
    let y = Seq::new(len as nat, |i: int| if left { i >= s && b[i - s] } else { i + s < len && b[i + s] });
    let sh = bits_value(eval(m, fit_shift(len, pe)));
    assert(eval(m, fit_shift(len, pe)) == Some(Value::Bits(sh)));
    if left {
        assert(eval(m, e) == Some(Value::Bits(Seq::new(len as nat, |i: int| i >= s && b[i - s]))));
        assert(Seq::new(len as nat, |i: int| i >= s && b[i - s]) =~= y);
    } else {
        assert(eval(m, e) == Some(Value::Bits(Seq::new(len as nat, |i: int| i + s < len && b[i + s]))));
        assert(Seq::new(len as nat, |i: int| i + s < len && b[i + s]) =~= y);
    }
    assert(eval(m, e) == Some(Value::Bits(y)));
    lemma_nat_of_bound(b);
    if s >= len {
        assert(y =~= Seq::new(len as nat, |i: int| false));
        lemma_nat_of_zeros(len as nat);
    } else {
        let zs = Seq::new(s, |i: int| false);
        lemma_nat_of_zeros(s);
        if left {
            let low = b.subrange(0, len - s);
            assert(y =~= zs + low);
            lemma_nat_of_append(zs, low);
            lemma_nat_of_split(b, len - s);
            let ps = pow2(s) as int;
            let pr = pow2((len - s) as nat) as int;
            lemma_pow2_adds(s, (len - s) as nat);
            lemma_pow2_pos(s);
            lemma_pow2_pos((len - s) as nat);
            let v = nat_of(b) as int;
            let q = v / pr;
            let rm = v % pr;
            lemma_fundamental_div_mod(v, pr);
            lemma_mod_pos_bound(v, pr);
            assert(v * ps == (ps * pr) * q + ps * rm) by (nonlinear_arith)
                requires
                    v == pr * q + rm,
            ;
            assert(0 <= ps * rm < ps * pr) by (nonlinear_arith)
                requires
                    0 <= rm < pr,
                    ps > 0,
            ;
            lemma_fundamental_div_mod_converse(v * ps, ps * pr, q, ps * rm);
        } else {
            let high = b.subrange(s as int, len as int);
            let zt = Seq::new(s, |i: int| false);
            assert(y =~= high + zt);
            lemma_nat_of_append(high, zt);
            lemma_nat_of_split(b, s as int);
            assert(pow2(high.len()) * nat_of(zt) == 0) by (nonlinear_arith)
                requires
                    nat_of(zt) == 0,
            ;
        }
    }
}

/// The value of `w` bits holding `x` modulo `2^w`.
pub proof fn lemma_wrap_value(x: int, w: nat)
    ensures
        wrap_bits(x, w).len() == w,
        nat_of(wrap_bits(x, w)) == x % (pow2(w) as int),
{
    lemma_pow2_pos(w);
    lemma_mod_bound(x, pow2(w) as int);
    lemma_nat_of_bits_of((x % (pow2(w) as int)) as nat, w);
    lemma_small_mod((x % (pow2(w) as int)) as nat, pow2(w));
}

/// Adding (`sub == false`) or subtracting two bitvector operands of `w`
/// bits, one of them symbolic, gives a fresh variable of `w` bits which,
/// whatever values the symbols take, holds the sum or the difference of their
/// values modulo `2^w`, as the concrete operation computes it.
pub proof fn law_symbolic_add_sub_bits(
    s0: Solver,
    s1: Solver,
    r: Result<Val, ExecError>,
    x: Val,
    y: Val,
    sub: bool,
    w: u32,
    m: spec_fn(Sym) -> Value,
)
    requires
        val_length(s0, x) == Some(w),
        val_length(s0, y) == Some(w),
        !(x is Bits && y is Bits),
        if sub { sub_bits_post(s0, s1, r, x, y) } else { add_bits_post(s0, s1, r, x, y) },
        s0.room(1),
        fits(m, s0.decls()),
    ensures
        r == Ok::<Val, ExecError>(Val::Symbolic(s0.next_sym())),
        s1.defs().last() matches SDef::DefineConst(z, e) && z == s0.next_sym() && {
            let a = nat_of(operand_bits(m, x)) as int;
            let b = nat_of(operand_bits(m, y)) as int;
            let v = bits_value(eval(m, e));
            &&& eval(m, e) == Some(Value::Bits(v))
            &&& v.len() == w
            &&& nat_of(v) == (if sub { a - b } else { a + b }) % (pow2(w as nat) as int)
        },
{
    lemma_operand_bits(m, s0, x, w);
    lemma_operand_bits(m, s0, y, w);
    let a = nat_of(operand_bits(m, x)) as int;
    let b = nat_of(operand_bits(m, y)) as int;
    let op = if sub { BinOp::Bvsub } else { BinOp::Bvadd };
    let e = bin(op, lift_bits(x).unwrap(), lift_bits(y).unwrap());
    assert(fresh_def(s0, s1, r, e));
    let t = if sub { a - b } else { a + b };
    lemma_wrap_value(t, w as nat);
    assert(eval(m, e) == Some(Value::Bits(wrap_bits(t, w as nat))));
}

/// The bitwise operations (`0` for and, `1` for or, `2` for exclusive or) on
/// two bitvector operands of `w` bits, one of them symbolic, give a fresh
/// variable of `w` bits which, whatever values the symbols take, holds in
/// each bit the operation applied to that bit of the operands.
pub proof fn law_symbolic_logic_bits(
    s0: Solver,
    s1: Solver,
    r: Result<Val, ExecError>,
    x: Val,
    y: Val,
    which: u8,
    w: u32,
    m: spec_fn(Sym) -> Value,
)
    requires
        val_length(s0, x) == Some(w),
        val_length(s0, y) == Some(w),
        !(x is Bits && y is Bits),
        which < 3,
        which == 0 ==> and_bits_post(s0, s1, r, x, y),
        which == 1 ==> or_bits_post(s0, s1, r, x, y),
        which == 2 ==> xor_bits_post(s0, s1, r, x, y),
        s0.room(1),
        fits(m, s0.decls()),
    ensures
        r == Ok::<Val, ExecError>(Val::Symbolic(s0.next_sym())),
        s1.defs().last() matches SDef::DefineConst(z, e) && z == s0.next_sym() && {
            let a = operand_bits(m, x);
            let b = operand_bits(m, y);
            let v = bits_value(eval(m, e));
            &&& eval(m, e) == Some(Value::Bits(v))
            &&& v.len() == w
            &&& forall|i: int| 0 <= i < w ==> #[trigger] v[i] == if which == 0 {
                a[i] && b[i]
            } else if which == 1 {
                a[i] || b[i]
            } else {
                a[i] != b[i]
            }
        },
{
    lemma_operand_bits(m, s0, x, w);
    lemma_operand_bits(m, s0, y, w);
    let op = if which == 0 { BinOp::Bvand } else if which == 1 { BinOp::Bvor } else { BinOp::Bvxor };
    let e = bin(op, lift_bits(x).unwrap(), lift_bits(y).unwrap());
    assert(fresh_def(s0, s1, r, e));
}

/// The complement of a symbolic bitvector of `w` bits is a fresh variable
/// which, whatever value the bitvector takes, has each bit flipped: its
/// value is `2^w - 1` minus the bitvector's, as the concrete complement.
pub proof fn law_symbolic_not_bits(
    s0: Solver,
    s1: Solver,
    r: Result<Val, ExecError>,
    v: Sym,
    w: u32,
    m: spec_fn(Sym) -> Value,
)
    requires
        s0.sym_length(v) == Some(w),
        not_bits_post(s0, s1, r, Val::Symbolic(v)),
        s0.room(1),
        fits(m, s0.decls()),
    ensures
        r == Ok::<Val, ExecError>(Val::Symbolic(s0.next_sym())),
        s1.defs().last() matches SDef::DefineConst(z, e) && z == s0.next_sym() && {
            let a = var_bits(m, v);
            let y = bits_value(eval(m, e));
            &&& eval(m, e) == Some(Value::Bits(y))
            &&& y.len() == w
            &&& forall|i: int| 0 <= i < w ==> #[trigger] y[i] == !a[i]
            &&& nat_of(y) + nat_of(a) + 1 == pow2(w as nat)
        },
{
    lemma_operand_bits(m, s0, Val::Symbolic(v), w);
    let a = var_bits(m, v);
    assert(eval(m, SExp::Var(v)) == Some(Value::Bits(a)));
    let e = un(UnOp::Bvnot, SExp::Var(v));
    assert(fresh_def(s0, s1, r, e));
    let y = Seq::new(w as nat, |i: int| !a[i]);
    assert(eval(m, e) == Some(Value::Bits(y)));
    lemma_complement_value(a);
}

/// A bit sequence and its complement add up to all ones.
pub proof fn lemma_complement_value(a: Seq<bool>)
    ensures
        nat_of(Seq::new(a.len(), |i: int| !a[i])) + nat_of(a) + 1 == pow2(a.len()),
    decreases a.len(),
{
    lemma2_to64();
    if a.len() > 0 {
        let c = Seq::new(a.len(), |i: int| !a[i]);
        let d = a.drop_last();
        assert(c.drop_last() =~= Seq::new(d.len(), |i: int| !d[i]));
        lemma_complement_value(d);
        lemma_pow2_adds(d.len(), 1);
    }
}

/// The unsigned value of bits is their two's complement value modulo
/// `2^len`.
pub proof fn lemma_nat_of_int_of(a: Seq<bool>)
    ensures
        nat_of(a) as int == int_of(a) % (pow2(a.len()) as int),
{
    lemma_nat_of_bound(a);
    let p = pow2(a.len()) as int;
    lemma_pow2_pos(a.len());
    lemma_small_mod(nat_of(a), pow2(a.len()));
    if a.len() > 0 && a.last() {
        lemma_mod_multiples_vanish(-1, nat_of(a) as int, p);
        assert(p * -1 + nat_of(a) == nat_of(a) - p);
    }
}

/// The two's complement bits of a 128-bit integer are worth that integer.
pub proof fn lemma_int_of_literal(k: i128)
    ensures
        bits_of(twos(k as int, 128), 128).len() == 128,
        int_of(bits_of(twos(k as int, 128), 128)) == k,
{
    let t = twos(k as int, 128);
    let lit = bits_of(t, 128);
    crate::bits::lemma_pow2_127();
    lemma_nat_of_bits_of(t, 128);
    lemma_small_mod(t, pow2(128));
    lemma_top_bit(lit);
    assert(lit.last() == lit[127]);
}

/// The integer value that a model gives an integer operand: a concrete
/// 128-bit integer, or a 128-bit symbol read in two's complement.
pub open spec fn int_value(m: spec_fn(Sym) -> Value, x: Val) -> int {
    int_of(int_bits(m, x))
}

/// An integer operand for the operations on symbolic integers: concrete, or
/// a 128-bit symbol.
pub open spec fn int_operand(s: Solver, x: Val) -> bool {
    match x {
        Val::I128(_) => true,
        Val::Symbolic(v) => s.sym_length(v) == Some(128u32),
        _ => false,
    }
}

/// Under a model, an integer operand has its 128 bits.
pub proof fn lemma_int_operand(m: spec_fn(Sym) -> Value, s: Solver, x: Val)
    requires
        int_operand(s, x),
        fits(m, s.decls()),
    ensures
        lift_i128(x) matches Some(e) && eval(m, e) == Some(Value::Bits(int_bits(m, x))),
        int_bits(m, x).len() == 128,
        nat_of(int_bits(m, x)) as int == int_value(m, x) % (pow2(128) as int),
{
    match x {
        Val::Symbolic(v) => {
            lemma_operand_bits(m, s, x, 128);
        },
        Val::I128(k) => {
            lemma_int_of_literal(k);
        },
        _ => {},
    }
    lemma_nat_of_int_of(int_bits(m, x));
}

/// Comparing two integer operands, one of them symbolic (`0` for `==`, `1`
/// for `<=`, `2` for `>=`, `3` for `<`, `4` for `>`), gives a fresh boolean
/// variable which, whatever values the symbols take, holds the comparison of
/// their integer values, as the concrete comparison does.
pub proof fn law_symbolic_int_compare(
    s0: Solver,
    s1: Solver,
    r: Result<Val, ExecError>,
    x: Val,
    y: Val,
    which: u8,
    m: spec_fn(Sym) -> Value,
)
    requires
        int_operand(s0, x),
        int_operand(s0, y),
        !(x is I128 && y is I128),
        which < 5,
        which == 0 ==> eq_int_post(s0, s1, r, x, y),
        which == 1 ==> lteq_int_post(s0, s1, r, x, y),
        which == 2 ==> gteq_int_post(s0, s1, r, x, y),
        which == 3 ==> lt_int_post(s0, s1, r, x, y),
        which == 4 ==> gt_int_post(s0, s1, r, x, y),
        s0.room(1),
        fits(m, s0.decls()),
    ensures
        r == Ok::<Val, ExecError>(Val::Symbolic(s0.next_sym())),
        s1.defs().last() matches SDef::DefineConst(z, e) && z == s0.next_sym() && {
            let a = int_value(m, x);
            let b = int_value(m, y);
            eval(m, e) == Some(
                Value::Bool(
                    if which == 0 {
                        a == b
                    } else if which == 1 {
                        a <= b
                    } else if which == 2 {
                        a >= b
                    } else if which == 3 {
                        a < b
                    } else {
                        a > b
                    },
                ),
            )
        },
{
    lemma_int_operand(m, s0, x);
    lemma_int_operand(m, s0, y);
    let ba = int_bits(m, x);
    let bb = int_bits(m, y);
    let op = if which == 0 {
        BinOp::Eq
    } else if which == 1 {
        BinOp::Bvsle
    } else if which == 2 {
        BinOp::Bvsge
    } else if which == 3 {
        BinOp::Bvslt
    } else {
        BinOp::Bvsgt
    };
    let e = bin(op, lift_i128(x).unwrap(), lift_i128(y).unwrap());
    assert(fresh_def(s0, s1, r, e));
    if which == 0 {
        lemma_bits_of_nat_of(ba);
        lemma_bits_of_nat_of(bb);
        if int_of(ba) == int_of(bb) {
            assert(nat_of(ba) == nat_of(bb));
        }
    }
}

/// Adding, subtracting or multiplying two integer operands (`0`, `1`, `2`),
/// one of them symbolic, gives a fresh 128-bit variable which, whatever values
/// the symbols take, holds the exact result of the operation on their integer
/// values modulo `2^128`: the wrapping arithmetic of the concrete operation.
pub proof fn law_symbolic_int_arith(
    s0: Solver,
    s1: Solver,
    r: Result<Val, ExecError>,
    x: Val,
    y: Val,
    which: u8,
    m: spec_fn(Sym) -> Value,
)
    requires
        int_operand(s0, x),
        int_operand(s0, y),
        !(x is I128 && y is I128),
        !(x == Val::I128(0) || y == Val::I128(0)),
        which < 3,
        which == 0 ==> add_int_post(s0, s1, r, x, y),
        which == 1 ==> sub_int_post(s0, s1, r, x, y),
        which == 2 ==> mult_int_post(s0, s1, r, x, y),
        s0.room(1),
        fits(m, s0.decls()),
    ensures
        r == Ok::<Val, ExecError>(Val::Symbolic(s0.next_sym())),
        s1.defs().last() matches SDef::DefineConst(z, e) && z == s0.next_sym() && {
            let a = int_value(m, x);
            let b = int_value(m, y);
            let v = bits_value(eval(m, e));
            &&& eval(m, e) == Some(Value::Bits(v))
            &&& v.len() == 128
            &&& nat_of(v) as int == (if which == 0 {
                a + b
            } else if which == 1 {
                a - b
            } else {
                a * b
            }) % (pow2(128) as int)
        },
{
    lemma_int_operand(m, s0, x);
    lemma_int_operand(m, s0, y);
    let na = nat_of(int_bits(m, x)) as int;
    let nb = nat_of(int_bits(m, y)) as int;
    let a = int_value(m, x);
    let b = int_value(m, y);
    let p = pow2(128) as int;
    lemma_pow2_pos(128);
    let op = if which == 0 { BinOp::Bvadd } else if which == 1 { BinOp::Bvsub } else { BinOp::Bvmul };
    let e = bin(op, lift_i128(x).unwrap(), lift_i128(y).unwrap());
    assert(fresh_def(s0, s1, r, e));
    let t = if which == 0 { na + nb } else if which == 1 { na - nb } else { na * nb };
    lemma_wrap_value(t, 128);
    assert(eval(m, e) == Some(Value::Bits(wrap_bits(t, 128))));
    if which == 0 {
        lemma_add_mod_noop(a, b, p);
    } else if which == 1 {
        lemma_sub_mod_noop(a, b, p);
    } else {
        lemma_mul_mod_noop_general(a, b, p);
    }
}

/// Extending bits with copies of their top bit keeps their two's complement
/// value.
pub proof fn lemma_sign_extend_value(b: Seq<bool>, k: nat)
    requires
        b.len() >= 1,
    ensures
        int_of(b + Seq::new(k, |i: int| b.last())) == int_of(b),
{
    let fill = Seq::new(k, |i: int| b.last());
    let x = b + fill;
    lemma_nat_of_append(b, fill);
    lemma_top_bit(b);
    lemma_pow2_adds(b.len(), k);
    if k == 0 {
        assert(x =~= b);
    } else {
        assert(x.last() == b.last());
        if b.last() {
            assert(fill =~= Seq::new(k, |i: int| true));
            lemma_nat_of_ones(k);
            let pb = pow2(b.len()) as int;
            let pk = pow2(k) as int;
            assert(pb * (pk - 1) == pb * pk - pb) by (nonlinear_arith);
        } else {
            assert(fill =~= Seq::new(k, |i: int| false));
            lemma_nat_of_zeros(k);
            assert(pow2(b.len()) * 0 == 0);
        }
    }
}

/// The unsigned (`sail_unsigned`) or signed (`sail_signed`) integer of a
/// symbolic bitvector of `n <= 128` bits (`n >= 1` for the signed one) is a
/// fresh 128-bit variable which, whatever value the bitvector takes, holds
/// its unsigned value (where `n < 128`) or its two's complement value, as the
/// concrete conversion computes it.
pub proof fn law_symbolic_bits_to_int(
    s0: Solver,
    s1: Solver,
    r: Result<Val, ExecError>,
    v: Sym,
    signed: bool,
    n: u32,
    m: spec_fn(Sym) -> Value,
)
    requires
        s0.sym_length(v) == Some(n),
        n <= 128,
        signed ==> n >= 1,
        if signed { sail_signed_post(s0, s1, r, Val::Symbolic(v)) } else { sail_unsigned_post(s0, s1, r, Val::Symbolic(v)) },
        s0.room(1),
        fits(m, s0.decls()),
    ensures
        r == Ok::<Val, ExecError>(Val::Symbolic(s0.next_sym())),
        s1.defs().last() matches SDef::DefineConst(z, e) && z == s0.next_sym() && {
            let b = var_bits(m, v);
            let y = bits_value(eval(m, e));
            &&& eval(m, e) == Some(Value::Bits(y))
            &&& y.len() == 128
            &&& signed ==> int_of(y) == int_of(b)
            &&& !signed ==> nat_of(y) == nat_of(b)
            &&& !signed && n < 128 ==> int_of(y) == nat_of(b)
        },
{
    lemma_operand_bits(m, s0, Val::Symbolic(v), n);
    let b = var_bits(m, v);
    assert(eval(m, SExp::Var(v)) == Some(Value::Bits(b)));
    let k = (128 - n) as nat;
    if signed {
        let e = SExp::SignExtend((128 - n) as u32, Box::new(SExp::Var(v)));
        assert(fresh_def(s0, s1, r, e));
        assert(eval(m, e) == Some(Value::Bits(b + Seq::new(k, |i: int| b.last()))));
        lemma_sign_extend_value(b, k);
    } else {
        let e = SExp::ZeroExtend((128 - n) as u32, Box::new(SExp::Var(v)));
        assert(fresh_def(s0, s1, r, e));
        let zs = Seq::new(k, |i: int| false);
        assert(eval(m, e) == Some(Value::Bits(b + zs)));
        lemma_nat_of_append(b, zs);
        lemma_nat_of_zeros(k);
        assert(pow2(b.len()) * 0 == 0);
        if n < 128 {
            let y = b + zs;
            assert(y.last() == false);
        }
    }
}

/// Widening a symbolic 64-bit integer to 128 bits gives a fresh variable
/// which, whatever value the symbol takes, holds the same integer; narrowing
/// a symbolic 128-bit integer to 64 bits gives a fresh variable holding its
/// low 64 bits, that is its value modulo `2^64`.
pub proof fn law_symbolic_int_width(
    s0: Solver,
    s1: Solver,
    r: Result<Val, ExecError>,
    v: Sym,
    widen: bool,
    m: spec_fn(Sym) -> Value,
)
    requires
        s0.sym_length(v) == Some(if widen { 64u32 } else { 128u32 }),
        if widen { i64_to_i128_post(s0, s1, r, Val::Symbolic(v)) } else { i128_to_i64_post(s0, s1, r, Val::Symbolic(v)) },
        s0.room(1),
        fits(m, s0.decls()),
    ensures
        r == Ok::<Val, ExecError>(Val::Symbolic(s0.next_sym())),
        s1.defs().last() matches SDef::DefineConst(z, e) && z == s0.next_sym() && {
            let b = var_bits(m, v);
            let y = bits_value(eval(m, e));
            &&& eval(m, e) == Some(Value::Bits(y))
            &&& y.len() == if widen { 128nat } else { 64nat }
            &&& widen ==> int_of(y) == int_of(b)
            &&& !widen ==> nat_of(y) == nat_of(b) % pow2(64)
        },
{
    let w: u32 = if widen { 64 } else { 128 };
    lemma_operand_bits(m, s0, Val::Symbolic(v), w);
    let b = var_bits(m, v);
    assert(eval(m, SExp::Var(v)) == Some(Value::Bits(b)));
    if widen {
        let e = SExp::SignExtend(64, Box::new(SExp::Var(v)));
        assert(fresh_def(s0, s1, r, e));
        assert(eval(m, e) == Some(Value::Bits(b + Seq::new(64, |i: int| b.last()))));
        lemma_sign_extend_value(b, 64);
    } else {
        let e = SExp::Extract(63, 0, Box::new(SExp::Var(v)));
        assert(fresh_def(s0, s1, r, e));
        assert(eval(m, e) == Some(Value::Bits(b.subrange(0, 64))));
        lemma_nat_of_split(b, 64);
    }
}

/// `x` in the signed 128-bit range, held in 128 bits, reads back as `x`.
pub proof fn lemma_int_of_wrap(x: int)
    requires
        -pow2(127) <= x < pow2(127),
    ensures
        int_of(wrap_bits(x, 128)) == x,
{
    crate::bits::lemma_pow2_127();
    let y = wrap_bits(x, 128);
    lemma_wrap_value(x, 128);
    lemma_top_bit(y);
    assert(y.last() == y[127]);
    if x < 0 {
        lemma_mod_multiples_vanish(1, x, pow2(128) as int);
        lemma_small_mod((x + pow2(128)) as nat, pow2(128));
    } else {
        lemma_small_mod(x as nat, pow2(128));
    }
}

/// The remainder left by division rounded toward zero is smaller than the
/// divisor and has the sign of the dividend.
pub proof fn lemma_trunc_rem(a: int, b: int)
    requires
        b != 0,
    ensures
        ({
            let r0 = a - b * trunc_div(a, b);
            &&& (if b > 0 { -b < r0 < b } else { b < r0 < -b })
            &&& a >= 0 ==> r0 >= 0
            &&& a < 0 ==> r0 <= 0
        }),
{
    let aa = if a < 0 { -a } else { a };
    let bb = if b < 0 { -b } else { b };
    let q = aa / bb;
    lemma_fundamental_div_mod(aa, bb);
    lemma_mod_pos_bound(aa, bb);
    let rho = aa % bb;
    assert(aa == bb * q + rho);
    if a >= 0 && b > 0 {
        assert(a - b * q == rho);
    } else if a < 0 && b < 0 {
        assert(a - b * q == -rho) by (nonlinear_arith)
            requires
                aa == bb * q + rho,
                aa == -a,
                bb == -b,
        ;
    } else if a >= 0 && b < 0 {
        assert(a - b * (-q) == rho) by (nonlinear_arith)
            requires
                aa == bb * q + rho,
                aa == a,
                bb == -b,
        ;
    } else {
        assert(a - b * (-q) == -rho) by (nonlinear_arith)
            requires
                aa == bb * q + rho,
                aa == -a,
                bb == b,
        ;
    }
}

/// A quotient and remainder with `0 <= e < |b|` are the Euclidean ones.
pub proof fn lemma_euclid_unique(a: int, b: int, q: int, e: int)
    requires
        b != 0,
        a == b * q + e,
        0 <= e,
        e < (if b > 0 { b } else { -b }),
    ensures
        a / b == q,
        a % b == e,
{
    lemma_fundamental_div_mod(a, b);
    let q2 = a / b;
    let e2 = a % b;
    assert(0 <= e2 < (if b > 0 { b } else { -b }));
    assert(q == q2) by (nonlinear_arith)
        requires
            b * q + e == b * q2 + e2,
            0 <= e < (if b > 0 { b } else { -b }),
            0 <= e2 < (if b > 0 { b } else { -b }),
            b != 0,
    ;
}

/// Truncating division of two integer operands, one of them symbolic, gives
/// a fresh 128-bit variable which, whatever values the symbols take (with a
/// nonzero divisor), holds the quotient rounded toward zero, modulo `2^128`.
pub proof fn law_symbolic_tdiv(
    s0: Solver,
    s1: Solver,
    r: Result<Val, ExecError>,
    x: Val,
    y: Val,
    m: spec_fn(Sym) -> Value,
)
    requires
        int_operand(s0, x),
        int_operand(s0, y),
        !(x is I128 && y is I128),
        tdiv_int_post(s0, s1, r, x, y),
        int_value(m, y) != 0,
        s0.room(1),
        fits(m, s0.decls()),
    ensures
        r == Ok::<Val, ExecError>(Val::Symbolic(s0.next_sym())),
        s1.defs().last() matches SDef::DefineConst(z, e) && z == s0.next_sym() && {
            let v = bits_value(eval(m, e));
            &&& eval(m, e) == Some(Value::Bits(v))
            &&& nat_of(v) as int == trunc_div(int_value(m, x), int_value(m, y)) % (pow2(128) as int)
        },
{
    lemma_int_operand(m, s0, x);
    lemma_int_operand(m, s0, y);
    let e = bin(BinOp::Bvsdiv, lift_i128(x).unwrap(), lift_i128(y).unwrap());
    assert(fresh_def(s0, s1, r, e));
    let t = trunc_div(int_value(m, x), int_value(m, y));
    lemma_wrap_value(t, 128);
    assert(eval(m, e) == Some(Value::Bits(wrap_bits(t, 128))));
}

/// Under a model, an integer operand reads back as a signed 128-bit value.
pub proof fn lemma_int_value_range(m: spec_fn(Sym) -> Value, s: Solver, x: Val)
    requires
        int_operand(s, x),
        fits(m, s.decls()),
    ensures
        -pow2(127) <= int_value(m, x) < pow2(127),
{
    lemma_int_operand(m, s, x);
    let b = int_bits(m, x);
    lemma_nat_of_bound(b);
    lemma_top_bit(b);
    crate::bits::lemma_pow2_127();
    assert(b.last() == b[127]);
}

/// The Euclidean remainder of two integer operands, one of them symbolic,
/// is a fresh 128-bit variable which, whatever values the symbols take (with
/// a nonzero divisor), holds the remainder `r` with `0 <= r < |b|` and
/// `a == b * q + r`: the value `emod_int` computes on concrete operands.
pub proof fn law_symbolic_emod(
    s0: Solver,
    s1: Solver,
    r: Result<Val, ExecError>,
    x: Val,
    y: Val,
    m: spec_fn(Sym) -> Value,
)
    requires
        int_operand(s0, x),
        int_operand(s0, y),
        !(x is I128 && y is I128),
        emod_int_post(s0, s1, r, x, y),
        int_value(m, y) != 0,
        s0.room(1),
        fits(m, s0.decls()),
    ensures
        r == Ok::<Val, ExecError>(Val::Symbolic(s0.next_sym())),
        s1.defs().last() matches SDef::DefineConst(z, e) && z == s0.next_sym() && {
            let v = bits_value(eval(m, e));
            &&& eval(m, e) == Some(Value::Bits(v))
            &&& nat_of(v) as int == int_value(m, x) % int_value(m, y)
        },
{
    lemma_int_operand(m, s0, x);
    lemma_int_operand(m, s0, y);
    lemma_int_value_range(m, s0, x);
    lemma_int_value_range(m, s0, y);
    crate::bits::lemma_pow2_127();
    let ae = lift_i128(x).unwrap();
    let be = lift_i128(y).unwrap();
    let ab = int_bits(m, x);
    let bb = int_bits(m, y);
    let sa = int_value(m, x);
    let sb = int_value(m, y);
    let p = pow2(128) as int;
    let e = emod_sexp(ae, be);
    assert(fresh_def(s0, s1, r, e));
    let t = trunc_div(sa, sb);
    let r0 = sa - sb * t;
    lemma_trunc_rem(sa, sb);
    let adjusted = r0 != 0 && (r0 < 0) != (sb < 0);
    let rs = if adjusted { r0 + sb } else { r0 };
    let q = if adjusted { t - 1 } else { t };
    assert(sa == sb * q + rs) by (nonlinear_arith)
        requires
            r0 == sa - sb * t,
            rs == if adjusted { r0 + sb } else { r0 },
            q == if adjusted { t - 1 } else { t },
    ;
    let rb = wrap_bits(rs, 128);
    let re = bin(BinOp::Bvsmod, ae, be);
    assert(eval(m, re) == Some(Value::Bits(rb)));
    lemma_int_of_wrap(rs);
    lemma_wrap_value(rs, 128);
    lemma_int_of_literal(0);
    let z0 = bits_of(twos(0, 128), 128);
    assert(eval(m, sexp_i128(0)) == Some(Value::Bits(z0)));
    assert(eval(m, bin(BinOp::Bvslt, re, sexp_i128(0))) == Some(Value::Bool(rs < 0)));
    if rs < 0 {
        let sub = bin(BinOp::Bvsub, re, be);
        let d = nat_of(rb) as int - nat_of(bb) as int;
        lemma_wrap_value(d, 128);
        assert(eval(m, sub) == Some(Value::Bits(wrap_bits(d, 128))));
        assert(eval(m, e) == Some(Value::Bits(wrap_bits(d, 128))));
        lemma_sub_mod_noop(rs, sb, p);
        assert(0 < rs - sb < p);
        lemma_small_mod((rs - sb) as nat, p as nat);
        assert(sa == sb * (q + 1) + (rs - sb)) by (nonlinear_arith)
            requires
                sa == sb * q + rs,
        ;
        lemma_euclid_unique(sa, sb, q + 1, rs - sb);
    } else {
        assert(eval(m, e) == Some(Value::Bits(rb)));
        lemma_small_mod(rs as nat, p as nat);
        lemma_euclid_unique(sa, sb, q, rs);
    }
}

/// The Euclidean quotient of two integer operands, one of them symbolic, is
/// a fresh 128-bit variable which, whatever values the symbols take (with a
/// nonzero divisor), holds the quotient `q` with `a == b * q + r` and
/// `0 <= r < |b|`, modulo `2^128`: the value `ediv_int` computes on concrete
/// operands.
pub proof fn law_symbolic_ediv(
    s0: Solver,
    s1: Solver,
    r: Result<Val, ExecError>,
    x: Val,
    y: Val,
    m: spec_fn(Sym) -> Value,
)
    requires
        int_operand(s0, x),
        int_operand(s0, y),
        !(x is I128 && y is I128),
        ediv_int_post(s0, s1, r, x, y),
        int_value(m, y) != 0,
        s0.room(1),
        fits(m, s0.decls()),
    ensures
        r == Ok::<Val, ExecError>(Val::Symbolic(s0.next_sym())),
        s1.defs().last() matches SDef::DefineConst(z, e) && z == s0.next_sym() && {
            let v = bits_value(eval(m, e));
            &&& eval(m, e) == Some(Value::Bits(v))
            &&& nat_of(v) as int == (int_value(m, x) / int_value(m, y)) % (pow2(128) as int)
        },
{
    lemma_int_operand(m, s0, x);
    lemma_int_operand(m, s0, y);
    lemma_int_value_range(m, s0, x);
    lemma_int_value_range(m, s0, y);
    crate::bits::lemma_pow2_127();
    let ae = lift_i128(x).unwrap();
    let be = lift_i128(y).unwrap();
    let ab = int_bits(m, x);
    let bb = int_bits(m, y);
    let sa = int_value(m, x);
    let sb = int_value(m, y);
    let p = pow2(128) as int;
    lemma_pow2_pos(128);
    let e = ediv_sexp(ae, be);
    assert(fresh_def(s0, s1, r, e));
    let t = trunc_div(sa, sb);
    let r0 = sa - sb * t;
    lemma_trunc_rem(sa, sb);
    // the quotient rounded toward zero
    let qe = bin(BinOp::Bvsdiv, ae, be);
    let qb = wrap_bits(t, 128);
    assert(eval(m, qe) == Some(Value::Bits(qb)));
    lemma_wrap_value(t, 128);
    // the remainder it leaves
    let nq = nat_of(qb) as int;
    let na = nat_of(ab) as int;
    let nb = nat_of(bb) as int;
    let prod = wrap_bits(nb * nq, 128);
    lemma_wrap_value(nb * nq, 128);
    assert(eval(m, bin(BinOp::Bvmul, be, qe)) == Some(Value::Bits(prod)));
    let remv = na - nat_of(prod) as int;
    let remb = wrap_bits(remv, 128);
    let rem = bin(BinOp::Bvsub, ae, bin(BinOp::Bvmul, be, qe));
    assert(eval(m, rem) == Some(Value::Bits(remb)));
    lemma_mul_mod_noop_general(sb, t, p);
    lemma_sub_mod_noop(sa, sb * t, p);
    assert(remv % p == r0 % p);
    assert(remb == wrap_bits(r0, 128));
    lemma_int_of_wrap(r0);
    lemma_int_of_literal(0);
    lemma_int_of_literal(1);
    let z0 = bits_of(twos(0, 128), 128);
    let z1 = bits_of(twos(1, 128), 128);
    assert(eval(m, sexp_i128(0)) == Some(Value::Bits(z0)));
    assert(eval(m, sexp_i128(1)) == Some(Value::Bits(z1)));
    lemma_nat_of_int_of(z1);
    lemma_small_mod(1, pow2(128));
    assert(nat_of(z1) == 1);
    assert(eval(m, bin(BinOp::Bvslt, rem, sexp_i128(0))) == Some(Value::Bool(r0 < 0)));
    assert(eval(m, bin(BinOp::Bvsgt, be, sexp_i128(0))) == Some(Value::Bool(sb > 0)));
    let qf = if r0 < 0 { if sb > 0 { t - 1 } else { t + 1 } } else { t };
    let ef = if r0 < 0 { if sb > 0 { r0 + sb } else { r0 - sb } } else { r0 };
    assert(sa == sb * qf + ef) by (nonlinear_arith)
        requires
            r0 == sa - sb * t,
            qf == if r0 < 0 { if sb > 0 { t - 1 } else { t + 1 } } else { t },
            ef == if r0 < 0 { if sb > 0 { r0 + sb } else { r0 - sb } } else { r0 },
    ;
    lemma_euclid_unique(sa, sb, qf, ef);
    let inner = SExp::Ite(
        Box::new(bin(BinOp::Bvsgt, be, sexp_i128(0))),
        Box::new(bin(BinOp::Bvsub, qe, sexp_i128(1))),
        Box::new(bin(BinOp::Bvadd, qe, sexp_i128(1))),
    );
    assert(e == SExp::Ite(Box::new(bin(BinOp::Bvslt, rem, sexp_i128(0))), Box::new(inner), Box::new(qe)));
    if r0 < 0 {
        if sb > 0 {
            let dv = nq - 1;
            lemma_wrap_value(dv, 128);
            assert(eval(m, bin(BinOp::Bvsub, qe, sexp_i128(1))) == Some(Value::Bits(wrap_bits(dv, 128))));
            assert(eval(m, inner) == Some(Value::Bits(wrap_bits(dv, 128))));
            assert(eval(m, e) == Some(Value::Bits(wrap_bits(dv, 128))));
            lemma_sub_mod_noop(t, 1, p);
            lemma_small_mod(1, pow2(128));
        } else {
            let uv = nq + 1;
            lemma_wrap_value(uv, 128);
            assert(eval(m, bin(BinOp::Bvadd, qe, sexp_i128(1))) == Some(Value::Bits(wrap_bits(uv, 128))));
            assert(eval(m, inner) == Some(Value::Bits(wrap_bits(uv, 128))));
            assert(eval(m, e) == Some(Value::Bits(wrap_bits(uv, 128))));
            lemma_add_mod_noop(t, 1, p);
            lemma_small_mod(1, pow2(128));
        }
    } else {
        assert(eval(m, e) == Some(Value::Bits(qb)));
    }
}

/// More than 64 zero (`zeros`) or one (`ones`) bits are a fresh variable
/// of that many bits, all of them clear or all set: of value `0` or
/// `2^n - 1`, as the concrete operations give up to 64 bits.
pub proof fn law_symbolic_zeros_ones(
    s0: Solver,
    s1: Solver,
    r: Result<Val, ExecError>,
    n: i128,
    set: bool,
    m: spec_fn(Sym) -> Value,
)
    requires
        64 < n,
        if set { ones_post(s0, s1, r, Val::I128(n)) } else { zeros_post(s0, s1, r, Val::I128(n)) },
    ensures
        r == Ok::<Val, ExecError>(Val::Symbolic(s0.next_sym())),
        s1.defs().last() matches SDef::DefineConst(z, e) && z == s0.next_sym() && {
            let v = bits_value(eval(m, e));
            &&& eval(m, e) == Some(Value::Bits(v))
            &&& v.len() == n
            &&& forall|i: int| 0 <= i < n ==> #[trigger] v[i] == set
            &&& nat_of(v) + (if set { 1int } else { 0int }) == if set { pow2(n as nat) as int } else { 0int }
        },
{
    let v = Seq::new(n as nat, |k: int| set);
    let e = SExp::Bits(v);
    assert(fresh_def(s0, s1, r, e));
    if set {
        assert(v =~= Seq::new(n as nat, |k: int| true));
        lemma_nat_of_ones(n as nat);
    } else {
        assert(v =~= Seq::new(n as nat, |k: int| false));
        lemma_nat_of_zeros(n as nat);
    }
}

/// Bit `i` of a concrete bitvector of `w >= 1` bits at an index given by a
/// 128-bit symbol is a fresh one-bit variable which, whatever value the
/// symbol takes that puts the index `i` below `w`, holds bit `i` of the
/// bitvector.
pub proof fn law_access_bits_at_symbol(
    s0: Solver,
    s1: Solver,
    r: Result<Val, ExecError>,
    b: B64,
    k: Sym,
    m: spec_fn(Sym) -> Value,
)
    requires
        b.wf(),
        b.width() >= 1,
        m(k) is Bits,
        var_bits(m, k).len() == 128,
        nat_of(var_bits(m, k)) < b.width(),
        access_bits_post(s0, s1, r, b, Val::Symbolic(k)),
    ensures
        r == Ok::<Val, ExecError>(Val::Symbolic(s0.next_sym())),
        s1.defs().last() matches SDef::DefineConst(z, e) && z == s0.next_sym() && {
            let x = bits_of(b.value(), b.width());
            let i = nat_of(var_bits(m, k)) as int;
            &&& eval(m, e) == Some(Value::Bits(seq![x[i]]))
            &&& x[i] <==> (b.value() / pow2(i as nat)) % 2 == 1
        },
{
    let w = b.width();
    let x = bits_of(b.value(), w);
    let kz = var_bits(m, k);
    let i = nat_of(kz);
    assert(m(k) == Value::Bits(kz));
    assert(eval(m, SExp::Var(k)) == Some(Value::Bits(kz)));
    assert(sexp_bits(b) == SExp::Bits64(b.value() as u64, b.width() as u32));
    lemma2_to64();
    crate::bits::lemma_pow2_strictly_increases_or_eq(w, 64);
    assert((b.value() as u64) as nat == b.value());
    assert(eval(m, sexp_bits(b)) == Some(Value::Bits(x)));
    let sh = SExp::Extract((w - 1) as u32, 0, Box::new(SExp::Var(k)));
    let low = kz.subrange(0, w as int);
    assert(eval(m, sh) == Some(Value::Bits(low)));
    lemma_nat_of_split(kz, w as int);
    lemma_below_pow2(w);
    lemma_small_mod(i, pow2(w));
    assert(nat_of(low) == i);
    let shifted = Seq::new(w, |j: int| j + i < w && x[j + i]);
    assert(eval(m, bin(BinOp::Bvlshr, sexp_bits(b), sh)) == Some(Value::Bits(shifted)));
    let e = SExp::Extract(0, 0, Box::new(bin(BinOp::Bvlshr, sexp_bits(b), sh)));
    assert(fresh_def(s0, s1, r, e));
    assert(shifted.subrange(0, 1) =~= seq![x[i as int]]);
    assert(eval(m, e) == Some(Value::Bits(seq![x[i as int]])));
}

/// The larger (`max_int`) or smaller (`min_int`) of two integer operands,
/// one of them symbolic, is a fresh 128-bit variable which, whatever values
/// the symbols take, holds the larger or smaller of their integer values.
pub proof fn law_symbolic_max_min(
    s0: Solver,
    s1: Solver,
    r: Result<Val, ExecError>,
    x: Val,
    y: Val,
    max: bool,
    m: spec_fn(Sym) -> Value,
)
    requires
        int_operand(s0, x),
        int_operand(s0, y),
        !(x is I128 && y is I128),
        if max { max_int_post(s0, s1, r, x, y) } else { min_int_post(s0, s1, r, x, y) },
        s0.room(1),
        fits(m, s0.decls()),
    ensures
        r == Ok::<Val, ExecError>(Val::Symbolic(s0.next_sym())),
        s1.defs().last() matches SDef::DefineConst(z, e) && z == s0.next_sym() && {
            let a = int_value(m, x);
            let b = int_value(m, y);
            let v = bits_value(eval(m, e));
            &&& eval(m, e) == Some(Value::Bits(v))
            &&& int_of(v) == if max { if a >= b { a } else { b } } else { if a <= b { a } else { b } }
        },
{
    lemma_int_operand(m, s0, x);
    lemma_int_operand(m, s0, y);
    let op = if max { BinOp::Bvsgt } else { BinOp::Bvslt };
    let ae = lift_i128(x).unwrap();
    let be = lift_i128(y).unwrap();
    let e = pick(op, ae, be);
    assert(fresh_def(s0, s1, r, e));
    let a = int_value(m, x);
    let b = int_value(m, y);
    assert(eval(m, bin(op, ae, be)) == Some(Value::Bool(if max { a > b } else { a < b })));
    if (max && a > b) || (!max && a < b) {
        assert(eval(m, e) == Some(Value::Bits(int_bits(m, x))));
    } else {
        assert(eval(m, e) == Some(Value::Bits(int_bits(m, y))));
    }
}

/// A boolean operand: a concrete boolean, or a declared boolean symbol.
pub open spec fn bool_operand(s: Solver, x: Val) -> bool {
    match x {
        Val::Bool(_) => true,
        Val::Symbolic(v) => v.id < s.decls().len() && s.decls()[v.id as int] == Some(Ty::Bool),
        _ => false,
    }
}

/// The truth value that a model gives a boolean operand.
pub open spec fn bool_value(m: spec_fn(Sym) -> Value, x: Val) -> bool {
    match x {
        Val::Bool(b) => b,
        Val::Symbolic(v) => m(v) == Value::Bool(true),
        _ => false,
    }
}

/// Under a model, a boolean operand has its truth value.
pub proof fn lemma_bool_operand(m: spec_fn(Sym) -> Value, s: Solver, x: Val)
    requires
        bool_operand(s, x),
        fits(m, s.decls()),
    ensures
        lift_bool(x) matches Some(e) && eval(m, e) == Some(Value::Bool(bool_value(m, x))),
{
    if let Val::Symbolic(v) = x {
        assert(s.decls()[v.id as int] == Some(Ty::Bool));
        assert(Sym { id: (v.id as int) as u32 } == v);
        assert(m(v) is Bool);
    }
}

/// Negating a boolean symbol, or taking the conjunction (`0`) or the
/// disjunction (`1`) of two boolean operands of which one is symbolic, gives
/// a fresh boolean variable which, whatever values the symbols take, holds
/// the negation, conjunction or disjunction of their truth values.
pub proof fn law_symbolic_bool(
    s0: Solver,
    s1: Solver,
    r: Result<Val, ExecError>,
    x: Val,
    y: Val,
    which: u8,
    m: spec_fn(Sym) -> Value,
)
    requires
        bool_operand(s0, x),
        which == 2 ==> x is Symbolic && not_bool_post(s0, s1, r, x),
        which < 2 ==> bool_operand(s0, y) && !(x is Bool && y is Bool),
        which == 0 ==> and_bool_post(s0, s1, r, x, y),
        which == 1 ==> or_bool_post(s0, s1, r, x, y),
        which < 3,
        s0.room(1),
        fits(m, s0.decls()),
    ensures
        r == Ok::<Val, ExecError>(Val::Symbolic(s0.next_sym())),
        s1.defs().last() matches SDef::DefineConst(z, e) && z == s0.next_sym() && eval(m, e) == Some(
            Value::Bool(
                if which == 0 {
                    bool_value(m, x) && bool_value(m, y)
                } else if which == 1 {
                    bool_value(m, x) || bool_value(m, y)
                } else {
                    !bool_value(m, x)
                },
            ),
        ),
{
    lemma_bool_operand(m, s0, x);
    if which < 2 {
        lemma_bool_operand(m, s0, y);
        let op = if which == 0 { BinOp::And } else { BinOp::Or };
        let e = bin(op, lift_bool(x).unwrap(), lift_bool(y).unwrap());
        assert(fresh_def(s0, s1, r, e));
    } else {
        let e = un(UnOp::Not, lift_bool(x).unwrap());
        assert(fresh_def(s0, s1, r, e));
    }
}

} // verus!
