//! Lists and vectors: heads, tails, element access, and symbolic choice.

use vstd::arithmetic::power2::pow2;
use vstd::prelude::*;

use super::bitvec::fit_shift;
use super::encode::{sexp_bits, sexp_i128, sexp_of_val, smt_i128, smt_sbits, smt_value};
use super::{fails, fresh_def, unchanged, yields, yields_bits};
use crate::bits::B64;
use crate::smt::{bin, sexp, BinOp, Def, Exp, SDef, SExp, Solver, Sym, Ty};
use crate::val::{copy_val, same_val, ExecError, Val};

verus! {

/// What `op_head` gives: the most recently added element of a non-empty
/// list.
pub open spec fn head_post(old: Solver, new: Solver, r: Result<Val, ExecError>, xs: Val) -> bool {
    &&& unchanged(old, new)
    &&& match xs {
        Val::List(v) => if v@.len() > 0 {
            r == Ok::<Val, ExecError>(v@.last())
        } else {
            r == Err::<Val, ExecError>(ExecError::Type("op_head"))
        },
        _ => r == Err::<Val, ExecError>(ExecError::Type("op_head")),
    }
}

/// The head of a list: its most recently added element.
pub fn op_head(xs: Val, solver: &mut Solver) -> (r: Result<Val, ExecError>)
    ensures
        head_post(*old(solver), *final(solver), r, xs),
{
    match xs {
        Val::List(xs) => {
            let mut xs = xs;
            match xs.pop() {
                Some(x) => Ok(x),
                None => Err(ExecError::Type("op_head")),
            }
        },
        _ => Err(ExecError::Type("op_head")),
    }
}

/// What `op_tail` gives: a list without its most recently added element.
pub open spec fn tail_post(old: Solver, new: Solver, r: Result<Val, ExecError>, xs: Val) -> bool {
    &&& unchanged(old, new)
    &&& match xs {
        Val::List(v) => r matches Ok(Val::List(w)) && w@ == (if v@.len() > 0 {
            v@.drop_last()
        } else {
            v@
        }),
        _ => r == Err::<Val, ExecError>(ExecError::Type("op_tail")),
    }
}

/// The tail of a list: the list without its most recently added element.
pub fn op_tail(xs: Val, solver: &mut Solver) -> (r: Result<Val, ExecError>)
    ensures
        tail_post(*old(solver), *final(solver), r, xs),
{
    match xs {
        Val::List(xs) => {
            let mut xs = xs;
            xs.pop();
            Ok(Val::List(xs))
        },
        _ => Err(ExecError::Type("op_tail")),
    }
}

/// A list with `x` added as its head; the poison value stands for the empty
/// list.
pub fn cons(x: Val, xs: Val, solver: &mut Solver) -> (r: Result<Val, ExecError>)
    ensures
        unchanged(*old(solver), *final(solver)),
        match xs {
            Val::Poison => r matches Ok(Val::List(w)) && w@ == seq![x],
            Val::List(v) => r matches Ok(Val::List(w)) && w@ == v@.push(x),
            _ => r == Err::<Val, ExecError>(ExecError::Type("cons")),
        },
{
    match xs {
        Val::Poison => {
            let mut v: Vec<Val> = Vec::new();
            v.push(x);
            proof {
                assert(v@ =~= seq![x]);
            }
            Ok(Val::List(v))
        },
        Val::List(xs) => {
            let mut xs = xs;
            xs.push(x);
            Ok(Val::List(xs))
        },
        _ => Err(ExecError::Type("cons")),
    }
}

/// Bit `n` of a symbolic bitvector.
fn access_symbolic(bits: Sym, n: Exp, solver: &mut Solver) -> (r: Result<Val, ExecError>)
    requires
        old(solver).room(1),
        old(solver).sym_length(bits) matches Some(len) ==> len >= 1,
    ensures
        match old(solver).sym_length(bits) {
            Some(len) => fresh_def(*old(solver), *final(solver), r, SExp::Extract(0, 0, Box::new(bin(BinOp::Bvlshr, SExp::Var(bits), fit_shift(len, n@))))),
            None => fails(*old(solver), *final(solver), r, ExecError::Type("vector_access")),
        },
{
    proof {
        reveal_with_fuel(sexp, 3);
    }
    match solver.length(bits) {
        Some(length) => {
            let shift = super::bitvec::fit_to(length, n);
            let e = Exp::Extract(0, 0, Box::new(Exp::Bvlshr(Box::new(Exp::Var(bits)), Box::new(shift))));
            Ok(Val::Symbolic(solver.define_const(e)))
        },
        None => Err(ExecError::Type("vector_access")),
    }
}

/// What `vector_access` gives on a concrete bitvector.
pub open spec fn access_bits_post(old: Solver, new: Solver, r: Result<Val, ExecError>, b: B64, n: Val) -> bool {
    match n {
        Val::Symbolic(k) => fresh_def(
            old,
            new,
            r,
            SExp::Extract(0, 0, Box::new(bin(BinOp::Bvlshr, sexp_bits(b), SExp::Extract((b.width() - 1) as u32, 0, Box::new(SExp::Var(k)))))),
        ),
        Val::I128(k) => if (k as u32) + 1 <= b.width() {
            yields_bits(old, new, r, 1, (b.value() / pow2((k as u32) as nat)) % 2)
        } else {
            fails(old, new, r, ExecError::Type("vector_access"))
        },
        _ => fails(old, new, r, ExecError::Type("vector_access")),
    }
}

/// Bit `n` of a concrete bitvector.
fn access_bits(bits: B64, n: Val, solver: &mut Solver) -> (r: Result<Val, ExecError>)
    requires
        old(solver).room(1),
        n is Symbolic ==> bits.width() >= 1,
    ensures
        access_bits_post(*old(solver), *final(solver), r, bits, n),
{
    match n {
        Val::Symbolic(n) => {
            let shift = Exp::Extract(bits.len() - 1, 0, Box::new(Exp::Var(n)));
            assert(shift@ == SExp::Extract((bits.width() - 1) as u32, 0, Box::new(SExp::Var(n)))) by {
                reveal_with_fuel(sexp, 2);
            }
            let shifted = Exp::binary(BinOp::Bvlshr, smt_sbits(bits), shift);
            let e = Exp::Extract(0, 0, Box::new(shifted));
            Ok(Val::Symbolic(solver.define_const(e)))
        },
        Val::I128(n) => bit_at(bits, n),
        _ => Err(ExecError::Type("vector_access")),
    }
}

/// Bit `n` of a concrete bitvector, counting `n` modulo `2^32`.
fn bit_at(bits: B64, n: i128) -> (r: Result<Val, ExecError>)
    ensures
        if (n as u32) + 1 <= bits.width() {
            r matches Ok(Val::Bits(b)) && b.width() == 1 && b.value() == (bits.value() / pow2((n as u32) as nat)) % 2
        } else {
            r == Err::<Val, ExecError>(ExecError::Type("vector_access"))
        },
{
    proof {
        vstd::arithmetic::power2::lemma2_to64();
    }
    match bits.slice(n as u32, 1) {
        Some(bit) => Ok(Val::Bits(bit)),
        None => Err(ExecError::Type("vector_access")),
    }
}

/// What `vector_access` gives on a symbolic bitvector.
pub open spec fn access_symbolic_post(old: Solver, new: Solver, r: Result<Val, ExecError>, v: Sym, n: Val) -> bool {
    match (n, old.sym_length(v)) {
        (Val::Symbolic(k), Some(len)) => fresh_def(old, new, r, SExp::Extract(0, 0, Box::new(bin(BinOp::Bvlshr, SExp::Var(v), fit_shift(len, SExp::Var(k)))))),
        (Val::I128(k), Some(len)) => fresh_def(old, new, r, SExp::Extract(0, 0, Box::new(bin(BinOp::Bvlshr, SExp::Var(v), fit_shift(len, sexp_i128(k)))))),
        _ => fails(old, new, r, ExecError::Type("vector_access")),
    }
}

/// Bit `n` of a bitvector, as a one-bit bitvector; element `n` of a vector.
pub fn vector_access(vec: Val, n: Val, solver: &mut Solver) -> (r: Result<Val, ExecError>)
    requires
        old(solver).room(1),
        vec matches Val::Symbolic(v) ==> (old(solver).sym_length(v) matches Some(len) ==> len >= 1),
        vec matches Val::Bits(b) ==> (n is Symbolic ==> b.width() >= 1),
    ensures
        match vec {
            Val::Symbolic(v) => access_symbolic_post(*old(solver), *final(solver), r, v, n),
            Val::Bits(b) => access_bits_post(*old(solver), *final(solver), r, b, n),
            Val::Vector(v) => match n {
                Val::I128(k) => if (k as usize) < v@.len() {
                    yields(*old(solver), *final(solver), r, v@[(k as usize) as int])
                } else {
                    fails(*old(solver), *final(solver), r, ExecError::OutOfBounds("vector_access"))
                },
                _ => fails(*old(solver), *final(solver), r, ExecError::Type("vector_access")),
            },
            _ => fails(*old(solver), *final(solver), r, ExecError::Type("vector_access")),
        },
{
    match (vec, n) {
        (Val::Symbolic(bits), Val::Symbolic(n)) => access_symbolic(bits, Exp::Var(n), solver),
        (Val::Symbolic(bits), Val::I128(n)) => access_symbolic(bits, smt_i128(n), solver),
        (Val::Bits(bits), n) => access_bits(bits, n, solver),
        (Val::Vector(vec), Val::I128(n)) => {
            let i = n as usize;
            if i < vec.len() {
                let mut vec = vec;
                Ok(vec.swap_remove(i))
            } else {
                Err(ExecError::OutOfBounds("vector_access"))
            }
        },
        (_, _) => Err(ExecError::Type("vector_access")),
    }
}

/// A vector of `len` copies of `elem`.
pub fn undefined_vector(len: Val, elem: Val, solver: &mut Solver) -> (r: Result<Val, ExecError>)
    ensures
        unchanged(*old(solver), *final(solver)),
        match len {
            Val::I128(n) => if 0 <= n <= usize::MAX {
                r matches Ok(Val::Vector(v)) && v@.len() == n && forall|i: int|
                    0 <= i < n ==> #[trigger] same_val(elem, v@[i])
            } else {
                r == Err::<Val, ExecError>(ExecError::Overflow)
            },
            _ => r == Err::<Val, ExecError>(ExecError::SymbolicLength("undefined_vector")),
        },
{
    if let Val::I128(len) = len {
        if 0 <= len && len <= usize::MAX as i128 {
            let n = len as usize;
            let mut v: Vec<Val> = Vec::new();
            let mut i: usize = 0;
            while i < n
                invariant
                    i <= n,
                    v@.len() == i,
                    forall|k: int| 0 <= k < i ==> #[trigger] same_val(elem, v@[k]),
                decreases n - i,
            {
                v.push(copy_val(&elem));
                i = i + 1;
            }
            Ok(Val::Vector(v))
        } else {
            Err(ExecError::Overflow)
        }
    } else {
        Err(ExecError::SymbolicLength("undefined_vector"))
    }
}

/// The smallest `k` with `2^k >= m`.
pub open spec fn clog2(m: nat) -> nat
    decreases m,
{
    if m <= 1 {
        0
    } else {
        1 + clog2(((m + 1) / 2) as nat)
    }
}

/// The SMT choice among `xs`, numbered from `n` upwards starting at the last
/// element: `if sym == n then xs.last() else ...`; `None` where an element has
/// no SMT form.
pub open spec fn chain_sexp(sym: Sym, n: nat, sz: u32, xs: Seq<Val>) -> Option<SExp>
    decreases xs.len(),
{
    if xs.len() <= 1 {
        if xs.len() == 1 {
            sexp_of_val(xs[0])
        } else {
            None
        }
    } else {
        match (sexp_of_val(xs.last()), chain_sexp(sym, n + 1, sz, xs.drop_last())) {
            (Some(x), Some(rest)) => Some(
                SExp::Ite(
                    Box::new(bin(BinOp::Eq, SExp::Var(sym), SExp::Bits64(n as u64, sz))),
                    Box::new(x),
                    Box::new(rest),
                ),
            ),
            _ => None,
        }
    }
}

/// The error of `chain_sexp` where it has none.
pub fn choice_chain(sym: Sym, n: u64, sz: u32, xs: Vec<Val>) -> (r: Result<Exp, ExecError>)
    requires
        xs@.len() >= 1,
        n + xs@.len() <= u64::MAX,
    ensures
        match chain_sexp(sym, n as nat, sz, xs@) {
            Some(e) => r matches Ok(x) && x@ == e,
            None => r == Err::<Exp, ExecError>(ExecError::Type("smt_value")),
        },
    decreases xs@.len(),
{
    proof {
        reveal_with_fuel(sexp, 3);
    }
    if xs.len() == 1 {
        smt_value(&xs[0])
    } else {
        let mut xs = xs;
        let x = xs.pop().unwrap();
        let ghost rest = xs@;
        let head = smt_value(&x)?;
        let tail = choice_chain(sym, n + 1, sz, xs)?;
        let test = Exp::Eq(Box::new(Exp::Var(sym)), Box::new(Exp::Bits64(n, sz)));
        Ok(Exp::Ite(Box::new(test), Box::new(head), Box::new(tail)))
    }
}

/// `clog2(m) <= k` where `m <= 2^k`.
proof fn lemma_clog2_bound(m: nat, k: nat)
    requires
        m <= pow2(k),
    ensures
        clog2(m) <= k,
    decreases m,
{
    if m > 1 {
        if k == 0 {
            vstd::arithmetic::power2::lemma2_to64();
        } else {
            vstd::arithmetic::power2::lemma_pow2_unfold(k);
            lemma_clog2_bound(((m + 1) / 2) as nat, (k - 1) as nat);
        }
    }
}

/// The smallest `k` with `2^k >= m`, for `m >= 1`.
fn ceil_log2(m: usize) -> (r: u32)
    requires
        m >= 1,
    ensures
        r == clog2(m as nat),
    decreases m,
{
    proof {
        vstd::arithmetic::power2::lemma2_to64_rest();
        lemma_clog2_bound(m as nat, 64);
    }
    if m <= 1 {
        0
    } else {
        let h = m / 2 + m % 2;
        proof {
            assert(h == (m + 1) / 2);
        }
        1 + ceil_log2(h)
    }
}

/// What `choice` gives for a non-empty list `xs`.
pub open spec fn choice_post(old: Solver, new: Solver, r: Result<Val, ExecError>, xs: Seq<Val>) -> bool {
    let sz = clog2(xs.len() + 1) as u32;
    let sym = old.next_sym();
    let pick = Sym { id: (sym.id + 1) as u32 };
    let declared = old.decls().push(Some(Ty::BitVec(sz))).push(None);
    let defs = old.defs().push(SDef::DeclareConst(sym, Ty::BitVec(sz)));
    &&& new.events() == old.events()
    &&& new.cycles() == old.cycles()
    &&& match chain_sexp(sym, 0, sz, xs) {
        Some(e) => {
            &&& r == Ok::<Val, ExecError>(Val::Symbolic(pick))
            &&& new.decls() == declared.update(pick.id as int, crate::smt::sort_of(declared, e))
            &&& new.defs() == defs.push(SDef::DefineConst(pick, e))
        },
        None => {
            &&& r == Err::<Val, ExecError>(ExecError::Type("smt_value"))
            &&& new.decls() == declared
            &&& new.defs() == defs
        },
    }
}

/// A fresh symbol standing for any one element of a non-empty list: a new
/// bitvector variable just wide enough to number the elements selects among
/// them.
pub fn choice(xs: Val, solver: &mut Solver) -> (r: Result<Val, ExecError>)
    requires
        old(solver).room(2),
        xs matches Val::List(v) ==> 1 <= v@.len() < usize::MAX,
    ensures
        match xs {
            Val::List(v) => choice_post(*old(solver), *final(solver), r, v@),
            _ => fails(*old(solver), *final(solver), r, ExecError::Type("cons")),
        },
{
    match xs {
        Val::List(xs) => {
            let sz = ceil_log2(xs.len() + 1);
            let sym = solver.fresh();
            let pick = solver.fresh();
            solver.add(Def::DeclareConst(sym, Ty::BitVec(sz)));
            proof {
                assert(solver.decls() =~= old(solver).decls().push(Some(Ty::BitVec(sz))).push(None));
            }
            let chain = choice_chain(sym, 0, sz, xs)?;
            solver.add(Def::DefineConst(pick, chain));
            Ok(Val::Symbolic(pick))
        },
        _ => Err(ExecError::Type("cons")),
    }
}

} // verus!
