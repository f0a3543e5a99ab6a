//! SMT expressions and definitions, and the solver state that records them.

use vstd::prelude::*;

use crate::val::{EnumMember, Name, Val};

verus! {

/// An SMT variable.
#[derive(Copy, Clone, Debug, PartialEq, Eq, Structural)]
pub struct Sym {
    pub id: u32,
}

/// The sort of an SMT variable.
#[derive(Copy, Clone, Debug, PartialEq, Eq, Structural)]
pub enum Ty {
    Bool,
    BitVec(u32),
    Enum(usize),
}

/// An SMT expression.
#[derive(Debug)]
pub enum Exp {
    Var(Sym),
    Bits(Vec<bool>),
    Bits64(u64, u32),
    Enum(EnumMember),
    Bool(bool),
    Eq(Box<Exp>, Box<Exp>),
    Neq(Box<Exp>, Box<Exp>),
    And(Box<Exp>, Box<Exp>),
    Or(Box<Exp>, Box<Exp>),
    Not(Box<Exp>),
    Bvnot(Box<Exp>),
    Bvand(Box<Exp>, Box<Exp>),
    Bvor(Box<Exp>, Box<Exp>),
    Bvxor(Box<Exp>, Box<Exp>),
    Bvneg(Box<Exp>),
    Bvadd(Box<Exp>, Box<Exp>),
    Bvsub(Box<Exp>, Box<Exp>),
    Bvmul(Box<Exp>, Box<Exp>),
    Bvudiv(Box<Exp>, Box<Exp>),
    Bvsdiv(Box<Exp>, Box<Exp>),
    Bvsmod(Box<Exp>, Box<Exp>),
    Bvshl(Box<Exp>, Box<Exp>),
    Bvlshr(Box<Exp>, Box<Exp>),
    Bvashr(Box<Exp>, Box<Exp>),
    Bvslt(Box<Exp>, Box<Exp>),
    Bvsgt(Box<Exp>, Box<Exp>),
    Bvsle(Box<Exp>, Box<Exp>),
    Bvsge(Box<Exp>, Box<Exp>),
    Extract(u32, u32, Box<Exp>),
    ZeroExtend(u32, Box<Exp>),
    SignExtend(u32, Box<Exp>),
    Concat(Box<Exp>, Box<Exp>),
    Ite(Box<Exp>, Box<Exp>, Box<Exp>),
}

/// The unary operators of SMT expressions.
#[derive(Copy, Clone, Debug, PartialEq, Eq, Structural)]
pub enum UnOp {
    Not,
    Bvnot,
    Bvneg,
}

/// The binary operators of SMT expressions.
#[derive(Copy, Clone, Debug, PartialEq, Eq, Structural)]
pub enum BinOp {
    Eq,
    Neq,
    And,
    Or,
    Bvand,
    Bvor,
    Bvxor,
    Bvadd,
    Bvsub,
    Bvmul,
    Bvudiv,
    Bvsdiv,
    Bvsmod,
    Bvshl,
    Bvlshr,
    Bvashr,
    Bvslt,
    Bvsgt,
    Bvsle,
    Bvsge,
    Concat,
}

/// The mathematical form of an SMT expression.
pub enum SExp {
    Var(Sym),
    Bits(Seq<bool>),
    Bits64(u64, u32),
    Enum(EnumMember),
    Bool(bool),
    Un(UnOp, Box<SExp>),
    Bin(BinOp, Box<SExp>, Box<SExp>),
    Extract(u32, u32, Box<SExp>),
    ZeroExtend(u32, Box<SExp>),
    SignExtend(u32, Box<SExp>),
    Ite(Box<SExp>, Box<SExp>, Box<SExp>),
}

/// Shorthand for a binary expression.
pub open spec fn bin(op: BinOp, a: SExp, b: SExp) -> SExp {
    SExp::Bin(op, Box::new(a), Box::new(b))
}

/// Shorthand for a unary expression.
pub open spec fn un(op: UnOp, a: SExp) -> SExp {
    SExp::Un(op, Box::new(a))
}

/// The mathematical form of `e`.
pub open spec fn sexp(e: Exp) -> SExp
    decreases e,
{
    match e {
        Exp::Var(v) => SExp::Var(v),
        Exp::Bits(bs) => SExp::Bits(bs@),
        Exp::Bits64(b, n) => SExp::Bits64(b, n),
        Exp::Enum(m) => SExp::Enum(m),
        Exp::Bool(b) => SExp::Bool(b),
        Exp::Eq(a, b) => bin(BinOp::Eq, sexp(*a), sexp(*b)),
        Exp::Neq(a, b) => bin(BinOp::Neq, sexp(*a), sexp(*b)),
        Exp::And(a, b) => bin(BinOp::And, sexp(*a), sexp(*b)),
        Exp::Or(a, b) => bin(BinOp::Or, sexp(*a), sexp(*b)),
        Exp::Not(a) => un(UnOp::Not, sexp(*a)),
        Exp::Bvnot(a) => un(UnOp::Bvnot, sexp(*a)),
        Exp::Bvand(a, b) => bin(BinOp::Bvand, sexp(*a), sexp(*b)),
        Exp::Bvor(a, b) => bin(BinOp::Bvor, sexp(*a), sexp(*b)),
        Exp::Bvxor(a, b) => bin(BinOp::Bvxor, sexp(*a), sexp(*b)),
        Exp::Bvneg(a) => un(UnOp::Bvneg, sexp(*a)),
        Exp::Bvadd(a, b) => bin(BinOp::Bvadd, sexp(*a), sexp(*b)),
        Exp::Bvsub(a, b) => bin(BinOp::Bvsub, sexp(*a), sexp(*b)),
        Exp::Bvmul(a, b) => bin(BinOp::Bvmul, sexp(*a), sexp(*b)),
        Exp::Bvudiv(a, b) => bin(BinOp::Bvudiv, sexp(*a), sexp(*b)),
        Exp::Bvsdiv(a, b) => bin(BinOp::Bvsdiv, sexp(*a), sexp(*b)),
        Exp::Bvsmod(a, b) => bin(BinOp::Bvsmod, sexp(*a), sexp(*b)),
        Exp::Bvshl(a, b) => bin(BinOp::Bvshl, sexp(*a), sexp(*b)),
        Exp::Bvlshr(a, b) => bin(BinOp::Bvlshr, sexp(*a), sexp(*b)),
        Exp::Bvashr(a, b) => bin(BinOp::Bvashr, sexp(*a), sexp(*b)),
        Exp::Bvslt(a, b) => bin(BinOp::Bvslt, sexp(*a), sexp(*b)),
        Exp::Bvsgt(a, b) => bin(BinOp::Bvsgt, sexp(*a), sexp(*b)),
        Exp::Bvsle(a, b) => bin(BinOp::Bvsle, sexp(*a), sexp(*b)),
        Exp::Bvsge(a, b) => bin(BinOp::Bvsge, sexp(*a), sexp(*b)),
        Exp::Extract(hi, lo, a) => SExp::Extract(hi, lo, Box::new(sexp(*a))),
        Exp::ZeroExtend(n, a) => SExp::ZeroExtend(n, Box::new(sexp(*a))),
        Exp::SignExtend(n, a) => SExp::SignExtend(n, Box::new(sexp(*a))),
        Exp::Concat(a, b) => bin(BinOp::Concat, sexp(*a), sexp(*b)),
        Exp::Ite(c, a, b) => SExp::Ite(Box::new(sexp(*c)), Box::new(sexp(*a)), Box::new(sexp(*b))),
    }
}

impl View for Exp {
    type V = SExp;

    open spec fn view(&self) -> SExp {
        sexp(*self)
    }
}

/// The sort of an expression, given the sorts of the variables; `None` where
/// the expression is ill-sorted or its width does not fit in `u32`.
pub open spec fn sort_of(decls: Seq<Option<Ty>>, e: SExp) -> Option<Ty>
    decreases e,
{
    match e {
        SExp::Var(v) => if v.id < decls.len() {
            decls[v.id as int]
        } else {
            None
        },
        SExp::Bits(bs) => if bs.len() <= u32::MAX {
            Some(Ty::BitVec(bs.len() as u32))
        } else {
            None
        },
        SExp::Bits64(_, n) => Some(Ty::BitVec(n)),
        SExp::Enum(m) => Some(Ty::Enum(m.enum_id)),
        SExp::Bool(_) => Some(Ty::Bool),
        SExp::Un(op, a) => match op {
            UnOp::Not => Some(Ty::Bool),
            _ => sort_of(decls, *a),
        },
        SExp::Bin(op, a, b) => match op {
            BinOp::Eq | BinOp::Neq | BinOp::And | BinOp::Or | BinOp::Bvslt | BinOp::Bvsgt
            | BinOp::Bvsle | BinOp::Bvsge => Some(Ty::Bool),
            BinOp::Concat => match (sort_of(decls, *a), sort_of(decls, *b)) {
                (Some(Ty::BitVec(n)), Some(Ty::BitVec(m))) => if n + m <= u32::MAX {
                    Some(Ty::BitVec((n + m) as u32))
                } else {
                    None
                },
                _ => None,
            },
            _ => sort_of(decls, *a),
        },
        SExp::Extract(hi, lo, _) => if lo <= hi < u32::MAX {
            Some(Ty::BitVec((hi - lo + 1) as u32))
        } else {
            None
        },
        SExp::ZeroExtend(n, a) | SExp::SignExtend(n, a) => match sort_of(decls, *a) {
            Some(Ty::BitVec(m)) => if n + m <= u32::MAX {
                Some(Ty::BitVec((n + m) as u32))
            } else {
                None
            },
            _ => None,
        },
        SExp::Ite(_, a, _) => sort_of(decls, *a),
    }
}

impl Exp {
    /// A copy of the expression.
    pub fn copy(&self) -> (r: Exp)
        ensures
            r@ == self@,
        decreases self,
    {
        match self {
            Exp::Var(v) => Exp::Var(*v),
            Exp::Bits(bs) => {
                let mut c: Vec<bool> = Vec::new();
                let mut i: usize = 0;
                while i < bs.len()
                    invariant
                        i <= bs@.len(),
                        c@ =~= bs@.subrange(0, i as int),
                    decreases bs@.len() - i,
                {
                    c.push(bs[i]);
                    i = i + 1;
                }
                proof {
                    assert(c@ =~= bs@);
                }
                Exp::Bits(c)
            },
            Exp::Bits64(b, n) => Exp::Bits64(*b, *n),
            Exp::Enum(m) => Exp::Enum(*m),
            Exp::Bool(b) => Exp::Bool(*b),
            Exp::Eq(a, b) => Exp::binary(BinOp::Eq, a.copy(), b.copy()),
            Exp::Neq(a, b) => Exp::binary(BinOp::Neq, a.copy(), b.copy()),
            Exp::And(a, b) => Exp::binary(BinOp::And, a.copy(), b.copy()),
            Exp::Or(a, b) => Exp::binary(BinOp::Or, a.copy(), b.copy()),
            Exp::Not(a) => Exp::unary(UnOp::Not, a.copy()),
            Exp::Bvnot(a) => Exp::unary(UnOp::Bvnot, a.copy()),
            Exp::Bvand(a, b) => Exp::binary(BinOp::Bvand, a.copy(), b.copy()),
            Exp::Bvor(a, b) => Exp::binary(BinOp::Bvor, a.copy(), b.copy()),
            Exp::Bvxor(a, b) => Exp::binary(BinOp::Bvxor, a.copy(), b.copy()),
            Exp::Bvneg(a) => Exp::unary(UnOp::Bvneg, a.copy()),
            Exp::Bvadd(a, b) => Exp::binary(BinOp::Bvadd, a.copy(), b.copy()),
            Exp::Bvsub(a, b) => Exp::binary(BinOp::Bvsub, a.copy(), b.copy()),
            Exp::Bvmul(a, b) => Exp::binary(BinOp::Bvmul, a.copy(), b.copy()),
            Exp::Bvudiv(a, b) => Exp::binary(BinOp::Bvudiv, a.copy(), b.copy()),
            Exp::Bvsdiv(a, b) => Exp::binary(BinOp::Bvsdiv, a.copy(), b.copy()),
            Exp::Bvsmod(a, b) => Exp::binary(BinOp::Bvsmod, a.copy(), b.copy()),
            Exp::Bvshl(a, b) => Exp::binary(BinOp::Bvshl, a.copy(), b.copy()),
            Exp::Bvlshr(a, b) => Exp::binary(BinOp::Bvlshr, a.copy(), b.copy()),
            Exp::Bvashr(a, b) => Exp::binary(BinOp::Bvashr, a.copy(), b.copy()),
            Exp::Bvslt(a, b) => Exp::binary(BinOp::Bvslt, a.copy(), b.copy()),
            Exp::Bvsgt(a, b) => Exp::binary(BinOp::Bvsgt, a.copy(), b.copy()),
            Exp::Bvsle(a, b) => Exp::binary(BinOp::Bvsle, a.copy(), b.copy()),
            Exp::Bvsge(a, b) => Exp::binary(BinOp::Bvsge, a.copy(), b.copy()),
            Exp::Extract(hi, lo, a) => Exp::Extract(*hi, *lo, Box::new(a.copy())),
            Exp::ZeroExtend(n, a) => Exp::ZeroExtend(*n, Box::new(a.copy())),
            Exp::SignExtend(n, a) => Exp::SignExtend(*n, Box::new(a.copy())),
            Exp::Concat(a, b) => Exp::binary(BinOp::Concat, a.copy(), b.copy()),
            Exp::Ite(c, a, b) => Exp::Ite(Box::new(c.copy()), Box::new(a.copy()), Box::new(b.copy())),
        }
    }

    /// The expression `op a b`.
    pub fn binary(op: BinOp, a: Exp, b: Exp) -> (r: Exp)
        ensures
            r@ == bin(op, a@, b@),
    {
        let a = Box::new(a);
        let b = Box::new(b);
        match op {
            BinOp::Eq => Exp::Eq(a, b),
            BinOp::Neq => Exp::Neq(a, b),
            BinOp::And => Exp::And(a, b),
            BinOp::Or => Exp::Or(a, b),
            BinOp::Bvand => Exp::Bvand(a, b),
            BinOp::Bvor => Exp::Bvor(a, b),
            BinOp::Bvxor => Exp::Bvxor(a, b),
            BinOp::Bvadd => Exp::Bvadd(a, b),
            BinOp::Bvsub => Exp::Bvsub(a, b),
            BinOp::Bvmul => Exp::Bvmul(a, b),
            BinOp::Bvudiv => Exp::Bvudiv(a, b),
            BinOp::Bvsdiv => Exp::Bvsdiv(a, b),
            BinOp::Bvsmod => Exp::Bvsmod(a, b),
            BinOp::Bvshl => Exp::Bvshl(a, b),
            BinOp::Bvlshr => Exp::Bvlshr(a, b),
            BinOp::Bvashr => Exp::Bvashr(a, b),
            BinOp::Bvslt => Exp::Bvslt(a, b),
            BinOp::Bvsgt => Exp::Bvsgt(a, b),
            BinOp::Bvsle => Exp::Bvsle(a, b),
            BinOp::Bvsge => Exp::Bvsge(a, b),
            BinOp::Concat => Exp::Concat(a, b),
        }
    }

    /// The expression `op a`.
    pub fn unary(op: UnOp, a: Exp) -> (r: Exp)
        ensures
            r@ == un(op, a@),
    {
        let a = Box::new(a);
        match op {
            UnOp::Not => Exp::Not(a),
            UnOp::Bvnot => Exp::Bvnot(a),
            UnOp::Bvneg => Exp::Bvneg(a),
        }
    }
}

/// A solver command.
#[derive(Debug)]
pub enum Def {
    DeclareConst(Sym, Ty),
    DefineConst(Sym, Exp),
    Assert(Exp),
}

/// The mathematical form of a solver command.
pub enum SDef {
    DeclareConst(Sym, Ty),
    DefineConst(Sym, SExp),
    Assert(SExp),
}

impl View for Def {
    type V = SDef;

    open spec fn view(&self) -> SDef {
        match *self {
            Def::DeclareConst(v, ty) => SDef::DeclareConst(v, ty),
            Def::DefineConst(v, e) => SDef::DefineConst(v, e@),
            Def::Assert(e) => SDef::Assert(e@),
        }
    }
}

/// The answer of the SMT solver to a satisfiability query.
#[derive(Copy, Clone, Debug, PartialEq, Eq, Structural)]
pub enum SmtResult {
    Sat,
    Unsat,
    Unknown,
}

/// Something the executed program did that is recorded beside the SMT trace.
#[derive(Debug)]
pub enum Event {
    WakeupRequest,
    Instr(Val),
    Branch { address: Val },
    Barrier { barrier_kind: Val },
    CacheOp { cache_op_kind: Val, address: Val },
    MarkReg { reg: Name, mark: String },
}

} // verus!

verus! {

/// The width of a variable that has a bitvector sort.
pub open spec fn length_in(decls: Seq<Option<Ty>>, v: Sym) -> Option<u32> {
    if v.id < decls.len() {
        match decls[v.id as int] {
            Some(Ty::BitVec(n)) => Some(n),
            _ => None,
        }
    } else {
        None
    }
}

/// The sort of `e` given the sorts in `decls`.
fn sort_exp(decls: &Vec<Option<Ty>>, e: &Exp) -> (r: Option<Ty>)
    ensures
        r == sort_of(decls@, e@),
    decreases e,
{
    match e {
        Exp::Var(v) => {
            if (v.id as usize) < decls.len() {
                decls[v.id as usize]
            } else {
                None
            }
        },
        Exp::Bits(bs) => {
            if bs.len() <= 0xffff_ffff {
                Some(Ty::BitVec(bs.len() as u32))
            } else {
                None
            }
        },
        Exp::Bits64(_, n) => Some(Ty::BitVec(*n)),
        Exp::Enum(m) => Some(Ty::Enum(m.enum_id)),
        Exp::Bool(_) => Some(Ty::Bool),
        Exp::Not(_) => Some(Ty::Bool),
        Exp::Eq(_, _) | Exp::Neq(_, _) | Exp::And(_, _) | Exp::Or(_, _) | Exp::Bvslt(_, _)
        | Exp::Bvsgt(_, _) | Exp::Bvsle(_, _) | Exp::Bvsge(_, _) => Some(Ty::Bool),
        Exp::Bvnot(a) | Exp::Bvneg(a) => sort_exp(decls, a),
        Exp::Bvand(a, _) | Exp::Bvor(a, _) | Exp::Bvxor(a, _) | Exp::Bvadd(a, _) | Exp::Bvsub(a, _)
        | Exp::Bvmul(a, _) | Exp::Bvudiv(a, _) | Exp::Bvsdiv(a, _) | Exp::Bvsmod(a, _)
        | Exp::Bvshl(a, _) | Exp::Bvlshr(a, _) | Exp::Bvashr(a, _) => sort_exp(decls, a),
        Exp::Concat(a, b) => {
            match (sort_exp(decls, a), sort_exp(decls, b)) {
                (Some(Ty::BitVec(n)), Some(Ty::BitVec(m))) => {
                    if (n as u64) + (m as u64) <= 0xffff_ffff {
                        Some(Ty::BitVec(n + m))
                    } else {
                        None
                    }
                },
                _ => None,
            }
        },
        Exp::Extract(hi, lo, _) => {
            if *lo <= *hi && *hi < 0xffff_ffff {
                Some(Ty::BitVec(*hi - *lo + 1))
            } else {
                None
            }
        },
        Exp::ZeroExtend(n, a) | Exp::SignExtend(n, a) => {
            match sort_exp(decls, a) {
                Some(Ty::BitVec(m)) => {
                    if (*n as u64) + (m as u64) <= 0xffff_ffff {
                        Some(Ty::BitVec(*n + m))
                    } else {
                        None
                    }
                },
                _ => None,
            }
        },
        Exp::Ite(_, a, _) => sort_exp(decls, a),
    }
}

/// The sorts of the variables after fresh ones are defined as `es`, one after
/// another.
pub open spec fn sorts_after(decls: Seq<Option<Ty>>, es: Seq<SExp>) -> Seq<Option<Ty>>
    decreases es.len(),
{
    if es.len() == 0 {
        decls
    } else {
        let d = sorts_after(decls, es.drop_last());
        d.push(sort_of(d.push(None), es.last()))
    }
}

/// Defining `es` adds one variable for each.
pub proof fn lemma_sorts_after_len(decls: Seq<Option<Ty>>, es: Seq<SExp>)
    ensures
        sorts_after(decls, es).len() == decls.len() + es.len(),
        decls.is_prefix_of(sorts_after(decls, es)),
    decreases es.len(),
{
    if es.len() > 0 {
        lemma_sorts_after_len(decls, es.drop_last());
    }
}

/// No definitions leave the solver as it was.
pub proof fn lemma_defines_each_none(s: Solver)
    ensures
        Solver::defines_each(&s, &s, Seq::empty()),
{
    assert(s.defs() + Seq::new(0, |i: int| SDef::DefineConst(Sym { id: (s.decls().len() + i) as u32 }, Seq::<SExp>::empty()[i])) =~= s.defs());
}

/// A run of definitions followed by one more is a longer run.
pub proof fn lemma_defines_each_push(old: Solver, mid: Solver, new: Solver, es: Seq<SExp>, e: SExp)
    requires
        Solver::defines_each(&old, &mid, es),
        Solver::defines(&mid, &new, mid.next_sym(), e),
    ensures
        Solver::defines_each(&old, &new, es.push(e)),
{
    lemma_sorts_after_len(old.decls(), es);
    let es1 = es.push(e);
    assert(es1.drop_last() =~= es);
    assert(new.decls() =~= sorts_after(old.decls(), es1));
    assert(new.defs() =~= old.defs() + Seq::new(
        es1.len(),
        |i: int| SDef::DefineConst(Sym { id: (old.decls().len() + i) as u32 }, es1[i]),
    ));
}

/// The state of the SMT solver as the primitive operations see it: the sort of
/// each variable so far, the commands given to it in order, the events
/// recorded, and the cycle counter.
pub struct Solver {
    decls: Vec<Option<Ty>>,
    trace: Vec<Def>,
    events: Vec<Event>,
    cycles: i128,
}

impl Solver {
    /// The sort of each variable, by its number; `None` for a variable whose
    /// sort is not known.
    pub closed spec fn decls(&self) -> Seq<Option<Ty>> {
        self.decls@
    }

    /// The commands given to the solver, in order.
    pub closed spec fn defs(&self) -> Seq<SDef> {
        self.trace@.map_values(|d: Def| d@)
    }

    /// The events recorded, in order.
    pub closed spec fn events(&self) -> Seq<Event> {
        self.events@
    }

    /// The cycle counter.
    pub closed spec fn cycles(&self) -> int {
        self.cycles as int
    }

    /// The variable that the next call of `fresh` will return.
    pub open spec fn next_sym(&self) -> Sym {
        Sym { id: self.decls().len() as u32 }
    }

    /// Whether `k` more variables can be numbered.
    pub open spec fn room(&self, k: nat) -> bool {
        self.decls().len() + k <= u32::MAX
    }

    /// The width of variable `v`, where it is a bitvector.
    pub open spec fn sym_length(&self, v: Sym) -> Option<u32> {
        length_in(self.decls(), v)
    }

    /// `new` differs from `old` only by a fresh variable defined as `e`.
    pub open spec fn defines(old: &Solver, new: &Solver, v: Sym, e: SExp) -> bool {
        &&& v == old.next_sym()
        &&& new.decls() == old.decls().push(sort_of(old.decls().push(None), e))
        &&& new.defs() == old.defs().push(SDef::DefineConst(v, e))
        &&& new.events() == old.events()
        &&& new.cycles() == old.cycles()
    }

    /// `new` differs from `old` only by a fresh variable declared of sort `ty`.
    pub open spec fn declares(old: &Solver, new: &Solver, v: Sym, ty: Ty) -> bool {
        &&& v == old.next_sym()
        &&& new.decls() == old.decls().push(Some(ty))
        &&& new.defs() == old.defs().push(SDef::DeclareConst(v, ty))
        &&& new.events() == old.events()
        &&& new.cycles() == old.cycles()
    }

    /// `new` is `old` with fresh variables defined as `es`, in order.
    pub open spec fn defines_each(old: &Solver, new: &Solver, es: Seq<SExp>) -> bool {
        &&& new.decls() == sorts_after(old.decls(), es)
        &&& new.defs() == old.defs() + Seq::new(
            es.len(),
            |i: int| SDef::DefineConst(Sym { id: (old.decls().len() + i) as u32 }, es[i]),
        )
        &&& new.events() == old.events()
        &&& new.cycles() == old.cycles()
    }

    /// A solver with no variables, commands or events.
    pub fn new() -> (r: Solver)
        ensures
            r.decls() == Seq::<Option<Ty>>::empty(),
            r.defs() == Seq::<SDef>::empty(),
            r.events() == Seq::<Event>::empty(),
            r.cycles() == 0,
    {
        let r = Solver { decls: Vec::new(), trace: Vec::new(), events: Vec::new(), cycles: 0 };
        proof {
            assert(r.defs() =~= Seq::<SDef>::empty());
        }
        r
    }

    /// A variable not used before.
    pub fn fresh(&mut self) -> (v: Sym)
        requires
            old(self).room(1),
        ensures
            v == old(self).next_sym(),
            final(self).decls() == old(self).decls().push(None),
            final(self).defs() == old(self).defs(),
            final(self).events() == old(self).events(),
            final(self).cycles() == old(self).cycles(),
    {
        let v = Sym { id: self.decls.len() as u32 };
        self.decls.push(None);
        v
    }

    /// Gives a command to the solver, and records the sort of the variable it
    /// declares or defines.
    pub fn add(&mut self, def: Def)
        requires
            def matches Def::DeclareConst(v, _) ==> v.id < old(self).decls().len(),
            def matches Def::DefineConst(v, _) ==> v.id < old(self).decls().len(),
        ensures
            final(self).defs() == old(self).defs().push(def@),
            final(self).decls() == (match def@ {
                SDef::DeclareConst(v, ty) => old(self).decls().update(v.id as int, Some(ty)),
                SDef::DefineConst(v, e) => old(self).decls().update(
                    v.id as int,
                    sort_of(old(self).decls(), e),
                ),
                SDef::Assert(_) => old(self).decls(),
            }),
            final(self).events() == old(self).events(),
            final(self).cycles() == old(self).cycles(),
    {
        match &def {
            Def::DeclareConst(v, ty) => {
                self.decls.set(v.id as usize, Some(*ty));
            },
            Def::DefineConst(v, e) => {
                let ty = sort_exp(&self.decls, e);
                self.decls.set(v.id as usize, ty);
            },
            Def::Assert(_) => {},
        }
        let ghost old_trace = self.trace@;
        self.trace.push(def);
        proof {
            assert(self.trace@.map_values(|d: Def| d@) =~= old_trace.map_values(|d: Def| d@).push(
                def@,
            ));
        }
    }

    /// A fresh variable defined as `e`.
    pub fn define_const(&mut self, e: Exp) -> (v: Sym)
        requires
            old(self).room(1),
        ensures
            Solver::defines(old(self), final(self), v, e@),
    {
        let v = self.fresh();
        self.add(Def::DefineConst(v, e));
        proof {
            assert(self.decls() =~= old(self).decls().push(sort_of(old(self).decls().push(None), e@)));
        }
        v
    }

    /// A fresh variable declared of sort `ty`.
    pub fn declare_const(&mut self, ty: Ty) -> (v: Sym)
        requires
            old(self).room(1),
        ensures
            Solver::declares(old(self), final(self), v, ty),
    {
        let v = self.fresh();
        self.add(Def::DeclareConst(v, ty));
        proof {
            assert(self.decls() =~= old(self).decls().push(Some(ty)));
        }
        v
    }

    /// The width of variable `v`, where it is a bitvector.
    pub fn length(&self, v: Sym) -> (r: Option<u32>)
        ensures
            r == self.sym_length(v),
    {
        if (v.id as usize) < self.decls.len() {
            match self.decls[v.id as usize] {
                Some(Ty::BitVec(n)) => Some(n),
                _ => None,
            }
        } else {
            None
        }
    }

    /// Whether variable `v` is a bitvector.
    pub fn is_bitvector(&self, v: Sym) -> (r: bool)
        ensures
            r == (self.sym_length(v) is Some),
    {
        self.length(v).is_some()
    }

    /// Records an event.
    pub fn add_event(&mut self, event: Event)
        ensures
            final(self).events() == old(self).events().push(event),
            final(self).decls() == old(self).decls(),
            final(self).defs() == old(self).defs(),
            final(self).cycles() == old(self).cycles(),
    {
        self.events.push(event);
    }

    /// Counts one cycle.
    pub fn cycle_count(&mut self)
        requires
            old(self).cycles() < i128::MAX,
        ensures
            final(self).cycles() == old(self).cycles() + 1,
            final(self).events() == old(self).events(),
            final(self).decls() == old(self).decls(),
            final(self).defs() == old(self).defs(),
    {
        self.cycles = self.cycles + 1;
    }

    /// The number of cycles counted.
    pub fn get_cycle_count(&self) -> (r: i128)
        ensures
            r == self.cycles(),
    {
        self.cycles
    }

    /// The commands given so far, in order.
    pub fn trace(&self) -> (r: &Vec<Def>)
        ensures
            r@.map_values(|d: Def| d@) == self.defs(),
    {
        &self.trace
    }

    /// The events recorded so far, in order.
    pub fn recorded_events(&self) -> (r: &Vec<Event>)
        ensures
            r@ == self.events(),
    {
        &self.events
    }
}

} // verus!
