//! Values that the primitive operations take and return, and their errors.

use vstd::prelude::*;

use crate::bits::B64;
use crate::smt::Sym;

verus! {

/// A register name.
#[derive(Copy, Clone, Debug, PartialEq, Eq, Structural)]
pub struct Name {
    pub id: u32,
}

/// A member of an enumeration: which enumeration, and which member of it.
#[derive(Copy, Clone, Debug, PartialEq, Eq, Structural)]
pub struct EnumMember {
    pub enum_id: usize,
    pub member: usize,
}

/// A value: concrete, or a symbol that the SMT solver knows the definition of.
#[derive(Debug)]
pub enum Val {
    Symbolic(Sym),
    I64(i64),
    I128(i128),
    Bool(bool),
    Bits(B64),
    String(String),
    Unit,
    Vector(Vec<Val>),
    List(Vec<Val>),
    Enum(EnumMember),
    Ref(Name),
    Poison,
}

/// Why a primitive operation failed.
#[derive(Debug)]
pub enum ExecError {
    /// An argument was not of a type the operation accepts.
    Type(&'static str),
    /// A length or count that must be concrete was symbolic.
    SymbolicLength(&'static str),
    /// A conversion or parse did not fit the target type.
    Overflow,
    /// An index lay outside a vector.
    OutOfBounds(&'static str),
    /// An assertion failed, with its message.
    AssertionFailed(String),
    /// The operation is not implemented.
    Unimplemented,
    /// A read from memory the program may not read.
    BadRead,
    /// A write to memory the program may not write.
    BadWrite,
    /// The frame has no ELF entry point.
    NoElfEntry,
    /// The SMT solver could not decide a query.
    SmtUnknown,
}

/// `a` and `b` hold the same value: equal, except that strings and vectors
/// are compared by their contents.
pub open spec fn same_val(a: Val, b: Val) -> bool
    decreases a,
{
    match a {
        Val::String(s) => b matches Val::String(t) && s@ == t@,
        Val::Vector(xs) => b matches Val::Vector(ys) && xs@.len() == ys@.len() && forall|i: int|
            0 <= i < xs@.len() ==> #[trigger] same_val(xs@[i], ys@[i]),
        Val::List(xs) => b matches Val::List(ys) && xs@.len() == ys@.len() && forall|i: int|
            0 <= i < xs@.len() ==> #[trigger] same_val(xs@[i], ys@[i]),
        _ => a == b,
    }
}

/// A copy of each element of `xs`.
fn copy_vals(xs: &Vec<Val>) -> (r: Vec<Val>)
    ensures
        r@.len() == xs@.len(),
        forall|i: int| 0 <= i < xs@.len() ==> #[trigger] same_val(xs@[i], r@[i]),
    decreases xs@, 0nat,
{
    let mut out: Vec<Val> = Vec::new();
    let mut i: usize = 0;
    while i < xs.len()
        invariant
            i <= xs@.len(),
            out@.len() == i,
            forall|k: int| 0 <= k < i ==> #[trigger] same_val(xs@[k], out@[k]),
        decreases xs@.len() - i,
    {
        proof {
            broadcast use vstd::std_specs::vec::axiom_vec_index_decreases;
            assert(decreases_to!(xs@ => xs@[i as int]));
        }
        let c = copy_val(&xs[i]);
        out.push(c);
        i = i + 1;
    }
    out
}

/// A copy of `v`.
pub fn copy_val(v: &Val) -> (r: Val)
    ensures
        same_val(*v, r),
    decreases *v, 1nat,
{
    let r = match v {
        Val::Symbolic(s) => Val::Symbolic(*s),
        Val::I64(n) => Val::I64(*n),
        Val::I128(n) => Val::I128(*n),
        Val::Bool(b) => Val::Bool(*b),
        Val::Bits(b) => Val::Bits(*b),
        Val::String(s) => Val::String(s.clone()),
        Val::Unit => Val::Unit,
        Val::Vector(xs) => {
            let ys = copy_vals(xs);
            proof {
                assert(forall|i: int| 0 <= i < xs@.len() ==> same_val(xs@[i], ys@[i]));
            }
            Val::Vector(ys)
        },
        Val::List(xs) => {
            let ys = copy_vals(xs);
            proof {
                assert(forall|i: int| 0 <= i < xs@.len() ==> same_val(xs@[i], ys@[i]));
            }
            Val::List(ys)
        },
        Val::Enum(e) => Val::Enum(*e),
        Val::Ref(n) => Val::Ref(*n),
        Val::Poison => Val::Poison,
    };
    proof {
        reveal_with_fuel(same_val, 2);
    }
    r
}

/// The frame of the function being executed, as far as the primitive
/// operations read it: the ELF entry point, where the program has one.
pub struct LocalFrame {
    elf_entry: Option<Val>,
}

impl LocalFrame {
    /// The ELF entry point the frame holds.
    pub closed spec fn entry(&self) -> Option<Val> {
        self.elf_entry
    }

    /// A frame holding the ELF entry point `elf_entry`.
    pub fn new(elf_entry: Option<Val>) -> (r: LocalFrame)
        ensures
            r.entry() == elf_entry,
    {
        LocalFrame { elf_entry }
    }

    /// The ELF entry point.
    pub fn elf_entry(&self) -> (r: &Option<Val>)
        ensures
            *r == self.entry(),
    {
        &self.elf_entry
    }
}

} // verus!
