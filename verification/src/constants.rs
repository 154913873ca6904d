//! LLVM constants and their conversion to bitvector terms.
//!
//! `denote` gives the meaning of a constant: the bits it stands for, or the
//! reason it cannot be converted. `const_to_bv` builds a term for a constant
//! and is proved to evaluate, in every environment, to exactly those bits.

use vstd::arithmetic::power2::pow2;
use vstd::prelude::*;

use crate::bv_term::{
    bits_of, eval, lemma_bits_of_mod, lemma_bits_of_value, lemma_eval_len, lemma_value_append_zeros, lemma_value_bits_of, lemma_value_zeros, signed,
    value, width, wf, zeros, BvTerm, Env,
};
use crate::decimal::message_with_number;
use crate::error::{Error, Result};
use crate::layout::{LlvmType, OffsetOutcome, NESTING_BOUND};
use crate::project::Project;

verus! {

/// The binary operations of constant expressions.
#[derive(PartialEq, Eq, Structural, Clone, Copy, Debug)]
pub enum BinaryOp {
    Add,
    Sub,
    Mul,
    UDiv,
    SDiv,
    URem,
    SRem,
    And,
    Or,
    Xor,
    Shl,
    LShr,
    AShr,
}

/// The integer comparisons.
#[derive(PartialEq, Eq, Structural, Clone, Copy, Debug)]
pub enum IntPredicate {
    EQ,
    NE,
    UGT,
    UGE,
    ULT,
    ULE,
    SGT,
    SGE,
    SLT,
    SLE,
}

/// The conversions that change a constant's width.
#[derive(PartialEq, Eq, Structural, Clone, Copy, Debug)]
pub enum Resize {
    Trunc,
    ZExt,
    SExt,
}

/// The conversions that keep a constant's bits as they are.
#[derive(PartialEq, Eq, Structural, Clone, Copy, Debug)]
pub enum Reinterpret {
    PtrToInt,
    IntToPtr,
    BitCast,
    AddrSpaceCast,
}

/// An LLVM constant.
#[derive(Debug)]
pub enum Constant {
    /// An integer of `bits` bits, given by its low 64 bits.
    Int { bits: u32, value: u64 },
    /// The null value of the type.
    Null(LlvmType),
    /// The all-zero value of an aggregate type.
    AggregateZero(LlvmType),
    /// An undefined value of the type.
    Undef(LlvmType),
    /// A struct, by its element values.
    Struct(Vec<Constant>),
    /// An array, by its elements.
    Array(Vec<Constant>),
    /// A vector, by its elements.
    Vector(Vec<Constant>),
    /// The address of the global (variable or function) of this name.
    GlobalReference(String),
    /// A binary operation on two constants.
    Binary(BinaryOp, Box<Constant>, Box<Constant>),
    /// An integer comparison of two constants.
    ICmp(IntPredicate, Box<Constant>, Box<Constant>),
    /// The element of the vector (first) at the index (second).
    ExtractElement(Box<Constant>, Box<Constant>),
    /// The vector (first) with the element at the index (third) replaced by
    /// the second.
    InsertElement(Box<Constant>, Box<Constant>, Box<Constant>),
    /// The member of the aggregate reached by the indices, one per level of
    /// nested structs.
    ExtractValue(Box<Constant>, Vec<u32>),
    /// The aggregate (first) with the member reached by the indices replaced
    /// by the second.
    InsertValue(Box<Constant>, Box<Constant>, Vec<u32>),
    /// A conversion of the constant to the type, changing its width.
    Resize(Resize, Box<Constant>, LlvmType),
    /// A conversion of the constant to the type, keeping its bits.
    Reinterpret(Reinterpret, Box<Constant>, LlvmType),
    /// The second constant where the first is nonzero, else the third.
    Select(Box<Constant>, Box<Constant>, Box<Constant>),
    /// The address (first) of the given type, advanced to the element the
    /// indices select.
    GetElementPtr(Box<Constant>, LlvmType, Vec<Constant>),
    /// A constant of another kind (floating point, block address, ...), which
    /// is not converted.
    Other,
}

/// What converting a constant comes to.
pub enum Outcome {
    /// The constant stands for these bits.
    Bits(Seq<bool>),
    /// A type involved has no definition: an `OtherError`.
    Opaque,
    /// The constant is malformed: a `MalformedInstruction`.
    Malformed,
    /// A size that is not a whole number of bytes: an `UnsupportedInstruction`.
    Unsupported,
    /// A global referred to was not found: an `OtherError`.
    Missing,
    /// The conversion cannot be done at all (an empty aggregate, a width of
    /// zero, operands of different widths, a kind not converted).
    Stuck,
}

impl Outcome {
    /// Conversion fails with an error.
    pub open spec fn is_fault(self) -> bool {
        self is Opaque || self is Malformed || self is Missing || self is Unsupported
    }
}

/// The address of the global `name` in the table of addresses, the first
/// entry for that name.
pub open spec fn global_addr(globals: Seq<(String, u64)>, name: Seq<char>, k: int) -> Option<u64>
    decreases globals.len() - k,
{
    if k < 0 || k >= globals.len() {
        None
    } else if globals[k].0@ == name {
        Some(globals[k].1)
    } else {
        global_addr(globals, name, k + 1)
    }
}

/// `x` extended by `k` copies of its top bit.
pub open spec fn sign_extended(x: Seq<bool>, k: nat) -> Seq<bool> {
    x + Seq::new(k, |j: int| x[x.len() - 1])
}

/// The bits of a binary operation on `x` and `y`, as the term of that
/// operation evaluates.
pub open spec fn binary_bits(op: BinaryOp, x: Seq<bool>, y: Seq<bool>) -> Seq<bool> {
    let t = binary_term(op, BvTerm::Var(0, x.len() as u32), BvTerm::Var(1, y.len() as u32));
    eval(t, operands_env(x, y))
}

/// An environment that gives the variables `0` and `1` the values `x` and `y`.
pub open spec fn operands_env(x: Seq<bool>, y: Seq<bool>) -> Env {
    Env {
        vars: |id: u64| if id == 0 {
            x
        } else {
            y
        },
        arrays: |id: u64, j: Seq<bool>| Seq::empty(),
    }
}

/// The term of a binary operation on `a` and `b`.
pub open spec fn binary_term(op: BinaryOp, a: BvTerm, b: BvTerm) -> BvTerm {
    let a = Box::new(a);
    let b = Box::new(b);
    match op {
        BinaryOp::Add => BvTerm::Add(a, b),
        BinaryOp::Sub => BvTerm::Sub(a, b),
        BinaryOp::Mul => BvTerm::Mul(a, b),
        BinaryOp::UDiv => BvTerm::Udiv(a, b),
        BinaryOp::SDiv => BvTerm::Sdiv(a, b),
        BinaryOp::URem => BvTerm::Urem(a, b),
        BinaryOp::SRem => BvTerm::Srem(a, b),
        BinaryOp::And => BvTerm::And(a, b),
        BinaryOp::Or => BvTerm::Or(a, b),
        BinaryOp::Xor => BvTerm::Xor(a, b),
        BinaryOp::Shl => BvTerm::Sll(a, b),
        BinaryOp::LShr => BvTerm::Srl(a, b),
        BinaryOp::AShr => BvTerm::Sra(a, b),
    }
}

/// Whether the comparison holds of `x` and `y`.
pub open spec fn compares(p: IntPredicate, x: Seq<bool>, y: Seq<bool>) -> bool {
    match p {
        IntPredicate::EQ => x == y,
        IntPredicate::NE => x != y,
        IntPredicate::UGT => value(x) > value(y),
        IntPredicate::UGE => value(x) >= value(y),
        IntPredicate::ULT => value(x) < value(y),
        IntPredicate::ULE => value(x) <= value(y),
        IntPredicate::SGT => signed(x) > signed(y),
        IntPredicate::SGE => signed(x) >= signed(y),
        IntPredicate::SLT => signed(x) < signed(y),
        IntPredicate::SLE => signed(x) <= signed(y),
    }
}

/// The size of `ty` in the project, where it can be computed.
pub open spec fn size_of(proj: Project, ty: LlvmType) -> Option<int> {
    proj.size_spec(ty, NESTING_BOUND as nat)
}

/// The zero value of `ty`.
pub open spec fn zero_of(proj: Project, ty: LlvmType) -> Outcome {
    if !proj.sizable(ty, NESTING_BOUND as nat) {
        Outcome::Stuck
    } else {
        match size_of(proj, ty) {
            None => Outcome::Opaque,
            Some(s) => if s == 0 {
                Outcome::Stuck
            } else {
                Outcome::Bits(zeros(s as nat))
            },
        }
    }
}

/// The outcome of combining the outcome `a` of the elements before with the
/// outcome `b` of the next element: the later element's error comes first,
/// and its bits go above.
pub open spec fn combine(a: Outcome, b: Outcome) -> Outcome {
    if a is Stuck || b is Stuck {
        Outcome::Stuck
    } else if b.is_fault() {
        b
    } else if a.is_fault() {
        a
    } else {
        match (a, b) {
            (Outcome::Bits(x), Outcome::Bits(y)) => if x.len() + y.len() > u32::MAX {
                Outcome::Stuck
            } else {
                Outcome::Bits(x + y)
            },
            _ => Outcome::Stuck,
        }
    }
}

/// The outcome of a binary operation, given the outcomes of its operands:
/// the first operand's error comes first, and the operands must have the
/// same width.
pub open spec fn binary_outcome(a: Outcome, b: Outcome, f: spec_fn(Seq<bool>, Seq<bool>) -> Seq<bool>) -> Outcome {
    match a {
        Outcome::Bits(x) => match b {
            Outcome::Bits(y) => if x.len() != y.len() || x.len() == 0 {
                Outcome::Stuck
            } else {
                Outcome::Bits(f(x, y))
            },
            _ => b,
        },
        _ => a,
    }
}

/// The meaning of constant `c`, with `globals` giving the addresses of the
/// globals it may refer to.
pub open spec fn denote(proj: Project, module: int, globals: Seq<(String, u64)>, c: Constant) -> Outcome
    decreases c, 1int,
{
    match c {
        Constant::Int { bits, value } => if bits == 0 {
            Outcome::Stuck
        } else if bits <= 64 {
            Outcome::Bits(bits_of(value as nat, bits as nat))
        } else {
            Outcome::Bits(sign_extended(bits_of(value as nat, 64), (bits - 64) as nat))
        },
        Constant::Null(ty) => zero_of(proj, ty),
        Constant::AggregateZero(ty) => zero_of(proj, ty),
        Constant::Undef(ty) => zero_of(proj, ty),
        Constant::Struct(es) => denote_all(proj, module, globals, es@, es@.len() as int, None),
        Constant::Array(es) => denote_all(proj, module, globals, es@, es@.len() as int, None),
        Constant::Vector(es) => denote_all(proj, module, globals, es@, es@.len() as int, None),
        Constant::GlobalReference(name) => match global_addr(globals, name@, 0) {
            Some(addr) => if proj.pointer_size_bits == 0 {
                Outcome::Stuck
            } else {
                Outcome::Bits(bits_of(addr as nat, proj.pointer_size_bits as nat))
            },
            None => Outcome::Missing,
        },
        Constant::Binary(op, a, b) => binary_outcome(
            denote(proj, module, globals, *a),
            denote(proj, module, globals, *b),
            |x: Seq<bool>, y: Seq<bool>| binary_bits(op, x, y),
        ),
        Constant::ICmp(p, a, b) => binary_outcome(
            denote(proj, module, globals, *a),
            denote(proj, module, globals, *b),
            |x: Seq<bool>, y: Seq<bool>| seq![compares(p, x, y)],
        ),
        Constant::ExtractElement(v, i) => match *i {
            Constant::Int { value: index, .. } => match *v {
                Constant::Vector(els) => if index < els@.len() {
                    denote(proj, module, globals, els@[index as int])
                } else {
                    Outcome::Malformed
                },
                _ => Outcome::Malformed,
            },
            _ => Outcome::Malformed,
        },
        Constant::InsertElement(v, e, i) => match *i {
            Constant::Int { value: index, .. } => match *v {
                Constant::Vector(els) => if index < els@.len() {
                    denote_all(proj, module, globals, els@, els@.len() as int, Some((index as int, denote(proj, module, globals, *e))))
                } else {
                    Outcome::Malformed
                },
                _ => Outcome::Malformed,
            },
            _ => Outcome::Malformed,
        },
        Constant::ExtractValue(a, indices) => denote_path(proj, module, globals, *a, indices@, 0),
        Constant::InsertValue(a, e, indices) => match insert_check(*a, indices@, 0) {
            Some(o) => o,
            None => denote_insert(proj, module, globals, *a, indices@, 0, denote(proj, module, globals, *e)),
        },
        Constant::Resize(op, a, ty) => match zero_of(proj, ty) {
            Outcome::Bits(z) => match denote(proj, module, globals, *a) {
                Outcome::Bits(x) => {
                    let to = z.len();
                    match op {
                        Resize::Trunc => if to > x.len() {
                            Outcome::Stuck
                        } else {
                            Outcome::Bits(x.subrange(0, to as int))
                        },
                        Resize::ZExt => if to < x.len() {
                            Outcome::Stuck
                        } else {
                            Outcome::Bits(x + zeros((to - x.len()) as nat))
                        },
                        Resize::SExt => if to < x.len() || x.len() == 0 {
                            Outcome::Stuck
                        } else {
                            Outcome::Bits(sign_extended(x, (to - x.len()) as nat))
                        },
                    }
                },
                o => o,
            },
            o => o,
        },
        Constant::Reinterpret(_, a, ty) => match denote(proj, module, globals, *a) {
            Outcome::Bits(x) => if !proj.sizable(ty, NESTING_BOUND as nat) {
                Outcome::Stuck
            } else {
                match size_of(proj, ty) {
                    None => Outcome::Malformed,
                    Some(s) => if s != x.len() {
                        Outcome::Stuck
                    } else {
                        Outcome::Bits(x)
                    },
                }
            },
            o => o,
        },
        Constant::Select(cond, t, f) => match denote(proj, module, globals, *cond) {
            Outcome::Bits(x) => match *cond {
                Constant::Int { bits, .. } => if bits <= 64 {
                    if value(x) != 0 {
                        denote(proj, module, globals, *t)
                    } else {
                        denote(proj, module, globals, *f)
                    }
                } else {
                    Outcome::Malformed
                },
                _ => Outcome::Malformed,
            },
            o => o,
        },
        Constant::GetElementPtr(a, ty, ixs) => match denote(proj, module, globals, *a) {
            Outcome::Bits(x) => match gep_offset(proj, module, globals, ixs@, 0, ty, x.len()) {
                Outcome::Bits(off) => Outcome::Bits(bits_of(value(x) + value(off), x.len())),
                o => o,
            },
            o => o,
        },
        Constant::Other => Outcome::Stuck,
    }
}

/// One level of an address computation: the offset it adds and the type it
/// leads to, or the outcome that stops it.
pub enum Step {
    Offset(Seq<bool>, LlvmType),
    Fails(Outcome),
}

/// The level of an array, vector or pointee of element type `e`, with an
/// index whose meaning is `o`: the index, widened to `w` bits, times the
/// element size in bytes.
pub open spec fn index_step(proj: Project, o: Outcome, e: LlvmType, w: nat) -> Step {
    match o {
        Outcome::Bits(x) => if x.len() > w || !proj.sizable(e, NESTING_BOUND as nat) {
            Step::Fails(Outcome::Stuck)
        } else {
            match size_of(proj, e) {
                None => Step::Fails(Outcome::Opaque),
                Some(s) => if s % 8 != 0 {
                    Step::Fails(Outcome::Unsupported)
                } else {
                    Step::Offset(bits_of(value(x) * value(bits_of((s / 8) as nat, w)), w), e)
                },
            }
        },
        _ => Step::Fails(o),
    }
}

/// The level of the address computation for index `j` into a value of type
/// `ty` (not a named struct).
pub open spec fn gep_step(proj: Project, module: int, globals: Seq<(String, u64)>, ixs: Seq<Constant>, j: int, ty: LlvmType, w: nat) -> Step
    decreases ixs, ixs.len() - j, 0int,
{
    if j < 0 || j >= ixs.len() {
        Step::Fails(Outcome::Stuck)
    } else {
        match ty {
            LlvmType::PointerType(e) => index_step(proj, denote(proj, module, globals, ixs[j]), *e, w),
            LlvmType::ArrayType(e, _) => index_step(proj, denote(proj, module, globals, ixs[j]), *e, w),
            LlvmType::VectorType(e, _, _) => index_step(proj, denote(proj, module, globals, ixs[j]), *e, w),
            LlvmType::StructType(_) => struct_step(proj, module, ixs[j], ty, w),
            _ => Step::Fails(Outcome::Stuck),
        }
    }
}

/// The level of an address computation for the index `ix` into the struct
/// type `ty`: the index must be a constant integer.
pub open spec fn struct_step(proj: Project, module: int, ix: Constant, ty: LlvmType, w: nat) -> Step {
    match ix {
        Constant::Int { value: index, .. } => if index > usize::MAX || !proj.offset_allowed(
            module,
            ty,
            index as int,
            NESTING_BOUND as nat,
        ) {
            Step::Fails(Outcome::Stuck)
        } else {
            match proj.offset_spec(module, ty, index as int, NESTING_BOUND as nat) {
                OffsetOutcome::Offset(off, t) => Step::Offset(bits_of(off as nat, w), t),
                OffsetOutcome::ElementSize(_) => Step::Fails(Outcome::Unsupported),
                OffsetOutcome::StructOffset(_) => Step::Fails(Outcome::Unsupported),
                OffsetOutcome::Opaque => Step::Fails(Outcome::Malformed),
                OffsetOutcome::NotFound => Step::Fails(Outcome::Malformed),
            }
        },
        _ => Step::Fails(Outcome::Malformed),
    }
}

/// The offset, in bytes and as `w` bits, of what the indices from the `j`th
/// on select within a value of type `ty`; a named struct stands for its
/// definition in the module.
pub open spec fn gep_offset(proj: Project, module: int, globals: Seq<(String, u64)>, ixs: Seq<Constant>, j: int, ty: LlvmType, w: nat) -> Outcome
    decreases ixs, ixs.len() - j, if ty is NamedStructType { 2int } else { 1int },
{
    if j < 0 || j > ixs.len() {
        Outcome::Stuck
    } else {
        match ty {
            LlvmType::NamedStructType(name) => match proj.decl_in(module, name@) {
                None => Outcome::Malformed,
                Some(i) => match proj.decl(module, i).def {
                    None => Outcome::Malformed,
                    Some(t) => if t is NamedStructType {
                        Outcome::Stuck
                    } else {
                        gep_offset(proj, module, globals, ixs, j, t, w)
                    },
                },
            },
            _ => if j == ixs.len() {
                Outcome::Bits(zeros(w))
            } else {
                match gep_step(proj, module, globals, ixs, j, ty, w) {
                    Step::Fails(o) => o,
                    Step::Offset(off, t) => match gep_offset(proj, module, globals, ixs, j + 1, t, w) {
                        Outcome::Bits(rest) => Outcome::Bits(bits_of(value(rest) + value(off), w)),
                        o => o,
                    },
                }
            },
        }
    }
}

/// The meaning of element `j` of `es`, or the given outcome if `repl`
/// replaces that element.
pub open spec fn element_outcome(
    proj: Project,
    module: int,
    globals: Seq<(String, u64)>,
    es: Seq<Constant>,
    j: int,
    repl: Option<(int, Outcome)>,
) -> Outcome
    decreases es, j, 0int,
{
    if j < 0 || j >= es.len() {
        Outcome::Stuck
    } else {
        match repl {
            Some((i, o)) => if i == j {
                o
            } else {
                denote(proj, module, globals, es[j])
            },
            None => denote(proj, module, globals, es[j]),
        }
    }
}

/// The meaning of the aggregate of the first `k` of the elements `es`
/// (with the element `repl` replaces, if any, replaced), element `0` lowest;
/// `Stuck` for no elements.
pub open spec fn denote_all(
    proj: Project,
    module: int,
    globals: Seq<(String, u64)>,
    es: Seq<Constant>,
    k: int,
    repl: Option<(int, Outcome)>,
) -> Outcome
    decreases es, k, 1int,
{
    if k <= 0 || k > es.len() {
        Outcome::Stuck
    } else if k == 1 {
        element_outcome(proj, module, globals, es, 0, repl)
    } else {
        combine(denote_all(proj, module, globals, es, k - 1, repl), element_outcome(proj, module, globals, es, k - 1, repl))
    }
}

/// The meaning of the member of `c` reached by the indices from the `j`th
/// on: each index picks an element of a struct.
pub open spec fn denote_path(proj: Project, module: int, globals: Seq<(String, u64)>, c: Constant, indices: Seq<u32>, j: int) -> Outcome
    decreases c, 2int,
{
    if j < 0 || j >= indices.len() {
        denote(proj, module, globals, c)
    } else {
        match c {
            Constant::Struct(vals) => if indices[j] < vals@.len() {
                denote_path(proj, module, globals, vals@[indices[j] as int], indices, j + 1)
            } else {
                Outcome::Malformed
            },
            _ => Outcome::Stuck,
        }
    }
}

/// Whether the indices from the `j`th on reach a member of `c` that can be
/// replaced: `None` if so, else the outcome of trying.
pub open spec fn insert_check(c: Constant, indices: Seq<u32>, j: int) -> Option<Outcome>
    decreases c,
{
    if j < 0 || j >= indices.len() {
        None
    } else {
        match c {
            Constant::Struct(vals) => if indices[j] < vals@.len() {
                insert_check(vals@[indices[j] as int], indices, j + 1)
            } else {
                Some(Outcome::Malformed)
            },
            _ => Some(Outcome::Stuck),
        }
    }
}

/// The meaning of `c` with the member reached by the indices from the `j`th
/// on replaced by a constant whose meaning is `o`.
pub open spec fn denote_insert(
    proj: Project,
    module: int,
    globals: Seq<(String, u64)>,
    c: Constant,
    indices: Seq<u32>,
    j: int,
    o: Outcome,
) -> Outcome
    decreases c, 2int,
{
    if j < 0 || j >= indices.len() {
        o
    } else {
        match c {
            Constant::Struct(vals) => if indices[j] < vals@.len() {
                denote_all(
                    proj,
                    module,
                    globals,
                    vals@,
                    vals@.len() as int,
                    Some((indices[j] as int, denote_insert(proj, module, globals, vals@[indices[j] as int], indices, j + 1, o))),
                )
            } else {
                Outcome::Malformed
            },
            _ => Outcome::Stuck,
        }
    }
}

/// `r` is what converting a constant with outcome `o` gives.
pub open spec fn converts_to(r: Result<BvTerm>, o: Outcome) -> bool {
    match o {
        Outcome::Bits(b) => match r {
            Ok(t) => wf(t) && width(t) == b.len() && forall|env: Env| #[trigger] eval(t, env) == b,
            Err(_) => false,
        },
        Outcome::Opaque => r matches Err(Error::OtherError(_)),
        Outcome::Missing => r matches Err(Error::OtherError(_)),
        Outcome::Malformed => r matches Err(Error::MalformedInstruction(_)),
        Outcome::Unsupported => r matches Err(Error::UnsupportedInstruction(_)),
        Outcome::Stuck => false,
    }
}

/// A term's value in `env` is `x` when the term is the variable read with
/// `x`'s width.
proof fn lemma_var_reads(x: Seq<bool>, y: Seq<bool>)
    requires
        x.len() <= u32::MAX,
        y.len() <= u32::MAX,
    ensures
        eval(BvTerm::Var(0, x.len() as u32), operands_env(x, y)) == x,
        eval(BvTerm::Var(1, y.len() as u32), operands_env(x, y)) == y,
{
    assert(eval(BvTerm::Var(0, x.len() as u32), operands_env(x, y)) =~= x);
    assert(eval(BvTerm::Var(1, y.len() as u32), operands_env(x, y)) =~= y);
}

/// The value of a binary operation's term depends only on its operands'
/// values.
proof fn lemma_binary_eval(op: BinaryOp, a: BvTerm, b: BvTerm, env: Env)
    requires
        wf(a),
        wf(b),
        width(a) == width(b),
    ensures
        wf(binary_term(op, a, b)),
        width(binary_term(op, a, b)) == width(a),
        eval(binary_term(op, a, b), env) == binary_bits(op, eval(a, env), eval(b, env)),
{
    let x = eval(a, env);
    let y = eval(b, env);
    lemma_eval_len(a, env);
    lemma_eval_len(b, env);
    lemma_var_reads(x, y);
    let va = BvTerm::Var(0, x.len() as u32);
    let vb = BvTerm::Var(1, y.len() as u32);
    let env2 = operands_env(x, y);
    assert(width(va) == width(a));
    assert(eval(binary_term(op, a, b), env) =~= eval(binary_term(op, va, vb), env2));
}

/// The term of a binary operation on `a` and `b`.
fn make_binary(op: BinaryOp, a: BvTerm, b: BvTerm) -> (r: BvTerm)
    ensures
        r == binary_term(op, a, b),
{
    let a = Box::new(a);
    let b = Box::new(b);
    match op {
        BinaryOp::Add => BvTerm::Add(a, b),
        BinaryOp::Sub => BvTerm::Sub(a, b),
        BinaryOp::Mul => BvTerm::Mul(a, b),
        BinaryOp::UDiv => BvTerm::Udiv(a, b),
        BinaryOp::SDiv => BvTerm::Sdiv(a, b),
        BinaryOp::URem => BvTerm::Urem(a, b),
        BinaryOp::SRem => BvTerm::Srem(a, b),
        BinaryOp::And => BvTerm::And(a, b),
        BinaryOp::Or => BvTerm::Or(a, b),
        BinaryOp::Xor => BvTerm::Xor(a, b),
        BinaryOp::Shl => BvTerm::Sll(a, b),
        BinaryOp::LShr => BvTerm::Srl(a, b),
        BinaryOp::AShr => BvTerm::Sra(a, b),
    }
}

/// The one-bit term that is set when the comparison holds of `a` and `b`.
fn make_compare(p: IntPredicate, a: BvTerm, b: BvTerm) -> (r: BvTerm)
    requires
        wf(a),
        wf(b),
        width(a) == width(b),
    ensures
        wf(r),
        width(r) == 1,
        forall|env: Env| #[trigger] eval(r, env) == seq![compares(p, eval(a, env), eval(b, env))],
{
    let ghost (ga, gb) = (a, b);
    let a = Box::new(a);
    let b = Box::new(b);
    let r = match p {
        IntPredicate::EQ => BvTerm::Eq(a, b),
        IntPredicate::NE => BvTerm::Not(Box::new(BvTerm::Eq(a, b))),
        IntPredicate::UGT => BvTerm::Ult(b, a),
        IntPredicate::UGE => BvTerm::Ule(b, a),
        IntPredicate::ULT => BvTerm::Ult(a, b),
        IntPredicate::ULE => BvTerm::Ule(a, b),
        IntPredicate::SGT => BvTerm::Slt(b, a),
        IntPredicate::SGE => BvTerm::Sle(b, a),
        IntPredicate::SLT => BvTerm::Slt(a, b),
        IntPredicate::SLE => BvTerm::Sle(a, b),
    };
    proof {
        assert(wf(BvTerm::Eq(Box::new(ga), Box::new(gb))));
        assert forall|env: Env| #[trigger] eval(r, env) == seq![compares(p, eval(ga, env), eval(gb, env))] by {
            if p is NE {
                let e = BvTerm::Eq(Box::new(ga), Box::new(gb));
                assert(eval(e, env) == seq![eval(ga, env) == eval(gb, env)]);
                assert(eval(r, env) =~= seq![eval(ga, env) != eval(gb, env)]);
            }
        }
    }
    r
}

/// The address of the global `name`: the first entry for it in `globals`.
fn lookup_global(globals: &Vec<(String, u64)>, name: &String) -> (r: Option<u64>)
    ensures
        r == global_addr(globals@, name@, 0),
{
    let mut k: usize = 0;
    while k < globals.len()
        invariant
            k <= globals@.len(),
            global_addr(globals@, name@, 0) == global_addr(globals@, name@, k as int),
        decreases globals@.len() - k,
    {
        if globals[k].0 == *name {
            return Some(globals[k].1);
        }
        k = k + 1;
    }
    None
}

/// The all-zero term of the size of `ty`.
fn zero_term(proj: &Project, ty: &LlvmType, c: &Constant) -> (r: Result<BvTerm>)
    requires
        !(zero_of(*proj, *ty) is Stuck),
    ensures
        converts_to(r, zero_of(*proj, *ty)),
{
    match proj.size_in_bits(ty) {
        None => Err(Error::OtherError(String::from_str("const_to_bv on a constant with opaque struct type"))),
        Some(s) => {
            let r = BvTerm::Zero(s);
            assert(forall|env: Env| #[trigger] eval(r, env) == zeros(s as nat));
            Ok(r)
        },
    }
}

/// Once the aggregate of the first `n` elements can be converted, so can
/// every shorter aggregate and every one of the elements.
proof fn lemma_all_not_stuck(
    proj: Project,
    module: int,
    globals: Seq<(String, u64)>,
    es: Seq<Constant>,
    k: int,
    n: int,
    repl: Option<(int, Outcome)>,
)
    requires
        1 <= k <= n <= es.len(),
        !(denote_all(proj, module, globals, es, n, repl) is Stuck),
    ensures
        !(denote_all(proj, module, globals, es, k, repl) is Stuck),
        !(element_outcome(proj, module, globals, es, k - 1, repl) is Stuck),
    decreases n - k,
{
    if k < n {
        lemma_all_not_stuck(proj, module, globals, es, k + 1, n, repl);
    }
}

/// The replacement is still held, and converts to `o`.
spec fn pending(replacement: Option<Result<BvTerm>>, o: Outcome) -> bool {
    replacement matches Some(r) && converts_to(r, o)
}

/// The term for the aggregate `parent` of the elements `es`, where the
/// element `repl` replaces, if any, has been converted to the given result
/// already.
fn convert_all(
    proj: &Project,
    module: usize,
    globals: &Vec<(String, u64)>,
    parent: &Constant,
    es: &Vec<Constant>,
    repl: Option<(usize, Result<BvTerm>)>,
    Ghost(repl_o): Ghost<Option<(int, Outcome)>>,
) -> (r: Result<BvTerm>)
    requires
        module < proj.modules@.len(),
        forall|j: int| 0 <= j < es@.len() ==> decreases_to!(*parent => #[trigger] es@[j]),
        !(denote_all(*proj, module as int, globals@, es@, es@.len() as int, repl_o) is Stuck),
        match repl {
            None => repl_o is None,
            Some((i, ri)) => repl_o matches Some((j, o)) && j == i && converts_to(ri, o),
        },
    ensures
        converts_to(r, denote_all(*proj, module as int, globals@, es@, es@.len() as int, repl_o)),
    decreases parent, 0int,
{
    let n = es.len();
    let (ri, mut replacement) = match repl {
        Some((i, r)) => (i, Some(r)),
        None => (n, None),
    };
    proof {
        lemma_all_not_stuck(*proj, module as int, globals@, es@, 1, n as int, repl_o);
    }
    let mut acc = if ri == 0 {
        match replacement {
            Some(r) => {
                replacement = None;
                r
            },
            None => Err(Error::OtherError(String::new())),
        }
    } else {
        const_to_bv(proj, module, globals, &es[0])
    };
    let mut k: usize = 1;
    while k < n
        invariant
            module < proj.modules@.len(),
            n == es@.len(),
            1 <= k <= n,
            forall|j: int| 0 <= j < es@.len() ==> decreases_to!(*parent => #[trigger] es@[j]),
            !(denote_all(*proj, module as int, globals@, es@, n as int, repl_o) is Stuck),
            converts_to(acc, denote_all(*proj, module as int, globals@, es@, k as int, repl_o)),
            repl_o is None ==> ri == n,
            repl_o matches Some((i, o)) ==> i == ri && (k <= ri ==> pending(replacement, o)),
        decreases n - k,
    {
        proof {
            lemma_all_not_stuck(*proj, module as int, globals@, es@, k as int + 1, n as int, repl_o);
        }
        let b = if k == ri {
            match replacement {
                Some(r) => {
                    replacement = None;
                    r
                },
                None => Err(Error::OtherError(String::new())),
            }
        } else {
            const_to_bv(proj, module, globals, &es[k])
        };
        acc = match b {
            Err(e) => Err(e),
            Ok(bt) => match acc {
                Err(e) => Err(e),
                Ok(at) => {
                    let ghost (gb, ga) = (bt, at);
                    let t = BvTerm::Concat(Box::new(bt), Box::new(at));
                    proof {
                        assert(forall|env: Env| #[trigger] eval(t, env) == eval(ga, env) + eval(gb, env));
                    }
                    Ok(t)
                },
            },
        };
        k = k + 1;
    }
    acc
}

/// An aggregate decreases to all of its elements.
proof fn lemma_all_elements_decrease(parent: Constant, es: Vec<Constant>)
    requires
        parent == Constant::Struct(es) || parent == Constant::Array(es) || parent == Constant::Vector(es),
    ensures
        forall|j: int| 0 <= j < es@.len() ==> decreases_to!(parent => #[trigger] es@[j]),
{
    assert forall|j: int| 0 <= j < es@.len() implies decreases_to!(parent => #[trigger] es@[j]) by {
        lemma_elements_decrease(parent, es, j);
    }
}

/// An aggregate decreases to each of its elements.
proof fn lemma_elements_decrease(parent: Constant, es: Vec<Constant>, k: int)
    requires
        parent == Constant::Struct(es) || parent == Constant::Array(es) || parent == Constant::Vector(es),
        0 <= k < es@.len(),
    ensures
        decreases_to!(parent => es@[k]),
{
    assert(decreases_to!(es => es@));
    if parent is Struct {
        assert(decreases_to!(parent => parent->Struct_0));
    } else if parent is Array {
        assert(decreases_to!(parent => parent->Array_0));
    } else {
        assert(decreases_to!(parent => parent->Vector_0));
    }
}

/// The term for the constant `c`, with `globals` giving the addresses of the
/// globals it may refer to (in the project's pointer size).
///
/// Aggregates are concatenated with their first element lowest; an integer
/// wider than 64 bits has its 64-bit value sign-extended; null, zero and
/// undefined values are all zero.
#[verifier::rlimit(80)]
pub fn const_to_bv(proj: &Project, module: usize, globals: &Vec<(String, u64)>, c: &Constant) -> (r: Result<BvTerm>)
    requires
        module < proj.modules@.len(),
        !(denote(*proj, module as int, globals@, *c) is Stuck),
    ensures
        converts_to(r, denote(*proj, module as int, globals@, *c)),
    decreases c, 1int,
{
    match c {
        Constant::Int { bits, value } => {
            if *bits <= 64 {
                let r = BvTerm::Const(*value, *bits);
                assert(forall|env: Env| #[trigger] eval(r, env) == bits_of(*value as nat, *bits as nat));
                Ok(r)
            } else {
                let low = BvTerm::Const(*value, 64);
                let r = BvTerm::Sext(Box::new(low), *bits - 64);
                proof {
                    assert(wf(low));
                    assert forall|env: Env| #[trigger] eval(r, env) == sign_extended(bits_of(*value as nat, 64), (*bits - 64) as nat) by {
                        assert(eval(low, env) == bits_of(*value as nat, 64));
                    }
                }
                Ok(r)
            }
        },
        Constant::Null(ty) => zero_term(proj, ty, c),
        Constant::AggregateZero(ty) => zero_term(proj, ty, c),
        Constant::Undef(ty) => zero_term(proj, ty, c),
        Constant::Struct(es) => {
            proof {
                lemma_all_elements_decrease(*c, *es);
            }
            convert_all(proj, module, globals, c, es, None, Ghost(None))
        },
        Constant::Array(es) => {
            proof {
                lemma_all_elements_decrease(*c, *es);
            }
            convert_all(proj, module, globals, c, es, None, Ghost(None))
        },
        Constant::Vector(es) => {
            proof {
                lemma_all_elements_decrease(*c, *es);
            }
            convert_all(proj, module, globals, c, es, None, Ghost(None))
        },
        Constant::GlobalReference(name) => match lookup_global(globals, name) {
            Some(addr) => {
                let r = BvTerm::Const(addr, proj.pointer_size_bits);
                assert(forall|env: Env| #[trigger] eval(r, env) == bits_of(addr as nat, proj.pointer_size_bits as nat));
                Ok(r)
            },
            None => {
                let mut m = String::from_str("const_to_bv: GlobalReference to ");
                m.append(name.as_str());
                m.append(" which was not found");
                Err(Error::OtherError(m))
            },
        },
        Constant::Binary(op, a, b) => {
            let x = const_to_bv(proj, module, globals, a)?;
            let y = const_to_bv(proj, module, globals, b)?;
            let ghost (gx, gy) = (x, y);
            let r = make_binary(*op, x, y);
            proof {
                assert forall|env: Env| #[trigger] eval(r, env) == binary_bits(*op, eval(gx, env), eval(gy, env)) by {
                    lemma_eval_len(gx, env);
                    lemma_eval_len(gy, env);
                    lemma_binary_eval(*op, gx, gy, env);
                }
                lemma_binary_eval(*op, gx, gy, some_env());
            }
            Ok(r)
        },
        Constant::ICmp(p, a, b) => {
            let x = const_to_bv(proj, module, globals, a)?;
            let y = const_to_bv(proj, module, globals, b)?;
            Ok(make_compare(*p, x, y))
        },
        Constant::ExtractElement(v, i) => {
            let i: &Constant = i;
            let v: &Constant = v;
            match i {
                Constant::Int { value: index, .. } => match v {
                    Constant::Vector(els) => {
                        if *index < els.len() as u64 {
                            let k = *index as usize;
                            assert(decreases_to!(*c => els@[k as int])) by {
                                assert(decreases_to!(*c => *v));
                                lemma_elements_decrease(*v, *els, k as int);
                            }
                            const_to_bv(proj, module, globals, &els[k])
                        } else {
                            Err(Error::MalformedInstruction(String::from_str("Constant::ExtractElement index out of range")))
                        }
                    },
                    _ => Err(Error::MalformedInstruction(String::from_str("Expected ExtractElement.vector to be a Constant::Vector"))),
                },
                _ => Err(Error::MalformedInstruction(String::from_str("Expected ExtractElement.index to be a Constant::Int"))),
            }
        },
        Constant::InsertElement(v, e, i) => {
            let v: &Constant = v;
            let e: &Constant = e;
            let i: &Constant = i;
            match i {
                Constant::Int { value: index, .. } => match v {
                    Constant::Vector(els) => {
                        if *index < els.len() as u64 {
                            let k = *index as usize;
                            let ghost repl_o = Some((k as int, denote(*proj, module as int, globals@, *e)));
                            proof {
                                assert(decreases_to!(*c => *v));
                                lemma_all_elements_decrease(*v, *els);
                                lemma_all_not_stuck(*proj, module as int, globals@, els@, k as int + 1, els@.len() as int, repl_o);
                            }
                            let er = const_to_bv(proj, module, globals, e);
                            convert_all(proj, module, globals, c, els, Some((k, er)), Ghost(repl_o))
                        } else {
                            Err(Error::MalformedInstruction(String::from_str("Constant::InsertElement index out of range")))
                        }
                    },
                    _ => Err(Error::MalformedInstruction(String::from_str("Expected InsertElement.vector to be a Constant::Vector"))),
                },
                _ => Err(Error::MalformedInstruction(String::from_str("Expected InsertElement.index to be a Constant::Int"))),
            }
        },
        Constant::ExtractValue(a, indices) => extract_path(proj, module, globals, a, indices, 0),
        Constant::InsertValue(a, e, indices) => {
            let a: &Constant = a;
            let e: &Constant = e;
            check_insert(a, indices, 0)?;
            let ghost o = denote(*proj, module as int, globals@, *e);
            proof {
                lemma_insert_leaf_not_stuck(*proj, module as int, globals@, *a, indices@, 0, o);
            }
            let er = const_to_bv(proj, module, globals, e);
            convert_insert(proj, module, globals, a, indices, 0, er, Ghost(o))
        },
        Constant::Resize(op, a, ty) => {
            let to = match proj.size_in_bits(ty) {
                None => {
                    return Err(Error::OtherError(String::from_str("const_to_bv on a constant with opaque struct type")));
                },
                Some(s) => s,
            };
            let x = const_to_bv(proj, module, globals, a)?;
            let w = x.get_width();
            let ghost gx = x;
            let r = match op {
                Resize::Trunc => BvTerm::Slice(Box::new(x), to - 1, 0),
                Resize::ZExt => if w == to {
                    x
                } else {
                    BvTerm::Uext(Box::new(x), to - w)
                },
                Resize::SExt => if w == to {
                    x
                } else {
                    BvTerm::Sext(Box::new(x), to - w)
                },
            };
            proof {
                assert forall|env: Env| #[trigger] eval(r, env) == (match denote(*proj, module as int, globals@, *c) {
                    Outcome::Bits(b) => b,
                    _ => eval(r, env),
                }) by {
                    lemma_eval_len(gx, env);
                    let xs = eval(gx, env);
                    assert(xs + zeros(0) =~= xs);
                    assert(sign_extended(xs, 0) =~= xs);
                    assert(zeros(to as nat).len() == to);
                }
            }
            Ok(r)
        },
        Constant::Reinterpret(op, a, ty) => {
            let x = const_to_bv(proj, module, globals, a)?;
            match proj.size_in_bits(ty) {
                None => Err(Error::MalformedInstruction(match op {
                    Reinterpret::PtrToInt => String::from_str("PtrToInt result type is opaque struct type"),
                    Reinterpret::IntToPtr => String::from_str("IntToPtr result type is opaque struct type"),
                    Reinterpret::BitCast => String::from_str("BitCast result type is opaque struct type"),
                    Reinterpret::AddrSpaceCast => String::from_str("AddrSpaceCast result type is opaque struct type"),
                })),
                Some(_) => Ok(x),
            }
        },
        Constant::Select(cond, t, f) => {
            let cond: &Constant = cond;
            let _ = const_to_bv(proj, module, globals, cond)?;
            match cond {
                Constant::Int { bits, value } => {
                    if *bits <= 64 {
                        let nonzero = low_bits_nonzero(*value, *bits);
                        if nonzero {
                            const_to_bv(proj, module, globals, t)
                        } else {
                            const_to_bv(proj, module, globals, f)
                        }
                    } else {
                        Err(Error::MalformedInstruction(String::from_str("Constant::Select: Expected a constant condition")))
                    }
                },
                _ => Err(Error::MalformedInstruction(String::from_str("Constant::Select: Expected a constant condition"))),
            }
        },
        Constant::GetElementPtr(a, ty, ixs) => convert_gep(proj, module, globals, c, a, ty, ixs),
        Constant::Other => Err(Error::OtherError(String::from_str("const_to_bv on a constant of a kind that is not converted"))),
    }
}

/// The term for the member of `c` reached by the indices from the `j`th on.
fn extract_path(proj: &Project, module: usize, globals: &Vec<(String, u64)>, c: &Constant, indices: &Vec<u32>, j: usize) -> (r: Result<BvTerm>)
    requires
        module < proj.modules@.len(),
        j <= indices@.len(),
        !(denote_path(*proj, module as int, globals@, *c, indices@, j as int) is Stuck),
    ensures
        converts_to(r, denote_path(*proj, module as int, globals@, *c, indices@, j as int)),
    decreases c, 2int,
{
    if j >= indices.len() {
        return const_to_bv(proj, module, globals, c);
    }
    match c {
        Constant::Struct(vals) => {
            let k = indices[j] as usize;
            if k < vals.len() {
                proof {
                    lemma_elements_decrease(*c, *vals, k as int);
                }
                extract_path(proj, module, globals, &vals[k], indices, j + 1)
            } else {
                Err(Error::MalformedInstruction(String::from_str("Constant::ExtractValue index out of range")))
            }
        },
        _ => Err(Error::OtherError(String::from_str("Constant::ExtractValue on a constant that is not a struct"))),
    }
}

/// Checks that the indices from the `j`th on reach a member of `c` that can
/// be replaced.
fn check_insert(c: &Constant, indices: &Vec<u32>, j: usize) -> (r: Result<()>)
    requires
        j <= indices@.len(),
        !(insert_check(*c, indices@, j as int) matches Some(Outcome::Stuck)),
    ensures
        r is Ok <==> insert_check(*c, indices@, j as int) is None,
        r is Err ==> insert_check(*c, indices@, j as int) == Some(Outcome::Malformed) && r matches Err(
            Error::MalformedInstruction(_),
        ),
    decreases c,
{
    if j >= indices.len() {
        return Ok(());
    }
    match c {
        Constant::Struct(vals) => {
            let k = indices[j] as usize;
            if k < vals.len() {
                proof {
                    lemma_elements_decrease(*c, *vals, k as int);
                }
                check_insert(&vals[k], indices, j + 1)
            } else {
                Err(Error::MalformedInstruction(String::from_str("Constant::InsertValue index out of range")))
            }
        },
        _ => Err(Error::OtherError(String::from_str("Constant::InsertValue on a constant that is not a struct"))),
    }
}

/// Where the member to replace can be reached and the result converted,
/// the replacing constant can be converted.
proof fn lemma_insert_leaf_not_stuck(proj: Project, module: int, globals: Seq<(String, u64)>, c: Constant, indices: Seq<u32>, j: int, o: Outcome)
    requires
        0 <= j <= indices.len(),
        insert_check(c, indices, j) is None,
        !(denote_insert(proj, module, globals, c, indices, j, o) is Stuck),
    ensures
        !(o is Stuck),
    decreases c,
{
    if j < indices.len() {
        match c {
            Constant::Struct(vals) => {
                let k = indices[j] as int;
                let inner = denote_insert(proj, module, globals, vals@[k], indices, j + 1, o);
                lemma_all_not_stuck(proj, module, globals, vals@, k + 1, vals@.len() as int, Some((k, inner)));
                assert(decreases_to!(c => vals@[k])) by {
                    lemma_elements_decrease(c, vals, k);
                }
                lemma_insert_leaf_not_stuck(proj, module, globals, vals@[k], indices, j + 1, o);
            },
            _ => {},
        }
    }
}

/// The term for `c` with the member reached by the indices from the `j`th
/// on replaced by a constant converted to `er`, whose meaning is `o`.
fn convert_insert(
    proj: &Project,
    module: usize,
    globals: &Vec<(String, u64)>,
    c: &Constant,
    indices: &Vec<u32>,
    j: usize,
    er: Result<BvTerm>,
    Ghost(o): Ghost<Outcome>,
) -> (r: Result<BvTerm>)
    requires
        module < proj.modules@.len(),
        j <= indices@.len(),
        insert_check(*c, indices@, j as int) is None,
        !(denote_insert(*proj, module as int, globals@, *c, indices@, j as int, o) is Stuck),
        converts_to(er, o),
    ensures
        converts_to(r, denote_insert(*proj, module as int, globals@, *c, indices@, j as int, o)),
    decreases c, 2int,
{
    if j >= indices.len() {
        return er;
    }
    match c {
        Constant::Struct(vals) => {
            let k = indices[j] as usize;
            let ghost inner_o = denote_insert(*proj, module as int, globals@, vals@[k as int], indices@, j + 1, o);
            proof {
                lemma_elements_decrease(*c, *vals, k as int);
                lemma_all_elements_decrease(*c, *vals);
                lemma_all_not_stuck(*proj, module as int, globals@, vals@, k as int + 1, vals@.len() as int, Some((k as int, inner_o)));
            }
            let inner = convert_insert(proj, module, globals, &vals[k], indices, j + 1, er, Ghost(o));
            convert_all(proj, module, globals, c, vals, Some((k, inner)), Ghost(Some((k as int, inner_o))))
        },
        _ => Err(Error::OtherError(String::from_str("Constant::InsertValue on a constant that is not a struct"))),
    }
}

/// The term for the address computation `c`: the address `a` of type `ty`
/// advanced by the offset the indices `ixs` select.
fn convert_gep(
    proj: &Project,
    module: usize,
    globals: &Vec<(String, u64)>,
    c: &Constant,
    a: &Constant,
    ty: &LlvmType,
    ixs: &Vec<Constant>,
) -> (r: Result<BvTerm>)
    requires
        module < proj.modules@.len(),
        *c == Constant::GetElementPtr(Box::new(*a), *ty, *ixs),
        !(denote(*proj, module as int, globals@, *c) is Stuck),
    ensures
        converts_to(r, denote(*proj, module as int, globals@, *c)),
    decreases c, 0int, 3int,
{
    assert(decreases_to!(*c => *a));
    let base = const_to_bv(proj, module, globals, a)?;
    let w = base.get_width();
    proof {
        assert forall|j: int| 0 <= j < ixs@.len() implies decreases_to!(*c => #[trigger] ixs@[j]) by {
            assert(decreases_to!(*c => (*c)->GetElementPtr_2));
            assert(decreases_to!(*ixs => ixs@));
        }
    }
    proof {
        lemma_gep_len(*proj, module as int, globals@, ixs@, 0, *ty, w as nat);
    }
    let off = gep_offset_exec(proj, module, globals, c, ty, ixs, w)?;
    let ghost (gb, go) = (base, off);
    let r = BvTerm::Add(Box::new(base), Box::new(off));
    assert(forall|env: Env| #[trigger] eval(r, env) == bits_of(value(eval(gb, env)) + value(eval(go, env)), w as nat));
    Ok(r)
}

/// An offset found has `w` bits.
proof fn lemma_gep_len(proj: Project, module: int, globals: Seq<(String, u64)>, ixs: Seq<Constant>, j: int, ty: LlvmType, w: nat)
    ensures
        gep_offset(proj, module, globals, ixs, j, ty, w) matches Outcome::Bits(r) ==> r.len() == w,
    decreases ixs.len() - j, if ty is NamedStructType { 1int } else { 0int },
{
    if 0 <= j <= ixs.len() {
        match ty {
            LlvmType::NamedStructType(name) => match proj.decl_in(module, name@) {
                Some(i) => match proj.decl(module, i).def {
                    Some(t) => if !(t is NamedStructType) {
                        lemma_gep_len(proj, module, globals, ixs, j, t, w);
                    },
                    None => {},
                },
                None => {},
            },
            _ => if j < ixs.len() {
                match gep_step(proj, module, globals, ixs, j, ty, w) {
                    Step::Offset(_, t) => lemma_gep_len(proj, module, globals, ixs, j + 1, t, w),
                    _ => {},
                }
            },
        }
    }
}

/// `o` with `a` added to the offset it finds, if it finds one.
spec fn shifted(o: Outcome, a: Seq<bool>, w: nat) -> Outcome {
    match o {
        Outcome::Bits(r) => Outcome::Bits(bits_of(value(r) + value(a), w)),
        _ => o,
    }
}

/// Adding an offset found at one level to what is added before it is the
/// same as adding it to what the deeper levels find.
proof fn lemma_shift_step(rest: Outcome, off: Seq<bool>, acc: Seq<bool>, w: nat)
    requires
        acc.len() == w,
        rest matches Outcome::Bits(r) ==> r.len() == w,
    ensures
        shifted(
            match rest {
                Outcome::Bits(r) => Outcome::Bits(bits_of(value(r) + value(off), w)),
                o => o,
            },
            acc,
            w,
        ) == shifted(rest, bits_of(value(acc) + value(off), w), w),
{
    if let Outcome::Bits(r) = rest {
        let m = pow2(w) as int;
        let x = value(r) + value(off);
        vstd::arithmetic::power2::lemma_pow2_pos(w);
        crate::bv_term::lemma_value_bound(acc);
        crate::bv_term::lemma_value_bound(r);
        vstd::arithmetic::div_mod::lemma_small_mod(value(acc), pow2(w));
        vstd::arithmetic::div_mod::lemma_small_mod(value(r), pow2(w));
        lemma_value_bits_of(x, w);
        lemma_value_bits_of(value(acc) + value(off), w);
        vstd::arithmetic::div_mod::lemma_add_mod_noop(x as int, value(acc) as int, m);
        vstd::arithmetic::div_mod::lemma_add_mod_noop(value(r) as int, (value(acc) + value(off)) as int, m);
        vstd::arithmetic::div_mod::lemma_mod_twice(x as int, m);
        vstd::arithmetic::div_mod::lemma_mod_twice((value(acc) + value(off)) as int, m);
        vstd::arithmetic::div_mod::lemma_add_mod_noop(value(r) as int, value(acc) as int + value(off) as int, m);
        lemma_bits_of_mod(
            (value(bits_of(x, w)) + value(acc)) as nat,
            (value(r) + value(bits_of(value(acc) + value(off), w))) as nat,
            w,
        );
    }
}

/// The term for the offset, in bytes and in `w` bits, that the indices
/// `ixs` select within a value of type `ty0`, for the address computation
/// `c`.
#[verifier::rlimit(80)]
fn gep_offset_exec<'a>(
    proj: &'a Project,
    module: usize,
    globals: &Vec<(String, u64)>,
    c: &Constant,
    ty0: &'a LlvmType,
    ixs: &Vec<Constant>,
    w: u32,
) -> (r: Result<BvTerm>)
    requires
        module < proj.modules@.len(),
        1 <= w,
        forall|j: int| 0 <= j < ixs@.len() ==> decreases_to!(*c => #[trigger] ixs@[j]),
        !(gep_offset(*proj, module as int, globals@, ixs@, 0, *ty0, w as nat) is Stuck),
    ensures
        converts_to(r, gep_offset(*proj, module as int, globals@, ixs@, 0, *ty0, w as nat)),
    decreases c, 0int, 2int,
{
    let ghost g = gep_offset(*proj, module as int, globals@, ixs@, 0, *ty0, w as nat);
    let n = ixs.len();
    let mut cur: &'a LlvmType = ty0;
    let mut j: usize = 0;
    let mut acc = BvTerm::Zero(w);
    let ghost mut acc_bits: Seq<bool> = zeros(w as nat);
    proof {
        lemma_gep_len(*proj, module as int, globals@, ixs@, 0, *ty0, w as nat);
        lemma_value_zeros(w as nat);
        match g {
            Outcome::Bits(r) => lemma_bits_of_value(r),
            _ => {},
        }
        assert(g == shifted(g, acc_bits, w as nat));
    }
    loop
        invariant
            module < proj.modules@.len(),
            1 <= w,
            n == ixs@.len(),
            j <= n,
            forall|k: int| 0 <= k < ixs@.len() ==> decreases_to!(*c => #[trigger] ixs@[k]),
            g == gep_offset(*proj, module as int, globals@, ixs@, 0, *ty0, w as nat),
            !(g is Stuck),
            g == shifted(gep_offset(*proj, module as int, globals@, ixs@, j as int, *cur, w as nat), acc_bits, w as nat),
            wf(acc),
            width(acc) == w,
            acc_bits.len() == w,
            forall|env: Env| #[trigger] eval(acc, env) == acc_bits,
        decreases (n - j) * 2 + if *cur is NamedStructType { 1int } else { 0int },
    {
        let ghost here = gep_offset(*proj, module as int, globals@, ixs@, j as int, *cur, w as nat);
        if let LlvmType::NamedStructType(name) = cur {
            match proj.find_decl(module, name.as_str()) {
                None => {
                    return Err(Error::MalformedInstruction(String::from_str("get_offset on a struct type not defined in the current module")));
                },
                Some(i) => match &proj.modules[module].named_structs[i].def {
                    None => {
                        return Err(Error::MalformedInstruction(String::from_str("get_offset on an opaque struct type")));
                    },
                    Some(t) => {
                        cur = t;
                        continue;
                    },
                },
            }
        }
        if j == n {
            proof {
                assert(here == Outcome::Bits(zeros(w as nat)));
                lemma_value_zeros(w as nat);
                lemma_bits_of_value(acc_bits);
            }
            return Ok(acc);
        }
        let ghost step = gep_step(*proj, module as int, globals@, ixs@, j as int, *cur, w as nat);
        let (off, next) = match gep_level(proj, module, globals, c, cur, ixs, j, w) {
            Ok(p) => p,
            Err(err) => {
                return Err(err);
            },
        };
        let ghost off_bits = step->Offset_0;
        let ghost acc0 = acc_bits;
        let ghost (acc_t0, off_t) = (acc, off);
        acc = BvTerm::Add(Box::new(acc), Box::new(off));
        assert(forall|env: Env| #[trigger] eval(acc, env) == bits_of(value(eval(acc_t0, env)) + value(eval(off_t, env)), w as nat));
        proof {
            acc_bits = bits_of(value(acc0) + value(off_bits), w as nat);
            let rest = gep_offset(*proj, module as int, globals@, ixs@, j as int + 1, *next, w as nat);
            lemma_gep_len(*proj, module as int, globals@, ixs@, j as int + 1, *next, w as nat);
            lemma_shift_step(rest, off_bits, acc0, w as nat);
        }
        cur = next;
        j = j + 1;
    }
}

/// `r` fails as the outcome `o` says.
spec fn fails_as<'a>(r: Result<(BvTerm, &'a LlvmType)>, o: Outcome) -> bool {
    match r {
        Err(e) => converts_to(Err(e), o),
        Ok(_) => false,
    }
}

/// One level of an address computation: the term for the offset that index
/// `j` adds within a value of type `cur` (not a named struct), and the type
/// it leads to.
#[verifier::rlimit(60)]
fn gep_level<'a>(
    proj: &'a Project,
    module: usize,
    globals: &Vec<(String, u64)>,
    c: &Constant,
    cur: &'a LlvmType,
    ixs: &Vec<Constant>,
    j: usize,
    w: u32,
) -> (r: Result<(BvTerm, &'a LlvmType)>)
    requires
        module < proj.modules@.len(),
        1 <= w,
        j < ixs@.len(),
        !(*cur is NamedStructType),
        forall|k: int| 0 <= k < ixs@.len() ==> decreases_to!(*c => #[trigger] ixs@[k]),
        !(gep_step(*proj, module as int, globals@, ixs@, j as int, *cur, w as nat) matches Step::Fails(Outcome::Stuck)),
    ensures
        match gep_step(*proj, module as int, globals@, ixs@, j as int, *cur, w as nat) {
            Step::Offset(off, t) => r matches Ok((term, next)) && *next == t && wf(term) && width(term) == w
                && forall|env: Env| #[trigger] eval(term, env) == off,
            Step::Fails(o) => fails_as(r, o),
        },
    decreases c, 0int, 1int,
{
    match cur {
        LlvmType::PointerType(e) => {
            let e: &'a LlvmType = e;
            match index_offset(proj, module, globals, c, &ixs[j], e, w) {
                Ok(off) => Ok((off, e)),
                Err(err) => Err(err),
            }
        },
        LlvmType::ArrayType(e, _) => {
            let e: &'a LlvmType = e;
            match index_offset(proj, module, globals, c, &ixs[j], e, w) {
                Ok(off) => Ok((off, e)),
                Err(err) => Err(err),
            }
        },
        LlvmType::VectorType(e, _, _) => {
            let e: &'a LlvmType = e;
            match index_offset(proj, module, globals, c, &ixs[j], e, w) {
                Ok(off) => Ok((off, e)),
                Err(err) => Err(err),
            }
        },
        LlvmType::StructType(_) => struct_level(proj, module, cur, &ixs[j], w),
        _ => Err(Error::OtherError(String::from_str("get_offset on a type that has no elements"))),
    }
}

/// The level of an address computation for index `j` into the struct type
/// `cur`: the index must be a constant integer.
fn struct_level<'a>(proj: &'a Project, module: usize, cur: &'a LlvmType, ix: &Constant, w: u32) -> (r: Result<(BvTerm, &'a LlvmType)>)
    requires
        module < proj.modules@.len(),
        1 <= w,
        *cur is StructType,
        !(struct_step(*proj, module as int, *ix, *cur, w as nat) matches Step::Fails(Outcome::Stuck)),
    ensures
        match struct_step(*proj, module as int, *ix, *cur, w as nat) {
            Step::Offset(off, t) => r matches Ok((term, next)) && *next == t && wf(term) && width(term) == w
                && forall|env: Env| #[trigger] eval(term, env) == off,
            Step::Fails(o) => fails_as(r, o),
        },
{
    match ix {
        Constant::Int { value: index, .. } => match proj.get_offset_constant_index(module, cur, *index as usize) {
            Ok((o, t)) => {
                let off = BvTerm::Const(o as u64, w);
                assert(forall|env: Env| #[trigger] eval(off, env) == bits_of(o as nat, w as nat));
                Ok((off, t))
            },
            Err(err) => Err(err),
        },
        _ => Err(Error::MalformedInstruction(String::from_str("Expected index into struct type to be a constant int"))),
    }
}

/// The offset an index into an array, vector or pointee of element type `e`
/// adds: the index, widened to `w` bits, times the element size in bytes.
fn index_offset(
    proj: &Project,
    module: usize,
    globals: &Vec<(String, u64)>,
    c: &Constant,
    index: &Constant,
    e: &LlvmType,
    w: u32,
) -> (r: Result<BvTerm>)
    requires
        module < proj.modules@.len(),
        decreases_to!(*c => *index),
        !(index_step(*proj, denote(*proj, module as int, globals@, *index), *e, w as nat) matches Step::Fails(Outcome::Stuck)),
    ensures
        match index_step(*proj, denote(*proj, module as int, globals@, *index), *e, w as nat) {
            Step::Offset(off, _) => r matches Ok(t) && wf(t) && width(t) == w && forall|env: Env| #[trigger] eval(t, env) == off,
            Step::Fails(o) => converts_to(r, o),
        },
    decreases c, 0int, 0int,
{
    let x = const_to_bv(proj, module, globals, index)?;
    let xw = x.get_width();
    let ghost gx = x;
    let ix = if xw == w {
        x
    } else {
        BvTerm::Uext(Box::new(x), w - xw)
    };
    proof {
        assert forall|env: Env| #[trigger] value(eval(ix, env)) == value(eval(gx, env)) by {
            lemma_value_append_zeros(eval(gx, env), (w - xw) as nat);
            assert(eval(gx, env) + zeros(0) =~= eval(gx, env));
        }
    }
    match proj.size_in_bits(e) {
        None => Err(Error::OtherError(String::from_str("get_offset encountered an opaque struct type"))),
        Some(s) => {
            if s % 8 != 0 {
                Err(Error::UnsupportedInstruction(message_with_number("Encountered a type with size ", s as u64, " bits")))
            } else {
                let size = BvTerm::Const((s / 8) as u64, w);
                let ghost gix = ix;
                let t = BvTerm::Mul(Box::new(ix), Box::new(size));
                assert(wf(size) && width(size) == w);
                assert(wf(gix) && width(gix) == w);
                assert(wf(t) && width(t) == w);
                assert(forall|env: Env| #[trigger] eval(size, env) == bits_of((s / 8) as nat, w as nat));
                assert(forall|env: Env| #[trigger] eval(t, env) == bits_of(value(eval(gix, env)) * value(eval(size, env)), w as nat));
                Ok(t)
            }
        },
    }
}

/// Whether the low `bits` bits of `v` are not all zero.
fn low_bits_nonzero(v: u64, bits: u32) -> (r: bool)
    requires
        1 <= bits <= 64,
    ensures
        r == (value(bits_of(v as nat, bits as nat)) != 0),
{
    proof {
        crate::bv_term::lemma_value_bits_of(v as nat, bits as nat);
    }
    if bits == 64 {
        proof {
            vstd::arithmetic::power2::lemma2_to64();
            vstd::arithmetic::div_mod::lemma_small_mod(v as nat, pow2(64));
        }
        v != 0
    } else {
        proof {
            vstd::bits::lemma_u64_pow2_no_overflow(bits as nat);
            assert(1 * pow2(bits as nat) == pow2(bits as nat));
            vstd::bits::lemma_u64_shl_is_mul(1, bits as u64);
        }
        let m: u64 = 1u64 << bits;
        v % m != 0
    }
}

/// An environment, for facts that hold in all of them.
spec fn some_env() -> Env {
    Env { vars: |id: u64| Seq::empty(), arrays: |id: u64, j: Seq<bool>| Seq::empty() }
}

} // verus!
