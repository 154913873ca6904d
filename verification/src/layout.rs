//! Sizes and offsets of LLVM types, accounting for a `Project`'s pointer size
//! and named struct definitions.

use vstd::prelude::*;

use vstd::arithmetic::power2::{lemma_pow2_pos, pow2};

use crate::bv_term::{bits_of, eval, lemma_bits_of_mod, lemma_value_bits_of, value, wf, width, BvTerm, Env};
use crate::decimal::{decimal, message_with_number};
use crate::error::{Error, Result};
use crate::project::Project;

verus! {

/// The kinds of LLVM floating-point types.
#[derive(PartialEq, Eq, Structural, Clone, Copy, Debug)]
pub enum FPType {
    Half,
    BFloat,
    Single,
    Double,
    FP128,
    X86_FP80,
    PPC_FP128,
}

/// An LLVM type. Named struct types are referred to by name; their
/// definitions are looked up in the `Project`.
#[derive(PartialEq, Eq, Debug)]
pub enum LlvmType {
    VoidType,
    IntegerType(u32),
    /// A pointer to the given type.
    PointerType(Box<LlvmType>),
    FPType(FPType),
    FuncType,
    /// Element type, number of elements, and whether the vector is scalable.
    VectorType(Box<LlvmType>, usize, bool),
    /// Element type and number of elements.
    ArrayType(Box<LlvmType>, usize),
    /// A literal (anonymous) struct, with its element types.
    StructType(Vec<LlvmType>),
    /// A named struct, by name.
    NamedStructType(String),
    X86_MMXType,
    X86_AMXType,
    MetadataType,
    LabelType,
    TokenType,
}

/// Two types are the same type.
pub open spec fn type_eq(a: LlvmType, b: LlvmType) -> bool
    decreases a, 0int,
{
    match a {
        LlvmType::VoidType => b is VoidType,
        LlvmType::IntegerType(x) => b matches LlvmType::IntegerType(y) && x == y,
        LlvmType::PointerType(x) => b matches LlvmType::PointerType(y) && type_eq(*x, *y),
        LlvmType::FPType(x) => b matches LlvmType::FPType(y) && x == y,
        LlvmType::FuncType => b is FuncType,
        LlvmType::VectorType(x, n, sc) => b matches LlvmType::VectorType(y, m, sd) && n == m && sc == sd
            && type_eq(*x, *y),
        LlvmType::ArrayType(x, n) => b matches LlvmType::ArrayType(y, m) && n == m && type_eq(*x, *y),
        LlvmType::StructType(xs) => b matches LlvmType::StructType(ys) && xs@.len() == ys@.len()
            && types_eq(xs@, ys@, xs@.len() as int),
        LlvmType::NamedStructType(x) => b matches LlvmType::NamedStructType(y) && x@ == y@,
        LlvmType::X86_MMXType => b is X86_MMXType,
        LlvmType::X86_AMXType => b is X86_AMXType,
        LlvmType::MetadataType => b is MetadataType,
        LlvmType::LabelType => b is LabelType,
        LlvmType::TokenType => b is TokenType,
    }
}

/// The first `k` types of `xs` and `ys` are pairwise the same.
pub open spec fn types_eq(xs: Seq<LlvmType>, ys: Seq<LlvmType>, k: int) -> bool
    decreases xs, k,
{
    if k <= 0 || k > xs.len() {
        true
    } else {
        types_eq(xs, ys, k - 1) && type_eq(xs[k - 1], ys[k - 1])
    }
}

/// Pairwise sameness of a prefix holds of every shorter prefix.
proof fn lemma_types_eq_prefix(xs: Seq<LlvmType>, ys: Seq<LlvmType>, j: int, k: int)
    requires
        0 <= j <= k <= xs.len(),
        types_eq(xs, ys, k),
    ensures
        types_eq(xs, ys, j),
    decreases k - j,
{
    if j < k {
        lemma_types_eq_prefix(xs, ys, j, k - 1);
    }
}

/// Whether `a` and `b` are the same type.
pub fn same_type(a: &LlvmType, b: &LlvmType) -> (r: bool)
    ensures
        r == type_eq(*a, *b),
    decreases a,
{
    match a {
        LlvmType::StructType(xs) => match b {
            LlvmType::StructType(ys) => same_types(a, xs, ys),
            _ => false,
        },
        LlvmType::PointerType(x) => match b {
            LlvmType::PointerType(y) => {
                let x: &LlvmType = x;
                let y: &LlvmType = y;
                same_type(x, y)
            },
            _ => false,
        },
        LlvmType::VectorType(x, n, sc) => match b {
            LlvmType::VectorType(y, m, sd) => {
                let x: &LlvmType = x;
                let y: &LlvmType = y;
                *n == *m && *sc == *sd && same_type(x, y)
            },
            _ => false,
        },
        LlvmType::ArrayType(x, n) => match b {
            LlvmType::ArrayType(y, m) => {
                let x: &LlvmType = x;
                let y: &LlvmType = y;
                *n == *m && same_type(x, y)
            },
            _ => false,
        },
        LlvmType::IntegerType(x) => match b {
            LlvmType::IntegerType(y) => *x == *y,
            _ => false,
        },
        LlvmType::FPType(x) => match b {
            LlvmType::FPType(y) => *x == *y,
            _ => false,
        },
        LlvmType::NamedStructType(x) => match b {
            LlvmType::NamedStructType(y) => *x == *y,
            _ => false,
        },
        LlvmType::VoidType => matches!(b, LlvmType::VoidType),
        LlvmType::FuncType => matches!(b, LlvmType::FuncType),
        LlvmType::X86_MMXType => matches!(b, LlvmType::X86_MMXType),
        LlvmType::X86_AMXType => matches!(b, LlvmType::X86_AMXType),
        LlvmType::MetadataType => matches!(b, LlvmType::MetadataType),
        LlvmType::LabelType => matches!(b, LlvmType::LabelType),
        LlvmType::TokenType => matches!(b, LlvmType::TokenType),
    }
}

/// Whether the element types `xs` of the struct type `a` are pairwise the
/// same as `ys`.
fn same_types(a: &LlvmType, xs: &Vec<LlvmType>, ys: &Vec<LlvmType>) -> (r: bool)
    requires
        *a == LlvmType::StructType(*xs),
    ensures
        r == (xs@.len() == ys@.len() && types_eq(xs@, ys@, xs@.len() as int)),
    decreases a, 0int,
{
    if xs.len() != ys.len() {
        return false;
    }
    let mut k: usize = 0;
    while k < xs.len()
        invariant
            *a == LlvmType::StructType(*xs),
            xs@.len() == ys@.len(),
            k <= xs@.len(),
            types_eq(xs@, ys@, k as int),
        decreases xs@.len() - k,
    {
        assert(decreases_to!(*a => xs@[k as int])) by {
            let t = LlvmType::StructType(*xs);
            assert(decreases_to!(t => t->StructType_0));
            assert(decreases_to!(*xs => xs@));
        }
        if !same_type(&xs[k], &ys[k]) {
            proof {
                if types_eq(xs@, ys@, xs@.len() as int) {
                    lemma_types_eq_prefix(xs@, ys@, k as int + 1, xs@.len() as int);
                }
            }
            return false;
        }
        k = k + 1;
    }
    true
}

/// A named struct type declared in a module: its definition, or `None` if
/// it is opaque there.
pub struct NamedStructDecl {
    /// The struct's name.
    pub name: String,
    /// The struct's body (a `StructType`), or `None` if opaque.
    pub def: Option<LlvmType>,
}

/// Get the size of the `FPType`, in bits
pub open spec fn fp_size_spec(fpt: FPType) -> nat {
    match fpt {
        FPType::Half => 16,
        FPType::BFloat => 16,
        FPType::Single => 32,
        FPType::Double => 64,
        FPType::FP128 => 128,
        FPType::X86_FP80 => 80,
        FPType::PPC_FP128 => 128,
    }
}

/// Get the size of the `FPType`, in bits
pub fn fp_size_in_bits(fpt: FPType) -> (r: u32)
    ensures
        r == fp_size_spec(fpt),
{
    match fpt {
        FPType::Half => 16,
        FPType::BFloat => 16,
        FPType::Single => 32,
        FPType::Double => 64,
        FPType::FP128 => 128,
        FPType::X86_FP80 => 80,
        FPType::PPC_FP128 => 128,
    }
}

impl Project {
    /// Declaration `i` of module `m`.
    pub open spec fn decl(&self, m: int, i: int) -> NamedStructDecl {
        self.modules@[m].named_structs@[i]
    }

    /// The first declaration of `name` in module `m`, if any.
    pub open spec fn decl_in(&self, m: int, name: Seq<char>) -> Option<int> {
        if exists|i: int| 0 <= i < self.modules@[m].named_structs@.len() && #[trigger] self.decl(m, i).name@ == name {
            Some(choose|i: int| 0 <= i < self.modules@[m].named_structs@.len() && #[trigger] self.decl(m, i).name@ == name
                && forall|j: int| 0 <= j < i ==> self.decl(m, j).name@ != name)
        } else {
            None
        }
    }

    /// The declaration of `name` chosen among the first `k` modules: the
    /// first one that defines the struct, or else the first one that
    /// declares it, as (module, declaration) positions.
    pub open spec fn named_scan(&self, name: Seq<char>, k: int) -> Option<(int, int)>
        decreases k,
    {
        if k <= 0 {
            None
        } else {
            let prev = self.named_scan(name, k - 1);
            match self.decl_in(k - 1, name) {
                None => prev,
                Some(i) => match prev {
                    None => Some((k - 1, i)),
                    Some((pm, pi)) => if self.decl(pm, pi).def is None && self.decl(k - 1, i).def is Some {
                        Some((k - 1, i))
                    } else {
                        prev
                    },
                },
            }
        }
    }

    /// The declaration of `name` that the project uses.
    pub open spec fn named_def(&self, name: Seq<char>) -> Option<(int, int)> {
        self.named_scan(name, self.modules@.len() as int)
    }

    /// The first declaration of `name` in module `m`.
    pub(crate) fn find_decl(&self, m: usize, name: &str) -> (r: Option<usize>)
        requires
            m < self.modules@.len(),
        ensures
            match r {
                Some(i) => self.decl_in(m as int, name@) == Some(i as int) && i < self.modules@[m as int].named_structs@.len(),
                None => self.decl_in(m as int, name@) is None,
            },
    {
        let decls = &self.modules[m].named_structs;
        let wanted = name.to_owned();
        let mut i: usize = 0;
        while i < decls.len()
            invariant
                decls == &self.modules@[m as int].named_structs,
                wanted@ == name@,
                i <= decls@.len(),
                forall|j: int| 0 <= j < i ==> self.decl(m as int, j).name@ != name@,
            decreases decls@.len() - i,
        {
            if decls[i].name == wanted {
                proof {
                    let c = choose|c: int| 0 <= c < self.modules@[m as int].named_structs@.len() && #[trigger] self.decl(m as int, c).name@ == name@
                        && forall|j: int| 0 <= j < c ==> self.decl(m as int, j).name@ != name@;
                    assert(self.decl(m as int, i as int).name@ == name@);
                    if c < i {
                    } else if c > i {
                    }
                }
                return Some(i);
            }
            i = i + 1;
        }
        None
    }

    /// Get the definition of the named struct with the given name: the
    /// declaration used, and the position of the module it was found in.
    ///
    /// Returns `Err` if neither a definition nor declaration for a named struct
    /// type with the given name was found anywhere in the `Project`.
    ///
    /// If the named struct type is defined in multiple modules in the `Project`,
    /// this returns the first definition. It will only return an opaque
    /// declaration if _all_ declarations are opaque.
    pub fn get_named_struct_def(&self, name: &str) -> (r: Result<(&NamedStructDecl, usize)>)
        ensures
            match r {
                Ok((d, m)) => self.named_def(name@) matches Some((dm, di)) && m == dm && *d == self.decl(dm, di),
                Err(e) => self.named_def(name@) is None && e is OtherError,
            },
    {
        let mut retval: Option<(usize, usize)> = None;
        let mut m: usize = 0;
        while m < self.modules.len()
            invariant
                m <= self.modules@.len(),
                match retval {
                    Some((pm, pi)) => self.named_scan(name@, m as int) == Some((pm as int, pi as int))
                        && pm < self.modules@.len() && pi < self.modules@[pm as int].named_structs@.len(),
                    None => self.named_scan(name@, m as int) is None,
                },
            decreases self.modules@.len() - m,
        {
            match self.find_decl(m, name) {
                None => {},
                Some(i) => match retval {
                    None => {
                        retval = Some((m, i));
                    },
                    Some((pm, pi)) => {
                        if self.modules[pm].named_structs[pi].def.is_none() && self.modules[m].named_structs[i].def.is_some() {
                            // found an actual definition, replacing an opaque one
                            retval = Some((m, i));
                        }
                    },
                },
            }
            m = m + 1;
        }
        match retval {
            Some((pm, pi)) => Ok((&self.modules[pm].named_structs[pi], pm)),
            None => {
                let mut msg = String::from_str("Trying to get definition of named struct \"");
                msg.append(name);
                msg.append("\" which is neither defined nor even declared anywhere in the Project");
                Err(Error::OtherError(msg))
            },
        }
    }
}

/// How many named struct definitions may be expanded one inside another
/// while computing a size: named structs nest less deeply than this.
pub const NESTING_BOUND: u64 = 0xffff_ffff_ffff_ffff;

impl Project {
    /// The size of `ty` in bits, expanding at most `budget` named struct
    /// definitions one inside another; `None` for a struct with no definition
    /// in the project (or one of its elements).
    pub open spec fn size_spec(&self, ty: LlvmType, budget: nat) -> Option<int>
        decreases budget, ty, 0int,
    {
        match ty {
            LlvmType::IntegerType(bits) => Some(bits as int),
            LlvmType::PointerType(_) => Some(self.pointer_size_bits as int),
            LlvmType::FPType(fpt) => Some(fp_size_spec(fpt) as int),
            LlvmType::ArrayType(e, n) => match self.size_spec(*e, budget) {
                Some(s) => Some(s * n),
                None => None,
            },
            LlvmType::VectorType(e, n, _) => match self.size_spec(*e, budget) {
                Some(s) => Some(s * n),
                None => None,
            },
            LlvmType::StructType(es) => self.struct_size(es@, es@.len() as int, budget),
            LlvmType::NamedStructType(name) => if budget == 0 {
                None
            } else {
                match self.named_def(name@) {
                    Some((m, i)) => match self.decl(m, i).def {
                        Some(t) => self.size_spec(t, (budget - 1) as nat),
                        None => None,
                    },
                    None => None,
                }
            },
            _ => Some(0),
        }
    }

    /// The total size of the first `k` element types `es`, `None` if one of
    /// them has no size.
    pub open spec fn struct_size(&self, es: Seq<LlvmType>, k: int, budget: nat) -> Option<int>
        decreases budget, es, k,
    {
        if k <= 0 || k > es.len() {
            Some(0)
        } else {
            match self.struct_size(es, k - 1, budget) {
                Some(a) => match self.size_spec(es[k - 1], budget) {
                    Some(b) => Some(a + b),
                    None => None,
                },
                None => None,
            }
        }
    }

    /// The size of `ty` can be computed: no type without a size is met, no
    /// scalable vector, and no count or size beyond `u32`.
    pub open spec fn sizable(&self, ty: LlvmType, budget: nat) -> bool
        decreases budget, ty, 0int,
    {
        match ty {
            LlvmType::IntegerType(_) => true,
            LlvmType::PointerType(_) => true,
            LlvmType::FPType(_) => true,
            LlvmType::VoidType => true,
            LlvmType::ArrayType(e, n) => n <= u32::MAX && self.sizable(*e, budget) && (self.size_spec(*e, budget) matches Some(s) ==> s * n <= u32::MAX),
            LlvmType::VectorType(e, n, scalable) => !scalable && n <= u32::MAX && self.sizable(*e, budget) && (self.size_spec(*e, budget) matches Some(s) ==> s * n <= u32::MAX),
            LlvmType::StructType(es) => self.struct_sizable(es@, es@.len() as int, budget),
            LlvmType::NamedStructType(name) => budget > 0 ==> match self.named_def(name@) {
                Some((m, i)) => match self.decl(m, i).def {
                    Some(t) => self.sizable(t, (budget - 1) as nat),
                    None => true,
                },
                None => true,
            },
            _ => false,
        }
    }

    /// The sizes of the first `k` element types `es` can be summed up to the
    /// first one that has no size.
    pub open spec fn struct_sizable(&self, es: Seq<LlvmType>, k: int, budget: nat) -> bool
        decreases budget, es, k,
    {
        if k <= 0 || k > es.len() {
            true
        } else {
            &&& self.struct_sizable(es, k - 1, budget)
            &&& self.struct_size(es, k - 1, budget) is Some ==> {
                &&& self.sizable(es[k - 1], budget)
                &&& self.struct_size(es, k, budget) matches Some(t) ==> t <= u32::MAX
            }
        }
    }

    /// The size of `ty` in bits, as `size_in_bits` computes it.
    fn size_in_bits_within(&self, ty: &LlvmType, budget: u64) -> (r: Option<u32>)
        requires
            self.sizable(*ty, budget as nat),
        ensures
            match r {
                Some(s) => self.size_spec(*ty, budget as nat) == Some(s as int),
                None => self.size_spec(*ty, budget as nat) is None,
            },
        decreases budget, ty,
    {
        match ty {
            LlvmType::IntegerType(bits) => Some(*bits),
            LlvmType::PointerType(_) => Some(self.pointer_size_bits),
            LlvmType::FPType(fpt) => Some(fp_size_in_bits(*fpt)),
            LlvmType::ArrayType(e, n) => {
                let n: u32 = *n as u32;
                let e: &LlvmType = e;
                match self.size_in_bits_within(e, budget) {
                    Some(s) => Some(s * n),
                    None => None,
                }
            },
            LlvmType::VectorType(e, n, _) => {
                let n: u32 = *n as u32;
                let e: &LlvmType = e;
                match self.size_in_bits_within(e, budget) {
                    Some(s) => Some(s * n),
                    None => None,
                }
            },
            LlvmType::StructType(es) => {
                assert(*ty == LlvmType::StructType(*es));
                let mut total: u32 = 0;
                let mut k: usize = 0;
                while k < es.len()
                    invariant
                        *ty == LlvmType::StructType(*es),
                        k <= es@.len(),
                        self.struct_sizable(es@, es@.len() as int, budget as nat),
                        self.struct_size(es@, k as int, budget as nat) == Some(total as int),
                    decreases es@.len() - k,
                {
                    proof {
                        self.lemma_struct_sizable_prefix(es@, es@.len() as int, k as int + 1, budget as nat);
                    }
                    assert(decreases_to!(*ty => es@[k as int])) by {
                        assert(*ty == LlvmType::StructType(*es));
                        assert(decreases_to!(*ty => *es));
                        assert(decreases_to!(*es => es@));
                    }
                    match self.size_in_bits_within(&es[k], budget) {
                        Some(s) => {
                            total = total + s;
                        },
                        None => {
                            proof {
                                self.lemma_struct_size_none(es@, k as int + 1, es@.len() as int, budget as nat);
                            }
                            return None;
                        },
                    }
                    k = k + 1;
                }
                Some(total)
            },
            LlvmType::NamedStructType(name) => {
                if budget == 0 {
                    return None;
                }
                match self.get_named_struct_def(name.as_str()) {
                    Ok((decl, _)) => match &decl.def {
                        Some(t) => self.size_in_bits_within(t, budget - 1),
                        None => None,
                    },
                    Err(_) => None,
                }
            },
            _ => Some(0),
        }
    }

    /// A sizable struct has sizable prefixes.
    proof fn lemma_struct_sizable_prefix(&self, es: Seq<LlvmType>, k: int, j: int, budget: nat)
        requires
            self.struct_sizable(es, k, budget),
            0 <= j <= k <= es.len(),
        ensures
            self.struct_sizable(es, j, budget),
        decreases k - j,
    {
        if j < k {
            self.lemma_struct_sizable_prefix(es, k - 1, j, budget);
        }
    }

    /// Once a prefix of the elements has no size, no longer prefix has one.
    proof fn lemma_struct_size_none(&self, es: Seq<LlvmType>, j: int, k: int, budget: nat)
        requires
            0 < j <= k <= es.len(),
            self.struct_size(es, j, budget) is None,
        ensures
            self.struct_size(es, k, budget) is None,
        decreases k - j,
    {
        if j < k {
            self.lemma_struct_size_none(es, j, k - 1, budget);
        }
    }

    /// Get the size of the `Type`, in bits.
    ///
    /// Accounts for the `Project`'s pointer size and named struct definitions.
    ///
    /// Note that some types have size 0 bits, and this may return `Some(0)`.
    ///
    /// Returns `None` for structs which have no definition in the entire `Project`,
    /// or for structs/arrays/vectors where one of the elements is a struct with no
    /// definition in the entire `Project`.
    pub fn size_in_bits(&self, ty: &LlvmType) -> (r: Option<u32>)
        requires
            self.sizable(*ty, NESTING_BOUND as nat),
        ensures
            match r {
                Some(s) => self.size_spec(*ty, NESTING_BOUND as nat) == Some(s as int),
                None => self.size_spec(*ty, NESTING_BOUND as nat) is None,
            },
    {
        self.size_in_bits_within(ty, NESTING_BOUND)
    }
}

/// What `get_offset_constant_index` finds.
pub enum OffsetOutcome {
    /// The element is at this offset (in bytes) and has this type.
    Offset(int, LlvmType),
    /// An element, or a struct, has no definition.
    Opaque,
    /// The element size, in bits, is not a whole number of bytes.
    ElementSize(int),
    /// The struct offset, in bits, is not a whole number of bytes.
    StructOffset(int),
    /// The named struct is not declared in the current module.
    NotFound,
}

impl Project {
    /// The offset (in bytes) and the type of the element at `index` of
    /// `base`, where `base` is met in module `module`.
    pub open spec fn offset_spec(&self, module: int, base: LlvmType, index: int, budget: nat) -> OffsetOutcome
        decreases budget,
    {
        match base {
            LlvmType::PointerType(e) => Self::element_offset(self.size_spec(*e, NESTING_BOUND as nat), *e, index),
            LlvmType::ArrayType(e, _) => Self::element_offset(self.size_spec(*e, NESTING_BOUND as nat), *e, index),
            LlvmType::VectorType(e, _, _) => Self::element_offset(self.size_spec(*e, NESTING_BOUND as nat), *e, index),
            LlvmType::StructType(es) => {
                let k = if index < es@.len() { index } else { es@.len() as int };
                match self.struct_size(es@, k, NESTING_BOUND as nat) {
                    None => OffsetOutcome::Opaque,
                    Some(o) => if o % 8 != 0 {
                        OffsetOutcome::StructOffset(o)
                    } else {
                        OffsetOutcome::Offset(o / 8, es@[index])
                    },
                }
            },
            LlvmType::NamedStructType(name) => match self.decl_in(module, name@) {
                None => OffsetOutcome::NotFound,
                Some(i) => match self.decl(module, i).def {
                    None => OffsetOutcome::Opaque,
                    Some(t) => if budget == 0 {
                        OffsetOutcome::Opaque
                    } else {
                        self.offset_spec(module, t, index, (budget - 1) as nat)
                    },
                },
            },
            _ => OffsetOutcome::Opaque,
        }
    }

    /// The offset of element `index` of an array, vector or pointee of
    /// element type `e` whose size is `size`.
    pub open spec fn element_offset(size: Option<int>, e: LlvmType, index: int) -> OffsetOutcome {
        match size {
            None => OffsetOutcome::Opaque,
            Some(s) => if s % 8 != 0 {
                OffsetOutcome::ElementSize(s)
            } else {
                OffsetOutcome::Offset(index * (s / 8), e)
            },
        }
    }

    /// `get_offset_constant_index` can run on these arguments: the base type
    /// is one it handles, sizes can be computed, and the offset fits a `u32`.
    pub open spec fn offset_allowed(&self, module: int, base: LlvmType, index: int, budget: nat) -> bool
        decreases budget,
    {
        match base {
            LlvmType::PointerType(e) => Self::element_offset_allowed(self, *e, index),
            LlvmType::ArrayType(e, _) => Self::element_offset_allowed(self, *e, index),
            LlvmType::VectorType(e, _, _) => Self::element_offset_allowed(self, *e, index),
            LlvmType::StructType(es) => {
                let k = if index < es@.len() { index } else { es@.len() as int };
                &&& self.struct_sizable(es@, k, NESTING_BOUND as nat)
                &&& match self.struct_size(es@, k, NESTING_BOUND as nat) {
                    Some(o) => o % 8 == 0 ==> index < es@.len(),
                    None => true,
                }
            },
            LlvmType::NamedStructType(name) => match self.decl_in(module, name@) {
                Some(i) => match self.decl(module, i).def {
                    Some(t) => budget > 0 && self.offset_allowed(module, t, index, (budget - 1) as nat),
                    None => true,
                },
                None => true,
            },
            _ => false,
        }
    }

    /// The element offset can be computed for element type `e`.
    pub open spec fn element_offset_allowed(&self, e: LlvmType, index: int) -> bool {
        &&& self.sizable(e, NESTING_BOUND as nat)
        &&& match self.size_spec(e, NESTING_BOUND as nat) {
            Some(s) => s % 8 == 0 ==> (index <= u32::MAX && index * (s / 8) <= u32::MAX),
            None => true,
        }
    }

    /// The offset of element `index` of an array, vector or pointee of
    /// element type `e`.
    fn element_offset_exec<'a>(&self, e: &'a LlvmType, index: usize) -> (r: Result<(u32, &'a LlvmType)>)
        requires
            self.element_offset_allowed(*e, index as int),
        ensures
            Self::outcome_matches(r, Self::element_offset(self.size_spec(*e, NESTING_BOUND as nat), *e, index as int)),
    {
        match self.size_in_bits(e) {
            None => Err(Error::MalformedInstruction(String::from_str("get_offset encountered an opaque struct type"))),
            Some(el_size_bits) => {
                if el_size_bits % 8 != 0 {
                    Err(Error::UnsupportedInstruction(message_with_number("Encountered a type with size ", el_size_bits as u64, " bits")))
                } else {
                    let el_size_bytes = el_size_bits / 8;
                    let index: u32 = index as u32;
                    proof {
                        assert(index * el_size_bytes <= u32::MAX);
                    }
                    Ok((index * el_size_bytes, e))
                }
            },
        }
    }

    /// A result of `get_offset_constant_index` is the one the outcome
    /// describes.
    pub open spec fn outcome_matches(r: Result<(u32, &LlvmType)>, o: OffsetOutcome) -> bool {
        match o {
            OffsetOutcome::Offset(off, t) => r matches Ok((a, u)) && a == off && *u == t,
            OffsetOutcome::Opaque => r matches Err(Error::MalformedInstruction(_)),
            OffsetOutcome::ElementSize(s) => r matches Err(Error::UnsupportedInstruction(m))
                && m@ == "Encountered a type with size "@ + decimal(s as nat) + " bits"@,
            OffsetOutcome::StructOffset(s) => r matches Err(Error::UnsupportedInstruction(m))
                && m@ == "Struct offset of "@ + decimal(s as nat) + " bits"@,
            OffsetOutcome::NotFound => r matches Err(Error::MalformedInstruction(_)),
        }
    }

    /// Get the offset (in _bytes_) of the element at the given index, as well
    /// as the type of the element at that index.
    ///
    /// `module` is the position of the module the instruction is in: a
    /// `NamedStructType` base should be defined in that module.
    pub fn get_offset_constant_index<'a>(&'a self, module: usize, base_type: &'a LlvmType, index: usize) -> (r: Result<(u32, &'a LlvmType)>)
        requires
            module < self.modules@.len(),
            self.offset_allowed(module as int, *base_type, index as int, NESTING_BOUND as nat),
        ensures
            Self::outcome_matches(r, self.offset_spec(module as int, *base_type, index as int, NESTING_BOUND as nat)),
    {
        self.get_offset_within(module, base_type, index, NESTING_BOUND)
    }

    fn get_offset_within<'a>(&'a self, module: usize, base_type: &'a LlvmType, index: usize, budget: u64) -> (r: Result<(u32, &'a LlvmType)>)
        requires
            module < self.modules@.len(),
            self.offset_allowed(module as int, *base_type, index as int, budget as nat),
        ensures
            Self::outcome_matches(r, self.offset_spec(module as int, *base_type, index as int, budget as nat)),
        decreases budget,
    {
        match base_type {
            LlvmType::PointerType(e) => self.element_offset_exec(e, index),
            LlvmType::ArrayType(e, _) => self.element_offset_exec(e, index),
            LlvmType::VectorType(e, _, _) => self.element_offset_exec(e, index),
            LlvmType::StructType(es) => {
                assert(*base_type == LlvmType::StructType(*es));
                let k: usize = if index < es.len() { index } else { es.len() };
                let mut offset_bits: u32 = 0;
                let mut j: usize = 0;
                while j < k
                    invariant
                        *base_type == LlvmType::StructType(*es),
                        k == (if index < es@.len() { index as int } else { es@.len() as int }),
                        k <= es@.len(),
                        j <= k,
                        self.struct_sizable(es@, k as int, NESTING_BOUND as nat),
                        self.struct_size(es@, j as int, NESTING_BOUND as nat) == Some(offset_bits as int),
                    decreases k - j,
                {
                    proof {
                        self.lemma_struct_sizable_prefix(es@, k as int, j as int + 1, NESTING_BOUND as nat);
                    }
                    match self.size_in_bits(&es[j]) {
                        Some(s) => {
                            offset_bits = offset_bits + s;
                        },
                        None => {
                            proof {
                                self.lemma_struct_size_none(es@, j as int + 1, k as int, NESTING_BOUND as nat);
                            }
                            return Err(Error::MalformedInstruction(String::from_str("get_offset encountered an opaque struct type")));
                        },
                    }
                    j = j + 1;
                }
                if offset_bits % 8 != 0 {
                    Err(Error::UnsupportedInstruction(message_with_number("Struct offset of ", offset_bits as u64, " bits")))
                } else {
                    Ok((offset_bits / 8, &es[index]))
                }
            },
            LlvmType::NamedStructType(name) => {
                match self.find_decl(module, name.as_str()) {
                    None => {
                        let mut msg = String::from_str("get_offset on a struct type not found in the current module: ");
                        msg.append(name.as_str());
                        Err(Error::MalformedInstruction(msg))
                    },
                    Some(i) => match &self.modules[module].named_structs[i].def {
                        None => {
                            let mut msg = String::from_str("get_offset on an opaque struct type: ");
                            msg.append(name.as_str());
                            Err(Error::MalformedInstruction(msg))
                        },
                        Some(t) => {
                            if budget == 0 {
                                Err(Error::MalformedInstruction(String::from_str("get_offset on a struct type nested too deeply")))
                            } else {
                                self.get_offset_within(module, t, index, budget - 1)
                            }
                        },
                    },
                }
            },
            _ => {
                proof {
                    assert(false);
                }
                Err(Error::MalformedInstruction(String::from_str("get_offset on a type without elements")))
            },
        }
    }
}


/// The message for a symbolic index into a struct.
pub open spec fn struct_index_message() -> Seq<char> {
    "Index into struct type must be constant; consider using `get_offset_constant_index` instead of `get_offset_bv_index`"@
}

impl Project {
    /// What `get_offset_bv_index` gives for an element of type `e`, of the
    /// given size, at the symbolic `index`.
    pub open spec fn bv_offset_outcome(r: Result<(BvTerm, &LlvmType)>, size: Option<int>, e: LlvmType, index: BvTerm) -> bool {
        match size {
            None => r matches Err(Error::OtherError(m)) && "get_offset encountered an opaque struct type: "@.is_prefix_of(m@),
            Some(s) => if s % 8 != 0 {
                r matches Err(Error::UnsupportedInstruction(m)) && m@ == "Encountered a type with size "@ + decimal(s as nat) + " bits"@
            } else {
                &&& r matches Ok((t, ty)) && *ty == e
                &&& wf(r->Ok_0.0)
                &&& width(r->Ok_0.0) == width(index)
                &&& forall|env: Env| #[trigger] eval(r->Ok_0.0, env) == bits_of(
                    value(eval(index, env)) * ((s / 8) as nat),
                    width(index),
                )
            },
        }
    }

    /// Get the offset (in _bytes_) of the element at the given index, as well
    /// as the type of the element at that index.
    ///
    /// This function differs from `get_offset_constant_index` in that it
    /// takes an arbitrary term as index instead of a `usize`, and likewise
    /// returns its offset as a term, of the same width as `index` (the
    /// product wrapping around at that width).
    pub fn get_offset_bv_index<'a>(&self, base_type: &'a LlvmType, index: &BvTerm) -> (r: Result<(BvTerm, &'a LlvmType)>)
        requires
            wf(*index),
            match *base_type {
                LlvmType::PointerType(e) => self.sizable(*e, NESTING_BOUND as nat),
                LlvmType::ArrayType(e, _) => self.sizable(*e, NESTING_BOUND as nat),
                LlvmType::VectorType(e, _, _) => self.sizable(*e, NESTING_BOUND as nat),
                LlvmType::StructType(_) => true,
                LlvmType::NamedStructType(_) => true,
                _ => false,
            },
        ensures
            match *base_type {
                LlvmType::PointerType(e) => Self::bv_offset_outcome(r, self.size_spec(*e, NESTING_BOUND as nat), *e, *index),
                LlvmType::ArrayType(e, _) => Self::bv_offset_outcome(r, self.size_spec(*e, NESTING_BOUND as nat), *e, *index),
                LlvmType::VectorType(e, _, _) => Self::bv_offset_outcome(r, self.size_spec(*e, NESTING_BOUND as nat), *e, *index),
                _ => r matches Err(Error::MalformedInstruction(m)) && m@ == struct_index_message(),
            },
    {
        let element_type: &LlvmType = match base_type {
            LlvmType::PointerType(e) => e,
            LlvmType::ArrayType(e, _) => e,
            LlvmType::VectorType(e, _, _) => e,
            _ => {
                return Err(
                    Error::MalformedInstruction(
                        String::from_str(
                            "Index into struct type must be constant; consider using `get_offset_constant_index` instead of `get_offset_bv_index`",
                        ),
                    ),
                );
            },
        };
        match self.size_in_bits(element_type) {
            None => {
                let mut m = String::from_str("get_offset encountered an opaque struct type: ");
                let ghost prefix = m@;
                m.append(element_type.debug_text().as_str());
                proof {
                    reveal_strlit("get_offset encountered an opaque struct type: ");
                }
                assert(m@.subrange(0, prefix.len() as int) =~= prefix);
                Err(Error::OtherError(m))
            },
            Some(el_size_bits) => {
                if el_size_bits % 8 != 0 {
                    Err(Error::UnsupportedInstruction(message_with_number("Encountered a type with size ", el_size_bits as u64, " bits")))
                } else {
                    let el_size_bytes = (el_size_bits / 8) as u64;
                    let w = index.get_width();
                    let size_term = BvTerm::Const(el_size_bytes, w);
                    let i2 = index.clone();
                    assert(wf(i2) && width(i2) == w);
                    assert(wf(size_term) && width(size_term) == w);
                    let t = BvTerm::Mul(Box::new(i2), Box::new(size_term));
                    assert(wf(t));
                    assert forall|env: Env| #[trigger] eval(t, env) == bits_of(
                        value(eval(*index, env)) * (el_size_bytes as nat),
                        w as nat,
                    ) by {
                        let x = value(eval(*index, env));
                        let m = pow2(w as nat);
                        lemma_pow2_pos(w as nat);
                        lemma_value_bits_of(el_size_bytes as nat, w as nat);
                        assert(eval(size_term, env) == bits_of(el_size_bytes as nat, w as nat));
                        vstd::arithmetic::div_mod::lemma_mul_mod_noop_right(x as int, el_size_bytes as int, m as int);
                        lemma_bits_of_mod(x * (el_size_bytes as nat % m), x * (el_size_bytes as nat), w as nat);
                    }
                    Ok((t, element_type))
                }
            },
        }
    }
}

/// The floating-point kinds have the widths of their formats: half and
/// bfloat 16 bits, float 32, double 64, x87 extended 80, quad and PowerPC
/// double-double 128; a double is twice a float and a quad twice a double.
/// In any project, a floating-point type's size is that width, and
/// `fp_size_in_bits` gives it.
pub proof fn lemma_fp_widths(proj: Project, f: FPType, budget: nat)
    ensures
        fp_size_spec(FPType::Half) == 16,
        fp_size_spec(FPType::BFloat) == 16,
        fp_size_spec(FPType::Single) == 32,
        fp_size_spec(FPType::Double) == 64,
        fp_size_spec(FPType::X86_FP80) == 80,
        fp_size_spec(FPType::FP128) == 128,
        fp_size_spec(FPType::PPC_FP128) == 128,
        fp_size_spec(FPType::Double) == 2 * fp_size_spec(FPType::Single),
        fp_size_spec(FPType::FP128) == 2 * fp_size_spec(FPType::Double),
        fp_size_spec(f) % 16 == 0 && 16 <= fp_size_spec(f) <= 128,
        proj.size_spec(LlvmType::FPType(f), budget) == Some(fp_size_spec(f) as int),
{
}

/// An integer type is as wide as its bit count, a pointer as the project's
/// pointers, and void has size zero.
pub proof fn lemma_scalar_sizes(proj: Project, bits: u32, pointee: LlvmType, budget: nat)
    ensures
        proj.size_spec(LlvmType::IntegerType(bits), budget) == Some(bits as int),
        proj.size_spec(LlvmType::PointerType(Box::new(pointee)), budget) == Some(proj.pointer_size_bits as int),
        proj.size_spec(LlvmType::VoidType, budget) == Some(0int),
{
}

/// An array or a vector of `n` elements is `n` times as large as its
/// element: a vector has the size of the array of the same element type and
/// count, an empty one has size zero, one of a single element has the
/// element's size, and one more element adds the element's size.
pub proof fn lemma_aggregate_sizes(proj: Project, e: LlvmType, n: usize, scalable: bool, budget: nat)
    ensures
        proj.size_spec(LlvmType::VectorType(Box::new(e), n, scalable), budget)
            == proj.size_spec(LlvmType::ArrayType(Box::new(e), n), budget),
        proj.size_spec(e, budget) matches Some(s) ==> proj.size_spec(LlvmType::ArrayType(Box::new(e), n), budget)
            == Some(n * s),
        proj.size_spec(e, budget) is None ==> proj.size_spec(LlvmType::ArrayType(Box::new(e), n), budget) is None,
        proj.size_spec(e, budget) is Some ==> proj.size_spec(LlvmType::ArrayType(Box::new(e), 0), budget) == Some(0int),
        proj.size_spec(LlvmType::ArrayType(Box::new(e), 1), budget) == proj.size_spec(e, budget),
        proj.size_spec(LlvmType::VectorType(Box::new(e), 1, scalable), budget) == proj.size_spec(e, budget),
        n < usize::MAX ==> (proj.size_spec(e, budget) matches Some(s) ==> proj.size_spec(
            LlvmType::ArrayType(Box::new(e), (n + 1) as usize),
            budget,
        ) == Some(proj.size_spec(LlvmType::ArrayType(Box::new(e), n), budget)->0 + s)),
{
    if let Some(s) = proj.size_spec(e, budget) {
        assert(s * n == n * s) by (nonlinear_arith);
        assert(s * (n + 1) == s * n + s) by (nonlinear_arith);
        assert(s * 1 == s);
        assert(s * 0 == 0);
    }
}

/// The elements of an array, of a vector and of what a pointer points to
/// are laid out alike, one after the other: element 0 is at offset 0,
/// element `i + 1` is one element size (in bytes) after element `i`, and
/// each element has the element type.
pub proof fn lemma_element_offsets(proj: Project, module: int, e: LlvmType, n: usize, scalable: bool, i: int, budget: nat)
    requires
        i >= 0,
    ensures
        proj.offset_spec(module, LlvmType::ArrayType(Box::new(e), n), i, budget)
            == proj.offset_spec(module, LlvmType::PointerType(Box::new(e)), i, budget),
        proj.offset_spec(module, LlvmType::VectorType(Box::new(e), n, scalable), i, budget)
            == proj.offset_spec(module, LlvmType::PointerType(Box::new(e)), i, budget),
        proj.size_spec(e, NESTING_BOUND as nat) is Some && proj.size_spec(e, NESTING_BOUND as nat)->0 % 8 == 0 ==> {
            &&& proj.offset_spec(module, LlvmType::ArrayType(Box::new(e), n), 0, budget) == OffsetOutcome::Offset(0, e)
            &&& proj.offset_spec(module, LlvmType::ArrayType(Box::new(e), n), i, budget) is Offset
            &&& proj.offset_spec(module, LlvmType::ArrayType(Box::new(e), n), i, budget)->Offset_1 == e
            &&& proj.offset_spec(module, LlvmType::ArrayType(Box::new(e), n), i, budget)->Offset_0 * 8
                == i * proj.size_spec(e, NESTING_BOUND as nat)->0
            &&& proj.offset_spec(module, LlvmType::ArrayType(Box::new(e), n), i + 1, budget)->Offset_0
                == proj.offset_spec(module, LlvmType::ArrayType(Box::new(e), n), i, budget)->Offset_0
                + proj.size_spec(e, NESTING_BOUND as nat)->0 / 8
        },
{
    if proj.size_spec(e, NESTING_BOUND as nat) is Some {
        let s = proj.size_spec(e, NESTING_BOUND as nat)->0;
        if s % 8 == 0 {
            assert(i * (s / 8) * 8 == i * s) by (nonlinear_arith)
                requires
                    s % 8 == 0,
            ;
            assert((i + 1) * (s / 8) == i * (s / 8) + s / 8) by (nonlinear_arith);
            assert(0 * (s / 8) == 0);
        }
    }
}

/// The elements of a struct are laid out one after the other: element 0 is
/// at offset 0, and where element `i + 1` exists and the offsets are whole
/// bytes, it is element `i`'s size (in bytes) after element `i`; each
/// element has its own type.
pub proof fn lemma_struct_offsets(proj: Project, module: int, es: Vec<LlvmType>, i: int, budget: nat)
    requires
        0 <= i,
        i + 1 < es@.len(),
    ensures
        proj.offset_spec(module, LlvmType::StructType(es), 0, budget) == OffsetOutcome::Offset(0, es@[0]),
        proj.offset_spec(module, LlvmType::StructType(es), i, budget) is Offset ==> proj.offset_spec(
            module,
            LlvmType::StructType(es),
            i,
            budget,
        )->Offset_1 == es@[i],
        proj.offset_spec(module, LlvmType::StructType(es), i, budget) is Offset && proj.offset_spec(
            module,
            LlvmType::StructType(es),
            i + 1,
            budget,
        ) is Offset ==> proj.size_spec(es@[i], NESTING_BOUND as nat) is Some
            && proj.offset_spec(module, LlvmType::StructType(es), i + 1, budget)->Offset_0 * 8
            == proj.offset_spec(module, LlvmType::StructType(es), i, budget)->Offset_0 * 8
            + proj.size_spec(es@[i], NESTING_BOUND as nat)->0,
{
    let b = NESTING_BOUND as nat;
    assert(proj.struct_size(es@, 0, b) == Some(0int));
}

} // verus!
