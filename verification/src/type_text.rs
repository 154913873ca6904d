//! The text of a type in error messages: the way Rust's derived `Debug`
//! writes an `LlvmType`, such as `PointerType(IntegerType(8))` or
//! `NamedStructType("struct.pair")`.

use vstd::prelude::*;
use vstd::string::StrSliceExecFns;

use crate::decimal::{decimal, to_decimal};
use crate::layout::{FPType, LlvmType};

verus! {

/// How a `bool` is written.
pub open spec fn bool_text(b: bool) -> Seq<char> {
    if b {
        "true"@
    } else {
        "false"@
    }
}

/// How a floating-point kind is written: its variant's name.
pub open spec fn fp_text(f: FPType) -> Seq<char> {
    match f {
        FPType::Half => "Half"@,
        FPType::BFloat => "BFloat"@,
        FPType::Single => "Single"@,
        FPType::Double => "Double"@,
        FPType::FP128 => "FP128"@,
        FPType::X86_FP80 => "X86_FP80"@,
        FPType::PPC_FP128 => "PPC_FP128"@,
    }
}

/// How a character is written inside a quoted string: a double quote, a
/// backslash, a NUL, a tab, a carriage return and a newline are escaped with
/// a backslash; any other character stands for itself.
pub open spec fn escaped_char(c: char) -> Seq<char> {
    if c == '"' {
        "\\\""@
    } else if c == '\\' {
        "\\\\"@
    } else if c == '\0' {
        "\\0"@
    } else if c == '\t' {
        "\\t"@
    } else if c == '\r' {
        "\\r"@
    } else if c == '\n' {
        "\\n"@
    } else {
        seq![c]
    }
}

/// The characters of `s`, each written as `escaped_char` writes it.
pub open spec fn escaped(s: Seq<char>) -> Seq<char>
    decreases s.len(),
{
    if s.len() == 0 {
        Seq::empty()
    } else {
        escaped(s.drop_last()) + escaped_char(s.last())
    }
}

/// How a type is written.
pub open spec fn type_text(t: LlvmType) -> Seq<char>
    decreases t, 0int,
{
    match t {
        LlvmType::VoidType => "VoidType"@,
        LlvmType::IntegerType(b) => "IntegerType("@ + decimal(b as nat) + ")"@,
        LlvmType::PointerType(e) => "PointerType("@ + type_text(*e) + ")"@,
        LlvmType::FPType(f) => "FPType("@ + fp_text(f) + ")"@,
        LlvmType::FuncType => "FuncType"@,
        LlvmType::VectorType(e, n, s) => "VectorType("@ + type_text(*e) + ", "@ + decimal(n as nat) + ", "@
            + bool_text(s) + ")"@,
        LlvmType::ArrayType(e, n) => "ArrayType("@ + type_text(*e) + ", "@ + decimal(n as nat) + ")"@,
        LlvmType::StructType(es) => "StructType(["@ + types_text(es@, es@.len() as int) + "])"@,
        LlvmType::NamedStructType(s) => "NamedStructType(\""@ + escaped(s@) + "\")"@,
        LlvmType::X86_MMXType => "X86_MMXType"@,
        LlvmType::X86_AMXType => "X86_AMXType"@,
        LlvmType::MetadataType => "MetadataType"@,
        LlvmType::LabelType => "LabelType"@,
        LlvmType::TokenType => "TokenType"@,
    }
}

/// The first `k` types of `xs`, written one after another, separated by
/// `, `.
pub open spec fn types_text(xs: Seq<LlvmType>, k: int) -> Seq<char>
    decreases xs, k,
{
    if k <= 0 || k > xs.len() {
        Seq::empty()
    } else if k == 1 {
        type_text(xs[0])
    } else {
        types_text(xs, k - 1) + ", "@ + type_text(xs[k - 1])
    }
}

/// The text of a `bool`.
fn bool_string(b: bool) -> (r: &'static str)
    ensures
        r@ == bool_text(b),
{
    if b {
        "true"
    } else {
        "false"
    }
}

/// The text of a floating-point kind.
fn fp_string(f: FPType) -> (r: &'static str)
    ensures
        r@ == fp_text(f),
{
    match f {
        FPType::Half => "Half",
        FPType::BFloat => "BFloat",
        FPType::Single => "Single",
        FPType::Double => "Double",
        FPType::FP128 => "FP128",
        FPType::X86_FP80 => "X86_FP80",
        FPType::PPC_FP128 => "PPC_FP128",
    }
}

/// `s`, each character written as `escaped_char` writes it.
fn escape_string(s: &str) -> (r: String)
    ensures
        r@ == escaped(s@),
{
    let n = s.unicode_len();
    let mut r = String::new();
    let mut i: usize = 0;
    while i < n
        invariant
            n == s@.len(),
            i <= n,
            r@ == escaped(s@.subrange(0, i as int)),
        decreases n - i,
    {
        let c = s.get_char(i);
        if c == '"' {
            r.append("\\\"");
        } else if c == '\\' {
            r.append("\\\\");
        } else if c == '\0' {
            r.append("\\0");
        } else if c == '\t' {
            r.append("\\t");
        } else if c == '\r' {
            r.append("\\r");
        } else if c == '\n' {
            r.append("\\n");
        } else {
            let one = s.substring_char(i, i + 1);
            assert(one@ =~= seq![c]);
            r.append(one);
        }
        assert(s@.subrange(0, i + 1).drop_last() =~= s@.subrange(0, i as int));
        i += 1;
    }
    assert(s@.subrange(0, n as int) =~= s@);
    r
}

impl LlvmType {
    /// The type written as Rust's derived `Debug` writes it.
    pub fn debug_text(&self) -> (r: String)
        ensures
            r@ == type_text(*self),
        decreases self,
    {
        match self {
            LlvmType::VoidType => String::from_str("VoidType"),
            LlvmType::IntegerType(b) => {
                let mut r = String::from_str("IntegerType(");
                r.append(to_decimal(*b as u64).as_str());
                r.append(")");
                r
            },
            LlvmType::PointerType(e) => {
                let e: &LlvmType = e;
                let mut r = String::from_str("PointerType(");
                r.append(e.debug_text().as_str());
                r.append(")");
                r
            },
            LlvmType::FPType(f) => {
                let mut r = String::from_str("FPType(");
                r.append(fp_string(*f));
                r.append(")");
                r
            },
            LlvmType::FuncType => String::from_str("FuncType"),
            LlvmType::VectorType(e, n, s) => {
                let e: &LlvmType = e;
                let mut r = String::from_str("VectorType(");
                r.append(e.debug_text().as_str());
                r.append(", ");
                r.append(to_decimal(*n as u64).as_str());
                r.append(", ");
                r.append(bool_string(*s));
                r.append(")");
                r
            },
            LlvmType::ArrayType(e, n) => {
                let e: &LlvmType = e;
                let mut r = String::from_str("ArrayType(");
                r.append(e.debug_text().as_str());
                r.append(", ");
                r.append(to_decimal(*n as u64).as_str());
                r.append(")");
                r
            },
            LlvmType::StructType(es) => {
                let mut r = String::from_str("StructType([");
                let inner = elements_text(self, es);
                r.append(inner.as_str());
                r.append("])");
                r
            },
            LlvmType::NamedStructType(s) => {
                let mut r = String::from_str("NamedStructType(\"");
                r.append(escape_string(s.as_str()).as_str());
                r.append("\")");
                r
            },
            LlvmType::X86_MMXType => String::from_str("X86_MMXType"),
            LlvmType::X86_AMXType => String::from_str("X86_AMXType"),
            LlvmType::MetadataType => String::from_str("MetadataType"),
            LlvmType::LabelType => String::from_str("LabelType"),
            LlvmType::TokenType => String::from_str("TokenType"),
        }
    }
}

/// The element types `xs` of the struct type `a`, written one after
/// another, separated by `, `.
fn elements_text(a: &LlvmType, xs: &Vec<LlvmType>) -> (r: String)
    requires
        *a == LlvmType::StructType(*xs),
    ensures
        r@ == types_text(xs@, xs@.len() as int),
    decreases a, 0int,
{
    let mut r = String::new();
    let mut k: usize = 0;
    while k < xs.len()
        invariant
            *a == LlvmType::StructType(*xs),
            k <= xs@.len(),
            r@ == types_text(xs@, k as int),
        decreases xs@.len() - k,
    {
        assert(decreases_to!(*a => xs@[k as int])) by {
            let t = LlvmType::StructType(*xs);
            assert(decreases_to!(t => t->StructType_0));
            assert(decreases_to!(*xs => xs@));
        }
        if k > 0 {
            r.append(", ");
        }
        let t = xs[k].debug_text();
        r.append(t.as_str());
        k += 1;
    }
    r
}

} // verus!
