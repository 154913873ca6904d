//! Demangling of C++ and Rust function names.
//!
//! The demanglers themselves are those of the `cpp_demangle` and
//! `rustc_demangle` crates; what they return for a given name is named here by
//! spec functions, and the choices made around them are verified.

use vstd::prelude::*;

verus! {

/// What the C++ demangler makes of `name`, printed without parameters:
/// `None` if `name` is not a valid C++ mangled name or cannot be printed.
pub uninterp spec fn cpp_demangled(name: Seq<char>) -> Option<Seq<char>>;

/// Whether the Rust demangler recognizes `name` as a Rust mangled symbol.
pub uninterp spec fn rust_mangling_recognized(name: Seq<char>) -> bool;

/// The Rust demangler's plain rendering of `name` (with the trailing hash).
pub uninterp spec fn rust_demangled(name: Seq<char>) -> Seq<char>;

/// The Rust demangler's alternate rendering of `name` (without the trailing
/// hash).
pub uninterp spec fn rust_demangled_alternate(name: Seq<char>) -> Seq<char>;

/// Whether `.llvm.` occurs in `name` at position `i`.
pub open spec fn llvm_marker_at(name: Seq<char>, i: int) -> bool {
    0 <= i && i + 6 <= name.len() && name.subrange(i, i + 6) == ".llvm."@
}

/// The characters the Rust demangler accepts after `.llvm.` as a suffix
/// added by LLVM: `A` to `F`, `0` to `9` and `@`.
pub open spec fn llvm_suffix_char(c: char) -> bool {
    ('A' <= c && c <= 'F') || ('0' <= c && c <= '9') || c == '@'
}

/// `name` without the suffix that LLVM adds to renamed symbols: where
/// `.llvm.` first occurs and only `llvm_suffix_char`s follow it, the part
/// before it; else all of `name`.
pub open spec fn without_llvm_suffix(name: Seq<char>) -> Seq<char> {
    if exists|i: int| #[trigger] llvm_marker_at(name, i) {
        let i = choose|i: int| #[trigger] llvm_marker_at(name, i) && forall|j: int| 0 <= j < i ==> !llvm_marker_at(name, j);
        if forall|k: int| i + 6 <= k < name.len() ==> llvm_suffix_char(#[trigger] name[k]) {
            name.take(i)
        } else {
            name
        }
    } else {
        name
    }
}

/// Helper function to demangle function names with the C++ demangler.
///
/// Returns `Some` if successfully demangled, or `None` if any error occurs
/// (for instance, if `funcname` isn't a valid C++ mangled name)
///
/// Trusted: parses `funcname` with `cpp_demangle::Symbol::new` and prints it
/// with `Symbol::demangle` under `DemangleOptions::new().no_params()`. The
/// contract claims only that the result is the named value `cpp_demangled`
/// of the name, whatever that is.
#[verifier::external_body]
pub(crate) fn try_cpp_demangle(funcname: &str) -> (r: Option<String>)
    ensures
        match r {
            Some(s) => cpp_demangled(funcname@) == Some(s@),
            None => cpp_demangled(funcname@) is None,
        },
{
    let opts = cpp_demangle::DemangleOptions::new().no_params();
    match cpp_demangle::Symbol::new(funcname) {
        Ok(sym) => sym.demangle(&opts).ok(),
        Err(_) => None,
    }
}

/// Trusted: `rustc_demangle::try_demangle(funcname).is_ok()`, which the crate's
/// source computes as "`demangle` found a Rust mangling style". The contract
/// claims only that the result is the named value of the name.
#[verifier::external_body]
fn rust_mangling_is_recognized(funcname: &str) -> (r: bool)
    ensures
        r == rust_mangling_recognized(funcname@),
{
    rustc_demangle::try_demangle(funcname).is_ok()
}

/// Trusted: the `Display` rendering of `rustc_demangle::demangle(funcname)`.
/// The contract claims that the result is the named value of the name, and,
/// as the crate's source shows, that a name with no recognized Rust mangling
/// is printed as itself, less a `.llvm.` suffix (see `without_llvm_suffix`).
#[verifier::external_body]
pub(crate) fn rust_demangle_plain(funcname: &str) -> (r: String)
    ensures
        r@ == rust_demangled(funcname@),
        !rust_mangling_recognized(funcname@) ==> r@ == without_llvm_suffix(funcname@),
{
    format!("{}", rustc_demangle::demangle(funcname))
}

/// Like `try_rust_demangle()`, but just returns the input string unmodified in
/// the case of any error, rather than returning `None`.
///
/// Trusted: the alternate (`{:#}`) `Display` rendering of
/// `rustc_demangle::demangle(funcname)`, which the crate prints as the name
/// itself, less a `.llvm.` suffix (see `without_llvm_suffix`), when no Rust
/// mangling is recognized. The contract claims that the result is the named
/// value of the name, and that case.
#[verifier::external_body]
pub(crate) fn rust_demangle_or_id(funcname: &str) -> (r: String)
    ensures
        r@ == rust_demangled_alternate(funcname@),
        !rust_mangling_recognized(funcname@) ==> r@ == without_llvm_suffix(funcname@),
{
    format!("{:#}", rustc_demangle::demangle(funcname))
}

/// The result of `cpp_demangle_or_id` on a name.
pub open spec fn cpp_demangle_or_id_spec(name: Seq<char>) -> Seq<char> {
    match cpp_demangled(name) {
        Some(s) => s,
        None => name,
    }
}

/// Like `try_cpp_demangle()`, but just returns the input string unmodified in
/// the case of any error, rather than returning `None`.
pub fn cpp_demangle_or_id(funcname: &str) -> (r: String)
    ensures
        r@ == cpp_demangle_or_id_spec(funcname@),
{
    match try_cpp_demangle(funcname) {
        Some(s) => s,
        None => funcname.to_owned(),
    }
}

/// Helper function to demangle function names with the Rust demangler.
///
/// Returns `Some` if successfully demangled, or `None` if any error occurs
/// (for instance, if `funcname` isn't a valid Rust mangled name)
pub fn try_rust_demangle(funcname: &str) -> (r: Option<String>)
    ensures
        match r {
            Some(s) => rust_mangling_recognized(funcname@) && s@ == rust_demangled_alternate(
                funcname@,
            ),
            None => !rust_mangling_recognized(funcname@),
        },
{
    if rust_mangling_is_recognized(funcname) {
        Some(rust_demangle_or_id(funcname))
    } else {
        None
    }
}

/// Which demangler, if any, to apply to function names.
#[derive(PartialEq, Eq, Clone, Copy, Debug)]
pub enum Demangling {
    /// Don't try to demangle
    Disabled,
    /// Try to demangle using the C++ demangler (suitable for `Project`s containing C++ code).
    /// Names that fail to demangle will simply be printed as-is.
    CPP,
    /// Try to demangle using the Rust demangler (suitable for `Project`s containing Rust code).
    /// Names that fail to demangle will simply be printed as-is.
    Rust,
}

impl Demangling {
    /// What `maybe_demangle` gives for `funcname` under this setting.
    pub open spec fn demangled(&self, funcname: Seq<char>) -> Seq<char> {
        match self {
            Demangling::Disabled => funcname,
            Demangling::CPP => cpp_demangle_or_id_spec(funcname),
            Demangling::Rust => rust_demangled_alternate(funcname),
        }
    }

    /// Attempts to demangle the given function name, as appropriate based on the
    /// `Demangling` setting.
    pub fn maybe_demangle(&self, funcname: &str) -> (r: String)
        ensures
            r@ == self.demangled(funcname@),
            *self is Rust && !rust_mangling_recognized(funcname@) ==> r@ == without_llvm_suffix(funcname@),
    {
        match self {
            Demangling::Disabled => funcname.to_owned(),
            Demangling::CPP => cpp_demangle_or_id(funcname),
            Demangling::Rust => rust_demangle_or_id(funcname),
        }
    }
}

} // verus!
