//! Built-in handlers for the LLVM intrinsics `llvm.memset` and
//! `llvm.memcpy` / `llvm.memmove`: the types of the operands are checked,
//! the length is decided, the bytes are set or copied (see `hook_utils`),
//! and the call returns the destination where its return type is a pointer.

use vstd::prelude::*;

use crate::bv_term::{wf, width, BvTerm, Env};
use crate::cell_memory::{Memory, INDEX_BITS};
use crate::decimal::message_with_number;
use crate::error::{Error, Result};
use crate::hook_utils::{memcpy, memcpy_symbolic_wrote, memset, memset_concrete_wrote, memset_symbolic_wrote, some_access_failed};
use crate::layout::LlvmType;
use crate::memcpy_length::MemcpyLength;
use crate::return_value::ReturnValue;

use crate::type_text::type_text;

verus! {

/// `ty` is a pointer to bytes (`i8`).
pub open spec fn is_byte_pointer(ty: LlvmType) -> bool {
    ty matches LlvmType::PointerType(p) && *p == LlvmType::IntegerType(8)
}

/// `r` is an error whose message starts with `prefix`.
pub open spec fn error_starting<T>(r: Result<T>, prefix: Seq<char>) -> bool {
    r matches Err(Error::OtherError(m)) && prefix.is_prefix_of(m@)
}

/// The error `prefix` followed by the rendering of `ty`.
fn error_with_type(prefix: &str, ty: &LlvmType) -> (e: Error)
    ensures
        e matches Error::OtherError(m) && prefix@.is_prefix_of(m@) && m@ == prefix@ + type_text(*ty),
{
    let mut m = String::from_str(prefix);
    m.append(ty.debug_text().as_str());
    assert(m@.subrange(0, prefix@.len() as int) =~= prefix@);
    Error::OtherError(m)
}

/// Check that `ty`, the type of the operand `what` of the intrinsic `name`,
/// is a pointer to bytes.
fn check_byte_pointer(name: &str, what: &str, ty: &LlvmType) -> (r: Result<()>)
    ensures
        r is Ok == is_byte_pointer(*ty),
        ty !is PointerType ==> error_starting(r, name@ + ": Expected "@ + what@ + " to have pointer type, got "@),
        ty is PointerType && !is_byte_pointer(*ty) ==> error_starting(
            r,
            name@ + ": Expected "@ + what@ + " to be a pointer to i8, got pointer to "@,
        ),
{
    match ty {
        LlvmType::PointerType(p) => {
            let pointee: &LlvmType = p;
            match pointee {
                LlvmType::IntegerType(8) => Ok(()),
                _ => {
                    let mut prefix = String::from_str(name);
                    prefix.append(": Expected ");
                    prefix.append(what);
                    prefix.append(" to be a pointer to i8, got pointer to ");
                    Err(error_with_type(prefix.as_str(), pointee))
                },
            }
        },
        _ => {
            let mut prefix = String::from_str(name);
            prefix.append(": Expected ");
            prefix.append(what);
            prefix.append(" to have pointer type, got ");
            Err(error_with_type(prefix.as_str(), ty))
        },
    }
}

/// What the call returns, given its return type and the destination: void,
/// the destination, or, for another return type, an error starting with
/// `prefix`.
pub open spec fn returned(r: Result<ReturnValue<BvTerm>>, ret_ty: LlvmType, dest: BvTerm, prefix: Seq<char>) -> bool {
    match ret_ty {
        LlvmType::VoidType => r == Ok::<ReturnValue<BvTerm>, Error>(ReturnValue::ReturnVoid),
        LlvmType::PointerType(_) => r == Ok::<ReturnValue<BvTerm>, Error>(ReturnValue::Return(dest)),
        _ => error_starting(r, prefix),
    }
}

fn return_for(ret_ty: &LlvmType, dest: BvTerm, prefix: &str) -> (r: Result<ReturnValue<BvTerm>>)
    ensures
        returned(r, *ret_ty, dest, prefix@),
{
    match ret_ty {
        LlvmType::VoidType => Ok(ReturnValue::ReturnVoid),
        LlvmType::PointerType(_) => Ok(ReturnValue::Return(dest)),
        _ => Err(error_with_type(prefix, ret_ty)),
    }
}

/// The error for a length too large to set or copy in one go: its message
/// starts with `prefix`.
pub open spec fn too_big(r: Result<ReturnValue<BvTerm>>, len: MemcpyLength, prefix: Seq<char>) -> bool {
    len matches MemcpyLength::Concrete(n) && 8 * n > u32::MAX && error_starting(r, prefix)
}

/// `new` is `old` after a `memset` of the length `len` (at most `max`
/// bytes, where symbolic), with the byte classified by `is_zero` and
/// `is_ones`.
pub open spec fn memset_done<Z: Fn() -> Result<bool>, O: Fn() -> Result<bool>>(
    new: Memory,
    old: Memory,
    addr: BvTerm,
    val: BvTerm,
    num_bytes: BvTerm,
    len: MemcpyLength,
    max: u64,
    is_zero: Z,
    is_ones: O,
) -> bool {
    match len {
        MemcpyLength::Concrete(n) => if n == 0 {
            new == old
        } else {
            memset_concrete_wrote(new, old, addr, val, n as nat, is_zero, is_ones)
        },
        MemcpyLength::Symbolic => memset_symbolic_wrote(new, old, addr, val, num_bytes, max),
    }
}

/// The `llvm.memset` intrinsic: set `num_bytes` bytes at `addr` (of type
/// `addr_ty`) to the low byte of `val`, the call having return type
/// `ret_ty`. `decide` decides the length and its largest possible value (see
/// `get_memcpy_length`); the other oracles are those of `memset`.
pub fn symex_memset<D, Z, O, N>(
    mem: &mut Memory,
    addr: &BvTerm,
    addr_ty: &LlvmType,
    val: &BvTerm,
    num_bytes: &BvTerm,
    ret_ty: &LlvmType,
    decide: D,
    is_zero: Z,
    is_ones: O,
    null_at: &N,
) -> (r: Result<ReturnValue<BvTerm>>) where
    D: Fn() -> Result<(MemcpyLength, u64)>,
    Z: Fn() -> Result<bool>,
    O: Fn() -> Result<bool>,
    N: Fn(&BvTerm) -> Result<bool>,

    requires
        old(mem).wf(),
        wf(*addr),
        width(*addr) == INDEX_BITS,
        wf(*val),
        width(*val) >= 8,
        wf(*num_bytes),
        decide.requires(()),
        is_zero.requires(()),
        is_ones.requires(()),
        forall|t: BvTerm| #[trigger] null_at.requires((&t,)),
    ensures
        Memory::same_except(*final(mem), *old(mem)),
        !is_byte_pointer(*addr_ty) ==> *final(mem) == *old(mem) && error_starting(
            r,
            if addr_ty is PointerType {
                "memset: Expected address to be a pointer to i8, got pointer to "@
            } else {
                "memset: Expected address to have pointer type, got "@
            },
        ),
        is_byte_pointer(*addr_ty) ==> {
            ||| decide.ensures((), Err(r->Err_0)) && *final(mem) == *old(mem)
            ||| exists|len: MemcpyLength, max: u64| #[trigger]
                decide.ensures((), Ok((len, max))) && {
                    ||| too_big(r, len, "memset too big: "@) && *final(mem) == *old(mem)
                    ||| r matches Err(e) && (is_zero.ensures((), Err(e)) || is_ones.ensures((), Err(e)) || some_access_failed(
                        old(mem).null_detection(),
                        null_at,
                        e,
                    ))
                    ||| memset_done(*final(mem), *old(mem), *addr, *val, *num_bytes, len, max, is_zero, is_ones) && returned(
                        r,
                        *ret_ty,
                        *addr,
                        "Unexpected return type for a memset: "@,
                    )
                }
        },
{
    match check_byte_pointer("memset", "address", addr_ty) {
        Ok(()) => {},
        Err(e) => {
            proof {
                reveal_strlit("memset");
                reveal_strlit(": Expected ");
                reveal_strlit("address");
                reveal_strlit(" to be a pointer to i8, got pointer to ");
                reveal_strlit(" to have pointer type, got ");
                reveal_strlit("memset: Expected address to be a pointer to i8, got pointer to ");
                reveal_strlit("memset: Expected address to have pointer type, got ");
                assert("memset"@ + ": Expected "@ + "address"@ + " to be a pointer to i8, got pointer to "@
                    =~= "memset: Expected address to be a pointer to i8, got pointer to "@);
                assert("memset"@ + ": Expected "@ + "address"@ + " to have pointer type, got "@
                    =~= "memset: Expected address to have pointer type, got "@);
            }
            return Err(e);
        },
    }
    let (len, max) = match decide() {
        Ok(d) => d,
        Err(e) => {
            return Err(e);
        },
    };
    if let MemcpyLength::Concrete(n) = len {
        if n > u32::MAX as u64 / 8 {
            let m = message_with_number("memset too big: ", n, " bytes");
            proof {
                reveal_strlit("memset too big: ");
            }
            assert(m@.subrange(0, "memset too big: "@.len() as int) =~= "memset too big: "@);
            return Err(Error::OtherError(m));
        }
    }
    let ghost old_mem = *mem;
    match memset(mem, addr, val, num_bytes, len, max, is_zero, is_ones, null_at) {
        Ok(a) => {
            let r = return_for(ret_ty, a, "Unexpected return type for a memset: ");
            proof {
                assert(memset_done(*mem, old_mem, *addr, *val, *num_bytes, len, max, is_zero, is_ones));
            }
            r
        },
        Err(e) => Err(e),
    }
}


/// `new` is `old` after a `memcpy` from `src` to `dest` of the length `len`
/// (at most `max` bytes, where symbolic).
pub open spec fn memcpy_done(new: Memory, old: Memory, dest: BvTerm, src: BvTerm, num_bytes: BvTerm, len: MemcpyLength, max: u64) -> bool {
    match len {
        MemcpyLength::Concrete(n) => if n == 0 {
            new == old
        } else {
            forall|env: Env, c: Seq<bool>| #[trigger] new.cell(env, c) == Memory::written(
                old,
                env,
                dest,
                old.read_value(env, src, 8 * n as nat),
                c,
            )
        },
        MemcpyLength::Symbolic => memcpy_symbolic_wrote(new, old, dest, src, num_bytes, max),
    }
}

/// The `llvm.memcpy` and `llvm.memmove` intrinsics: copy `num_bytes` bytes
/// from `src` (of type `src_ty`) to `dest` (of type `dest_ty`), the call
/// having return type `ret_ty`. `decide` decides the length and its largest
/// possible value (see `get_memcpy_length`); `null_at` is as for `memcpy`.
pub fn symex_memcpy<D, N>(
    mem: &mut Memory,
    dest: &BvTerm,
    dest_ty: &LlvmType,
    src: &BvTerm,
    src_ty: &LlvmType,
    num_bytes: &BvTerm,
    ret_ty: &LlvmType,
    decide: D,
    null_at: &N,
) -> (r: Result<ReturnValue<BvTerm>>) where D: Fn() -> Result<(MemcpyLength, u64)>, N: Fn(&BvTerm) -> Result<bool>
    requires
        old(mem).wf(),
        wf(*dest),
        width(*dest) == INDEX_BITS,
        wf(*src),
        width(*src) == INDEX_BITS,
        wf(*num_bytes),
        decide.requires(()),
        forall|t: BvTerm| #[trigger] null_at.requires((&t,)),
    ensures
        Memory::same_except(*final(mem), *old(mem)),
        !is_byte_pointer(*dest_ty) ==> *final(mem) == *old(mem) && error_starting(
            r,
            if dest_ty is PointerType {
                "memcpy: Expected dest to be a pointer to i8, got pointer to "@
            } else {
                "memcpy: Expected dest to have pointer type, got "@
            },
        ),
        is_byte_pointer(*dest_ty) && !is_byte_pointer(*src_ty) ==> *final(mem) == *old(mem) && error_starting(
            r,
            if src_ty is PointerType {
                "memcpy: Expected dest to be a pointer to i8, got pointer to "@
            } else {
                "memcpy: Expected dest to have pointer type, got "@
            },
        ),
        is_byte_pointer(*dest_ty) && is_byte_pointer(*src_ty) ==> {
            ||| decide.ensures((), Err(r->Err_0)) && *final(mem) == *old(mem)
            ||| exists|len: MemcpyLength, max: u64| #[trigger]
                decide.ensures((), Ok((len, max))) && {
                    ||| too_big(r, len, "memcpy too big: "@) && *final(mem) == *old(mem)
                    ||| r matches Err(e) && some_access_failed(old(mem).null_detection(), null_at, e)
                    ||| memcpy_done(*final(mem), *old(mem), *dest, *src, *num_bytes, len, max) && returned(
                        r,
                        *ret_ty,
                        *dest,
                        "Unexpected return type for a memcpy or memmove: "@,
                    )
                }
        },
{
    proof {
        reveal_strlit("memcpy");
        reveal_strlit(": Expected ");
        reveal_strlit("dest");
        reveal_strlit(" to be a pointer to i8, got pointer to ");
        reveal_strlit(" to have pointer type, got ");
        reveal_strlit("memcpy: Expected dest to be a pointer to i8, got pointer to ");
        reveal_strlit("memcpy: Expected dest to have pointer type, got ");
        assert("memcpy"@ + ": Expected "@ + "dest"@ + " to be a pointer to i8, got pointer to "@
            =~= "memcpy: Expected dest to be a pointer to i8, got pointer to "@);
        assert("memcpy"@ + ": Expected "@ + "dest"@ + " to have pointer type, got "@
            =~= "memcpy: Expected dest to have pointer type, got "@);
    }
    match check_byte_pointer("memcpy", "dest", dest_ty) {
        Ok(()) => {},
        Err(e) => {
            return Err(e);
        },
    }
    // the messages name `dest` for the source operand as well
    match check_byte_pointer("memcpy", "dest", src_ty) {
        Ok(()) => {},
        Err(e) => {
            return Err(e);
        },
    }
    let (len, max) = match decide() {
        Ok(d) => d,
        Err(e) => {
            return Err(e);
        },
    };
    if let MemcpyLength::Concrete(n) = len {
        if n > u32::MAX as u64 / 8 {
            let m = message_with_number("memcpy too big: ", n, " bytes");
            proof {
                reveal_strlit("memcpy too big: ");
            }
            assert(m@.subrange(0, "memcpy too big: "@.len() as int) =~= "memcpy too big: "@);
            return Err(Error::OtherError(m));
        }
    }
    let ghost old_mem = *mem;
    match memcpy(mem, dest, src, num_bytes, len, max, null_at) {
        Ok(d) => {
            let r = return_for(ret_ty, d, "Unexpected return type for a memcpy or memmove: ");
            proof {
                assert(memcpy_done(*mem, old_mem, *dest, *src, *num_bytes, len, max));
            }
            r
        },
        Err(e) => Err(e),
    }
}

} // verus!
