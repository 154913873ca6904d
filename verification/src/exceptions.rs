//! Hooks for the C++ exception-handling functions. Exceptions are just
//! pointers to the thrown values, and nothing is ever freed, so most of them
//! do little.

use vstd::prelude::*;

use crate::alloc_utils::{allocated, allocation_bytes, address, fails_with, room_for, zalloc, zeroed};
use crate::bump_alloc::Alloc;
use crate::bv_term::{eval, signed, wf, width, BvTerm, Env};
use crate::cell_memory::Memory;
use crate::error::{Error, Result};
use crate::hook_utils::access_failed;
use crate::layout::LlvmType;
use crate::return_value::ReturnValue;

use crate::type_text::type_text;

verus! {

/// The error `prefix` followed by the rendering of `ty`.
fn type_error(prefix: &str, ty: &LlvmType) -> (e: Error)
    ensures
        e matches Error::OtherError(m) && prefix@.is_prefix_of(m@) && m@ == prefix@ + type_text(*ty),
{
    let mut m = String::from_str(prefix);
    m.append(ty.debug_text().as_str());
    assert(m@.subrange(0, prefix@.len() as int) =~= prefix@);
    Error::OtherError(m)
}

/// The hook for `__cxa_allocate_exception`: the size operand, `num_bytes`
/// where it is a constant, has type `num_ty`; the call has return type
/// `ret_ty`. The exception is allocated zeroed.
pub fn cxa_allocate_exception<N: Fn() -> Result<bool>>(
    alloc: &mut Alloc,
    mem: &mut Memory,
    num_bytes: Option<u64>,
    num_ty: &LlvmType,
    ret_ty: &LlvmType,
    can_be_null: N,
) -> (r: Result<ReturnValue<BvTerm>>)
    requires
        old(alloc).wf(),
        old(mem).wf(),
        1 <= allocation_bytes(num_bytes),
        8 * allocation_bytes(num_bytes) <= u32::MAX,
        room_for(*old(alloc), allocation_bytes(num_bytes)),
        old(mem).null_detection() ==> can_be_null.requires(()),
    ensures
        num_ty !is IntegerType ==> fails_with(r, "__cxa_allocate_exception: expected argument to have integer type, but got "@)
            && *final(alloc) == *old(alloc) && *final(mem) == *old(mem),
        num_ty is IntegerType && ret_ty !is PointerType ==> fails_with(
            r,
            "__cxa_allocate_exception: expected return type to be a pointer type, but got "@,
        ) && *final(alloc) == *old(alloc) && *final(mem) == *old(mem),
        num_ty is IntegerType && ret_ty is PointerType ==> {
            &&& exists|a: u64| #[trigger] allocated(*final(alloc), *old(alloc), (8 * allocation_bytes(num_bytes)) as u64, a) && {
                &&& r matches Ok(rv) ==> rv == ReturnValue::Return(address(a)) && zeroed(*final(mem), *old(mem), a, (8 * allocation_bytes(num_bytes)) as nat)
                &&& r is Err ==> *final(mem) == *old(mem)
            }
            &&& r matches Err(e) ==> access_failed(old(mem).null_detection(), can_be_null, e)
            &&& !old(mem).null_detection() ==> r is Ok
        },
{
    match num_ty {
        LlvmType::IntegerType(_) => {},
        _ => {
            return Err(type_error("__cxa_allocate_exception: expected argument to have integer type, but got ", num_ty));
        },
    }
    match ret_ty {
        LlvmType::PointerType(_) => {},
        _ => {
            return Err(type_error("__cxa_allocate_exception: expected return type to be a pointer type, but got ", ret_ty));
        },
    }
    match zalloc(alloc, mem, num_bytes, can_be_null) {
        Ok(a) => Ok(ReturnValue::Return(a)),
        Err(e) => Err(e),
    }
}

/// The hook for `__cxa_throw`: throws `thrown_ptr` (of type `thrown_ty`);
/// the type information operand has type `type_info_ty`.
pub fn cxa_throw(thrown_ptr: &BvTerm, thrown_ty: &LlvmType, type_info_ty: &LlvmType) -> (r: Result<ReturnValue<BvTerm>>)
    ensures
        thrown_ty !is PointerType ==> fails_with(r, "__cxa_throw: expected first argument to be some pointer type, got "@),
        thrown_ty is PointerType && type_info_ty !is PointerType ==> fails_with(
            r,
            "__cxa_throw: expected second argument to be some pointer type, got "@,
        ),
        thrown_ty is PointerType && type_info_ty is PointerType ==> r == Ok::<ReturnValue<BvTerm>, Error>(
            ReturnValue::Throw(*thrown_ptr),
        ),
{
    match thrown_ty {
        LlvmType::PointerType(_) => {},
        _ => {
            return Err(type_error("__cxa_throw: expected first argument to be some pointer type, got ", thrown_ty));
        },
    }
    match type_info_ty {
        LlvmType::PointerType(_) => {},
        _ => {
            return Err(type_error("__cxa_throw: expected second argument to be some pointer type, got ", type_info_ty));
        },
    }
    Ok(ReturnValue::Throw(thrown_ptr.clone()))
}

/// The hook for `__cxa_begin_catch`: as exceptions are just pointers to the
/// thrown values, it returns its argument.
pub fn cxa_begin_catch(arg: &BvTerm) -> (r: Result<ReturnValue<BvTerm>>)
    ensures
        r == Ok::<ReturnValue<BvTerm>, Error>(ReturnValue::Return(*arg)),
{
    Ok(ReturnValue::Return(arg.clone()))
}

/// The hook for `__cxa_end_catch`: nothing is freed, so nothing to do.
pub fn cxa_end_catch() -> (r: Result<ReturnValue<BvTerm>>)
    ensures
        r == Ok::<ReturnValue<BvTerm>, Error>(ReturnValue::ReturnVoid),
{
    Ok(ReturnValue::ReturnVoid)
}

/// The hook for `llvm.eh.typeid.for`: the argument is ignored, and the value
/// returned is the fresh 32-bit variable `fresh`, constrained only to be
/// non-negative, as LLVM specifies; the constraint to add is returned beside
/// the value.
pub fn llvm_eh_typeid_for(fresh: u64) -> (r: (ReturnValue<BvTerm>, BvTerm))
    ensures
        r.0 == ReturnValue::Return(BvTerm::Var(fresh, 32)),
        wf(r.1),
        width(r.1) == 1,
        forall|env: Env| #[trigger] eval(r.1, env)[0] == (signed(eval(BvTerm::Var(fresh, 32), env)) >= 0),
{
    let v = BvTerm::Var(fresh, 32);
    let z = BvTerm::Zero(32);
    let v2 = v.clone();
    assert(wf(z) && width(z) == 32);
    assert(wf(v2) && width(v2) == 32);
    let c = BvTerm::Sle(Box::new(z), Box::new(v2));
    assert(wf(c));
    assert forall|env: Env| #[trigger] eval(c, env)[0] == (signed(eval(BvTerm::Var(fresh, 32), env)) >= 0) by {
        crate::bv_term::lemma_value_zeros(32);
        assert(eval(BvTerm::Zero(32), env) == crate::bv_term::zeros(32));
        assert(signed(eval(BvTerm::Zero(32), env)) == 0);
    }
    (ReturnValue::Return(v), c)
}

} // verus!
