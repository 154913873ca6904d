//! Memory allocation on the bump allocator and the cell memory, as `malloc`,
//! `calloc` and `realloc` do, and the hooks that stand for those functions.

use vstd::prelude::*;

use crate::bump_alloc::{bytes_for_bits, Alloc};
use crate::bv_term::{eval, wf, width, zeros, BvTerm, Env};
use crate::cell_memory::{Memory, CELL_BYTES, INDEX_BITS};
use crate::error::{Error, Result};
use crate::hook_utils::access_failed;
use crate::layout::LlvmType;
use crate::return_value::ReturnValue;

use crate::type_text::type_text;

verus! {

/// Assume that allocations never exceed this size.
pub const MAX_ALLOCATION_SIZE_BYTES: u64 = 0x10_0000;

/// The number of bytes to allocate for a size operand: its value where it is
/// a constant, else the largest size assumed.
pub open spec fn allocation_bytes(num_bytes: Option<u64>) -> u64 {
    match num_bytes {
        Some(n) => n,
        None => MAX_ALLOCATION_SIZE_BYTES,
    }
}

/// There is room in the allocator for an allocation of `bytes` bytes.
pub open spec fn room_for(alloc: Alloc, bytes: u64) -> bool {
    bytes <= u64::MAX / 8 && alloc.cursor() + bytes + CELL_BYTES <= u64::MAX
}

/// `new` is `old` after an allocation of `bits` bits at `addr`.
pub open spec fn allocated(new: Alloc, old: Alloc, bits: u64, addr: u64) -> bool {
    &&& new.wf()
    &&& addr == Alloc::next_addr(old.cursor(), bits)
    &&& new.cursor() == addr + bytes_for_bits(bits)
    &&& new.sizes() == old.sizes().insert(addr, bits)
}

/// The address term for the address `a`.
pub open spec fn address(a: u64) -> BvTerm {
    BvTerm::Const(a, INDEX_BITS)
}

/// Allocate the number of bytes given by the size operand, `num_bytes`
/// where it is a constant. Allocating too much hurts nothing, so a size that
/// is not a constant gets the largest size assumed.
///
/// Returns the address of the newly-allocated memory.
pub fn malloc(alloc: &mut Alloc, num_bytes: Option<u64>) -> (r: BvTerm)
    requires
        old(alloc).wf(),
        room_for(*old(alloc), allocation_bytes(num_bytes)),
    ensures
        r matches BvTerm::Const(a, w) && w == INDEX_BITS && allocated(*final(alloc), *old(alloc), (8 * allocation_bytes(num_bytes)) as u64, a),
{
    let n = match num_bytes {
        Some(n) => n,
        None => MAX_ALLOCATION_SIZE_BYTES,
    };
    let num_bits = n * 8;
    assert(bytes_for_bits(num_bits) == n);
    let a = alloc.alloc_bits(num_bits);
    BvTerm::Const(a, INDEX_BITS)
}

/// Allocate `bytes` bytes, and write zeros to all of them.
fn allocate_zeroed<N: Fn() -> Result<bool>>(alloc: &mut Alloc, mem: &mut Memory, bytes: u64, can_be_null: N) -> (r: Result<BvTerm>)
    requires
        old(alloc).wf(),
        old(mem).wf(),
        1 <= bytes,
        8 * bytes <= u32::MAX,
        room_for(*old(alloc), bytes),
        old(mem).null_detection() ==> can_be_null.requires(()),
    ensures
        exists|a: u64| #[trigger] allocated(*final(alloc), *old(alloc), (8 * bytes) as u64, a) && {
            &&& r matches Ok(t) ==> t == address(a) && zeroed(*final(mem), *old(mem), a, (8 * bytes) as nat)
            &&& r is Err ==> *final(mem) == *old(mem)
        },
        r matches Err(e) ==> access_failed(old(mem).null_detection(), can_be_null, e),
        !old(mem).null_detection() ==> r is Ok,
{
    let num_bits = bytes * 8;
    assert(bytes_for_bits(num_bits) == bytes);
    let a = alloc.alloc_bits(num_bits);
    assert(allocated(*alloc, *old(alloc), (8 * bytes) as u64, a));
    let addr = BvTerm::Const(a, INDEX_BITS);
    let z = BvTerm::Zero(num_bits as u32);
    let ghost old_mem = *mem;
    assert(wf(addr) && width(addr) == 64 && wf(z));
    match mem.write(&addr, z, can_be_null) {
        Ok(()) => {
            proof {
                assert(zeroed(*mem, old_mem, a, (8 * bytes) as nat)) by {
                    assert forall|env: Env, c: Seq<bool>| #[trigger] mem.cell(env, c) == Memory::written(
                        old_mem,
                        env,
                        address(a),
                        zeros((8 * bytes) as nat),
                        c,
                    ) by {
                        assert(eval(BvTerm::Zero(num_bits as u32), env) == zeros((8 * bytes) as nat));
                    }
                }
            }
            Ok(addr)
        },
        Err(e) => Err(e),
    }
}

/// `new` is `old` after writing `bits` zero bits at `a`.
pub open spec fn zeroed(new: Memory, old: Memory, a: u64, bits: nat) -> bool {
    &&& Memory::same_except(new, old)
    &&& forall|env: Env, c: Seq<bool>| #[trigger] new.cell(env, c) == Memory::written(old, env, address(a), zeros(bits), c)
}

/// Allocate the number of bytes given by the size operand, as `malloc`
/// does; the newly-allocated memory is initialized to all zeroes.
///
/// Returns the address of the newly-allocated memory.
pub fn zalloc<N: Fn() -> Result<bool>>(alloc: &mut Alloc, mem: &mut Memory, num_bytes: Option<u64>, can_be_null: N) -> (r: Result<BvTerm>)
    requires
        old(alloc).wf(),
        old(mem).wf(),
        1 <= allocation_bytes(num_bytes),
        8 * allocation_bytes(num_bytes) <= u32::MAX,
        room_for(*old(alloc), allocation_bytes(num_bytes)),
        old(mem).null_detection() ==> can_be_null.requires(()),
    ensures
        exists|a: u64| #[trigger] allocated(*final(alloc), *old(alloc), (8 * allocation_bytes(num_bytes)) as u64, a) && {
            &&& r matches Ok(t) ==> t == address(a) && zeroed(*final(mem), *old(mem), a, (8 * allocation_bytes(num_bytes)) as nat)
            &&& r is Err ==> *final(mem) == *old(mem)
        },
        r matches Err(e) ==> access_failed(old(mem).null_detection(), can_be_null, e),
        !old(mem).null_detection() ==> r is Ok,
{
    let n = match num_bytes {
        Some(n) => n,
        None => MAX_ALLOCATION_SIZE_BYTES,
    };
    allocate_zeroed(alloc, mem, n, can_be_null)
}

/// The number of bytes `calloc` allocates for the size operands `a` and
/// `b`: their product where both are constants, else the largest size
/// assumed.
pub open spec fn calloc_bytes(a: Option<u64>, b: Option<u64>) -> int {
    match (a, b) {
        (Some(x), Some(y)) => x * y,
        _ => MAX_ALLOCATION_SIZE_BYTES as int,
    }
}

/// Allocate the number of bytes given by `a` times `b`, where they are
/// constants (else the largest size assumed); the newly-allocated memory is
/// initialized to all zeroes.
///
/// Returns the address of the newly-allocated memory.
pub fn calloc<N: Fn() -> Result<bool>>(alloc: &mut Alloc, mem: &mut Memory, a: Option<u64>, b: Option<u64>, can_be_null: N) -> (r:
    Result<BvTerm>)
    requires
        old(alloc).wf(),
        old(mem).wf(),
        1 <= calloc_bytes(a, b),
        8 * calloc_bytes(a, b) <= u32::MAX,
        room_for(*old(alloc), calloc_bytes(a, b) as u64),
        old(mem).null_detection() ==> can_be_null.requires(()),
    ensures
        exists|x: u64| #[trigger] allocated(*final(alloc), *old(alloc), (8 * calloc_bytes(a, b)) as u64, x) && {
            &&& r matches Ok(t) ==> t == address(x) && zeroed(*final(mem), *old(mem), x, (8 * calloc_bytes(a, b)) as nat)
            &&& r is Err ==> *final(mem) == *old(mem)
        },
        r matches Err(e) ==> access_failed(old(mem).null_detection(), can_be_null, e),
        !old(mem).null_detection() ==> r is Ok,
{
    let n = match (a, b) {
        (Some(x), Some(y)) => {
            assert(x * y <= u32::MAX);
            x * y
        },
        _ => MAX_ALLOCATION_SIZE_BYTES,
    };
    allocate_zeroed(alloc, mem, n, can_be_null)
}


/// What `realloc` of the allocation at `addr` to `new_bytes` bytes did: where
/// the allocation already holds that many bytes, nothing (the address is
/// returned); else a new allocation of `new_bytes` bytes was made, and on
/// success the old allocation's contents were copied to it and its address
/// returned.
pub open spec fn reallocated(
    r: Result<BvTerm>,
    new_alloc: Alloc,
    old_alloc: Alloc,
    new_mem: Memory,
    old_mem: Memory,
    addr: u64,
    new_bytes: u64,
) -> bool {
    let old_bits = old_alloc.sizes()[addr];
    if 8 * new_bytes <= old_bits {
        &&& r == Ok::<BvTerm, Error>(address(addr))
        &&& new_alloc == old_alloc
        &&& new_mem == old_mem
    } else {
        exists|a: u64| #[trigger] allocated(new_alloc, old_alloc, (8 * new_bytes) as u64, a) && {
            &&& r matches Ok(t) ==> t == address(a) && if old_bits == 0 {
                new_mem == old_mem
            } else {
                &&& Memory::same_except(new_mem, old_mem)
                &&& forall|env: Env, c: Seq<bool>| #[trigger] new_mem.cell(env, c) == Memory::written(
                    old_mem,
                    env,
                    address(a),
                    old_mem.read_value(env, address(addr), old_bits as nat),
                    c,
                )
            }
            &&& r is Err ==> Memory::same_except(new_mem, old_mem)
        }
    }
}

/// The outcome of `realloc` of the allocation at `addr` to `new_bytes`
/// bytes: an error where there is no allocation at `addr`, or where it is
/// too large to copy and must be copied; else as `reallocated` says.
pub open spec fn realloc_outcome(
    r: Result<BvTerm>,
    new_alloc: Alloc,
    old_alloc: Alloc,
    new_mem: Memory,
    old_mem: Memory,
    addr: u64,
    new_bytes: u64,
) -> bool {
    if !old_alloc.sizes().contains_key(addr) {
        &&& r matches Err(Error::OtherError(m)) && m@ == "realloc: failed to get old allocation size"@
        &&& new_alloc == old_alloc
        &&& new_mem == old_mem
    } else if old_alloc.sizes()[addr] > u32::MAX && 8 * new_bytes > old_alloc.sizes()[addr] {
        &&& r matches Err(Error::OtherError(m)) && m@ == "realloc: old allocation too large to copy"@
        &&& new_alloc == old_alloc
        &&& new_mem == old_mem
    } else {
        reallocated(r, new_alloc, old_alloc, new_mem, old_mem, addr, new_bytes)
    }
}

/// Reallocate the allocation at address `addr` to hold at least the number
/// of bytes given by the size operand (the largest size assumed where it is
/// not a constant).
///
/// Returns the address of the allocation, which may or may not be the same
/// address which was passed in: an allocation that is large enough is kept,
/// else a new one is made and the contents are copied over (the old one is
/// never freed, as the allocator never reuses addresses anyway).
/// `src_null` and `dest_null` are asked of the old and new addresses as for
/// `Memory::read` and `Memory::write`.
pub fn realloc<S: Fn() -> Result<bool>, D: Fn() -> Result<bool>>(
    alloc: &mut Alloc,
    mem: &mut Memory,
    addr: u64,
    num_bytes: Option<u64>,
    src_null: S,
    dest_null: D,
) -> (r: Result<BvTerm>)
    requires
        old(alloc).wf(),
        old(mem).wf(),
        room_for(*old(alloc), allocation_bytes(num_bytes)),
        old(mem).null_detection() ==> src_null.requires(()) && dest_null.requires(()),
    ensures
        realloc_outcome(r, *final(alloc), *old(alloc), *final(mem), *old(mem), addr, allocation_bytes(num_bytes)),
        r matches Err(Error::NullPointerDereference) ==> old(mem).null_detection(),
        !old(mem).null_detection() && old(alloc).sizes().contains_key(addr) && old(alloc).sizes()[addr] <= u32::MAX ==> r is Ok,
{
    let new_size = match num_bytes {
        Some(n) => n,
        None => MAX_ALLOCATION_SIZE_BYTES,
    };
    let old_size = match alloc.get_allocation_size(addr) {
        Some(s) => s,
        None => {
            return Err(Error::OtherError(String::from_str("realloc: failed to get old allocation size")));
        },
    };
    let new_bits = new_size * 8;
    if new_bits <= old_size {
        return Ok(BvTerm::Const(addr, INDEX_BITS));
    }
    if old_size > u32::MAX as u64 {
        return Err(Error::OtherError(String::from_str("realloc: old allocation too large to copy")));
    }
    assert(bytes_for_bits(new_bits) == new_size);
    let new_addr = alloc.alloc_bits(new_bits);
    assert(allocated(*alloc, *old(alloc), (8 * new_size) as u64, new_addr));
    if old_size == 0 {
        return Ok(BvTerm::Const(new_addr, INDEX_BITS));
    }
    let src = BvTerm::Const(addr, INDEX_BITS);
    let dest = BvTerm::Const(new_addr, INDEX_BITS);
    assert(wf(src) && width(src) == 64 && wf(dest) && width(dest) == 64);
    let contents = match mem.read(&src, old_size as u32, src_null) {
        Ok(t) => t,
        Err(e) => {
            return Err(e);
        },
    };
    let ghost old_mem = *mem;
    let ghost gc = contents;
    match mem.write(&dest, contents, dest_null) {
        Ok(()) => {
            proof {
                assert forall|env: Env, c: Seq<bool>| #[trigger] mem.cell(env, c) == Memory::written(
                    old_mem,
                    env,
                    address(new_addr),
                    old_mem.read_value(env, address(addr), old_size as nat),
                    c,
                ) by {
                    assert(eval(gc, env) == old_mem.read_value(env, src, old_size as nat));
                }
            }
            Ok(dest)
        },
        Err(e) => Err(e),
    }
}

/// `r` is an error whose message starts with `prefix`.
pub open spec fn fails_with<T>(r: Result<T>, prefix: Seq<char>) -> bool {
    r matches Err(Error::OtherError(m)) && prefix.is_prefix_of(m@)
}

/// The error `prefix` followed by the rendering of `ty`.
fn type_error(prefix: &str, ty: &LlvmType) -> (e: Error)
    ensures
        e matches Error::OtherError(m) && prefix@.is_prefix_of(m@) && m@ == prefix@ + type_text(*ty),
{
    let mut m = String::from_str(prefix);
    m.append(ty.debug_text().as_str());
    assert(m@.subrange(0, prefix@.len() as int) =~= prefix@);
    Error::OtherError(m)
}

/// The hook for `malloc`: the size operand, `num_bytes` where it is a
/// constant, has type `num_ty`, and the call has return type `ret_ty`.
pub fn malloc_hook(alloc: &mut Alloc, num_bytes: Option<u64>, num_ty: &LlvmType, ret_ty: &LlvmType) -> (r: Result<ReturnValue<BvTerm>>)
    requires
        old(alloc).wf(),
        room_for(*old(alloc), allocation_bytes(num_bytes)),
    ensures
        num_ty !is IntegerType ==> fails_with(r, "malloc_hook: expected argument to have integer type, but got "@) && *final(alloc)
            == *old(alloc),
        num_ty is IntegerType && ret_ty !is PointerType ==> fails_with(
            r,
            "malloc_hook: expected return type to be a pointer type, but got "@,
        ) && *final(alloc) == *old(alloc),
        num_ty is IntegerType && ret_ty is PointerType ==> (r matches Ok(ReturnValue::Return(BvTerm::Const(a, w))) && w == INDEX_BITS
            && allocated(*final(alloc), *old(alloc), (8 * allocation_bytes(num_bytes)) as u64, a)),
{
    match num_ty {
        LlvmType::IntegerType(_) => {},
        _ => {
            return Err(type_error("malloc_hook: expected argument to have integer type, but got ", num_ty));
        },
    }
    match ret_ty {
        LlvmType::PointerType(_) => {},
        _ => {
            return Err(type_error("malloc_hook: expected return type to be a pointer type, but got ", ret_ty));
        },
    }
    Ok(ReturnValue::Return(malloc(alloc, num_bytes)))
}

/// The hook for `calloc`: the size operands, `num` and `size` where they are
/// constants, have types `num_ty` and `size_ty`, and the call has return
/// type `ret_ty`.
pub fn calloc_hook<N: Fn() -> Result<bool>>(
    alloc: &mut Alloc,
    mem: &mut Memory,
    num: Option<u64>,
    num_ty: &LlvmType,
    size: Option<u64>,
    size_ty: &LlvmType,
    ret_ty: &LlvmType,
    can_be_null: N,
) -> (r: Result<ReturnValue<BvTerm>>)
    requires
        old(alloc).wf(),
        old(mem).wf(),
        1 <= calloc_bytes(num, size),
        8 * calloc_bytes(num, size) <= u32::MAX,
        room_for(*old(alloc), calloc_bytes(num, size) as u64),
        old(mem).null_detection() ==> can_be_null.requires(()),
    ensures
        num_ty !is IntegerType ==> fails_with(r, "calloc_hook: expected first argument to have integer type, but got "@)
            && *final(alloc) == *old(alloc) && *final(mem) == *old(mem),
        num_ty is IntegerType && size_ty !is IntegerType ==> fails_with(
            r,
            "calloc_hook: expected second argument to have integer type, but got "@,
        ) && *final(alloc) == *old(alloc) && *final(mem) == *old(mem),
        num_ty is IntegerType && size_ty is IntegerType && ret_ty !is PointerType ==> fails_with(
            r,
            "calloc_hook: expected return type to be a pointer type, but got "@,
        ) && *final(alloc) == *old(alloc) && *final(mem) == *old(mem),
        num_ty is IntegerType && size_ty is IntegerType && ret_ty is PointerType ==> {
            &&& exists|x: u64| #[trigger] allocated(*final(alloc), *old(alloc), (8 * calloc_bytes(num, size)) as u64, x) && {
                &&& r matches Ok(rv) ==> rv == ReturnValue::Return(address(x)) && zeroed(*final(mem), *old(mem), x, (8 * calloc_bytes(num, size)) as nat)
                &&& r is Err ==> *final(mem) == *old(mem)
            }
            &&& r matches Err(e) ==> access_failed(old(mem).null_detection(), can_be_null, e)
            &&& !old(mem).null_detection() ==> r is Ok
        },
{
    match num_ty {
        LlvmType::IntegerType(_) => {},
        _ => {
            return Err(type_error("calloc_hook: expected first argument to have integer type, but got ", num_ty));
        },
    }
    match size_ty {
        LlvmType::IntegerType(_) => {},
        _ => {
            return Err(type_error("calloc_hook: expected second argument to have integer type, but got ", size_ty));
        },
    }
    match ret_ty {
        LlvmType::PointerType(_) => {},
        _ => {
            return Err(type_error("calloc_hook: expected return type to be a pointer type, but got ", ret_ty));
        },
    }
    match calloc(alloc, mem, num, size, can_be_null) {
        Ok(a) => Ok(ReturnValue::Return(a)),
        Err(e) => Err(e),
    }
}

/// The hook for `free`: nothing to do, as the allocator never reuses
/// addresses anyway.
pub fn free_hook() -> (r: Result<ReturnValue<BvTerm>>)
    ensures
        r == Ok::<ReturnValue<BvTerm>, Error>(ReturnValue::ReturnVoid),
{
    Ok(ReturnValue::ReturnVoid)
}

/// The hook for `realloc`: the address operand, holding the address `addr`,
/// has type `addr_ty`; the size operand, `num_bytes` where it is a constant,
/// has type `size_ty`; the call has return type `ret_ty`.
pub fn realloc_hook<S: Fn() -> Result<bool>, D: Fn() -> Result<bool>>(
    alloc: &mut Alloc,
    mem: &mut Memory,
    addr: u64,
    addr_ty: &LlvmType,
    num_bytes: Option<u64>,
    size_ty: &LlvmType,
    ret_ty: &LlvmType,
    src_null: S,
    dest_null: D,
) -> (r: Result<ReturnValue<BvTerm>>)
    requires
        old(alloc).wf(),
        old(mem).wf(),
        room_for(*old(alloc), allocation_bytes(num_bytes)),
        old(mem).null_detection() ==> src_null.requires(()) && dest_null.requires(()),
    ensures
        addr_ty !is PointerType ==> fails_with(r, "realloc_hook: expected first argument to be a pointer type, but got "@)
            && *final(alloc) == *old(alloc) && *final(mem) == *old(mem),
        addr_ty is PointerType && size_ty !is IntegerType ==> fails_with(
            r,
            "realloc_hook: expected second argument to be an integer type, but got "@,
        ) && *final(alloc) == *old(alloc) && *final(mem) == *old(mem),
        addr_ty is PointerType && size_ty is IntegerType && ret_ty !is PointerType ==> fails_with(
            r,
            "realloc_hook: expected return type to be a pointer type, but got "@,
        ) && *final(alloc) == *old(alloc) && *final(mem) == *old(mem),
        addr_ty is PointerType && size_ty is IntegerType && ret_ty is PointerType ==> exists|inner: Result<BvTerm>|
            #[trigger] realloc_outcome(inner, *final(alloc), *old(alloc), *final(mem), *old(mem), addr, allocation_bytes(num_bytes))
                && r == match inner {
                Ok(t) => Ok::<ReturnValue<BvTerm>, Error>(ReturnValue::Return(t)),
                Err(e) => Err(e),
            },
{
    match addr_ty {
        LlvmType::PointerType(_) => {},
        _ => {
            return Err(type_error("realloc_hook: expected first argument to be a pointer type, but got ", addr_ty));
        },
    }
    match size_ty {
        LlvmType::IntegerType(_) => {},
        _ => {
            return Err(type_error("realloc_hook: expected second argument to be an integer type, but got ", size_ty));
        },
    }
    match ret_ty {
        LlvmType::PointerType(_) => {},
        _ => {
            return Err(type_error("realloc_hook: expected return type to be a pointer type, but got ", ret_ty));
        },
    }
    let inner = realloc(alloc, mem, addr, num_bytes, src_null, dest_null);
    let ghost gi = inner;
    let r = match inner {
        Ok(t) => Ok(ReturnValue::Return(t)),
        Err(e) => Err(e),
    };
    proof {
        assert(r == match gi {
            Ok(t) => Ok::<ReturnValue<BvTerm>, Error>(ReturnValue::Return(t)),
            Err(e) => Err(e),
        });
    }
    r
}

} // verus!
