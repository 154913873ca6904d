//! Setting and copying runs of bytes in the cell memory, as `memset` and
//! `memcpy` (or `memmove`) do, once their length has been decided (see
//! `memcpy_length`).

use vstd::prelude::*;

use crate::bv_term::{addr_plus, bits_of, eval, lemma_eval_len, lemma_read_array_len, shift_right, value, wf, width, zeros, BvTerm, Env};
use crate::cell_memory::{bytes_write_cells, cell_index, offset_bits, Memory, INDEX_BITS};
use crate::cell_memory_laws::{
    lemma_addr_plus_value, lemma_byte_untouched, lemma_bytes_read_after_write, lemma_bytes_write_len, lemma_read_after_write_value,
};
use crate::error::{Error, Result};
use crate::memcpy_length::MemcpyLength;

verus! {

/// The byte a `memset` writes: the low eight bits of the value (some
/// declarations of `memset` pass a wider value).
pub open spec fn fill_byte(v: Seq<bool>) -> Seq<bool> {
    v.subrange(0, 8)
}

/// `n` copies of the byte `b`.
pub open spec fn repeated(b: Seq<bool>, n: nat) -> Seq<bool> {
    Seq::new(8 * n, |k: int| b[k % 8])
}

/// The value a `memset` of `n` bytes of `v` writes: all zeros where the
/// byte must be zero, all ones where it must be all ones (the two cases the
/// solver is asked about), else `n` copies of the byte.
pub open spec fn memset_value(must_be_zero: bool, must_be_ones: bool, v: Seq<bool>, n: nat) -> Seq<bool> {
    if must_be_zero {
        zeros(8 * n)
    } else if must_be_ones {
        Seq::new(8 * n, |k: int| true)
    } else {
        repeated(fill_byte(v), n)
    }
}

/// `new` is `old` after a write at `addr` of `memset_value` of `n` bytes of
/// `val`, in every environment.
pub open spec fn memset_wrote(new: Memory, old: Memory, addr: BvTerm, val: BvTerm, must_be_zero: bool, must_be_ones: bool, n: nat) -> bool {
    forall|env: Env, c: Seq<bool>| #[trigger] new.cell(env, c) == Memory::written(
        old,
        env,
        addr,
        memset_value(must_be_zero, must_be_ones, eval(val, env), n),
        c,
    )
}

/// `n` copies of the byte term `b`.
fn repeat_byte(b: &BvTerm, n: u32) -> (r: BvTerm)
    requires
        wf(*b),
        width(*b) == 8,
        1 <= n,
        8 * n <= u32::MAX,
    ensures
        wf(r),
        width(r) == 8 * n,
        forall|env: Env| #[trigger] eval(r, env) == repeated(eval(*b, env), n as nat),
{
    let mut acc = b.clone();
    proof {
        assert forall|env: Env| #[trigger] eval(acc, env) == repeated(eval(*b, env), 1) by {
            lemma_eval_len(*b, env);
            assert(eval(acc, env) =~= repeated(eval(*b, env), 1));
        }
    }
    let mut i: u32 = 1;
    while i < n
        invariant
            wf(*b),
            width(*b) == 8,
            1 <= i <= n,
            8 * n <= u32::MAX,
            wf(acc),
            width(acc) == 8 * i,
            forall|env: Env| #[trigger] eval(acc, env) == repeated(eval(*b, env), i as nat),
        decreases n - i,
    {
        let ghost prev = acc;
        acc = BvTerm::Concat(Box::new(acc), Box::new(b.clone()));
        proof {
            assert forall|env: Env| #[trigger] eval(acc, env) == repeated(eval(*b, env), (i + 1) as nat) by {
                let x = eval(*b, env);
                lemma_eval_len(*b, env);
                assert(eval(acc, env) == x + eval(prev, env));
                assert forall|k: int| 0 <= k < 8 * (i + 1) implies #[trigger] (x + eval(prev, env))[k] == repeated(x, (i + 1) as nat)[k] by {
                    if k >= 8 {
                        assert((k - 8) % 8 == k % 8);
                    }
                }
                assert(eval(acc, env) =~= repeated(x, (i + 1) as nat));
            }
        }
        i = i + 1;
    }
    acc
}

/// What an error of a memory access with the null-address oracle `f` can be.
pub open spec fn access_failed<F: Fn() -> Result<bool>>(null_detection: bool, f: F, e: Error) -> bool {
    null_detection && (f.ensures((), Err(e)) || (e == Error::NullPointerDereference && f.ensures((), Ok(true))))
}

/// Set `length_bytes` bytes of memory at address `addr` each to the low byte
/// of `val`. `is_zero` and `is_ones` ask the solver whether that byte must be
/// all zeros, or all ones, in which case the value written is built as such;
/// `can_be_null` is asked of the address as for `Memory::write`.
///
/// On success the memory is as after a write of `memset_value` at `addr`,
/// for what the oracles answered; a zero length writes nothing.
fn memset_concrete<Z, O, N>(
    mem: &mut Memory,
    addr: &BvTerm,
    val: &BvTerm,
    length_bytes: u64,
    is_zero: Z,
    is_ones: O,
    can_be_null: N,
) -> (r: Result<()>) where Z: Fn() -> Result<bool>, O: Fn() -> Result<bool>, N: Fn() -> Result<bool>
    requires
        old(mem).wf(),
        wf(*addr),
        width(*addr) == INDEX_BITS,
        wf(*val),
        length_bytes > 0 ==> width(*val) >= 8,
        8 * length_bytes <= u32::MAX,
        is_zero.requires(()),
        is_ones.requires(()),
        old(mem).null_detection() ==> can_be_null.requires(()),
    ensures
        length_bytes == 0 ==> r is Ok && *final(mem) == *old(mem),
        r is Err ==> *final(mem) == *old(mem),
        r matches Err(e) ==> is_zero.ensures((), Err(e)) || is_ones.ensures((), Err(e)) || access_failed(
            old(mem).null_detection(),
            can_be_null,
            e,
        ),
        r is Ok && length_bytes > 0 ==> Memory::same_except(*final(mem), *old(mem)) && exists|z: bool|
            #[trigger] is_zero.ensures((), Ok(z)) && if z {
                memset_wrote(*final(mem), *old(mem), *addr, *val, true, false, length_bytes as nat)
            } else {
                exists|o: bool| #[trigger]
                    is_ones.ensures((), Ok(o)) && memset_wrote(*final(mem), *old(mem), *addr, *val, false, o, length_bytes as nat)
            },
{
    if length_bytes == 0 {
        return Ok(());
    }
    let w = val.get_width();
    let byte = if w > 8 {
        BvTerm::Slice(Box::new(val.clone()), 7, 0)
    } else {
        val.clone()
    };
    let n = length_bytes as u32;
    let ghost bt = byte;
    assert forall|env: Env| #[trigger] eval(bt, env) == fill_byte(eval(*val, env)) by {
        lemma_eval_len(*val, env);
        assert(eval(bt, env) =~= fill_byte(eval(*val, env)));
    }
    let z = match is_zero() {
        Ok(b) => b,
        Err(e) => {
            return Err(e);
        },
    };
    let o = if z {
        false
    } else {
        match is_ones() {
            Ok(b) => b,
            Err(e) => {
                return Err(e);
            },
        }
    };
    let big = if z {
        BvTerm::Zero(8 * n)
    } else if o {
        BvTerm::Ones(8 * n)
    } else {
        repeat_byte(&byte, n)
    };
    let ghost g = big;
    assert(wf(g) && width(g) == 8 * n);
    assert forall|env: Env| #[trigger] eval(g, env) == memset_value(z, !z && o, eval(*val, env), length_bytes as nat) by {
        if !z && !o {
            assert(eval(g, env) == repeated(eval(bt, env), n as nat));
        }
    }
    let ghost old_mem = *mem;
    match mem.write(addr, big, can_be_null) {
        Ok(()) => {
            proof {
                assert forall|env: Env, c: Seq<bool>| #[trigger] mem.cell(env, c) == Memory::written(
                    old_mem,
                    env,
                    *addr,
                    memset_value(z, !z && o, eval(*val, env), length_bytes as nat),
                    c,
                ) by {
                    assert(mem.cell(env, c) == Memory::written(old_mem, env, *addr, eval(g, env), c));
                }
                assert(memset_wrote(*mem, old_mem, *addr, *val, z, !z && o, length_bytes as nat));
                if !z {
                    assert(is_ones.ensures((), Ok(o)));
                }
            }
            Ok(())
        },
        Err(e) => Err(e),
    }
}

/// Copy `length_bytes` bytes of memory from address `src` to address `dest`:
/// one read of them all, then one write. `src_null` and `dest_null` are asked
/// of the two addresses as for `Memory::read` and `Memory::write`.
///
/// On success the memory is as after a write at `dest` of what a read at
/// `src` gave; a zero length copies nothing.
fn memcpy_concrete<S, D>(
    mem: &mut Memory,
    dest: &BvTerm,
    src: &BvTerm,
    length_bytes: u64,
    src_null: S,
    dest_null: D,
) -> (r: Result<()>) where S: Fn() -> Result<bool>, D: Fn() -> Result<bool>
    requires
        old(mem).wf(),
        wf(*dest),
        width(*dest) == INDEX_BITS,
        wf(*src),
        width(*src) == INDEX_BITS,
        8 * length_bytes <= u32::MAX,
        old(mem).null_detection() ==> src_null.requires(()) && dest_null.requires(()),
    ensures
        length_bytes == 0 ==> r is Ok && *final(mem) == *old(mem),
        r is Err ==> *final(mem) == *old(mem),
        r matches Err(e) ==> access_failed(old(mem).null_detection(), src_null, e) || access_failed(
            old(mem).null_detection(),
            dest_null,
            e,
        ),
        !old(mem).null_detection() ==> r is Ok,
        r is Ok && length_bytes > 0 ==> {
            &&& Memory::same_except(*final(mem), *old(mem))
            &&& forall|env: Env, c: Seq<bool>| #[trigger] final(mem).cell(env, c) == Memory::written(
                *old(mem),
                env,
                *dest,
                old(mem).read_value(env, *src, 8 * length_bytes as nat),
                c,
            )
        },
{
    if length_bytes == 0 {
        return Ok(());
    }
    let bits = (length_bytes as u32) * 8;
    let val = match mem.read(src, bits, src_null) {
        Ok(v) => v,
        Err(e) => {
            return Err(e);
        },
    };
    let ghost old_mem = *mem;
    let ghost gv = val;
    match mem.write(dest, val, dest_null) {
        Ok(()) => {
            proof {
                assert forall|env: Env, c: Seq<bool>| #[trigger] mem.cell(env, c) == Memory::written(
                    old_mem,
                    env,
                    *dest,
                    old_mem.read_value(env, *src, 8 * length_bytes as nat),
                    c,
                ) by {
                    assert(eval(gv, env) == old_mem.read_value(env, *src, bits as nat));
                }
            }
            Ok(())
        },
        Err(e) => Err(e),
    }
}


/// The bytes a `memset` of symbolic length `n` writes at `a`, one for each of
/// the `k` addresses up to the largest possible length: the byte `b` where
/// the byte's number (counted in `w` bits, as the length is) is below the
/// length, and what the memory `old` held there otherwise.
pub open spec fn memset_bytes(old: Memory, env: Env, a: Seq<bool>, b: Seq<bool>, n: nat, w: nat, k: nat) -> Seq<bool> {
    Seq::new(
        8 * k,
        |t: int|
            if value(bits_of((t / 8) as nat, w)) < n {
                b[t % 8]
            } else {
                old.within_read(env, addr_plus(a, (t / 8) as nat), 8)[t % 8]
            },
    )
}

/// What an error of an access whose address oracle is `null_at` can be.
pub open spec fn some_access_failed<N: Fn(&BvTerm) -> Result<bool>>(null_detection: bool, null_at: N, e: Error) -> bool {
    null_detection && exists|t: BvTerm|
        #![trigger null_at.ensures((&t,), Err(e))]
        #![trigger null_at.ensures((&t,), Ok(true))]
        null_at.ensures((&t,), Err(e)) || (e == Error::NullPointerDereference && null_at.ensures((&t,), Ok(true)))
}

/// Set the bytes at `addr` each to the low byte of `val` where the number
/// of bytes `num_bytes` is symbolic, up to `max_num_bytes`, its largest
/// possible value: each byte from `addr` to `addr + max_num_bytes` is read,
/// and written back, or replaced by the byte where it lies below the length.
/// `null_at` asks whether an address can be null, as for `Memory::read`.
fn memset_symbolic<N>(mem: &mut Memory, addr: &BvTerm, val: &BvTerm, num_bytes: &BvTerm, max_num_bytes: u64, null_at: &N) -> (r:
    Result<()>) where N: Fn(&BvTerm) -> Result<bool>
    requires
        old(mem).wf(),
        wf(*addr),
        width(*addr) == INDEX_BITS,
        wf(*val),
        width(*val) >= 8,
        wf(*num_bytes),
        forall|t: BvTerm| #[trigger] null_at.requires((&t,)),
    ensures
        Memory::same_except(*final(mem), *old(mem)),
        !old(mem).null_detection() ==> r is Ok,
        r matches Err(e) ==> some_access_failed(old(mem).null_detection(), null_at, e),
        r is Ok ==> forall|env: Env, c: Seq<bool>| #[trigger] final(mem).cell(env, c) == bytes_write_cells(
            old(mem).cells(env),
            eval(*addr, env),
            memset_bytes(
                *old(mem),
                env,
                eval(*addr, env),
                fill_byte(eval(*val, env)),
                value(eval(*num_bytes, env)),
                width(*num_bytes),
                (max_num_bytes + 1) as nat,
            ),
            (max_num_bytes + 1) as nat,
            c,
        ),
{
    let w = val.get_width();
    let byte = if w > 8 {
        BvTerm::Slice(Box::new(val.clone()), 7, 0)
    } else {
        val.clone()
    };
    let nw = num_bytes.get_width();
    let ghost old_mem = *mem;
    let ghost k: nat = (max_num_bytes + 1) as nat;
    let ghost bt = byte;
    assert forall|env: Env| #[trigger] eval(bt, env) == fill_byte(eval(*val, env)) by {
        lemma_eval_len(*val, env);
        assert(eval(bt, env) =~= fill_byte(eval(*val, env)));
    }
    let mut j: u64 = 0;
    loop
        invariant_except_break
            forall|env: Env, c: Seq<bool>| #[trigger] mem.cell(env, c) == bytes_write_cells(
                old_mem.cells(env),
                eval(*addr, env),
                memset_bytes(old_mem, env, eval(*addr, env), fill_byte(eval(*val, env)), value(eval(*num_bytes, env)), nw as nat, k),
                j as nat,
                c,
            ),
        invariant
            old_mem == *old(mem),
            old_mem.wf(),
            Memory::same_except(*mem, old_mem),
            wf(*addr),
            width(*addr) == 64,
            wf(byte),
            width(byte) == 8,
            byte == bt,
            wf(*val),
            width(*val) >= 8,
            forall|env: Env| #[trigger] eval(bt, env) == fill_byte(eval(*val, env)),
            wf(*num_bytes),
            nw == width(*num_bytes),
            k == max_num_bytes + 1,
            j <= max_num_bytes,
            forall|t: BvTerm| #[trigger] null_at.requires((&t,)),
        ensures
            forall|env: Env, c: Seq<bool>| #[trigger] mem.cell(env, c) == bytes_write_cells(
                old_mem.cells(env),
                eval(*addr, env),
                memset_bytes(old_mem, env, eval(*addr, env), fill_byte(eval(*val, env)), value(eval(*num_bytes, env)), nw as nat, k),
                k,
                c,
            ),
        decreases max_num_bytes - j,
    {
        let a0 = addr.clone();
        let jc = BvTerm::Const(j, INDEX_BITS);
        assert(wf(a0) && width(a0) == 64);
        assert(wf(jc) && width(jc) == 64);
        let aj = BvTerm::Add(Box::new(a0), Box::new(jc));
        assert(wf(aj) && width(aj) == 64);
        let ghost before = *mem;
        let null_here = || -> (q: Result<bool>)
            requires
                null_at.requires((&aj,)),
            ensures
                null_at.ensures((&aj,), q),
        {
            let q = null_at(&aj);
            q
        };
        let old_val = match mem.read(&aj, 8, &null_here) {
            Ok(t) => t,
            Err(e) => {
                return Err(e);
            },
        };
        let jn = BvTerm::Const(j, nw);
        let nb = num_bytes.clone();
        assert(wf(jn) && wf(nb) && width(jn) == width(nb));
        let cond = BvTerm::Ult(Box::new(jn), Box::new(nb));
        let v = BvTerm::Ite(Box::new(cond), Box::new(byte.clone()), Box::new(old_val));
        let ghost gv = v;
        assert(wf(cond));
        assert(wf(old_val) && width(old_val) == 8);
        assert(wf(gv) && width(gv) == 8);
        match mem.write(&aj, v, &null_here) {
            Ok(()) => {},
            Err(e) => {
                return Err(e);
            },
        }
        proof {
            assert forall|env: Env, c: Seq<bool>| #[trigger] mem.cell(env, c) == bytes_write_cells(
                old_mem.cells(env),
                eval(*addr, env),
                memset_bytes(old_mem, env, eval(*addr, env), fill_byte(eval(*val, env)), value(eval(*num_bytes, env)), nw as nat, k),
                (j + 1) as nat,
                c,
            ) by {
                let a = eval(*addr, env);
                lemma_eval_len(*addr, env);
                let data = memset_bytes(old_mem, env, a, fill_byte(eval(*val, env)), value(eval(*num_bytes, env)), nw as nat, k);
                let x = addr_plus(a, j as nat);
                assert(eval(jc, env) == bits_of(j as nat, 64));
                assert(eval(a0, env) == a);
                assert(eval(aj, env) == x);
                assert forall|y: Seq<bool>| #[trigger] old_mem.cells(env)(y).len() == 64 by {
                    lemma_read_array_len(old_mem.array(), env, y);
                }
                lemma_byte_untouched(old_mem.cells(env), a, data, j as nat, j as nat);
                lemma_addr_plus_value(a, j as nat);
                crate::cell_memory::lemma_offset_bits_bound(x);
                let off = offset_bits(x);
                let cur = before.cell(env, cell_index(x));
                assert(cur == bytes_write_cells(old_mem.cells(env), a, data, j as nat, cell_index(x)));
                assert(eval(old_val, env) == before.small_read(env, x, 8));
                assert(eval(old_val, env) =~= cur.subrange(off as int, (off + 8) as int));
                assert(old_mem.within_read(env, x, 8) =~= old_mem.cell(env, cell_index(x)).subrange(off as int, (off + 8) as int));
                assert(eval(old_val, env) == old_mem.within_read(env, x, 8));
                assert(eval(jn, env) == bits_of(j as nat, nw as nat));
                assert(eval(nb, env) == eval(*num_bytes, env));
                let cnd = value(bits_of(j as nat, nw as nat)) < value(eval(*num_bytes, env));
                assert(eval(cond, env)[0] == cnd);
                assert(eval(gv, env) == if cnd { eval(bt, env) } else { eval(old_val, env) });
                lemma_eval_len(*val, env);
                lemma_eval_len(gv, env);
                assert forall|t: int| 0 <= t < 8 implies #[trigger] data[8 * j + t] == eval(gv, env)[t] by {
                    assert((8 * j + t) / 8 == j as int && (8 * j + t) % 8 == t);
                }
                assert(eval(gv, env) =~= data.subrange(8 * j as int, 8 * (j + 1) as int));
                assert(mem.cell(env, c) == Memory::written(before, env, aj, eval(gv, env), c));
            }
        }
        if j == max_num_bytes {
            break;
        }
        j = j + 1;
    }
    Ok(())
}


/// The byte at address `x` among the cells `cells`.
pub open spec fn byte_at(cells: spec_fn(Seq<bool>) -> Seq<bool>, x: Seq<bool>) -> Seq<bool> {
    shift_right(cells(cell_index(x)), offset_bits(x)).subrange(0, 8)
}

/// The bytes a `memcpy` of symbolic length `n` writes at `d`, from `s`, for
/// the first `k` of the addresses up to the largest possible length: byte `j`
/// is the byte at `s + j` as the copy has left the memory so far (the two
/// regions may overlap) where `j` (counted in `w` bits, as the length is) is
/// below the length, and the byte at `d + j` otherwise.
pub open spec fn memcpy_bytes(old: Memory, env: Env, d: Seq<bool>, s: Seq<bool>, n: nat, w: nat, k: nat) -> Seq<bool>
    decreases k,
{
    if k == 0 {
        Seq::empty()
    } else {
        let j = (k - 1) as nat;
        let prev = memcpy_bytes(old, env, d, s, n, w, j);
        let cells = |c: Seq<bool>| bytes_write_cells(old.cells(env), d, prev, j, c);
        prev + if value(bits_of(j, w)) < n {
            byte_at(cells, addr_plus(s, j))
        } else {
            byte_at(cells, addr_plus(d, j))
        }
    }
}

/// The copied bytes have eight bits each, and the first `j` of `k` are
/// those of `j`.
proof fn lemma_memcpy_bytes_prefix(old: Memory, env: Env, d: Seq<bool>, s: Seq<bool>, n: nat, w: nat, j: nat, k: nat)
    requires
        old.wf(),
        j <= k,
    ensures
        memcpy_bytes(old, env, d, s, n, w, k).len() == 8 * k,
        memcpy_bytes(old, env, d, s, n, w, k).subrange(0, 8 * j as int) == memcpy_bytes(old, env, d, s, n, w, j),
    decreases k,
{
    let mk = memcpy_bytes(old, env, d, s, n, w, k);
    if k == 0 {
        assert(mk.subrange(0, 0) =~= mk);
    } else {
        let i = (k - 1) as nat;
        lemma_memcpy_bytes_prefix(old, env, d, s, n, w, i, i);
        let prev = memcpy_bytes(old, env, d, s, n, w, i);
        let cells = |c: Seq<bool>| bytes_write_cells(old.cells(env), d, prev, i, c);
        assert forall|y: Seq<bool>| #[trigger] old.cells(env)(y).len() == 64 by {
            lemma_read_array_len(old.array(), env, y);
        }
        lemma_bytes_write_len(old.cells(env), d, prev, i, cell_index(addr_plus(s, i)));
        lemma_bytes_write_len(old.cells(env), d, prev, i, cell_index(addr_plus(d, i)));
        assert(cells(cell_index(addr_plus(s, i))).len() == 64);
        assert(cells(cell_index(addr_plus(d, i))).len() == 64);
        assert(mk.len() == 8 * k);
        if j == k {
            assert(mk.subrange(0, 8 * j as int) =~= mk);
        } else {
            lemma_memcpy_bytes_prefix(old, env, d, s, n, w, j, i);
            assert(mk.subrange(0, 8 * j as int) =~= prev.subrange(0, 8 * j as int));
        }
    }
}

/// Bytes written one at a time depend only on the bytes written.
proof fn lemma_bytes_write_prefix(cells: spec_fn(Seq<bool>) -> Seq<bool>, a: Seq<bool>, v1: Seq<bool>, v2: Seq<bool>, k: nat, c: Seq<bool>)
    requires
        8 * k <= v1.len(),
        8 * k <= v2.len(),
        v1.subrange(0, 8 * k as int) == v2.subrange(0, 8 * k as int),
    ensures
        bytes_write_cells(cells, a, v1, k, c) == bytes_write_cells(cells, a, v2, k, c),
    decreases k,
{
    if k > 0 {
        assert(v1.subrange(0, 8 * (k - 1)) =~= v1.subrange(0, 8 * k as int).subrange(0, 8 * (k - 1)));
        assert(v2.subrange(0, 8 * (k - 1)) =~= v2.subrange(0, 8 * k as int).subrange(0, 8 * (k - 1)));
        lemma_bytes_write_prefix(cells, a, v1, v2, (k - 1) as nat, c);
        assert(v1.subrange(8 * (k - 1), 8 * k as int) =~= v1.subrange(0, 8 * k as int).subrange(8 * (k - 1), 8 * k as int));
        assert(v2.subrange(8 * (k - 1), 8 * k as int) =~= v2.subrange(0, 8 * k as int).subrange(8 * (k - 1), 8 * k as int));
    }
}

/// Copy the bytes at `src` to `dest` where the number of bytes `num_bytes`
/// is symbolic, up to `max_num_bytes`, its largest possible value: for each
/// byte from the first to `max_num_bytes`, the byte of `src` is read, and so
/// is that of `dest`, and `dest`'s byte is written with the one or the other
/// as it lies below the length or not. `null_at` asks whether an address can
/// be null, as for `Memory::read`.
fn memcpy_symbolic<N>(mem: &mut Memory, dest: &BvTerm, src: &BvTerm, num_bytes: &BvTerm, max_num_bytes: u64, null_at: &N) -> (r:
    Result<()>) where N: Fn(&BvTerm) -> Result<bool>
    requires
        old(mem).wf(),
        wf(*dest),
        width(*dest) == INDEX_BITS,
        wf(*src),
        width(*src) == INDEX_BITS,
        wf(*num_bytes),
        forall|t: BvTerm| #[trigger] null_at.requires((&t,)),
    ensures
        Memory::same_except(*final(mem), *old(mem)),
        !old(mem).null_detection() ==> r is Ok,
        r matches Err(e) ==> some_access_failed(old(mem).null_detection(), null_at, e),
        r is Ok ==> forall|env: Env, c: Seq<bool>| #[trigger] final(mem).cell(env, c) == bytes_write_cells(
            old(mem).cells(env),
            eval(*dest, env),
            memcpy_bytes(
                *old(mem),
                env,
                eval(*dest, env),
                eval(*src, env),
                value(eval(*num_bytes, env)),
                width(*num_bytes),
                (max_num_bytes + 1) as nat,
            ),
            (max_num_bytes + 1) as nat,
            c,
        ),
{
    let nw = num_bytes.get_width();
    let ghost old_mem = *mem;
    let ghost k: nat = (max_num_bytes + 1) as nat;
    let mut j: u64 = 0;
    loop
        invariant_except_break
            forall|env: Env, c: Seq<bool>| #[trigger] mem.cell(env, c) == bytes_write_cells(
                old_mem.cells(env),
                eval(*dest, env),
                memcpy_bytes(old_mem, env, eval(*dest, env), eval(*src, env), value(eval(*num_bytes, env)), nw as nat, j as nat),
                j as nat,
                c,
            ),
        invariant
            old_mem == *old(mem),
            old_mem.wf(),
            Memory::same_except(*mem, old_mem),
            wf(*dest),
            width(*dest) == 64,
            wf(*src),
            width(*src) == 64,
            wf(*num_bytes),
            nw == width(*num_bytes),
            k == max_num_bytes + 1,
            j <= max_num_bytes,
            forall|t: BvTerm| #[trigger] null_at.requires((&t,)),
        ensures
            forall|env: Env, c: Seq<bool>| #[trigger] mem.cell(env, c) == bytes_write_cells(
                old_mem.cells(env),
                eval(*dest, env),
                memcpy_bytes(old_mem, env, eval(*dest, env), eval(*src, env), value(eval(*num_bytes, env)), nw as nat, k),
                k,
                c,
            ),
        decreases max_num_bytes - j,
    {
        let d0 = dest.clone();
        let s0 = src.clone();
        let jc = BvTerm::Const(j, INDEX_BITS);
        assert(wf(jc) && width(jc) == 64);
        let sj = BvTerm::Add(Box::new(s0), Box::new(jc.clone()));
        let dj = BvTerm::Add(Box::new(d0), Box::new(jc));
        assert(wf(sj) && width(sj) == 64 && wf(dj) && width(dj) == 64);
        let ghost before = *mem;
        let null_src = || -> (q: Result<bool>)
            requires
                null_at.requires((&sj,)),
            ensures
                null_at.ensures((&sj,), q),
        {
            let q = null_at(&sj);
            q
        };
        let null_dest = || -> (q: Result<bool>)
            requires
                null_at.requires((&dj,)),
            ensures
                null_at.ensures((&dj,), q),
        {
            let q = null_at(&dj);
            q
        };
        let src_val = match mem.read(&sj, 8, &null_src) {
            Ok(t) => t,
            Err(e) => {
                return Err(e);
            },
        };
        let dst_val = match mem.read(&dj, 8, &null_dest) {
            Ok(t) => t,
            Err(e) => {
                return Err(e);
            },
        };
        let jn = BvTerm::Const(j, nw);
        let nb = num_bytes.clone();
        assert(wf(jn) && wf(nb) && width(jn) == width(nb));
        let cond = BvTerm::Ult(Box::new(jn), Box::new(nb));
        assert(wf(cond));
        assert(wf(src_val) && width(src_val) == 8 && wf(dst_val) && width(dst_val) == 8);
        let v = BvTerm::Ite(Box::new(cond), Box::new(src_val), Box::new(dst_val));
        let ghost gv = v;
        assert(wf(gv) && width(gv) == 8);
        match mem.write(&dj, v, &null_dest) {
            Ok(()) => {},
            Err(e) => {
                return Err(e);
            },
        }
        proof {
            assert forall|env: Env, c: Seq<bool>| #[trigger] mem.cell(env, c) == bytes_write_cells(
                old_mem.cells(env),
                eval(*dest, env),
                memcpy_bytes(old_mem, env, eval(*dest, env), eval(*src, env), value(eval(*num_bytes, env)), nw as nat, (j + 1) as nat),
                (j + 1) as nat,
                c,
            ) by {
                let d = eval(*dest, env);
                let sa = eval(*src, env);
                lemma_eval_len(*dest, env);
                lemma_eval_len(*src, env);
                let n = value(eval(*num_bytes, env));
                let prev = memcpy_bytes(old_mem, env, d, sa, n, nw as nat, j as nat);
                let next = memcpy_bytes(old_mem, env, d, sa, n, nw as nat, (j + 1) as nat);
                lemma_memcpy_bytes_prefix(old_mem, env, d, sa, n, nw as nat, j as nat, (j + 1) as nat);
                lemma_memcpy_bytes_prefix(old_mem, env, d, sa, n, nw as nat, j as nat, j as nat);
                let cells = |x: Seq<bool>| bytes_write_cells(old_mem.cells(env), d, prev, j as nat, x);
                assert(eval(jc, env) == bits_of(j as nat, 64));
                assert(eval(sj, env) == addr_plus(sa, j as nat));
                assert(eval(dj, env) == addr_plus(d, j as nat));
                assert forall|x: Seq<bool>| #[trigger] before.cell(env, x) == cells(x) by {}
                assert(eval(src_val, env) == before.small_read(env, addr_plus(sa, j as nat), 8));
                assert(eval(src_val, env) == byte_at(cells, addr_plus(sa, j as nat)));
                assert(eval(dst_val, env) == byte_at(cells, addr_plus(d, j as nat)));
                assert(eval(jn, env) == bits_of(j as nat, nw as nat));
                assert(eval(nb, env) == eval(*num_bytes, env));
                let cnd = value(bits_of(j as nat, nw as nat)) < n;
                assert(eval(cond, env)[0] == cnd);
                assert(next == prev + eval(gv, env));
                lemma_bytes_write_prefix(old_mem.cells(env), d, prev, next, j as nat, c);
                lemma_bytes_write_prefix(old_mem.cells(env), d, prev, next, j as nat, cell_index(addr_plus(d, j as nat)));
                lemma_eval_len(gv, env);
                assert(next.subrange(8 * j as int, 8 * (j + 1) as int) =~= eval(gv, env));
                assert(mem.cell(env, c) == Memory::written(before, env, dj, eval(gv, env), c));
            }
        }
        if j == max_num_bytes {
            break;
        }
        j = j + 1;
    }
    Ok(())
}


/// `new` is `old` after a `memset` of `n` bytes of `val` at `addr` whose byte
/// the oracles `is_zero` and `is_ones` classified.
pub open spec fn memset_concrete_wrote<Z: Fn() -> Result<bool>, O: Fn() -> Result<bool>>(
    new: Memory,
    old: Memory,
    addr: BvTerm,
    val: BvTerm,
    n: nat,
    is_zero: Z,
    is_ones: O,
) -> bool {
    &&& Memory::same_except(new, old)
    &&& exists|z: bool|
        #[trigger] is_zero.ensures((), Ok(z)) && if z {
            memset_wrote(new, old, addr, val, true, false, n)
        } else {
            exists|o: bool| #[trigger] is_ones.ensures((), Ok(o)) && memset_wrote(new, old, addr, val, false, o, n)
        }
}

/// `new` is `old` after a `memset` at `addr` of the low byte of `val`, of
/// the symbolic length `num_bytes`, at most `max_num_bytes`.
pub open spec fn memset_symbolic_wrote(new: Memory, old: Memory, addr: BvTerm, val: BvTerm, num_bytes: BvTerm, max_num_bytes: u64) -> bool {
    forall|env: Env, c: Seq<bool>| #[trigger] new.cell(env, c) == bytes_write_cells(
        old.cells(env),
        eval(addr, env),
        memset_bytes(
            old,
            env,
            eval(addr, env),
            fill_byte(eval(val, env)),
            value(eval(num_bytes, env)),
            width(num_bytes),
            (max_num_bytes + 1) as nat,
        ),
        (max_num_bytes + 1) as nat,
        c,
    )
}

/// `new` is `old` after a `memcpy` from `src` to `dest` of the symbolic
/// length `num_bytes`, at most `max_num_bytes`.
pub open spec fn memcpy_symbolic_wrote(new: Memory, old: Memory, dest: BvTerm, src: BvTerm, num_bytes: BvTerm, max_num_bytes: u64) -> bool {
    forall|env: Env, c: Seq<bool>| #[trigger] new.cell(env, c) == bytes_write_cells(
        old.cells(env),
        eval(dest, env),
        memcpy_bytes(
            old,
            env,
            eval(dest, env),
            eval(src, env),
            value(eval(num_bytes, env)),
            width(num_bytes),
            (max_num_bytes + 1) as nat,
        ),
        (max_num_bytes + 1) as nat,
        c,
    )
}

/// Set `num_bytes` bytes of memory at address `addr` each to the value
/// `val`; only the lowest 8 bits of `val` are used. `length` is the length
/// decided for the operation (see `get_memcpy_length`); where it is symbolic,
/// `max_num_bytes` is the largest value `num_bytes` can take.
///
/// `is_zero` and `is_ones` ask whether the byte must be all zeros or all
/// ones, and `null_at` whether an address can be null.
///
/// Returns `addr`. Most callers probably won't need this.
pub fn memset<Z, O, N>(
    mem: &mut Memory,
    addr: &BvTerm,
    val: &BvTerm,
    num_bytes: &BvTerm,
    length: MemcpyLength,
    max_num_bytes: u64,
    is_zero: Z,
    is_ones: O,
    null_at: &N,
) -> (r: Result<BvTerm>) where Z: Fn() -> Result<bool>, O: Fn() -> Result<bool>, N: Fn(&BvTerm) -> Result<bool>
    requires
        old(mem).wf(),
        wf(*addr),
        width(*addr) == INDEX_BITS,
        wf(*val),
        wf(*num_bytes),
        length != MemcpyLength::Concrete(0) ==> width(*val) >= 8,
        length matches MemcpyLength::Concrete(n) ==> 8 * n <= u32::MAX,
        is_zero.requires(()),
        is_ones.requires(()),
        forall|t: BvTerm| #[trigger] null_at.requires((&t,)),
    ensures
        r matches Ok(t) ==> t == *addr,
        length == MemcpyLength::Concrete(0) ==> r is Ok && *final(mem) == *old(mem),
        Memory::same_except(*final(mem), *old(mem)),
        r matches Err(e) ==> is_zero.ensures((), Err(e)) || is_ones.ensures((), Err(e)) || some_access_failed(
            old(mem).null_detection(),
            null_at,
            e,
        ),
        length is Symbolic && !old(mem).null_detection() ==> r is Ok,
        r is Ok ==> match length {
            MemcpyLength::Concrete(n) => n > 0 ==> memset_concrete_wrote(*final(mem), *old(mem), *addr, *val, n as nat, is_zero, is_ones),
            MemcpyLength::Symbolic => memset_symbolic_wrote(*final(mem), *old(mem), *addr, *val, *num_bytes, max_num_bytes),
        },
{
    match length {
        MemcpyLength::Concrete(n) => {
            let null_here = || -> (q: Result<bool>)
                requires
                    null_at.requires((addr,)),
                ensures
                    null_at.ensures((addr,), q),
            {
                let q = null_at(addr);
                q
            };
            match memset_concrete(mem, addr, val, n, is_zero, is_ones, null_here) {
                Ok(()) => Ok(addr.clone()),
                Err(e) => {
                    proof {
                        if !is_zero.ensures((), Err(e)) && !is_ones.ensures((), Err(e)) {
                            assert(null_at.ensures((addr,), Err(e)) || (e == Error::NullPointerDereference && null_at.ensures(
                                (addr,),
                                Ok(true),
                            )));
                        }
                    }
                    Err(e)
                },
            }
        },
        MemcpyLength::Symbolic => match memset_symbolic(mem, addr, val, num_bytes, max_num_bytes, null_at) {
            Ok(()) => Ok(addr.clone()),
            Err(e) => Err(e),
        },
    }
}

/// Copies `num_bytes` bytes of memory from address `src` to address `dest`.
/// `src` and `dest` may overlap. `length` is the length decided for the
/// operation (see `get_memcpy_length`); where it is symbolic,
/// `max_num_bytes` is the largest value `num_bytes` can take. `null_at` asks
/// whether an address can be null.
///
/// Returns `dest`. Most callers probably won't need this.
pub fn memcpy<N>(
    mem: &mut Memory,
    dest: &BvTerm,
    src: &BvTerm,
    num_bytes: &BvTerm,
    length: MemcpyLength,
    max_num_bytes: u64,
    null_at: &N,
) -> (r: Result<BvTerm>) where N: Fn(&BvTerm) -> Result<bool>
    requires
        old(mem).wf(),
        wf(*dest),
        width(*dest) == INDEX_BITS,
        wf(*src),
        width(*src) == INDEX_BITS,
        wf(*num_bytes),
        length matches MemcpyLength::Concrete(n) ==> 8 * n <= u32::MAX,
        forall|t: BvTerm| #[trigger] null_at.requires((&t,)),
    ensures
        r matches Ok(t) ==> t == *dest,
        length == MemcpyLength::Concrete(0) ==> r is Ok && *final(mem) == *old(mem),
        Memory::same_except(*final(mem), *old(mem)),
        r matches Err(e) ==> some_access_failed(old(mem).null_detection(), null_at, e),
        !old(mem).null_detection() ==> r is Ok,
        r is Ok ==> match length {
            MemcpyLength::Concrete(n) => n > 0 ==> forall|env: Env, c: Seq<bool>| #[trigger] final(mem).cell(env, c) == Memory::written(
                *old(mem),
                env,
                *dest,
                old(mem).read_value(env, *src, 8 * n as nat),
                c,
            ),
            MemcpyLength::Symbolic => memcpy_symbolic_wrote(*final(mem), *old(mem), *dest, *src, *num_bytes, max_num_bytes),
        },
{
    match length {
        MemcpyLength::Concrete(n) => {
            let null_src = || -> (q: Result<bool>)
                requires
                    null_at.requires((src,)),
                ensures
                    null_at.ensures((src,), q),
            {
                let q = null_at(src);
                q
            };
            let null_dest = || -> (q: Result<bool>)
                requires
                    null_at.requires((dest,)),
                ensures
                    null_at.ensures((dest,), q),
            {
                let q = null_at(dest);
                q
            };
            match memcpy_concrete(mem, dest, src, n, null_src, null_dest) {
                Ok(()) => Ok(dest.clone()),
                Err(e) => {
                    proof {
                        if null_at.ensures((src,), Err(e)) || (e == Error::NullPointerDereference && null_at.ensures((src,), Ok(true))) {
                            assert(some_access_failed(old(mem).null_detection(), null_at, e));
                        } else {
                            assert(null_at.ensures((dest,), Err(e)) || (e == Error::NullPointerDereference && null_at.ensures(
                                (dest,),
                                Ok(true),
                            )));
                        }
                    }
                    Err(e)
                },
            }
        },
        MemcpyLength::Symbolic => match memcpy_symbolic(mem, dest, src, num_bytes, max_num_bytes, null_at) {
            Ok(()) => Ok(dest.clone()),
            Err(e) => Err(e),
        },
    }
}


/// After a `memset` of a known length `n`, reading the `n` bytes back at the
/// same address gives the value set: the low byte of `val` in each byte
/// (all zeros, or all ones, where the solver found that the byte must be).
pub proof fn lemma_memset_reads_back(new: Memory, old: Memory, addr: BvTerm, val: BvTerm, z: bool, o: bool, n: nat, env: Env)
    requires
        old.wf(),
        wf(addr),
        width(addr) == INDEX_BITS,
        wf(val),
        width(val) >= 8,
        1 <= n,
        8 * n <= u32::MAX,
        memset_wrote(new, old, addr, val, z, o, n),
    ensures
        new.read_value(env, addr, 8 * n) == memset_value(z, o, eval(val, env), n),
{
    let v = memset_value(z, o, eval(val, env), n);
    assert forall|c: Seq<bool>| #[trigger] new.cell(env, c) == Memory::written(old, env, addr, v, c) by {}
    lemma_read_array_len_all(old, env);
    lemma_read_after_write_value(old, new, addr, v, env);
}

/// Every cell of a well-formed memory holds 64 bits.
proof fn lemma_read_array_len_all(m: Memory, env: Env)
    requires
        m.wf(),
    ensures
        forall|c: Seq<bool>| #[trigger] m.cell(env, c).len() == 64,
{
    assert forall|c: Seq<bool>| #[trigger] m.cell(env, c).len() == 64 by {
        lemma_read_array_len(m.array(), env, c);
    }
}

/// After a `memset` of symbolic length, reading the bytes back at the same
/// address, as many as the largest possible length (and one more), gives
/// the low byte of `val` in each byte below the length, and what the memory
/// held before in each of the others.
pub proof fn lemma_memset_symbolic_reads_back(new: Memory, old: Memory, addr: BvTerm, val: BvTerm, num_bytes: BvTerm, max_num_bytes: u64, env: Env)
    requires
        old.wf(),
        wf(addr),
        width(addr) == INDEX_BITS,
        memset_symbolic_wrote(new, old, addr, val, num_bytes, max_num_bytes),
    ensures
        new.bytes_read(env, eval(addr, env), (max_num_bytes + 1) as nat) == memset_bytes(
            old,
            env,
            eval(addr, env),
            fill_byte(eval(val, env)),
            value(eval(num_bytes, env)),
            width(num_bytes),
            (max_num_bytes + 1) as nat,
        ),
{
    let a = eval(addr, env);
    lemma_eval_len(addr, env);
    let k = (max_num_bytes + 1) as nat;
    let data = memset_bytes(old, env, a, fill_byte(eval(val, env)), value(eval(num_bytes, env)), width(num_bytes), k);
    assert forall|y: Seq<bool>| #[trigger] old.cells(env)(y).len() == 64 by {
        lemma_read_array_len(old.array(), env, y);
    }
    assert(k <= 0x1_0000_0000_0000_0000);
    lemma_bytes_read_after_write(new, old.cells(env), env, a, data, k, k);
    assert(data.subrange(0, 8 * k as int) =~= data);
}

/// After a `memcpy` of a known length `n`, reading the `n` bytes at the
/// destination gives what reading them at the source gave before.
pub proof fn lemma_memcpy_reads_back(new: Memory, old: Memory, dest: BvTerm, src: BvTerm, n: nat, env: Env)
    requires
        old.wf(),
        wf(dest),
        width(dest) == INDEX_BITS,
        1 <= n,
        8 * n <= u32::MAX,
        forall|c: Seq<bool>| #[trigger] new.cell(env, c) == Memory::written(old, env, dest, old.read_value(env, src, 8 * n), c),
        old.read_value(env, src, 8 * n).len() == 8 * n,
    ensures
        new.read_value(env, dest, 8 * n) == old.read_value(env, src, 8 * n),
{
    lemma_read_after_write_value(old, new, dest, old.read_value(env, src, 8 * n), env);
}

} // verus!
