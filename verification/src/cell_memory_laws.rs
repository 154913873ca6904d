//! What a read of the cell memory gives back of a write, for values of any
//! size: at a cell-aligned constant address, at an unaligned constant
//! address, and at a symbolic address.

use vstd::arithmetic::div_mod::{lemma_fundamental_div_mod, lemma_mod_bound, lemma_small_mod};
use vstd::arithmetic::power2::{lemma2_to64, pow2};
use vstd::prelude::*;

use crate::bv_ops::lemma_value_concat;
use crate::bv_term::{addr_plus, lemma_value_bits_of, lemma_value_bound, overwrite, value};
use crate::bv_term::{const_u64, eval, lemma_eval_len, lemma_read_array_len, wf, width, BvTerm, Env};
use crate::cell_memory::{
    bytes_write_cells, cell_index, large_write_cells, lemma_small_read_after_write, offset_bits, small_write_cells, Memory, CELL_BITS, INDEX_BITS,
};

verus! {

/// Two to the sixty-fourth: the number of addresses.
pub open spec fn address_space() -> nat {
    0x1_0000_0000_0000_0000
}

/// The address `k` bytes past `a` (for `k` below the number of addresses)
/// is `a + k` modulo the number of addresses.
pub proof fn lemma_addr_plus_value(a: Seq<bool>, k: nat)
    requires
        a.len() == 64,
        k < address_space(),
    ensures
        addr_plus(a, k).len() == 64,
        value(addr_plus(a, k)) == (value(a) + k) % address_space(),
{
    lemma2_to64();
    lemma_value_bits_of(k, 64);
    lemma_small_mod(k, pow2(64));
    lemma_value_bits_of(value(a) + k, 64);
}

/// The offset of an address within its cell, and its cell's number, are
/// its value modulo and divided by eight.
pub proof fn lemma_address_parts(x: Seq<bool>)
    requires
        x.len() == 64,
    ensures
        offset_bits(x) == 8 * (value(x) % 8),
        value(cell_index(x)) == value(x) / 8,
{
    lemma2_to64();
    let low = x.subrange(0, 3);
    let high = x.subrange(3, 64);
    assert(low + high =~= x);
    lemma_value_concat(low, high);
    lemma_value_bound(low);
    lemma_fundamental_div_mod(value(x) as int, 8);
    lemma_mod_bound(value(x) as int, 8);
    assert(value(x) == value(low) + 8 * value(high));
    assert(value(x) / 8 == value(high) && value(x) % 8 == value(low)) by (nonlinear_arith)
        requires
            value(x) == value(low) + 8 * value(high),
            value(low) < 8,
    ;
}

/// Two numbers that agree modulo `m` and lie less than `m` apart are equal.
proof fn lemma_mod_close(x: int, y: int, m: int)
    requires
        m > 0,
        x % m == y % m,
        -m < x - y < m,
    ensures
        x == y,
{
    lemma_fundamental_div_mod(x, m);
    lemma_fundamental_div_mod(y, m);
    let d = x / m - y / m;
    assert(x - y == m * d) by (nonlinear_arith)
        requires
            x == m * (x / m) + x % m,
            y == m * (y / m) + y % m,
            x % m == y % m,
            d == x / m - y / m,
    ;
    assert(d == 0) by (nonlinear_arith)
        requires
            x - y == m * d,
            -m < x - y < m,
            m > 0,
    ;
}

/// Addresses `i` and `j` bytes past the same address (both fewer than the
/// number of addresses) are the same only if `i == j`.
pub proof fn lemma_addresses_differ(a: Seq<bool>, i: nat, j: nat)
    requires
        a.len() == 64,
        i < address_space(),
        j < address_space(),
        i != j,
    ensures
        value(addr_plus(a, i)) != value(addr_plus(a, j)),
{
    lemma_addr_plus_value(a, i);
    lemma_addr_plus_value(a, j);
    if value(addr_plus(a, i)) == value(addr_plus(a, j)) {
        lemma_mod_close((value(a) + i) as int, (value(a) + j) as int, address_space() as int);
    }
}

/// Different addresses in the same cell lie at different offsets in it.
pub proof fn lemma_same_cell_offsets_differ(x: Seq<bool>, y: Seq<bool>)
    requires
        x.len() == 64,
        y.len() == 64,
        value(x) != value(y),
        cell_index(x) == cell_index(y),
    ensures
        offset_bits(x) != offset_bits(y),
{
    lemma_address_parts(x);
    lemma_address_parts(y);
    lemma_fundamental_div_mod(value(x) as int, 8);
    lemma_fundamental_div_mod(value(y) as int, 8);
}

/// From a cell-aligned address, whole cells `i` and `j` apart (fewer than
/// two to the 61st) are different cells, each at offset zero.
pub proof fn lemma_aligned_cells(a: Seq<bool>, i: nat, j: nat)
    requires
        a.len() == 64,
        value(a) % 8 == 0,
        i < 0x2000_0000_0000_0000,
        j < 0x2000_0000_0000_0000,
    ensures
        offset_bits(addr_plus(a, 8 * i)) == 0,
        i != j ==> cell_index(addr_plus(a, 8 * i)) != cell_index(addr_plus(a, 8 * j)),
{
    let x = addr_plus(a, 8 * i);
    let y = addr_plus(a, 8 * j);
    lemma_addr_plus_value(a, 8 * i);
    lemma_addr_plus_value(a, 8 * j);
    lemma_address_parts(x);
    lemma_address_parts(y);
    let m = address_space() as int;
    assert(value(x) % 8 == 0) by {
        lemma_fundamental_div_mod((value(a) + 8 * i) as int, m);
        lemma_fundamental_div_mod(value(a) as int, 8);
        let q = ((value(a) + 8 * i) as int) / m;
        assert(value(x) == value(a) + 8 * i - m * q);
        assert(value(x) == 8 * (value(a) / 8 + i - 0x2000_0000_0000_0000 * q)) by (nonlinear_arith)
            requires
                value(x) == value(a) + 8 * i - m * q,
                value(a) == 8 * (value(a) / 8),
                m == 0x1_0000_0000_0000_0000,
        ;
    }
    if i != j {
        lemma_addresses_differ(a, 8 * i, 8 * j);
        assert(value(y) % 8 == 0) by {
            lemma_fundamental_div_mod((value(a) + 8 * j) as int, m);
            lemma_fundamental_div_mod(value(a) as int, 8);
            let q = ((value(a) + 8 * j) as int) / m;
            assert(value(y) == value(a) + 8 * j - m * q);
            assert(value(y) == 8 * (value(a) / 8 + j - 0x2000_0000_0000_0000 * q)) by (nonlinear_arith)
                requires
                    value(y) == value(a) + 8 * j - m * q,
                    value(a) == 8 * (value(a) / 8),
                    m == 0x1_0000_0000_0000_0000,
            ;
        }
        if cell_index(x) == cell_index(y) {
            lemma_fundamental_div_mod(value(x) as int, 8);
            lemma_fundamental_div_mod(value(y) as int, 8);
        }
    }
}


/// The cell of piece `i` of a large write at a cell-aligned address.
pub open spec fn piece_cell(a: Seq<bool>, i: nat) -> Seq<bool> {
    cell_index(addr_plus(a, 8 * i))
}

/// Before piece `i` is written, its cell holds what it held.
proof fn lemma_large_write_before(cells: spec_fn(Seq<bool>) -> Seq<bool>, a: Seq<bool>, v: Seq<bool>, i: nat, k: nat)
    requires
        a.len() == 64,
        value(a) % 8 == 0,
        k <= i < 0x2000_0000_0000_0000,
    ensures
        large_write_cells(cells, a, v, k, piece_cell(a, i)) == cells(piece_cell(a, i)),
    decreases k,
{
    if k > 0 {
        lemma_large_write_before(cells, a, v, i, (k - 1) as nat);
        lemma_aligned_cells(a, (k - 1) as nat, i);
    }
}

/// After piece `i` is written, later pieces leave its cell alone.
proof fn lemma_large_write_after(cells: spec_fn(Seq<bool>) -> Seq<bool>, a: Seq<bool>, v: Seq<bool>, i: nat, k: nat)
    requires
        a.len() == 64,
        value(a) % 8 == 0,
        i < k < 0x2000_0000_0000_0000,
    ensures
        large_write_cells(cells, a, v, k, piece_cell(a, i)) == large_write_cells(cells, a, v, i + 1, piece_cell(a, i)),
    decreases k,
{
    if k > i + 1 {
        lemma_large_write_after(cells, a, v, i, (k - 1) as nat);
        lemma_aligned_cells(a, (k - 1) as nat, i);
    }
}

/// What the cell of piece `i` holds once all `n` pieces of a large write of
/// `v` at a cell-aligned address are written: the piece's bits, over what
/// the cell held where the piece is short of a cell.
proof fn lemma_large_write_piece(cells: spec_fn(Seq<bool>) -> Seq<bool>, a: Seq<bool>, v: Seq<bool>, i: nat, n: nat)
    requires
        a.len() == 64,
        value(a) % 8 == 0,
        n < 0x2000_0000_0000_0000,
        i < n,
        64 * i < v.len(),
    ensures
        ({
            let c = piece_cell(a, i);
            let start = 64 * i;
            large_write_cells(cells, a, v, n, c) == if v.len() - start >= 64 {
                v.subrange(start as int, (start + 64) as int)
            } else {
                overwrite(cells(c), 0, v.subrange(start as int, v.len() as int))
            }
        }),
{
    lemma_large_write_after(cells, a, v, i, n);
    lemma_large_write_before(cells, a, v, i, i);
    lemma_aligned_cells(a, i, i);
}


/// The whole cells read from a cell-aligned address after a large write
/// there: the first `k` cells' worth of the value written.
proof fn lemma_full_cells_after_write(
    new: Memory,
    cells: spec_fn(Seq<bool>) -> Seq<bool>,
    env: Env,
    a: Seq<bool>,
    v: Seq<bool>,
    n: nat,
    k: nat,
)
    requires
        a.len() == 64,
        value(a) % 8 == 0,
        n < 0x2000_0000_0000_0000,
        k < n,
        64 * k < v.len(),
        forall|c: Seq<bool>| #[trigger] new.cell(env, c) == large_write_cells(cells, a, v, n, c),
    ensures
        new.full_cells(env, a, k) == v.subrange(0, 64 * k as int),
    decreases k,
{
    if k == 0 {
        assert(v.subrange(0, 0) =~= Seq::<bool>::empty());
    } else {
        lemma_full_cells_after_write(new, cells, env, a, v, n, (k - 1) as nat);
        lemma_large_write_piece(cells, a, v, (k - 1) as nat, n);
        assert(new.cell(env, piece_cell(a, (k - 1) as nat)) == v.subrange(64 * (k - 1), 64 * k as int));
        assert(v.subrange(0, 64 * (k - 1)) + v.subrange(64 * (k - 1), 64 * k as int) =~= v.subrange(0, 64 * k as int));
    }
}

/// What a read gives back of a write of any size at a cell-aligned address
/// (the write over any cells of 64 bits): the value written.
pub proof fn lemma_aligned_read_after_write(
    new: Memory,
    cells: spec_fn(Seq<bool>) -> Seq<bool>,
    env: Env,
    a: Seq<bool>,
    v: Seq<bool>,
)
    requires
        a.len() == 64,
        value(a) % 8 == 0,
        1 <= v.len() <= u32::MAX,
        forall|x: Seq<bool>| #[trigger] cells(x).len() == 64,
        forall|c: Seq<bool>| #[trigger] new.cell(env, c) == large_write_cells(cells, a, v, ((v.len() - 1) / 64 + 1) as nat, c),
    ensures
        new.large_read(env, a, v.len()) == v,
{
    let n = ((v.len() - 1) / 64 + 1) as nat;
    let full = ((v.len() - 1) / 64) as nat;
    let last = ((v.len() - 1) % 64 + 1) as nat;
    lemma_fundamental_div_mod(v.len() - 1, 64);
    lemma_mod_bound(v.len() - 1, 64);
    assert(64 * full + last == v.len());
    lemma_full_cells_after_write(new, cells, env, a, v, n, full);
    lemma_large_write_piece(cells, a, v, full, n);
    lemma_aligned_cells(a, full, full);
    let c = piece_cell(a, full);
    let tail = v.subrange(64 * full as int, v.len() as int);
    let got = new.within_read(env, addr_plus(a, 8 * full), last);
    if last == 64 {
        assert(got == tail);
    } else {
        assert(new.cell(env, c) == overwrite(cells(c), 0, tail));
        assert(got =~= tail);
    }
    assert(v.subrange(0, 64 * full as int) + tail =~= v);
}


/// A small write over cells of 64 bits leaves cells of 64 bits.
proof fn lemma_small_write_len(cells: spec_fn(Seq<bool>) -> Seq<bool>, a: Seq<bool>, v: Seq<bool>, c: Seq<bool>)
    requires
        forall|x: Seq<bool>| #[trigger] cells(x).len() == 64,
    ensures
        small_write_cells(cells, a, v, c).len() == 64,
{
    assert(cells(cell_index(a)).len() == 64);
    assert(cells(cell_index(addr_plus(a, 8))).len() == 64);
    assert(cells(c).len() == 64);
}

/// A large write over cells of 64 bits leaves cells of 64 bits.
proof fn lemma_large_write_len(cells: spec_fn(Seq<bool>) -> Seq<bool>, a: Seq<bool>, v: Seq<bool>, k: nat, c: Seq<bool>)
    requires
        forall|x: Seq<bool>| #[trigger] cells(x).len() == 64,
    ensures
        large_write_cells(cells, a, v, k, c).len() == 64,
    decreases k,
{
    assert(cells(c).len() == 64);
    if k > 0 {
        lemma_large_write_len(cells, a, v, (k - 1) as nat, c);
    }
}

/// From an address `a` that is not cell-aligned, the address `a2` of the
/// next cell boundary is cell-aligned, and the cells `i` whole cells past
/// it (fewer than two to the 26th) are not the cell of `a`.
proof fn lemma_unaligned_cells(a: Seq<bool>, i: nat)
    requires
        a.len() == 64,
        value(a) % 8 != 0,
        i < 0x400_0000,
    ensures
        ({
            let a2 = addr_plus(a, (8 - value(a) % 8) as nat);
            &&& a2.len() == 64
            &&& value(a2) % 8 == 0
            &&& piece_cell(a2, i) != cell_index(a)
        }),
{
    let u = value(a);
    let first = (8 - u % 8) as nat;
    let a2 = addr_plus(a, first);
    let m = address_space() as int;
    lemma2_to64();
    lemma_value_bound(a);
    lemma_addr_plus_value(a, first);
    lemma_fundamental_div_mod(u as int, 8);
    lemma_mod_bound(u as int, 8);
    let q = u / 8;
    assert(u + first == 8 * (q + 1));
    // the boundary is a multiple of eight
    lemma_fundamental_div_mod((u + first) as int, m);
    let q2 = ((u + first) as int) / m;
    assert(value(a2) == 8 * (q + 1) - m * q2);
    assert(value(a2) == 8 * (q + 1 - 0x2000_0000_0000_0000 * q2)) by (nonlinear_arith)
        requires
            value(a2) == 8 * (q + 1) - m * q2,
            m == 0x1_0000_0000_0000_0000,
    ;
    lemma_aligned_cells(a2, i, i);
    let x = addr_plus(a2, 8 * i);
    lemma_addr_plus_value(a2, 8 * i);
    lemma_address_parts(x);
    lemma_address_parts(a);
    if cell_index(x) == cell_index(a) {
        // then x is the start of a's cell, congruent to a + first + 8 i
        assert(value(x) % 8 == 0);
        lemma_fundamental_div_mod(value(x) as int, 8);
        assert(value(x) == 8 * q);
        vstd::arithmetic::div_mod::lemma_add_mod_noop((u + first) as int, (8 * i) as int, m);
        vstd::arithmetic::div_mod::lemma_mod_twice((u + first) as int, m);
        assert(value(x) == ((u + first + 8 * i) as int) % m);
        lemma_small_mod(value(x), m as nat);
        lemma_mod_close(value(x) as int, (u + first + 8 * i) as int, m);
    }
}


/// A large write leaves alone a cell that none of its pieces fall in.
proof fn lemma_large_write_other(cells: spec_fn(Seq<bool>) -> Seq<bool>, a: Seq<bool>, v: Seq<bool>, k: nat, c: Seq<bool>)
    requires
        forall|i: nat| i < k ==> #[trigger] piece_cell(a, i) != c,
    ensures
        large_write_cells(cells, a, v, k, c) == cells(c),
    decreases k,
{
    if k > 0 {
        assert(piece_cell(a, (k - 1) as nat) != c);
        lemma_large_write_other(cells, a, v, (k - 1) as nat, c);
    }
}

/// What a read gives back of a write of more than a cell's worth of bits
/// at a constant address that is not cell-aligned, written as a small write
/// up to the next cell boundary and a large write from there: the value
/// written.
pub proof fn lemma_unaligned_read_after_write(
    old: Memory,
    new: Memory,
    cells: spec_fn(Seq<bool>) -> Seq<bool>,
    env: Env,
    a: Seq<bool>,
    v: Seq<bool>,
)
    requires
        a.len() == 64,
        value(a) % 8 != 0,
        64 < v.len() <= u32::MAX,
        forall|x: Seq<bool>| #[trigger] old.cell(env, x).len() == 64,
        forall|x: Seq<bool>|
            #[trigger] cells(x) == small_write_cells(old.cells(env), a, v.subrange(0, 8 * (8 - value(a) % 8)), x),
        forall|c: Seq<bool>|
            #[trigger] new.cell(env, c) == large_write_cells(
                cells,
                addr_plus(a, (8 - value(a) % 8) as nat),
                v.subrange(8 * (8 - value(a) % 8), v.len() as int),
                ((v.len() - 8 * (8 - value(a) % 8) - 1) / 64 + 1) as nat,
                c,
            ),
    ensures
        ({
            let first = (8 - value(a) % 8) as nat;
            new.small_read(env, a, 8 * first) + new.large_read(env, addr_plus(a, first), (v.len() - 8 * first) as nat) == v
        }),
{
    let u = value(a);
    let first = (8 - u % 8) as nat;
    let fb = 8 * first;
    let a2 = addr_plus(a, first);
    let v0 = v.subrange(0, fb as int);
    let rest = v.subrange(fb as int, v.len() as int);
    let k = ((rest.len() - 1) / 64 + 1) as nat;
    lemma_address_parts(a);
    lemma_mod_bound(u as int, 8);
    let off = offset_bits(a);
    assert(off + fb == 64);
    // every cell holds 64 bits
    assert forall|x: Seq<bool>| #[trigger] cells(x).len() == 64 by {
        assert forall|y: Seq<bool>| #[trigger] old.cells(env)(y).len() == 64 by {
            assert(old.cells(env)(y) == old.cell(env, y));
        }
        lemma_small_write_len(old.cells(env), a, v0, x);
    }
    // the large part
    lemma_unaligned_cells(a, 0);
    lemma_aligned_read_after_write(new, cells, env, a2, rest);
    // the small part comes from the cell of a, which the large part leaves alone
    assert(k <= 0x400_0000);
    assert forall|i: nat| i < k implies #[trigger] piece_cell(a2, i) != cell_index(a) by {
        lemma_unaligned_cells(a, i);
    }
    lemma_large_write_other(cells, a2, rest, k, cell_index(a));
    let c1 = new.cell(env, cell_index(a));
    assert(c1 == cells(cell_index(a)));
    crate::cell_memory::lemma_next_cell_differs(a);
    let oc = old.cells(env);
    assert(oc(cell_index(a)) == old.cell(env, cell_index(a)));
    assert(oc(cell_index(addr_plus(a, 8))) == old.cell(env, cell_index(addr_plus(a, 8))));
    assert forall|j: int| 0 <= j < fb implies #[trigger] c1[j + off] == v0[j] by {
        if fb <= 8 {
            assert(c1 == overwrite(oc(cell_index(a)), off, v0));
        } else {
            let data = overwrite(oc(cell_index(a)) + oc(cell_index(addr_plus(a, 8))), off, v0);
            assert(c1 == data.subrange(0, 64));
        }
    }
    let got = new.small_read(env, a, fb);
    if fb <= 8 {
        assert(got =~= v0);
    } else {
        let c2 = new.cell(env, cell_index(addr_plus(a, 8)));
        lemma_large_write_len(cells, a2, rest, k, cell_index(addr_plus(a, 8)));
        assert(got =~= v0) by {
            assert forall|j: int| 0 <= j < fb implies #[trigger] got[j] == v0[j] by {
                assert((c1 + c2)[j + off] == c1[j + off]);
            }
        }
    }
    assert(v0 + rest =~= v);
}


/// Writing bytes one at a time over cells of 64 bits leaves cells of 64
/// bits.
pub proof fn lemma_bytes_write_len(cells: spec_fn(Seq<bool>) -> Seq<bool>, a: Seq<bool>, v: Seq<bool>, k: nat, c: Seq<bool>)
    requires
        forall|x: Seq<bool>| #[trigger] cells(x).len() == 64,
    ensures
        bytes_write_cells(cells, a, v, k, c).len() == 64,
    decreases k,
{
    assert(cells(c).len() == 64);
    if k > 0 {
        lemma_bytes_write_len(cells, a, v, (k - 1) as nat, c);
    }
}

/// Once byte `j` of `v` is written at `a + j`, writing the later bytes
/// (each at its own address) leaves it in its place in its cell.
proof fn lemma_byte_stays(cells: spec_fn(Seq<bool>) -> Seq<bool>, a: Seq<bool>, v: Seq<bool>, j: nat, k: nat)
    requires
        a.len() == 64,
        forall|x: Seq<bool>| #[trigger] cells(x).len() == 64,
        j < k <= address_space(),
        8 * k <= v.len(),
    ensures
        ({
            let x = addr_plus(a, j);
            bytes_write_cells(cells, a, v, k, cell_index(x)).subrange(offset_bits(x) as int, (offset_bits(x) + 8) as int)
                == v.subrange((8 * j) as int, (8 * j + 8) as int)
        }),
    decreases k,
{
    let x = addr_plus(a, j);
    let c = cell_index(x);
    let off = offset_bits(x);
    lemma_addr_plus_value(a, j);
    crate::cell_memory::lemma_offset_bits_bound(x);
    lemma_bytes_write_len(cells, a, v, (k - 1) as nat, c);
    let prev = bytes_write_cells(cells, a, v, (k - 1) as nat, c);
    if k == j + 1 {
        assert(bytes_write_cells(cells, a, v, k, c) == overwrite(prev, off, v.subrange((8 * j) as int, 8 * k as int)));
        assert(overwrite(prev, off, v.subrange((8 * j) as int, 8 * k as int)).subrange(off as int, (off + 8) as int) =~= v.subrange((8 * j) as int, (8 * j + 8) as int));
    } else {
        lemma_byte_stays(cells, a, v, j, (k - 1) as nat);
        let y = addr_plus(a, (k - 1) as nat);
        if c == cell_index(y) {
            lemma_addr_plus_value(a, (k - 1) as nat);
            lemma_addresses_differ(a, j, (k - 1) as nat);
            lemma_same_cell_offsets_differ(x, y);
            crate::cell_memory::lemma_offset_bits_bound(y);
            let off2 = offset_bits(y);
            let now = overwrite(prev, off2, v.subrange(8 * (k - 1), 8 * k as int));
            assert(bytes_write_cells(cells, a, v, k, c) == now);
            assert(now.subrange(off as int, (off + 8) as int) =~= prev.subrange(off as int, (off + 8) as int)) by {
                assert forall|t: int| 0 <= t < 8 implies #[trigger] now[off + t] == prev[off + t] by {
                    assert(off % 8 == 0 && off2 % 8 == 0);
                    assert(!(off2 <= off + t < off2 + 8));
                }
            }
        }
    }
}

/// The first `k` bytes read one at a time from `a`, after the bytes of `v`
/// are written one at a time there: the first `k` bytes of `v`.
pub proof fn lemma_bytes_read_after_write(
    new: Memory,
    cells: spec_fn(Seq<bool>) -> Seq<bool>,
    env: Env,
    a: Seq<bool>,
    v: Seq<bool>,
    n: nat,
    k: nat,
)
    requires
        a.len() == 64,
        forall|x: Seq<bool>| #[trigger] cells(x).len() == 64,
        k <= n <= address_space(),
        8 * n <= v.len(),
        forall|c: Seq<bool>| #[trigger] new.cell(env, c) == bytes_write_cells(cells, a, v, n, c),
    ensures
        new.bytes_read(env, a, k) == v.subrange(0, 8 * k as int),
    decreases k,
{
    if k == 0 {
        assert(v.subrange(0, 0) =~= Seq::<bool>::empty());
    } else {
        let j = (k - 1) as nat;
        lemma_bytes_read_after_write(new, cells, env, a, v, n, j);
        let x = addr_plus(a, j);
        lemma_addr_plus_value(a, j);
        crate::cell_memory::lemma_offset_bits_bound(x);
        lemma_byte_stays(cells, a, v, j, n);
        lemma_bytes_write_len(cells, a, v, n, cell_index(x));
        let cell = new.cell(env, cell_index(x));
        assert(new.within_read(env, x, 8) =~= cell.subrange(offset_bits(x) as int, (offset_bits(x) + 8) as int));
        assert(v.subrange(0, 8 * j as int) + v.subrange((8 * j) as int, (8 * j + 8) as int) =~= v.subrange(0, 8 * k as int));
    }
}

/// What a read gives back of a write at a symbolic address, both done a byte
/// at a time: the value written.
pub proof fn lemma_symbolic_read_after_write(new: Memory, cells: spec_fn(Seq<bool>) -> Seq<bool>, env: Env, a: Seq<bool>, v: Seq<bool>)
    requires
        a.len() == 64,
        forall|x: Seq<bool>| #[trigger] cells(x).len() == 64,
        v.len() % 8 == 0,
        v.len() <= u32::MAX,
        forall|c: Seq<bool>| #[trigger] new.cell(env, c) == bytes_write_cells(cells, a, v, v.len() / 8, c),
    ensures
        new.bytes_read(env, a, v.len() / 8) == v,
{
    let n = v.len() / 8;
    lemma_bytes_read_after_write(new, cells, env, a, v, n, n);
    assert(v.subrange(0, 8 * n as int) =~= v);
}


/// What a read gives back of a write: in every environment, reading as many
/// bits as were written, at the same address, gives the value written, for
/// values of any size and addresses of any alignment.
pub proof fn lemma_read_after_write(old: Memory, new: Memory, addr: BvTerm, val: BvTerm, env: Env)
    requires
        old.wf(),
        wf(addr),
        width(addr) == INDEX_BITS,
        wf(val),
        width(val) > CELL_BITS && const_u64(addr) is None ==> width(val) % 8 == 0,
        forall|c: Seq<bool>| #[trigger] new.cell(env, c) == Memory::written(old, env, addr, eval(val, env), c),
    ensures
        new.read_value(env, addr, width(val)) == eval(val, env),
{
    lemma_eval_len(val, env);
    lemma_read_after_write_value(old, new, addr, eval(val, env), env);
}

/// What a read gives back of a write of the bits `v`, in one environment.
pub proof fn lemma_read_after_write_value(old: Memory, new: Memory, addr: BvTerm, v: Seq<bool>, env: Env)
    requires
        old.wf(),
        wf(addr),
        width(addr) == INDEX_BITS,
        1 <= v.len() <= u32::MAX,
        v.len() > CELL_BITS && const_u64(addr) is None ==> v.len() % 8 == 0,
        forall|c: Seq<bool>| #[trigger] new.cell(env, c) == Memory::written(old, env, addr, v, c),
    ensures
        new.read_value(env, addr, v.len()) == v,
{
    let a = eval(addr, env);
    lemma_eval_len(addr, env);
    assert forall|c: Seq<bool>| #[trigger] old.cell(env, c).len() == 64 by {
        lemma_read_array_len(old.array(), env, c);
    }
    assert forall|x: Seq<bool>| #[trigger] old.cells(env)(x).len() == 64 by {
        assert(old.cells(env)(x) == old.cell(env, x));
    }
    if v.len() <= 64 {
        assert forall|c: Seq<bool>| #[trigger] new.cell(env, c) == Memory::small_write(old, env, a, v, c) by {
            assert(new.cell(env, c) == Memory::written(old, env, addr, v, c));
        }
        lemma_small_read_after_write(old, new, env, a, v);
    } else {
        match const_u64(addr) {
            Some(u) => {
                lemma2_to64();
                lemma_value_bits_of(u as nat, 64);
                lemma_small_mod(u as nat, pow2(64));
                assert(value(a) == u);
                if u % 8 == 0 {
                    assert forall|c: Seq<bool>| #[trigger] new.cell(env, c) == large_write_cells(
                        old.cells(env),
                        a,
                        v,
                        ((v.len() - 1) / 64 + 1) as nat,
                        c,
                    ) by {
                        assert(new.cell(env, c) == Memory::written(old, env, addr, v, c));
                    }
                    lemma_aligned_read_after_write(new, old.cells(env), env, a, v);
                } else {
                    let first = (8 - u % 8) as nat;
                    let cells = |x: Seq<bool>| small_write_cells(old.cells(env), a, v.subrange(0, 8 * first as int), x);
                    assert forall|c: Seq<bool>|
                        #[trigger] new.cell(env, c) == large_write_cells(
                            cells,
                            addr_plus(a, (8 - value(a) % 8) as nat),
                            v.subrange(8 * (8 - value(a) % 8), v.len() as int),
                            ((v.len() - 8 * (8 - value(a) % 8) - 1) / 64 + 1) as nat,
                            c,
                        ) by {
                        assert(new.cell(env, c) == Memory::written(old, env, addr, v, c));
                    }
                    lemma_unaligned_read_after_write(old, new, cells, env, a, v);
                }
            },
            None => {
                assert forall|c: Seq<bool>| #[trigger] new.cell(env, c) == bytes_write_cells(old.cells(env), a, v, v.len() / 8, c) by {
                    assert(new.cell(env, c) == Memory::written(old, env, addr, v, c));
                }
                lemma_symbolic_read_after_write(new, old.cells(env), env, a, v);
            },
        }
    }
}


/// Writing bytes one at a time at `a`, `a + 1`, ... up to `a + k - 1` leaves
/// the byte at `a + j` (for `j` not below `k`, and below the number of
/// addresses) as it was.
pub proof fn lemma_byte_untouched(cells: spec_fn(Seq<bool>) -> Seq<bool>, a: Seq<bool>, v: Seq<bool>, j: nat, k: nat)
    requires
        a.len() == 64,
        forall|x: Seq<bool>| #[trigger] cells(x).len() == 64,
        k <= j < address_space(),
        8 * k <= v.len(),
    ensures
        ({
            let x = addr_plus(a, j);
            &&& bytes_write_cells(cells, a, v, k, cell_index(x)).len() == 64
            &&& bytes_write_cells(cells, a, v, k, cell_index(x)).subrange(offset_bits(x) as int, (offset_bits(x) + 8) as int)
                == cells(cell_index(x)).subrange(offset_bits(x) as int, (offset_bits(x) + 8) as int)
        }),
    decreases k,
{
    let x = addr_plus(a, j);
    let c = cell_index(x);
    let off = offset_bits(x);
    lemma_addr_plus_value(a, j);
    crate::cell_memory::lemma_offset_bits_bound(x);
    lemma_bytes_write_len(cells, a, v, k, c);
    if k > 0 {
        lemma_byte_untouched(cells, a, v, j, (k - 1) as nat);
        let prev = bytes_write_cells(cells, a, v, (k - 1) as nat, c);
        let y = addr_plus(a, (k - 1) as nat);
        if c == cell_index(y) {
            lemma_addr_plus_value(a, (k - 1) as nat);
            lemma_addresses_differ(a, j, (k - 1) as nat);
            lemma_same_cell_offsets_differ(x, y);
            crate::cell_memory::lemma_offset_bits_bound(y);
            let off2 = offset_bits(y);
            let now = overwrite(prev, off2, v.subrange(8 * (k - 1), 8 * k as int));
            assert(bytes_write_cells(cells, a, v, k, c) == now);
            assert(now.subrange(off as int, (off + 8) as int) =~= prev.subrange(off as int, (off + 8) as int)) by {
                assert forall|t: int| 0 <= t < 8 implies #[trigger] now[off + t] == prev[off + t] by {
                    assert(off % 8 == 0 && off2 % 8 == 0);
                    assert(!(off2 <= off + t < off2 + 8));
                }
            }
        }
    }
}

} // verus!
