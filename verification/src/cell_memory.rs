//! A `Memory` based on an array of 64-bit cells. It handles fully general
//! read and write operations: arbitrary addresses, sizes, and alignments.
//!
//! Reads and writes build bitvector terms (see `bv_term`); their contracts
//! state what those terms mean, cell by cell, in every environment.

use std::rc::Rc;
use vstd::arithmetic::power2::{lemma2_to64, pow2};
use vstd::prelude::*;

use crate::bv_term::{addr_plus, const_u64, lemma_value_high, bits_of, element_width, eval, index_width, lemma_eval_len,
    lemma_value_append_zeros, lemma_value_bits_of, lemma_value_bound, lemma_value_prepend_zero,
    overwrite, read_array, shift_right, value, wf, wf_array, width, zeros, ArrayTerm, BvTerm, Env};
use crate::error::{Error, Result};

verus! {

/// Memory takes 64-bit indices.
pub const INDEX_BITS: u32 = 64;
/// Memory "cells" are 64 bits wide; smaller accesses are masked.
pub const CELL_BITS: u32 = 64;
/// Number of bits in a byte.
pub const BITS_IN_BYTE: u32 = 8;
/// Base-2 logarithm of `BITS_IN_BYTE`.
pub const LOG_BITS_IN_BYTE: u32 = 3;
/// Number of bytes in a cell.
pub const CELL_BYTES: u32 = 8;
/// Base-2 logarithm of `CELL_BYTES`: this many low address bits give the offset within a cell.
pub const LOG_CELL_BYTES: u32 = 3;
/// Applying this mask to an address gives its offset within its cell.
pub const CELL_OFFSET_MASK: u32 = 0x7;

/// The number of the cell holding address `a`: all but its low 3 bits.
pub open spec fn cell_index(a: Seq<bool>) -> Seq<bool> {
    a.subrange(3, 64)
}

/// The offset, in bits, of address `a` within its cell.
pub open spec fn offset_bits(a: Seq<bool>) -> nat {
    8 * value(a.subrange(0, 3))
}

/// `f` answers the nullary query with `q` and nothing else.
pub open spec fn oracle_says<F: Fn() -> Result<bool>>(f: F, q: Result<bool>) -> bool {
    forall|r: Result<bool>| #[trigger] f.ensures((), r) ==> r == q
}

/// A memory of 64-bit cells, addressed by byte.
#[derive(Clone, Debug)]
pub struct Memory {
    mem: Rc<ArrayTerm>,
    name: String,
    null_detection: bool,
}

impl Memory {
    /// The array of cells that holds the memory's contents.
    pub closed spec fn array(&self) -> ArrayTerm {
        *self.mem
    }

    /// Whether accesses are checked for possibly-null addresses.
    pub closed spec fn null_detection(&self) -> bool {
        self.null_detection
    }

    /// The memory's name.
    pub closed spec fn name(&self) -> Seq<char> {
        self.name@
    }

    /// The memory's invariant: a well-formed array of 64-bit cells indexed
    /// by cell numbers.
    pub open spec fn wf(&self) -> bool {
        &&& wf_array(self.array())
        &&& index_width(self.array()) == 61
        &&& element_width(self.array()) == 64
    }

    /// The contents of cell number `c` in environment `env`.
    pub open spec fn cell(&self, env: Env, c: Seq<bool>) -> Seq<bool> {
        read_array(self.array(), env, c)
    }

    /// `new` is a well-formed memory with the name and null detection of `old`.
    pub open spec fn same_except(new: Memory, old: Memory) -> bool {
        &&& new.wf()
        &&& new.null_detection() == old.null_detection()
        &&& new.name() == old.name()
    }

    /// A new `Memory`, whose contents at all addresses are completely
    /// uninitialized (unconstrained): the fresh array `id`.
    ///
    /// `null_detection`: if `true`, all memory accesses will be checked to ensure
    /// their addresses cannot be NULL, throwing `Error::NullPointerDereference`
    /// if NULL is a possible solution for the address
    ///
    /// `name`: a name for this `Memory`, or `None` to use the default name (as of this writing, 'mem')
    ///
    /// `addr_bits`: must be `64`: this `Memory` is only compatible with 64-bit pointers.
    pub fn new_uninitialized(id: u64, null_detection: bool, name: Option<&str>, addr_bits: u32) -> (r: Self)
        requires
            addr_bits == INDEX_BITS,
        ensures
            r.wf(),
            r.array() == ArrayTerm::Fresh(id, 61, 64),
            r.null_detection() == null_detection,
            r.name() == (match name {
                Some(n) => n@,
                None => "mem"@,
            }),
    {
        let name = match name {
            Some(n) => n.to_owned(),
            None => "mem".to_owned(),
        };
        Memory { mem: Rc::new(ArrayTerm::Fresh(id, INDEX_BITS - LOG_CELL_BYTES, CELL_BITS)), name, null_detection }
    }

    /// A new `Memory`, whose contents at all addresses are initialized to be `0`
    ///
    /// `null_detection`: as for `new_uninitialized`.
    ///
    /// `name`: a name for this `Memory`, or `None` to use the default name (as of this writing, 'mem_initialized')
    ///
    /// `addr_bits`: must be `64`: this `Memory` is only compatible with 64-bit pointers.
    pub fn new_zero_initialized(null_detection: bool, name: Option<&str>, addr_bits: u32) -> (r: Self)
        requires
            addr_bits == INDEX_BITS,
        ensures
            r.wf(),
            forall|env: Env, c: Seq<bool>| #[trigger] r.cell(env, c) == zeros(64),
            r.null_detection() == null_detection,
            r.name() == (match name {
                Some(n) => n@,
                None => "mem_initialized"@,
            }),
    {
        let name = match name {
            Some(n) => n.to_owned(),
            None => "mem_initialized".to_owned(),
        };
        let zero = BvTerm::Zero(CELL_BITS);
        let arr = ArrayTerm::Filled(INDEX_BITS - LOG_CELL_BYTES, Box::new(zero));
        assert(wf(zero) && width(zero) == 64);
        assert(wf_array(arr));
        let r = Memory { mem: Rc::new(arr), name, null_detection };
        assert forall|env: Env, c: Seq<bool>| #[trigger] r.cell(env, c) == zeros(64) by {
            assert(read_array(arr, env, c) == eval(zero, env));
            assert(eval(zero, env) =~= zeros(64));
        }
        r
    }

    /// The term for the cell number of address `addr`.
    fn cell_num(addr: &BvTerm) -> (r: BvTerm)
        requires
            wf(*addr),
            width(*addr) == 64,
        ensures
            wf(r),
            width(r) == 61,
            forall|env: Env| #[trigger] eval(r, env) == cell_index(eval(*addr, env)),
    {
        BvTerm::Slice(Box::new(addr.clone()), INDEX_BITS - 1, LOG_CELL_BYTES)
    }

    /// Read an entire cell from the given address.
    /// If address is not cell-aligned, this will give the entire cell _containing_ that address.
    fn read_cell(&self, addr: &BvTerm) -> (r: BvTerm)
        requires
            self.wf(),
            wf(*addr),
            width(*addr) == 64,
        ensures
            wf(r),
            width(r) == 64,
            forall|env: Env| #[trigger] eval(r, env) == self.cell(env, cell_index(eval(*addr, env))),
    {
        let c = Self::cell_num(addr);
        let r = BvTerm::Read(self.mem.clone(), Box::new(c));
        assert forall|env: Env| #[trigger] eval(r, env) == self.cell(env, cell_index(eval(*addr, env))) by {
            assert(eval(c, env) == cell_index(eval(*addr, env)));
        }
        r
    }

    /// Write an entire cell to the given address.
    /// If address is not cell-aligned, this will write to the cell _containing_ that address.
    fn write_cell(&mut self, addr: &BvTerm, val: BvTerm)
        requires
            old(self).wf(),
            wf(*addr),
            width(*addr) == 64,
            wf(val),
            width(val) == 64,
        ensures
            Self::same_except(*final(self), *old(self)),
            forall|env: Env, c: Seq<bool>| #[trigger] final(self).cell(env, c) == if c == cell_index(eval(*addr, env)) {
                eval(val, env)
            } else {
                old(self).cell(env, c)
            },
    {
        let c = Self::cell_num(addr);
        let m = self.mem.clone();
        self.mem = Rc::new(ArrayTerm::Write(m, Box::new(c), Box::new(val)));
        assert forall|env: Env, cc: Seq<bool>| #[trigger] self.cell(env, cc) == if cc == cell_index(eval(*addr, env)) {
            eval(val, env)
        } else {
            old(self).cell(env, cc)
        } by {
            assert(eval(c, env) == cell_index(eval(*addr, env)));
        }
    }

    /// The term for the offset, in bits, of `addr` within its cell, as a
    /// bitvector of `w` bits.
    fn offset_term(addr: &BvTerm, w: u32) -> (r: BvTerm)
        requires
            wf(*addr),
            width(*addr) == 64,
            w == 64 || w == 128,
        ensures
            wf(r),
            width(r) == w,
            forall|env: Env| #[trigger] value(eval(r, env)) == offset_bits(eval(*addr, env)),
    {
        let low = BvTerm::Slice(Box::new(addr.clone()), LOG_CELL_BYTES - 1, 0);  // the actual offset part of the address
        let ext = BvTerm::Uext(Box::new(low), w - LOG_CELL_BYTES);  // zero-extend
        let three = BvTerm::Const(LOG_BITS_IN_BYTE as u64, w);
        let r = BvTerm::Sll(Box::new(ext), Box::new(three));  // offset in bits rather than bytes
        assert(wf(low));
        assert(wf(ext));
        assert(wf(three));
        assert forall|env: Env| #[trigger] value(eval(r, env)) == offset_bits(eval(*addr, env)) by {
            lemma_eval_len(*addr, env);
            let a = eval(*addr, env);
            let x = a.subrange(0, 3);
            lemma_value_bits_of(3, w as nat);
            lemma2_to64();
            assert(pow2(w as nat) > 3) by {
                vstd::arithmetic::power2::lemma_pow2_strictly_increases(2, w as nat);
            }
            vstd::arithmetic::div_mod::lemma_small_mod(3, pow2(w as nat));
            assert(eval(three, env) == bits_of(3, w as nat));
            assert(value(eval(three, env)) == 3);
            let shifted = eval(r, env);
            let t = x + zeros((w - 6) as nat);
            let e = eval(ext, env);
            assert(eval(low, env) == x);
            assert(e == x + zeros((w - 3) as nat));
            assert(shifted == Seq::new(e.len(), |k: int| k >= 3 && e[k - 3]));
            assert(shifted =~= seq![false] + (seq![false] + (seq![false] + t)));
            lemma_value_prepend_zero(seq![false] + (seq![false] + t));
            lemma_value_prepend_zero(seq![false] + t);
            lemma_value_prepend_zero(t);
            lemma_value_append_zeros(x, (w - 6) as nat);
        }
        r
    }

    /// The term for `x` shifted left by `off` within `w` bits, after
    /// zero-extending `x` to `w` bits.
    fn placed(x: BvTerm, off: &BvTerm, w: u32) -> (r: BvTerm)
        requires
            wf(x),
            1 <= width(x) <= w,
            wf(*off),
            width(*off) == w,
        ensures
            wf(r),
            width(r) == w,
            forall|env: Env| #[trigger] eval(r, env) == Seq::new(w as nat, |k: int| {
                let n = value(eval(*off, env));
                n <= k < n + width(x) && eval(x, env)[k - n]
            }),
    {
        let xw = x.get_width();
        let ghost xt = x;
        let ext = BvTerm::Uext(Box::new(x), w - xw);
        let r = BvTerm::Sll(Box::new(ext), Box::new(off.clone()));
        assert(wf(ext));
        assert forall|env: Env| #[trigger] eval(r, env) == Seq::new(w as nat, |k: int| {
            let n = value(eval(*off, env));
            n <= k < n + width(xt) && eval(xt, env)[k - n]
        }) by {
            lemma_eval_len(xt, env);
            assert(eval(ext, env) == eval(xt, env) + zeros((w - xw) as nat));
            assert(eval(r, env) =~= Seq::new(w as nat, |k: int| {
                let n = value(eval(*off, env));
                n <= k < n + width(xt) && eval(xt, env)[k - n]
            }));
        }
        r
    }

    /// Read any number of bits of memory, at any alignment, but not crossing cell boundaries.
    /// The returned term has width `bits`.
    fn read_within_cell(&self, addr: &BvTerm, bits: u32) -> (r: BvTerm)
        requires
            self.wf(),
            wf(*addr),
            width(*addr) == 64,
            1 <= bits <= CELL_BITS,
        ensures
            wf(r),
            width(r) == bits,
            forall|env: Env| #[trigger] eval(r, env) == if bits == CELL_BITS {
                self.cell(env, cell_index(eval(*addr, env)))
            } else {
                shift_right(self.cell(env, cell_index(eval(*addr, env))), offset_bits(eval(*addr, env))).subrange(0, bits as int)
            },
    {
        let cell_contents = self.read_cell(addr);
        if bits == CELL_BITS {
            cell_contents  // shortcut to avoid more BV operations
        } else {
            let offset = Self::offset_term(addr, CELL_BITS);
            let ghost c = cell_contents;
            // We can't `slice` at a non-const location, but we can shift by a non-const amount
            let shifted = BvTerm::Srl(Box::new(cell_contents), Box::new(offset));
            let r = BvTerm::Slice(Box::new(shifted), bits - 1, 0);
            assert(wf(shifted));
            assert(wf(r));
            assert forall|env: Env| #[trigger] eval(r, env) == shift_right(self.cell(env, cell_index(eval(*addr, env))), offset_bits(eval(*addr, env))).subrange(0, bits as int) by {
                lemma_eval_len(c, env);
                assert(eval(c, env) == self.cell(env, cell_index(eval(*addr, env))));
                assert(value(eval(offset, env)) == offset_bits(eval(*addr, env)));
                assert(eval(shifted, env) =~= shift_right(eval(c, env), offset_bits(eval(*addr, env))));
            }
            r
        }
    }

    /// Write any number of bits of memory, at any alignment, but not crossing cell boundaries.
    fn write_within_cell(&mut self, addr: &BvTerm, val: BvTerm)
        requires
            old(self).wf(),
            wf(*addr),
            width(*addr) == 64,
            wf(val),
            1 <= width(val) <= CELL_BITS,
        ensures
            Self::same_except(*final(self), *old(self)),
            forall|env: Env, c: Seq<bool>| #[trigger] final(self).cell(env, c) == if c == cell_index(eval(*addr, env)) {
                if width(val) == CELL_BITS {
                    eval(val, env)
                } else {
                    overwrite(old(self).cell(env, c), offset_bits(eval(*addr, env)), eval(val, env))
                }
            } else {
                old(self).cell(env, c)
            },
    {
        let write_size = val.get_width();
        let ghost v = val;
        let data_to_write = if write_size == CELL_BITS {
            val  // shortcut to avoid more BV operations
        } else {
            let offset = Self::offset_term(addr, CELL_BITS);
            // mask_clear is 0's in the bit positions that will be written, 1's elsewhere.
            let ones_at = Self::placed(BvTerm::Ones(write_size), &offset, CELL_BITS);
            let mask_clear = BvTerm::Not(Box::new(ones_at));
            // mask_write is the write data in its appropriate bit positions, 0's elsewhere.
            let mask_write = Self::placed(val, &offset, CELL_BITS);
            let old_cell = self.read_cell(addr);
            let cleared = BvTerm::And(Box::new(old_cell), Box::new(mask_clear));
            let d = BvTerm::Or(Box::new(cleared), Box::new(mask_write));
            assert(wf(mask_clear));
            assert(wf(cleared));
            assert(wf(d));
            assert forall|env: Env| #[trigger] eval(d, env) == overwrite(self.cell(env, cell_index(eval(*addr, env))), offset_bits(eval(*addr, env)), eval(v, env)) by {
                lemma_eval_len(v, env);
                lemma_eval_len(old_cell, env);
                assert(eval(old_cell, env) == self.cell(env, cell_index(eval(*addr, env))));
                assert(value(eval(offset, env)) == offset_bits(eval(*addr, env)));
                let n = offset_bits(eval(*addr, env));
                assert(eval(BvTerm::Ones(write_size), env) =~= Seq::new(write_size as nat, |k: int| true));
                assert(eval(ones_at, env) == Seq::new(64nat, |k: int| n <= k < n + write_size && eval(BvTerm::Ones(write_size), env)[k - n]));
                assert(eval(mask_write, env) == Seq::new(64nat, |k: int| n <= k < n + width(v) && eval(v, env)[k - n]));
                lemma_eval_len(ones_at, env);
                assert(eval(mask_clear, env) == Seq::new(64nat, |k: int| !eval(ones_at, env)[k]));
                assert(eval(cleared, env) == Seq::new(64nat, |k: int| eval(old_cell, env)[k] && eval(mask_clear, env)[k]));
                assert(eval(d, env) == Seq::new(64nat, |k: int| eval(cleared, env)[k] || eval(mask_write, env)[k]));
                let ov = overwrite(self.cell(env, cell_index(eval(*addr, env))), offset_bits(eval(*addr, env)), eval(v, env));
                assert forall|k: int| 0 <= k < 64 implies #[trigger] eval(d, env)[k] == ov[k] by {
                    if n <= k < n + write_size {
                        assert(eval(ones_at, env)[k]);
                    } else {
                        assert(!eval(ones_at, env)[k]);
                        assert(!eval(mask_write, env)[k]);
                    }
                }
                assert(eval(d, env) =~= overwrite(self.cell(env, cell_index(eval(*addr, env))), offset_bits(eval(*addr, env)), eval(v, env)));
            }
            d
        };
        let ghost before = *self;
        self.write_cell(addr, data_to_write);
    }

    /// The term for the address of the next cell: `addr + 8`.
    fn next_cell_addr(addr: &BvTerm) -> (r: BvTerm)
        requires
            wf(*addr),
            width(*addr) == 64,
        ensures
            wf(r),
            width(r) == 64,
            forall|env: Env| #[trigger] eval(r, env) == addr_plus(eval(*addr, env), 8),
    {
        let eight = BvTerm::Const(CELL_BYTES as u64, INDEX_BITS);
        let r = BvTerm::Add(Box::new(addr.clone()), Box::new(eight));
        assert(wf(eight));
        assert forall|env: Env| #[trigger] eval(r, env) == addr_plus(eval(*addr, env), 8) by {
            lemma_eval_len(*addr, env);
            assert(eval(eight, env) == bits_of(8, 64));
            assert(eval(r, env) == bits_of(value(eval(*addr, env)) + value(eval(eight, env)), 64));
        }
        r
    }

    /// What `read_small` gives: `bits` bits starting at `a`, taken from its
    /// cell, and from the next cell if more than a byte is read.
    pub open spec fn small_read(&self, env: Env, a: Seq<bool>, bits: nat) -> Seq<bool> {
        if bits <= 8 {
            shift_right(self.cell(env, cell_index(a)), offset_bits(a)).subrange(0, bits as int)
        } else {
            shift_right(self.cell(env, cell_index(a)) + self.cell(env, cell_index(addr_plus(a, 8))), offset_bits(a)).subrange(0, bits as int)
        }
    }

    /// Read up to a cell size's worth of memory, at any alignment. May cross cell boundaries.
    /// The returned term has width `bits`.
    fn read_small(&self, addr: &BvTerm, bits: u32) -> (r: BvTerm)
        requires
            self.wf(),
            wf(*addr),
            width(*addr) == 64,
            1 <= bits <= CELL_BITS,
        ensures
            wf(r),
            width(r) == bits,
            forall|env: Env| #[trigger] eval(r, env) == self.small_read(env, eval(*addr, env), bits as nat),
    {
        if bits <= BITS_IN_BYTE {
            // In this case we can't possibly cross cell boundaries
            self.read_within_cell(addr, bits)
        } else {
            // We'll read this cell and the next cell, which between them must have all the data we need
            let next = Self::next_cell_addr(addr);
            let high = self.read_cell(&next);
            let low = self.read_cell(addr);
            let merged = BvTerm::Concat(Box::new(high), Box::new(low));
            let offset = Self::offset_term(addr, 2 * CELL_BITS);
            let shifted = BvTerm::Srl(Box::new(merged), Box::new(offset));
            let r = BvTerm::Slice(Box::new(shifted), bits - 1, 0);
            assert(wf(merged));
            assert(wf(shifted));
            assert(wf(r));
            assert forall|env: Env| #[trigger] eval(r, env) == self.small_read(env, eval(*addr, env), bits as nat) by {
                let a = eval(*addr, env);
                assert(eval(next, env) == addr_plus(a, 8));
                assert(eval(high, env) == self.cell(env, cell_index(addr_plus(a, 8))));
                assert(eval(low, env) == self.cell(env, cell_index(a)));
                assert(value(eval(offset, env)) == offset_bits(a));
                lemma_eval_len(merged, env);
                assert(eval(shifted, env) =~= shift_right(eval(merged, env), offset_bits(a)));
            }
            r
        }
    }

    /// Write up to a cell size's worth of memory, at any alignment. May cross cell boundaries.
    fn write_small(&mut self, addr: &BvTerm, val: BvTerm)
        requires
            old(self).wf(),
            wf(*addr),
            width(*addr) == 64,
            wf(val),
            1 <= width(val) <= CELL_BITS,
        ensures
            Self::same_except(*final(self), *old(self)),
            forall|env: Env, c: Seq<bool>| #[trigger] final(self).cell(env, c) == Self::small_write(*old(self), env, eval(*addr, env), eval(val, env), c),
    {
        let write_size = val.get_width();
        let ghost v = val;
        if write_size <= BITS_IN_BYTE {
            // In this case we can't possibly cross cell boundaries
            self.write_within_cell(addr, val);
            assert forall|env: Env, c: Seq<bool>| #[trigger] self.cell(env, c) == Self::small_write(*old(self), env, eval(*addr, env), eval(v, env), c) by {
                lemma_eval_len(v, env);
            }
        } else {
            // We'll allow for the possibility that the write crosses into the next cell
            let next = Self::next_cell_addr(addr);
            let offset = Self::offset_term(addr, 2 * CELL_BITS);
            let ones_at = Self::placed(BvTerm::Ones(write_size), &offset, 2 * CELL_BITS);
            let mask_clear = BvTerm::Not(Box::new(ones_at));
            let mask_write = Self::placed(val, &offset, 2 * CELL_BITS);
            let high = self.read_cell(&next);
            let low = self.read_cell(addr);
            let merged = BvTerm::Concat(Box::new(high), Box::new(low));  // existing data in the two cells
            let cleared = BvTerm::And(Box::new(merged), Box::new(mask_clear));
            let data_to_write = BvTerm::Or(Box::new(cleared), Box::new(mask_write));
            assert(wf(merged));
            assert(wf(mask_clear));
            assert(wf(cleared));
            assert(wf(data_to_write));
            let ghost old_mem = *self;
            assert forall|env: Env| #[trigger] eval(data_to_write, env) == overwrite(
                old_mem.cell(env, cell_index(eval(*addr, env))) + old_mem.cell(env, cell_index(addr_plus(eval(*addr, env), 8))),
                offset_bits(eval(*addr, env)),
                eval(v, env),
            ) by {
                let a = eval(*addr, env);
                let n = offset_bits(a);
                lemma_eval_len(v, env);
                lemma_eval_len(merged, env);
                lemma_eval_len(ones_at, env);
                assert(eval(next, env) == addr_plus(a, 8));
                assert(eval(high, env) == old_mem.cell(env, cell_index(addr_plus(a, 8))));
                assert(eval(low, env) == old_mem.cell(env, cell_index(a)));
                assert(value(eval(offset, env)) == n);
                assert(eval(BvTerm::Ones(write_size), env) =~= Seq::new(write_size as nat, |k: int| true));
                assert(eval(ones_at, env) == Seq::new(128nat, |k: int| n <= k < n + write_size && eval(BvTerm::Ones(write_size), env)[k - n]));
                assert(eval(mask_write, env) == Seq::new(128nat, |k: int| n <= k < n + width(v) && eval(v, env)[k - n]));
                assert(eval(mask_clear, env) == Seq::new(128nat, |k: int| !eval(ones_at, env)[k]));
                assert(eval(cleared, env) == Seq::new(128nat, |k: int| eval(merged, env)[k] && eval(mask_clear, env)[k]));
                assert(eval(data_to_write, env) == Seq::new(128nat, |k: int| eval(cleared, env)[k] || eval(mask_write, env)[k]));
                let ov = overwrite(eval(merged, env), n, eval(v, env));
                assert forall|k: int| 0 <= k < 128 implies #[trigger] eval(data_to_write, env)[k] == ov[k] by {
                    if n <= k < n + write_size {
                        assert(eval(ones_at, env)[k]);
                    } else {
                        assert(!eval(ones_at, env)[k]);
                        assert(!eval(mask_write, env)[k]);
                    }
                }
                assert(eval(data_to_write, env) =~= ov);
            }
            let ghost dt = data_to_write;
            let first = BvTerm::Slice(Box::new(data_to_write.clone()), CELL_BITS - 1, 0);
            let second = BvTerm::Slice(Box::new(data_to_write), 2 * CELL_BITS - 1, CELL_BITS);
            self.write_cell(addr, first);  // first cell gets the low bits
            let ghost mid = *self;
            self.write_cell(&next, second);  // second cell gets the high bits
            assert forall|env: Env, c: Seq<bool>| #[trigger] self.cell(env, c) == Self::small_write(old_mem, env, eval(*addr, env), eval(v, env), c) by {
                let a = eval(*addr, env);
                lemma_eval_len(v, env);
                assert(eval(next, env) == addr_plus(a, 8));
                assert(eval(dt, env) == overwrite(
                    old_mem.cell(env, cell_index(a)) + old_mem.cell(env, cell_index(addr_plus(a, 8))),
                    offset_bits(a),
                    eval(v, env),
                ));
                assert(eval(first, env) == eval(dt, env).subrange(0, 64));
                assert(eval(second, env) == eval(dt, env).subrange(64, 128));
                assert(self.cell(env, c) == if c == cell_index(eval(next, env)) { eval(second, env) } else { mid.cell(env, c) });
                assert(mid.cell(env, c) == if c == cell_index(a) { eval(first, env) } else { old_mem.cell(env, c) });
            }
        }
    }

    /// The contents of cell `c` after `write_small` of `v` at address `a` over `old`.
    pub open spec fn small_write(old: Memory, env: Env, a: Seq<bool>, v: Seq<bool>, c: Seq<bool>) -> Seq<bool> {
        small_write_cells(|x: Seq<bool>| old.cell(env, x), a, v, c)
    }

    /// What `read_within_cell` gives: `bits` bits at address `x`, from its cell.
    pub open spec fn within_read(&self, env: Env, x: Seq<bool>, bits: nat) -> Seq<bool> {
        if bits == 64 {
            self.cell(env, cell_index(x))
        } else {
            shift_right(self.cell(env, cell_index(x)), offset_bits(x)).subrange(0, bits as int)
        }
    }

    /// The first `k` whole cells from (cell-aligned) address `a`.
    pub open spec fn full_cells(&self, env: Env, a: Seq<bool>, k: nat) -> Seq<bool>
        decreases k,
    {
        if k == 0 {
            Seq::empty()
        } else {
            self.full_cells(env, a, (k - 1) as nat) + self.cell(env, cell_index(addr_plus(a, 8 * (k - 1) as nat)))
        }
    }

    /// What `read_large_aligned` gives: whole cells from `a`, then the bits
    /// that remain from the next cell.
    pub open spec fn large_read(&self, env: Env, a: Seq<bool>, bits: nat) -> Seq<bool> {
        let full = ((bits - 1) / 64) as nat;
        let last = ((bits - 1) % 64 + 1) as nat;
        self.full_cells(env, a, full) + self.within_read(env, addr_plus(a, 8 * full), last)
    }

    /// The first `k` bytes from address `a`, each read within its cell.
    pub open spec fn bytes_read(&self, env: Env, a: Seq<bool>, k: nat) -> Seq<bool>
        decreases k,
    {
        if k == 0 {
            Seq::empty()
        } else {
            self.bytes_read(env, a, (k - 1) as nat) + self.within_read(env, addr_plus(a, (k - 1) as nat), 8)
        }
    }

    /// The term for address `addr + k`.
    fn offset_addr(addr: &BvTerm, k: u64) -> (r: BvTerm)
        requires
            wf(*addr),
            width(*addr) == 64,
        ensures
            wf(r),
            width(r) == 64,
            forall|env: Env| #[trigger] eval(r, env) == addr_plus(eval(*addr, env), k as nat),
    {
        let c = BvTerm::Const(k, INDEX_BITS);
        let r = BvTerm::Add(Box::new(addr.clone()), Box::new(c));
        assert(wf(c));
        assert forall|env: Env| #[trigger] eval(r, env) == addr_plus(eval(*addr, env), k as nat) by {
            lemma_eval_len(*addr, env);
            assert(eval(c, env) == bits_of(k as nat, 64));
            assert(eval(r, env) == bits_of(value(eval(*addr, env)) + value(eval(c, env)), 64));
        }
        r
    }

    /// Read any number (>0) of bits of memory, but `addr` must be cell-aligned.
    /// The returned term has width `bits`.
    fn read_large_aligned(&self, addr: &BvTerm, bits: u32) -> (r: BvTerm)
        requires
            self.wf(),
            wf(*addr),
            width(*addr) == 64,
            bits >= 1,
        ensures
            wf(r),
            width(r) == bits,
            forall|env: Env| #[trigger] eval(r, env) == self.large_read(env, eval(*addr, env), bits as nat),
    {
        let num_full_cells = (bits - 1) / CELL_BITS;
        let bits_in_last_cell = (bits - 1) % CELL_BITS + 1;
        let mut acc: Option<BvTerm> = None;
        let mut i: u32 = 0;
        while i < num_full_cells
            invariant
                self.wf(),
                wf(*addr),
                width(*addr) == 64,
                num_full_cells == (bits - 1) / 64,
                i <= num_full_cells,
                i == 0 <==> acc is None,
                acc matches Some(t) ==> wf(t) && width(t) == 64 * i && forall|env: Env| #[trigger] eval(t, env) == self.full_cells(env, eval(*addr, env), i as nat),
            decreases num_full_cells - i,
        {
            let offset_bytes: u64 = i as u64 * CELL_BYTES as u64;
            let cell_addr = Self::offset_addr(addr, offset_bytes);
            let piece = self.read_within_cell(&cell_addr, CELL_BITS);
            let ghost a = *addr;
            acc = match acc {
                None => {
                    assert forall|env: Env| #[trigger] eval(piece, env) == self.full_cells(env, eval(a, env), 1) by {
                        assert(self.full_cells(env, eval(a, env), 0) == Seq::<bool>::empty());
                        assert(eval(cell_addr, env) == addr_plus(eval(a, env), 0));
                        assert(self.full_cells(env, eval(a, env), 1) =~= Seq::<bool>::empty() + self.cell(env, cell_index(addr_plus(eval(a, env), 0))));
                    }
                    Some(piece)
                },
                Some(prev) => {
                    let t = BvTerm::Concat(Box::new(piece), Box::new(prev));
                    assert forall|env: Env| #[trigger] eval(t, env) == self.full_cells(env, eval(a, env), (i + 1) as nat) by {
                        assert(eval(cell_addr, env) == addr_plus(eval(a, env), (8 * i) as nat));
                        assert(eval(piece, env) == self.cell(env, cell_index(eval(cell_addr, env))));
                        assert(eval(prev, env) == self.full_cells(env, eval(a, env), i as nat));
                    }
                    Some(t)
                },
            };
            i = i + 1;
        }
        assert(num_full_cells as u64 * CELL_BYTES as u64 <= u32::MAX as u64 * 8) by (nonlinear_arith)
            requires
                num_full_cells <= u32::MAX,
                CELL_BYTES == 8,
        ;
        let offset_bytes: u64 = num_full_cells as u64 * CELL_BYTES as u64;
        let last_addr = Self::offset_addr(addr, offset_bytes);
        let last = self.read_within_cell(&last_addr, bits_in_last_cell);
        let ghost a = *addr;
        match acc {
            None => {
                assert forall|env: Env| #[trigger] eval(last, env) == self.large_read(env, eval(a, env), bits as nat) by {
                    assert(eval(last_addr, env) == addr_plus(eval(a, env), 0));
                    assert(eval(last, env) == self.within_read(env, eval(last_addr, env), bits_in_last_cell as nat));
                    assert(self.full_cells(env, eval(a, env), 0) == Seq::<bool>::empty());
                    assert(self.large_read(env, eval(a, env), bits as nat) =~= Seq::<bool>::empty() + self.within_read(env, addr_plus(eval(a, env), 0), bits_in_last_cell as nat));
                }
                last
            },
            Some(prev) => {
                let r = BvTerm::Concat(Box::new(last), Box::new(prev));
                assert forall|env: Env| #[trigger] eval(r, env) == self.large_read(env, eval(a, env), bits as nat) by {
                    assert(eval(last_addr, env) == addr_plus(eval(a, env), (8 * num_full_cells) as nat));
                    assert(eval(prev, env) == self.full_cells(env, eval(a, env), num_full_cells as nat));
                    assert(eval(last, env) == self.within_read(env, eval(last_addr, env), bits_in_last_cell as nat));
                    assert(eval(r, env) == eval(prev, env) + eval(last, env));
                }
                r
            },
        }
    }

    /// The contents of cell `c` after writing the first `k` pieces of
    /// `write_large_aligned` of `v` at address `a` over `old`.
    pub open spec fn large_written(old: Memory, env: Env, a: Seq<bool>, v: Seq<bool>, k: nat, c: Seq<bool>) -> Seq<bool> {
        large_write_cells(|x: Seq<bool>| old.cell(env, x), a, v, k, c)
    }

    /// Write any number (>0) of bits of memory, but `addr` must be cell-aligned.
    fn write_large_aligned(&mut self, addr: &BvTerm, val: BvTerm)
        requires
            old(self).wf(),
            wf(*addr),
            width(*addr) == 64,
            wf(val),
        ensures
            Self::same_except(*final(self), *old(self)),
            forall|env: Env, c: Seq<bool>| #[trigger] final(self).cell(env, c) == Self::large_written(
                *old(self),
                env,
                eval(*addr, env),
                eval(val, env),
                ((width(val) - 1) / 64 + 1) as nat,
                c,
            ),
    {
        let write_size = val.get_width();
        let num_full_cells = (write_size - 1) / CELL_BITS;
        let bits_in_last_cell = (write_size - 1) % CELL_BITS + 1;
        let ghost old_mem = *self;
        let ghost v = val;
        let mut i: u32 = 0;
        assert(num_full_cells <= 0x400_0000);
        while i <= num_full_cells
            invariant
                old_mem.wf(),
                Self::same_except(*self, old_mem),
                wf(*addr),
                width(*addr) == 64,
                wf(val),
                val == v,
                write_size == width(v),
                num_full_cells == (write_size - 1) / 64,
                bits_in_last_cell == (write_size - 1) % 64 + 1,
                num_full_cells <= 0x400_0000,
                i <= num_full_cells + 1,
                forall|env: Env, c: Seq<bool>| #[trigger] self.cell(env, c) == Self::large_written(
                    old_mem,
                    env,
                    eval(*addr, env),
                    eval(v, env),
                    i as nat,
                    c,
                ),
            decreases num_full_cells + 1 - i,
        {
            assert(i <= 0x400_0000);
            let sz: u32 = if i < num_full_cells { CELL_BITS } else { bits_in_last_cell };
            let offset_bytes: u64 = (i as u64) * 8;
            let offset_bits_in_val: u32 = i * CELL_BITS;
            let write_data = BvTerm::Slice(Box::new(val.clone()), sz + offset_bits_in_val - 1, offset_bits_in_val);
            let cell_addr = Self::offset_addr(addr, offset_bytes);
            let ghost before = *self;
            self.write_within_cell(&cell_addr, write_data);
            assert forall|env: Env, c: Seq<bool>| #[trigger] self.cell(env, c) == Self::large_written(
                old_mem,
                env,
                eval(*addr, env),
                eval(v, env),
                (i + 1) as nat,
                c,
            ) by {
                lemma_eval_len(v, env);
                assert(eval(cell_addr, env) == addr_plus(eval(*addr, env), (8 * i) as nat));
                assert(eval(write_data, env) == eval(v, env).subrange(offset_bits_in_val as int, sz + offset_bits_in_val));
                assert(before.cell(env, c) == Self::large_written(old_mem, env, eval(*addr, env), eval(v, env), i as nat, c));
            }
            i = i + 1;
        }
    }

    /// The cells of the memory in environment `env`.
    pub open spec fn cells(&self, env: Env) -> spec_fn(Seq<bool>) -> Seq<bool> {
        |x: Seq<bool>| self.cell(env, x)
    }

    /// What `read` of `bits` bits at address term `addr` gives.
    pub open spec fn read_value(&self, env: Env, addr: BvTerm, bits: nat) -> Seq<bool> {
        let a = eval(addr, env);
        if bits <= 64 {
            self.small_read(env, a, bits)
        } else {
            match const_u64(addr) {
                Some(u) => if u % 8 == 0 {
                    self.large_read(env, a, bits)
                } else {
                    let first = (8 - u % 8) as nat;
                    self.small_read(env, a, 8 * first) + self.large_read(env, addr_plus(a, first), (bits - 8 * first) as nat)
                },
                None => self.bytes_read(env, a, bits / 8),
            }
        }
    }

    /// The contents of cell `c` after `write` of `v` at address term `addr`
    /// over `old`.
    pub open spec fn written(old: Memory, env: Env, addr: BvTerm, v: Seq<bool>, c: Seq<bool>) -> Seq<bool> {
        let a = eval(addr, env);
        let ws = v.len();
        if ws <= 64 {
            small_write_cells(old.cells(env), a, v, c)
        } else {
            match const_u64(addr) {
                Some(u) => if u % 8 == 0 {
                    large_write_cells(old.cells(env), a, v, ((ws - 1) / 64 + 1) as nat, c)
                } else {
                    let first = (8 - u % 8) as nat;
                    let rest = v.subrange(8 * first as int, ws as int);
                    large_write_cells(
                        |x: Seq<bool>| small_write_cells(old.cells(env), a, v.subrange(0, 8 * first as int), x),
                        addr_plus(a, first),
                        rest,
                        ((rest.len() - 1) / 64 + 1) as nat,
                        c,
                    )
                },
                None => bytes_write_cells(old.cells(env), a, v, ws / 8, c),
            }
        }
    }

    /// Read any number (>0) of bits of memory, at any alignment.
    /// The returned term has width `bits`.
    ///
    /// `can_be_null` asks the solver whether the address can be NULL; it is
    /// only asked when the memory checks for null addresses, and a `true`
    /// answer gives `Error::NullPointerDereference`.
    pub fn read<F: Fn() -> Result<bool>>(&self, addr: &BvTerm, bits: u32, can_be_null: F) -> (r: Result<BvTerm>)
        requires
            self.wf(),
            wf(*addr),
            width(*addr) == INDEX_BITS,
            bits >= 1,
            bits > CELL_BITS && const_u64(*addr) is None ==> bits % 8 == 0,
            self.null_detection() ==> can_be_null.requires(()),
        ensures
            r matches Ok(t) ==> {
                &&& wf(t)
                &&& width(t) == bits
                &&& forall|env: Env| #[trigger] eval(t, env) == self.read_value(env, *addr, bits as nat)
            },
            !self.null_detection() ==> r is Ok,
            self.null_detection() && r is Ok ==> can_be_null.ensures((), Ok(false)),
            r matches Err(e) ==> self.null_detection() && (can_be_null.ensures((), Err(e)) || (e
                == Error::NullPointerDereference && can_be_null.ensures((), Ok(true)))),
    {
        if self.null_detection {
            let null_possible = can_be_null()?;
            if null_possible {
                return Err(Error::NullPointerDereference);
            }
        }
        let rval = if bits <= CELL_BITS {
            // special-case small reads because read_small() can handle them directly and efficiently
            self.read_small(addr, bits)
        } else {
            // Let's see if we can refactor this into a small read plus a large cell-aligned read
            match addr.as_u64() {
                Some(addr_u64) => {
                    // addr is a constant
                    let cell_offset = addr_u64 & (CELL_OFFSET_MASK as u64);
                    assert(addr_u64 & 7 == addr_u64 % 8) by (bit_vector);
                    if cell_offset == 0 {
                        // the address is cell-aligned, and we're free to do the large read
                        self.read_large_aligned(addr, bits)
                    } else {
                        let bytes_till_cell_boundary = CELL_BYTES as u64 - cell_offset;
                        // first read the remainder of the cell to bring us to a cell boundary
                        let first = self.read_small(addr, bytes_till_cell_boundary as u32 * BITS_IN_BYTE);
                        // now read the rest, which will be a cell-aligned read
                        let next_cell_addr = Self::offset_addr(addr, bytes_till_cell_boundary);
                        let rest = self.read_large_aligned(&next_cell_addr, bits - bytes_till_cell_boundary as u32 * BITS_IN_BYTE);
                        let r = BvTerm::Concat(Box::new(rest), Box::new(first));
                        assert forall|env: Env| #[trigger] eval(r, env) == self.read_value(env, *addr, bits as nat) by {
                            assert(const_u64(*addr) == Some(addr_u64));
                            assert(eval(next_cell_addr, env) == addr_plus(eval(*addr, env), bytes_till_cell_boundary as nat));
                            assert(eval(first, env) == self.small_read(env, eval(*addr, env), (bytes_till_cell_boundary * 8) as nat));
                            assert(eval(rest, env) == self.large_read(env, eval(next_cell_addr, env), (bits - bytes_till_cell_boundary * 8) as nat));
                            assert(eval(r, env) == eval(first, env) + eval(rest, env));
                        }
                        r
                    }
                },
                None => {
                    // Not sure what the alignment of `addr` is, we'll just use the safe fallback
                    let bytes = bits / BITS_IN_BYTE;
                    let first_addr = Self::offset_addr(addr, 0);
                    let mut acc = self.read_within_cell(&first_addr, BITS_IN_BYTE);
                    let ghost a = *addr;
                    assert forall|env: Env| #[trigger] eval(acc, env) == self.bytes_read(env, eval(a, env), 1) by {
                        assert(eval(first_addr, env) == addr_plus(eval(a, env), 0));
                        assert(eval(acc, env) == self.within_read(env, eval(first_addr, env), 8));
                        assert(self.bytes_read(env, eval(a, env), 0) == Seq::<bool>::empty());
                        assert(self.bytes_read(env, eval(a, env), 1) =~= Seq::<bool>::empty() + self.within_read(env, addr_plus(eval(a, env), 0), 8));
                    }
                    let mut byte_num: u32 = 1;
                    while byte_num < bytes
                        invariant
                            self.wf(),
                            wf(a),
                            width(a) == 64,
                            a == *addr,
                            1 <= byte_num <= bytes,
                            bytes == bits / 8,
                            wf(acc),
                            width(acc) == 8 * byte_num,
                            forall|env: Env| #[trigger] eval(acc, env) == self.bytes_read(env, eval(a, env), byte_num as nat),
                        decreases bytes - byte_num,
                    {
                        let offset_addr = Self::offset_addr(addr, byte_num as u64);
                        let byte = self.read_within_cell(&offset_addr, BITS_IN_BYTE);
                        let ghost prev = acc;
                        acc = BvTerm::Concat(Box::new(byte), Box::new(acc));
                        assert forall|env: Env| #[trigger] eval(acc, env) == self.bytes_read(env, eval(a, env), (byte_num + 1) as nat) by {
                            assert(eval(offset_addr, env) == addr_plus(eval(a, env), byte_num as nat));
                            assert(eval(prev, env) == self.bytes_read(env, eval(a, env), byte_num as nat));
                            assert(eval(byte, env) == self.within_read(env, eval(offset_addr, env), 8));
                            assert(eval(acc, env) == eval(prev, env) + eval(byte, env));
                        }
                        byte_num = byte_num + 1;
                    }
                    acc
                },
            }
        };
        Ok(rval)
    }

    /// Write any number (>0) of bits of memory, at any alignment.
    ///
    /// `can_be_null` is asked as for `read`; on an error nothing is written.
    pub fn write<F: Fn() -> Result<bool>>(&mut self, addr: &BvTerm, val: BvTerm, can_be_null: F) -> (r: Result<()>)
        requires
            old(self).wf(),
            wf(*addr),
            width(*addr) == INDEX_BITS,
            wf(val),
            width(val) > CELL_BITS && const_u64(*addr) is None ==> width(val) % 8 == 0,
            old(self).null_detection() ==> can_be_null.requires(()),
        ensures
            r is Ok ==> {
                &&& Self::same_except(*final(self), *old(self))
                &&& forall|env: Env, c: Seq<bool>| #[trigger] final(self).cell(env, c) == Self::written(*old(self), env, *addr, eval(val, env), c)
            },
            r is Err ==> *final(self) == *old(self),
            !old(self).null_detection() ==> r is Ok,
            old(self).null_detection() && r is Ok ==> can_be_null.ensures((), Ok(false)),
            r matches Err(e) ==> old(self).null_detection() && (can_be_null.ensures((), Err(e)) || (e
                == Error::NullPointerDereference && can_be_null.ensures((), Ok(true)))),
    {
        if self.null_detection {
            let null_possible = can_be_null()?;
            if null_possible {
                return Err(Error::NullPointerDereference);
            }
        }
        let ghost old_mem = *self;
        let ghost v = val;
        let write_size = val.get_width();
        if write_size <= CELL_BITS {
            // special-case small writes because write_small() can handle them directly and efficiently
            self.write_small(addr, val);
            assert forall|env: Env, c: Seq<bool>| #[trigger] self.cell(env, c) == Self::written(old_mem, env, *addr, eval(v, env), c) by {
                lemma_eval_len(v, env);
                assert(self.cell(env, c) == Self::small_write(old_mem, env, eval(*addr, env), eval(v, env), c));
            }
        } else {
            // Let's see if we can refactor this into a small write plus a large cell-aligned write
            match addr.as_u64() {
                Some(addr_u64) => {
                    let cell_offset = addr_u64 & (CELL_OFFSET_MASK as u64);
                    assert(addr_u64 & 7 == addr_u64 % 8) by (bit_vector);
                    if cell_offset == 0 {
                        // the address is cell-aligned, and we're free to do the large write
                        self.write_large_aligned(addr, val);
                        assert forall|env: Env, c: Seq<bool>| #[trigger] self.cell(env, c) == Self::written(old_mem, env, *addr, eval(v, env), c) by {
                            lemma_eval_len(v, env);
                            assert(self.cell(env, c) == Self::large_written(old_mem, env, eval(*addr, env), eval(v, env), ((write_size - 1) / 64 + 1) as nat, c));
                        }
                    } else {
                        let bytes_till_cell_boundary = CELL_BYTES as u64 - cell_offset;
                        let split: u32 = bytes_till_cell_boundary as u32 * BITS_IN_BYTE;
                        // first write the remainder of the cell to bring us to a cell boundary
                        let first = BvTerm::Slice(Box::new(val.clone()), split - 1, 0);
                        self.write_small(addr, first);
                        let ghost mid = *self;
                        // now write the rest, which will be a cell-aligned write
                        let rest = BvTerm::Slice(Box::new(val), write_size - 1, split);
                        let next_cell_addr = Self::offset_addr(addr, bytes_till_cell_boundary);
                        self.write_large_aligned(&next_cell_addr, rest);
                        assert forall|env: Env, c: Seq<bool>| #[trigger] self.cell(env, c) == Self::written(old_mem, env, *addr, eval(v, env), c) by {
                            let a = eval(*addr, env);
                            lemma_eval_len(v, env);
                            assert(const_u64(*addr) == Some(addr_u64));
                            assert(eval(first, env) == eval(v, env).subrange(0, split as int));
                            assert(eval(rest, env) == eval(v, env).subrange(split as int, write_size as int));
                            assert(eval(next_cell_addr, env) == addr_plus(a, bytes_till_cell_boundary as nat));
                            assert(mid.cells(env) =~= (|x: Seq<bool>| small_write_cells(old_mem.cells(env), a, eval(v, env).subrange(0, split as int), x))) by {
                                assert forall|x: Seq<bool>| #[trigger] mid.cells(env)(x) == small_write_cells(old_mem.cells(env), a, eval(v, env).subrange(0, split as int), x) by {
                                    assert(mid.cell(env, x) == Self::small_write(old_mem, env, a, eval(first, env), x));
                                }
                            }
                            assert(self.cell(env, c) == Self::large_written(mid, env, eval(next_cell_addr, env), eval(rest, env), ((width(rest) - 1) / 64 + 1) as nat, c));
                        }
                    }
                },
                None => {
                    // Not sure what the alignment of `addr` is, we'll just use the safe fallback
                    let write_size_bytes = write_size / BITS_IN_BYTE;
                    let mut byte_num: u32 = 0;
                    while byte_num < write_size_bytes
                        invariant
                            old_mem.wf(),
                            Self::same_except(*self, old_mem),
                            wf(*addr),
                            width(*addr) == 64,
                            wf(val),
                            val == v,
                            write_size == width(v),
                            write_size_bytes == write_size / 8,
                            byte_num <= write_size_bytes,
                            forall|env: Env, c: Seq<bool>| #[trigger] self.cell(env, c) == bytes_write_cells(old_mem.cells(env), eval(*addr, env), eval(v, env), byte_num as nat, c),
                        decreases write_size_bytes - byte_num,
                    {
                        let val_byte = BvTerm::Slice(Box::new(val.clone()), (byte_num + 1) * BITS_IN_BYTE - 1, byte_num * BITS_IN_BYTE);
                        let offset_addr = Self::offset_addr(addr, byte_num as u64);
                        let ghost before = *self;
                        self.write_within_cell(&offset_addr, val_byte);
                        assert forall|env: Env, c: Seq<bool>| #[trigger] self.cell(env, c) == bytes_write_cells(old_mem.cells(env), eval(*addr, env), eval(v, env), (byte_num + 1) as nat, c) by {
                            lemma_eval_len(v, env);
                            assert(eval(offset_addr, env) == addr_plus(eval(*addr, env), byte_num as nat));
                            assert(eval(val_byte, env) == eval(v, env).subrange(8 * byte_num as int, 8 * byte_num + 8));
                            assert(before.cell(env, c) == bytes_write_cells(old_mem.cells(env), eval(*addr, env), eval(v, env), byte_num as nat, c));
                        }
                        byte_num = byte_num + 1;
                    }
                    assert forall|env: Env, c: Seq<bool>| #[trigger] self.cell(env, c) == Self::written(old_mem, env, *addr, eval(v, env), c) by {
                        lemma_eval_len(v, env);
                    }
                },
            }
        }
        Ok(())
    }
}

/// The contents of cell `c` after `write_small` of `v` at address `a` over
/// cells `cells`.
pub open spec fn small_write_cells(cells: spec_fn(Seq<bool>) -> Seq<bool>, a: Seq<bool>, v: Seq<bool>, c: Seq<bool>) -> Seq<bool> {
    if v.len() <= 8 {
        if c == cell_index(a) {
            overwrite(cells(c), offset_bits(a), v)
        } else {
            cells(c)
        }
    } else {
        let data = overwrite(cells(cell_index(a)) + cells(cell_index(addr_plus(a, 8))), offset_bits(a), v);
        if c == cell_index(addr_plus(a, 8)) {
            data.subrange(64, 128)
        } else if c == cell_index(a) {
            data.subrange(0, 64)
        } else {
            cells(c)
        }
    }
}

/// The contents of cell `c` after writing the first `k` pieces of
/// `write_large_aligned` of `v` at address `a` over cells `cells`.
pub open spec fn large_write_cells(cells: spec_fn(Seq<bool>) -> Seq<bool>, a: Seq<bool>, v: Seq<bool>, k: nat, c: Seq<bool>) -> Seq<bool>
    decreases k,
{
    if k == 0 {
        cells(c)
    } else {
        let prev = large_write_cells(cells, a, v, (k - 1) as nat, c);
        let x = addr_plus(a, 8 * (k - 1) as nat);
        let start = 64 * (k - 1);
        let size = if v.len() - start >= 64 { 64 } else { v.len() - start };
        if c == cell_index(x) {
            if size == 64 {
                v.subrange(start as int, start + 64)
            } else {
                overwrite(prev, offset_bits(x), v.subrange(start as int, v.len() as int))
            }
        } else {
            prev
        }
    }
}

/// The contents of cell `c` after writing the first `k` bytes of `v` one at
/// a time at address `a` over cells `cells`.
pub open spec fn bytes_write_cells(cells: spec_fn(Seq<bool>) -> Seq<bool>, a: Seq<bool>, v: Seq<bool>, k: nat, c: Seq<bool>) -> Seq<bool>
    decreases k,
{
    if k == 0 {
        cells(c)
    } else {
        let prev = bytes_write_cells(cells, a, v, (k - 1) as nat, c);
        let x = addr_plus(a, (k - 1) as nat);
        if c == cell_index(x) {
            overwrite(prev, offset_bits(x), v.subrange(8 * (k - 1), 8 * k as int))
        } else {
            prev
        }
    }
}

/// The offset of an address within its cell is less than a cell.
pub proof fn lemma_offset_bits_bound(a: Seq<bool>)
    requires
        a.len() == 64,
    ensures
        offset_bits(a) <= 56,
        offset_bits(a) % 8 == 0,
{
    lemma_value_bound(a.subrange(0, 3));
    lemma2_to64();
}

/// The cell after an address's cell is another cell (the cell numbers wrap
/// around at the top of memory).
pub proof fn lemma_next_cell_differs(a: Seq<bool>)
    requires
        a.len() == 64,
    ensures
        cell_index(addr_plus(a, 8)) != cell_index(a),
{
    lemma2_to64();
    let va = value(a);
    lemma_value_bound(a);
    lemma_value_bits_of(8, 64);
    vstd::arithmetic::div_mod::lemma_small_mod(8, pow2(64));
    let b = addr_plus(a, 8);
    assert(b == bits_of(va + 8, 64));
    lemma_value_bits_of(va + 8, 64);
    assert(value(b) == (va + 8) % pow2(64));
    lemma_value_high(a, 3);
    lemma_value_high(b, 3);
    if cell_index(b) == cell_index(a) {
        assert(value(b) / 8 == va / 8);
        if va + 8 < 0x1_0000_0000_0000_0000 {
            vstd::arithmetic::div_mod::lemma_small_mod((va + 8) as nat, pow2(64));
            assert((va + 8) / 8 == va / 8 + 1);
        } else {
            assert((va + 8) % 0x1_0000_0000_0000_0000 == va + 8 - 0x1_0000_0000_0000_0000);
            assert(((va + 8) % pow2(64)) / 8 == 0);
        }
    }
}

/// What a read gives back of a write, for writes of at most a cell's worth
/// of bits: reading them back at the same address gives the value written.
pub proof fn lemma_small_read_after_write(old: Memory, new: Memory, env: Env, a: Seq<bool>, v: Seq<bool>)
    requires
        a.len() == 64,
        1 <= v.len() <= 64,
        forall|c: Seq<bool>| #[trigger] new.cell(env, c) == Memory::small_write(old, env, a, v, c),
        forall|c: Seq<bool>| #[trigger] old.cell(env, c).len() == 64,
    ensures
        new.small_read(env, a, v.len()) == v,
{
    let n = offset_bits(a);
    lemma_offset_bits_bound(a);
    if v.len() <= 8 {
        let x = new.cell(env, cell_index(a));
        assert(x == overwrite(old.cell(env, cell_index(a)), n, v));
        assert(new.small_read(env, a, v.len()) =~= v);
    } else {
        lemma_next_cell_differs(a);
        let data = overwrite(old.cell(env, cell_index(a)) + old.cell(env, cell_index(addr_plus(a, 8))), n, v);
        assert(new.cell(env, cell_index(a)) == data.subrange(0, 64));
        assert(new.cell(env, cell_index(addr_plus(a, 8))) == data.subrange(64, 128));
        assert(new.cell(env, cell_index(a)) + new.cell(env, cell_index(addr_plus(a, 8))) =~= data);
        assert(new.small_read(env, a, v.len()) =~= v);
    }
}

impl crate::state::Snapshot for Memory {
    fn snapshot(&self) -> (r: Self) {
        Memory { mem: self.mem.clone(), name: self.name.clone(), null_detection: self.null_detection }
    }
}

} // verus!
