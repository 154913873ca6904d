//! A `Memory` based on an array of 8-bit cells. It handles fully general
//! read and write operations: arbitrary addresses, sizes, and alignments.
//!
//! Reads and writes build bitvector terms (see `bv_term`); their contracts
//! state what those terms mean in every environment.

use std::rc::Rc;
use vstd::arithmetic::div_mod::{lemma_mod_equivalence, lemma_small_mod};
use vstd::arithmetic::power2::{lemma_pow2_pos, pow2};
use vstd::prelude::*;

use crate::bv_term::{addr_plus, lemma_bits_of_eq, lemma_bits_of_value, lemma_value_bits_of, lemma_eval_len, bits_of, element_width, eval, index_width, read_array, value, wf, wf_array, width, zeros, ArrayTerm, BvTerm, Env};
use crate::error::{Error, Result};

verus! {

/// Memory cells are 8 bits wide.
pub const CELL_BITS: u32 = 8;
/// Number of bits in a byte.
pub const BITS_IN_BYTE: u32 = 8;
/// Base-2 logarithm of `BITS_IN_BYTE`.
pub const LOG_BITS_IN_BYTE: u32 = 3;
/// Number of bytes in a cell.
pub const CELL_BYTES: u32 = 1;

/// `f` answers the nullary query with `q` and nothing else.
pub open spec fn oracle_says<F: Fn() -> Result<bool>>(f: F, q: Result<bool>) -> bool {
    forall|r: Result<bool>| #[trigger] f.ensures((), r) ==> r == q
}

/// A byte-addressed memory.
#[derive(Clone, Debug)]
pub struct Memory {
    mem: Rc<ArrayTerm>,
    /// e.g. `64` for a `Memory` which uses 64-bit addresses
    addr_bits: u32,
    name: String,
    null_detection: bool,
}

impl Memory {
    /// The array of bytes that holds the memory's contents.
    pub closed spec fn array(&self) -> ArrayTerm {
        *self.mem
    }

    /// The width of addresses, in bits.
    pub closed spec fn addr_bits(&self) -> u32 {
        self.addr_bits
    }

    /// Whether accesses are checked for possibly-null addresses.
    pub closed spec fn null_detection(&self) -> bool {
        self.null_detection
    }

    /// The memory's name.
    pub closed spec fn name(&self) -> Seq<char> {
        self.name@
    }

    /// The memory's invariant: a well-formed array of bytes indexed by
    /// addresses of `addr_bits` bits.
    pub open spec fn wf(&self) -> bool {
        &&& wf_array(self.array())
        &&& index_width(self.array()) == self.addr_bits()
        &&& element_width(self.array()) == 8
    }

    /// The byte at address `a` in environment `env`.
    pub open spec fn byte_at(&self, env: Env, a: Seq<bool>) -> Seq<bool> {
        read_array(self.array(), env, a)
    }

    /// The `n` bytes starting at address `a`, least significant first.
    pub open spec fn bytes_at(&self, env: Env, a: Seq<bool>, n: nat) -> Seq<bool>
        decreases n,
    {
        if n == 0 {
            Seq::empty()
        } else {
            self.bytes_at(env, a, (n - 1) as nat) + self.byte_at(env, addr_plus(a, (n - 1) as nat))
        }
    }

    /// What a read of `bits` bits at address `a` gives.
    pub open spec fn read_value(&self, env: Env, a: Seq<bool>, bits: nat) -> Seq<bool> {
        if bits < 8 {
            self.byte_at(env, a).subrange(0, bits as int)
        } else {
            self.bytes_at(env, a, bits / 8)
        }
    }

    /// The byte at address `j` after writing the first `n` bytes of `data`
    /// at address `a` over memory `old`, one byte after the other.
    pub open spec fn written_byte(old: Memory, env: Env, a: Seq<bool>, data: Seq<bool>, n: nat, j: Seq<bool>) -> Seq<bool>
        decreases n,
    {
        if n == 0 {
            old.byte_at(env, j)
        } else if j == addr_plus(a, (n - 1) as nat) {
            data.subrange(8 * (n - 1), 8 * n as int)
        } else {
            Self::written_byte(old, env, a, data, (n - 1) as nat, j)
        }
    }

    /// `data` as it is written: zero-extended to a byte if it is shorter.
    pub open spec fn write_data(data: Seq<bool>) -> Seq<bool> {
        if data.len() < 8 {
            data + zeros((8 - data.len()) as nat)
        } else {
            data
        }
    }

    /// `new` is `old` after writing `data` at the address given by term
    /// `addr`: same name, address width and null detection, and, in every
    /// environment, the bytes of `data` at the addresses it covers.
    pub open spec fn is_write_of(new: Memory, old: Memory, addr: BvTerm, val: BvTerm) -> bool {
        &&& new.wf()
        &&& new.addr_bits() == old.addr_bits()
        &&& new.null_detection() == old.null_detection()
        &&& new.name() == old.name()
        &&& forall|env: Env, j: Seq<bool>| #[trigger] new.byte_at(env, j) == Self::written_byte(
            old,
            env,
            eval(addr, env),
            Self::write_data(eval(val, env)),
            Self::write_data(eval(val, env)).len() / 8,
            j,
        )
    }

    /// A new `Memory`, whose contents at all addresses are completely
    /// uninitialized (unconstrained): the fresh array `id`.
    ///
    /// `null_detection`: if `true`, all memory accesses will be checked to ensure
    /// their addresses cannot be NULL, throwing `Error::NullPointerDereference`
    /// if NULL is a possible solution for the address
    ///
    /// `name`: a name for this `Memory`, or `None` to use the default name (as of this writing, 'mem')
    ///
    /// `addr_bits`: e.g. `64` for a `Memory` which uses 64-bit addresses
    pub fn new_uninitialized(id: u64, null_detection: bool, name: Option<&str>, addr_bits: u32) -> (r: Self)
        requires
            addr_bits >= 1,
        ensures
            r.wf(),
            r.array() == ArrayTerm::Fresh(id, addr_bits, 8),
            r.addr_bits() == addr_bits,
            r.null_detection() == null_detection,
            r.name() == (match name {
                Some(n) => n@,
                None => "mem"@,
            }),
    {
        let name = match name {
            Some(n) => n.to_owned(),
            None => "mem".to_owned(),
        };
        Memory { mem: Rc::new(ArrayTerm::Fresh(id, addr_bits, 8)), addr_bits, name, null_detection }
    }

    /// A new `Memory`, whose contents at all addresses are initialized to be `0`
    ///
    /// `null_detection`: if `true`, all memory accesses will be checked to ensure
    /// their addresses cannot be NULL, throwing `Error::NullPointerDereference`
    /// if NULL is a possible solution for the address
    ///
    /// `name`: a name for this `Memory`, or `None` to use the default name (as of this writing, 'mem_initialized')
    ///
    /// `addr_bits`: e.g. `64` for a `Memory` which uses 64-bit addresses
    pub fn new_zero_initialized(null_detection: bool, name: Option<&str>, addr_bits: u32) -> (r: Self)
        requires
            addr_bits >= 1,
        ensures
            r.wf(),
            r.array() == ArrayTerm::Filled(addr_bits, Box::new(BvTerm::Zero(8))),
            forall|env: Env, j: Seq<bool>| #[trigger] r.byte_at(env, j) == zeros(8),
            r.addr_bits() == addr_bits,
            r.null_detection() == null_detection,
            r.name() == (match name {
                Some(n) => n@,
                None => "mem_initialized"@,
            }),
    {
        let name = match name {
            Some(n) => n.to_owned(),
            None => "mem_initialized".to_owned(),
        };
        let zero = BvTerm::Zero(8);
        assert(wf(zero) && width(zero) == 8);
        let arr = ArrayTerm::Filled(addr_bits, Box::new(zero));
        assert(wf_array(arr));
        let r = Memory { mem: Rc::new(arr), addr_bits, name, null_detection };
        assert forall|env: Env, j: Seq<bool>| #[trigger] r.byte_at(env, j) == zeros(8) by {
            assert(read_array(arr, env, j) == eval(BvTerm::Zero(8), env));
            assert(eval(BvTerm::Zero(8), env) =~= zeros(8));
        }
        r
    }

    /// The term for address `addr + k`.
    fn offset_addr(&self, addr: &BvTerm, k: u32) -> (r: BvTerm)
        requires
            self.wf(),
            wf(*addr),
            width(*addr) == self.addr_bits(),
        ensures
            wf(r),
            width(r) == self.addr_bits(),
            forall|env: Env| #[trigger] eval(r, env) == addr_plus(eval(*addr, env), k as nat),
    {
        let c = BvTerm::Const(k as u64, self.addr_bits);
        assert(wf(c));
        let r = BvTerm::Add(Box::new(addr.clone()), Box::new(c));
        assert forall|env: Env| #[trigger] eval(r, env) == addr_plus(eval(*addr, env), k as nat) by {
            lemma_eval_len(*addr, env);
            assert(eval(c, env) == bits_of(k as nat, self.addr_bits as nat));
            assert(eval(r, env) == bits_of(value(eval(*addr, env)) + value(eval(c, env)), width(*addr)));
        }
        r
    }

    /// Read a byte from the given address.
    fn read_byte(&self, addr: &BvTerm) -> (r: BvTerm)
        requires
            self.wf(),
            wf(*addr),
            width(*addr) == self.addr_bits(),
        ensures
            wf(r),
            width(r) == 8,
            forall|env: Env| #[trigger] eval(r, env) == self.byte_at(env, eval(*addr, env)),
    {
        BvTerm::Read(self.mem.clone(), Box::new(addr.clone()))
    }

    /// Write a byte to the given address.
    fn write_byte(&mut self, addr: &BvTerm, val: BvTerm)
        requires
            old(self).wf(),
            wf(*addr),
            width(*addr) == old(self).addr_bits(),
            wf(val),
            width(val) == 8,
        ensures
            final(self).wf(),
            final(self).addr_bits() == old(self).addr_bits(),
            final(self).null_detection() == old(self).null_detection(),
            final(self).name() == old(self).name(),
            forall|env: Env, j: Seq<bool>| #[trigger] final(self).byte_at(env, j) == if j == eval(*addr, env) {
                eval(val, env)
            } else {
                old(self).byte_at(env, j)
            },
    {
        let m = self.mem.clone();
        self.mem = Rc::new(ArrayTerm::Write(m, Box::new(addr.clone()), Box::new(val)));
    }

    /// Read any number (>0) of bits of memory, at any alignment.
    /// Returned term will have width `bits`.
    ///
    /// `can_be_null` asks the solver whether the address can be NULL; it is
    /// only asked when the memory checks for null addresses, and a `true`
    /// answer gives `Error::NullPointerDereference`.
    pub fn read<F: Fn() -> Result<bool>>(&self, addr: &BvTerm, bits: u32, can_be_null: F) -> (r: Result<BvTerm>)
        requires
            self.wf(),
            wf(*addr),
            width(*addr) == self.addr_bits(),
            bits >= 1,
            bits < 8 || bits % 8 == 0,
            self.null_detection() ==> can_be_null.requires(()),
        ensures
            r matches Ok(t) ==> {
                &&& wf(t)
                &&& width(t) == bits
                &&& forall|env: Env| #[trigger] eval(t, env) == self.read_value(env, eval(*addr, env), bits as nat)
            },
            !self.null_detection() ==> r is Ok,
            self.null_detection() && r is Ok ==> can_be_null.ensures((), Ok(false)),
            r matches Err(e) ==> self.null_detection() && (can_be_null.ensures((), Err(e)) || (e
                == Error::NullPointerDereference && can_be_null.ensures((), Ok(true)))),
    {
        if self.null_detection {
            let null_possible = can_be_null()?;
            if null_possible {
                return Err(Error::NullPointerDereference);
            }
        }
        let rval = if bits < BITS_IN_BYTE {
            let byte = self.read_byte(addr);
            let r = BvTerm::Slice(Box::new(byte), bits - 1, 0);
            assert forall|env: Env| #[trigger] eval(r, env) == self.read_value(env, eval(*addr, env), bits as nat) by {
                assert(eval(byte, env) == self.byte_at(env, eval(*addr, env)));
            }
            r
        } else {
            let bytes = bits / BITS_IN_BYTE;
            let first = self.offset_addr(addr, 0);
            let mut acc = self.read_byte(&first);
            assert forall|env: Env| #[trigger] eval(acc, env) == self.bytes_at(env, eval(*addr, env), 1) by {
                assert(self.bytes_at(env, eval(*addr, env), 0) == Seq::<bool>::empty());
                assert(eval(first, env) == addr_plus(eval(*addr, env), 0));
                assert(eval(acc, env) == self.byte_at(env, eval(first, env)));
                assert(self.bytes_at(env, eval(*addr, env), 1) =~= Seq::<bool>::empty() + self.byte_at(env, addr_plus(eval(*addr, env), 0)));
            }
            let mut b: u32 = 1;
            while b < bytes
                invariant
                    self.wf(),
                    wf(*addr),
                    width(*addr) == self.addr_bits(),
                    1 <= b <= bytes,
                    bytes == bits / 8,
                    bits < 0x1_0000_0000,
                    wf(acc),
                    width(acc) == 8 * b,
                    forall|env: Env| #[trigger] eval(acc, env) == self.bytes_at(env, eval(*addr, env), b as nat),
                decreases bytes - b,
            {
                let oa = self.offset_addr(addr, b);
                let next = self.read_byte(&oa);
                let ghost prev = acc;
                acc = BvTerm::Concat(Box::new(next), Box::new(acc));
                assert forall|env: Env| #[trigger] eval(acc, env) == self.bytes_at(env, eval(*addr, env), (b + 1) as nat) by {
                    assert(eval(acc, env) == eval(prev, env) + eval(next, env));
                    assert(eval(oa, env) == addr_plus(eval(*addr, env), b as nat));
                    assert(eval(next, env) == self.byte_at(env, eval(oa, env)));
                }
                b = b + 1;
            }
            acc
        };
        Ok(rval)
    }

    /// Write any number (>0) of bits of memory, at any alignment.
    ///
    /// `can_be_null` is asked as for `read`; on an error nothing is written.
    pub fn write<F: Fn() -> Result<bool>>(&mut self, addr: &BvTerm, val: BvTerm, can_be_null: F) -> (r: Result<()>)
        requires
            old(self).wf(),
            wf(*addr),
            width(*addr) == old(self).addr_bits(),
            wf(val),
            width(val) < 8 || width(val) % 8 == 0,
            old(self).null_detection() ==> can_be_null.requires(()),
        ensures
            r is Ok ==> Self::is_write_of(*final(self), *old(self), *addr, val),
            r is Err ==> *final(self) == *old(self),
            !old(self).null_detection() ==> r is Ok,
            old(self).null_detection() && r is Ok ==> can_be_null.ensures((), Ok(false)),
            r matches Err(e) ==> old(self).null_detection() && (can_be_null.ensures((), Err(e)) || (e
                == Error::NullPointerDereference && can_be_null.ensures((), Ok(true)))),
    {
        if self.null_detection {
            let null_possible = can_be_null()?;
            if null_possible {
                return Err(Error::NullPointerDereference);
            }
        }
        let ghost old_mem = *self;
        let write_size = val.get_width();
        let write_data = if write_size < BITS_IN_BYTE {
            // implicitly zero-extend to 8 bits
            BvTerm::Uext(Box::new(val), BITS_IN_BYTE - write_size)
        } else {
            val
        };
        assert forall|env: Env| #[trigger] eval(write_data, env) == Self::write_data(eval(val, env)) by {
            lemma_eval_len(val, env);
        }
        let write_size = write_data.get_width();
        let write_size_bytes = write_size / BITS_IN_BYTE;
        let mut byte_num: u32 = 0;
        while byte_num < write_size_bytes
            invariant
                self.wf(),
                old_mem.wf(),
                self.addr_bits() == old_mem.addr_bits(),
                self.null_detection() == old_mem.null_detection(),
                self.name() == old_mem.name(),
                wf(*addr),
                width(*addr) == self.addr_bits(),
                wf(write_data),
                write_size == width(write_data),
                write_size % 8 == 0,
                write_size_bytes == write_size / 8,
                byte_num <= write_size_bytes,
                forall|env: Env| #[trigger] eval(write_data, env) == Self::write_data(eval(val, env)),
                forall|env: Env, j: Seq<bool>| #[trigger] self.byte_at(env, j) == Self::written_byte(
                    old_mem,
                    env,
                    eval(*addr, env),
                    Self::write_data(eval(val, env)),
                    byte_num as nat,
                    j,
                ),
            decreases write_size_bytes - byte_num,
        {
            let data_byte = BvTerm::Slice(Box::new(write_data.clone()), (byte_num + 1) * BITS_IN_BYTE - 1, byte_num * BITS_IN_BYTE);
            let offset_addr = self.offset_addr(addr, byte_num);
            let ghost before = *self;
            self.write_byte(&offset_addr, data_byte);
            assert forall|env: Env, j: Seq<bool>| #[trigger] self.byte_at(env, j) == Self::written_byte(
                old_mem,
                env,
                eval(*addr, env),
                Self::write_data(eval(val, env)),
                (byte_num + 1) as nat,
                j,
            ) by {
                assert(eval(offset_addr, env) == addr_plus(eval(*addr, env), byte_num as nat));
                assert(eval(write_data, env) == Self::write_data(eval(val, env)));
                assert(before.byte_at(env, j) == Self::written_byte(
                    old_mem,
                    env,
                    eval(*addr, env),
                    Self::write_data(eval(val, env)),
                    byte_num as nat,
                    j,
                ));
            }
            byte_num = byte_num + 1;
        }
        proof {
            assert forall|env: Env| #[trigger] Self::write_data(eval(val, env)).len() / 8 == write_size_bytes by {
                lemma_eval_len(val, env);
            }
        }
        Ok(())
    }
}

/// The address zero bytes past `a` is `a`.
pub proof fn lemma_addr_plus_zero(a: Seq<bool>)
    ensures
        addr_plus(a, 0) == a,
{
    lemma_value_bits_of(0, a.len());
    lemma_pow2_pos(a.len());
    lemma_bits_of_value(a);
}

/// Distinct offsets below two to the address width give distinct addresses.
pub proof fn lemma_addr_plus_distinct(a: Seq<bool>, k1: nat, k2: nat)
    requires
        k1 < k2 < pow2(a.len()),
    ensures
        addr_plus(a, k1) != addr_plus(a, k2),
{
    let m = pow2(a.len());
    lemma_pow2_pos(a.len());
    lemma_value_bits_of(k1, a.len());
    lemma_value_bits_of(k2, a.len());
    lemma_small_mod(k1, m);
    lemma_small_mod(k2, m);
    if addr_plus(a, k1) == addr_plus(a, k2) {
        lemma_bits_of_eq(value(a) + k1, value(a) + k2, a.len());
        lemma_mod_equivalence((value(a) + k2) as int, (value(a) + k1) as int, m as int);
        assert(((value(a) + k2) - (value(a) + k1)) == k2 - k1);
        lemma_small_mod((k2 - k1) as nat, m);
    }
}

impl Memory {
    /// After writing `n` bytes of `data` at `a`, the byte at offset `k < n`
    /// is byte `k` of `data`.
    proof fn lemma_written_byte_at(old: Memory, env: Env, a: Seq<bool>, data: Seq<bool>, n: nat, k: nat)
        requires
            k < n <= pow2(a.len()),
        ensures
            Self::written_byte(old, env, a, data, n, addr_plus(a, k)) == data.subrange(8 * k as int, 8 * k + 8 as int),
        decreases n,
    {
        if k < n - 1 {
            lemma_addr_plus_distinct(a, k, (n - 1) as nat);
            Self::lemma_written_byte_at(old, env, a, data, (n - 1) as nat, k);
        }
    }

    /// After writing `data` (a whole number of bytes, `n` of them) at `a`,
    /// the first `m <= n` bytes at `a` are the first `m` bytes of `data`.
    proof fn lemma_bytes_after_write(old: Memory, new: Memory, env: Env, a: Seq<bool>, data: Seq<bool>, n: nat, m: nat)
        requires
            m <= n <= pow2(a.len()),
            data.len() == 8 * n,
            forall|j: Seq<bool>| #[trigger] new.byte_at(env, j) == Self::written_byte(old, env, a, data, n, j),
        ensures
            new.bytes_at(env, a, m) == data.subrange(0, 8 * m as int),
        decreases m,
    {
        if m > 0 {
            Self::lemma_bytes_after_write(old, new, env, a, data, n, (m - 1) as nat);
            Self::lemma_written_byte_at(old, env, a, data, n, (m - 1) as nat);
            assert(new.bytes_at(env, a, m) =~= data.subrange(0, 8 * m as int));
        }
    }
}

/// What a read gives back of a write: reading as many bits as were written,
/// at the same address, gives the value written, in every environment.
///
/// The bytes written must have distinct addresses, that is, there must be no
/// more of them than addresses.
pub proof fn lemma_read_after_write(old: Memory, new: Memory, addr: BvTerm, val: BvTerm, env: Env)
    requires
        old.wf(),
        wf(addr),
        width(addr) == old.addr_bits(),
        wf(val),
        width(val) < 8 || width(val) % 8 == 0,
        width(val) / 8 <= pow2(old.addr_bits() as nat),
        Memory::is_write_of(new, old, addr, val),
    ensures
        new.read_value(env, eval(addr, env), width(val)) == eval(val, env),
{
    let a = eval(addr, env);
    let v = eval(val, env);
    lemma_eval_len(addr, env);
    lemma_eval_len(val, env);
    let d = Memory::write_data(v);
    let n = d.len() / 8;
    assert(forall|j: Seq<bool>| #[trigger] new.byte_at(env, j) == Memory::written_byte(old, env, a, d, n, j));
    if width(val) < 8 {
        lemma_addr_plus_zero(a);
        lemma_pow2_pos(a.len());
        assert(new.byte_at(env, a) == Memory::written_byte(old, env, a, d, 1, a));
        assert(new.byte_at(env, a) == d.subrange(0, 8));
        assert(new.read_value(env, a, width(val)) =~= v);
    } else {
        Memory::lemma_bytes_after_write(old, new, env, a, d, n, n);
        assert(d.subrange(0, 8 * n as int) =~= v);
    }
}

/// The number of bytes a read of `bits` bits looks at.
pub open spec fn read_bytes(bits: nat) -> nat {
    if bits < 8 {
        1
    } else {
        bits / 8
    }
}

/// A byte at an address that the first `n` bytes written at `a` do not cover
/// keeps its old value.
proof fn lemma_written_byte_elsewhere(old: Memory, env: Env, a: Seq<bool>, data: Seq<bool>, n: nat, j: Seq<bool>)
    requires
        forall|k: nat| k < n ==> j != #[trigger] addr_plus(a, k),
    ensures
        Memory::written_byte(old, env, a, data, n, j) == old.byte_at(env, j),
    decreases n,
{
    if n > 0 {
        assert(j != addr_plus(a, (n - 1) as nat));
        lemma_written_byte_elsewhere(old, env, a, data, (n - 1) as nat, j);
    }
}

/// The first `m` bytes at `b` agree in two memories whose bytes at those
/// addresses agree.
proof fn lemma_bytes_agree(m1: Memory, m2: Memory, env: Env, b: Seq<bool>, m: nat)
    requires
        forall|i: nat| i < m ==> m1.byte_at(env, #[trigger] addr_plus(b, i)) == m2.byte_at(env, addr_plus(b, i)),
    ensures
        m1.bytes_at(env, b, m) == m2.bytes_at(env, b, m),
    decreases m,
{
    if m > 0 {
        lemma_bytes_agree(m1, m2, env, b, (m - 1) as nat);
        assert(m1.byte_at(env, addr_plus(b, (m - 1) as nat)) == m2.byte_at(env, addr_plus(b, (m - 1) as nat)));
    }
}

/// A write leaves alone what it does not cover: reading `bits` bits at `b`,
/// where none of the bytes read is one the write covers, gives the same
/// value before and after the write, in every environment.
pub proof fn lemma_read_elsewhere_after_write(old: Memory, new: Memory, addr: BvTerm, val: BvTerm, env: Env, b: Seq<bool>, bits: nat)
    requires
        Memory::is_write_of(new, old, addr, val),
        forall|i: nat, k: nat| i < read_bytes(bits) && k < Memory::write_data(eval(val, env)).len() / 8
            ==> #[trigger] addr_plus(b, i) != #[trigger] addr_plus(eval(addr, env), k),
    ensures
        new.read_value(env, b, bits) == old.read_value(env, b, bits),
{
    let a = eval(addr, env);
    let d = Memory::write_data(eval(val, env));
    let n = d.len() / 8;
    assert forall|i: nat| i < read_bytes(bits) implies new.byte_at(env, #[trigger] addr_plus(b, i)) == old.byte_at(env, addr_plus(b, i)) by {
        assert forall|k: nat| k < n implies addr_plus(b, i) != #[trigger] addr_plus(a, k) by {
            assert(addr_plus(b, i) != addr_plus(a, k));
        }
        lemma_written_byte_elsewhere(old, env, a, d, n, addr_plus(b, i));
    }
    if bits < 8 {
        lemma_addr_plus_zero(b);
        assert(new.byte_at(env, addr_plus(b, 0)) == old.byte_at(env, addr_plus(b, 0)));
    } else {
        lemma_bytes_agree(new, old, env, b, bits / 8);
    }
}

/// A second write to an address replaces the first: reading back as many
/// bits as the second wrote gives the second value, in every environment.
pub proof fn lemma_second_write_wins(m0: Memory, m1: Memory, m2: Memory, addr: BvTerm, v1: BvTerm, v2: BvTerm, env: Env)
    requires
        m0.wf(),
        wf(addr),
        width(addr) == m0.addr_bits(),
        wf(v2),
        width(v2) < 8 || width(v2) % 8 == 0,
        width(v2) / 8 <= pow2(m0.addr_bits() as nat),
        Memory::is_write_of(m1, m0, addr, v1),
        Memory::is_write_of(m2, m1, addr, v2),
    ensures
        m2.read_value(env, eval(addr, env), width(v2)) == eval(v2, env),
{
    lemma_read_after_write(m1, m2, addr, v2, env);
}

impl crate::state::Snapshot for Memory {
    fn snapshot(&self) -> (r: Self) {
        Memory { mem: self.mem.clone(), addr_bits: self.addr_bits, name: self.name.clone(), null_detection: self.null_detection }
    }
}

} // verus!
