//! Reads and writes of the cell-based memory, with the values read checked in
//! several environments.

use haybale::bv_term::{ArrayTerm, BvTerm};
use haybale::cell_memory::{Memory, CELL_BITS, INDEX_BITS};
use haybale::hook_utils::{memcpy, memset};
use haybale::memcpy_length::MemcpyLength;

// ---- evaluation of terms in a concrete environment, standing in for the solver ----

/// Values for the variables and the fresh arrays of terms.
struct TestEnv {
    vars: Vec<(u64, u64)>,
    fill: u64,
}

fn bits_of(v: u64, w: usize) -> Vec<bool> {
    (0..w).map(|k| k < 64 && (v >> k) & 1 == 1).collect()
}

fn fit(s: &[bool], w: usize) -> Vec<bool> {
    (0..w).map(|k| k < s.len() && s[k]).collect()
}

/// The number the bits denote, or `u128::MAX` if it does not fit.
fn value(s: &[bool]) -> u128 {
    let mut v: u128 = 0;
    for (k, b) in s.iter().enumerate() {
        if *b {
            if k >= 128 {
                return u128::MAX;
            }
            v |= 1u128 << k;
        }
    }
    v
}

fn to_u64(s: &[bool]) -> u64 {
    assert!(s.len() <= 64);
    value(s) as u64
}

fn ev(t: &BvTerm, env: &TestEnv) -> Vec<bool> {
    match t {
        BvTerm::Const(v, w) => bits_of(*v, *w as usize),
        BvTerm::Zero(w) => vec![false; *w as usize],
        BvTerm::Ones(w) => vec![true; *w as usize],
        BvTerm::Var(id, w) => {
            let v = env.vars.iter().find(|(i, _)| i == id).map(|(_, v)| *v).unwrap_or(0);
            bits_of(v, *w as usize)
        },
        BvTerm::Slice(a, hi, lo) => ev(a, env)[*lo as usize..=*hi as usize].to_vec(),
        BvTerm::Uext(a, k) => {
            let mut x = ev(a, env);
            x.extend(std::iter::repeat(false).take(*k as usize));
            x
        },
        BvTerm::Concat(a, b) => {
            let mut x = ev(b, env);
            x.extend(ev(a, env));
            x
        },
        BvTerm::Add(a, b) => {
            let x = ev(a, env);
            let y = ev(b, env);
            let mut carry = false;
            let mut out = Vec::new();
            for k in 0..x.len() {
                let s = (x[k] as u8) + (y[k] as u8) + (carry as u8);
                out.push(s % 2 == 1);
                carry = s >= 2;
            }
            out
        },
        BvTerm::Sll(a, b) => {
            let x = ev(a, env);
            let n = value(&ev(b, env));
            (0..x.len()).map(|k| (k as u128) >= n && x[k - n as usize]).collect()
        },
        BvTerm::Srl(a, b) => {
            let x = ev(a, env);
            let n = value(&ev(b, env));
            (0..x.len()).map(|k| (k as u128) + n < x.len() as u128 && x[k + n as usize]).collect()
        },
        BvTerm::And(a, b) => ev(a, env).iter().zip(ev(b, env)).map(|(p, q)| *p && q).collect(),
        BvTerm::Or(a, b) => ev(a, env).iter().zip(ev(b, env)).map(|(p, q)| *p || q).collect(),
        BvTerm::Not(a) => ev(a, env).iter().map(|p| !p).collect(),
        BvTerm::Read(arr, i) => read_array(arr, env, &ev(i, env)),
        BvTerm::Eq(a, b) => vec![ev(a, env) == ev(b, env)],
        BvTerm::Ult(a, b) => vec![value(&ev(a, env)) < value(&ev(b, env))],
        BvTerm::Ite(c, a, b) => {
            if ev(c, env)[0] {
                ev(a, env)
            } else {
                ev(b, env)
            }
        },
        other => panic!("memory terms do not hold {:?}", other),
    }
}

fn read_array(a: &ArrayTerm, env: &TestEnv, j: &[bool]) -> Vec<bool> {
    match a {
        ArrayTerm::Fresh(id, _, e) => {
            let idx = value(j) as u64;
            fit(&bits_of(env.fill ^ idx.wrapping_mul(0x9e37_79b9_7f4a_7c15) ^ *id, 64), *e as usize)
        },
        ArrayTerm::Filled(_, v) => ev(v, env),
        ArrayTerm::Write(arr, i, v) => {
            if ev(i, env) == j {
                ev(v, env)
            } else {
                read_array(arr, env, j)
            }
        },
    }
}

/// Environments that differ in the contents of fresh memory and in the
/// values of the variables `1` and `2`.
fn envs() -> Vec<TestEnv> {
    vec![
        TestEnv { vars: vec![(1, 0x10000), (2, 0)], fill: 0 },
        TestEnv { vars: vec![(1, 0x2_0003), (2, 5)], fill: u64::MAX },
        TestEnv { vars: vec![(1, 0xffff_fffe), (2, 0x1234)], fill: 0x5555_aaaa_0f0f_f0f0 },
        TestEnv { vars: vec![(1, 0x7), (2, u64::MAX)], fill: 0x8000_0000_0000_0001 },
    ]
}

/// The term has this one value in every environment.
fn exactly_one(t: &BvTerm, expected: u64) {
    for env in envs() {
        let got = to_u64(&ev(t, &env));
        assert_eq!(got, expected, "got 0x{:x}, expected 0x{:x}", got, expected);
    }
}

/// Bits `lo..=hi` of the term have this one value in every environment.
fn slice_is(t: &BvTerm, hi: usize, lo: usize, expected: u64) {
    for env in envs() {
        let got = to_u64(&ev(t, &env)[lo..=hi]);
        assert_eq!(got, expected);
    }
}

fn constant(v: u64, w: u32) -> BvTerm {
    BvTerm::Const(v, w)
}

fn concat(hi: BvTerm, lo: BvTerm) -> BvTerm {
    BvTerm::Concat(Box::new(hi), Box::new(lo))
}

fn no_null() -> haybale::Result<bool> {
    Ok(false)
}

fn cell_addr(v: u64) -> BvTerm {
    constant(v, INDEX_BITS)
}

#[test]
fn cell_memory_uninitialized() {
    let mem = Memory::new_uninitialized(7, true, None, INDEX_BITS);
    let addr = cell_addr(0x10000);
    // Read a value from (uninitialized) memory
    let read_bv = mem.read(&addr, CELL_BITS, no_null).unwrap();
    // It can be > 0, and it can be < 0
    let vals: Vec<i64> = envs().iter().map(|e| to_u64(&ev(&read_bv, e)) as i64).collect();
    assert!(vals.iter().any(|v| *v > 0));
    assert!(vals.iter().any(|v| *v < 0));
}

#[test]
fn cell_memory_zero_initialized() {
    let mem = Memory::new_zero_initialized(true, None, INDEX_BITS);
    let addr = cell_addr(0x10000);
    // Read a value from (zero-initialized) memory and check that the only possible value is 0
    let read_bv = mem.read(&addr, CELL_BITS, no_null).unwrap();
    exactly_one(&read_bv, 0);
}

#[test]
fn cell_memory_read_and_write_to_cell_zero() {
    let mut mem = Memory::new_uninitialized(1, false, None, INDEX_BITS);
    // Store a cell's worth of data to address 0
    let data_val = 0x1234_5678;
    let zero = BvTerm::Zero(INDEX_BITS);
    mem.write(&zero, constant(data_val, CELL_BITS), no_null).unwrap();
    // Ensure that we can read it back again
    let read_bv = mem.read(&zero, CELL_BITS, no_null).unwrap();
    exactly_one(&read_bv, data_val);
}

#[test]
fn cell_memory_read_and_write_cell_aligned() {
    let mut mem = Memory::new_uninitialized(1, true, None, INDEX_BITS);
    // Store a cell's worth of data to a nonzero, but aligned, address
    let data_val = 0x1234_5678;
    let aligned = cell_addr(0x10000);
    mem.write(&aligned, constant(data_val, CELL_BITS), no_null).unwrap();
    let read_bv = mem.read(&aligned, CELL_BITS, no_null).unwrap();
    exactly_one(&read_bv, data_val);
}

#[test]
fn cell_memory_read_and_write_small() {
    let mut mem = Memory::new_uninitialized(1, true, None, INDEX_BITS);
    // Store 8 bits of data to an aligned address
    let data_val = 0x4F;
    let addr = cell_addr(0x10000);
    mem.write(&addr, constant(data_val, 8), no_null).unwrap();
    let read_bv = mem.read(&addr, 8, no_null).unwrap();
    exactly_one(&read_bv, data_val);
}

#[test]
fn cell_memory_read_single_bit() {
    let mut mem = Memory::new_uninitialized(1, true, None, INDEX_BITS);
    let data_val = 0x55;
    let addr = cell_addr(0x10000);
    mem.write(&addr, constant(data_val, 8), no_null).unwrap();
    // we should read the least significant bit, which should have value 1
    let read_bv = mem.read(&addr, 1, no_null).unwrap();
    exactly_one(&read_bv, 1);
}

#[test]
fn cell_memory_read_and_write_unaligned() {
    let mut mem = Memory::new_uninitialized(1, true, None, INDEX_BITS);
    // Store 8 bits of data to offset 1 in a cell
    let data_val = 0x4F;
    let unaligned = cell_addr(0x10001);
    mem.write(&unaligned, constant(data_val, 8), no_null).unwrap();
    let read_bv = mem.read(&unaligned, 8, no_null).unwrap();
    exactly_one(&read_bv, data_val);
}

#[test]
fn read_and_write_across_cell_boundaries() {
    let mut mem = Memory::new_uninitialized(1, true, None, INDEX_BITS);
    // Store 64 bits of data such that half is in one cell and half in the next
    let data_val: u64 = 0x12345678_9abcdef0;
    let addr = cell_addr(0x10004);
    mem.write(&addr, constant(data_val, CELL_BITS), no_null).unwrap();
    let read_bv = mem.read(&addr, CELL_BITS, no_null).unwrap();
    exactly_one(&read_bv, data_val);
}

#[test]
fn cell_memory_read_and_write_symbolic_addr() {
    let mut mem = Memory::new_uninitialized(1, false, None, INDEX_BITS);
    let data_val: u64 = 0x12345678_9abcdef0;
    let addr = BvTerm::Var(1, INDEX_BITS);
    mem.write(&addr, constant(data_val, CELL_BITS), no_null).unwrap();
    let read_bv = mem.read(&addr, CELL_BITS, no_null).unwrap();
    exactly_one(&read_bv, data_val);
}

#[test]
fn read_and_write_twocells() {
    let mut mem = Memory::new_uninitialized(1, true, None, INDEX_BITS);
    let data_val_0: u64 = 0x12345678_9abcdef0;
    let data_val_1: u64 = 0x2468ace0_13579bdf;
    let write_val = concat(constant(data_val_1, 64), constant(data_val_0, 64));
    let addr = cell_addr(0x10000);
    mem.write(&addr, write_val, no_null).unwrap();
    let read_bv = mem.read(&addr, 128, no_null).unwrap();
    assert_eq!(read_bv.get_width(), 2 * CELL_BITS);
    slice_is(&read_bv, 63, 0, data_val_0);
    slice_is(&read_bv, 127, 64, data_val_1);
}

fn value_200() -> BvTerm {
    concat(
        constant(0xef, 8),
        concat(constant(0xfedcba98_76543210, 64), concat(constant(0x2468ace0_13579bdf, 64), constant(0x12345678_9abcdef0, 64))),
    )
}

fn check_200(read_bv: &BvTerm) {
    assert_eq!(read_bv.get_width(), 200);
    slice_is(read_bv, 63, 0, 0x12345678_9abcdef0);
    slice_is(read_bv, 127, 64, 0x2468ace0_13579bdf);
    slice_is(read_bv, 191, 128, 0xfedcba98_76543210);
    slice_is(read_bv, 199, 192, 0xef);
}

#[test]
fn cell_memory_read_and_write_200bits() {
    let mut mem = Memory::new_uninitialized(1, true, None, INDEX_BITS);
    let addr = cell_addr(0x10000);
    mem.write(&addr, value_200(), no_null).unwrap();
    let read_bv = mem.read(&addr, 200, no_null).unwrap();
    check_200(&read_bv);
}

#[test]
fn cell_memory_read_and_write_200bits_unaligned() {
    let mut mem = Memory::new_uninitialized(1, true, None, INDEX_BITS);
    let addr = cell_addr(0x10003);
    mem.write(&addr, value_200(), no_null).unwrap();
    let read_bv = mem.read(&addr, 200, no_null).unwrap();
    check_200(&read_bv);
}

#[test]
fn cell_memory_read_and_write_200bits_symbolic_addr() {
    let mut mem = Memory::new_uninitialized(1, false, None, INDEX_BITS);
    let addr = BvTerm::Var(1, INDEX_BITS);
    mem.write(&addr, value_200(), no_null).unwrap();
    let read_bv = mem.read(&addr, 200, no_null).unwrap();
    check_200(&read_bv);
}

#[test]
fn cell_memory_write_twice_read_once() {
    let mut mem = Memory::new_uninitialized(1, true, None, INDEX_BITS);
    let addr = cell_addr(0x10000);
    mem.write(&addr, constant(0x4F, 8), no_null).unwrap();
    let data_val = 0x3A;
    mem.write(&addr, constant(data_val, 8), no_null).unwrap();
    let read_bv = mem.read(&addr, 8, no_null).unwrap();
    exactly_one(&read_bv, data_val);
}

#[test]
fn write_different_cells() {
    let mut mem = Memory::new_uninitialized(1, true, None, INDEX_BITS);
    let data_val = 0x1234_5678;
    let addr = cell_addr(0x10000);
    mem.write(&addr, constant(data_val, 32), no_null).unwrap();
    let data_val_2 = 0xfedc_ba98;
    let addr_2 = cell_addr(0x10008);
    mem.write(&addr_2, constant(data_val_2, 32), no_null).unwrap();
    exactly_one(&mem.read(&addr, 32, no_null).unwrap(), data_val);
    exactly_one(&mem.read(&addr_2, 32, no_null).unwrap(), data_val_2);
}

#[test]
fn write_different_places_within_cell() {
    let mut mem = Memory::new_uninitialized(1, true, None, INDEX_BITS);
    let data_val = 0x1234_5678;
    let addr = cell_addr(0x10000);
    mem.write(&addr, constant(data_val, 32), no_null).unwrap();
    let data_val_2 = 0xfedc_ba98;
    let addr_2 = cell_addr(0x10004);
    mem.write(&addr_2, constant(data_val_2, 32), no_null).unwrap();
    exactly_one(&mem.read(&addr, 32, no_null).unwrap(), data_val);
    exactly_one(&mem.read(&addr_2, 32, no_null).unwrap(), data_val_2);
}

#[test]
fn cell_memory_write_small_read_big() {
    let mut mem = Memory::new_zero_initialized(true, None, INDEX_BITS);
    let unaligned = cell_addr(0x10001);
    mem.write(&unaligned, constant(0x4F, 8), no_null).unwrap();
    let aligned = cell_addr(0x10000);
    exactly_one(&mem.read(&aligned, 16, no_null).unwrap(), 0x4F00);
    exactly_one(&mem.read(&unaligned, 16, no_null).unwrap(), 0x004F);
    // the bytes around are still zero
    let next = cell_addr(0x10008);
    exactly_one(&mem.read(&next, 32, no_null).unwrap(), 0);
    exactly_one(&mem.read(&aligned, 8, no_null).unwrap(), 0);
}

#[test]
fn cell_memory_write_big_read_small() {
    let mut mem = Memory::new_uninitialized(1, true, None, INDEX_BITS);
    let offset_2 = cell_addr(0x10002);
    mem.write(&offset_2, constant(0x1234_5678, 32), no_null).unwrap();
    // reading 8 bits from that location gives the low-order byte (we are little-endian)
    exactly_one(&mem.read(&offset_2, 8, no_null).unwrap(), 0x78);
    // reading 8 bits from the end of that location gives the high-order byte
    exactly_one(&mem.read(&cell_addr(0x10005), 8, no_null).unwrap(), 0x12);
    // reading 16 bits from the middle gives the middle two bytes
    exactly_one(&mem.read(&cell_addr(0x10003), 16, no_null).unwrap(), 0x3456);
}

#[test]
fn cell_memory_partial_overwrite_aligned() {
    let mut mem = Memory::new_uninitialized(1, true, None, INDEX_BITS);
    let addr = cell_addr(0x10000);
    mem.write(&addr, constant(0x12345678_12345678, CELL_BITS), no_null).unwrap();
    let overwrite_data_val = 0xdcba;
    mem.write(&addr, constant(overwrite_data_val, 16), no_null).unwrap();
    exactly_one(&mem.read(&addr, 16, no_null).unwrap(), overwrite_data_val);
    exactly_one(&mem.read(&addr, CELL_BITS, no_null).unwrap(), 0x12345678_1234dcba);
}

#[test]
fn cell_memory_partial_overwrite_unaligned() {
    let mut mem = Memory::new_uninitialized(1, true, None, INDEX_BITS);
    let addr = cell_addr(0x10000);
    mem.write(&addr, constant(0x12345678_12345678, CELL_BITS), no_null).unwrap();
    let overwrite_addr = cell_addr(0x10002);
    let overwrite_data_val = 0xdcba;
    mem.write(&overwrite_addr, constant(overwrite_data_val, 16), no_null).unwrap();
    exactly_one(&mem.read(&overwrite_addr, 16, no_null).unwrap(), overwrite_data_val);
    exactly_one(&mem.read(&addr, CELL_BITS, no_null).unwrap(), 0x12345678_dcba5678);
    exactly_one(&mem.read(&cell_addr(0x10003), 16, no_null).unwrap(), 0x78dc);
}

#[test]
fn cell_memory_null_check() {
    let mem = Memory::new_uninitialized(1, true, None, INDEX_BITS);
    let addr = BvTerm::Var(2, INDEX_BITS);
    // the solver answers that the address can be NULL
    let r = mem.read(&addr, 8, || Ok(true));
    assert_eq!(r.err(), Some(haybale::Error::NullPointerDereference));
    // without null detection, the question is not asked
    let mem = Memory::new_uninitialized(1, false, None, INDEX_BITS);
    assert!(mem.read(&addr, 8, || Ok(true)).is_ok());
}

#[test]
fn cell_memory_write_at_top_of_memory() {
    // the cell after the last cell is cell zero
    let mut mem = Memory::new_zero_initialized(false, None, INDEX_BITS);
    let top = cell_addr(0xffff_ffff_ffff_fffc);
    mem.write(&top, constant(0x1122_3344_5566_7788, 64), no_null).unwrap();
    exactly_one(&mem.read(&top, 64, no_null).unwrap(), 0x1122_3344_5566_7788);
    exactly_one(&mem.read(&cell_addr(0), 32, no_null).unwrap(), 0x1122_3344);
}

// ---- memset and memcpy ----

fn never_null(_: &BvTerm) -> haybale::Result<bool> {
    Ok(false)
}

fn answer(b: bool) -> impl Fn() -> haybale::Result<bool> {
    move || Ok(b)
}

/// Each of the `n` bytes read at `addr` is `byte`.
fn bytes_are(mem: &Memory, addr: u64, n: u32, byte: u64) {
    let read = mem.read(&cell_addr(addr), 8 * n, no_null).unwrap();
    for k in 0..n as usize {
        slice_is(&read, 8 * k + 7, 8 * k, byte);
    }
}

#[test]
fn memset_concrete_length() {
    let mut mem = Memory::new_uninitialized(1, false, None, INDEX_BITS);
    let addr = cell_addr(0x10003);
    let r = memset(&mut mem, &addr, &constant(0x1ab, 32), &constant(12, 64), MemcpyLength::Concrete(12), 0, answer(false), answer(false), &never_null);
    exactly_one(&r.unwrap(), 0x10003);
    bytes_are(&mem, 0x10003, 12, 0xab);
}

#[test]
fn memset_zero_and_ones() {
    let mut mem = Memory::new_uninitialized(1, false, None, INDEX_BITS);
    memset(&mut mem, &cell_addr(0x20000), &constant(0, 8), &constant(20, 64), MemcpyLength::Concrete(20), 0, answer(true), answer(false), &never_null).unwrap();
    bytes_are(&mem, 0x20000, 20, 0);
    memset(&mut mem, &cell_addr(0x20005), &constant(0xff, 8), &constant(3, 64), MemcpyLength::Concrete(3), 0, answer(false), answer(true), &never_null).unwrap();
    bytes_are(&mem, 0x20005, 3, 0xff);
    bytes_are(&mem, 0x20000, 5, 0);
    bytes_are(&mem, 0x20008, 12, 0);
}

#[test]
fn memset_of_no_bytes_changes_nothing() {
    let mut mem = Memory::new_zero_initialized(false, None, INDEX_BITS);
    memset(&mut mem, &cell_addr(0x100), &constant(0x55, 2), &constant(0, 64), MemcpyLength::Concrete(0), 0, answer(false), answer(false), &never_null).unwrap();
    bytes_are(&mem, 0x100, 8, 0);
}

#[test]
fn memset_symbolic_length() {
    // the length is the variable 2, at most 5; in the environments it is 0, 5, 0x1234 and u64::MAX
    let mut mem = Memory::new_zero_initialized(false, None, INDEX_BITS);
    let n = BvTerm::Var(2, 64);
    memset(&mut mem, &cell_addr(0x3006), &constant(0x77, 8), &n, MemcpyLength::Symbolic, 5, answer(false), answer(false), &never_null).unwrap();
    let read = mem.read(&cell_addr(0x3006), 8 * 6, no_null).unwrap();
    for env in envs() {
        let len = env.vars.iter().find(|(i, _)| *i == 2).unwrap().1;
        let got = ev(&read, &env);
        for k in 0..6usize {
            let byte = to_u64(&got[8 * k..8 * k + 8]);
            let expected = if (k as u64) < len { 0x77 } else { 0 };
            assert_eq!(byte, expected, "byte {} with length {}", k, len);
        }
    }
}

#[test]
fn memcpy_concrete_length() {
    let mut mem = Memory::new_zero_initialized(false, None, INDEX_BITS);
    mem.write(&cell_addr(0x4001), constant(0x1122_3344_5566_7788, 64), no_null).unwrap();
    mem.write(&cell_addr(0x4009), constant(0x99aa, 16), no_null).unwrap();
    let dest = cell_addr(0x5005);
    let r = memcpy(&mut mem, &dest, &cell_addr(0x4001), &constant(10, 64), MemcpyLength::Concrete(10), 0, &never_null);
    exactly_one(&r.unwrap(), 0x5005);
    let read = mem.read(&dest, 80, no_null).unwrap();
    slice_is(&read, 63, 0, 0x1122_3344_5566_7788);
    slice_is(&read, 79, 64, 0x99aa);
}

#[test]
fn memcpy_symbolic_length() {
    let mut mem = Memory::new_zero_initialized(false, None, INDEX_BITS);
    mem.write(&cell_addr(0x6000), constant(0x0102_0304_0506_0708, 64), no_null).unwrap();
    let n = BvTerm::Var(2, 64);
    memcpy(&mut mem, &cell_addr(0x7003), &cell_addr(0x6000), &n, MemcpyLength::Symbolic, 6, &never_null).unwrap();
    let read = mem.read(&cell_addr(0x7003), 8 * 7, no_null).unwrap();
    for env in envs() {
        let len = env.vars.iter().find(|(i, _)| *i == 2).unwrap().1;
        let got = ev(&read, &env);
        for k in 0..7usize {
            let byte = to_u64(&got[8 * k..8 * k + 8]);
            let expected = if (k as u64) < len { 8 - k as u64 } else { 0 };
            assert_eq!(byte, expected, "byte {} with length {}", k, len);
        }
    }
}

#[test]
fn memcpy_with_null_check() {
    let mut mem = Memory::new_zero_initialized(true, None, INDEX_BITS);
    let null_everywhere = |_: &BvTerm| -> haybale::Result<bool> { Ok(true) };
    let r = memcpy(&mut mem, &cell_addr(0), &cell_addr(0x10), &constant(4, 64), MemcpyLength::Concrete(4), 0, &null_everywhere);
    assert!(matches!(r, Err(haybale::Error::NullPointerDereference)));
}

// ---- the memset and memcpy intrinsics ----

use haybale::layout::LlvmType;
use haybale::memory_intrinsics::{symex_memcpy, symex_memset};
use haybale::ReturnValue;

fn byte_ptr() -> LlvmType {
    LlvmType::PointerType(Box::new(LlvmType::IntegerType(8)))
}

fn other_message(r: haybale::Result<ReturnValue<BvTerm>>) -> String {
    match r {
        Err(haybale::Error::OtherError(m)) => m,
        other => panic!("expected an error with a message, got {:?}", other),
    }
}

#[test]
fn memset_intrinsic_returns() {
    let mut mem = Memory::new_zero_initialized(false, None, INDEX_BITS);
    let addr = cell_addr(0x8000);
    let decide = || Ok((MemcpyLength::Concrete(4), 4));
    let r = symex_memset(&mut mem, &addr, &byte_ptr(), &constant(0x5a, 8), &constant(4, 64), &LlvmType::VoidType, decide, answer(false), answer(false), &never_null);
    assert!(matches!(r, Ok(ReturnValue::ReturnVoid)));
    bytes_are(&mem, 0x8000, 4, 0x5a);
    let r = symex_memset(&mut mem, &addr, &byte_ptr(), &constant(0x5b, 8), &constant(4, 64), &byte_ptr(), decide, answer(false), answer(false), &never_null);
    match r {
        Ok(ReturnValue::Return(t)) => exactly_one(&t, 0x8000),
        other => panic!("unexpected {:?}", other),
    }
    bytes_are(&mem, 0x8000, 4, 0x5b);
    let r = symex_memset(&mut mem, &addr, &byte_ptr(), &constant(0x5c, 8), &constant(4, 64), &LlvmType::IntegerType(32), decide, answer(false), answer(false), &never_null);
    assert_eq!(other_message(r), format!("Unexpected return type for a memset: {:?}", LlvmType::IntegerType(32)));
}

#[test]
fn memset_intrinsic_checks_the_address_type() {
    let mut mem = Memory::new_zero_initialized(false, None, INDEX_BITS);
    let addr = cell_addr(0x8000);
    let decide = || Ok((MemcpyLength::Concrete(4), 4));
    let r = symex_memset(&mut mem, &addr, &LlvmType::IntegerType(64), &constant(1, 8), &constant(4, 64), &LlvmType::VoidType, decide, answer(false), answer(false), &never_null);
    assert_eq!(other_message(r), format!("memset: Expected address to have pointer type, got {:?}", LlvmType::IntegerType(64)));
    let to_i32 = LlvmType::PointerType(Box::new(LlvmType::IntegerType(32)));
    let r = symex_memset(&mut mem, &addr, &to_i32, &constant(1, 8), &constant(4, 64), &LlvmType::VoidType, decide, answer(false), answer(false), &never_null);
    assert_eq!(other_message(r), format!("memset: Expected address to be a pointer to i8, got pointer to {:?}", LlvmType::IntegerType(32)));
    bytes_are(&mem, 0x8000, 4, 0);
    let failing = || Err(haybale::Error::Unsat);
    let r = symex_memset(&mut mem, &addr, &byte_ptr(), &constant(1, 8), &constant(4, 64), &LlvmType::VoidType, failing, answer(false), answer(false), &never_null);
    assert!(matches!(r, Err(haybale::Error::Unsat)));
}

#[test]
fn memcpy_intrinsic() {
    let mut mem = Memory::new_zero_initialized(false, None, INDEX_BITS);
    mem.write(&cell_addr(0x9000), constant(0xdead_beef, 32), no_null).unwrap();
    let decide = || Ok((MemcpyLength::Concrete(4), 4));
    let r = symex_memcpy(&mut mem, &cell_addr(0x9100), &byte_ptr(), &cell_addr(0x9000), &byte_ptr(), &constant(4, 64), &byte_ptr(), decide, &never_null);
    match r {
        Ok(ReturnValue::Return(t)) => exactly_one(&t, 0x9100),
        other => panic!("unexpected {:?}", other),
    }
    let read = mem.read(&cell_addr(0x9100), 32, no_null).unwrap();
    exactly_one(&read, 0xdead_beef);
    let to_i16 = LlvmType::PointerType(Box::new(LlvmType::IntegerType(16)));
    let r = symex_memcpy(&mut mem, &cell_addr(0x9100), &byte_ptr(), &cell_addr(0x9000), &to_i16, &constant(4, 64), &LlvmType::VoidType, decide, &never_null);
    assert_eq!(other_message(r), format!("memcpy: Expected dest to be a pointer to i8, got pointer to {:?}", LlvmType::IntegerType(16)));
    let r = symex_memcpy(&mut mem, &cell_addr(0x9100), &LlvmType::VoidType, &cell_addr(0x9000), &byte_ptr(), &constant(4, 64), &LlvmType::VoidType, decide, &never_null);
    assert_eq!(other_message(r), format!("memcpy: Expected dest to have pointer type, got {:?}", LlvmType::VoidType));
    let huge = || Ok((MemcpyLength::Concrete(1 << 30), 0));
    let r = symex_memcpy(&mut mem, &cell_addr(0x9100), &byte_ptr(), &cell_addr(0x9000), &byte_ptr(), &constant(4, 64), &LlvmType::VoidType, huge, &never_null);
    assert_eq!(other_message(r), "memcpy too big: 1073741824 bytes");
}

// ---- allocation ----

use haybale::alloc_utils::{calloc, calloc_hook, free_hook, malloc, malloc_hook, realloc, realloc_hook, zalloc, MAX_ALLOCATION_SIZE_BYTES};
use haybale::bump_alloc::Alloc;

fn address_of(t: &BvTerm) -> u64 {
    match t {
        BvTerm::Const(a, 64) => *a,
        other => panic!("expected a constant address, got {:?}", other),
    }
}

#[test]
fn malloc_places_allocations() {
    let mut alloc = Alloc::new();
    // sixteen bytes do not fit in what is left of the first cell, so the allocation starts at the next one
    let a = address_of(&malloc(&mut alloc, Some(16)));
    assert_eq!(a, Alloc::ALLOC_START + 8);
    assert_eq!(alloc.get_allocation_size(a), Some(128));
    let b = address_of(&malloc(&mut alloc, Some(4)));
    assert_eq!(b, Alloc::ALLOC_START + 24);
    let c = address_of(&malloc(&mut alloc, None));
    assert_eq!(alloc.get_allocation_size(c), Some(8 * MAX_ALLOCATION_SIZE_BYTES));
}

#[test]
fn zalloc_and_calloc_zero_the_memory() {
    let mut alloc = Alloc::new();
    let mut mem = Memory::new_uninitialized(3, false, None, INDEX_BITS);
    let a = address_of(&zalloc(&mut alloc, &mut mem, Some(12), no_null).unwrap());
    bytes_are(&mem, a, 12, 0);
    let b = address_of(&calloc(&mut alloc, &mut mem, Some(3), Some(5), no_null).unwrap());
    assert_eq!(alloc.get_allocation_size(b), Some(120));
    bytes_are(&mem, b, 15, 0);
}

#[test]
fn realloc_keeps_or_copies() {
    let mut alloc = Alloc::new();
    let mut mem = Memory::new_zero_initialized(false, None, INDEX_BITS);
    let a = address_of(&malloc(&mut alloc, Some(4)));
    mem.write(&cell_addr(a), constant(0xdead_beef, 32), no_null).unwrap();
    // large enough already
    let same = realloc(&mut alloc, &mut mem, a, Some(2), no_null, no_null).unwrap();
    assert_eq!(address_of(&same), a);
    // a new, larger allocation, with the contents copied over
    let moved = address_of(&realloc(&mut alloc, &mut mem, a, Some(16), no_null, no_null).unwrap());
    assert_ne!(moved, a);
    assert_eq!(alloc.get_allocation_size(moved), Some(128));
    exactly_one(&mem.read(&cell_addr(moved), 32, no_null).unwrap(), 0xdead_beef);
    match realloc(&mut alloc, &mut mem, 0x1234, Some(16), no_null, no_null) {
        Err(haybale::Error::OtherError(m)) => assert_eq!(m, "realloc: failed to get old allocation size"),
        other => panic!("unexpected {:?}", other),
    }
}

#[test]
fn allocation_hooks() {
    let mut alloc = Alloc::new();
    let mut mem = Memory::new_uninitialized(4, false, None, INDEX_BITS);
    let i64t = LlvmType::IntegerType(64);
    match malloc_hook(&mut alloc, Some(8), &i64t, &byte_ptr()) {
        Ok(ReturnValue::Return(t)) => assert_eq!(address_of(&t), Alloc::ALLOC_START),
        other => panic!("unexpected {:?}", other),
    }
    match malloc_hook(&mut alloc, Some(8), &byte_ptr(), &byte_ptr()) {
        Err(haybale::Error::OtherError(m)) => assert_eq!(m, format!("malloc_hook: expected argument to have integer type, but got {:?}", byte_ptr())),
        other => panic!("unexpected {:?}", other),
    }
    match malloc_hook(&mut alloc, Some(8), &i64t, &i64t) {
        Err(haybale::Error::OtherError(m)) => assert_eq!(m, format!("malloc_hook: expected return type to be a pointer type, but got {:?}", i64t)),
        other => panic!("unexpected {:?}", other),
    }
    match calloc_hook(&mut alloc, &mut mem, Some(2), &i64t, Some(4), &i64t, &byte_ptr(), no_null) {
        Ok(ReturnValue::Return(t)) => bytes_are(&mem, address_of(&t), 8, 0),
        other => panic!("unexpected {:?}", other),
    }
    match calloc_hook(&mut alloc, &mut mem, Some(2), &i64t, Some(4), &LlvmType::VoidType, &byte_ptr(), no_null) {
        Err(haybale::Error::OtherError(m)) => assert_eq!(m, format!("calloc_hook: expected second argument to have integer type, but got {:?}", LlvmType::VoidType)),
        other => panic!("unexpected {:?}", other),
    }
    assert!(matches!(free_hook(), Ok(ReturnValue::ReturnVoid)));
    match realloc_hook(&mut alloc, &mut mem, Alloc::ALLOC_START, &i64t, Some(4), &i64t, &byte_ptr(), no_null, no_null) {
        Err(haybale::Error::OtherError(m)) => assert_eq!(m, format!("realloc_hook: expected first argument to be a pointer type, but got {:?}", i64t)),
        other => panic!("unexpected {:?}", other),
    }
    match realloc_hook(&mut alloc, &mut mem, Alloc::ALLOC_START, &byte_ptr(), Some(4), &i64t, &byte_ptr(), no_null, no_null) {
        Ok(ReturnValue::Return(t)) => assert_eq!(address_of(&t), Alloc::ALLOC_START),
        other => panic!("unexpected {:?}", other),
    }
}

// ---- exception hooks ----

use haybale::exceptions::{cxa_allocate_exception, cxa_begin_catch, cxa_end_catch, cxa_throw, llvm_eh_typeid_for};

#[test]
fn exception_hooks() {
    let mut alloc = Alloc::new();
    let mut mem = Memory::new_uninitialized(5, false, None, INDEX_BITS);
    let i64t = LlvmType::IntegerType(64);
    let thrown = match cxa_allocate_exception(&mut alloc, &mut mem, Some(16), &i64t, &byte_ptr(), no_null) {
        Ok(ReturnValue::Return(t)) => t,
        other => panic!("unexpected {:?}", other),
    };
    bytes_are(&mem, address_of(&thrown), 16, 0);
    match cxa_allocate_exception(&mut alloc, &mut mem, Some(16), &i64t, &i64t, no_null) {
        Err(haybale::Error::OtherError(m)) => {
            assert_eq!(m, format!("__cxa_allocate_exception: expected return type to be a pointer type, but got {:?}", i64t))
        },
        other => panic!("unexpected {:?}", other),
    }
    match cxa_throw(&thrown, &byte_ptr(), &byte_ptr()) {
        Ok(ReturnValue::Throw(t)) => assert_eq!(address_of(&t), address_of(&thrown)),
        other => panic!("unexpected {:?}", other),
    }
    match cxa_throw(&thrown, &byte_ptr(), &i64t) {
        Err(haybale::Error::OtherError(m)) => assert_eq!(m, format!("__cxa_throw: expected second argument to be some pointer type, got {:?}", i64t)),
        other => panic!("unexpected {:?}", other),
    }
    match cxa_begin_catch(&thrown) {
        Ok(ReturnValue::Return(t)) => assert_eq!(address_of(&t), address_of(&thrown)),
        other => panic!("unexpected {:?}", other),
    }
    assert!(matches!(cxa_end_catch(), Ok(ReturnValue::ReturnVoid)));
    let (rv, c) = llvm_eh_typeid_for(2);
    assert!(matches!(rv, ReturnValue::Return(BvTerm::Var(2, 32))));
    // variable 2 is 0, 5, 0x1234 and u64::MAX (negative as 32 bits) in the environments
    let expected = [true, true, true, false];
    for (env, e) in envs().iter().zip(expected) {
        assert_eq!(ev_sle(&c, env), e);
    }
}

/// The value of a constraint `0 <= x` (signed) over the memory evaluator.
fn ev_sle(t: &BvTerm, env: &TestEnv) -> bool {
    match t {
        BvTerm::Sle(a, b) => {
            let x = ev(a, env);
            let y = ev(b, env);
            let s = |v: &[bool]| -> i128 {
                let u = value(v) as i128;
                if *v.last().unwrap() { u - (1i128 << v.len()) } else { u }
            };
            s(&x) <= s(&y)
        },
        other => panic!("expected a signed comparison, got {:?}", other),
    }
}
