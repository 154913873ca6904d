//! Reads and writes of the byte-based memory, with the values read checked in
//! several environments.

use haybale::bv_term::{ArrayTerm, BvTerm};
use haybale::simple_memory::Memory;

// ---- evaluation of terms in a concrete environment, standing in for the solver ----

/// Values for the variables and the fresh arrays of terms.
struct TestEnv {
    vars: Vec<(u64, u64)>,
    fill: u64,
}

fn bits_of(v: u64, w: usize) -> Vec<bool> {
    (0..w).map(|k| k < 64 && (v >> k) & 1 == 1).collect()
}

fn fit(s: &[bool], w: usize) -> Vec<bool> {
    (0..w).map(|k| k < s.len() && s[k]).collect()
}

/// The number the bits denote, or `u128::MAX` if it does not fit.
fn value(s: &[bool]) -> u128 {
    let mut v: u128 = 0;
    for (k, b) in s.iter().enumerate() {
        if *b {
            if k >= 128 {
                return u128::MAX;
            }
            v |= 1u128 << k;
        }
    }
    v
}

fn to_u64(s: &[bool]) -> u64 {
    assert!(s.len() <= 64);
    value(s) as u64
}

fn ev(t: &BvTerm, env: &TestEnv) -> Vec<bool> {
    match t {
        BvTerm::Const(v, w) => bits_of(*v, *w as usize),
        BvTerm::Zero(w) => vec![false; *w as usize],
        BvTerm::Ones(w) => vec![true; *w as usize],
        BvTerm::Var(id, w) => {
            let v = env.vars.iter().find(|(i, _)| i == id).map(|(_, v)| *v).unwrap_or(0);
            bits_of(v, *w as usize)
        },
        BvTerm::Slice(a, hi, lo) => ev(a, env)[*lo as usize..=*hi as usize].to_vec(),
        BvTerm::Uext(a, k) => {
            let mut x = ev(a, env);
            x.extend(std::iter::repeat(false).take(*k as usize));
            x
        },
        BvTerm::Concat(a, b) => {
            let mut x = ev(b, env);
            x.extend(ev(a, env));
            x
        },
        BvTerm::Add(a, b) => {
            let x = ev(a, env);
            let y = ev(b, env);
            let mut carry = false;
            let mut out = Vec::new();
            for k in 0..x.len() {
                let s = (x[k] as u8) + (y[k] as u8) + (carry as u8);
                out.push(s % 2 == 1);
                carry = s >= 2;
            }
            out
        },
        BvTerm::Sll(a, b) => {
            let x = ev(a, env);
            let n = value(&ev(b, env));
            (0..x.len()).map(|k| (k as u128) >= n && x[k - n as usize]).collect()
        },
        BvTerm::Srl(a, b) => {
            let x = ev(a, env);
            let n = value(&ev(b, env));
            (0..x.len()).map(|k| (k as u128) + n < x.len() as u128 && x[k + n as usize]).collect()
        },
        BvTerm::And(a, b) => ev(a, env).iter().zip(ev(b, env)).map(|(p, q)| *p && q).collect(),
        BvTerm::Or(a, b) => ev(a, env).iter().zip(ev(b, env)).map(|(p, q)| *p || q).collect(),
        BvTerm::Not(a) => ev(a, env).iter().map(|p| !p).collect(),
        BvTerm::Read(arr, i) => read_array(arr, env, &ev(i, env)),
        BvTerm::Eq(a, b) => vec![ev(a, env) == ev(b, env)],
        BvTerm::Ite(c, a, b) => {
            if ev(c, env)[0] {
                ev(a, env)
            } else {
                ev(b, env)
            }
        },
        other => panic!("memory terms do not hold {:?}", other),
    }
}

fn read_array(a: &ArrayTerm, env: &TestEnv, j: &[bool]) -> Vec<bool> {
    match a {
        ArrayTerm::Fresh(id, _, e) => {
            let idx = value(j) as u64;
            fit(&bits_of(env.fill ^ idx.wrapping_mul(0x9e37_79b9_7f4a_7c15) ^ *id, 64), *e as usize)
        },
        ArrayTerm::Filled(_, v) => ev(v, env),
        ArrayTerm::Write(arr, i, v) => {
            if ev(i, env) == j {
                ev(v, env)
            } else {
                read_array(arr, env, j)
            }
        },
    }
}

/// Environments that differ in the contents of fresh memory and in the
/// values of the variables `1` and `2`.
fn envs() -> Vec<TestEnv> {
    vec![
        TestEnv { vars: vec![(1, 0x10000), (2, 0)], fill: 0 },
        TestEnv { vars: vec![(1, 0x2_0003), (2, 5)], fill: u64::MAX },
        TestEnv { vars: vec![(1, 0xffff_fffe), (2, 0x1234)], fill: 0x5555_aaaa_0f0f_f0f0 },
        TestEnv { vars: vec![(1, 0x7), (2, u64::MAX)], fill: 0x8000_0000_0000_0001 },
    ]
}

/// The term has this one value in every environment.
fn exactly_one(t: &BvTerm, expected: u64) {
    for env in envs() {
        let got = to_u64(&ev(t, &env));
        assert_eq!(got, expected, "got 0x{:x}, expected 0x{:x}", got, expected);
    }
}

/// Bits `lo..=hi` of the term have this one value in every environment.
fn slice_is(t: &BvTerm, hi: usize, lo: usize, expected: u64) {
    for env in envs() {
        let got = to_u64(&ev(t, &env)[lo..=hi]);
        assert_eq!(got, expected);
    }
}

fn constant(v: u64, w: u32) -> BvTerm {
    BvTerm::Const(v, w)
}

fn concat(hi: BvTerm, lo: BvTerm) -> BvTerm {
    BvTerm::Concat(Box::new(hi), Box::new(lo))
}

fn no_null() -> haybale::Result<bool> {
    Ok(false)
}

fn a64(v: u64) -> BvTerm {
    constant(v, 64)
}

#[test]
fn simple_memory_uninitialized() {
    let mem = Memory::new_uninitialized(7, true, None, 64);
    let read_bv = mem.read(&a64(0x10000), 64, no_null).unwrap();
    let vals: Vec<i64> = envs().iter().map(|e| to_u64(&ev(&read_bv, e)) as i64).collect();
    assert!(vals.iter().any(|v| *v > 0));
    assert!(vals.iter().any(|v| *v < 0));
}

#[test]
fn simple_memory_zero_initialized() {
    let mem = Memory::new_zero_initialized(true, None, 64);
    let read_bv = mem.read(&a64(0x10000), 64, no_null).unwrap();
    exactly_one(&read_bv, 0);
}

#[test]
fn simple_memory_read_and_write_to_cell_zero() {
    let mut mem = Memory::new_uninitialized(1, false, None, 64);
    let data_val = 0x1234_5678;
    let zero = BvTerm::Zero(64);
    mem.write(&zero, constant(data_val, 64), no_null).unwrap();
    exactly_one(&mem.read(&zero, 64, no_null).unwrap(), data_val);
}

#[test]
fn simple_memory_read_and_write_cell_aligned() {
    let mut mem = Memory::new_uninitialized(1, true, None, 64);
    let data_val = 0x1234_5678;
    let aligned = a64(0x10000);
    mem.write(&aligned, constant(data_val, 64), no_null).unwrap();
    exactly_one(&mem.read(&aligned, 64, no_null).unwrap(), data_val);
}

#[test]
fn simple_memory_read_and_write_small() {
    let mut mem = Memory::new_uninitialized(1, true, None, 64);
    let addr = a64(0x10000);
    mem.write(&addr, constant(0x4F, 8), no_null).unwrap();
    exactly_one(&mem.read(&addr, 8, no_null).unwrap(), 0x4F);
}

#[test]
fn read_and_write_small_32bitaddr() {
    let mut mem = Memory::new_uninitialized(1, true, None, 32);
    let addr = constant(0x10000, 32);
    mem.write(&addr, constant(0x4F, 8), no_null).unwrap();
    exactly_one(&mem.read(&addr, 8, no_null).unwrap(), 0x4F);
}

#[test]
fn simple_memory_read_single_bit() {
    let mut mem = Memory::new_uninitialized(1, true, None, 64);
    let addr = a64(0x10000);
    mem.write(&addr, constant(0x55, 8), no_null).unwrap();
    exactly_one(&mem.read(&addr, 1, no_null).unwrap(), 1);
}

#[test]
fn simple_memory_read_and_write_unaligned() {
    let mut mem = Memory::new_uninitialized(1, true, None, 64);
    let unaligned = a64(0x10001);
    mem.write(&unaligned, constant(0x4F, 8), no_null).unwrap();
    exactly_one(&mem.read(&unaligned, 8, no_null).unwrap(), 0x4F);
}

#[test]
fn read_and_write_64_bits() {
    let mut mem = Memory::new_uninitialized(1, true, None, 64);
    let data_val: u64 = 0x12345678_9abcdef0;
    let addr = a64(0x10004);
    mem.write(&addr, constant(data_val, 64), no_null).unwrap();
    exactly_one(&mem.read(&addr, 64, no_null).unwrap(), data_val);
}

#[test]
fn simple_memory_read_and_write_symbolic_addr() {
    let mut mem = Memory::new_uninitialized(1, false, None, 64);
    let data_val: u64 = 0x12345678_9abcdef0;
    let addr = BvTerm::Var(1, 64);
    mem.write(&addr, constant(data_val, 64), no_null).unwrap();
    exactly_one(&mem.read(&addr, 64, no_null).unwrap(), data_val);
}

fn value_200() -> BvTerm {
    concat(
        constant(0xef, 8),
        concat(constant(0xfedcba98_76543210, 64), concat(constant(0x2468ace0_13579bdf, 64), constant(0x12345678_9abcdef0, 64))),
    )
}

fn check_200(read_bv: &BvTerm) {
    assert_eq!(read_bv.get_width(), 200);
    slice_is(read_bv, 63, 0, 0x12345678_9abcdef0);
    slice_is(read_bv, 127, 64, 0x2468ace0_13579bdf);
    slice_is(read_bv, 191, 128, 0xfedcba98_76543210);
    slice_is(read_bv, 199, 192, 0xef);
}

#[test]
fn simple_memory_read_and_write_200bits() {
    let mut mem = Memory::new_uninitialized(1, true, None, 64);
    let addr = a64(0x10000);
    mem.write(&addr, value_200(), no_null).unwrap();
    check_200(&mem.read(&addr, 200, no_null).unwrap());
}

#[test]
fn simple_memory_read_and_write_200bits_unaligned() {
    let mut mem = Memory::new_uninitialized(1, true, None, 64);
    let addr = a64(0x10003);
    mem.write(&addr, value_200(), no_null).unwrap();
    check_200(&mem.read(&addr, 200, no_null).unwrap());
}

#[test]
fn simple_memory_read_and_write_200bits_symbolic_addr() {
    let mut mem = Memory::new_uninitialized(1, false, None, 64);
    let addr = BvTerm::Var(1, 64);
    mem.write(&addr, value_200(), no_null).unwrap();
    check_200(&mem.read(&addr, 200, no_null).unwrap());
}

#[test]
fn simple_memory_write_twice_read_once() {
    let mut mem = Memory::new_uninitialized(1, true, None, 64);
    let addr = a64(0x10000);
    mem.write(&addr, constant(0x4F, 8), no_null).unwrap();
    mem.write(&addr, constant(0x3A, 8), no_null).unwrap();
    exactly_one(&mem.read(&addr, 8, no_null).unwrap(), 0x3A);
}

#[test]
fn write_different_locations() {
    let mut mem = Memory::new_uninitialized(1, true, None, 64);
    let addr = a64(0x10000);
    mem.write(&addr, constant(0x1234_5678, 32), no_null).unwrap();
    let addr_2 = a64(0x10008);
    mem.write(&addr_2, constant(0xfedc_ba98, 32), no_null).unwrap();
    exactly_one(&mem.read(&addr, 32, no_null).unwrap(), 0x1234_5678);
    exactly_one(&mem.read(&addr_2, 32, no_null).unwrap(), 0xfedc_ba98);
}

#[test]
fn write_adjacent_locations() {
    let mut mem = Memory::new_uninitialized(1, true, None, 64);
    let addr = a64(0x10000);
    mem.write(&addr, constant(0x1234_5678, 32), no_null).unwrap();
    let addr_2 = a64(0x10004);
    mem.write(&addr_2, constant(0xfedc_ba98, 32), no_null).unwrap();
    exactly_one(&mem.read(&addr, 32, no_null).unwrap(), 0x1234_5678);
    exactly_one(&mem.read(&addr_2, 32, no_null).unwrap(), 0xfedc_ba98);
}

#[test]
fn simple_memory_write_small_read_big() {
    let mut mem = Memory::new_zero_initialized(true, None, 64);
    let unaligned = a64(0x10001);
    mem.write(&unaligned, constant(0x4F, 8), no_null).unwrap();
    exactly_one(&mem.read(&a64(0x10000), 16, no_null).unwrap(), 0x4F00);
    exactly_one(&mem.read(&unaligned, 16, no_null).unwrap(), 0x004F);
}

#[test]
fn simple_memory_write_big_read_small() {
    let mut mem = Memory::new_uninitialized(1, true, None, 64);
    let offset_2 = a64(0x10002);
    mem.write(&offset_2, constant(0x1234_5678, 32), no_null).unwrap();
    exactly_one(&mem.read(&offset_2, 8, no_null).unwrap(), 0x78);
    exactly_one(&mem.read(&a64(0x10005), 8, no_null).unwrap(), 0x12);
    exactly_one(&mem.read(&a64(0x10003), 16, no_null).unwrap(), 0x3456);
}

#[test]
fn write_big_read_small_32bitaddr() {
    let mut mem = Memory::new_uninitialized(1, true, None, 32);
    let offset_2 = constant(0x10002, 32);
    mem.write(&offset_2, constant(0x1234_5678, 32), no_null).unwrap();
    exactly_one(&mem.read(&offset_2, 8, no_null).unwrap(), 0x78);
    exactly_one(&mem.read(&constant(0x10005, 32), 8, no_null).unwrap(), 0x12);
    exactly_one(&mem.read(&constant(0x10003, 32), 16, no_null).unwrap(), 0x3456);
}

#[test]
fn simple_memory_partial_overwrite_aligned() {
    let mut mem = Memory::new_uninitialized(1, true, None, 64);
    let addr = a64(0x10000);
    mem.write(&addr, constant(0x12345678_12345678, 64), no_null).unwrap();
    mem.write(&addr, constant(0xdcba, 16), no_null).unwrap();
    exactly_one(&mem.read(&addr, 16, no_null).unwrap(), 0xdcba);
    exactly_one(&mem.read(&addr, 64, no_null).unwrap(), 0x12345678_1234dcba);
}

#[test]
fn simple_memory_partial_overwrite_unaligned() {
    let mut mem = Memory::new_uninitialized(1, true, None, 64);
    let addr = a64(0x10000);
    mem.write(&addr, constant(0x12345678_12345678, 64), no_null).unwrap();
    let overwrite_addr = a64(0x10002);
    mem.write(&overwrite_addr, constant(0xdcba, 16), no_null).unwrap();
    exactly_one(&mem.read(&overwrite_addr, 16, no_null).unwrap(), 0xdcba);
    exactly_one(&mem.read(&addr, 64, no_null).unwrap(), 0x12345678_dcba5678);
    exactly_one(&mem.read(&a64(0x10003), 16, no_null).unwrap(), 0x78dc);
}

#[test]
fn simple_memory_null_check() {
    let mem = Memory::new_uninitialized(1, true, None, 64);
    let r = mem.read(&a64(0), 8, || Ok(true));
    assert_eq!(r.err(), Some(haybale::Error::NullPointerDereference));
    let mut mem = Memory::new_uninitialized(1, true, None, 64);
    let r = mem.write(&a64(0), constant(1, 8), || Ok(true));
    assert_eq!(r, Err(haybale::Error::NullPointerDereference));
}
