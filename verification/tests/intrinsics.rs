//! The intrinsics that build a term from their operand: the terms built are
//! evaluated for concrete operand values.

use haybale::bv_term::BvTerm;
use haybale::intrinsics::{bswap, symex_assume, symex_bswap, symex_ctlz, symex_cttz, symex_objectsize};
use haybale::layout::{FPType, LlvmType, NamedStructDecl};
use haybale::project::{Project, ProjectModule};
use haybale::{Error, ReturnValue};

/// The value of a term whose only variable is `1`, with that variable set to `x`.
fn ev(t: &BvTerm, x: u64) -> Vec<bool> {
    match t {
        BvTerm::Const(v, w) => (0..*w as usize).map(|k| k < 64 && (v >> k) & 1 == 1).collect(),
        BvTerm::Zero(w) => vec![false; *w as usize],
        BvTerm::Ones(w) => vec![true; *w as usize],
        BvTerm::Var(1, w) => (0..*w as usize).map(|k| k < 64 && (x >> k) & 1 == 1).collect(),
        BvTerm::Slice(a, hi, lo) => ev(a, x)[*lo as usize..=*hi as usize].to_vec(),
        BvTerm::Concat(a, b) => {
            let mut v = ev(b, x);
            v.extend(ev(a, x));
            v
        },
        BvTerm::Add(a, b) => {
            let p = ev(a, x);
            let q = ev(b, x);
            let mut carry = false;
            let mut out = Vec::new();
            for k in 0..p.len() {
                let s = (p[k] as u8) + (q[k] as u8) + (carry as u8);
                out.push(s % 2 == 1);
                carry = s >= 2;
            }
            out
        },
        BvTerm::Sll(a, b) => {
            let p = ev(a, x);
            let n = to_u64(&ev(b, x)) as usize;
            (0..p.len()).map(|k| k >= n && p[k - n]).collect()
        },
        BvTerm::Srl(a, b) => {
            let p = ev(a, x);
            let n = to_u64(&ev(b, x)) as usize;
            (0..p.len()).map(|k| k + n < p.len() && p[k + n]).collect()
        },
        BvTerm::And(a, b) => ev(a, x).iter().zip(ev(b, x)).map(|(p, q)| *p && q).collect(),
        BvTerm::Eq(a, b) => vec![ev(a, x) == ev(b, x)],
        BvTerm::Ite(c, a, b) => {
            if ev(c, x)[0] {
                ev(a, x)
            } else {
                ev(b, x)
            }
        },
        other => panic!("unexpected term {:?}", other),
    }
}

fn to_u64(s: &[bool]) -> u64 {
    s.iter().enumerate().filter(|(k, b)| **b && *k < 64).map(|(k, _)| 1u64 << k).sum()
}

fn returned(r: haybale::Result<ReturnValue<BvTerm>>) -> BvTerm {
    match r {
        Ok(ReturnValue::Return(t)) => t,
        ret => panic!("Unexpected return value: {:?}", ret),
    }
}

fn err_of<T: std::fmt::Debug>(r: haybale::Result<T>) -> Error {
    match r {
        Err(e) => e,
        Ok(v) => panic!("expected an error, got {:?}", v),
    }
}

fn test_ctlz(width: u32, input: u64, output: u64) {
    let t = returned(symex_ctlz(&BvTerm::Var(1, width)));
    let outval = to_u64(&ev(&t, input));
    assert_eq!(outval, output, "Expected {}-bit ctlz({:#x}) = {}, got {}", width, input, output, outval);
}

fn test_cttz(width: u32, input: u64, output: u64) {
    let t = returned(symex_cttz(&BvTerm::Var(1, width)));
    let outval = to_u64(&ev(&t, input));
    assert_eq!(outval, output, "Expected {}-bit cttz({:#x}) = {}, got {}", width, input, output, outval);
}

#[test]
fn ctlz() {
    test_ctlz(32, 0, 32);
    test_ctlz(16, 0, 16);
    test_ctlz(8, 0, 8);
    test_ctlz(32, 1, 31);
    test_ctlz(16, 1, 15);
    test_ctlz(8, 1, 7);
    test_ctlz(32, 0x0000_000F, 28);
    test_ctlz(16, 0x000F, 12);
    test_ctlz(8, 0x0F, 4);
    test_ctlz(32, 0x0000_0008, 28);
    test_ctlz(16, 0x0008, 12);
    test_ctlz(8, 0x08, 4);
    test_ctlz(32, 0x0001_0000, 15);
    test_ctlz(16, 0x0100, 7);
    test_ctlz(8, 0x10, 3);
    test_ctlz(32, 0x0010_1234, 11);
    test_ctlz(16, 0x037B, 6);
    test_ctlz(8, 0x37, 2);
    test_ctlz(32, 0x5555_AAAA, 1);
    test_ctlz(16, 0x55AA, 1);
    test_ctlz(8, 0x5A, 1);
    test_ctlz(32, 0xFFFF_FFFF, 0);
    test_ctlz(16, 0xFFFF, 0);
    test_ctlz(8, 0xFF, 0);
    test_ctlz(32, 0x8000_000F, 0);
    test_ctlz(16, 0x800F, 0);
    test_ctlz(8, 0x8F, 0);
}

#[test]
fn cttz() {
    test_cttz(32, 0, 32);
    test_cttz(16, 0, 16);
    test_cttz(8, 0, 8);
    test_cttz(32, 1, 0);
    test_cttz(16, 1, 0);
    test_cttz(8, 1, 0);
    test_cttz(32, 0x8000_0000, 31);
    test_cttz(16, 0x8000, 15);
    test_cttz(8, 0x80, 7);
    test_cttz(32, 0xF000_0000, 28);
    test_cttz(16, 0xF000, 12);
    test_cttz(8, 0xF0, 4);
    test_cttz(32, 0x1000_0000, 28);
    test_cttz(16, 0x1000, 12);
    test_cttz(8, 0x10, 4);
    test_cttz(32, 0x0000_F000, 12);
    test_cttz(16, 0x00F0, 4);
    test_cttz(8, 0x0C, 2);
    test_cttz(32, 0x4321_FA00, 9);
    test_cttz(16, 0x43A0, 5);
    test_cttz(8, 0x48, 3);
    test_cttz(32, 0x5555_AAAA, 1);
    test_cttz(16, 0x55AA, 1);
    test_cttz(8, 0x5A, 1);
    test_cttz(32, 0xFFFF_FFFF, 0);
    test_cttz(16, 0xFFFF, 0);
    test_cttz(8, 0xFF, 0);
    test_cttz(32, 0xF000_0001, 0);
    test_cttz(16, 0xF001, 0);
    test_cttz(8, 0xF1, 0);
}

#[test]
fn count_every_byte_value() {
    for v in 0u64..=255 {
        let t = returned(symex_ctlz(&BvTerm::Var(1, 8)));
        assert_eq!(to_u64(&ev(&t, v)), (v as u8).leading_zeros() as u64);
        let t = returned(symex_cttz(&BvTerm::Var(1, 8)));
        assert_eq!(to_u64(&ev(&t, v)), (v as u8).trailing_zeros() as u64);
    }
}

#[test]
fn count_unsupported_width() {
    assert_eq!(
        err_of(symex_ctlz(&BvTerm::Var(1, 64))),
        Error::UnsupportedInstruction("ctlz intrinsic on an operand of width 64 bits".to_owned())
    );
    assert_eq!(
        err_of(symex_cttz(&BvTerm::Var(1, 12))),
        Error::UnsupportedInstruction("cttz intrinsic on an operand of width 12 bits".to_owned())
    );
}

#[test]
fn bswap_widths() {
    let t = bswap(&BvTerm::Var(1, 16), 16).unwrap();
    assert_eq!(to_u64(&ev(&t, 0x1234)), 0x3412);
    let t = bswap(&BvTerm::Var(1, 32), 32).unwrap();
    assert_eq!(to_u64(&ev(&t, 0x1234_5678)), 0x7856_3412);
    let t = bswap(&BvTerm::Var(1, 48), 48).unwrap();
    assert_eq!(to_u64(&ev(&t, 0x1122_3344_5566)), 0x6655_4433_2211);
    let t = bswap(&BvTerm::Var(1, 64), 64).unwrap();
    assert_eq!(to_u64(&ev(&t, 0x0102_0304_0506_0708)), 0x0807_0605_0403_0201);
    assert_eq!(
        err_of(bswap(&BvTerm::Var(1, 24), 24)),
        Error::UnsupportedInstruction("bswap on bitwidth 24".to_owned())
    );
}

fn empty_project() -> Project {
    Project {
        modules: vec![ProjectModule { name: "test_mod".to_owned(), functions: vec![], named_structs: Vec::<NamedStructDecl>::new() }],
        pointer_size_bits: 64,
    }
}

#[test]
fn bswap_integer_and_vector() {
    let proj = empty_project();
    let i32t = LlvmType::IntegerType(32);
    let t = returned(symex_bswap(&proj, &BvTerm::Var(1, 32), &i32t, &LlvmType::IntegerType(32)));
    assert_eq!(to_u64(&ev(&t, 0xAABB_CCDD)), 0xDDCC_BBAA);
    // a vector of two 16-bit elements: each element swapped in place
    let v = LlvmType::VectorType(Box::new(LlvmType::IntegerType(16)), 2, false);
    let v2 = LlvmType::VectorType(Box::new(LlvmType::IntegerType(16)), 2, false);
    let t = returned(symex_bswap(&proj, &BvTerm::Var(1, 32), &v, &v2));
    assert_eq!(to_u64(&ev(&t, 0x1122_3344)), 0x2211_4433);
}

#[test]
fn bswap_errors() {
    let proj = empty_project();
    let r = symex_bswap(&proj, &BvTerm::Var(1, 32), &LlvmType::IntegerType(32), &LlvmType::IntegerType(16));
    assert_eq!(err_of(r), Error::OtherError("Expected bswap argument to be the same type as its return type".to_owned()));
    let s = LlvmType::VectorType(Box::new(LlvmType::IntegerType(16)), 4, true);
    let s2 = LlvmType::VectorType(Box::new(LlvmType::IntegerType(16)), 4, true);
    let r = symex_bswap(&proj, &BvTerm::Var(1, 64), &s, &s2);
    assert_eq!(err_of(r), Error::UnsupportedInstruction("bswap on a scalable vector".to_owned()));
    let o = LlvmType::VectorType(Box::new(LlvmType::NamedStructType("opaque".to_owned())), 2, false);
    let o2 = LlvmType::VectorType(Box::new(LlvmType::NamedStructType("opaque".to_owned())), 2, false);
    let r = symex_bswap(&proj, &BvTerm::Var(1, 64), &o, &o2);
    assert!(matches!(err_of(r), Error::OtherError(_)));
    let b = LlvmType::VectorType(Box::new(LlvmType::IntegerType(8)), 4, false);
    let b2 = LlvmType::VectorType(Box::new(LlvmType::IntegerType(8)), 4, false);
    let r = symex_bswap(&proj, &BvTerm::Var(1, 32), &b, &b2);
    assert_eq!(err_of(r), Error::UnsupportedInstruction("bswap on bitwidth 8".to_owned()));
    let f = LlvmType::FPType(FPType::Double);
    let r = symex_bswap(&proj, &BvTerm::Var(1, 64), &f, &LlvmType::FPType(FPType::Double));
    match r {
        Err(Error::UnsupportedInstruction(m)) => assert!(m.starts_with("llvm.bswap with argument type ")),
        other => panic!("unexpected {:?}", other),
    }
}

#[test]
fn objectsize_is_unknown() {
    let proj = empty_project();
    let i64t = LlvmType::IntegerType(64);
    let t = returned(symex_objectsize(&proj, &BvTerm::Const(1, 1), &i64t));
    assert_eq!(to_u64(&ev(&t, 0)), 0);
    let t = returned(symex_objectsize(&proj, &BvTerm::Const(0, 1), &i64t));
    assert_eq!(to_u64(&ev(&t, 0)), u64::MAX);
    let t = returned(symex_objectsize(&proj, &BvTerm::Var(1, 1), &LlvmType::IntegerType(32)));
    assert_eq!(to_u64(&ev(&t, 1)), 0);
    assert_eq!(to_u64(&ev(&t, 0)), 0xffff_ffff);
    let r = symex_objectsize(&proj, &BvTerm::Const(0, 1), &LlvmType::NamedStructType("opaque".to_owned()));
    assert_eq!(
        err_of(r),
        Error::OtherError("symex_objectsize: return value of this call involves a struct type with no definition in the Project".to_owned())
    );
    let r = symex_objectsize(&proj, &BvTerm::Const(0, 1), &LlvmType::VoidType);
    assert_eq!(err_of(r), Error::OtherError("symex_objectsize: didn't expect return type to have size 0 bits".to_owned()));
}

#[test]
fn assume_adds_a_constraint_only_when_trusted() {
    let c = BvTerm::Var(1, 1);
    match symex_assume(&c, &LlvmType::IntegerType(1), true) {
        Ok((ReturnValue::ReturnVoid, Some(BvTerm::Var(1, 1)))) => {},
        other => panic!("unexpected {:?}", other),
    }
    assert!(matches!(symex_assume(&c, &LlvmType::IntegerType(1), false), Ok((ReturnValue::ReturnVoid, None))));
    match symex_assume(&c, &LlvmType::IntegerType(8), true) {
        Err(Error::OtherError(m)) => assert_eq!(m, format!("symex_assume: expected arg to be of type i1, got type {:?}", LlvmType::IntegerType(8))),
        other => panic!("unexpected {:?}", other),
    }
}

#[test]
fn type_texts() {
    let t = LlvmType::StructType(vec![
        LlvmType::PointerType(Box::new(LlvmType::IntegerType(8))),
        LlvmType::ArrayType(Box::new(LlvmType::FPType(FPType::X86_FP80)), 3),
        LlvmType::VectorType(Box::new(LlvmType::IntegerType(1)), 4, false),
        LlvmType::NamedStructType("struct.\"a\\b\"".to_owned()),
    ]);
    assert_eq!(t.debug_text(), format!("{:?}", t));
    assert_eq!(LlvmType::StructType(vec![]).debug_text(), "StructType([])");
    assert_eq!(LlvmType::VoidType.debug_text(), format!("{:?}", LlvmType::VoidType));
}
