//! The checked and saturating arithmetic intrinsics, on constant operands:
//! the terms built are evaluated to numbers.

use haybale::arith_intrinsics::{
    symex_sadd_sat, symex_sadd_with_overflow, symex_smul_with_overflow, symex_ssub_sat, symex_ssub_with_overflow,
    symex_uadd_sat, symex_uadd_with_overflow, symex_umul_with_overflow, symex_usub_sat, symex_usub_with_overflow,
};
use haybale::bv_term::BvTerm;
use haybale::layout::LlvmType;
use haybale::{Error, ReturnValue};

fn mask(w: u32) -> u128 {
    (1u128 << w) - 1
}

fn as_signed(v: u128, w: u32) -> i128 {
    if (v >> (w - 1)) & 1 == 1 {
        v as i128 - (1i128 << w)
    } else {
        v as i128
    }
}

fn fits(x: i128, w: u32) -> bool {
    -(1i128 << (w - 1)) <= x && x < (1i128 << (w - 1))
}

/// The value and width of a constant term.
fn ev(t: &BvTerm) -> (u128, u32) {
    let bin = |a: &BvTerm, b: &BvTerm| {
        let (x, w) = ev(a);
        let (y, _) = ev(b);
        (x, y, w)
    };
    match t {
        BvTerm::Const(v, w) => (*v as u128 & mask(*w), *w),
        BvTerm::Zero(w) => (0, *w),
        BvTerm::Ones(w) => (mask(*w), *w),
        BvTerm::Slice(a, hi, lo) => ((ev(a).0 >> lo) & mask(hi - lo + 1), hi - lo + 1),
        BvTerm::Concat(a, b) => {
            let (x, wa) = ev(a);
            let (y, wb) = ev(b);
            ((x << wb) | y, wa + wb)
        },
        BvTerm::Add(a, b) => {
            let (x, y, w) = bin(a, b);
            ((x + y) & mask(w), w)
        },
        BvTerm::Sub(a, b) => {
            let (x, y, w) = bin(a, b);
            (x.wrapping_sub(y) & mask(w), w)
        },
        BvTerm::Mul(a, b) => {
            let (x, y, w) = bin(a, b);
            ((x * y) & mask(w), w)
        },
        BvTerm::Neg(a) => {
            let (x, w) = ev(a);
            (0u128.wrapping_sub(x) & mask(w), w)
        },
        BvTerm::Ite(c, a, b) => {
            if ev(c).0 == 1 {
                ev(a)
            } else {
                ev(b)
            }
        },
        BvTerm::Uaddo(a, b) => {
            let (x, y, w) = bin(a, b);
            ((x + y > mask(w)) as u128, 1)
        },
        BvTerm::Saddo(a, b) => {
            let (x, y, w) = bin(a, b);
            (!fits(as_signed(x, w) + as_signed(y, w), w) as u128, 1)
        },
        BvTerm::Usubo(a, b) => {
            let (x, y, _) = bin(a, b);
            ((x < y) as u128, 1)
        },
        BvTerm::Ssubo(a, b) => {
            let (x, y, w) = bin(a, b);
            (!fits(as_signed(x, w) - as_signed(y, w), w) as u128, 1)
        },
        BvTerm::Umulo(a, b) => {
            let (x, y, w) = bin(a, b);
            ((x * y > mask(w)) as u128, 1)
        },
        BvTerm::Smulo(a, b) => {
            let (x, y, w) = bin(a, b);
            (!fits(as_signed(x, w) * as_signed(y, w), w) as u128, 1)
        },
        other => panic!("unexpected term {:?}", other),
    }
}

fn constant(bits: u32, value: i64) -> BvTerm {
    BvTerm::Const(value as u64 & (mask(bits) as u64), bits)
}

type Handler = fn(&BvTerm, &LlvmType, &BvTerm, &LlvmType) -> haybale::Result<ReturnValue<BvTerm>>;

/// The handler on two constants of `bits` bits.
fn call(f: Handler, bits: u32, a: i64, b: i64) -> BvTerm {
    let ty = LlvmType::IntegerType(bits);
    match f(&constant(bits, a), &ty, &constant(bits, b), &ty) {
        Ok(ReturnValue::Return(t)) => t,
        ret => panic!("Unexpected return value: {:?}", ret),
    }
}

/// The result and overflow bit of a checked intrinsic.
fn checked(f: Handler, bits: u32, a: i64, b: i64) -> (u64, u64) {
    let bv = call(f, bits, a, b);
    let (v, w) = ev(&bv);
    assert_eq!(w, bits + 1);
    ((v & mask(bits)) as u64, (v >> bits) as u64)
}

fn saturated(f: Handler, bits: u32, a: i64, b: i64) -> u64 {
    let (v, w) = ev(&call(f, bits, a, b));
    assert_eq!(w, bits);
    v as u64
}

#[test]
fn sadd_with_overflow() {
    assert_eq!(checked(symex_sadd_with_overflow, 8, 4, 100), (104, 0));
    // 164 unsigned, which is a negative value for 8-bit signed
    assert_eq!(checked(symex_sadd_with_overflow, 8, 64, 100), (164, 1));
}

#[test]
fn umul_with_overflow() {
    assert_eq!(checked(symex_umul_with_overflow, 8, 4, 8), (32, 0));
    assert_eq!(checked(symex_umul_with_overflow, 8, 8, 64), (0, 1));
}

#[test]
fn usubs() {
    // these are the examples from the LLVM 9 docs
    assert_eq!(saturated(symex_usub_sat, 4, 2, 1), 1);
    assert_eq!(saturated(symex_usub_sat, 4, 2, 6), 0);
}

#[test]
fn sadds() {
    // these are the examples from the LLVM 9 docs
    assert_eq!(saturated(symex_sadd_sat, 4, 1, 2), 3);
    assert_eq!(saturated(symex_sadd_sat, 4, 5, 6), 7);
    assert_eq!(saturated(symex_sadd_sat, 4, -4, 2), 0b1110); // -2
    assert_eq!(saturated(symex_sadd_sat, 4, -4, -5), 0b1000); // -8
}

#[test]
fn unsigned_checked_flags() {
    assert_eq!(checked(symex_uadd_with_overflow, 8, 200, 55), (255, 0));
    assert_eq!(checked(symex_uadd_with_overflow, 8, 200, 56), (0, 1));
    assert_eq!(checked(symex_usub_with_overflow, 8, 5, 5), (0, 0));
    assert_eq!(checked(symex_usub_with_overflow, 8, 5, 6), (255, 1));
    assert_eq!(checked(symex_umul_with_overflow, 16, 255, 257), (65535, 0));
    assert_eq!(checked(symex_umul_with_overflow, 16, 256, 256), (0, 1));
}

#[test]
fn signed_checked_flags() {
    assert_eq!(checked(symex_ssub_with_overflow, 8, -100, 28), (128, 0)); // -128
    assert_eq!(checked(symex_ssub_with_overflow, 8, -100, 29), (127, 1));
    assert_eq!(checked(symex_ssub_with_overflow, 8, 0, -128), (128, 1));
    assert_eq!(checked(symex_smul_with_overflow, 8, -16, 8), (128, 0)); // -128
    assert_eq!(checked(symex_smul_with_overflow, 8, 16, 8), (128, 1));
    assert_eq!(checked(symex_smul_with_overflow, 8, -1, -128), (128, 1));
    assert_eq!(checked(symex_sadd_with_overflow, 8, -128, -1), (127, 1));
}

#[test]
fn uadd_saturates_at_the_top() {
    assert_eq!(saturated(symex_uadd_sat, 4, 2, 1), 3);
    assert_eq!(saturated(symex_uadd_sat, 4, 5, 10), 15);
    assert_eq!(saturated(symex_uadd_sat, 4, 8, 8), 15);
    assert_eq!(saturated(symex_uadd_sat, 64, -1, 1), u64::MAX);
}

#[test]
fn ssub_saturates_both_ways() {
    // the examples from the LLVM docs
    assert_eq!(saturated(symex_ssub_sat, 4, 2, 1), 1);
    assert_eq!(saturated(symex_ssub_sat, 4, 2, 6), 0b1100); // -4
    assert_eq!(saturated(symex_ssub_sat, 4, -4, 5), 0b1000); // -8
    assert_eq!(saturated(symex_ssub_sat, 4, 4, -5), 7);
    // subtracting the least value adds it, as its negation is itself
    assert_eq!(saturated(symex_ssub_sat, 4, 3, -8), 0b1011); // -5
    assert_eq!(saturated(symex_ssub_sat, 4, -1, -8), 0b1000); // -8
}

#[test]
fn sadd_saturates_on_wide_operands() {
    assert_eq!(saturated(symex_sadd_sat, 32, i32::MAX as i64, 1), i32::MAX as u64);
    assert_eq!(saturated(symex_sadd_sat, 32, i32::MIN as i64, -1), (i32::MIN as u32) as u64);
}

#[test]
fn operands_of_different_types() {
    let a = constant(8, 1);
    let b = constant(16, 1);
    let i8t = LlvmType::IntegerType(8);
    let i16t = LlvmType::IntegerType(16);
    let handlers: Vec<(Handler, &str)> = vec![
        (symex_uadd_with_overflow, "symex_uadd_with_overflow"),
        (symex_sadd_with_overflow, "symex_sadd_with_overflow"),
        (symex_usub_with_overflow, "symex_usub_with_overflow"),
        (symex_ssub_with_overflow, "symex_ssub_with_overflow"),
        (symex_umul_with_overflow, "symex_umul_with_overflow"),
        (symex_smul_with_overflow, "symex_smul_with_overflow"),
        (symex_uadd_sat, "symex_uadd_sat"),
        (symex_sadd_sat, "symex_sadd_sat"),
        (symex_usub_sat, "symex_usub_sat"),
        (symex_ssub_sat, "symex_ssub_sat"),
    ];
    for (f, name) in handlers {
        match f(&a, &i8t, &b, &i16t) {
            Err(Error::OtherError(m)) => assert_eq!(
                m,
                format!(
                    "{}: expected arguments to be of the same type, but got types {:?} and {:?}",
                    name, i8t, i16t
                )
            ),
            other => panic!("expected a type mismatch error, got {:?}", other),
        }
    }
}

// ---- offsets at symbolic indices ----

use haybale::project::{Project, ProjectModule};

fn one_module_project() -> Project {
    Project {
        modules: vec![ProjectModule { name: "m".to_owned(), functions: vec![], named_structs: vec![] }],
        pointer_size_bits: 64,
    }
}

#[test]
fn offset_at_a_symbolic_index() {
    let proj = one_module_project();
    let ptr = LlvmType::PointerType(Box::new(LlvmType::IntegerType(32)));
    let (t, ty) = proj.get_offset_bv_index(&ptr, &constant(64, 3)).unwrap();
    assert_eq!(ev(&t), (12, 64));
    assert_eq!(*ty, LlvmType::IntegerType(32));
    let arr = LlvmType::ArrayType(Box::new(LlvmType::IntegerType(16)), 10);
    let (t, _) = proj.get_offset_bv_index(&arr, &constant(8, 200)).unwrap();
    // the product wraps around at the index's width
    assert_eq!(ev(&t), (400 % 256, 8));
    let bits = LlvmType::VectorType(Box::new(LlvmType::IntegerType(1)), 8, false);
    match proj.get_offset_bv_index(&bits, &constant(64, 1)) {
        Err(Error::UnsupportedInstruction(m)) => assert_eq!(m, "Encountered a type with size 1 bits"),
        other => panic!("unexpected {:?}", other),
    }
    let st = LlvmType::StructType(vec![LlvmType::IntegerType(8)]);
    match proj.get_offset_bv_index(&st, &constant(64, 0)) {
        Err(Error::MalformedInstruction(m)) => assert_eq!(
            m,
            "Index into struct type must be constant; consider using `get_offset_constant_index` instead of `get_offset_bv_index`"
        ),
        other => panic!("unexpected {:?}", other),
    }
    let opaque = LlvmType::PointerType(Box::new(LlvmType::NamedStructType("nowhere".to_owned())));
    match proj.get_offset_bv_index(&opaque, &constant(64, 0)) {
        Err(Error::OtherError(m)) => assert!(m.starts_with("get_offset encountered an opaque struct type: ")),
        other => panic!("unexpected {:?}", other),
    }
}
