//! Conversion of constants to terms: the terms are evaluated, and their
//! values checked.

use haybale::bv_term::BvTerm;
use haybale::constants::{const_to_bv, BinaryOp, Constant, IntPredicate, Reinterpret, Resize};
use haybale::layout::{LlvmType, NamedStructDecl};
use haybale::project::{Project, ProjectModule};
use haybale::Error;

/// The value of a closed term, as bits, least significant first.
fn ev(t: &BvTerm) -> Vec<bool> {
    let bin = |a: &BvTerm, b: &BvTerm| (ev(a), ev(b));
    match t {
        BvTerm::Const(v, w) => (0..*w as usize).map(|k| k < 64 && (v >> k) & 1 == 1).collect(),
        BvTerm::Zero(w) => vec![false; *w as usize],
        BvTerm::Ones(w) => vec![true; *w as usize],
        BvTerm::Slice(a, hi, lo) => ev(a)[*lo as usize..=*hi as usize].to_vec(),
        BvTerm::Uext(a, k) => {
            let mut x = ev(a);
            x.extend(std::iter::repeat(false).take(*k as usize));
            x
        },
        BvTerm::Sext(a, k) => {
            let mut x = ev(a);
            let top = *x.last().unwrap();
            x.extend(std::iter::repeat(top).take(*k as usize));
            x
        },
        BvTerm::Concat(a, b) => {
            let mut x = ev(b);
            x.extend(ev(a));
            x
        },
        BvTerm::Not(a) => ev(a).iter().map(|p| !p).collect(),
        BvTerm::And(a, b) => {
            let (x, y) = bin(a, b);
            x.iter().zip(y).map(|(p, q)| *p && q).collect()
        },
        BvTerm::Or(a, b) => {
            let (x, y) = bin(a, b);
            x.iter().zip(y).map(|(p, q)| *p || q).collect()
        },
        BvTerm::Xor(a, b) => {
            let (x, y) = bin(a, b);
            x.iter().zip(y).map(|(p, q)| *p != q).collect()
        },
        BvTerm::Eq(a, b) => vec![ev(a) == ev(b)],
        BvTerm::Ite(c, a, b) => {
            if ev(c)[0] {
                ev(a)
            } else {
                ev(b)
            }
        },
        BvTerm::Add(a, b) => arith(a, b, |x, y, m| (x + y) & m),
        BvTerm::Sub(a, b) => arith(a, b, |x, y, m| x.wrapping_sub(y) & m),
        BvTerm::Mul(a, b) => arith(a, b, |x, y, m| x.wrapping_mul(y) & m),
        BvTerm::Udiv(a, b) => arith(a, b, |x, y, m| if y == 0 { m } else { x / y }),
        BvTerm::Urem(a, b) => arith(a, b, |x, y, _| if y == 0 { x } else { x % y }),
        BvTerm::Sdiv(a, b) => signed_arith(a, b, |x, y| if y == 0 { if x < 0 { 1 } else { -1 } } else { x / y }),
        BvTerm::Srem(a, b) => signed_arith(a, b, |x, y| if y == 0 { x } else { x % y }),
        BvTerm::Sll(a, b) => {
            let (x, y) = bin(a, b);
            let n = num(&y) as usize;
            (0..x.len()).map(|k| k >= n && x[k - n]).collect()
        },
        BvTerm::Srl(a, b) => {
            let (x, y) = bin(a, b);
            let n = num(&y) as usize;
            (0..x.len()).map(|k| k + n < x.len() && x[k + n]).collect()
        },
        BvTerm::Sra(a, b) => {
            let (x, y) = bin(a, b);
            let n = num(&y) as usize;
            (0..x.len()).map(|k| if k + n < x.len() { x[k + n] } else { x[x.len() - 1] }).collect()
        },
        BvTerm::Ult(a, b) => vec![num(&ev(a)) < num(&ev(b))],
        BvTerm::Ule(a, b) => vec![num(&ev(a)) <= num(&ev(b))],
        BvTerm::Slt(a, b) => vec![snum(&ev(a)) < snum(&ev(b))],
        BvTerm::Sle(a, b) => vec![snum(&ev(a)) <= snum(&ev(b))],
        other => panic!("constants do not make {:?}", other),
    }
}

fn num(s: &[bool]) -> u128 {
    s.iter().enumerate().filter(|(_, b)| **b).map(|(k, _)| 1u128 << k).sum()
}

fn snum(s: &[bool]) -> i128 {
    let v = num(s) as i128;
    if *s.last().unwrap() {
        v - (1i128 << s.len())
    } else {
        v
    }
}

fn bits(v: u128, w: usize) -> Vec<bool> {
    (0..w).map(|k| (v >> k) & 1 == 1).collect()
}

fn arith(a: &BvTerm, b: &BvTerm, f: impl Fn(u128, u128, u128) -> u128) -> Vec<bool> {
    let x = ev(a);
    let w = x.len();
    let m = if w >= 128 { u128::MAX } else { (1u128 << w) - 1 };
    bits(f(num(&x), num(&ev(b)), m), w)
}

fn signed_arith(a: &BvTerm, b: &BvTerm, f: impl Fn(i128, i128) -> i128) -> Vec<bool> {
    let x = ev(a);
    let w = x.len();
    let r = f(snum(&x), snum(&ev(b)));
    bits(r as u128, w)
}

fn project() -> Project {
    Project {
        modules: vec![ProjectModule {
            name: "test_mod".to_owned(),
            functions: vec![],
            named_structs: vec![
                NamedStructDecl { name: "opaque".to_owned(), def: None },
                NamedStructDecl {
                    name: "pair".to_owned(),
                    def: Some(LlvmType::StructType(vec![LlvmType::IntegerType(32), LlvmType::IntegerType(32)])),
                },
            ],
        }],
        pointer_size_bits: 64,
    }
}

fn int_const(bits: u32, value: u64) -> Constant {
    Constant::Int { bits, value }
}

fn value_of(c: &Constant) -> u128 {
    let globals = vec![("g".to_owned(), 0x1000u64)];
    num(&ev(&const_to_bv(&project(), 0, &globals, c).unwrap()))
}

fn width_of(c: &Constant) -> usize {
    ev(&const_to_bv(&project(), 0, &vec![], c).unwrap()).len()
}

fn error_of(c: &Constant) -> Error {
    let globals = vec![("g".to_owned(), 0x1000u64)];
    match const_to_bv(&project(), 0, &globals, c) {
        Err(e) => e,
        Ok(t) => panic!("expected an error, got {:?}", t),
    }
}

fn bx(c: Constant) -> Box<Constant> {
    Box::new(c)
}

#[test]
fn integers() {
    assert_eq!(value_of(&int_const(32, 5)), 5);
    assert_eq!(width_of(&int_const(32, 5)), 32);
    assert_eq!(value_of(&int_const(1, 1)), 1);
    // wider than 64 bits: the 64-bit value is sign-extended
    assert_eq!(value_of(&int_const(128, u64::MAX)), u128::MAX);
    assert_eq!(value_of(&int_const(128, 7)), 7);
}

#[test]
fn zeros_and_aggregates() {
    assert_eq!(value_of(&Constant::Null(LlvmType::PointerType(Box::new(LlvmType::IntegerType(8))))), 0);
    assert_eq!(width_of(&Constant::AggregateZero(LlvmType::ArrayType(Box::new(LlvmType::IntegerType(16)), 3))), 48);
    assert_eq!(width_of(&Constant::Undef(LlvmType::IntegerType(7))), 7);
    // the first element goes lowest
    let s = Constant::Struct(vec![int_const(8, 0x01), int_const(16, 0x0203)]);
    assert_eq!(value_of(&s), 0x0203_01);
    assert_eq!(width_of(&s), 24);
    let a = Constant::Array(vec![int_const(8, 0xAA), int_const(8, 0xBB), int_const(8, 0xCC)]);
    assert_eq!(value_of(&a), 0xCCBBAA);
    // an opaque type has no zero value
    assert!(matches!(error_of(&Constant::Null(LlvmType::NamedStructType("opaque".to_owned()))), Error::OtherError(_)));
}

#[test]
fn aggregate_error_of_the_last_failing_element() {
    let s = Constant::Struct(vec![
        Constant::GlobalReference("nowhere".to_owned()),
        int_const(8, 1),
        Constant::ExtractElement(bx(int_const(8, 0)), bx(int_const(32, 0))),
    ]);
    assert!(matches!(error_of(&s), Error::MalformedInstruction(_)));
    let s = Constant::Struct(vec![Constant::ExtractElement(bx(int_const(8, 0)), bx(int_const(32, 0))), Constant::GlobalReference("nowhere".to_owned())]);
    assert!(matches!(error_of(&s), Error::OtherError(_)));
}

#[test]
fn globals() {
    assert_eq!(value_of(&Constant::GlobalReference("g".to_owned())), 0x1000);
    assert_eq!(
        error_of(&Constant::GlobalReference("h".to_owned())),
        Error::OtherError("const_to_bv: GlobalReference to h which was not found".to_owned())
    );
}

#[test]
fn binary_operations() {
    let op = |o: BinaryOp, x: u64, y: u64| value_of(&Constant::Binary(o, bx(int_const(8, x)), bx(int_const(8, y))));
    assert_eq!(op(BinaryOp::Add, 200, 100), 44);
    assert_eq!(op(BinaryOp::Sub, 3, 5), 254);
    assert_eq!(op(BinaryOp::Mul, 16, 17), 16);
    assert_eq!(op(BinaryOp::UDiv, 200, 7), 28);
    assert_eq!(op(BinaryOp::UDiv, 200, 0), 255);
    assert_eq!(op(BinaryOp::URem, 200, 7), 4);
    assert_eq!(op(BinaryOp::URem, 200, 0), 200);
    // -7 / 2 == -3, -7 % 2 == -1
    assert_eq!(op(BinaryOp::SDiv, 0xF9, 2), 0xFD);
    assert_eq!(op(BinaryOp::SRem, 0xF9, 2), 0xFF);
    assert_eq!(op(BinaryOp::And, 0xF0, 0x3C), 0x30);
    assert_eq!(op(BinaryOp::Or, 0xF0, 0x0C), 0xFC);
    assert_eq!(op(BinaryOp::Xor, 0xFF, 0x0F), 0xF0);
    assert_eq!(op(BinaryOp::Shl, 0x81, 1), 0x02);
    assert_eq!(op(BinaryOp::LShr, 0x80, 3), 0x10);
    assert_eq!(op(BinaryOp::AShr, 0x80, 3), 0xF0);
}

#[test]
fn comparisons() {
    let cmp = |p: IntPredicate, x: u64, y: u64| value_of(&Constant::ICmp(p, bx(int_const(8, x)), bx(int_const(8, y))));
    assert_eq!(cmp(IntPredicate::EQ, 3, 3), 1);
    assert_eq!(cmp(IntPredicate::NE, 3, 3), 0);
    assert_eq!(cmp(IntPredicate::UGT, 0x80, 1), 1);
    assert_eq!(cmp(IntPredicate::SGT, 0x80, 1), 0);
    assert_eq!(cmp(IntPredicate::SLT, 0x80, 1), 1);
    assert_eq!(cmp(IntPredicate::ULE, 2, 2), 1);
    assert_eq!(cmp(IntPredicate::SGE, 0xFF, 0xFE), 1);
    assert_eq!(width_of(&Constant::ICmp(IntPredicate::ULT, bx(int_const(32, 1)), bx(int_const(32, 2)))), 1);
}

#[test]
fn vector_elements() {
    let v = || Constant::Vector(vec![int_const(16, 10), int_const(16, 20), int_const(16, 30)]);
    assert_eq!(value_of(&Constant::ExtractElement(bx(v()), bx(int_const(32, 1)))), 20);
    assert_eq!(
        error_of(&Constant::ExtractElement(bx(v()), bx(int_const(32, 3)))),
        Error::MalformedInstruction("Constant::ExtractElement index out of range".to_owned())
    );
    assert!(matches!(error_of(&Constant::ExtractElement(bx(int_const(16, 0)), bx(int_const(32, 0)))), Error::MalformedInstruction(_)));
    assert!(matches!(error_of(&Constant::ExtractElement(bx(v()), bx(Constant::Null(LlvmType::IntegerType(32))))), Error::MalformedInstruction(_)));
}

#[test]
fn conversions() {
    let c = || bx(int_const(16, 0x8001));
    assert_eq!(value_of(&Constant::Resize(Resize::Trunc, c(), LlvmType::IntegerType(8))), 0x01);
    assert_eq!(value_of(&Constant::Resize(Resize::ZExt, c(), LlvmType::IntegerType(32))), 0x8001);
    assert_eq!(value_of(&Constant::Resize(Resize::SExt, c(), LlvmType::IntegerType(32))), 0xFFFF_8001);
    assert_eq!(value_of(&Constant::Resize(Resize::SExt, c(), LlvmType::IntegerType(16))), 0x8001);
    assert_eq!(value_of(&Constant::Reinterpret(Reinterpret::BitCast, c(), LlvmType::IntegerType(16))), 0x8001);
    assert_eq!(
        value_of(&Constant::Reinterpret(
            Reinterpret::PtrToInt,
            bx(Constant::GlobalReference("g".to_owned())),
            LlvmType::IntegerType(64)
        )),
        0x1000
    );
    assert_eq!(
        error_of(&Constant::Reinterpret(Reinterpret::BitCast, c(), LlvmType::NamedStructType("opaque".to_owned()))),
        Error::MalformedInstruction("BitCast result type is opaque struct type".to_owned())
    );
    assert!(matches!(
        error_of(&Constant::Resize(Resize::ZExt, c(), LlvmType::NamedStructType("opaque".to_owned()))),
        Error::OtherError(_)
    ));
}

#[test]
fn selects() {
    let sel = |c: Constant| value_of(&Constant::Select(bx(c), bx(int_const(8, 1)), bx(int_const(8, 2))));
    assert_eq!(sel(int_const(1, 1)), 1);
    assert_eq!(sel(int_const(1, 0)), 2);
    assert_eq!(
        error_of(&Constant::Select(
            bx(Constant::ICmp(IntPredicate::EQ, bx(int_const(8, 1)), bx(int_const(8, 1)))),
            bx(int_const(8, 1)),
            bx(int_const(8, 2))
        )),
        Error::MalformedInstruction("Constant::Select: Expected a constant condition".to_owned())
    );
}

#[test]
fn inserting_and_extracting() {
    let v = || Constant::Vector(vec![int_const(8, 1), int_const(8, 2), int_const(8, 3)]);
    let ins = Constant::InsertElement(bx(v()), bx(int_const(8, 9)), bx(int_const(32, 1)));
    assert_eq!(value_of(&ins), 0x03_09_01);
    assert_eq!(
        error_of(&Constant::InsertElement(bx(v()), bx(int_const(8, 9)), bx(int_const(32, 3)))),
        Error::MalformedInstruction("Constant::InsertElement index out of range".to_owned())
    );
    // { i8 1, { i16 2, i8 3 } }
    let s = || Constant::Struct(vec![int_const(8, 1), Constant::Struct(vec![int_const(16, 2), int_const(8, 3)])]);
    assert_eq!(value_of(&Constant::ExtractValue(bx(s()), vec![1, 0])), 2);
    assert_eq!(value_of(&Constant::ExtractValue(bx(s()), vec![])), value_of(&s()));
    assert_eq!(
        error_of(&Constant::ExtractValue(bx(s()), vec![2])),
        Error::MalformedInstruction("Constant::ExtractValue index out of range".to_owned())
    );
    let changed = Constant::InsertValue(bx(s()), bx(int_const(16, 0x7777)), vec![1, 0]);
    // bits: 8 (1) | 16 (0x7777) | 8 (3)
    assert_eq!(value_of(&changed), 0x03_7777_01);
    let whole = Constant::InsertValue(bx(s()), bx(int_const(8, 5)), vec![]);
    assert_eq!(value_of(&whole), 5);
    assert_eq!(
        error_of(&Constant::InsertValue(bx(s()), bx(int_const(8, 5)), vec![1, 5])),
        Error::MalformedInstruction("Constant::InsertValue index out of range".to_owned())
    );
}

fn gep(ty: LlvmType, ixs: Vec<Constant>) -> Constant {
    Constant::GetElementPtr(bx(Constant::GlobalReference("g".to_owned())), LlvmType::PointerType(Box::new(ty)), ixs)
}

#[test]
fn address_computations() {
    let arr_t = || LlvmType::ArrayType(Box::new(LlvmType::IntegerType(32)), 4);
    assert_eq!(value_of(&gep(arr_t(), vec![int_const(64, 0), int_const(64, 2)])), 0x1008);
    assert_eq!(value_of(&gep(arr_t(), vec![int_const(64, 1), int_const(64, 1)])), 0x1014);
    // a narrower index is zero-extended
    assert_eq!(value_of(&gep(arr_t(), vec![int_const(8, 0xFF)])), 0x1000 + 0xFF * 16);
    let st = || LlvmType::StructType(vec![LlvmType::IntegerType(8), LlvmType::IntegerType(32), LlvmType::IntegerType(64)]);
    assert_eq!(value_of(&gep(st(), vec![int_const(32, 0), int_const(32, 2)])), 0x1005);
    let pair = || LlvmType::NamedStructType("pair".to_owned());
    assert_eq!(value_of(&gep(pair(), vec![int_const(32, 0), int_const(32, 1)])), 0x1004);
    assert_eq!(value_of(&gep(pair(), vec![])), 0x1000);
    // the pointee's size is needed for the first index, and has none
    assert_eq!(
        error_of(&gep(LlvmType::NamedStructType("nowhere".to_owned()), vec![int_const(32, 0), int_const(32, 0)])),
        Error::OtherError("get_offset encountered an opaque struct type".to_owned())
    );
    assert_eq!(
        error_of(&gep(LlvmType::NamedStructType("opaque".to_owned()), vec![int_const(32, 0), int_const(32, 0)])),
        Error::OtherError("get_offset encountered an opaque struct type".to_owned())
    );
    assert_eq!(
        error_of(&gep(st(), vec![int_const(32, 0), Constant::Null(LlvmType::IntegerType(32))])),
        Error::MalformedInstruction("Expected index into struct type to be a constant int".to_owned())
    );
    assert_eq!(
        error_of(&gep(LlvmType::IntegerType(1), vec![int_const(64, 1)])),
        Error::UnsupportedInstruction("Encountered a type with size 1 bits".to_owned())
    );
}

#[test]
fn const_bv() {
    // create an llvm-ir value which is constant 3
    let constint = int_const(64, 3);

    // this should create a corresponding BV value which is also constant 3
    let bv = const_to_bv(&project(), 0, &vec![], &constint).unwrap();

    // check that the BV value was evaluated to 3
    assert_eq!(bv.as_u64(), Some(3));
    assert_eq!(num(&ev(&bv)), 3);
}

#[test]
fn const_bool() {
    // create llvm-ir constants true and false
    let consttrue = int_const(1, 1);
    let constfalse = int_const(1, 0);

    // this should create BV values true and false
    let bvtrue = const_to_bv(&project(), 0, &vec![], &consttrue).unwrap();
    let bvfalse = const_to_bv(&project(), 0, &vec![], &constfalse).unwrap();

    // check that the BV values are evaluated to true and false respectively
    assert_eq!(ev(&bvtrue), vec![true]);
    assert_eq!(ev(&bvfalse), vec![false]);

    // the constraints: all hold while only the first is asserted, not once
    // the second is too
    let mut asserted = vec![bvtrue];
    assert!(asserted.iter().all(|c| ev(c) == vec![true]));
    asserted.push(bvfalse);
    assert!(!asserted.iter().all(|c| ev(c) == vec![true]));
}
