//! Built-in handlers for the LLVM intrinsics of checked and saturating
//! arithmetic: `llvm.{u,s}{add,sub,mul}.with.overflow` and
//! `llvm.{u,s}{add,sub}.sat`.
//!
//! Each handler is given the two operands' terms and types. Operands of
//! different types are an error; otherwise the result's term is built, and
//! the contract says what it evaluates to in every environment.

use vstd::arithmetic::div_mod::{lemma_mod_multiples_vanish, lemma_mod_twice, lemma_small_mod};
use vstd::arithmetic::power2::{lemma_pow2_pos, pow2};
use vstd::prelude::*;

use crate::bv_ops::{clamp_signed, lemma_signed_bounds, lemma_signed_wrap, least_signed, sadds, ssubs, uadds, usubs};
use crate::bv_term::{
    bits_of, eval, fits_signed, lemma_bits_of_mod, lemma_eval_len, lemma_value_bits_of, lemma_value_bound, signed, value, width, wf, wrap, BvTerm, Env,
};
use crate::error::{Error, Result};
use crate::layout::{same_type, type_eq, LlvmType};
use crate::return_value::ReturnValue;

use crate::type_text::type_text;

verus! {

/// The arithmetic of the checked intrinsics.
#[derive(Clone, Copy)]
pub enum ArithOp {
    UnsignedAdd,
    SignedAdd,
    UnsignedSub,
    SignedSub,
    UnsignedMul,
    SignedMul,
}

/// The wrapped result of `op` on `x` and `y` (of the same width): the exact
/// result modulo two to the width.
pub open spec fn arith_result(op: ArithOp, x: Seq<bool>, y: Seq<bool>) -> Seq<bool> {
    let w = x.len();
    match op {
        ArithOp::UnsignedAdd | ArithOp::SignedAdd => bits_of(value(x) + value(y), w),
        ArithOp::UnsignedSub | ArithOp::SignedSub => wrap(value(x) - value(y), w),
        ArithOp::UnsignedMul | ArithOp::SignedMul => bits_of(value(x) * value(y), w),
    }
}

/// Whether the exact result of `op` on `x` and `y`, read unsigned or signed
/// as `op` says, lies outside the numbers of the width.
pub open spec fn arith_overflows(op: ArithOp, x: Seq<bool>, y: Seq<bool>) -> bool {
    let w = x.len();
    match op {
        ArithOp::UnsignedAdd => value(x) + value(y) >= pow2(w),
        ArithOp::SignedAdd => !fits_signed(signed(x) + signed(y), w),
        ArithOp::UnsignedSub => value(x) < value(y),
        ArithOp::SignedSub => !fits_signed(signed(x) - signed(y), w),
        ArithOp::UnsignedMul => value(x) * value(y) >= pow2(w),
        ArithOp::SignedMul => !fits_signed(signed(x) * signed(y), w),
    }
}

/// What the operands of a two-operand intrinsic must be: well formed, and,
/// where their types agree, of one width (at least `least_width`, and short
/// of the greatest width).
pub open spec fn operands_fit(a: BvTerm, ta: LlvmType, b: BvTerm, tb: LlvmType, least_width: nat) -> bool {
    &&& wf(a)
    &&& wf(b)
    &&& type_eq(ta, tb) ==> width(a) == width(b) && least_width <= width(a) < u32::MAX
}

/// `r` is the error that the operands of the intrinsic `name` have different
/// types (the message then names both).
pub open spec fn type_mismatch(r: Result<ReturnValue<BvTerm>>, name: Seq<char>) -> bool {
    r matches Err(Error::OtherError(m)) && (name + ": expected arguments to be of the same type, but got types "@).is_prefix_of(m@)
}

/// The outcome of a checked intrinsic: where the operand types agree, a term
/// one bit wider than the operands, whose low bits are the wrapped result and
/// whose top bit is the overflow flag; else the type mismatch error.
pub open spec fn checked_outcome(
    r: Result<ReturnValue<BvTerm>>,
    op: ArithOp,
    a: BvTerm,
    ta: LlvmType,
    b: BvTerm,
    tb: LlvmType,
    name: Seq<char>,
) -> bool {
    if type_eq(ta, tb) {
        &&& r matches Ok(ReturnValue::Return(t))
        &&& wf(r->Ok_0->Return_0)
        &&& width(r->Ok_0->Return_0) == width(a) + 1
        &&& forall|env: Env| #[trigger] eval(r->Ok_0->Return_0, env)
            == arith_result(op, eval(a, env), eval(b, env)).push(arith_overflows(op, eval(a, env), eval(b, env)))
    } else {
        type_mismatch(r, name)
    }
}

/// The term `{overflow, result}` of `op` on `a` and `b`.
fn checked_term(op: ArithOp, a: &BvTerm, b: &BvTerm) -> (t: BvTerm)
    requires
        wf(*a),
        wf(*b),
        width(*a) == width(*b),
        width(*a) < u32::MAX,
    ensures
        wf(t),
        width(t) == width(*a) + 1,
        forall|env: Env| #[trigger] eval(t, env)
            == arith_result(op, eval(*a, env), eval(*b, env)).push(arith_overflows(op, eval(*a, env), eval(*b, env))),
{
    let result = match op {
        ArithOp::UnsignedAdd | ArithOp::SignedAdd => BvTerm::Add(Box::new(a.clone()), Box::new(b.clone())),
        ArithOp::UnsignedSub | ArithOp::SignedSub => BvTerm::Sub(Box::new(a.clone()), Box::new(b.clone())),
        ArithOp::UnsignedMul | ArithOp::SignedMul => BvTerm::Mul(Box::new(a.clone()), Box::new(b.clone())),
    };
    let (x, y) = (Box::new(a.clone()), Box::new(b.clone()));
    let overflow = match op {
        ArithOp::UnsignedAdd => BvTerm::Uaddo(x, y),
        ArithOp::SignedAdd => BvTerm::Saddo(x, y),
        ArithOp::UnsignedSub => BvTerm::Usubo(x, y),
        ArithOp::SignedSub => BvTerm::Ssubo(x, y),
        ArithOp::UnsignedMul => BvTerm::Umulo(x, y),
        ArithOp::SignedMul => BvTerm::Smulo(x, y),
    };
    let ghost (gr, go) = (result, overflow);
    assert(wf(gr) && width(gr) == width(*a) && wf(go) && width(go) == 1);
    let t = BvTerm::Concat(Box::new(overflow), Box::new(result));
    proof {
        assert forall|env: Env| #[trigger] eval(t, env)
            == arith_result(op, eval(*a, env), eval(*b, env)).push(arith_overflows(op, eval(*a, env), eval(*b, env))) by {
            lemma_eval_len(*a, env);
            assert(eval(gr, env) == arith_result(op, eval(*a, env), eval(*b, env)));
            assert(eval(go, env) == seq![arith_overflows(op, eval(*a, env), eval(*b, env))]);
            assert(eval(t, env) =~= eval(gr, env) + eval(go, env));
        }
    }
    t
}

/// The type mismatch error of the intrinsic `name`.
fn mismatch_error(name: &str, ta: &LlvmType, tb: &LlvmType) -> (r: Result<ReturnValue<BvTerm>>)
    ensures
        type_mismatch(r, name@),
        r matches Err(Error::OtherError(m)) && m@ == name@ + ": expected arguments to be of the same type, but got types "@
            + type_text(*ta) + " and "@ + type_text(*tb),
{
    let mut m = String::from_str(name);
    let tail = ": expected arguments to be of the same type, but got types ";
    m.append(tail);
    let ghost prefix = m@;
    m.append(ta.debug_text().as_str());
    m.append(" and ");
    m.append(tb.debug_text().as_str());
    assert(m@.subrange(0, prefix.len() as int) =~= prefix);
    Err(Error::OtherError(m))
}

/// A checked intrinsic: the type check, then the term.
fn checked(op: ArithOp, name: &str, a: &BvTerm, ta: &LlvmType, b: &BvTerm, tb: &LlvmType) -> (r: Result<ReturnValue<BvTerm>>)
    requires
        operands_fit(*a, *ta, *b, *tb, 1),
    ensures
        checked_outcome(r, op, *a, *ta, *b, *tb, name@),
{
    if !same_type(ta, tb) {
        return mismatch_error(name, ta, tb);
    }
    Ok(ReturnValue::Return(checked_term(op, a, b)))
}

/// `llvm.uadd.with.overflow`: the sum, and whether it overflowed unsigned.
pub fn symex_uadd_with_overflow(arg0: &BvTerm, ty0: &LlvmType, arg1: &BvTerm, ty1: &LlvmType) -> (r: Result<
    ReturnValue<BvTerm>,
>)
    requires
        operands_fit(*arg0, *ty0, *arg1, *ty1, 1),
    ensures
        checked_outcome(r, ArithOp::UnsignedAdd, *arg0, *ty0, *arg1, *ty1, "symex_uadd_with_overflow"@),
{
    checked(ArithOp::UnsignedAdd, "symex_uadd_with_overflow", arg0, ty0, arg1, ty1)
}

/// `llvm.sadd.with.overflow`: the sum, and whether it overflowed signed.
pub fn symex_sadd_with_overflow(arg0: &BvTerm, ty0: &LlvmType, arg1: &BvTerm, ty1: &LlvmType) -> (r: Result<
    ReturnValue<BvTerm>,
>)
    requires
        operands_fit(*arg0, *ty0, *arg1, *ty1, 1),
    ensures
        checked_outcome(r, ArithOp::SignedAdd, *arg0, *ty0, *arg1, *ty1, "symex_sadd_with_overflow"@),
{
    checked(ArithOp::SignedAdd, "symex_sadd_with_overflow", arg0, ty0, arg1, ty1)
}

/// `llvm.usub.with.overflow`: the difference, and whether it overflowed
/// unsigned.
pub fn symex_usub_with_overflow(arg0: &BvTerm, ty0: &LlvmType, arg1: &BvTerm, ty1: &LlvmType) -> (r: Result<
    ReturnValue<BvTerm>,
>)
    requires
        operands_fit(*arg0, *ty0, *arg1, *ty1, 1),
    ensures
        checked_outcome(r, ArithOp::UnsignedSub, *arg0, *ty0, *arg1, *ty1, "symex_usub_with_overflow"@),
{
    checked(ArithOp::UnsignedSub, "symex_usub_with_overflow", arg0, ty0, arg1, ty1)
}

/// `llvm.ssub.with.overflow`: the difference, and whether it overflowed
/// signed.
pub fn symex_ssub_with_overflow(arg0: &BvTerm, ty0: &LlvmType, arg1: &BvTerm, ty1: &LlvmType) -> (r: Result<
    ReturnValue<BvTerm>,
>)
    requires
        operands_fit(*arg0, *ty0, *arg1, *ty1, 1),
    ensures
        checked_outcome(r, ArithOp::SignedSub, *arg0, *ty0, *arg1, *ty1, "symex_ssub_with_overflow"@),
{
    checked(ArithOp::SignedSub, "symex_ssub_with_overflow", arg0, ty0, arg1, ty1)
}

/// `llvm.umul.with.overflow`: the product, and whether it overflowed
/// unsigned.
pub fn symex_umul_with_overflow(arg0: &BvTerm, ty0: &LlvmType, arg1: &BvTerm, ty1: &LlvmType) -> (r: Result<
    ReturnValue<BvTerm>,
>)
    requires
        operands_fit(*arg0, *ty0, *arg1, *ty1, 1),
    ensures
        checked_outcome(r, ArithOp::UnsignedMul, *arg0, *ty0, *arg1, *ty1, "symex_umul_with_overflow"@),
{
    checked(ArithOp::UnsignedMul, "symex_umul_with_overflow", arg0, ty0, arg1, ty1)
}

/// `llvm.smul.with.overflow`: the product, and whether it overflowed signed.
pub fn symex_smul_with_overflow(arg0: &BvTerm, ty0: &LlvmType, arg1: &BvTerm, ty1: &LlvmType) -> (r: Result<
    ReturnValue<BvTerm>,
>)
    requires
        operands_fit(*arg0, *ty0, *arg1, *ty1, 1),
    ensures
        checked_outcome(r, ArithOp::SignedMul, *arg0, *ty0, *arg1, *ty1, "symex_smul_with_overflow"@),
{
    checked(ArithOp::SignedMul, "symex_smul_with_overflow", arg0, ty0, arg1, ty1)
}

/// The result of `llvm.uadd.sat` on `x` and `y`: the sum, or the greatest
/// number of the width where the sum does not fit.
pub open spec fn uadd_sat_value(x: Seq<bool>, y: Seq<bool>) -> nat {
    let s = value(x) + value(y);
    if s < pow2(x.len()) {
        s
    } else {
        (pow2(x.len()) - 1) as nat
    }
}

/// The result of `llvm.usub.sat` on `x` and `y`: the difference, or zero
/// where it would be negative.
pub open spec fn usub_sat_value(x: Seq<bool>, y: Seq<bool>) -> nat {
    if value(x) < value(y) {
        0
    } else {
        (value(x) - value(y)) as nat
    }
}

/// The result of `llvm.sadd.sat` on `x` and `y`, read signed: the sum,
/// clamped to the signed numbers of the width.
pub open spec fn sadd_sat_value(x: Seq<bool>, y: Seq<bool>) -> int {
    clamp_signed(signed(x) + signed(y), x.len())
}

/// The result of `llvm.ssub.sat` on `x` and `y`, read signed: the
/// difference, clamped to the signed numbers of the width; where `y` is the
/// least number, which negates to itself, the clamped sum.
pub open spec fn ssub_sat_value(x: Seq<bool>, y: Seq<bool>) -> int {
    if signed(y) == least_signed(x.len()) {
        clamp_signed(signed(x) + signed(y), x.len())
    } else {
        clamp_signed(signed(x) - signed(y), x.len())
    }
}

/// The number the bits `s` denote, signed or unsigned.
pub open spec fn reading(s: Seq<bool>, signed_op: bool) -> int {
    if signed_op {
        signed(s)
    } else {
        value(s) as int
    }
}

/// The outcome of a saturating intrinsic: where the operand types agree, a
/// term of the operands' width whose value (unsigned, or signed if `signed_op`)
/// is `expected` in every environment; else the type mismatch error.
pub open spec fn saturating_outcome(
    r: Result<ReturnValue<BvTerm>>,
    a: BvTerm,
    ta: LlvmType,
    b: BvTerm,
    tb: LlvmType,
    name: Seq<char>,
    signed_op: bool,
    expected: spec_fn(Seq<bool>, Seq<bool>) -> int,
) -> bool {
    if type_eq(ta, tb) {
        &&& r matches Ok(ReturnValue::Return(t))
        &&& wf(r->Ok_0->Return_0)
        &&& width(r->Ok_0->Return_0) == width(a)
        &&& forall|env: Env| reading(#[trigger] eval(r->Ok_0->Return_0, env), signed_op) == expected(eval(a, env), eval(b, env))
    } else {
        type_mismatch(r, name)
    }
}

/// `llvm.uadd.sat`: unsigned saturating addition.
pub fn symex_uadd_sat(arg0: &BvTerm, ty0: &LlvmType, arg1: &BvTerm, ty1: &LlvmType) -> (r: Result<ReturnValue<BvTerm>>)
    requires
        operands_fit(*arg0, *ty0, *arg1, *ty1, 1),
    ensures
        saturating_outcome(r, *arg0, *ty0, *arg1, *ty1, "symex_uadd_sat"@, false, |x, y| uadd_sat_value(x, y) as int),
{
    if !same_type(ty0, ty1) {
        return mismatch_error("symex_uadd_sat", ty0, ty1);
    }
    let t = uadds(arg0, arg1);
    proof {
        assert forall|env: Env| reading(#[trigger] eval(t, env), false) == uadd_sat_value(eval(*arg0, env), eval(*arg1, env)) by {
            lemma_eval_len(*arg0, env);
        }
    }
    Ok(ReturnValue::Return(t))
}

/// `llvm.sadd.sat`: signed saturating addition.
pub fn symex_sadd_sat(arg0: &BvTerm, ty0: &LlvmType, arg1: &BvTerm, ty1: &LlvmType) -> (r: Result<ReturnValue<BvTerm>>)
    requires
        operands_fit(*arg0, *ty0, *arg1, *ty1, 2),
    ensures
        saturating_outcome(r, *arg0, *ty0, *arg1, *ty1, "symex_sadd_sat"@, true, |x, y| sadd_sat_value(x, y)),
{
    if !same_type(ty0, ty1) {
        return mismatch_error("symex_sadd_sat", ty0, ty1);
    }
    let t = sadds(arg0, arg1);
    proof {
        assert forall|env: Env| reading(#[trigger] eval(t, env), true) == sadd_sat_value(eval(*arg0, env), eval(*arg1, env)) by {
            lemma_eval_len(*arg0, env);
        }
    }
    Ok(ReturnValue::Return(t))
}

/// `llvm.usub.sat`: unsigned saturating subtraction.
pub fn symex_usub_sat(arg0: &BvTerm, ty0: &LlvmType, arg1: &BvTerm, ty1: &LlvmType) -> (r: Result<ReturnValue<BvTerm>>)
    requires
        operands_fit(*arg0, *ty0, *arg1, *ty1, 1),
    ensures
        saturating_outcome(r, *arg0, *ty0, *arg1, *ty1, "symex_usub_sat"@, false, |x, y| usub_sat_value(x, y) as int),
{
    if !same_type(ty0, ty1) {
        return mismatch_error("symex_usub_sat", ty0, ty1);
    }
    let t = usubs(arg0, arg1);
    proof {
        assert forall|env: Env| reading(#[trigger] eval(t, env), false) == usub_sat_value(eval(*arg0, env), eval(*arg1, env)) by {
            lemma_eval_len(*arg0, env);
        }
    }
    Ok(ReturnValue::Return(t))
}

/// `llvm.ssub.sat`: signed saturating subtraction, as the saturating sum of
/// the first operand and the negation of the second.
pub fn symex_ssub_sat(arg0: &BvTerm, ty0: &LlvmType, arg1: &BvTerm, ty1: &LlvmType) -> (r: Result<ReturnValue<BvTerm>>)
    requires
        operands_fit(*arg0, *ty0, *arg1, *ty1, 2),
    ensures
        saturating_outcome(r, *arg0, *ty0, *arg1, *ty1, "symex_ssub_sat"@, true, |x, y| ssub_sat_value(x, y)),
{
    if !same_type(ty0, ty1) {
        return mismatch_error("symex_ssub_sat", ty0, ty1);
    }
    let t = ssubs(arg0, arg1);
    proof {
        assert forall|env: Env| reading(#[trigger] eval(t, env), true) == ssub_sat_value(eval(*arg0, env), eval(*arg1, env)) by {
            lemma_eval_len(*arg0, env);
        }
    }
    Ok(ReturnValue::Return(t))
}

/// Whether `op` reads its operands as signed numbers.
pub open spec fn is_signed_op(op: ArithOp) -> bool {
    op is SignedAdd || op is SignedSub || op is SignedMul
}

/// The exact result of `op` on `x` and `y`, read unsigned or signed as `op`
/// says.
pub open spec fn exact_result(op: ArithOp, x: Seq<bool>, y: Seq<bool>) -> int {
    match op {
        ArithOp::UnsignedAdd => (value(x) + value(y)) as int,
        ArithOp::SignedAdd => signed(x) + signed(y),
        ArithOp::UnsignedSub => value(x) - value(y),
        ArithOp::SignedSub => signed(x) - signed(y),
        ArithOp::UnsignedMul => (value(x) * value(y)) as int,
        ArithOp::SignedMul => signed(x) * signed(y),
    }
}

/// `w` bits congruent to `n` denote `n`, read unsigned, exactly when `n` is a
/// number of `w` bits.
proof fn lemma_unsigned_reading(n: int, w: nat)
    ensures
        (value(wrap(n, w)) == n) == (0 <= n < pow2(w)),
{
    let m = pow2(w) as int;
    lemma_pow2_pos(w);
    lemma_value_bits_of((n % m) as nat, w);
    lemma_small_mod((n % m) as nat, m as nat);
    if 0 <= n < m {
        lemma_small_mod(n as nat, m as nat);
    }
}

/// `w` bits congruent to `n` denote `n`, read signed, exactly when `n` is a
/// signed number of `w` bits.
proof fn lemma_signed_reading(n: int, w: nat)
    requires
        w >= 1,
    ensures
        (signed(wrap(n, w)) == n) == fits_signed(n, w),
{
    let m = pow2(w) as int;
    lemma_pow2_pos(w);
    lemma_value_bits_of((n % m) as nat, w);
    if fits_signed(n, w) {
        lemma_signed_wrap(n, w);
    } else {
        lemma_signed_bounds(wrap(n, w));
    }
}

/// The number of `w` bits `x` denotes, read unsigned, is congruent to its
/// signed reading.
proof fn lemma_unsigned_signed_congruent(x: Seq<bool>) -> (t: int)
    requires
        x.len() >= 1,
    ensures
        t == 0 || t == 1,
        value(x) == signed(x) + pow2(x.len()) * t,
{
    if x[x.len() - 1] { 1 } else { 0 }
}

/// The product of `a + m * c` and `b + m * d`, multiplied out.
proof fn lemma_product_expands(a: int, b: int, c: int, d: int, m: int)
    ensures
        (a + m * c) * (b + m * d) == a * b + m * (c * b + d * a + m * c * d),
{
    broadcast use vstd::arithmetic::mul::group_mul_properties;

    assert((a + m * c) * (b + m * d) == a * (b + m * d) + (m * c) * (b + m * d));
    assert(a * (b + m * d) == a * b + a * (m * d));
    assert((m * c) * (b + m * d) == (m * c) * b + (m * c) * (m * d));
    assert(a * (m * d) == m * (d * a));
    assert((m * c) * b == m * (c * b));
    assert((m * c) * (m * d) == m * (m * c * d));
}

/// The wrapped result of `op` is the exact result modulo two to the width.
proof fn lemma_result_wraps(op: ArithOp, x: Seq<bool>, y: Seq<bool>)
    requires
        x.len() >= 1,
        y.len() == x.len(),
    ensures
        arith_result(op, x, y) == wrap(exact_result(op, x, y), x.len()),
{
    let w = x.len();
    let m = pow2(w) as int;
    lemma_pow2_pos(w);
    let tx = lemma_unsigned_signed_congruent(x);
    let ty = lemma_unsigned_signed_congruent(y);
    let (vx, vy, sx, sy) = (value(x) as int, value(y) as int, signed(x), signed(y));
    // the unsigned result, and the congruence of the two readings
    let (u, k): (int, int) = match op {
        ArithOp::UnsignedAdd | ArithOp::SignedAdd => (vx + vy, tx + ty),
        ArithOp::UnsignedSub | ArithOp::SignedSub => (vx - vy, tx - ty),
        ArithOp::UnsignedMul | ArithOp::SignedMul => (vx * vy, tx * sy + ty * sx + m * tx * ty),
    };
    let e = exact_result(op, x, y);
    if is_signed_op(op) {
        if op is SignedMul {
            lemma_product_expands(sx, sy, tx, ty, m);
        } else {
            vstd::arithmetic::mul::lemma_mul_is_distributive_add(m, tx, ty);
            vstd::arithmetic::mul::lemma_mul_is_distributive_sub(m, tx, ty);
        }
        assert(u == e + m * k);
        lemma_mod_multiples_vanish(k, e, m);
    }
    assert(u % m == e % m);
    if !(op is UnsignedSub || op is SignedSub) {
        assert(u >= 0) by (nonlinear_arith)
            requires
                vx >= 0,
                vy >= 0,
                u == vx + vy || u == vx * vy,
        ;
        lemma_mod_twice(u, m);
        lemma_bits_of_mod(u as nat, (u % m) as nat, w);
    }
}

/// The overflow flag of a checked intrinsic is clear exactly when the
/// wrapped result, read as the operation reads its operands, is the exact
/// result.
pub proof fn lemma_overflow_flag(op: ArithOp, x: Seq<bool>, y: Seq<bool>)
    requires
        x.len() >= 1,
        y.len() == x.len(),
    ensures
        !arith_overflows(op, x, y) == (reading(arith_result(op, x, y), is_signed_op(op)) == exact_result(op, x, y)),
{
    lemma_result_wraps(op, x, y);
    let e = exact_result(op, x, y);
    if is_signed_op(op) {
        lemma_signed_reading(e, x.len());
    } else {
        lemma_unsigned_reading(e, x.len());
        if op is UnsignedSub {
            assert(e >= 0 ==> e < pow2(x.len())) by {
                lemma_value_bound(x);
            }
        }
    }
}

} // verus!
