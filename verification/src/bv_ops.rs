//! Operations on bitvector terms built from the basic ones: widening to a
//! given width, and saturating addition and subtraction.
//!
//! Each is proved to compute the arithmetic it is named for: a saturating
//! sum is the exact sum, clamped to the range of the width.

use vstd::arithmetic::div_mod::{lemma_fundamental_div_mod, lemma_mod_add_multiples_vanish, lemma_small_mod};
use vstd::arithmetic::power2::{lemma_pow2_pos, lemma_pow2_unfold, pow2};
use vstd::prelude::*;

use crate::bv_term::{
    bits_of, eval, fits_signed, lemma_bits_of_mod, lemma_eval_len, lemma_value_bits_of, lemma_value_bound, lemma_value_high,
    lemma_value_zeros, signed, value, width, wf, wrap, zeros, BvTerm, Env,
};

verus! {

/// The least signed number of `w` bits.
pub open spec fn least_signed(w: nat) -> int {
    -(pow2((w - 1) as nat) as int)
}

/// The greatest signed number of `w` bits.
pub open spec fn greatest_signed(w: nat) -> int {
    pow2((w - 1) as nat) - 1
}

/// `x` clamped to the signed numbers of `w` bits.
pub open spec fn clamp_signed(x: int, w: nat) -> int {
    if x < least_signed(w) {
        least_signed(w)
    } else if x > greatest_signed(w) {
        greatest_signed(w)
    } else {
        x
    }
}

/// `w` one bits.
pub open spec fn ones(w: nat) -> Seq<bool> {
    Seq::new(w, |k: int| true)
}

/// `x` extended with `k` copies of its top bit.
pub open spec fn sign_extend(x: Seq<bool>, k: nat) -> Seq<bool> {
    x + Seq::new(k, |j: int| x[x.len() - 1])
}

/// The top bit is set exactly when the number is at least two to the
/// `len - 1`.
pub proof fn lemma_top_bit(x: Seq<bool>)
    requires
        x.len() >= 1,
    ensures
        x[x.len() - 1] == (value(x) >= pow2((x.len() - 1) as nat)),
{
    let n = x.len();
    let p = pow2((n - 1) as nat);
    lemma_value_high(x, (n - 1) as nat);
    let top = x.subrange(n - 1, n as int);
    assert(top.subrange(1, 1) =~= Seq::<bool>::empty());
    assert(value(top.subrange(1, 1)) == 0);
    assert(top[0] == x[n - 1]);
    assert(value(top) == if x[n - 1] { 1nat } else { 0nat });
    lemma_value_bound(x);
    lemma_pow2_unfold(n);
    lemma_pow2_pos((n - 1) as nat);
    lemma_fundamental_div_mod(value(x) as int, p as int);
}

/// A signed number of `len` bits is between the least and the greatest.
pub proof fn lemma_signed_bounds(x: Seq<bool>)
    requires
        x.len() >= 1,
    ensures
        least_signed(x.len()) <= signed(x) <= greatest_signed(x.len()),
{
    lemma_top_bit(x);
    lemma_value_bound(x);
    lemma_pow2_unfold(x.len());
}

/// `w` bits congruent to a signed number of `w` bits denote it.
pub proof fn lemma_signed_wrap(n: int, w: nat)
    requires
        fits_signed(n, w),
    ensures
        signed(wrap(n, w)) == n,
        wrap(n, w).len() == w,
{
    let m = pow2(w) as int;
    lemma_pow2_unfold(w);
    lemma_pow2_pos((w - 1) as nat);
    let r = n % m;
    lemma_value_bits_of(r as nat, w);
    lemma_small_mod(r as nat, m as nat);
    let x = wrap(n, w);
    lemma_top_bit(x);
    if n < 0 {
        lemma_mod_add_multiples_vanish(n, m);
        assert((n + m) % m == n + m) by {
            lemma_small_mod((n + m) as nat, m as nat);
        }
    } else {
        lemma_small_mod(n as nat, m as nat);
    }
}

/// Numbers congruent modulo two to the `w` give the same `w` bits.
pub proof fn lemma_wrap_congruent(a: int, b: int, w: nat)
    requires
        a % (pow2(w) as int) == b % (pow2(w) as int),
    ensures
        wrap(a, w) == wrap(b, w),
{
}

/// The bits of `v` are those of `v` as a signed number.
pub proof fn lemma_bits_as_wrap(v: nat, x: Seq<bool>)
    requires
        x.len() >= 1,
        value(x) == v,
    ensures
        bits_of(v, x.len()) == wrap(signed(x), x.len()),
{
    let w = x.len();
    let m = pow2(w) as int;
    lemma_pow2_pos(w);
    lemma_value_bound(x);
    let s = signed(x);
    if x[w - 1] {
        lemma_mod_add_multiples_vanish(s, m);
    }
    lemma_small_mod(v, m as nat);
    assert((s % m) as nat % (m as nat) == v % (m as nat)) by {
        lemma_small_mod((s % m) as nat, m as nat);
    }
    lemma_bits_of_mod((s % m) as nat, v, w);
}

/// A number of `k` ones is two to the `k`, less one.
pub proof fn lemma_value_ones(k: nat)
    ensures
        value(ones(k)) == pow2(k) - 1,
    decreases k,
{
    vstd::arithmetic::power2::lemma2_to64();
    if k > 0 {
        assert(ones(k).subrange(1, k as int) =~= ones((k - 1) as nat));
        lemma_value_ones((k - 1) as nat);
        lemma_pow2_unfold(k);
    }
}

/// The number of two bit strings side by side.
pub proof fn lemma_value_concat(s: Seq<bool>, t: Seq<bool>)
    ensures
        value(s + t) == value(s) + pow2(s.len()) * value(t),
    decreases s.len(),
{
    vstd::arithmetic::power2::lemma2_to64();
    if s.len() == 0 {
        assert(s + t =~= t);
    } else {
        let rest = s.subrange(1, s.len() as int);
        assert((s + t).subrange(1, (s + t).len() as int) =~= rest + t);
        lemma_value_concat(rest, t);
        lemma_pow2_unfold(s.len());
        assert(2 * (pow2(rest.len()) * value(t)) == pow2(s.len()) * value(t)) by (nonlinear_arith)
            requires
                pow2(s.len()) == 2 * pow2(rest.len()),
        ;
    }
}

/// The term `t`, of `width(t) <= bits` bits, widened to `bits` bits with
/// zeros above.
pub fn zero_extend_to_bits(t: BvTerm, bits: u32) -> (r: BvTerm)
    requires
        wf(t),
        width(t) <= bits,
    ensures
        wf(r),
        width(r) == bits,
        forall|env: Env| #[trigger] eval(r, env) == eval(t, env) + zeros((bits - width(t)) as nat),
{
    let w = t.get_width();
    if w == bits {
        proof {
            assert forall|env: Env| #[trigger] eval(t, env) == eval(t, env) + zeros((bits - width(t)) as nat) by {
                assert(eval(t, env) + zeros(0) =~= eval(t, env));
            }
        }
        t
    } else {
        BvTerm::Uext(Box::new(t), bits - w)
    }
}

/// The term `t`, of `width(t) <= bits` bits, widened to `bits` bits with
/// copies of its top bit above.
pub fn sign_extend_to_bits(t: BvTerm, bits: u32) -> (r: BvTerm)
    requires
        wf(t),
        width(t) <= bits,
    ensures
        wf(r),
        width(r) == bits,
        forall|env: Env| #[trigger] eval(r, env) == sign_extend(eval(t, env), (bits - width(t)) as nat),
{
    let w = t.get_width();
    if w == bits {
        proof {
            assert forall|env: Env| #[trigger] eval(t, env) == sign_extend(eval(t, env), 0) by {
                assert(sign_extend(eval(t, env), 0) =~= eval(t, env));
            }
        }
        t
    } else {
        let ghost g = t;
        let r = BvTerm::Sext(Box::new(t), bits - w);
        proof {
            assert forall|env: Env| #[trigger] eval(r, env) == sign_extend(eval(g, env), (bits - width(g)) as nat) by {
                assert(eval(r, env) =~= sign_extend(eval(g, env), (bits - width(g)) as nat));
            }
        }
        r
    }
}

/// Unsigned saturating addition: the sum of `a` and `b`, or the greatest
/// value of the width if the sum does not fit.
pub fn uadds(a: &BvTerm, b: &BvTerm) -> (r: BvTerm)
    requires
        wf(*a),
        wf(*b),
        width(*a) == width(*b),
    ensures
        wf(r),
        width(r) == width(*a),
        forall|env: Env| #[trigger] value(eval(r, env)) == {
            let s = value(eval(*a, env)) + value(eval(*b, env));
            if s < pow2(width(*a)) { s } else { (pow2(width(*a)) - 1) as nat }
        },
{
    let w = a.get_width();
    let result = BvTerm::Add(Box::new(a.clone()), Box::new(b.clone()));
    let overflow = BvTerm::Uaddo(Box::new(a.clone()), Box::new(b.clone()));
    let max_value = BvTerm::Ones(w);
    let ghost (gr, go, gm) = (result, overflow, max_value);
    let r = BvTerm::Ite(Box::new(overflow), Box::new(max_value), Box::new(result));
    proof {
        assert(wf(gr) && wf(go) && wf(gm));
        assert forall|env: Env| #[trigger] value(eval(r, env)) == {
            let s = value(eval(*a, env)) + value(eval(*b, env));
            if s < pow2(width(*a)) { s } else { (pow2(width(*a)) - 1) as nat }
        } by {
            let s = value(eval(*a, env)) + value(eval(*b, env));
            assert(eval(go, env)[0] == (s >= pow2(w as nat)));
            assert(eval(r, env) == if s >= pow2(w as nat) { eval(gm, env) } else { eval(gr, env) });
            assert(eval(gr, env) == bits_of(s, w as nat));
            assert(eval(gm, env) =~= ones(w as nat));
            lemma_value_ones(w as nat);
            lemma_value_bits_of(s, w as nat);
            lemma_pow2_pos(w as nat);
            if s < pow2(w as nat) {
                lemma_small_mod(s, pow2(w as nat));
            }
        }
    }
    r
}

/// Unsigned saturating subtraction: the difference of `a` and `b`, or zero
/// if it would be negative.
pub fn usubs(a: &BvTerm, b: &BvTerm) -> (r: BvTerm)
    requires
        wf(*a),
        wf(*b),
        width(*a) == width(*b),
    ensures
        wf(r),
        width(r) == width(*a),
        forall|env: Env| #[trigger] value(eval(r, env)) == {
            let x = value(eval(*a, env));
            let y = value(eval(*b, env));
            if x < y { 0 } else { (x - y) as nat }
        },
{
    let w = a.get_width();
    let result = BvTerm::Sub(Box::new(a.clone()), Box::new(b.clone()));
    let overflow = BvTerm::Usubo(Box::new(a.clone()), Box::new(b.clone()));
    let zero = BvTerm::Zero(w);
    let ghost (gr, go, gz) = (result, overflow, zero);
    let r = BvTerm::Ite(Box::new(overflow), Box::new(zero), Box::new(result));
    proof {
        assert(wf(gr) && wf(go) && wf(gz));
        assert forall|env: Env| #[trigger] value(eval(r, env)) == {
            let x = value(eval(*a, env));
            let y = value(eval(*b, env));
            if x < y { 0 } else { (x - y) as nat }
        } by {
            let x = value(eval(*a, env));
            let y = value(eval(*b, env));
            assert(eval(go, env)[0] == (x < y));
            assert(eval(r, env) == if x < y { eval(gz, env) } else { eval(gr, env) });
            assert(eval(gr, env) == wrap(x - y, w as nat));
            assert(eval(gz, env) == zeros(w as nat));
            lemma_value_zeros(w as nat);
            lemma_eval_len(*a, env);
            lemma_value_bound(eval(*a, env));
            lemma_pow2_pos(w as nat);
            if x >= y {
                lemma_small_mod((x - y) as nat, pow2(w as nat));
                lemma_value_bits_of((x - y) as nat, w as nat);
            }
        }
    }
    r
}

/// Signed saturating addition: the sum of `a` and `b` as signed numbers,
/// clamped to the signed numbers of the width (which is at least two).
pub fn sadds(a: &BvTerm, b: &BvTerm) -> (r: BvTerm)
    requires
        wf(*a),
        wf(*b),
        width(*a) == width(*b),
        width(*a) >= 2,
    ensures
        wf(r),
        width(r) == width(*a),
        forall|env: Env| #[trigger] signed(eval(r, env)) == clamp_signed(signed(eval(*a, env)) + signed(eval(*b, env)), width(*a)),
{
    let w = a.get_width();
    let result = BvTerm::Add(Box::new(a.clone()), Box::new(b.clone()));
    let overflow = BvTerm::Saddo(Box::new(a.clone()), Box::new(b.clone()));
    let max_positive = BvTerm::Concat(Box::new(BvTerm::Zero(1)), Box::new(BvTerm::Ones(w - 1)));
    let max_negative = BvTerm::Concat(Box::new(BvTerm::Const(1, 1)), Box::new(BvTerm::Zero(w - 1)));
    let self_negative = BvTerm::Slice(Box::new(a.clone()), w - 1, w - 1);
    let ghost (gr, go, gp, gn, gs) = (result, overflow, max_positive, max_negative, self_negative);
    let r = BvTerm::Ite(
        Box::new(overflow),
        Box::new(BvTerm::Ite(Box::new(self_negative), Box::new(max_negative), Box::new(max_positive))),
        Box::new(result),
    );
    proof {
        assert(wf(BvTerm::Zero(1)) && wf(BvTerm::Ones((w - 1) as u32)) && wf(BvTerm::Const(1, 1)) && wf(BvTerm::Zero((w - 1) as u32)));
        assert(wf(gr) && wf(go) && wf(gp) && wf(gn) && wf(gs));
        let ghost inner = BvTerm::Ite(Box::new(gs), Box::new(gn), Box::new(gp));
        assert(wf(inner));
        assert forall|env: Env| #[trigger] signed(eval(r, env)) == clamp_signed(signed(eval(*a, env)) + signed(eval(*b, env)), width(*a)) by {
            lemma_eval_len(*a, env);
            lemma_eval_len(*b, env);
            lemma_sadds_env(*a, *b, w as nat, env);
            let x = eval(*a, env);
            let y = eval(*b, env);
            let s = signed(x) + signed(y);
            let low_ones = BvTerm::Ones((w - 1) as u32);
            let low_zeros = BvTerm::Zero((w - 1) as u32);
            assert(eval(BvTerm::Zero(1), env) == zeros(1));
            assert(eval(low_ones, env) =~= ones((w - 1) as nat));
            assert(eval(gp, env) == eval(low_ones, env) + eval(BvTerm::Zero(1), env));
            assert(eval(BvTerm::Const(1, 1), env) == bits_of(1, 1));
            assert(eval(low_zeros, env) == zeros((w - 1) as nat));
            assert(eval(gn, env) == eval(low_zeros, env) + eval(BvTerm::Const(1, 1), env));
            assert(eval(gs, env) =~= seq![x[w - 1]]);
            assert(eval(go, env)[0] == !fits_signed(s, w as nat));
            assert(eval(gr, env) == bits_of(value(x) + value(y), w as nat));
            assert(eval(inner, env) == if x[w - 1] { eval(gn, env) } else { eval(gp, env) });
            assert(eval(r, env) == if !fits_signed(s, w as nat) {
                if x[w - 1] { eval(gn, env) } else { eval(gp, env) }
            } else {
                eval(gr, env)
            });
        }
    }
    r
}

/// What `sadds` computes in one environment.
proof fn lemma_sadds_env(a: BvTerm, b: BvTerm, w: nat, env: Env)
    requires
        wf(a),
        wf(b),
        width(a) == w,
        width(b) == w,
        w >= 2,
    ensures
        ({
            let x = eval(a, env);
            let y = eval(b, env);
            let s = signed(x) + signed(y);
            &&& !fits_signed(s, w) && x[w - 1] ==> signed(zeros((w - 1) as nat) + bits_of(1, 1)) == clamp_signed(s, w)
            &&& !fits_signed(s, w) && !x[w - 1] ==> signed(ones((w - 1) as nat) + zeros(1)) == clamp_signed(s, w)
            &&& fits_signed(s, w) ==> signed(bits_of(value(x) + value(y), w)) == clamp_signed(s, w)
        }),
{
    let x = eval(a, env);
    let y = eval(b, env);
    lemma_eval_len(a, env);
    lemma_eval_len(b, env);
    let s = signed(x) + signed(y);
    lemma_signed_bounds(x);
    lemma_signed_bounds(y);
    lemma_top_bit(x);
    lemma_pow2_unfold(w);
    lemma_pow2_pos((w - 1) as nat);
    let p = pow2((w - 1) as nat);
    // the greatest and least values
    let maxb = ones((w - 1) as nat) + zeros(1);
    lemma_value_concat(ones((w - 1) as nat), zeros(1));
    lemma_value_ones((w - 1) as nat);
    lemma_value_zeros(1);
    assert(maxb[w - 1] == false);
    let minb = zeros((w - 1) as nat) + bits_of(1, 1);
    lemma_value_concat(zeros((w - 1) as nat), bits_of(1, 1));
    lemma_value_zeros((w - 1) as nat);
    lemma_value_bits_of(1, 1);
    vstd::arithmetic::power2::lemma2_to64();
    lemma_small_mod(1, 2);
    assert(minb[w - 1] == true) by {
        assert(minb[w - 1] == bits_of(1, 1)[0]);
    }
    assert(value(minb) == p);
    assert(signed(minb) == p - pow2(w));
    // the sum, where it fits
    assert(signed(maxb) == p - 1);
    lemma_value_bound(x);
    assert(x[w - 1] <==> signed(x) < 0);
    if fits_signed(s, w) {
        lemma_sum_wraps(x, y);
        lemma_signed_wrap(s, w);
        assert(clamp_signed(s, w) == s);
    } else if x[w - 1] {
        assert(s < least_signed(w));
        assert(clamp_signed(s, w) == -p);
    } else {
        assert(s > greatest_signed(w));
        assert(clamp_signed(s, w) == p - 1);
    }
}

/// The bits of the sum of two numbers of `w` bits are those of the sum of
/// their signed readings.
proof fn lemma_sum_wraps(x: Seq<bool>, y: Seq<bool>)
    requires
        x.len() >= 1,
        y.len() == x.len(),
    ensures
        bits_of(value(x) + value(y), x.len()) == wrap(signed(x) + signed(y), x.len()),
{
    let w = x.len();
    let m = pow2(w) as int;
    lemma_pow2_pos(w);
    let sum = value(x) + value(y);
    let s = signed(x) + signed(y);
    let k: int = (if x[w - 1] { 1int } else { 0int }) + (if y[w - 1] { 1int } else { 0int });
    assert(sum == m * k + s) by (nonlinear_arith)
        requires
            signed(x) == value(x) - (if x[w - 1] { m } else { 0 }),
            signed(y) == value(y) - (if y[w - 1] { m } else { 0 }),
            sum == value(x) + value(y),
            s == signed(x) + signed(y),
            k == (if x[w - 1] { 1int } else { 0int }) + (if y[w - 1] { 1int } else { 0int }),
    ;
    vstd::arithmetic::div_mod::lemma_mod_multiples_vanish(k, s, m);
    vstd::arithmetic::div_mod::lemma_mod_twice(sum as int, m);
    lemma_bits_of_mod(sum, (s % m) as nat, w);
}

/// Signed saturating subtraction, as the sum of `a` and the negation of `b`
/// saturates: the difference of `a` and `b` clamped to the signed numbers
/// of the width, except that the least value negates to itself, so that
/// subtracting it adds it.
pub fn ssubs(a: &BvTerm, b: &BvTerm) -> (r: BvTerm)
    requires
        wf(*a),
        wf(*b),
        width(*a) == width(*b),
        width(*a) >= 2,
    ensures
        wf(r),
        width(r) == width(*a),
        forall|env: Env| #[trigger] signed(eval(r, env)) == {
            let x = signed(eval(*a, env));
            let y = signed(eval(*b, env));
            if y == least_signed(width(*a)) {
                clamp_signed(x + y, width(*a))
            } else {
                clamp_signed(x - y, width(*a))
            }
        },
{
    let neg = BvTerm::Neg(Box::new(b.clone()));
    let ghost gneg = neg;
    let r = sadds(a, &neg);
    proof {
        assert forall|env: Env| #[trigger] signed(eval(r, env)) == {
            let x = signed(eval(*a, env));
            let y = signed(eval(*b, env));
            if y == least_signed(width(*a)) {
                clamp_signed(x + y, width(*a))
            } else {
                clamp_signed(x - y, width(*a))
            }
        } by {
            lemma_neg_signed(*b, env);
            assert(signed(eval(r, env)) == clamp_signed(signed(eval(*a, env)) + signed(eval(gneg, env)), width(*a)));
        }
    }
    r
}

/// The negation of `b` is minus `b` as a signed number, except for the least
/// value, which negates to itself.
proof fn lemma_neg_signed(b: BvTerm, env: Env)
    requires
        wf(b),
        width(b) >= 2,
    ensures
        ({
            let y = signed(eval(b, env));
            let n = signed(eval(BvTerm::Neg(Box::new(b)), env));
            if y == least_signed(width(b)) { n == y } else { n == -y }
        }),
{
    let w = width(b);
    let x = eval(b, env);
    lemma_eval_len(b, env);
    lemma_signed_bounds(x);
    let y = signed(x);
    let m = pow2(w) as int;
    lemma_pow2_unfold(w);
    lemma_pow2_pos((w - 1) as nat);
    assert(eval(BvTerm::Neg(Box::new(b)), env) == wrap(-(value(x) as int), w));
    // minus the number and minus its signed reading are congruent
    if x[w - 1] {
        lemma_top_bit(x);
        vstd::arithmetic::div_mod::lemma_mod_sub_multiples_vanish(-y, m);
        assert(-(value(x) as int) == -y - m);
    }
    if y == least_signed(w) {
        assert(-y - m == y);
        lemma_signed_wrap(y, w);
        if !x[w - 1] {
            lemma_top_bit(x);
        }
    } else {
        lemma_signed_wrap(-y, w);
    }
}

} // verus!
