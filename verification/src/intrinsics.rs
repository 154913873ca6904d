//! Built-in handlers for LLVM intrinsics whose result is a bitvector term
//! built from the operand: counts of leading and trailing zero bits, and byte
//! swaps.
//!
//! Each handler is given the operand's term and builds the result's term; its
//! contract says what the result evaluates to in every environment.

use vstd::arithmetic::div_mod::lemma_small_mod;
use vstd::arithmetic::power2::{lemma2_to64, lemma_pow2_strictly_increases, pow2};
use vstd::prelude::*;

use crate::bv_term::{bits_of, eval, lemma_eval_len, lemma_value_zeros, lemma_value_bits_of, shift_right, value, width, wf, zeros, BvTerm, Env};
use crate::decimal::{decimal, message_with_number};
use crate::error::{Error, Result};
use crate::layout::{same_type, type_eq, LlvmType, NESTING_BOUND};
use crate::project::Project;
use crate::return_value::ReturnValue;

verus! {

/// The number of zero bits at the top (most significant end) of `x`.
pub open spec fn leading_zeros(x: Seq<bool>) -> nat
    decreases x.len(),
{
    if x.len() == 0 {
        0
    } else if x.last() {
        0
    } else {
        1 + leading_zeros(x.drop_last())
    }
}

/// The number of zero bits at the bottom (least significant end) of `x`.
pub open spec fn trailing_zeros(x: Seq<bool>) -> nat
    decreases x.len(),
{
    if x.len() == 0 {
        0
    } else if x[0] {
        0
    } else {
        1 + trailing_zeros(x.drop_first())
    }
}

/// `x` shifted left by `n` bits, zeros coming in at the bottom.
pub open spec fn shift_left(x: Seq<bool>, n: nat) -> Seq<bool> {
    Seq::new(x.len(), |k: int| k >= n && x[k - n])
}

/// At least `k` leading zeros means that the top `k` bits are clear.
pub proof fn lemma_leading_zeros(x: Seq<bool>, k: nat)
    requires
        k <= x.len(),
    ensures
        leading_zeros(x) <= x.len(),
        (leading_zeros(x) >= k) == (forall|j: int| x.len() - k <= j < x.len() ==> !#[trigger] x[j]),
    decreases x.len(),
{
    if x.len() > 0 {
        let d = x.drop_last();
        if x.last() {
            if k > 0 {
                assert(!(forall|j: int| x.len() - k <= j < x.len() ==> !#[trigger] x[j])) by {
                    assert(x[x.len() - 1]);
                }
            }
        } else {
            let k1: nat = if k > 0 { (k - 1) as nat } else { 0 };
            lemma_leading_zeros(d, k1);
            if k > 0 {
                if forall|j: int| x.len() - k <= j < x.len() ==> !#[trigger] x[j] {
                    assert forall|j: int| d.len() - k1 <= j < d.len() implies !#[trigger] d[j] by {
                        assert(!x[j]);
                    }
                } else if leading_zeros(x) >= k {
                    assert forall|j: int| x.len() - k <= j < x.len() implies !#[trigger] x[j] by {
                        if j < x.len() - 1 {
                            assert(!d[j]);
                        }
                    }
                }
            }
        }
    }
}

/// At least `k` trailing zeros means that the bottom `k` bits are clear.
pub proof fn lemma_trailing_zeros(x: Seq<bool>, k: nat)
    requires
        k <= x.len(),
    ensures
        trailing_zeros(x) <= x.len(),
        (trailing_zeros(x) >= k) == (forall|j: int| 0 <= j < k ==> !#[trigger] x[j]),
    decreases x.len(),
{
    if x.len() > 0 {
        let d = x.drop_first();
        if x[0] {
            if k > 0 {
                assert(!(forall|j: int| 0 <= j < k ==> !#[trigger] x[j])) by {
                    assert(x[0]);
                }
            }
        } else {
            let k1: nat = if k > 0 { (k - 1) as nat } else { 0 };
            lemma_trailing_zeros(d, k1);
            if k > 0 {
                if forall|j: int| 0 <= j < k ==> !#[trigger] x[j] {
                    assert forall|j: int| 0 <= j < k1 implies !#[trigger] d[j] by {
                        assert(!x[j + 1]);
                    }
                } else if trailing_zeros(x) >= k {
                    assert forall|j: int| 0 <= j < k implies !#[trigger] x[j] by {
                        if j > 0 {
                            assert(!d[j - 1]);
                        }
                    }
                }
            }
        }
    }
}

/// A small constant written in at least eight bits denotes itself.
proof fn lemma_small_const(v: nat, w: nat)
    requires
        v < 256,
        8 <= w,
    ensures
        value(bits_of(v, w)) == v,
{
    lemma_value_bits_of(v, w);
    lemma2_to64();
    if w > 8 {
        lemma_pow2_strictly_increases(8, w);
    }
    lemma_small_mod(v, pow2(w));
}

/// What is known, in one environment, part way through counting leading
/// zeros, before the step that tests `step` bits (`0` once all steps are
/// done): `n` counts zeros found so far, fewer than twice `step` more remain
/// to be found (unless the operand is zero), and, while steps remain, `cur` is
/// the operand shifted left past the zeros found.
pub open spec fn ctlz_progress(x: BvTerm, n: BvTerm, cur: BvTerm, step: nat, env: Env) -> bool {
    let xs = eval(x, env);
    let nv = value(eval(n, env));
    let bound: nat = if step == 0 { 1 } else { 2 * step };
    &&& nv + bound <= width(x)
    &&& nv <= leading_zeros(xs)
    &&& (leading_zeros(xs) < nv + bound || leading_zeros(xs) == width(x))
    &&& step > 0 ==> eval(cur, env) == shift_left(xs, nv)
}

/// The same for trailing zeros, with `cur` the operand shifted right.
pub open spec fn cttz_progress(x: BvTerm, n: BvTerm, cur: BvTerm, step: nat, env: Env) -> bool {
    let xs = eval(x, env);
    let nv = value(eval(n, env));
    let bound: nat = if step == 0 { 1 } else { 2 * step };
    &&& nv + bound <= width(x)
    &&& nv <= trailing_zeros(xs)
    &&& (trailing_zeros(xs) < nv + bound || trailing_zeros(xs) == width(x))
    &&& step > 0 ==> eval(cur, env) == shift_right(xs, nv)
}

/// A term that counts bits of the operand: it returns a value, of the
/// operand's width, that evaluates in every environment to `count` of the
/// operand's bits.
pub open spec fn counts(rv: ReturnValue<BvTerm>, x: BvTerm, leading: bool) -> bool {
    match rv {
        ReturnValue::Return(t) => {
            &&& wf(t)
            &&& width(t) == width(x)
            &&& forall|env: Env|
                #[trigger] value(eval(t, env)) == if leading {
                    leading_zeros(eval(x, env))
                } else {
                    trailing_zeros(eval(x, env))
                }
        },
        _ => false,
    }
}

/// An environment, for facts that hold in all of them.
spec fn some_env() -> Env {
    Env { vars: |id: u64| Seq::empty(), arrays: |id: u64, j: Seq<bool>| Seq::empty() }
}

/// The widths the zero-counting intrinsics support.
pub open spec fn countable_width(w: nat) -> bool {
    w == 8 || w == 16 || w == 32
}

/// The term that is set when the top `s` of the `w` bits of `cur` are clear:
/// `(cur & mask) == 0` for the mask of those bits.
pub open spec fn top_clear(cur: BvTerm, s: nat, w: nat) -> BvTerm {
    BvTerm::Eq(
        Box::new(BvTerm::And(Box::new(cur), Box::new(BvTerm::Concat(Box::new(BvTerm::Ones(s as u32)), Box::new(BvTerm::Zero((w - s) as u32)))))),
        Box::new(BvTerm::Zero(w as u32)),
    )
}

/// The term that is set when the bottom `s` of the `w` bits of `cur` are
/// clear.
pub open spec fn bottom_clear(cur: BvTerm, s: nat, w: nat) -> BvTerm {
    BvTerm::Eq(
        Box::new(BvTerm::And(Box::new(cur), Box::new(BvTerm::Concat(Box::new(BvTerm::Zero((w - s) as u32)), Box::new(BvTerm::Ones(s as u32)))))),
        Box::new(BvTerm::Zero(w as u32)),
    )
}

/// `n + s` where `test` is set, else `n`.
pub open spec fn count_step(test: BvTerm, n: BvTerm, s: nat, w: nat) -> BvTerm {
    BvTerm::Ite(Box::new(test), Box::new(BvTerm::Add(Box::new(n), Box::new(BvTerm::Const(s as u64, w as u32)))), Box::new(n))
}

/// `cur` shifted by `s` (left if `left`, else right) where `test` is set,
/// else `cur`.
pub open spec fn shift_step(test: BvTerm, cur: BvTerm, s: nat, w: nat, left: bool) -> BvTerm {
    let amount = BvTerm::Const(s as u64, w as u32);
    let shifted = if left {
        BvTerm::Sll(Box::new(cur), Box::new(amount))
    } else {
        BvTerm::Srl(Box::new(cur), Box::new(amount))
    };
    BvTerm::Ite(Box::new(test), Box::new(shifted), Box::new(cur))
}

/// The test of a step is well formed, and is set exactly when the tested
/// bits are clear.
proof fn lemma_clear_test(cur: BvTerm, s: nat, w: nat, top: bool, env: Env)
    requires
        wf(cur),
        width(cur) == w,
        1 <= s < w <= 64,
    ensures
        ({
            let t = if top { top_clear(cur, s, w) } else { bottom_clear(cur, s, w) };
            &&& wf(t)
            &&& width(t) == 1
            &&& eval(t, env)[0] == if top {
                forall|j: int| w - s <= j < w ==> !#[trigger] eval(cur, env)[j]
            } else {
                forall|j: int| 0 <= j < s ==> !#[trigger] eval(cur, env)[j]
            }
        }),
{
    let ones = BvTerm::Ones(s as u32);
    let zero = BvTerm::Zero((w - s) as u32);
    let mask = if top {
        BvTerm::Concat(Box::new(ones), Box::new(zero))
    } else {
        BvTerm::Concat(Box::new(zero), Box::new(ones))
    };
    let masked = BvTerm::And(Box::new(cur), Box::new(mask));
    let t = BvTerm::Eq(Box::new(masked), Box::new(BvTerm::Zero(w as u32)));
    assert(t == if top { top_clear(cur, s, w) } else { bottom_clear(cur, s, w) });
    assert(wf(ones) && wf(zero) && wf(BvTerm::Zero(w as u32)));
    assert(wf(mask) && width(mask) == w);
    assert(wf(masked));
    lemma_eval_len(cur, env);
    let c = eval(cur, env);
    assert(eval(ones, env) =~= Seq::new(s, |k: int| true));
    assert(eval(zero, env) == zeros((w - s) as nat));
    let mk = eval(mask, env);
    let a = eval(masked, env);
    assert(a == Seq::new(c.len(), |k: int| c[k] && mk[k]));
    assert(eval(BvTerm::Zero(w as u32), env) == zeros(w));
    let bit = a == zeros(w);
    assert(eval(t, env)[0] == bit);
    if top {
        assert(mk =~= zeros((w - s) as nat) + Seq::new(s, |k: int| true));
        if bit {
            assert forall|j: int| w - s <= j < w implies !#[trigger] c[j] by {
                assert(a[j] == zeros(w)[j]);
            }
        } else if forall|j: int| w - s <= j < w ==> !#[trigger] c[j] {
            assert(a =~= zeros(w));
        }
    } else {
        assert(mk =~= Seq::new(s, |k: int| true) + zeros((w - s) as nat));
        if bit {
            assert forall|j: int| 0 <= j < s implies !#[trigger] c[j] by {
                assert(a[j] == zeros(w)[j]);
            }
        } else if forall|j: int| 0 <= j < s ==> !#[trigger] c[j] {
            assert(a =~= zeros(w));
        }
    }
}

/// The top `s` bits of the operand shifted left past `nv` known leading
/// zeros are clear exactly when it has at least `nv + s` leading zeros.
proof fn lemma_top_clear_means(xs: Seq<bool>, nv: nat, s: nat)
    requires
        nv + s <= xs.len(),
        nv <= leading_zeros(xs),
    ensures
        (forall|j: int| xs.len() - s <= j < xs.len() ==> !#[trigger] shift_left(xs, nv)[j])
            == (leading_zeros(xs) >= nv + s),
{
    let w = xs.len();
    let c = shift_left(xs, nv);
    lemma_leading_zeros(xs, nv);
    lemma_leading_zeros(xs, nv + s);
    if forall|j: int| w - s <= j < w ==> !#[trigger] c[j] {
        assert forall|j: int| w - (nv + s) <= j < w implies !#[trigger] xs[j] by {
            if j < w - nv {
                assert(!c[j + nv]);
            }
        }
    } else if leading_zeros(xs) >= nv + s {
        assert forall|j: int| w - s <= j < w implies !#[trigger] c[j] by {
            assert(!xs[j - nv]);
        }
    }
}

/// The bottom `s` bits of the operand shifted right past `nv` known trailing
/// zeros are clear exactly when it has at least `nv + s` trailing zeros.
proof fn lemma_bottom_clear_means(xs: Seq<bool>, nv: nat, s: nat)
    requires
        nv + s <= xs.len(),
        nv <= trailing_zeros(xs),
    ensures
        (forall|j: int| 0 <= j < s ==> !#[trigger] shift_right(xs, nv)[j]) == (trailing_zeros(xs) >= nv + s),
{
    let c = shift_right(xs, nv);
    lemma_trailing_zeros(xs, nv);
    lemma_trailing_zeros(xs, nv + s);
    if forall|j: int| 0 <= j < s ==> !#[trigger] c[j] {
        assert forall|j: int| 0 <= j < nv + s implies !#[trigger] xs[j] by {
            if j >= nv {
                assert(!c[j - nv]);
            }
        }
    } else if trailing_zeros(xs) >= nv + s {
        assert forall|j: int| 0 <= j < s implies !#[trigger] c[j] by {
            assert(!xs[j + nv]);
        }
    }
}

/// What the count of a step evaluates to.
proof fn lemma_count_update(test: BvTerm, n0: BvTerm, s: nat, w: nat, env: Env)
    requires
        wf(n0),
        width(n0) == w,
        8 <= w <= 32,
        value(eval(n0, env)) + s <= w,
    ensures
        value(eval(count_step(test, n0, s, w), env)) == if eval(test, env)[0] {
            value(eval(n0, env)) + s
        } else {
            value(eval(n0, env))
        },
{
    let nv = value(eval(n0, env));
    let amount = BvTerm::Const(s as u64, w as u32);
    assert(eval(amount, env) == bits_of(s, w));
    lemma_small_const(s, w);
    lemma_small_const(nv + s, w);
    let added = eval(BvTerm::Add(Box::new(n0), Box::new(amount)), env);
    assert(added == bits_of(nv + s, w));
}

/// What the shifted operand of a step evaluates to.
proof fn lemma_shift_update(test: BvTerm, cur0: BvTerm, s: nat, w: nat, left: bool, env: Env)
    requires
        8 <= w <= 32,
        s < w,
    ensures
        eval(shift_step(test, cur0, s, w, left), env) == if eval(test, env)[0] {
            if left {
                shift_left(eval(cur0, env), s)
            } else {
                shift_right(eval(cur0, env), s)
            }
        } else {
            eval(cur0, env)
        },
{
    let amount = BvTerm::Const(s as u64, w as u32);
    assert(eval(amount, env) == bits_of(s, w));
    lemma_small_const(s, w);
    if left {
        assert(eval(BvTerm::Sll(Box::new(cur0), Box::new(amount)), env) =~= shift_left(eval(cur0, env), s));
    } else {
        assert(eval(BvTerm::Srl(Box::new(cur0), Box::new(amount)), env) =~= shift_right(eval(cur0, env), s));
    }
}

/// One step of counting leading zeros keeps what is known.
#[verifier::rlimit(40)]
proof fn lemma_ctlz_step(x: BvTerm, n0: BvTerm, cur0: BvTerm, s: nat, env: Env)
    requires
        wf(x),
        wf(n0),
        wf(cur0),
        width(n0) == width(x),
        width(cur0) == width(x),
        countable_width(width(x)),
        s == 16 || s == 8 || s == 4 || s == 2 || s == 1,
        s < width(x),
        ctlz_progress(x, n0, cur0, s, env),
    ensures
        ({
            let w = width(x);
            let test = top_clear(cur0, s, w);
            let n = count_step(test, n0, s, w);
            let cur = if s > 1 { shift_step(test, cur0, s, w, true) } else { cur0 };
            ctlz_progress(x, n, cur, s / 2, env)
        }),
{
    let w = width(x);
    let test = top_clear(cur0, s, w);
    let xs = eval(x, env);
    let nv = value(eval(n0, env));
    lemma_eval_len(x, env);
    lemma_clear_test(cur0, s, w, true, env);
    assert(eval(cur0, env) == shift_left(xs, nv));
    lemma_top_clear_means(xs, nv, s);
    lemma_count_update(test, n0, s, w, env);
    if s > 1 {
        lemma_shift_update(test, cur0, s, w, true, env);
        assert(shift_left(shift_left(xs, nv), s) =~= shift_left(xs, nv + s));
    }
}

/// One step of counting trailing zeros keeps what is known.
proof fn lemma_cttz_step(x: BvTerm, n0: BvTerm, cur0: BvTerm, s: nat, env: Env)
    requires
        wf(x),
        wf(n0),
        wf(cur0),
        width(n0) == width(x),
        width(cur0) == width(x),
        countable_width(width(x)),
        s == 16 || s == 8 || s == 4 || s == 2 || s == 1,
        s < width(x),
        cttz_progress(x, n0, cur0, s, env),
    ensures
        ({
            let w = width(x);
            let test = bottom_clear(cur0, s, w);
            let n = count_step(test, n0, s, w);
            let cur = if s > 1 { shift_step(test, cur0, s, w, false) } else { cur0 };
            cttz_progress(x, n, cur, s / 2, env)
        }),
{
    let w = width(x);
    let test = bottom_clear(cur0, s, w);
    let xs = eval(x, env);
    let nv = value(eval(n0, env));
    lemma_eval_len(x, env);
    lemma_clear_test(cur0, s, w, false, env);
    lemma_bottom_clear_means(xs, nv, s);
    lemma_count_update(test, n0, s, w, env);
    if s > 1 {
        lemma_shift_update(test, cur0, s, w, false, env);
        assert(shift_right(shift_right(xs, nv), s) =~= shift_right(xs, nv + s));
    }
}

/// The final answer of a count: the operand's width where the operand is
/// zero, else the count found.
proof fn lemma_count_result(x: BvTerm, n: BvTerm, cur: BvTerm, leading: bool, env: Env)
    requires
        wf(x),
        wf(n),
        width(n) == width(x),
        countable_width(width(x)),
        leading ==> ctlz_progress(x, n, cur, 0, env),
        !leading ==> cttz_progress(x, n, cur, 0, env),
    ensures
        ({
            let w = width(x);
            let r = BvTerm::Ite(
                Box::new(BvTerm::Eq(Box::new(x), Box::new(BvTerm::Zero(w as u32)))),
                Box::new(BvTerm::Const(w as u64, w as u32)),
                Box::new(n),
            );
            &&& wf(r)
            &&& width(r) == w
            &&& value(eval(r, env)) == if leading {
                leading_zeros(eval(x, env))
            } else {
                trailing_zeros(eval(x, env))
            }
        }),
{
    let w = width(x);
    let zero = BvTerm::Zero(w as u32);
    let is_zero = BvTerm::Eq(Box::new(x), Box::new(zero));
    let wc = BvTerm::Const(w as u64, w as u32);
    assert(wf(zero));
    assert(wf(wc));
    assert(wf(is_zero));
    let xs = eval(x, env);
    lemma_eval_len(x, env);
    lemma_leading_zeros(xs, w);
    lemma_trailing_zeros(xs, w);
    lemma_small_const(w, w);
    assert(eval(zero, env) == zeros(w));
    assert(eval(is_zero, env)[0] == (xs == zeros(w)));
    assert(value(eval(wc, env)) == w);
    if xs == zeros(w) {
        assert forall|j: int| 0 <= j < w implies !#[trigger] xs[j] by {
            assert(xs[j] == zeros(w)[j]);
        }
    } else if leading && leading_zeros(xs) == w {
        assert(xs =~= zeros(w));
    } else if !leading && trailing_zeros(xs) == w {
        assert(xs =~= zeros(w));
    }
}

/// A count of leading (or trailing) zeros of `x`, as a binary search: each
/// step tests whether the top (or bottom) half of the bits not yet known to
/// be zero is clear, and if so adds its size to the count and shifts the
/// operand past it.
fn count_zeros(x: &BvTerm, leading: bool) -> (r: BvTerm)
    requires
        wf(*x),
        countable_width(width(*x)),
    ensures
        counts(ReturnValue::Return(r), *x, leading),
{
    let w = x.get_width();
    let x_eq_0 = BvTerm::Eq(Box::new(x.clone()), Box::new(BvTerm::Zero(w)));
    let mut n = BvTerm::Zero(w);
    let mut cur = x.clone();
    let mut step: u32 = w / 2;
    proof {
        assert forall|env: Env|
            #![trigger ctlz_progress(*x, n, cur, step as nat, env)]
            #![trigger cttz_progress(*x, n, cur, step as nat, env)]
            ctlz_progress(*x, n, cur, step as nat, env) && cttz_progress(*x, n, cur, step as nat, env) by {
            lemma_eval_len(*x, env);
            lemma_value_zeros(w as nat);
            lemma_leading_zeros(eval(*x, env), 0);
            lemma_trailing_zeros(eval(*x, env), 0);
            assert(shift_left(eval(*x, env), 0) =~= eval(*x, env));
            assert(shift_right(eval(*x, env), 0) =~= eval(*x, env));
        }
    }
    while step > 0
        invariant
            wf(*x),
            width(*x) == w,
            countable_width(w as nat),
            wf(n),
            width(n) == w,
            wf(cur),
            width(cur) == w,
            step == 16 || step == 8 || step == 4 || step == 2 || step == 1 || step == 0,
            step < w,
            leading ==> forall|env: Env| #[trigger] ctlz_progress(*x, n, cur, step as nat, env),
            !leading ==> forall|env: Env| #[trigger] cttz_progress(*x, n, cur, step as nat, env),
        decreases step,
    {
        let ghost n0 = n;
        let ghost cur0 = cur;
        let mask = if leading {
            BvTerm::Concat(Box::new(BvTerm::Ones(step)), Box::new(BvTerm::Zero(w - step)))
        } else {
            BvTerm::Concat(Box::new(BvTerm::Zero(w - step)), Box::new(BvTerm::Ones(step)))
        };
        let masked = BvTerm::And(Box::new(cur.clone()), Box::new(mask));
        let test = BvTerm::Eq(Box::new(masked), Box::new(BvTerm::Zero(w)));
        let amount = BvTerm::Const(step as u64, w);
        n = BvTerm::Ite(
            Box::new(test.clone()),
            Box::new(BvTerm::Add(Box::new(n.clone()), Box::new(amount.clone()))),
            Box::new(n),
        );
        if step > 1 {
            let shifted = if leading {
                BvTerm::Sll(Box::new(cur.clone()), Box::new(amount))
            } else {
                BvTerm::Srl(Box::new(cur.clone()), Box::new(amount))
            };
            cur = BvTerm::Ite(Box::new(test), Box::new(shifted), Box::new(cur));
        }
        let ghost s: nat = step as nat;
        step = step / 2;
        proof {
            let test_g = if leading { top_clear(cur0, s, w as nat) } else { bottom_clear(cur0, s, w as nat) };
            assert(n == count_step(test_g, n0, s, w as nat));
            assert(cur == if s > 1 { shift_step(test_g, cur0, s, w as nat, leading) } else { cur0 });
            if leading {
                assert forall|env: Env| #[trigger] ctlz_progress(*x, n, cur, step as nat, env) by {
                    lemma_ctlz_step(*x, n0, cur0, s, env);
                }
            } else {
                assert forall|env: Env| #[trigger] cttz_progress(*x, n, cur, step as nat, env) by {
                    lemma_cttz_step(*x, n0, cur0, s, env);
                }
            }
            let env = some_env();
            lemma_clear_test(cur0, s, w as nat, leading, env);
            assert(wf(BvTerm::Const(s as u64, w)));
            assert(wf(BvTerm::Add(Box::new(n0), Box::new(BvTerm::Const(s as u64, w)))));
            if s > 1 {
                assert(wf(BvTerm::Sll(Box::new(cur0), Box::new(BvTerm::Const(s as u64, w)))));
                assert(wf(BvTerm::Srl(Box::new(cur0), Box::new(BvTerm::Const(s as u64, w)))));
            }
        }
    }
    let result = BvTerm::Ite(Box::new(x_eq_0), Box::new(BvTerm::Const(w as u64, w)), Box::new(n));
    proof {
        assert forall|env: Env|
            #[trigger] value(eval(result, env)) == if leading {
                leading_zeros(eval(*x, env))
            } else {
                trailing_zeros(eval(*x, env))
            } by {
            lemma_count_result(*x, n, cur, leading, env);
        }
        let env = some_env();
        lemma_count_result(*x, n, cur, leading, env);
    }
    result
}

/// The `llvm.ctlz` intrinsic: the number of leading zero bits of the operand
/// `x`, which is the operand's width when `x` is zero (the intrinsic's second
/// argument, which makes a zero operand poison, is not needed for that).
pub fn symex_ctlz(x: &BvTerm) -> (r: Result<ReturnValue<BvTerm>>)
    requires
        wf(*x),
    ensures
        (r is Ok) == countable_width(width(*x)),
        r matches Ok(rv) ==> counts(rv, *x, true),
        r matches Err(e) ==> e matches Error::UnsupportedInstruction(m) && m@
            == "ctlz intrinsic on an operand of width "@ + decimal(width(*x)) + " bits"@,
{
    let w = x.get_width();
    if w == 32 || w == 16 || w == 8 {
        Ok(ReturnValue::Return(count_zeros(x, true)))
    } else {
        Err(Error::UnsupportedInstruction(message_with_number("ctlz intrinsic on an operand of width ", w as u64, " bits")))
    }
}

/// The `llvm.cttz` intrinsic: the number of trailing zero bits of the operand
/// `x`, which is the operand's width when `x` is zero (the intrinsic's second
/// argument, which makes a zero operand poison, is not needed for that).
pub fn symex_cttz(x: &BvTerm) -> (r: Result<ReturnValue<BvTerm>>)
    requires
        wf(*x),
    ensures
        (r is Ok) == countable_width(width(*x)),
        r matches Ok(rv) ==> counts(rv, *x, false),
        r matches Err(e) ==> e matches Error::UnsupportedInstruction(m) && m@
            == "cttz intrinsic on an operand of width "@ + decimal(width(*x)) + " bits"@,
{
    let w = x.get_width();
    if w == 32 || w == 16 || w == 8 {
        Ok(ReturnValue::Return(count_zeros(x, false)))
    } else {
        Err(Error::UnsupportedInstruction(message_with_number("cttz intrinsic on an operand of width ", w as u64, " bits")))
    }
}

/// `x`'s bytes in reverse order (its length a multiple of eight bits).
pub open spec fn byte_swapped(x: Seq<bool>) -> Seq<bool> {
    swapped_prefix(x, x.len() / 8)
}

/// The first `i` bytes of `x`, in reverse order.
pub open spec fn swapped_prefix(x: Seq<bool>, i: nat) -> Seq<bool> {
    Seq::new(8 * i, |k: int| x[8 * (i - 1 - k / 8) + k % 8])
}

/// The widths `bswap` supports.
pub open spec fn swappable_width(bits: nat) -> bool {
    bits == 16 || bits == 32 || bits == 48 || bits == 64
}

/// The bytes of `bv`, a term of `bits` bits, in reverse order.
pub fn bswap(bv: &BvTerm, bits: u32) -> (r: Result<BvTerm>)
    requires
        wf(*bv),
        width(*bv) == bits,
    ensures
        (r is Ok) == swappable_width(bits as nat),
        r matches Ok(t) ==> wf(t) && width(t) == bits && forall|env: Env| #[trigger] eval(t, env) == byte_swapped(eval(*bv, env)),
        r matches Err(e) ==> e matches Error::UnsupportedInstruction(m) && m@ == "bswap on bitwidth "@ + decimal(bits as nat),
{
    if !(bits == 16 || bits == 32 || bits == 48 || bits == 64) {
        proof {
            reveal_strlit("");
        }
        return Err(Error::UnsupportedInstruction(message_with_number("bswap on bitwidth ", bits as u64, "")));
    }
    let nb = bits / 8;
    let mut acc = BvTerm::Slice(Box::new(bv.clone()), 7, 0);
    proof {
        assert forall|env: Env| #[trigger] eval(acc, env) == swapped_prefix(eval(*bv, env), 1) by {
            lemma_eval_len(*bv, env);
            assert(eval(acc, env) =~= swapped_prefix(eval(*bv, env), 1));
        }
    }
    let mut i: u32 = 1;
    while i < nb
        invariant
            wf(*bv),
            width(*bv) == bits,
            nb * 8 == bits,
            nb <= 8,
            1 <= i <= nb,
            wf(acc),
            width(acc) == 8 * i,
            forall|env: Env| #[trigger] eval(acc, env) == swapped_prefix(eval(*bv, env), i as nat),
        decreases nb - i,
    {
        let ghost acc0 = acc;
        let byte = BvTerm::Slice(Box::new(bv.clone()), 8 * i + 7, 8 * i);
        assert(wf(byte) && width(byte) == 8);
        let ghost byte_g = byte;
        acc = BvTerm::Concat(Box::new(acc), Box::new(byte));
        proof {
            assert forall|env: Env| #[trigger] eval(acc, env) == swapped_prefix(eval(*bv, env), (i + 1) as nat) by {
                let xs = eval(*bv, env);
                lemma_eval_len(*bv, env);
                let p0 = swapped_prefix(xs, i as nat);
                assert(eval(acc0, env) == p0);
                let lo = xs.subrange(8 * i, 8 * i + 8);
                assert(eval(byte_g, env) == lo);
                assert(eval(acc, env) == lo + p0);
                let p1 = swapped_prefix(xs, (i + 1) as nat);
                assert forall|k: int| 0 <= k < 8 * (i + 1) implies #[trigger] (lo + p0)[k] == p1[k] by {
                    if k < 8 {
                        assert(k / 8 == 0 && k % 8 == k);
                    } else {
                        assert((k - 8) / 8 == k / 8 - 1);
                        assert((k - 8) % 8 == k % 8);
                    }
                }
                assert(eval(acc, env) =~= p1);
            }
        }
        i = i + 1;
    }
    proof {
        assert forall|env: Env| #[trigger] eval(acc, env) == byte_swapped(eval(*bv, env)) by {
            lemma_eval_len(*bv, env);
            assert(eval(acc, env) == swapped_prefix(eval(*bv, env), nb as nat));
        }
    }
    Ok(acc)
}

/// The first `i` elements of `es` bits each of `x`, each with its bytes in
/// reverse order, element `0` lowest.
pub open spec fn elements_swapped(x: Seq<bool>, es: nat, i: nat) -> Seq<bool>
    decreases i,
{
    if i == 0 {
        Seq::empty()
    } else {
        elements_swapped(x, es, (i - 1) as nat) + byte_swapped(x.subrange(es * (i - 1), (es * i) as int))
    }
}

/// Each of the `n` elements of `es` bits of `arg`, with its bytes swapped,
/// concatenated again in the same order.
fn bswap_elements(arg: &BvTerm, n: u32, es: u32) -> (r: Result<BvTerm>)
    requires
        wf(*arg),
        1 <= n,
        width(*arg) == n * es,
    ensures
        (r is Ok) == swappable_width(es as nat),
        r matches Ok(t) ==> wf(t) && width(t) == width(*arg) && forall|env: Env| #[trigger] eval(t, env)
            == elements_swapped(eval(*arg, env), es as nat, n as nat),
        r matches Err(e) ==> e matches Error::UnsupportedInstruction(m) && m@ == "bswap on bitwidth "@ + decimal(es as nat),
{
    assert(es >= 1 && es <= n * es) by (nonlinear_arith)
        requires
            1 <= n,
            n * es >= 1,
    ;
    let first = BvTerm::Slice(Box::new(arg.clone()), es - 1, 0);
    assert(wf(first) && width(first) == es);
    let mut acc = match bswap(&first, es) {
        Ok(t) => t,
        Err(e) => {
            return Err(e);
        },
    };
    proof {
        assert forall|env: Env| #[trigger] eval(acc, env) == elements_swapped(eval(*arg, env), es as nat, 1) by {
            lemma_eval_len(*arg, env);
            let xs = eval(*arg, env);
            assert(eval(first, env) == xs.subrange(0, es as int));
            assert(elements_swapped(xs, es as nat, 0) =~= Seq::<bool>::empty());
            assert(elements_swapped(xs, es as nat, 1) =~= byte_swapped(xs.subrange(0, es as int)));
        }
    }
    let mut i: u32 = 1;
    while i < n
        invariant
            wf(*arg),
            width(*arg) == n * es,
            1 <= i <= n,
            es >= 1,
            swappable_width(es as nat),
            wf(acc),
            width(acc) == i * es,
            forall|env: Env| #[trigger] eval(acc, env) == elements_swapped(eval(*arg, env), es as nat, i as nat),
        decreases n - i,
    {
        assert(i * es + es <= n * es && (i + 1) * es == i * es + es) by (nonlinear_arith)
            requires
                i < n,
        ;
        let lo = i * es;
        assert(es * i == i * es) by (nonlinear_arith);
        assert(es * (i + 1) == es * i + es) by (nonlinear_arith);
        let el = BvTerm::Slice(Box::new(arg.clone()), lo + es - 1, lo);
        assert(wf(el) && width(el) == es);
        let ghost acc0 = acc;
        let sw = match bswap(&el, es) {
            Ok(t) => t,
            Err(e) => {
                return Err(e);
            },
        };
        let ghost sw_g = sw;
        acc = BvTerm::Concat(Box::new(sw), Box::new(acc));
        proof {
            assert forall|env: Env| #[trigger] eval(acc, env) == elements_swapped(eval(*arg, env), es as nat, (i + 1) as nat) by {
                let xs = eval(*arg, env);
                lemma_eval_len(*arg, env);
                assert(eval(el, env) == xs.subrange(es * i, es * i + es));
                assert(eval(acc0, env) == elements_swapped(xs, es as nat, i as nat));
                assert(eval(sw_g, env) == byte_swapped(eval(el, env)));
                assert(eval(acc, env) == eval(acc0, env) + byte_swapped(eval(el, env)));
            }
        }
        i = i + 1;
    }
    Ok(acc)
}

/// The two kinds of error `symex_bswap` gives with a fixed message.
pub enum ErrorKind {
    Unsupported,
    Other,
}

/// `r` is the error of the given kind with the message `m`.
pub open spec fn is_error(r: Result<ReturnValue<BvTerm>>, kind: ErrorKind, m: Seq<char>) -> bool {
    match r {
        Err(Error::UnsupportedInstruction(x)) => kind is Unsupported && x@ == m,
        Err(Error::OtherError(x)) => kind is Other && x@ == m,
        _ => false,
    }
}

/// `r` swaps the bytes of each of the `n` elements of `es` bits of `x`, or,
/// where `bswap` does not support elements of `es` bits, is the error that
/// says so.
pub open spec fn swap_outcome(r: Result<ReturnValue<BvTerm>>, x: BvTerm, es: nat, n: nat) -> bool {
    match r {
        Ok(ReturnValue::Return(t)) => {
            &&& swappable_width(es)
            &&& wf(t)
            &&& width(t) == width(x)
            &&& forall|env: Env| #[trigger] eval(t, env) == elements_swapped(eval(x, env), es, n)
        },
        Ok(_) => false,
        Err(_) => !swappable_width(es) && is_error(r, ErrorKind::Unsupported, "bswap on bitwidth "@ + decimal(es)),
    }
}

/// The `llvm.bswap` intrinsic on the operand `arg` of type `argty`, the call
/// having return type `retty`: the operand's bytes in reverse order, for an
/// integer; each element's bytes in reverse order, for a vector.
pub fn symex_bswap(proj: &Project, arg: &BvTerm, argty: &LlvmType, retty: &LlvmType) -> (r: Result<ReturnValue<BvTerm>>)
    requires
        wf(*arg),
        type_eq(*argty, *retty) ==> match *argty {
            LlvmType::IntegerType(bits) => width(*arg) == bits,
            LlvmType::VectorType(e, n, false) => {
                &&& proj.sizable(*e, NESTING_BOUND as nat)
                &&& 1 <= n <= u32::MAX
                &&& proj.size_spec(*e, NESTING_BOUND as nat) matches Some(es) ==> width(*arg) == n * es
            },
            _ => true,
        },
    ensures
        !type_eq(*argty, *retty) ==> is_error(r, ErrorKind::Other, "Expected bswap argument to be the same type as its return type"@),
        type_eq(*argty, *retty) ==> match *argty {
            LlvmType::IntegerType(bits) => swap_outcome(r, *arg, bits as nat, 1),
            LlvmType::VectorType(e, n, true) => is_error(r, ErrorKind::Unsupported, "bswap on a scalable vector"@),
            LlvmType::VectorType(e, n, false) => match proj.size_spec(*e, NESTING_BOUND as nat) {
                None => is_error(
                    r,
                    ErrorKind::Other,
                    "llvm.bswap: argument is vector type, and vector element type contains a struct type with no definition in the Project"@,
                ),
                Some(es) => swap_outcome(r, *arg, es as nat, n as nat),
            },
            _ => r matches Err(Error::UnsupportedInstruction(m)) && "llvm.bswap with argument type "@.is_prefix_of(m@),
        },
{
    if !same_type(argty, retty) {
        return Err(Error::OtherError(String::from_str("Expected bswap argument to be the same type as its return type")));
    }
    match argty {
        LlvmType::IntegerType(bits) => match bswap(arg, *bits) {
            Ok(t) => {
                proof {
                    assert forall|env: Env| #[trigger] eval(t, env) == elements_swapped(eval(*arg, env), *bits as nat, 1) by {
                        let xs = eval(*arg, env);
                        lemma_eval_len(*arg, env);
                        assert(elements_swapped(xs, *bits as nat, 0) =~= Seq::<bool>::empty());
                        assert(xs.subrange(0, *bits as int) =~= xs);
                        assert(elements_swapped(xs, *bits as nat, 1) =~= byte_swapped(xs));
                    }
                }
                Ok(ReturnValue::Return(t))
            },
            Err(e) => Err(e),
        },
        LlvmType::VectorType(_, _, true) => Err(Error::UnsupportedInstruction(String::from_str("bswap on a scalable vector"))),
        LlvmType::VectorType(element_type, num_elements, false) => {
            let element_type: &LlvmType = element_type;
            match proj.size_in_bits(element_type) {
                None => Err(
                    Error::OtherError(
                        String::from_str(
                            "llvm.bswap: argument is vector type, and vector element type contains a struct type with no definition in the Project",
                        ),
                    ),
                ),
                Some(element_size) => match bswap_elements(arg, *num_elements as u32, element_size) {
                    Ok(t) => Ok(ReturnValue::Return(t)),
                    Err(e) => Err(e),
                },
            }
        },
        _ => {
            let mut m = String::from_str("llvm.bswap with argument type ");
            let d = argty.debug_text();
            proof {
                reveal_strlit("llvm.bswap with argument type ");
            }
            m.append(d.as_str());
            assert(m@.subrange(0, "llvm.bswap with argument type "@.len() as int) =~= "llvm.bswap with argument type "@);
            Err(Error::UnsupportedInstruction(m))
        },
    }
}


/// The `llvm.objectsize` intrinsic, whose second operand, `arg1`, says
/// whether the unknown size is reported as zero; the call has return type
/// `ret_ty`. In-memory types are not tracked, so the size is always
/// reported unknown, which the intrinsic allows: zero where `arg1` is set,
/// all ones otherwise.
pub fn symex_objectsize(proj: &Project, arg1: &BvTerm, ret_ty: &LlvmType) -> (r: Result<ReturnValue<BvTerm>>)
    requires
        wf(*arg1),
        width(*arg1) == 1,
        proj.sizable(*ret_ty, NESTING_BOUND as nat),
    ensures
        proj.size_spec(*ret_ty, NESTING_BOUND as nat) is None ==> is_error(
            r,
            ErrorKind::Other,
            "symex_objectsize: return value of this call involves a struct type with no definition in the Project"@,
        ),
        proj.size_spec(*ret_ty, NESTING_BOUND as nat) == Some(0int) ==> is_error(
            r,
            ErrorKind::Other,
            "symex_objectsize: didn't expect return type to have size 0 bits"@,
        ),
        proj.size_spec(*ret_ty, NESTING_BOUND as nat) matches Some(w) ==> (w > 0 ==> (r matches Ok(ReturnValue::Return(t)) && wf(t)
            && width(t) == w && forall|env: Env| #[trigger] eval(t, env) == if eval(*arg1, env)[0] {
            zeros(w as nat)
        } else {
            Seq::new(w as nat, |k: int| true)
        })),
{
    let w = match proj.size_in_bits(ret_ty) {
        Some(w) => w,
        None => {
            return Err(
                Error::OtherError(
                    String::from_str(
                        "symex_objectsize: return value of this call involves a struct type with no definition in the Project",
                    ),
                ),
            );
        },
    };
    if w == 0 {
        return Err(Error::OtherError(String::from_str("symex_objectsize: didn't expect return type to have size 0 bits")));
    }
    let t = BvTerm::Ite(Box::new(arg1.clone()), Box::new(BvTerm::Zero(w)), Box::new(BvTerm::Ones(w)));
    assert(wf(BvTerm::Zero(w)) && wf(BvTerm::Ones(w)));
    assert(wf(t));
    assert forall|env: Env| #[trigger] eval(t, env) == if eval(*arg1, env)[0] {
        zeros(w as nat)
    } else {
        Seq::new(w as nat, |k: int| true)
    } by {
        assert(eval(BvTerm::Ones(w), env) =~= Seq::new(w as nat, |k: int| true));
        assert(eval(BvTerm::Zero(w), env) == zeros(w as nat));
        assert(eval(t, env) == if eval(*arg1, env)[0] {
            eval(BvTerm::Zero(w), env)
        } else {
            eval(BvTerm::Ones(w), env)
        });
    }
    Ok(ReturnValue::Return(t))
}

/// The `llvm.assume` intrinsic on the operand `arg`, of type `arg_ty`: the
/// call returns void, and, where LLVM's assumptions are trusted, the operand
/// is a constraint to add (returned beside the call's value).
pub fn symex_assume(arg: &BvTerm, arg_ty: &LlvmType, trust_llvm_assumes: bool) -> (r: Result<(ReturnValue<BvTerm>, Option<BvTerm>)>)
    ensures
        *arg_ty != LlvmType::IntegerType(1) ==> (r matches Err(Error::OtherError(m)) && "symex_assume: expected arg to be of type i1, got type "@.is_prefix_of(m@)),
        *arg_ty == LlvmType::IntegerType(1) ==> r == Ok::<(ReturnValue<BvTerm>, Option<BvTerm>), Error>(
            (ReturnValue::ReturnVoid, if trust_llvm_assumes {
                Some(*arg)
            } else {
                None
            }),
        ),
{
    match arg_ty {
        LlvmType::IntegerType(1) => {},
        _ => {
            let mut m = String::from_str("symex_assume: expected arg to be of type i1, got type ");
            let ghost prefix = m@;
            m.append(arg_ty.debug_text().as_str());
            proof {
                reveal_strlit("symex_assume: expected arg to be of type i1, got type ");
            }
            assert(m@.subrange(0, prefix.len() as int) =~= prefix);
            return Err(Error::OtherError(m));
        },
    }
    if trust_llvm_assumes {
        Ok((ReturnValue::ReturnVoid, Some(arg.clone())))
    } else {
        Ok((ReturnValue::ReturnVoid, None))
    }
}

} // verus!
