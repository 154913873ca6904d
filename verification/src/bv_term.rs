//! Bitvector terms: the expressions that symbolic execution builds and hands
//! to the solver, together with their meaning.
//!
//! A `BvTerm` is a bitvector expression and an `ArrayTerm` an array of
//! bitvectors (such as a memory). Each term has a width in bits, fixed by its
//! structure (`width`), and a meaning in every environment that gives values
//! to its variables and fresh arrays (`eval`). A value is a sequence of bits,
//! least significant first.

use std::rc::Rc;
use vstd::arithmetic::div_mod::{lemma_div_denominator, lemma_fundamental_div_mod, lemma_mod_breakdown, lemma_small_mod};
use vstd::arithmetic::power2::{lemma2_to64, lemma_pow2_pos, lemma_pow2_unfold, pow2};
use vstd::bits::lemma_u64_shr_is_div;
use vstd::prelude::*;

verus! {

/// A bitvector expression.
#[derive(Debug)]
pub enum BvTerm {
    /// The constant `value`, of the given width (at most 64 bits).
    Const(u64, u32),
    /// All zeros, of the given width.
    Zero(u32),
    /// All ones, of the given width.
    Ones(u32),
    /// The variable with the given id, of the given width.
    Var(u64, u32),
    /// Bits `lo` to `hi` (inclusive) of the operand.
    Slice(Box<BvTerm>, u32, u32),
    /// The operand, extended with the given number of zero bits at the top.
    Uext(Box<BvTerm>, u32),
    /// The first operand above the second.
    Concat(Box<BvTerm>, Box<BvTerm>),
    /// Sum, modulo two to the width.
    Add(Box<BvTerm>, Box<BvTerm>),
    /// Logical shift left of the first operand by the value of the second.
    Sll(Box<BvTerm>, Box<BvTerm>),
    /// Logical shift right of the first operand by the value of the second.
    Srl(Box<BvTerm>, Box<BvTerm>),
    /// Bitwise and.
    And(Box<BvTerm>, Box<BvTerm>),
    /// Bitwise or.
    Or(Box<BvTerm>, Box<BvTerm>),
    /// Bitwise negation.
    Not(Box<BvTerm>),
    /// The element of the array at the given index.
    Read(Rc<ArrayTerm>, Box<BvTerm>),
    /// One bit, set when the two operands are equal.
    Eq(Box<BvTerm>, Box<BvTerm>),
    /// The second operand where the one-bit first operand is set, else the third.
    Ite(Box<BvTerm>, Box<BvTerm>, Box<BvTerm>),
    /// Difference, modulo two to the width.
    Sub(Box<BvTerm>, Box<BvTerm>),
    /// Product, modulo two to the width.
    Mul(Box<BvTerm>, Box<BvTerm>),
    /// Unsigned quotient (all ones for a zero divisor).
    Udiv(Box<BvTerm>, Box<BvTerm>),
    /// Signed quotient, rounded toward zero.
    Sdiv(Box<BvTerm>, Box<BvTerm>),
    /// Unsigned remainder (the dividend for a zero divisor).
    Urem(Box<BvTerm>, Box<BvTerm>),
    /// Signed remainder, with the sign of the dividend.
    Srem(Box<BvTerm>, Box<BvTerm>),
    /// Bitwise exclusive or.
    Xor(Box<BvTerm>, Box<BvTerm>),
    /// Arithmetic shift right of the first operand by the value of the second.
    Sra(Box<BvTerm>, Box<BvTerm>),
    /// The operand, extended with the given number of copies of its top bit.
    Sext(Box<BvTerm>, u32),
    /// One bit, set when the first operand is below the second, unsigned.
    Ult(Box<BvTerm>, Box<BvTerm>),
    /// One bit, set when the first operand is at most the second, unsigned.
    Ule(Box<BvTerm>, Box<BvTerm>),
    /// One bit, set when the first operand is below the second, signed.
    Slt(Box<BvTerm>, Box<BvTerm>),
    /// One bit, set when the first operand is at most the second, signed.
    Sle(Box<BvTerm>, Box<BvTerm>),
    /// The two's complement negation of the operand.
    Neg(Box<BvTerm>),
    /// One bit, set when the unsigned sum of the operands does not fit.
    Uaddo(Box<BvTerm>, Box<BvTerm>),
    /// One bit, set when the signed sum of the operands does not fit.
    Saddo(Box<BvTerm>, Box<BvTerm>),
    /// One bit, set when the unsigned difference of the operands is negative.
    Usubo(Box<BvTerm>, Box<BvTerm>),
    /// One bit, set when the signed difference of the operands does not fit.
    Ssubo(Box<BvTerm>, Box<BvTerm>),
    /// One bit, set when the unsigned product of the operands does not fit.
    Umulo(Box<BvTerm>, Box<BvTerm>),
    /// One bit, set when the signed product of the operands does not fit.
    Smulo(Box<BvTerm>, Box<BvTerm>),
}

/// An array of bitvectors, indexed by bitvectors.
#[derive(Debug)]
pub enum ArrayTerm {
    /// The fresh array with the given id, index width and element width.
    Fresh(u64, u32, u32),
    /// The array of the given index width whose every element is the term.
    Filled(u32, Box<BvTerm>),
    /// The first array with the element at the second operand replaced by the
    /// third.
    Write(Rc<ArrayTerm>, Box<BvTerm>, Box<BvTerm>),
}

/// Values for the variables and fresh arrays of terms.
pub struct Env {
    /// The bits of each variable.
    pub vars: spec_fn(u64) -> Seq<bool>,
    /// The elements of each fresh array.
    pub arrays: spec_fn(u64, Seq<bool>) -> Seq<bool>,
}

/// The number that the bits `s` denote, least significant first.
pub open spec fn value(s: Seq<bool>) -> nat
    decreases s.len(),
{
    if s.len() == 0 {
        0
    } else {
        (if s[0] {
            1nat
        } else {
            0nat
        }) + 2 * value(s.subrange(1, s.len() as int))
    }
}

/// The low `w` bits of `x`, least significant first.
pub open spec fn bits_of(x: nat, w: nat) -> Seq<bool> {
    Seq::new(w, |k: int| (x / pow2(k as nat)) % 2 == 1)
}

/// `s`, cut or padded with zeros to `w` bits.
pub open spec fn fit(s: Seq<bool>, w: nat) -> Seq<bool> {
    Seq::new(w, |k: int| k < s.len() && s[k])
}

/// `w` zero bits.
pub open spec fn zeros(w: nat) -> Seq<bool> {
    Seq::new(w, |k: int| false)
}

/// The address `k` bytes past `a`, as the term `a + k` computes it.
pub open spec fn addr_plus(a: Seq<bool>, k: nat) -> Seq<bool> {
    bits_of(value(a) + value(bits_of(k, a.len())), a.len())
}

/// `x` shifted right by `n` bits, zeros coming in at the top.
pub open spec fn shift_right(x: Seq<bool>, n: nat) -> Seq<bool> {
    Seq::new(x.len(), |k: int| k + n < x.len() && x[k + n])
}

/// `x` with the bits from `n` on replaced by those of `v` (as far as `x`
/// reaches).
pub open spec fn overwrite(x: Seq<bool>, n: nat, v: Seq<bool>) -> Seq<bool> {
    Seq::new(x.len(), |k: int| if n <= k < n + v.len() { v[k - n] } else { x[k] })
}

/// The value of a term that is a constant of at most 64 bits.
pub open spec fn const_u64(t: BvTerm) -> Option<u64> {
    match t {
        BvTerm::Const(v, w) => if w <= 64 && (w == 64 || v >> (w as u64) == 0) {
            Some(v)
        } else {
            None
        },
        _ => None,
    }
}

/// The width of a term, in bits.
pub open spec fn width(t: BvTerm) -> nat
    decreases t,
{
    match t {
        BvTerm::Const(_, w) => w as nat,
        BvTerm::Zero(w) => w as nat,
        BvTerm::Ones(w) => w as nat,
        BvTerm::Var(_, w) => w as nat,
        BvTerm::Slice(_, hi, lo) => (hi - lo + 1) as nat,
        BvTerm::Uext(a, k) => width(*a) + k as nat,
        BvTerm::Concat(a, b) => width(*a) + width(*b),
        BvTerm::Add(a, _) => width(*a),
        BvTerm::Sll(a, _) => width(*a),
        BvTerm::Srl(a, _) => width(*a),
        BvTerm::And(a, _) => width(*a),
        BvTerm::Or(a, _) => width(*a),
        BvTerm::Not(a) => width(*a),
        BvTerm::Read(arr, _) => element_width(*arr),
        BvTerm::Eq(_, _) => 1,
        BvTerm::Ite(_, a, _) => width(*a),
        BvTerm::Sub(a, _) => width(*a),
        BvTerm::Mul(a, _) => width(*a),
        BvTerm::Udiv(a, _) => width(*a),
        BvTerm::Sdiv(a, _) => width(*a),
        BvTerm::Urem(a, _) => width(*a),
        BvTerm::Srem(a, _) => width(*a),
        BvTerm::Xor(a, _) => width(*a),
        BvTerm::Sra(a, _) => width(*a),
        BvTerm::Sext(a, k) => width(*a) + k as nat,
        BvTerm::Ult(_, _) => 1,
        BvTerm::Ule(_, _) => 1,
        BvTerm::Slt(_, _) => 1,
        BvTerm::Sle(_, _) => 1,
        BvTerm::Neg(a) => width(*a),
        BvTerm::Uaddo(_, _) => 1,
        BvTerm::Saddo(_, _) => 1,
        BvTerm::Usubo(_, _) => 1,
        BvTerm::Ssubo(_, _) => 1,
        BvTerm::Umulo(_, _) => 1,
        BvTerm::Smulo(_, _) => 1,
    }
}

/// The width of an array's elements, in bits.
pub open spec fn element_width(a: ArrayTerm) -> nat
    decreases a,
{
    match a {
        ArrayTerm::Fresh(_, _, e) => e as nat,
        ArrayTerm::Filled(_, v) => width(*v),
        ArrayTerm::Write(a, _, _) => element_width(*a),
    }
}

/// The width of an array's indices, in bits.
pub open spec fn index_width(a: ArrayTerm) -> nat
    decreases a,
{
    match a {
        ArrayTerm::Fresh(_, i, _) => i as nat,
        ArrayTerm::Filled(i, _) => i as nat,
        ArrayTerm::Write(a, _, _) => index_width(*a),
    }
}

/// A term is well formed when every operation in it is applied to operands
/// of the widths it expects, and every width is positive and fits a `u32`.
pub open spec fn wf(t: BvTerm) -> bool
    decreases t,
{
    &&& 1 <= width(t) <= u32::MAX
    &&& match t {
        BvTerm::Const(_, _) => true,
        BvTerm::Zero(_) => true,
        BvTerm::Ones(_) => true,
        BvTerm::Var(_, _) => true,
        BvTerm::Slice(a, hi, lo) => wf(*a) && lo <= hi < width(*a),
        BvTerm::Uext(a, _) => wf(*a),
        BvTerm::Concat(a, b) => wf(*a) && wf(*b),
        BvTerm::Add(a, b) => wf(*a) && wf(*b) && width(*a) == width(*b),
        BvTerm::Sll(a, b) => wf(*a) && wf(*b) && width(*a) == width(*b),
        BvTerm::Srl(a, b) => wf(*a) && wf(*b) && width(*a) == width(*b),
        BvTerm::And(a, b) => wf(*a) && wf(*b) && width(*a) == width(*b),
        BvTerm::Or(a, b) => wf(*a) && wf(*b) && width(*a) == width(*b),
        BvTerm::Not(a) => wf(*a),
        BvTerm::Read(arr, i) => wf_array(*arr) && wf(*i) && width(*i) == index_width(*arr),
        BvTerm::Eq(a, b) => wf(*a) && wf(*b) && width(*a) == width(*b),
        BvTerm::Ite(c, a, b) => wf(*c) && wf(*a) && wf(*b) && width(*c) == 1 && width(*a) == width(*b),
        BvTerm::Sub(a, b) => wf(*a) && wf(*b) && width(*a) == width(*b),
        BvTerm::Mul(a, b) => wf(*a) && wf(*b) && width(*a) == width(*b),
        BvTerm::Udiv(a, b) => wf(*a) && wf(*b) && width(*a) == width(*b),
        BvTerm::Sdiv(a, b) => wf(*a) && wf(*b) && width(*a) == width(*b),
        BvTerm::Urem(a, b) => wf(*a) && wf(*b) && width(*a) == width(*b),
        BvTerm::Srem(a, b) => wf(*a) && wf(*b) && width(*a) == width(*b),
        BvTerm::Xor(a, b) => wf(*a) && wf(*b) && width(*a) == width(*b),
        BvTerm::Sra(a, b) => wf(*a) && wf(*b) && width(*a) == width(*b),
        BvTerm::Sext(a, _) => wf(*a),
        BvTerm::Ult(a, b) => wf(*a) && wf(*b) && width(*a) == width(*b),
        BvTerm::Ule(a, b) => wf(*a) && wf(*b) && width(*a) == width(*b),
        BvTerm::Slt(a, b) => wf(*a) && wf(*b) && width(*a) == width(*b),
        BvTerm::Sle(a, b) => wf(*a) && wf(*b) && width(*a) == width(*b),
        BvTerm::Neg(a) => wf(*a),
        BvTerm::Uaddo(a, b) => wf(*a) && wf(*b) && width(*a) == width(*b),
        BvTerm::Saddo(a, b) => wf(*a) && wf(*b) && width(*a) == width(*b),
        BvTerm::Usubo(a, b) => wf(*a) && wf(*b) && width(*a) == width(*b),
        BvTerm::Ssubo(a, b) => wf(*a) && wf(*b) && width(*a) == width(*b),
        BvTerm::Umulo(a, b) => wf(*a) && wf(*b) && width(*a) == width(*b),
        BvTerm::Smulo(a, b) => wf(*a) && wf(*b) && width(*a) == width(*b),
    }
}

/// An array term is well formed when its indices and elements have the
/// widths it declares.
pub open spec fn wf_array(a: ArrayTerm) -> bool
    decreases a,
{
    &&& 1 <= index_width(a) <= u32::MAX
    &&& 1 <= element_width(a) <= u32::MAX
    &&& match a {
        ArrayTerm::Fresh(_, _, _) => true,
        ArrayTerm::Filled(_, v) => wf(*v),
        ArrayTerm::Write(arr, i, v) => wf_array(*arr) && wf(*i) && wf(*v) && width(*i)
            == index_width(*arr) && width(*v) == element_width(*arr),
    }
}

/// The number the bits `s` denote in two's complement.
pub open spec fn signed(s: Seq<bool>) -> int {
    if s.len() > 0 && s[s.len() - 1] {
        value(s) - pow2(s.len())
    } else {
        value(s) as int
    }
}

/// `x` is a signed number of `w` bits: at least minus two to the `w - 1` and
/// below two to the `w - 1`.
pub open spec fn fits_signed(x: int, w: nat) -> bool {
    w >= 1 && -(pow2((w - 1) as nat) as int) <= x < pow2((w - 1) as nat)
}

/// `x` modulo two to the `w`, in `w` bits.
pub open spec fn wrap(x: int, w: nat) -> Seq<bool> {
    bits_of((x % (pow2(w) as int)) as nat, w)
}

/// The magnitude of `x`.
pub open spec fn magnitude(x: int) -> nat {
    if x < 0 {
        (-x) as nat
    } else {
        x as nat
    }
}

/// The quotient of `x` by `y`, rounded toward zero; for a zero divisor, `1`
/// if `x` is negative and `-1` otherwise.
pub open spec fn signed_div(x: int, y: int) -> int {
    if y == 0 {
        if x < 0 {
            1
        } else {
            -1
        }
    } else {
        let q = (magnitude(x) / magnitude(y)) as int;
        if (x < 0) != (y < 0) {
            -q
        } else {
            q
        }
    }
}

/// The remainder of `x` by `y`, with the sign of `x`; `x` for a zero divisor.
pub open spec fn signed_rem(x: int, y: int) -> int {
    if y == 0 {
        x
    } else {
        let r = (magnitude(x) % magnitude(y)) as int;
        if x < 0 {
            -r
        } else {
            r
        }
    }
}

/// The value of a term in an environment.
pub open spec fn eval(t: BvTerm, env: Env) -> Seq<bool>
    decreases t,
{
    match t {
        BvTerm::Const(v, w) => bits_of(v as nat, w as nat),
        BvTerm::Zero(w) => zeros(w as nat),
        BvTerm::Ones(w) => Seq::new(w as nat, |k: int| true),
        BvTerm::Var(id, w) => fit((env.vars)(id), w as nat),
        BvTerm::Slice(a, hi, lo) => eval(*a, env).subrange(lo as int, hi + 1),
        BvTerm::Uext(a, k) => eval(*a, env) + zeros(k as nat),
        BvTerm::Concat(a, b) => eval(*b, env) + eval(*a, env),
        BvTerm::Add(a, b) => bits_of(value(eval(*a, env)) + value(eval(*b, env)), width(*a)),
        BvTerm::Sll(a, b) => {
            let x = eval(*a, env);
            let n = value(eval(*b, env));
            Seq::new(x.len(), |k: int| k >= n && x[k - n])
        },
        BvTerm::Srl(a, b) => {
            let x = eval(*a, env);
            let n = value(eval(*b, env));
            Seq::new(x.len(), |k: int| k + n < x.len() && x[k + n])
        },
        BvTerm::And(a, b) => {
            let x = eval(*a, env);
            let y = eval(*b, env);
            Seq::new(x.len(), |k: int| x[k] && y[k])
        },
        BvTerm::Or(a, b) => {
            let x = eval(*a, env);
            let y = eval(*b, env);
            Seq::new(x.len(), |k: int| x[k] || y[k])
        },
        BvTerm::Not(a) => {
            let x = eval(*a, env);
            Seq::new(x.len(), |k: int| !x[k])
        },
        BvTerm::Read(arr, i) => read_array(*arr, env, eval(*i, env)),
        BvTerm::Eq(a, b) => seq![eval(*a, env) == eval(*b, env)],
        BvTerm::Ite(c, a, b) => if eval(*c, env)[0] {
            eval(*a, env)
        } else {
            eval(*b, env)
        },
        BvTerm::Sub(a, b) => wrap(value(eval(*a, env)) - value(eval(*b, env)), width(*a)),
        BvTerm::Mul(a, b) => bits_of(value(eval(*a, env)) * value(eval(*b, env)), width(*a)),
        BvTerm::Udiv(a, b) => {
            let y = value(eval(*b, env));
            if y == 0 {
                Seq::new(width(*a), |k: int| true)
            } else {
                bits_of(value(eval(*a, env)) / y, width(*a))
            }
        },
        BvTerm::Sdiv(a, b) => wrap(signed_div(signed(eval(*a, env)), signed(eval(*b, env))), width(*a)),
        BvTerm::Urem(a, b) => {
            let y = value(eval(*b, env));
            if y == 0 {
                eval(*a, env)
            } else {
                bits_of(value(eval(*a, env)) % y, width(*a))
            }
        },
        BvTerm::Srem(a, b) => wrap(signed_rem(signed(eval(*a, env)), signed(eval(*b, env))), width(*a)),
        BvTerm::Xor(a, b) => {
            let x = eval(*a, env);
            let y = eval(*b, env);
            Seq::new(x.len(), |k: int| x[k] != y[k])
        },
        BvTerm::Sra(a, b) => {
            let x = eval(*a, env);
            let n = value(eval(*b, env));
            Seq::new(x.len(), |k: int| if k + n < x.len() { x[k + n] } else { x[x.len() - 1] })
        },
        BvTerm::Sext(a, k) => {
            let x = eval(*a, env);
            x + Seq::new(k as nat, |j: int| x[x.len() - 1])
        },
        BvTerm::Ult(a, b) => seq![value(eval(*a, env)) < value(eval(*b, env))],
        BvTerm::Ule(a, b) => seq![value(eval(*a, env)) <= value(eval(*b, env))],
        BvTerm::Slt(a, b) => seq![signed(eval(*a, env)) < signed(eval(*b, env))],
        BvTerm::Sle(a, b) => seq![signed(eval(*a, env)) <= signed(eval(*b, env))],
        BvTerm::Neg(a) => wrap(-value(eval(*a, env)), width(*a)),
        BvTerm::Uaddo(a, b) => seq![value(eval(*a, env)) + value(eval(*b, env)) >= pow2(width(*a))],
        BvTerm::Saddo(a, b) => seq![!fits_signed(signed(eval(*a, env)) + signed(eval(*b, env)), width(*a))],
        BvTerm::Usubo(a, b) => seq![value(eval(*a, env)) < value(eval(*b, env))],
        BvTerm::Ssubo(a, b) => seq![!fits_signed(signed(eval(*a, env)) - signed(eval(*b, env)), width(*a))],
        BvTerm::Umulo(a, b) => seq![value(eval(*a, env)) * value(eval(*b, env)) >= pow2(width(*a))],
        BvTerm::Smulo(a, b) => seq![!fits_signed(signed(eval(*a, env)) * signed(eval(*b, env)), width(*a))],
    }
}

/// The element at index `j` of an array term in an environment.
pub open spec fn read_array(a: ArrayTerm, env: Env, j: Seq<bool>) -> Seq<bool>
    decreases a,
{
    match a {
        ArrayTerm::Fresh(id, _, e) => fit((env.arrays)(id, j), e as nat),
        ArrayTerm::Filled(_, v) => eval(*v, env),
        ArrayTerm::Write(arr, i, v) => if j == eval(*i, env) {
            eval(*v, env)
        } else {
            read_array(*arr, env, j)
        },
    }
}

impl Clone for BvTerm {
    fn clone(&self) -> (r: Self)
        ensures
            r == *self,
        decreases self,
    {
        match self {
            BvTerm::Const(v, w) => BvTerm::Const(*v, *w),
            BvTerm::Zero(w) => BvTerm::Zero(*w),
            BvTerm::Ones(w) => BvTerm::Ones(*w),
            BvTerm::Var(id, w) => BvTerm::Var(*id, *w),
            BvTerm::Slice(a, hi, lo) => {
                let a: &BvTerm = a;
                BvTerm::Slice(Box::new(a.clone()), *hi, *lo)
            },
            BvTerm::Uext(a, k) => {
                let a: &BvTerm = a;
                BvTerm::Uext(Box::new(a.clone()), *k)
            },
            BvTerm::Concat(a, b) => {
                let a: &BvTerm = a;
                let b: &BvTerm = b;
                BvTerm::Concat(Box::new(a.clone()), Box::new(b.clone()))
            },
            BvTerm::Add(a, b) => {
                let a: &BvTerm = a;
                let b: &BvTerm = b;
                BvTerm::Add(Box::new(a.clone()), Box::new(b.clone()))
            },
            BvTerm::Sll(a, b) => {
                let a: &BvTerm = a;
                let b: &BvTerm = b;
                BvTerm::Sll(Box::new(a.clone()), Box::new(b.clone()))
            },
            BvTerm::Srl(a, b) => {
                let a: &BvTerm = a;
                let b: &BvTerm = b;
                BvTerm::Srl(Box::new(a.clone()), Box::new(b.clone()))
            },
            BvTerm::And(a, b) => {
                let a: &BvTerm = a;
                let b: &BvTerm = b;
                BvTerm::And(Box::new(a.clone()), Box::new(b.clone()))
            },
            BvTerm::Or(a, b) => {
                let a: &BvTerm = a;
                let b: &BvTerm = b;
                BvTerm::Or(Box::new(a.clone()), Box::new(b.clone()))
            },
            BvTerm::Not(a) => {
                let a: &BvTerm = a;
                BvTerm::Not(Box::new(a.clone()))
            },
            BvTerm::Read(arr, i) => {
                let i: &BvTerm = i;
                BvTerm::Read(arr.clone(), Box::new(i.clone()))
            },
            BvTerm::Eq(a, b) => {
                let a: &BvTerm = a;
                let b: &BvTerm = b;
                BvTerm::Eq(Box::new(a.clone()), Box::new(b.clone()))
            },
            BvTerm::Ite(c, a, b) => {
                let c: &BvTerm = c;
                let a: &BvTerm = a;
                let b: &BvTerm = b;
                BvTerm::Ite(Box::new(c.clone()), Box::new(a.clone()), Box::new(b.clone()))
            },
            BvTerm::Sub(a, b) => {
                let a: &BvTerm = a;
                let b: &BvTerm = b;
                BvTerm::Sub(Box::new(a.clone()), Box::new(b.clone()))
            },
            BvTerm::Mul(a, b) => {
                let a: &BvTerm = a;
                let b: &BvTerm = b;
                BvTerm::Mul(Box::new(a.clone()), Box::new(b.clone()))
            },
            BvTerm::Udiv(a, b) => {
                let a: &BvTerm = a;
                let b: &BvTerm = b;
                BvTerm::Udiv(Box::new(a.clone()), Box::new(b.clone()))
            },
            BvTerm::Sdiv(a, b) => {
                let a: &BvTerm = a;
                let b: &BvTerm = b;
                BvTerm::Sdiv(Box::new(a.clone()), Box::new(b.clone()))
            },
            BvTerm::Urem(a, b) => {
                let a: &BvTerm = a;
                let b: &BvTerm = b;
                BvTerm::Urem(Box::new(a.clone()), Box::new(b.clone()))
            },
            BvTerm::Srem(a, b) => {
                let a: &BvTerm = a;
                let b: &BvTerm = b;
                BvTerm::Srem(Box::new(a.clone()), Box::new(b.clone()))
            },
            BvTerm::Xor(a, b) => {
                let a: &BvTerm = a;
                let b: &BvTerm = b;
                BvTerm::Xor(Box::new(a.clone()), Box::new(b.clone()))
            },
            BvTerm::Sra(a, b) => {
                let a: &BvTerm = a;
                let b: &BvTerm = b;
                BvTerm::Sra(Box::new(a.clone()), Box::new(b.clone()))
            },
            BvTerm::Ult(a, b) => {
                let a: &BvTerm = a;
                let b: &BvTerm = b;
                BvTerm::Ult(Box::new(a.clone()), Box::new(b.clone()))
            },
            BvTerm::Ule(a, b) => {
                let a: &BvTerm = a;
                let b: &BvTerm = b;
                BvTerm::Ule(Box::new(a.clone()), Box::new(b.clone()))
            },
            BvTerm::Slt(a, b) => {
                let a: &BvTerm = a;
                let b: &BvTerm = b;
                BvTerm::Slt(Box::new(a.clone()), Box::new(b.clone()))
            },
            BvTerm::Sle(a, b) => {
                let a: &BvTerm = a;
                let b: &BvTerm = b;
                BvTerm::Sle(Box::new(a.clone()), Box::new(b.clone()))
            },
            BvTerm::Sext(a, k) => {
                let a: &BvTerm = a;
                BvTerm::Sext(Box::new(a.clone()), *k)
            },
            BvTerm::Uaddo(a, b) => {
                let a: &BvTerm = a;
                let b: &BvTerm = b;
                BvTerm::Uaddo(Box::new(a.clone()), Box::new(b.clone()))
            },
            BvTerm::Saddo(a, b) => {
                let a: &BvTerm = a;
                let b: &BvTerm = b;
                BvTerm::Saddo(Box::new(a.clone()), Box::new(b.clone()))
            },
            BvTerm::Usubo(a, b) => {
                let a: &BvTerm = a;
                let b: &BvTerm = b;
                BvTerm::Usubo(Box::new(a.clone()), Box::new(b.clone()))
            },
            BvTerm::Ssubo(a, b) => {
                let a: &BvTerm = a;
                let b: &BvTerm = b;
                BvTerm::Ssubo(Box::new(a.clone()), Box::new(b.clone()))
            },
            BvTerm::Umulo(a, b) => {
                let a: &BvTerm = a;
                let b: &BvTerm = b;
                BvTerm::Umulo(Box::new(a.clone()), Box::new(b.clone()))
            },
            BvTerm::Smulo(a, b) => {
                let a: &BvTerm = a;
                let b: &BvTerm = b;
                BvTerm::Smulo(Box::new(a.clone()), Box::new(b.clone()))
            },
            BvTerm::Neg(a) => {
                let a: &BvTerm = a;
                BvTerm::Neg(Box::new(a.clone()))
            },
        }
    }
}

impl BvTerm {
    /// The width of the term, in bits.
    pub fn get_width(&self) -> (r: u32)
        requires
            wf(*self),
        ensures
            r == width(*self),
        decreases self,
    {
        match self {
            BvTerm::Const(_, w) => *w,
            BvTerm::Zero(w) => *w,
            BvTerm::Ones(w) => *w,
            BvTerm::Var(_, w) => *w,
            BvTerm::Slice(_, hi, lo) => *hi - *lo + 1,
            BvTerm::Uext(a, k) => {
                let a: &BvTerm = a;
                a.get_width() + *k
            },
            BvTerm::Concat(a, b) => {
                let a: &BvTerm = a;
                let b: &BvTerm = b;
                a.get_width() + b.get_width()
            },
            BvTerm::Add(a, _) => {
                let a: &BvTerm = a;
                a.get_width()
            },
            BvTerm::Sll(a, _) => {
                let a: &BvTerm = a;
                a.get_width()
            },
            BvTerm::Srl(a, _) => {
                let a: &BvTerm = a;
                a.get_width()
            },
            BvTerm::And(a, _) => {
                let a: &BvTerm = a;
                a.get_width()
            },
            BvTerm::Or(a, _) => {
                let a: &BvTerm = a;
                a.get_width()
            },
            BvTerm::Not(a) => {
                let a: &BvTerm = a;
                a.get_width()
            },
            BvTerm::Read(arr, _) => {
                let arr: &ArrayTerm = arr;
                arr.get_element_width()
            },
            BvTerm::Eq(_, _) => 1,
            BvTerm::Ite(_, a, _) => {
                let a: &BvTerm = a;
                a.get_width()
            },
            BvTerm::Sub(a, _) => {
                let a: &BvTerm = a;
                a.get_width()
            },
            BvTerm::Mul(a, _) => {
                let a: &BvTerm = a;
                a.get_width()
            },
            BvTerm::Udiv(a, _) => {
                let a: &BvTerm = a;
                a.get_width()
            },
            BvTerm::Sdiv(a, _) => {
                let a: &BvTerm = a;
                a.get_width()
            },
            BvTerm::Urem(a, _) => {
                let a: &BvTerm = a;
                a.get_width()
            },
            BvTerm::Srem(a, _) => {
                let a: &BvTerm = a;
                a.get_width()
            },
            BvTerm::Xor(a, _) => {
                let a: &BvTerm = a;
                a.get_width()
            },
            BvTerm::Sra(a, _) => {
                let a: &BvTerm = a;
                a.get_width()
            },
            BvTerm::Sext(a, k) => {
                let a: &BvTerm = a;
                a.get_width() + *k
            },
            BvTerm::Ult(_, _) => 1,
            BvTerm::Ule(_, _) => 1,
            BvTerm::Slt(_, _) => 1,
            BvTerm::Sle(_, _) => 1,
            BvTerm::Neg(a) => {
                let a: &BvTerm = a;
                a.get_width()
            },
            BvTerm::Uaddo(_, _) => 1,
            BvTerm::Saddo(_, _) => 1,
            BvTerm::Usubo(_, _) => 1,
            BvTerm::Ssubo(_, _) => 1,
            BvTerm::Umulo(_, _) => 1,
            BvTerm::Smulo(_, _) => 1,
        }
    }

    /// The constant value of the term, if the term is a constant of at most
    /// 64 bits.
    pub fn as_u64(&self) -> (r: Option<u64>)
        requires
            wf(*self),
        ensures
            r == const_u64(*self),
            r matches Some(v) ==> width(*self) <= 64 && forall|env: Env| #[trigger] value(eval(*self, env)) == v,
    {
        match self {
            BvTerm::Const(v, w) => {
                let w64: u64 = *w as u64;
                if w64 <= 64 && (w64 == 64 || *v >> w64 == 0) {
                    proof {
                        lemma_const_value(*v, *w);
                    }
                    Some(*v)
                } else {
                    None
                }
            },
            _ => None,
        }
    }
}

impl ArrayTerm {
    /// The width of the array's elements, in bits.
    pub fn get_element_width(&self) -> (r: u32)
        requires
            wf_array(*self),
        ensures
            r == element_width(*self),
        decreases self,
    {
        match self {
            ArrayTerm::Fresh(_, _, e) => *e,
            ArrayTerm::Filled(_, v) => {
                let v: &BvTerm = v;
                v.get_width()
            },
            ArrayTerm::Write(a, _, _) => {
                let a: &ArrayTerm = a;
                a.get_element_width()
            },
        }
    }

    /// The width of the array's indices, in bits.
    pub fn get_index_width(&self) -> (r: u32)
        requires
            wf_array(*self),
        ensures
            r == index_width(*self),
        decreases self,
    {
        match self {
            ArrayTerm::Fresh(_, i, _) => *i,
            ArrayTerm::Filled(i, _) => *i,
            ArrayTerm::Write(a, _, _) => {
                let a: &ArrayTerm = a;
                a.get_index_width()
            },
        }
    }
}

/// The number the low `w` bits of `x` denote is `x` modulo two to the `w`.
pub proof fn lemma_value_bits_of(x: nat, w: nat)
    ensures
        value(bits_of(x, w)) == x % pow2(w),
    decreases w,
{
    if w == 0 {
        lemma2_to64();
        assert(bits_of(x, 0).len() == 0);
    } else {
        let s = bits_of(x, w);
        let rest = s.subrange(1, w as int);
        assert(rest =~= bits_of(x / 2, (w - 1) as nat)) by {
            assert forall|k: int| 0 <= k < w - 1 implies #[trigger] rest[k] == bits_of(x / 2, (w - 1) as nat)[k] by {
                lemma_pow2_unfold((k + 1) as nat);
                lemma_pow2_pos(k as nat);
                lemma_div_denominator(x as int, 2, pow2(k as nat) as int);
            }
        }
        lemma_value_bits_of(x / 2, (w - 1) as nat);
        lemma_pow2_unfold(w);
        lemma2_to64();
        assert(pow2(0) == 1);
        assert(x / pow2(0) == x);
        assert(s[0] == ((x / pow2(0)) % 2 == 1));
        assert(s[0] == (x % 2 == 1));
        lemma_pow2_pos((w - 1) as nat);
        lemma_mod_breakdown(x as int, 2, pow2((w - 1) as nat) as int);
    }
}

proof fn lemma_const_value(v: u64, w: u32)
    requires
        w <= 64,
        w == 64 || v >> (w as u64) == 0,
    ensures
        value(bits_of(v as nat, w as nat)) == v,
{
    lemma_value_bits_of(v as nat, w as nat);
    lemma_pow2_pos(w as nat);
    if w == 64 {
        lemma2_to64();
    } else {
        lemma_u64_shr_is_div(v, w as u64);
        assert(v < pow2(w as nat)) by {
            let p = pow2(w as nat) as int;
            assert(v as int / p == 0);
            lemma_fundamental_div_mod(v as int, p);
            vstd::arithmetic::div_mod::lemma_mod_bound(v as int, p);
            assert(p * (v as int / p) == 0);
        }
    }
    lemma_small_mod(v as nat, pow2(w as nat));
}

/// The array a shared array term points to.
pub open spec fn array_of(r: Rc<ArrayTerm>) -> ArrayTerm {
    *r
}

/// The value of a well-formed term has as many bits as its width.
pub proof fn lemma_eval_len(t: BvTerm, env: Env)
    requires
        wf(t),
    ensures
        eval(t, env).len() == width(t),
    decreases t,
{
    match t {
        BvTerm::Slice(a, _, _) => lemma_eval_len(*a, env),
        BvTerm::Uext(a, _) => lemma_eval_len(*a, env),
        BvTerm::Concat(a, b) => {
            lemma_eval_len(*a, env);
            lemma_eval_len(*b, env);
        },
        BvTerm::Add(a, _) => lemma_eval_len(*a, env),
        BvTerm::Sll(a, _) => lemma_eval_len(*a, env),
        BvTerm::Srl(a, _) => lemma_eval_len(*a, env),
        BvTerm::And(a, _) => lemma_eval_len(*a, env),
        BvTerm::Or(a, _) => lemma_eval_len(*a, env),
        BvTerm::Not(a) => lemma_eval_len(*a, env),
        BvTerm::Read(arr, i) => lemma_read_array_len(array_of(arr), env, eval(*i, env)),
        BvTerm::Ite(c, a, b) => {
            lemma_eval_len(*a, env);
            lemma_eval_len(*b, env);
        },
        BvTerm::Urem(a, _) => lemma_eval_len(*a, env),
        BvTerm::Xor(a, _) => lemma_eval_len(*a, env),
        BvTerm::Sra(a, _) => lemma_eval_len(*a, env),
        BvTerm::Sext(a, _) => lemma_eval_len(*a, env),
        _ => {},
    }
}

/// Every element of a well-formed array term has its element width.
pub proof fn lemma_read_array_len(a: ArrayTerm, env: Env, j: Seq<bool>)
    requires
        wf_array(a),
    ensures
        read_array(a, env, j).len() == element_width(a),
    decreases a,
{
    match a {
        ArrayTerm::Fresh(_, _, _) => {},
        ArrayTerm::Filled(_, v) => lemma_eval_len(*v, env),
        ArrayTerm::Write(arr, i, v) => {
            lemma_eval_len(*v, env);
            lemma_read_array_len(array_of(arr), env, j);
        },
    }
}

/// Reading the bits of `s` as a number and writing that number back in as
/// many bits gives `s`.
pub proof fn lemma_bits_of_value(s: Seq<bool>)
    ensures
        bits_of(value(s), s.len()) == s,
    decreases s.len(),
{
    if s.len() > 0 {
        let rest = s.subrange(1, s.len() as int);
        lemma_bits_of_value(rest);
        let v = value(s);
        let b: nat = if s[0] { 1 } else { 0 };
        assert(v == b + 2 * value(rest));
        assert forall|k: int| 0 <= k < s.len() implies #[trigger] bits_of(v, s.len())[k] == s[k] by {
            lemma2_to64();
            if k == 0 {
                assert(v / pow2(0) == v);
            } else {
                lemma_pow2_unfold(k as nat);
                lemma_pow2_pos((k - 1) as nat);
                lemma_div_denominator(v as int, 2, pow2((k - 1) as nat) as int);
                assert(v / 2 == value(rest));
                assert(bits_of(value(rest), rest.len())[k - 1] == rest[k - 1]);
            }
        }
        assert(bits_of(v, s.len()) =~= s);
    }
}

/// Two bit strings of the same width are equal only if the numbers they are
/// made from agree modulo two to the width.
pub proof fn lemma_bits_of_eq(x: nat, y: nat, w: nat)
    requires
        bits_of(x, w) == bits_of(y, w),
    ensures
        x % pow2(w) == y % pow2(w),
{
    lemma_value_bits_of(x, w);
    lemma_value_bits_of(y, w);
}

/// The number `s` denotes is below two to its length.
pub proof fn lemma_value_bound(s: Seq<bool>)
    ensures
        value(s) < pow2(s.len()),
    decreases s.len(),
{
    lemma2_to64();
    if s.len() > 0 {
        lemma_value_bound(s.subrange(1, s.len() as int));
        lemma_pow2_unfold(s.len());
    }
}

/// Zeros on top do not change the number bits denote.
pub proof fn lemma_value_append_zeros(s: Seq<bool>, k: nat)
    ensures
        value(s + zeros(k)) == value(s),
    decreases s.len() + k,
{
    let t = s + zeros(k);
    if s.len() == 0 {
        assert(t =~= zeros(k));
        lemma_value_zeros(k);
    } else {
        assert(t.subrange(1, t.len() as int) =~= s.subrange(1, s.len() as int) + zeros(k));
        lemma_value_append_zeros(s.subrange(1, s.len() as int), k);
    }
}

/// Zeros denote zero.
pub proof fn lemma_value_zeros(k: nat)
    ensures
        value(zeros(k)) == 0,
    decreases k,
{
    if k > 0 {
        assert(zeros(k).subrange(1, k as int) =~= zeros((k - 1) as nat));
        lemma_value_zeros((k - 1) as nat);
    }
}

/// A zero bit below `t` doubles the number it denotes.
pub proof fn lemma_value_prepend_zero(t: Seq<bool>)
    ensures
        value(seq![false] + t) == 2 * value(t),
{
    let s = seq![false] + t;
    assert(s.subrange(1, s.len() as int) =~= t);
}

/// The bits of `s` from position `j` on denote the number `s` denotes,
/// divided by two to the `j`.
pub proof fn lemma_value_high(s: Seq<bool>, j: nat)
    requires
        j <= s.len(),
    ensures
        value(s.subrange(j as int, s.len() as int)) == value(s) / pow2(j),
    decreases j,
{
    lemma2_to64();
    if j == 0 {
        assert(s.subrange(0, s.len() as int) =~= s);
    } else {
        lemma_value_high(s, (j - 1) as nat);
        let t = s.subrange(j - 1, s.len() as int);
        assert(t.subrange(1, t.len() as int) =~= s.subrange(j as int, s.len() as int));
        assert(value(t) == (if t[0] { 1nat } else { 0nat }) + 2 * value(t.subrange(1, t.len() as int)));
        assert(value(t.subrange(1, t.len() as int)) == value(t) / 2);
        lemma_pow2_unfold(j);
        lemma_pow2_pos((j - 1) as nat);
        lemma_div_denominator(value(s) as int, pow2((j - 1) as nat) as int, 2);
        assert(pow2((j - 1) as nat) * 2 == pow2(j));
    }
}

/// Numbers equal modulo two to the `w` have the same `w` bits.
pub proof fn lemma_bits_of_mod(a: nat, b: nat, w: nat)
    requires
        a % pow2(w) == b % pow2(w),
    ensures
        bits_of(a, w) == bits_of(b, w),
{
    lemma_value_bits_of(a, w);
    lemma_value_bits_of(b, w);
    lemma_bits_of_value(bits_of(a, w));
    lemma_bits_of_value(bits_of(b, w));
}

} // verus!
