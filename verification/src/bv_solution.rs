//! A model of one bitvector assignment, as the solver reports it: a string of
//! `0`, `1` and `x` characters, most significant bit first, where `x` marks a
//! bit that can be chosen freely.

use vstd::arithmetic::div_mod::lemma_basic_div;
use vstd::bits::lemma_u64_shr_is_div;
use vstd::arithmetic::power2::{lemma2_to64, lemma_pow2_strictly_increases, lemma_pow2_unfold, pow2};
use vstd::prelude::*;

verus! {

/// A character that may appear in an assignment.
pub open spec fn is_01x(c: char) -> bool {
    c == '0' || c == '1' || c == 'x'
}

/// An assignment that the solver can report: nonempty, and made of `0`, `1`
/// and `x` only.
pub open spec fn valid_assignment(s: Seq<char>) -> bool {
    s.len() > 0 && forall|i: int| 0 <= i < s.len() ==> is_01x(#[trigger] s[i])
}

/// The value of an assignment read as a binary number, with each `x` read as
/// `0`.
pub open spec fn binary_value(s: Seq<char>) -> nat
    decreases s.len(),
{
    if s.len() == 0 {
        0
    } else {
        2 * binary_value(s.drop_last()) + (if s.last() == '1' {
            1nat
        } else {
            0nat
        })
    }
}

/// The assignment with each `x` replaced by `0`.
pub open spec fn disambiguated(s: Seq<char>) -> Seq<char> {
    s.map_values(|c: char| if c == 'x' { '0' } else { c })
}

/// One possible solution of a bitvector, in the solver's `01x` format.
#[derive(Clone, Debug)]
pub struct BvSolution {
    assignment: Vec<char>,
}

impl View for BvSolution {
    type V = Seq<char>;

    open spec fn view(&self) -> Seq<char> {
        self.assignment_chars()
    }
}

impl BvSolution {
    /// The characters of the assignment.
    pub closed spec fn assignment_chars(&self) -> Seq<char> {
        self.assignment@
    }

    /// Turn a sequence of `0`, `1`, and/or `x` characters into a `BvSolution`.
    pub fn from_01x_chars(s: Vec<char>) -> (r: Self)
        ensures
            r@ == s@,
    {
        BvSolution { assignment: s }
    }

    /// The assignment's characters, most significant bit first.
    pub fn as_01x_chars(&self) -> (r: &Vec<char>)
        ensures
            r@ == self@,
    {
        &self.assignment
    }

    /// The width of the assignment, in bits.
    pub fn width(&self) -> (r: usize)
        ensures
            r == self@.len(),
    {
        self.assignment.len()
    }

    /// Whether the two solutions are the same assignment.
    pub fn same_as(&self, other: &Self) -> (r: bool)
        ensures
            r == (self@ == other@),
    {
        if self.assignment.len() != other.assignment.len() {
            return false;
        }
        let mut i: usize = 0;
        while i < self.assignment.len()
            invariant
                i <= self@.len(),
                self@.len() == other@.len(),
                forall|j: int| 0 <= j < i ==> self@[j] == other@[j],
            decreases self@.len() - i,
        {
            if self.assignment[i] != other.assignment[i] {
                return false;
            }
            i = i + 1;
        }
        assert(self@ =~= other@);
        true
    }

    /// Get a version of this `BvSolution` that corresponds to exactly one
    /// possible value: each `x` becomes `0`.
    pub fn disambiguate(&self) -> (r: Self)
        ensures
            r@ == disambiguated(self@),
    {
        let mut out: Vec<char> = Vec::new();
        let mut i: usize = 0;
        while i < self.assignment.len()
            invariant
                i <= self@.len(),
                out@ == disambiguated(self@.subrange(0, i as int)),
            decreases self@.len() - i,
        {
            let c = self.assignment[i];
            out.push(if c == 'x' { '0' } else { c });
            i = i + 1;
            assert(out@ =~= disambiguated(self@.subrange(0, i as int)));
        }
        assert(self@.subrange(0, i as int) =~= self@);
        BvSolution { assignment: out }
    }

    /// Get a `u64` value for the `BvSolution`, reading each `x` as `0`.
    ///
    /// Returns `None` if the value does not fit in 64 bits.
    pub fn as_u64(&self) -> (r: Option<u64>)
        requires
            valid_assignment(self@),
        ensures
            r == (if self@.len() > 64 {
                None
            } else {
                Some(binary_value(self@) as u64)
            }),
            r is Some ==> r->0 == binary_value(self@),
    {
        if self.assignment.len() > 64 {
            return None;
        }
        let mut value: u64 = 0;
        let mut i: usize = 0;
        proof {
            lemma2_to64();
            assert(self@.subrange(0, 0) =~= Seq::<char>::empty());
        }
        while i < self.assignment.len()
            invariant
                i <= self@.len() <= 64,
                value == binary_value(self@.subrange(0, i as int)),
                binary_value(self@.subrange(0, i as int)) < pow2(i as nat),
            decreases self@.len() - i,
        {
            let ghost prefix = self@.subrange(0, i as int);
            let ghost next = self@.subrange(0, i as int + 1);
            assert(next.drop_last() =~= prefix);
            proof {
                lemma_pow2_bound(i as nat);
            }
            let bit: u64 = if self.assignment[i] == '1' { 1 } else { 0 };
            value = 2 * value + bit;
            i = i + 1;
        }
        assert(self@.subrange(0, i as int) =~= self@);
        Some(value)
    }
}

/// The `w`-character binary representation of `k`, most significant bit
/// first (the low `w` bits of `k`).
pub open spec fn bin_string(k: nat, w: nat) -> Seq<char> {
    Seq::new(w, |i: int| if (k / pow2((w - 1 - i) as nat)) % 2 == 1 { '1' } else { '0' })
}

/// `w` ones.
pub open spec fn ones_string(w: nat) -> Seq<char> {
    Seq::new(w, |i: int| '1')
}

proof fn lemma_bit_of(k: u64, pos: u32)
    ensures
        (pos < 64 && (k >> (pos as u64)) & 1 == 1) == ((k as nat / pow2(pos as nat)) % 2 == 1),
{
    if pos < 64 {
        lemma_u64_shr_is_div(k, pos as u64);
        let sh = k >> (pos as u64);
        assert(sh & 1 == sh % 2) by (bit_vector);
    } else {
        lemma2_to64();
        if pos > 64 {
            lemma_pow2_strictly_increases(64, pos as nat);
        }
        assert(k as nat / pow2(pos as nat) == 0) by {
            lemma_basic_div(k as int, pow2(pos as nat) as int);
        }
    }
}

impl BvSolution {
    /// The solution whose bits are the low `width` bits of `k`.
    pub fn binary_of(k: u64, width: u32) -> (r: Self)
        ensures
            r@ == bin_string(k as nat, width as nat),
    {
        let mut out: Vec<char> = Vec::new();
        let mut i: u32 = 0;
        while i < width
            invariant
                i <= width,
                out@ == bin_string(k as nat, width as nat).subrange(0, i as int),
            decreases width - i,
        {
            let pos: u32 = width - 1 - i;
            proof {
                lemma_bit_of(k, pos);
            }
            let c = if pos < 64 && (k >> (pos as u64)) & 1 == 1 { '1' } else { '0' };
            out.push(c);
            i = i + 1;
            assert(out@ =~= bin_string(k as nat, width as nat).subrange(0, i as int));
        }
        assert(bin_string(k as nat, width as nat).subrange(0, width as int) =~= bin_string(k as nat, width as nat));
        BvSolution { assignment: out }
    }

    /// The solution of `width` ones.
    pub fn ones(width: u32) -> (r: Self)
        ensures
            r@ == ones_string(width as nat),
    {
        let mut out: Vec<char> = Vec::new();
        let mut i: u32 = 0;
        while i < width
            invariant
                i <= width,
                out@ == ones_string(i as nat),
            decreases width - i,
        {
            out.push('1');
            i = i + 1;
            assert(out@ =~= ones_string(i as nat));
        }
        BvSolution { assignment: out }
    }
}

proof fn lemma_pow2_bound(n: nat)
    requires
        n < 64,
    ensures
        pow2(n + 1) == 2 * pow2(n),
        pow2(n + 1) <= pow2(64),
        pow2(64) == 0x1_0000_0000_0000_0000,
{
    lemma_pow2_unfold(n + 1);
    if n + 1 < 64 {
        lemma_pow2_strictly_increases(n + 1, 64);
    }
    lemma2_to64();
}

} // verus!
