//! Collecting the distinct ways in which a function can end, as the paths
//! through it are explored one after the other.

use vstd::prelude::*;

use crate::layout::LlvmType;
use crate::return_value::ReturnValue;
use crate::solution_value::SolutionValue;
use crate::solver_utils::PossibleSolutions;

verus! {

/// `Return(x)` (or `Throw(x)` if `thrown`) for each `x` of `v`.
pub open spec fn tagged(v: Seq<u64>, thrown: bool) -> Seq<ReturnValue<u64>> {
    Seq::new(v.len(), |i: int| if thrown { ReturnValue::Throw(v[i]) } else { ReturnValue::Return(v[i]) })
}

/// Whether two return values are the same.
pub fn same_return_value(a: &ReturnValue<u64>, b: &ReturnValue<u64>) -> (r: bool)
    ensures
        r == (*a == *b),
{
    match (a, b) {
        (ReturnValue::Return(x), ReturnValue::Return(y)) => *x == *y,
        (ReturnValue::ReturnVoid, ReturnValue::ReturnVoid) => true,
        (ReturnValue::Throw(x), ReturnValue::Throw(y)) => *x == *y,
        (ReturnValue::Abort, ReturnValue::Abort) => true,
        _ => false,
    }
}

/// The candidate return values found so far, each once, and the limit `n`
/// past which the search stops.
pub struct ReturnValueCollector {
    candidates: Vec<ReturnValue<u64>>,
    have_throw: bool,
    n: usize,
}

impl ReturnValueCollector {
    /// The candidates found so far, in the order found.
    pub closed spec fn candidates(&self) -> Seq<ReturnValue<u64>> {
        self.candidates@
    }

    /// Whether some candidate is a `Throw`.
    pub closed spec fn have_throw(&self) -> bool {
        self.have_throw
    }

    /// The limit past which the search stops.
    pub closed spec fn limit(&self) -> nat {
        self.n as nat
    }

    /// No candidate occurs twice.
    pub open spec fn wf(&self) -> bool {
        self.candidates().no_duplicates()
    }

    /// More than `limit` candidates have been found: the search can stop.
    pub open spec fn is_full(&self) -> bool {
        self.candidates().len() > self.limit()
    }

    /// A collector with no candidates yet.
    pub fn new(n: usize) -> (r: Self)
        ensures
            r.wf(),
            r.candidates() == Seq::<ReturnValue<u64>>::empty(),
            !r.have_throw(),
            r.limit() == n,
    {
        ReturnValueCollector { candidates: Vec::new(), have_throw: false, n }
    }

    /// Adds `v` unless it is already a candidate; returns whether the search
    /// can stop.
    fn insert(&mut self, v: ReturnValue<u64>) -> (full: bool)
        requires
            old(self).wf(),
        ensures
            final(self).wf(),
            final(self).candidates().to_set() == old(self).candidates().to_set().insert(v),
            old(self).candidates().contains(v) ==> final(self).candidates() == old(self).candidates(),
            !old(self).candidates().contains(v) ==> final(self).candidates() == old(self).candidates().push(v),
            final(self).have_throw() == old(self).have_throw(),
            final(self).limit() == old(self).limit(),
            full == final(self).is_full(),
    {
        let mut i: usize = 0;
        while i < self.candidates.len()
            invariant
                i <= self.candidates@.len(),
                old(self).wf(),
                *self == *old(self),
                forall|j: int| 0 <= j < i ==> self.candidates@[j] != v,
            decreases self.candidates@.len() - i,
        {
            if same_return_value(&self.candidates[i], &v) {
                assert(self.candidates@.contains(v));
                assert(self.candidates@.to_set() =~= self.candidates@.to_set().insert(v));
                return self.candidates.len() > self.n;
            }
            i = i + 1;
        }
        let ghost before = self.candidates@;
        self.candidates.push(v);
        proof {
            before.lemma_push_to_set_commute(v);
        }
        self.candidates.len() > self.n
    }

    /// A path returned void. Returns whether the search can stop.
    pub fn record_void(&mut self) -> (full: bool)
        requires
            old(self).wf(),
        ensures
            final(self).wf(),
            final(self).candidates().to_set() == old(self).candidates().to_set().insert(ReturnValue::ReturnVoid),
            final(self).have_throw() == old(self).have_throw(),
            final(self).limit() == old(self).limit(),
            full == final(self).is_full(),
    {
        self.insert(ReturnValue::ReturnVoid)
    }

    /// A path aborted. Returns whether the search can stop.
    pub fn record_abort(&mut self) -> (full: bool)
        requires
            old(self).wf(),
        ensures
            final(self).wf(),
            final(self).candidates().to_set() == old(self).candidates().to_set().insert(ReturnValue::Abort),
            final(self).have_throw() == old(self).have_throw(),
            final(self).limit() == old(self).limit(),
            full == final(self).is_full(),
    {
        self.insert(ReturnValue::Abort)
    }

    /// The values returned by the candidates found so far: a new path's
    /// return value is constrained to differ from all of them.
    pub fn returned_values(&self) -> (r: Vec<u64>)
        ensures
            forall|x: u64| r@.contains(x) <==> self.candidates().contains(ReturnValue::Return(x)),
    {
        let mut r: Vec<u64> = Vec::new();
        let mut i: usize = 0;
        while i < self.candidates.len()
            invariant
                i <= self.candidates@.len(),
                forall|x: u64| r@.contains(x) <==> exists|j: int| 0 <= j < i && self.candidates@[j] == ReturnValue::<u64>::Return(x),
            decreases self.candidates@.len() - i,
        {
            match self.candidates[i] {
                ReturnValue::Return(x) => {
                    let ghost before = r@;
                    r.push(x);
                    assert forall|y: u64| r@.contains(y) <==> exists|j: int| 0 <= j < i + 1 && self.candidates@[j] == ReturnValue::<u64>::Return(y) by {
                        if r@.contains(y) && y != x {
                            let k = choose|k: int| 0 <= k < r@.len() && r@[k] == y;
                            assert(before.contains(y)) by {
                                assert(before[k] == y);
                            }
                        }
                        if exists|j: int| 0 <= j < i + 1 && self.candidates@[j] == ReturnValue::<u64>::Return(y) {
                            if y != x {
                                let j = choose|j: int| 0 <= j < i + 1 && self.candidates@[j] == ReturnValue::<u64>::Return(y);
                                assert(j < i);
                                assert(before.contains(y));
                                let k = choose|k: int| 0 <= k < before.len() && before[k] == y;
                                assert(r@[k] == y);
                            } else {
                                assert(r@[before.len() as int] == x);
                            }
                        }
                    }
                },
                _ => {},
            }
            i = i + 1;
        }
        r
    }

    /// The possible values of a path's return value, other than those
    /// already found: adds them. Returns whether the search can stop, which
    /// it always can after `AtLeast` (there are then more than `n`).
    pub fn record_returns(&mut self, ps: &PossibleSolutions<u64>) -> (full: bool)
        requires
            old(self).wf(),
        ensures
            final(self).wf(),
            final(self).candidates().to_set() == old(self).candidates().to_set().union(
                tagged(ps.items(), false).to_set(),
            ),
            final(self).have_throw() == old(self).have_throw(),
            final(self).limit() == old(self).limit(),
            full == (final(self).is_full() || ps is AtLeast),
    {
        let (v, at_least) = match ps {
            PossibleSolutions::Exactly(v) => (v, false),
            PossibleSolutions::AtLeast(v) => (v, true),
        };
        assert(v@ == ps.items());
        self.extend_with(v, false);
        at_least || self.candidates.len() > self.n
    }

    /// Adds `Return(x)` (or `Throw(x)` if `thrown`) for each `x` of `v`.
    fn extend_with(&mut self, v: &Vec<u64>, thrown: bool)
        requires
            old(self).wf(),
        ensures
            final(self).wf(),
            final(self).candidates().to_set() == old(self).candidates().to_set().union(
                tagged(v@, thrown).to_set(),
            ),
            final(self).have_throw() == old(self).have_throw(),
            final(self).limit() == old(self).limit(),
    {
        let mut i: usize = 0;
        while i < v.len()
            invariant
                i <= v@.len(),
                self.wf(),
                self.have_throw() == old(self).have_throw(),
                self.limit() == old(self).limit(),
                self.candidates().to_set() == old(self).candidates().to_set().union(tagged(v@.subrange(0, i as int), thrown).to_set()),
            decreases v@.len() - i,
        {
            let rv = if thrown { ReturnValue::Throw(v[i]) } else { ReturnValue::Return(v[i]) };
            self.insert(rv);
            proof {
                assert(tagged(v@.subrange(0, i as int + 1), thrown) =~= tagged(v@.subrange(0, i as int), thrown).push(rv));
                tagged(v@.subrange(0, i as int), thrown).lemma_push_to_set_commute(rv);
                assert(self.candidates().to_set() =~= old(self).candidates().to_set().union(tagged(v@.subrange(0, i as int + 1), thrown).to_set()));
            }
            i = i + 1;
        }
        assert(v@.subrange(0, i as int) =~= v@);
    }

    /// A path threw, and thrown values are not told apart: the first throw
    /// found is kept, with the pointer it threw. Returns whether the search
    /// can stop.
    pub fn record_throw_pointer(&mut self, ptr: u64) -> (full: bool)
        requires
            old(self).wf(),
        ensures
            final(self).wf(),
            final(self).candidates().to_set() == (if old(self).have_throw() {
                old(self).candidates().to_set()
            } else {
                old(self).candidates().to_set().insert(ReturnValue::Throw(ptr))
            }),
            final(self).have_throw(),
            final(self).limit() == old(self).limit(),
            full == (!old(self).have_throw() && final(self).is_full()),
    {
        if !self.have_throw {
            let full = self.insert(ReturnValue::Throw(ptr));
            self.have_throw = true;
            full
        } else {
            false
        }
    }

    /// The values thrown by the candidates found so far.
    pub fn thrown_values(&self) -> (r: Vec<u64>)
        ensures
            forall|x: u64| r@.contains(x) <==> self.candidates().contains(ReturnValue::Throw(x)),
    {
        let mut r: Vec<u64> = Vec::new();
        let mut i: usize = 0;
        while i < self.candidates.len()
            invariant
                i <= self.candidates@.len(),
                forall|x: u64| r@.contains(x) <==> exists|j: int| 0 <= j < i && self.candidates@[j] == ReturnValue::<u64>::Throw(x),
            decreases self.candidates@.len() - i,
        {
            match self.candidates[i] {
                ReturnValue::Throw(x) => {
                    let ghost before = r@;
                    r.push(x);
                    assert forall|y: u64| r@.contains(y) <==> exists|j: int| 0 <= j < i + 1 && self.candidates@[j] == ReturnValue::<u64>::Throw(y) by {
                        if r@.contains(y) && y != x {
                            let k = choose|k: int| 0 <= k < r@.len() && r@[k] == y;
                            assert(before.contains(y)) by {
                                assert(before[k] == y);
                            }
                        }
                        if exists|j: int| 0 <= j < i + 1 && self.candidates@[j] == ReturnValue::<u64>::Throw(y) {
                            if y != x {
                                let j = choose|j: int| 0 <= j < i + 1 && self.candidates@[j] == ReturnValue::<u64>::Throw(y);
                                assert(j < i);
                                assert(before.contains(y));
                                let k = choose|k: int| 0 <= k < before.len() && before[k] == y;
                                assert(r@[k] == y);
                            } else {
                                assert(r@[before.len() as int] == x);
                            }
                        }
                    }
                },
                _ => {},
            }
            i = i + 1;
        }
        r
    }

    /// The possible values thrown by a path, other than those already
    /// found: adds them. Returns whether the search can stop.
    pub fn record_thrown_values(&mut self, ps: &PossibleSolutions<u64>) -> (full: bool)
        requires
            old(self).wf(),
        ensures
            final(self).wf(),
            final(self).candidates().to_set() == old(self).candidates().to_set().union(
                tagged(ps.items(), true).to_set(),
            ),
            final(self).have_throw() == old(self).have_throw(),
            final(self).limit() == old(self).limit(),
            full == (final(self).is_full() || ps is AtLeast),
    {
        let (v, at_least) = match ps {
            PossibleSolutions::Exactly(v) => (v, false),
            PossibleSolutions::AtLeast(v) => (v, true),
        };
        assert(v@ == ps.items());
        self.extend_with(v, true);
        at_least || self.candidates.len() > self.n
    }

    /// The description of the possible return values: `AtLeast` if more
    /// than `n` were found, else `Exactly`.
    pub fn finish(self) -> (r: PossibleSolutions<ReturnValue<u64>>)
        requires
            self.wf(),
        ensures
            r.wf(),
            r.items() == self.candidates(),
            r is AtLeast <==> self.is_full(),
    {
        if self.candidates.len() > self.n {
            PossibleSolutions::AtLeast(self.candidates)
        } else {
            PossibleSolutions::Exactly(self.candidates)
        }
    }
}

/// The value found for a function parameter of type `ty`, read from the
/// low bits of `value` according to the parameter's type.
pub fn solution_value_for(ty: &LlvmType, value: u64) -> (r: SolutionValue)
    requires
        ty matches LlvmType::IntegerType(bits) && (bits == 8 || bits == 16 || bits == 32 || bits == 64) || ty is PointerType,
    ensures
        r == match *ty {
            LlvmType::IntegerType(8) => SolutionValue::I8(value as i8),
            LlvmType::IntegerType(16) => SolutionValue::I16(value as i16),
            LlvmType::IntegerType(32) => SolutionValue::I32(value as i32),
            LlvmType::IntegerType(_) => SolutionValue::I64(value as i64),
            _ => SolutionValue::Ptr(value),
        },
{
    match ty {
        LlvmType::IntegerType(8) => SolutionValue::I8(value as i8),
        LlvmType::IntegerType(16) => SolutionValue::I16(value as i16),
        LlvmType::IntegerType(32) => SolutionValue::I32(value as i32),
        LlvmType::IntegerType(_) => SolutionValue::I64(value as i64),
        _ => SolutionValue::Ptr(value),
    }
}

} // verus!
