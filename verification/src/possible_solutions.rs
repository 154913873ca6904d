//! Possible solutions of a bitvector, capped at some number `n`.

use vstd::prelude::*;

use crate::bv_solution::{valid_assignment, BvSolution};
use crate::solver_utils::{distinct_u64s, values_of};

verus! {

/// The possible solutions of a bitvector, when there are at most `n` of them.
///
/// The set of solutions is held as a vector in which no solution occurs twice
/// (see `wf`).
#[derive(Clone, Debug)]
pub enum PossibleSolutions<V> {
    /// This is exactly the set of possible solutions; there are no others.
    /// Note that an empty set here indicates there are no possible solutions.
    PossibleSolutions(Vec<V>),
    /// There are more than `n` possible solutions, where `n` is the value
    /// contained here.
    MoreThanNPossibleSolutions(usize),
}

impl<V> PossibleSolutions<V> {
    /// No solution is held twice.
    pub open spec fn wf(&self) -> bool {
        self matches PossibleSolutions::PossibleSolutions(v) ==> v@.no_duplicates()
    }
}

impl PossibleSolutions<BvSolution> {
    /// Convert a `PossibleSolutions` over `BvSolution` into a
    /// `PossibleSolutions` over `u64`, by applying `as_u64()` to each
    /// `BvSolution`.
    /// If `as_u64()` fails for any individual solution, this returns `None`.
    pub fn as_u64_solutions(&self) -> (r: Option<PossibleSolutions<u64>>)
        requires
            self matches PossibleSolutions::PossibleSolutions(v) ==> forall|i: int|
                0 <= i < v@.len() ==> valid_assignment(#[trigger] v@[i]@),
        ensures
            match self {
                PossibleSolutions::PossibleSolutions(v) => {
                    &&& r is Some <==> forall|i: int| 0 <= i < v@.len() ==> (#[trigger] v@[i]@).len() <= 64
                    &&& r matches Some(ps) ==> (ps.wf() && (ps matches PossibleSolutions::PossibleSolutions(u)
                        && u@.to_set().map(|x: u64| x as nat) == values_of(v@)))
                },
                PossibleSolutions::MoreThanNPossibleSolutions(n) => r == Some(
                    PossibleSolutions::<u64>::MoreThanNPossibleSolutions(*n),
                ),
            },
    {
        match self {
            PossibleSolutions::PossibleSolutions(v) => match distinct_u64s(v) {
                Some(out) => Some(PossibleSolutions::PossibleSolutions(out)),
                None => None,
            },
            PossibleSolutions::MoreThanNPossibleSolutions(n) => Some(
                PossibleSolutions::MoreThanNPossibleSolutions(*n),
            ),
        }
    }
}

} // verus!
