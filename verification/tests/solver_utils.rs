//! Solver-driven searches, with the solver's answers given by the set of
//! values that the constraints of each scenario allow.

use haybale::bv_solution::BvSolution;
use haybale::solver_utils::{
    bvs_can_be_equal, bvs_must_be_equal, check_for_common_solutions, get_possible_solutions_for_bv,
    max_possible_solution_for_bv, min_possible_solution_for_bv, sat, PossibleSolutions, SolutionCount,
    SolverResult,
};
use haybale::{Error, Result};

/// The values a constrained 64-bit `x` can take: the interval `lo..=hi`
/// (empty if `lo > hi`).
#[derive(Clone, Copy)]
struct Range {
    lo: u64,
    hi: u64,
}

impl Range {
    /// The solver's answer to a satisfiability check of the constraints.
    fn answer(&self) -> SolverResult {
        if self.lo <= self.hi {
            SolverResult::Sat
        } else {
            SolverResult::Unsat
        }
    }
    /// The constraints together with a further one, `lo <= x <= hi`.
    fn and(&self, other: Range) -> Range {
        Range { lo: self.lo.max(other.lo), hi: self.hi.min(other.hi) }
    }
    /// Whether the constraints together with `x == c` can be met.
    fn equal_sat(&self, c: u64) -> Result<bool> {
        self.can_be(c)
    }
    /// Whether the constraints together with `x != c` can be met.
    fn differ_sat(&self, c: u64) -> Result<bool> {
        Ok(self.lo <= self.hi && !(self.lo == c && self.hi == c))
    }
    fn sat(&self) -> Result<bool> {
        Ok(self.lo <= self.hi)
    }
    fn can_be(&self, v: u64) -> Result<bool> {
        Ok(self.lo <= v && v <= self.hi)
    }
    fn at_least(&self, m: u64) -> Result<bool> {
        Ok(self.lo <= self.hi && m <= self.hi)
    }
    fn at_most(&self, m: u64) -> Result<bool> {
        Ok(self.lo <= self.hi && self.lo <= m)
    }
    fn min(&self) -> Result<Option<u64>> {
        min_possible_solution_for_bv(64, None, || self.sat(), |v| self.can_be(v), |m| self.at_most(m))
    }
    fn max(&self) -> Result<Option<u64>> {
        max_possible_solution_for_bv(64, None, || self.sat(), |v| self.can_be(v), |m| self.at_least(m))
    }
    fn solutions(&self, n: usize) -> Result<PossibleSolutions<BvSolution>> {
        let r = *self;
        get_possible_solutions_for_bv(
            64,
            n,
            None,
            move || r.sat(),
            move |v: &BvSolution| r.can_be(v.as_u64().unwrap()),
            move |ex: &Vec<BvSolution>| {
                let taken: Vec<u64> = ex.iter().map(|s| s.as_u64().unwrap()).collect();
                let mut x = r.lo;
                while x <= r.hi {
                    if !taken.contains(&x) {
                        return Ok(Some(BvSolution::binary_of(x, 64)));
                    }
                    if x == u64::MAX {
                        break;
                    }
                    x += 1;
                }
                Ok(None)
            },
        )
    }
}

fn sorted_u64s(ps: &PossibleSolutions<u64>) -> Vec<u64> {
    let mut v = match ps {
        PossibleSolutions::Exactly(v) => v.clone(),
        PossibleSolutions::AtLeast(v) => v.clone(),
    };
    v.sort();
    v
}

#[test]
fn solver_utils_possible_solutions() {
    // add x > 3 constraint: check that there are more than 2 solutions
    let x = Range { lo: 4, hi: u64::MAX };
    let num_solutions = x.solutions(2).unwrap().count();
    assert_eq!(num_solutions, SolutionCount::AtLeast(3));

    // add x < 6 constraint: check that there are now exactly two solutions
    let x = Range { lo: 4, hi: 5 };
    let solutions = x.solutions(2).unwrap().as_u64_solutions().unwrap();
    assert!(matches!(solutions, PossibleSolutions::Exactly(_)));
    assert_eq!(sorted_u64s(&solutions), vec![4, 5]);

    // add x < 5 constraint: check that there is now exactly one solution
    let x = Range { lo: 4, hi: 4 };
    let solutions = x.solutions(2).unwrap().as_u64_solutions().unwrap();
    assert!(matches!(solutions, PossibleSolutions::Exactly(_)));
    assert_eq!(sorted_u64s(&solutions), vec![4]);

    // add x < 3 constraint: check that there are now no solutions
    let x = Range { lo: 4, hi: 2 };
    let solutions = x.solutions(2).unwrap().as_u64_solutions().unwrap();
    assert!(matches!(solutions, PossibleSolutions::Exactly(_)));
    assert_eq!(sorted_u64s(&solutions), Vec::<u64>::new());
}

#[test]
fn min_possible_solution() {
    // add x > 3 constraint: min possible solution should be 4
    assert_eq!(Range { lo: 4, hi: u64::MAX }.min(), Ok(Some(4)));
    // add x < 6 constraint: min possible solution should still be 4
    assert_eq!(Range { lo: 4, hi: 5 }.min(), Ok(Some(4)));
    // add x < 3 constraint: min_possible_solution_for_bv should now return None
    assert_eq!(Range { lo: 4, hi: 2 }.min(), Ok(None));
}

#[test]
fn max_possible_solution() {
    // add x < 7 constraint: max possible solution should be 6, min 0
    assert_eq!(Range { lo: 0, hi: 6 }.max(), Ok(Some(6)));
    assert_eq!(Range { lo: 0, hi: 6 }.min(), Ok(Some(0)));
    // add x > 3 constraint: max still 6, min now 4
    assert_eq!(Range { lo: 4, hi: 6 }.max(), Ok(Some(6)));
    assert_eq!(Range { lo: 4, hi: 6 }.min(), Ok(Some(4)));
    // add x > 7 constraint: max_possible_solution_for_bv should now return None
    assert_eq!(Range { lo: 8, hi: 6 }.max(), Ok(None));
}

#[test]
fn min_possible_solution_overflow() {
    // -2 and -1 are the only possible solutions: the min unsigned one is -2
    let x = Range { lo: (-2_i64) as u64, hi: (-1_i64) as u64 };
    assert_eq!(x.min(), Ok(Some((-2_i64) as u64)));
}

#[test]
fn max_possible_solution_overflow() {
    // x <= -2 (signed): -2 is a solution but -1 is not; the max unsigned one is -2
    let x = Range { lo: 0x8000_0000_0000_0000, hi: (-2_i64) as u64 };
    assert_eq!(x.max(), Ok(Some((-2_i64) as u64)));
}

#[test]
fn sat_answers() {
    assert_eq!(sat(SolverResult::Sat), Ok(true));
    assert_eq!(sat(SolverResult::Unsat), Ok(false));
    assert!(matches!(sat(SolverResult::Unknown), Err(Error::SolverError(_))));
}

#[test]
fn max_of_narrow_vector() {
    // an 8-bit value in 3..=200
    let r = max_possible_solution_for_bv(8, None, || Ok(true), |v| Ok(3 <= v && v <= 200), |m| Ok(m <= 200));
    assert_eq!(r, Ok(Some(200)));
    let r = min_possible_solution_for_bv(8, None, || Ok(true), |v| Ok(3 <= v && v <= 200), |m| Ok(3 <= m));
    assert_eq!(r, Ok(Some(3)));
    // a constant answers without a search
    let r = max_possible_solution_for_bv(8, Some(17), || Ok(true), |_| Ok(false), |_| Ok(false));
    assert_eq!(r, Ok(Some(17)));
}

#[test]
fn solver_error_is_passed_on() {
    let failing = || Err(Error::SolverError("timeout".to_owned()));
    let r = max_possible_solution_for_bv(64, None, failing, |_| Ok(true), |_| Ok(true));
    assert_eq!(r, Err(Error::SolverError("timeout".to_owned())));
}

#[test]
fn common_solutions_are_tried_first() {
    // an 8-bit value that can be anything: 0, 1, all ones, 2 are found before the room runs out
    let mut found: Vec<BvSolution> = Vec::new();
    check_for_common_solutions(8, 3, &|_: &BvSolution| Ok(true), &mut found).unwrap();
    let vals: Vec<u64> = found.iter().map(|s| s.as_u64().unwrap()).collect();
    assert_eq!(vals, vec![0, 1, 255, 2]);
    // a 4-bit value that can only be even: 0, 2, 4, 8 (16 does not fit)
    let mut found: Vec<BvSolution> = Vec::new();
    check_for_common_solutions(4, 10, &|s: &BvSolution| Ok(s.as_u64().unwrap() % 2 == 0), &mut found).unwrap();
    let vals: Vec<u64> = found.iter().map(|s| s.as_u64().unwrap()).collect();
    assert_eq!(vals, vec![0, 2, 4, 8]);
}

#[test]
fn constant_has_exactly_one_solution() {
    let c = BvSolution::binary_of(0x2a, 8);
    let ps = get_possible_solutions_for_bv(8, 5, Some(c), || Ok(true), |_: &BvSolution| Ok(false), |_: &Vec<BvSolution>| Ok(None)).unwrap();
    let u = ps.as_u64_solutions().unwrap();
    assert!(matches!(u, PossibleSolutions::Exactly(_)));
    assert_eq!(sorted_u64s(&u), vec![0x2a]);
}

#[test]
fn zero_limit_gives_one_solution() {
    let x = Range { lo: 10, hi: 20 };
    let ps = x.solutions(0).unwrap();
    assert_eq!(ps.count(), SolutionCount::AtLeast(1));
    let ps = Range { lo: 10, hi: 2 }.solutions(0).unwrap();
    assert_eq!(ps.count(), SolutionCount::Exactly(0));
}

const ANY: Range = Range { lo: 0, hi: u64::MAX };
const NONE: Range = Range { lo: 1, hi: 0 };

#[test]
fn basic_sat() {
    // fresh solver should be sat
    assert_eq!(sat(ANY.answer()), Ok(true));
    // adding True constraint should still be sat
    assert_eq!(sat(ANY.and(ANY).answer()), Ok(true));
    // adding x > 0 constraint should still be sat
    let x = ANY.and(Range { lo: 1, hi: u64::MAX });
    assert_eq!(sat(x.answer()), Ok(true));
}

#[test]
fn basic_unsat() {
    // adding False constraint should be unsat
    assert_eq!(sat(ANY.and(NONE).answer()), Ok(false));
}

#[test]
fn extra_constraints() {
    // adding x > 3 constraint should still be sat
    let x = ANY.and(Range { lo: 4, hi: u64::MAX });
    assert_eq!(sat(x.answer()), Ok(true));
    // adding x < 3 constraint should make us unsat
    let with_bad = x.and(Range { lo: 0, hi: 2 });
    assert_eq!(sat(with_bad.answer()), Ok(false));
    // the solver itself should still be sat, extra constraints weren't permanently added
    assert_eq!(sat(x.answer()), Ok(true));
}

#[test]
fn can_or_must_be_equal() {
    // add an x > 3 constraint
    let x = ANY.and(Range { lo: 4, hi: u64::MAX });
    // we should have that x _can be_ 7 but not _must be_ 7
    assert_eq!(bvs_can_be_equal(x.equal_sat(7)), Ok(true));
    assert_eq!(bvs_must_be_equal(x.differ_sat(7)), Ok(false));
    // we should have that x neither _can be_ nor _must be_ 2
    assert_eq!(bvs_can_be_equal(x.equal_sat(2)), Ok(false));
    assert_eq!(bvs_must_be_equal(x.differ_sat(2)), Ok(false));
    // add an x < 5 constraint
    let x = x.and(Range { lo: 0, hi: 4 });
    // we should now have that x both _can be_ and _must be_ 4
    assert_eq!(bvs_can_be_equal(x.equal_sat(4)), Ok(true));
    assert_eq!(bvs_must_be_equal(x.differ_sat(4)), Ok(true));
}

#[test]
fn failed_query_is_passed_on() {
    let e = Err(Error::SolverError("interrupted".to_owned()));
    assert_eq!(bvs_must_be_equal(e.clone()), e);
    assert_eq!(bvs_can_be_equal(e.clone()), e);
    // unsatisfiable constraints: every pair must be equal, and none can be
    assert_eq!(bvs_must_be_equal(NONE.differ_sat(3)), Ok(true));
    assert_eq!(bvs_can_be_equal(NONE.equal_sat(3)), Ok(false));
}

#[test]
fn constant_under_unsatisfiable_constraints_has_no_solution() {
    let c = BvSolution::binary_of(0x2a, 8);
    let ps = get_possible_solutions_for_bv(8, 5, Some(c), || Ok(false), |_: &BvSolution| Ok(false), |_: &Vec<BvSolution>| Ok(None)).unwrap();
    assert!(matches!(ps, PossibleSolutions::Exactly(ref v) if v.is_empty()));
}

#[test]
fn at_least_holds_one_more_than_the_limit() {
    let x = Range { lo: 100, hi: 200 };
    for n in 1..6usize {
        match x.solutions(n).unwrap() {
            PossibleSolutions::AtLeast(v) => assert_eq!(v.len(), n + 1),
            PossibleSolutions::Exactly(_) => panic!("expected AtLeast"),
        }
    }
}

#[test]
fn failing_query_error_comes_back() {
    let err = Error::SolverError("timed out".to_owned());
    let e2 = err.clone();
    let r = max_possible_solution_for_bv(8, None, move || Err(e2.clone()), |_| Ok(true), |_| Ok(true));
    assert_eq!(r, Err(err));
}
