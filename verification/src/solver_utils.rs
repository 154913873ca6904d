//! Solver-driven searches over the possible values of a bitvector.
//!
//! The solver itself is consulted through oracle closures: each closure
//! answers one kind of satisfiability query about the bitvector under the
//! current constraints. The searches here are verified for every feasible set
//! of values that is consistent with the oracles' answers.

use vstd::prelude::*;

use crate::bv_solution::{bin_string, binary_value, ones_string, valid_assignment, BvSolution};
use vstd::arithmetic::power2::{lemma2_to64, lemma_pow2_strictly_increases, lemma_pow2_unfold, pow2};
use crate::error::{Error, Result};

verus! {

/// The outcome of a satisfiability check, as reported by the solver.
#[derive(PartialEq, Eq, Clone, Copy, Debug)]
pub enum SolverResult {
    Sat,
    Unsat,
    Unknown,
}

/// Returns `true` if current constraints are satisfiable, `false` if not, given
/// the solver's answer to the satisfiability check.
///
/// Returns `Error::SolverError` if the query failed (e.g., was interrupted or timed out).
pub fn sat(answer: SolverResult) -> (r: Result<bool>)
    ensures
        match answer {
            SolverResult::Sat => r == Ok::<bool, Error>(true),
            SolverResult::Unsat => r == Ok::<bool, Error>(false),
            SolverResult::Unknown => r matches Err(Error::SolverError(_)),
        },
{
    match answer {
        SolverResult::Sat => Ok(true),
        SolverResult::Unsat => Ok(false),
        SolverResult::Unknown => Err(
            Error::SolverError(
                String::from_str("The query was interrupted, timed out, or otherwise failed"),
            ),
        ),
    }
}

/// Returns `true` if under the current constraints `a` and `b` must have the
/// same value, and `false` if they may have different values, given the
/// solver's answer to whether the current constraints together with `a != b`
/// are satisfiable. (If the current constraints are themselves
/// unsatisfiable, that results in `true`.)
///
/// A failed query is passed on as it came.
pub fn bvs_must_be_equal(differ_sat: Result<bool>) -> (r: Result<bool>)
    ensures
        match differ_sat {
            Ok(b) => r == Ok::<bool, Error>(!b),
            Err(e) => r == Err::<bool, Error>(e),
        },
{
    match differ_sat {
        Ok(true) => Ok(false),
        Ok(false) => Ok(true),
        Err(e) => Err(e),
    }
}

/// Returns `true` if under the current constraints `a` and `b` can have the
/// same value, and `false` if they cannot, given the solver's answer to
/// whether the current constraints together with `a == b` are satisfiable.
/// (If the current constraints are themselves unsatisfiable, that also
/// results in `false`.)
///
/// A failed query is passed on as it came.
pub fn bvs_can_be_equal(equal_sat: Result<bool>) -> (r: Result<bool>)
    ensures
        r == equal_sat,
{
    match equal_sat {
        Ok(true) => Ok(true),
        Ok(false) => Ok(false),
        Err(e) => Err(e),
    }
}

/// The largest value a bitvector of the given width can hold.
pub open spec fn max_value(width: u32) -> u64 {
    if width >= 64 {
        u64::MAX
    } else {
        ((1u64 << width) - 1) as u64
    }
}

/// `f` answers the nullary satisfiability query with `p` whenever it succeeds.
pub open spec fn answers_check<F: Fn() -> Result<bool>>(f: F, p: bool) -> bool {
    forall|r: Result<bool>| #[trigger] f.ensures((), r) ==> (r matches Ok(b) ==> b == p)
}

/// `f` answers the query about value `m` with `p(m)` whenever it succeeds.
pub open spec fn answers_query<F: Fn(u64) -> Result<bool>>(f: F, p: spec_fn(u64) -> bool) -> bool {
    forall|m: u64, r: Result<bool>| #[trigger] f.ensures((m,), r) ==> (r matches Ok(b) ==> b == p(m))
}

/// `f`, a nullary query, never fails.
pub open spec fn check_never_fails<F: Fn() -> Result<bool>>(f: F) -> bool {
    forall|r: Result<bool>| #[trigger] f.ensures((), r) ==> r is Ok
}

/// `f`, a query about a value, never fails.
pub open spec fn query_never_fails<F: Fn(u64) -> Result<bool>>(f: F) -> bool {
    forall|m: u64, r: Result<bool>| #[trigger] f.ensures((m,), r) ==> r is Ok
}

/// `f`, a query about a value, can fail with `e`.
pub open spec fn query_fails_with<F: Fn(u64) -> Result<bool>>(f: F, e: Error) -> bool {
    exists|m: u64| #[trigger] f.ensures((m,), Err(e))
}

/// Facts shared by both searches: `fs` is the set of possible values of a
/// bitvector of width `width`; `sat` reports whether any value is possible,
/// `constant` is the bitvector's value if it is a constant, and `can_be`
/// reports whether a given value is possible.
pub open spec fn base_consistent<S: Fn() -> Result<bool>, E: Fn(u64) -> Result<bool>>(
    width: u32,
    constant: Option<u64>,
    sat: S,
    can_be: E,
    fs: Set<u64>,
) -> bool {
    &&& forall|s: u64| #[trigger] fs.contains(s) ==> s <= max_value(width)
    &&& answers_check(sat, !fs.is_empty())
    &&& (constant matches Some(u) ==> forall|s: u64| #[trigger] fs.contains(s) ==> s == u)
    &&& answers_query(can_be, |v: u64| fs.contains(v))
}

/// `at_least` reports whether some possible value is at least `m`.
pub open spec fn consistent_for_max<S: Fn() -> Result<bool>, E: Fn(u64) -> Result<bool>, G: Fn(u64) -> Result<bool>>(
    width: u32,
    constant: Option<u64>,
    sat: S,
    can_be: E,
    at_least: G,
    fs: Set<u64>,
) -> bool {
    &&& base_consistent(width, constant, sat, can_be, fs)
    &&& answers_query(at_least, |m: u64| exists|s: u64| #[trigger] fs.contains(s) && s >= m)
}

/// `at_most` reports whether some possible value is at most `m`.
pub open spec fn consistent_for_min<S: Fn() -> Result<bool>, E: Fn(u64) -> Result<bool>, G: Fn(u64) -> Result<bool>>(
    width: u32,
    constant: Option<u64>,
    sat: S,
    can_be: E,
    at_most: G,
    fs: Set<u64>,
) -> bool {
    &&& base_consistent(width, constant, sat, can_be, fs)
    &&& answers_query(at_most, |m: u64| exists|s: u64| #[trigger] fs.contains(s) && s <= m)
}

/// `r` is the maximum of `fs`, or `None` if `fs` is empty.
pub open spec fn is_max_of(r: Option<u64>, fs: Set<u64>) -> bool {
    match r {
        None => fs.is_empty(),
        Some(m) => fs.contains(m) && forall|s: u64| #[trigger] fs.contains(s) ==> s <= m,
    }
}

/// `r` is the minimum of `fs`, or `None` if `fs` is empty.
pub open spec fn is_min_of(r: Option<u64>, fs: Set<u64>) -> bool {
    match r {
        None => fs.is_empty(),
        Some(m) => fs.contains(m) && forall|s: u64| #[trigger] fs.contains(s) ==> m <= s,
    }
}

/// The midpoint that the searches query next: the floor average of `min` and
/// `max` (computed without overflow), biased towards the small end by taking
/// half of it whenever that still lies strictly above `min`.
pub open spec fn biased_mid(min: u64, max: u64) -> u64 {
    let mid = (min / 2 + max / 2 + (min % 2 + max % 2) / 2) as u64;
    if mid / 2 > min {
        (mid / 2) as u64
    } else {
        mid
    }
}

proof fn lemma_biased_mid(min: u64, max: u64)
    requires
        min < max,
        max - min > 1,
    ensures
        min < biased_mid(min, max) < max,
{
    let mid = (min / 2 + max / 2 + (min % 2 + max % 2) / 2) as u64;
    assert(min < mid < max);
}

/// Computes the largest value a bitvector of the given width can hold.
fn max_value_of_width(width: u32) -> (r: u64)
    requires
        1 <= width <= 64,
    ensures
        r == max_value(width),
        r >= 1,
{
    if width == 64 {
        u64::MAX
    } else {
        assert(1u64 << width >= 2) by (bit_vector)
            requires
                1 <= width < 64,
        ;
        (1u64 << width) - 1
    }
}

/// Get the maximum possible solution for a bitvector of width `width`: that
/// is, the highest value for which the current set of constraints is still
/// satisfiable. "Maximum" is interpreted in an unsigned fashion.
///
/// `constant` is the bitvector's value if it is a constant; `sat` checks the
/// current constraints; `can_be(v)` checks whether the bitvector can equal
/// `v`; `at_least(m)` checks whether it can be at least `m`.
///
/// Returns `Ok(None)` if there is no solution, that is, if the current set of
/// constraints is unsatisfiable. Only returns `Err` if a solver query itself
/// fails.
pub fn max_possible_solution_for_bv<S, E, G>(
    width: u32,
    constant: Option<u64>,
    sat: S,
    can_be: E,
    at_least: G,
) -> (r: Result<Option<u64>>) where
    S: Fn() -> Result<bool>,
    E: Fn(u64) -> Result<bool>,
    G: Fn(u64) -> Result<bool>,

    requires
        1 <= width <= 64,
        sat.requires(()),
        forall|v: u64| #[trigger] can_be.requires((v,)),
        forall|m: u64| #[trigger] at_least.requires((m,)),
    ensures
        forall|fs: Set<u64>|
            #[trigger] consistent_for_max(width, constant, sat, can_be, at_least, fs) ==> (
            r matches Ok(o) ==> is_max_of(o, fs)),
        check_never_fails(sat) && query_never_fails(can_be) && query_never_fails(at_least) ==> r is Ok,
        r matches Err(e) ==> sat.ensures((), Err(e)) || query_fails_with(can_be, e) || query_fails_with(at_least, e),
{
    let is_sat = sat()?;
    if !is_sat {
        return Ok(None);
    }
    if let Some(u) = constant {
        return Ok(Some(u));
    }
    let ones = max_value_of_width(width);
    let ones_possible = can_be(ones)?;
    if ones_possible {
        return Ok(Some(ones));
    }
    // `min` is inclusive, `max` is exclusive (we know all-ones doesn't work)

    let mut min: u64 = 0;
    let mut max: u64 = ones;
    assert forall|fs: Set<u64>|
        #[trigger] consistent_for_max(width, constant, sat, can_be, at_least, fs) implies (exists|
        s: u64,
    | #[trigger] fs.contains(s) && s >= min) && (forall|s: u64| #[trigger] fs.contains(s) ==> s
        < max) by {
        assert(!fs.is_empty());
        let w = fs.choose();
        assert(fs.contains(w));
    }
    while max - min > 1
        invariant
            min < max <= ones,
            forall|fs: Set<u64>|
                #[trigger] consistent_for_max(width, constant, sat, can_be, at_least, fs) ==> (
                exists|s: u64| #[trigger] fs.contains(s) && s >= min) && (forall|s: u64|
                    #[trigger] fs.contains(s) ==> s < max),
            forall|m: u64| #[trigger] at_least.requires((m,)),
        decreases max - min,
    {
        proof {
            lemma_biased_mid(min, max);
        }
        let mid = (min / 2) + (max / 2) + (min % 2 + max % 2) / 2;
        let mid = if mid / 2 > min {
            mid / 2
        } else {
            mid
        };
        assert(mid == biased_mid(min, max));
        let found = at_least(mid)?;
        if found {
            min = mid;
        } else {
            max = mid;
        }
    }
    assert(max - min == 1);
    assert forall|fs: Set<u64>|
        #[trigger] consistent_for_max(width, constant, sat, can_be, at_least, fs) implies is_max_of(
        Some(min),
        fs,
    ) by {
        let w = choose|s: u64| #[trigger] fs.contains(s) && s >= min;
        assert(w == min);
    }
    Ok(Some(min))
}

/// Get the minimum possible solution for a bitvector of width `width`: that
/// is, the lowest value for which the current set of constraints is still
/// satisfiable. "Minimum" is interpreted in an unsigned fashion.
///
/// `constant` is the bitvector's value if it is a constant; `sat` checks the
/// current constraints; `can_be(v)` checks whether the bitvector can equal
/// `v`; `at_most(m)` checks whether it can be at most `m`.
///
/// Returns `Ok(None)` if there is no solution, that is, if the current set of
/// constraints is unsatisfiable. Only returns `Err` if a solver query itself
/// fails.
pub fn min_possible_solution_for_bv<S, E, G>(
    width: u32,
    constant: Option<u64>,
    sat: S,
    can_be: E,
    at_most: G,
) -> (r: Result<Option<u64>>) where
    S: Fn() -> Result<bool>,
    E: Fn(u64) -> Result<bool>,
    G: Fn(u64) -> Result<bool>,

    requires
        1 <= width <= 64,
        sat.requires(()),
        forall|v: u64| #[trigger] can_be.requires((v,)),
        forall|m: u64| #[trigger] at_most.requires((m,)),
    ensures
        forall|fs: Set<u64>|
            #[trigger] consistent_for_min(width, constant, sat, can_be, at_most, fs) ==> (
            r matches Ok(o) ==> is_min_of(o, fs)),
        check_never_fails(sat) && query_never_fails(can_be) && query_never_fails(at_most) ==> r is Ok,
        r matches Err(e) ==> sat.ensures((), Err(e)) || query_fails_with(can_be, e) || query_fails_with(at_most, e),
{
    let is_sat = sat()?;
    if !is_sat {
        return Ok(None);
    }
    if let Some(u) = constant {
        return Ok(Some(u));
    }
    let zero_possible = can_be(0)?;
    if zero_possible {
        return Ok(Some(0));
    }
    // `min` is exclusive (we know `0` doesn't work), `max` is inclusive

    let ones = max_value_of_width(width);
    let mut min: u64 = 0;
    let mut max: u64 = ones;
    assert forall|fs: Set<u64>|
        #[trigger] consistent_for_min(width, constant, sat, can_be, at_most, fs) implies (exists|
        s: u64,
    | #[trigger] fs.contains(s) && s <= max) && (forall|s: u64| #[trigger] fs.contains(s) ==> s
        > min) by {
        assert(!fs.is_empty());
        let w = fs.choose();
        assert(fs.contains(w));
    }
    while max - min > 1
        invariant
            min < max <= ones,
            forall|fs: Set<u64>|
                #[trigger] consistent_for_min(width, constant, sat, can_be, at_most, fs) ==> (
                exists|s: u64| #[trigger] fs.contains(s) && s <= max) && (forall|s: u64|
                    #[trigger] fs.contains(s) ==> s > min),
            forall|m: u64| #[trigger] at_most.requires((m,)),
        decreases max - min,
    {
        proof {
            lemma_biased_mid(min, max);
        }
        let mid = (min / 2) + (max / 2) + (min % 2 + max % 2) / 2;
        let mid = if mid / 2 > min {
            mid / 2
        } else {
            mid
        };
        assert(mid == biased_mid(min, max));
        let found = at_most(mid)?;
        if found {
            max = mid;
        } else {
            min = mid;
        }
    }
    assert(max - min == 1);
    assert forall|fs: Set<u64>|
        #[trigger] consistent_for_min(width, constant, sat, can_be, at_most, fs) implies is_min_of(
        Some(max),
        fs,
    ) by {
        let w = choose|s: u64| #[trigger] fs.contains(s) && s <= max;
        assert(w == max);
    }
    Ok(Some(max))
}

/// A description of the possible solutions of a bitvector.
///
/// Each set of solutions is held as a vector in which no solution occurs
/// twice (see `wf`).
#[derive(Clone, Debug)]
pub enum PossibleSolutions<V> {
    /// This is exactly the set of possible solutions; there are no others.
    /// Note that an empty set here indicates there are no possible solutions.
    Exactly(Vec<V>),
    /// All of the solutions in this set are possible solutions, but there
    /// may be others. That is, there are at least this many solutions.
    AtLeast(Vec<V>),
}

/// A count of possible solutions.
#[derive(PartialEq, Eq, Clone, Copy, Debug)]
pub enum SolutionCount {
    /// There are exactly this many solutions
    Exactly(usize),
    /// There are at least this many solutions
    AtLeast(usize),
}

impl<V> PossibleSolutions<V> {
    /// The solutions held, in storage order.
    pub open spec fn items(&self) -> Seq<V> {
        match self {
            PossibleSolutions::Exactly(v) => v@,
            PossibleSolutions::AtLeast(v) => v@,
        }
    }

    /// No solution is held twice.
    pub open spec fn wf(&self) -> bool {
        self.items().no_duplicates()
    }

    /// Get a count of how many possible solutions there are.
    pub fn count(&self) -> (r: SolutionCount)
        ensures
            r == (match self {
                PossibleSolutions::Exactly(v) => SolutionCount::Exactly(v@.len() as usize),
                PossibleSolutions::AtLeast(v) => SolutionCount::AtLeast(v@.len() as usize),
            }),
    {
        match self {
            PossibleSolutions::Exactly(v) => SolutionCount::Exactly(v.len()),
            PossibleSolutions::AtLeast(v) => SolutionCount::AtLeast(v.len()),
        }
    }
}

/// Adds `x` to `v` unless it is already there.
pub fn insert_distinct(v: &mut Vec<u64>, x: u64)
    requires
        old(v)@.no_duplicates(),
    ensures
        final(v)@.no_duplicates(),
        final(v)@.to_set() == old(v)@.to_set().insert(x),
        old(v)@.contains(x) ==> final(v)@ == old(v)@,
        !old(v)@.contains(x) ==> final(v)@ == old(v)@.push(x),
{
    let mut i: usize = 0;
    while i < v.len()
        invariant
            i <= v@.len(),
            v@ == old(v)@,
            v@.no_duplicates(),
            forall|j: int| 0 <= j < i ==> v@[j] != x,
        decreases v@.len() - i,
    {
        if v[i] == x {
            assert(v@.contains(x));
            assert(v@.to_set() =~= v@.to_set().insert(x));
            return;
        }
        i = i + 1;
    }
    let ghost before = v@;
    v.push(x);
    proof {
        before.lemma_push_to_set_commute(x);
    }
}

/// The values of the assignments in `s`.
pub open spec fn values_of(s: Seq<BvSolution>) -> Set<nat> {
    s.map_values(|b: BvSolution| binary_value(b@)).to_set()
}

/// Converts each assignment to a `u64`, keeping each value once; `None` if
/// some assignment is wider than 64 bits.
pub(crate) fn distinct_u64s(v: &Vec<BvSolution>) -> (r: Option<Vec<u64>>)
    requires
        forall|i: int| 0 <= i < v@.len() ==> valid_assignment(#[trigger] v@[i]@),
    ensures
        r is Some <==> forall|i: int| 0 <= i < v@.len() ==> (#[trigger] v@[i]@).len() <= 64,
        r matches Some(out) ==> out@.no_duplicates() && out@.to_set().map(|x: u64| x as nat) == values_of(v@),
{
    let mut out: Vec<u64> = Vec::new();
    let mut i: usize = 0;
    while i < v.len()
        invariant
            i <= v@.len(),
            forall|j: int| 0 <= j < v@.len() ==> valid_assignment(#[trigger] v@[j]@),
            forall|j: int| 0 <= j < i ==> (#[trigger] v@[j]@).len() <= 64,
            out@.no_duplicates(),
            out@.to_set().map(|x: u64| x as nat) == values_of(v@.subrange(0, i as int)),
        decreases v@.len() - i,
    {
        let ghost before = out@;
        match v[i].as_u64() {
            Some(x) => {
                insert_distinct(&mut out, x);
                proof {
                    let f = |b: BvSolution| binary_value(b@);
                    let g = |x: u64| x as nat;
                    assert(v@.subrange(0, i as int + 1) =~= v@.subrange(0, i as int).push(v@[i as int]));
                    assert(v@.subrange(0, i as int + 1).map_values(f) =~= v@.subrange(0, i as int).map_values(f).push(f(v@[i as int])));
                    assert(out@.to_set().map(g) =~= before.to_set().map(g).insert(x as nat)) by {
                        assert forall|n: nat| #[trigger] out@.to_set().map(g).contains(n) == before.to_set().map(g).insert(x as nat).contains(n) by {
                            if out@.to_set().map(g).contains(n) {
                                let y = choose|y: u64| out@.to_set().contains(y) && g(y) == n;
                                if y != x {
                                    assert(before.to_set().contains(y));
                                }
                            }
                            if before.to_set().map(g).contains(n) {
                                let y = choose|y: u64| before.to_set().contains(y) && g(y) == n;
                                assert(out@.to_set().contains(y));
                            }
                            if n == x as nat {
                                assert(out@.to_set().contains(x));
                            }
                        }
                    }
                    v@.subrange(0, i as int).map_values(f).lemma_push_to_set_commute(f(v@[i as int]));
                }
            },
            None => {
                return None;
            },
        }
        i = i + 1;
    }
    assert(v@.subrange(0, i as int) =~= v@);
    Some(out)
}

impl PossibleSolutions<BvSolution> {
    /// Convert a `PossibleSolutions` over `BvSolution` into a
    /// `PossibleSolutions` over `u64`, by applying `as_u64()` to each
    /// `BvSolution`.
    /// If `as_u64()` fails for any individual solution, this returns `None`.
    pub fn as_u64_solutions(&self) -> (r: Option<PossibleSolutions<u64>>)
        requires
            forall|i: int| 0 <= i < self.items().len() ==> valid_assignment(#[trigger] self.items()[i]@),
        ensures
            r is Some <==> forall|i: int| 0 <= i < self.items().len() ==> (#[trigger] self.items()[i]@).len() <= 64,
            r matches Some(ps) ==> {
                &&& ps.wf()
                &&& ps.items().to_set().map(|x: u64| x as nat) == values_of(self.items())
                &&& (self is Exactly <==> ps is Exactly)
            },
    {
        assert(forall|i: int| 0 <= i < self.items().len() ==> #[trigger] self.items()[i] == match self {
            PossibleSolutions::Exactly(v) => v@[i],
            PossibleSolutions::AtLeast(v) => v@[i],
        });
        match self {
            PossibleSolutions::Exactly(v) => match distinct_u64s(v) {
                Some(out) => Some(PossibleSolutions::Exactly(out)),
                None => None,
            },
            PossibleSolutions::AtLeast(v) => match distinct_u64s(v) {
                Some(out) => Some(PossibleSolutions::AtLeast(out)),
                None => None,
            },
        }
    }
}

/// The views of a sequence of solutions.
pub open spec fn views_of(s: Seq<BvSolution>) -> Set<Seq<char>> {
    Set::new(|x: Seq<char>| exists|i: int| 0 <= i < s.len() && (#[trigger] s[i])@ == x)
}

/// No solution occurs twice.
pub open spec fn distinct_solutions(s: Seq<BvSolution>) -> bool {
    forall|i: int, j: int| 0 <= i < j < s.len() ==> (#[trigger] s[i])@ != (#[trigger] s[j])@
}

/// `can_be` answers whether the bitvector can equal a given solution, as
/// membership in `fs`.
pub open spec fn answers_membership<E: Fn(&BvSolution) -> Result<bool>>(can_be: E, fs: Set<Seq<char>>) -> bool {
    forall|v: BvSolution, r: Result<bool>| #[trigger] can_be.ensures((&v,), r) ==> (r matches Ok(b) ==> b == fs.contains(v@))
}

/// `another` gives a solution in `fs` that is not among those listed, or
/// `None` if `fs` has no other.
pub open spec fn answers_another<A: Fn(&Vec<BvSolution>) -> Result<Option<BvSolution>>>(another: A, fs: Set<Seq<char>>) -> bool {
    forall|ex: Vec<BvSolution>, r: Result<Option<BvSolution>>| #[trigger] another.ensures((&ex,), r) ==> match r {
        Ok(Some(v)) => fs.contains(v@) && !views_of(ex@).contains(v@),
        Ok(None) => fs.subset_of(views_of(ex@)),
        Err(_) => true,
    }
}

/// Candidate `c` is one of the common values tried first, for a bitvector
/// of width `w`: 0, 1, all ones (if `w > 1`), and the powers of two from 2 to
/// 4096 that fit in `w` bits.
pub open spec fn is_common_candidate(c: Seq<char>, w: nat) -> bool {
    ||| c == bin_string(0, w)
    ||| c == bin_string(1, w)
    ||| (w > 1 && c == ones_string(w))
    ||| exists|j: nat| 1 <= j <= 12 && w > j && c == #[trigger] bin_string(pow2(j), w)
}

/// `f`, a query about a solution, never fails.
pub open spec fn membership_never_fails<E: Fn(&BvSolution) -> Result<bool>>(f: E) -> bool {
    forall|v: BvSolution, r: Result<bool>| #[trigger] f.ensures((&v,), r) ==> r is Ok
}

/// `f`, a query about a solution, can fail with `e`.
pub open spec fn membership_fails_with<E: Fn(&BvSolution) -> Result<bool>>(f: E, e: Error) -> bool {
    exists|v: BvSolution| #[trigger] f.ensures((&v,), Err(e))
}

/// The common candidates for a bitvector of width `w`.
pub open spec fn common_candidates(w: nat) -> Set<Seq<char>> {
    Set::new(|c: Seq<char>| is_common_candidate(c, w))
}

/// `cur` came from `orig` by adding common candidates while at most `n`
/// solutions were held.
pub open spec fn step_ok(orig: Seq<BvSolution>, cur: Seq<BvSolution>, n: usize, w: nat) -> bool {
    &&& orig.is_prefix_of(cur)
    &&& views_of(cur).subset_of(views_of(orig).union(common_candidates(w)))
    &&& orig.len() > n ==> cur == orig
    &&& orig.len() <= n ==> cur.len() <= n + 1
}

proof fn lemma_step_start(orig: Seq<BvSolution>, n: usize, w: nat)
    ensures
        step_ok(orig, orig, n, w),
{
    assert(orig.is_prefix_of(orig));
}

proof fn lemma_step(orig: Seq<BvSolution>, before: Seq<BvSolution>, after: Seq<BvSolution>, x: BvSolution, n: usize, w: nat)
    requires
        step_ok(orig, before, n, w),
        is_common_candidate(x@, w),
        after == before || (before.len() <= n && after == before.push(x)),
    ensures
        step_ok(orig, after, n, w),
{
    if after != before {
        assert(common_candidates(w).contains(x@));
        assert forall|y: Seq<char>| #[trigger] views_of(after).contains(y) implies views_of(orig).union(common_candidates(w)).contains(y) by {
            let k = choose|k: int| 0 <= k < after.len() && (#[trigger] after[k])@ == y;
            if k < before.len() {
                assert(after[k] == before[k]);
                assert(views_of(before).contains(y));
            }
        }
        assert(orig.is_prefix_of(after)) by {
            assert forall|i: int| 0 <= i < orig.len() implies orig[i] == after[i] by {
                assert(before[i] == after[i]);
            }
        }
    }
}

/// Adds `x` to `v` unless a solution with the same view is already there.
fn insert_solution(v: &mut Vec<BvSolution>, x: BvSolution)
    requires
        distinct_solutions(old(v)@),
    ensures
        distinct_solutions(final(v)@),
        views_of(final(v)@) == views_of(old(v)@).insert(x@),
        views_of(old(v)@).contains(x@) ==> final(v)@ == old(v)@,
        !views_of(old(v)@).contains(x@) ==> final(v)@ == old(v)@.push(x),
{
    let mut i: usize = 0;
    while i < v.len()
        invariant
            i <= v@.len(),
            v@ == old(v)@,
            distinct_solutions(v@),
            forall|j: int| 0 <= j < i ==> v@[j]@ != x@,
        decreases v@.len() - i,
    {
        if v[i].same_as(&x) {
            assert(views_of(v@).contains(x@));
            assert(views_of(v@) =~= views_of(v@).insert(x@));
            return;
        }
        i = i + 1;
    }
    let ghost before = v@;
    v.push(x);
    assert(views_of(v@) =~= views_of(before).insert(x@)) by {
        assert forall|y: Seq<char>| #[trigger] views_of(v@).contains(y) implies views_of(before).insert(x@).contains(y) by {
            let k = choose|k: int| 0 <= k < v@.len() && (#[trigger] v@[k])@ == y;
            if k < before.len() {
                assert(before[k] == v@[k]);
            }
        }
        assert forall|y: Seq<char>| #[trigger] views_of(before).insert(x@).contains(y) implies views_of(v@).contains(y) by {
            if y == x@ {
                assert(v@[before.len() as int]@ == y);
            } else {
                let k = choose|k: int| 0 <= k < before.len() && (#[trigger] before[k])@ == y;
                assert(v@[k] == before[k]);
            }
        }
    }
}

proof fn lemma_subset_trans<T>(a: Set<T>, b: Set<T>, c: Set<T>)
    requires
        a.subset_of(b),
        b.subset_of(c),
    ensures
        a.subset_of(c),
{
}

/// Tries one common candidate: if there is still room (at most `n`
/// solutions so far) and the bitvector can equal `cand`, adds it.
fn try_candidate<E: Fn(&BvSolution) -> Result<bool>>(
    solutions: &mut Vec<BvSolution>,
    n: usize,
    cand: BvSolution,
    can_be: &E,
) -> (r: Result<()>)
    requires
        distinct_solutions(old(solutions)@),
        forall|v: BvSolution| #[trigger] can_be.requires((&v,)),
    ensures
        distinct_solutions(final(solutions)@),
        forall|fs: Set<Seq<char>>| #[trigger] answers_membership(*can_be, fs) ==> views_of(final(solutions)@).subset_of(views_of(old(solutions)@).union(fs)),
        views_of(old(solutions)@).subset_of(views_of(final(solutions)@)),
        old(solutions)@.len() <= final(solutions)@.len() <= old(solutions)@.len() + 1,
        r is Ok && old(solutions)@.len() <= n ==> forall|fs: Set<Seq<char>>| #[trigger] answers_membership(*can_be, fs) ==> (fs.contains(cand@) ==> views_of(final(solutions)@).contains(cand@)),
        r is Err ==> final(solutions)@ == old(solutions)@,
        r matches Err(e) ==> old(solutions)@.len() <= n && can_be.ensures((&cand,), Err(e)),
        membership_never_fails(*can_be) ==> r is Ok,
        final(solutions)@ == old(solutions)@ || (old(solutions)@.len() <= n && final(solutions)@ == old(solutions)@.push(cand)),
{
    if solutions.len() <= n {
        let ghost c = cand@;
        let possible = can_be(&cand)?;
        if possible {
            insert_solution(solutions, cand);
        }
        proof {
            assert forall|fs: Set<Seq<char>>| #[trigger] answers_membership(*can_be, fs) implies views_of(solutions@).subset_of(views_of(old(solutions)@).union(fs)) by {
                if possible {
                    assert(fs.contains(c));
                }
            }
        }
    }
    Ok(())
}

/// Check whether some common values are solutions, and if so, add them,
/// while there are at most `n` solutions.
///
/// `can_be` asks the solver whether the bitvector can equal a given value.
pub fn check_for_common_solutions<E: Fn(&BvSolution) -> Result<bool>>(
    width: u32,
    n: usize,
    can_be: &E,
    solutions: &mut Vec<BvSolution>,
) -> (r: Result<()>)
    requires
        distinct_solutions(old(solutions)@),
        forall|v: BvSolution| #[trigger] can_be.requires((&v,)),
    ensures
        distinct_solutions(final(solutions)@),
        views_of(old(solutions)@).subset_of(views_of(final(solutions)@)),
        forall|fs: Set<Seq<char>>| #[trigger] answers_membership(*can_be, fs) ==> {
            &&& views_of(final(solutions)@).subset_of(views_of(old(solutions)@).union(fs))
            &&& (r is Ok && final(solutions)@.len() <= n) ==> forall|c: Seq<char>|
                is_common_candidate(c, width as nat) && #[trigger] fs.contains(c) ==> views_of(final(solutions)@).contains(c)
        },
        r matches Err(e) ==> membership_fails_with(*can_be, e),
        membership_never_fails(*can_be) ==> r is Ok,
        views_of(final(solutions)@).subset_of(views_of(old(solutions)@).union(common_candidates(width as nat))),
        old(solutions)@.len() > n ==> final(solutions)@ == old(solutions)@,
        old(solutions)@.len() <= n ==> final(solutions)@.len() <= n + 1,
        old(solutions)@.is_prefix_of(final(solutions)@),
{
    let ghost orig = solutions@;
    // 0, 1, and all ones
    proof {
        lemma_step_start(orig, n, width as nat);
    }
    let c0 = BvSolution::binary_of(0, width);
    let ghost b0 = solutions@;
    let ghost v0 = c0;
    let r0 = try_candidate(solutions, n, c0, can_be);
    proof {
        lemma_step(orig, b0, solutions@, v0, n, width as nat);
    }
    r0?;
    let c1 = BvSolution::binary_of(1, width);
    let ghost b1 = solutions@;
    let ghost v1 = c1;
    let r1 = try_candidate(solutions, n, c1, can_be);
    proof {
        lemma_step(orig, b1, solutions@, v1, n, width as nat);
    }
    r1?;
    if width > 1 {
        let c2 = BvSolution::ones(width);
        let ghost b2 = solutions@;
        let ghost v2 = c2;
        let r2 = try_candidate(solutions, n, c2, can_be);
        proof {
            lemma_step(orig, b2, solutions@, v2, n, width as nat);
        }
        r2?;
    }
    let ghost after_basic = solutions@;
    // the powers of two from 2 to 4096 that fit
    let mut j: u32 = 1;
    let mut p: u64 = 2;
    proof {
        lemma2_to64();
    }
    while j <= 12
        invariant
            orig == old(solutions)@,
            step_ok(orig, solutions@, n, width as nat),
            1 <= j <= 13,
            p == pow2(j as nat),
            j <= 12 ==> p <= 4096,
            distinct_solutions(solutions@),
            forall|v: BvSolution| #[trigger] can_be.requires((&v,)),
            views_of(orig).subset_of(views_of(after_basic)),
            views_of(after_basic).subset_of(views_of(solutions@)),
            after_basic.len() <= solutions@.len(),
            forall|fs: Set<Seq<char>>| #[trigger] answers_membership(*can_be, fs) ==> {
                &&& views_of(solutions@).subset_of(views_of(orig).union(fs))
                &&& solutions@.len() <= n ==> forall|c: Seq<char>|
                    #![trigger fs.contains(c)]
                    fs.contains(c) && (c == bin_string(0, width as nat) || c == bin_string(1, width as nat)
                        || (width > 1 && c == ones_string(width as nat))
                        || exists|i: nat| 1 <= i < j && width > i && c == #[trigger] bin_string(pow2(i), width as nat))
                        ==> views_of(solutions@).contains(c)
            },
        decreases 13 - j,
    {
        if width > j {
            let ghost before = solutions@;
            let cand = BvSolution::binary_of(p, width);
            let ghost vc = cand;
            assert(is_common_candidate(vc@, width as nat)) by {
                assert(vc@ == bin_string(pow2(j as nat), width as nat));
            }
            let res = try_candidate(solutions, n, cand, can_be);
            proof {
                lemma_step(orig, before, solutions@, vc, n, width as nat);
            }
            if res.is_err() {
                proof {
                    lemma_subset_trans(views_of(orig), views_of(after_basic), views_of(solutions@));
                }
                return res;
            }
            proof {
                assert forall|fs: Set<Seq<char>>| #[trigger] answers_membership(*can_be, fs) implies {
                    &&& views_of(solutions@).subset_of(views_of(orig).union(fs))
                    &&& solutions@.len() <= n ==> forall|c: Seq<char>|
                        #![trigger fs.contains(c)]
                        fs.contains(c) && (c == bin_string(0, width as nat) || c == bin_string(1, width as nat)
                            || (width > 1 && c == ones_string(width as nat))
                            || exists|i: nat| 1 <= i < j + 1 && width > i && c == #[trigger] bin_string(pow2(i), width as nat))
                            ==> views_of(solutions@).contains(c)
                } by {
                    assert(views_of(before).subset_of(views_of(orig).union(fs)));
                    assert(views_of(solutions@).subset_of(views_of(before).union(fs)));
                    assert forall|c: Seq<char>|
                        #![trigger fs.contains(c)]
                        solutions@.len() <= n && fs.contains(c) && (c == bin_string(0, width as nat) || c == bin_string(1, width as nat)
                            || (width > 1 && c == ones_string(width as nat))
                            || exists|i: nat| 1 <= i < j + 1 && width > i && c == #[trigger] bin_string(pow2(i), width as nat))
                        implies views_of(solutions@).contains(c) by {
                        if c == bin_string(pow2(j as nat), width as nat) {
                        } else {
                            assert(before.len() <= n);
                            if !(c == bin_string(0, width as nat) || c == bin_string(1, width as nat)
                                || (width > 1 && c == ones_string(width as nat))) {
                                let i = choose|i: nat| 1 <= i < j + 1 && width > i && c == #[trigger] bin_string(pow2(i), width as nat);
                                assert(i < j);
                            }
                            assert(views_of(before).contains(c));
                        }
                    }
                }
            }
        }
        proof {
            lemma_pow2_unfold((j + 1) as nat);
            lemma2_to64();
            if j + 1 < 12 {
                lemma_pow2_strictly_increases((j + 1) as nat, 12);
            }
        }
        j = j + 1;
        p = p * 2;
    }
    Ok(())
}

/// `f`, the query for another solution, never fails.
pub open spec fn another_never_fails<A: Fn(&Vec<BvSolution>) -> Result<Option<BvSolution>>>(f: A) -> bool {
    forall|ex: Vec<BvSolution>, r: Result<Option<BvSolution>>| #[trigger] f.ensures((&ex,), r) ==> r is Ok
}

/// `f`, the query for another solution, can fail with `e`.
pub open spec fn another_fails_with<A: Fn(&Vec<BvSolution>) -> Result<Option<BvSolution>>>(f: A, e: Error) -> bool {
    exists|ex: Vec<BvSolution>| #[trigger] f.ensures((&ex,), Err(e))
}

/// The oracles of `get_possible_solutions_for_bv` answer consistently with
/// `fs` being the set of possible solutions of the bitvector.
pub open spec fn consistent_solutions<S, E, A>(sat: S, can_be: E, another: A, fs: Set<Seq<char>>) -> bool where
    S: Fn() -> Result<bool>,
    E: Fn(&BvSolution) -> Result<bool>,
    A: Fn(&Vec<BvSolution>) -> Result<Option<BvSolution>>,
 {
    &&& answers_check(sat, !fs.is_empty())
    &&& answers_membership(can_be, fs)
    &&& answers_another(another, fs)
}

/// Get a description of the possible solutions for a bitvector of width
/// `width`.
///
/// `n`: Maximum number of distinct solutions to check for.
/// If there are more than `n` possible solutions, this returns a
/// `PossibleSolutions::AtLeast` containing `n+1` solutions.
///
/// `constant` is the bitvector's value if it is a constant; `sat` checks the
/// current constraints; `can_be(v)` checks whether the bitvector can equal
/// `v`; `another(vs)` finds a solution (disambiguated) other than those in
/// `vs`, if there is one.
///
/// If there are no possible solutions, this returns `Ok` with an empty
/// `PossibleSolutions`, rather than returning an `Err` with `Error::Unsat`.
pub fn get_possible_solutions_for_bv<S, E, A>(
    width: u32,
    n: usize,
    constant: Option<BvSolution>,
    sat: S,
    can_be: E,
    another: A,
) -> (r: Result<PossibleSolutions<BvSolution>>) where
    S: Fn() -> Result<bool>,
    E: Fn(&BvSolution) -> Result<bool>,
    A: Fn(&Vec<BvSolution>) -> Result<Option<BvSolution>>,

    requires
        sat.requires(()),
        forall|v: BvSolution| #[trigger] can_be.requires((&v,)),
        forall|ex: Vec<BvSolution>| #[trigger] another.requires((&ex,)),
    ensures
        r matches Ok(ps) ==> distinct_solutions(ps.items()),
        r matches Ok(ps) ==> (ps is AtLeast ==> ps.items().len() == n + 1),
        (n > 0 && constant is Some) ==> (r matches Ok(ps) ==> ps is Exactly && (
            (sat.ensures((), Ok(true)) && ps.items().len() == 1 && ps.items()[0]@ == constant->0@)
            || (sat.ensures((), Ok(false)) && ps.items().len() == 0))),
        forall|fs: Set<Seq<char>>| #[trigger] consistent_solutions(sat, can_be, another, fs) ==> (
            (n == 0 || constant is None) ==> (r matches Ok(ps) ==> match ps {
                PossibleSolutions::Exactly(v) => views_of(v@) == fs,
                PossibleSolutions::AtLeast(v) => views_of(v@).subset_of(fs),
            })),
        check_never_fails(sat) && membership_never_fails(can_be) && another_never_fails(another) ==> r is Ok,
        r matches Err(e) ==> sat.ensures((), Err(e)) || membership_fails_with(can_be, e) || another_fails_with(another, e),
{
    if n == 0 {
        if sat()? {
            let none: Vec<BvSolution> = Vec::new();
            match another(&none)? {
                Some(val) => {
                    let mut v: Vec<BvSolution> = Vec::new();
                    v.push(val);
                    proof {
                        assert forall|fs: Set<Seq<char>>| #[trigger] consistent_solutions(sat, can_be, another, fs)
                            implies views_of(v@).subset_of(fs) by {
                            assert forall|y: Seq<char>| views_of(v@).contains(y) implies fs.contains(y) by {
                                assert(v@[0] == val);
                            }
                        }
                    }
                    Ok(PossibleSolutions::AtLeast(v))
                },
                None => {
                    let v: Vec<BvSolution> = Vec::new();
                    proof {
                        assert forall|fs: Set<Seq<char>>| #[trigger] consistent_solutions(sat, can_be, another, fs)
                            implies views_of(v@) == fs by {
                            assert(views_of(none@) =~= Set::<Seq<char>>::empty());
                            assert(views_of(v@) =~= fs);
                        }
                    }
                    Ok(PossibleSolutions::Exactly(v))
                },
            }
        } else {
            let v: Vec<BvSolution> = Vec::new();
            assert(views_of(v@) =~= Set::<Seq<char>>::empty());
            Ok(PossibleSolutions::Exactly(v))
        }
    } else {
        match constant {
            Some(c) => {
                let mut v: Vec<BvSolution> = Vec::new();
                if sat()? {
                    v.push(c);
                }
                Ok(PossibleSolutions::Exactly(v))
            },
            None => {
                let mut solutions: Vec<BvSolution> = Vec::new();
                assert(views_of(solutions@) =~= Set::<Seq<char>>::empty());
                check_for_common_solutions(width, n, &can_be, &mut solutions)?;
                if solutions.len() > n {
                    return Ok(PossibleSolutions::AtLeast(solutions));
                }
                while solutions.len() <= n
                    invariant
                        constant is None,
                        solutions@.len() <= n + 1,
                        distinct_solutions(solutions@),
                        forall|ex: Vec<BvSolution>| #[trigger] another.requires((&ex,)),
                        forall|fs: Set<Seq<char>>| #[trigger] consistent_solutions(sat, can_be, another, fs) ==> views_of(solutions@).subset_of(fs),
                    decreases n + 1 - solutions@.len(),
                {
                    match another(&solutions)? {
                        Some(val) => {
                            let ghost before = solutions@;
                            let mut fresh = true;
                            let mut i: usize = 0;
                            while i < solutions.len()
                                invariant
                                    i <= solutions@.len(),
                                    solutions@ == before,
                                    fresh == forall|j: int| 0 <= j < i ==> solutions@[j]@ != val@,
                                decreases solutions@.len() - i,
                            {
                                if solutions[i].same_as(&val) {
                                    fresh = false;
                                }
                                i = i + 1;
                            }
                            if !fresh {
                                // the oracle repeated a solution: it answers inconsistently
                                proof {
                                    assert forall|fs: Set<Seq<char>>| #[trigger] consistent_solutions(sat, can_be, another, fs) implies false by {
                                        let j = choose|j: int| 0 <= j < solutions@.len() && solutions@[j]@ == val@;
                                        assert(views_of(solutions@).contains(val@));
                                    }
                                }
                                return Ok(PossibleSolutions::Exactly(solutions));
                            }
                            insert_solution(&mut solutions, val);
                            proof {
                                assert(!views_of(before).contains(val@));
                                assert forall|fs: Set<Seq<char>>| #[trigger] consistent_solutions(sat, can_be, another, fs) implies views_of(solutions@).subset_of(fs) by {
                                    assert(fs.contains(val@));
                                }
                            }
                        },
                        None => {
                            proof {
                                assert forall|fs: Set<Seq<char>>| #[trigger] consistent_solutions(sat, can_be, another, fs) implies views_of(solutions@) == fs by {
                                    assert(views_of(solutions@) =~= fs);
                                }
                            }
                            return Ok(PossibleSolutions::Exactly(solutions));
                        },
                    }
                }
                Ok(PossibleSolutions::AtLeast(solutions))
            },
        }
    }
}

} // verus!
