//! The length of a `memcpy`, `memset` or `memmove` whose length operand may
//! be symbolic: either one concrete length, chosen by the `Concretize`
//! policy, or a symbolic length.
//!
//! The solver is reached through oracles, each a closure that answers one
//! kind of query about the set of lengths still possible. The contracts
//! speak of that set: what each oracle answers about it, and what length is
//! chosen from it.

use vstd::prelude::*;

use crate::config::Concretize;
use crate::decimal::{decimal, message_with_number, to_decimal};
use crate::error::{Error, Result};
use crate::solver_utils::{answers_check, answers_query, is_max_of, is_min_of, PossibleSolutions};

verus! {

/// How long a memory operation is.
#[derive(PartialEq, Eq, Clone, Copy, Debug)]
pub enum MemcpyLength {
    /// Use this concrete value as the length, in bytes
    Concrete(u64),
    /// The length has a symbolic, i.e. non-constant, value
    Symbolic,
}

/// The lengths in `fs` no larger than `max`, where there is a `max`.
pub open spec fn bounded(fs: Set<u64>, max: Option<u64>) -> Set<u64> {
    match max {
        Some(m) => fs.filter(|s: u64| s <= m),
        None => fs,
    }
}

/// The first of `cands` no larger than `m`.
pub open spec fn first_within(cands: Seq<u64>, m: u64) -> Option<u64>
    decreases cands.len(),
{
    if cands.len() == 0 {
        None
    } else if cands[0] <= m {
        Some(cands[0])
    } else {
        first_within(cands.drop_first(), m)
    }
}

/// `ps` is what a query for up to one solution answers when `fs` is the set
/// of possible values: all of them (at most one), or at least two of them.
pub open spec fn describes(ps: PossibleSolutions<u64>, fs: Set<u64>) -> bool {
    match ps {
        PossibleSolutions::Exactly(v) => v@.to_set() == fs && v@.len() <= 1,
        PossibleSolutions::AtLeast(v) => v@.to_set().subset_of(fs) && v@.len() >= 2,
    }
}

/// `f` answers the nullary query for an optional value with one that
/// satisfies `p` whenever it succeeds.
pub open spec fn answers_option<F: Fn() -> Result<Option<u64>>>(f: F, p: spec_fn(Option<u64>) -> bool) -> bool {
    forall|r: Result<Option<u64>>| #[trigger] f.ensures((), r) ==> (r matches Ok(o) ==> p(o))
}

/// The oracles that answer about the lengths once bounded: `any_solution`
/// gives one of them, `minimum` and `maximum` the least and the greatest,
/// `can_be` tests one, `sat` tests whether there is any, and `resolve` asks
/// for up to one of them.
pub open spec fn bounded_oracles_agree<A, Mn, Mx, E, S, R>(
    fb: Set<u64>,
    any_solution: A,
    minimum: Mn,
    maximum: Mx,
    can_be: E,
    sat: S,
    resolve: R,
) -> bool where
    A: Fn() -> Result<Option<u64>>,
    Mn: Fn() -> Result<Option<u64>>,
    Mx: Fn() -> Result<Option<u64>>,
    E: Fn(u64) -> Result<bool>,
    S: Fn() -> Result<bool>,
    R: Fn() -> Result<PossibleSolutions<u64>>,
 {
    &&& answers_option(
        any_solution,
        |o: Option<u64>|
            match o {
                Some(x) => fb.contains(x),
                None => fb.is_empty(),
            },
    )
    &&& answers_option(minimum, |o: Option<u64>| is_min_of(o, fb))
    &&& answers_option(maximum, |o: Option<u64>| is_max_of(o, fb))
    &&& answers_query(can_be, |v: u64| fb.contains(v))
    &&& answers_check(sat, !fb.is_empty())
    &&& forall|r: Result<PossibleSolutions<u64>>| #[trigger] resolve.ensures((), r) ==> (r matches Ok(ps) ==> describes(ps, fb))
}

/// `len` is a length that the policy `c` may choose from the lengths `fb`,
/// given the candidates `cands` that a query for possible solutions found.
pub open spec fn chosen(c: Concretize, fb: Set<u64>, cands: Seq<u64>, max: Option<u64>, len: MemcpyLength) -> bool
    decreases c,
{
    match c {
        Concretize::Symbolic => len is Symbolic,
        Concretize::Arbitrary => len matches MemcpyLength::Concrete(x) && fb.contains(x) && match max {
            None => x == cands[0],
            Some(m) => first_within(cands, m) matches Some(y) ==> x == y,
        },
        Concretize::Minimum => len matches MemcpyLength::Concrete(x) && is_min_of(Some(x), fb),
        Concretize::Maximum => len matches MemcpyLength::Concrete(x) && is_max_of(Some(x), fb),
        Concretize::Prefer(v, backup) => if fb.contains(v) {
            len == MemcpyLength::Concrete(v)
        } else {
            ||| len matches MemcpyLength::Concrete(x) && fb == set![x]
            ||| chosen_by_backup(*backup, fb, len)
        },
    }
}

/// `len` is a length that the policy `c` may choose from the lengths `fb`,
/// whatever candidates were found: `chosen` where the candidates found are
/// not known, as for a backup policy, which is applied to candidates found
/// afresh.
pub open spec fn chosen_by_backup(c: Concretize, fb: Set<u64>, len: MemcpyLength) -> bool
    decreases c,
{
    match c {
        Concretize::Symbolic => len is Symbolic,
        Concretize::Arbitrary => len matches MemcpyLength::Concrete(x) && fb.contains(x),
        Concretize::Minimum => len matches MemcpyLength::Concrete(x) && is_min_of(Some(x), fb),
        Concretize::Maximum => len matches MemcpyLength::Concrete(x) && is_max_of(Some(x), fb),
        Concretize::Prefer(v, backup) => if fb.contains(v) {
            len == MemcpyLength::Concrete(v)
        } else {
            ||| len matches MemcpyLength::Concrete(x) && fb == set![x]
            ||| chosen_by_backup(*backup, fb, len)
        },
    }
}

/// What a policy chooses from some candidates, it may choose from any.
proof fn lemma_chosen_by_backup(c: Concretize, fb: Set<u64>, cs: Seq<u64>, max: Option<u64>, len: MemcpyLength)
    requires
        chosen(c, fb, cs, max, len),
    ensures
        chosen_by_backup(c, fb, len),
{
}

/// The error for a length known exactly but larger than the largest
/// allowed.
pub open spec fn exact_too_long_message(len: u64, max: u64) -> Seq<char> {
    "Encountered a memcpy/memset/memmove of length exactly "@ + decimal(len as nat) + " bytes, larger than max_memcpy_length "@
        + decimal(max as nat) + " bytes"@
}

/// The error for lengths all larger than the largest allowed.
pub open spec fn all_too_long_message(max: u64, one: u64) -> Seq<char> {
    "Encountered a memcpy/memset/memmove with multiple possible lengths, but all of them are larger than max_memcpy_length "@
        + decimal(max as nat) + " bytes. One possible length is "@ + decimal(one as nat) + " bytes."@
}

fn exact_too_long(len: u64, max: u64) -> (e: Error)
    ensures
        e matches Error::OtherError(m) && m@ == exact_too_long_message(len, max),
{
    let mut m = message_with_number(
        "Encountered a memcpy/memset/memmove of length exactly ",
        len,
        " bytes, larger than max_memcpy_length ",
    );
    m.append(to_decimal(max).as_str());
    m.append(" bytes");
    Error::OtherError(m)
}

fn all_too_long(max: u64, one: u64) -> (e: Error)
    ensures
        e matches Error::OtherError(m) && m@ == all_too_long_message(max, one),
{
    let mut m = message_with_number(
        "Encountered a memcpy/memset/memmove with multiple possible lengths, but all of them are larger than max_memcpy_length ",
        max,
        " bytes. One possible length is ",
    );
    m.append(to_decimal(one).as_str());
    m.append(" bytes.");
    Error::OtherError(m)
}

/// The outcome where the length is known exactly to be one of `v`: unsat
/// where `v` is empty, else its length, unless that is larger than `max`.
pub open spec fn exact_outcome(r: Result<(MemcpyLength, bool)>, v: Seq<u64>, max: Option<u64>) -> bool {
    if v.len() == 0 {
        r matches Err(Error::Unsat)
    } else if max is Some && v[0] > max->0 {
        r matches Err(Error::OtherError(msg)) && msg@ == exact_too_long_message(v[0], max->0)
    } else {
        r == Ok::<(MemcpyLength, bool), Error>((MemcpyLength::Concrete(v[0]), false))
    }
}

/// `e` is the error that all the lengths `fs` are larger than `max`, naming
/// `one` of them.
pub open spec fn all_too_long_error(e: Error, fs: Set<u64>, max: Option<u64>, one: u64) -> bool {
    if max is Some {
        &&& e matches Error::OtherError(msg) && msg@ == all_too_long_message(max->0, one)
        &&& !(exists|s: u64| #[trigger] fs.contains(s) && s <= max->0)
    } else {
        false
    }
}

/// The first of `cands` no larger than `m`, if any.
fn find_within(cands: &Vec<u64>, m: u64) -> (r: Option<u64>)
    ensures
        r == first_within(cands@, m),
{
    let mut i: usize = 0;
    assert(cands@.subrange(0, cands@.len() as int) =~= cands@);
    while i < cands.len()
        invariant
            0 <= i <= cands.len(),
            first_within(cands@, m) == first_within(cands@.subrange(i as int, cands@.len() as int), m),
        decreases cands.len() - i,
    {
        let ghost rest = cands@.subrange(i as int, cands@.len() as int);
        assert(rest.drop_first() =~= cands@.subrange(i + 1, cands@.len() as int));
        if cands[i] <= m {
            return Some(cands[i]);
        }
        i = i + 1;
    }
    assert(cands@.subrange(i as int, cands@.len() as int).len() == 0);
    None
}


/// `e` is an error that one of the oracles gave.
pub open spec fn oracle_failed<W, B, K, A, Mn, Mx, E, S, R>(
    e: Error,
    any_within: W,
    any_beyond: B,
    constrain: K,
    any_solution: A,
    minimum: Mn,
    maximum: Mx,
    can_be: E,
    sat: S,
    resolve: R,
) -> bool where
    W: Fn() -> Result<bool>,
    B: Fn() -> Result<bool>,
    K: Fn() -> Result<()>,
    A: Fn() -> Result<Option<u64>>,
    Mn: Fn() -> Result<Option<u64>>,
    Mx: Fn() -> Result<Option<u64>>,
    E: Fn(u64) -> Result<bool>,
    S: Fn() -> Result<bool>,
    R: Fn() -> Result<PossibleSolutions<u64>>,
 {
    ||| any_within.ensures((), Err(e))
    ||| any_beyond.ensures((), Err(e))
    ||| constrain.ensures((), Err(e))
    ||| any_solution.ensures((), Err(e))
    ||| minimum.ensures((), Err(e))
    ||| maximum.ensures((), Err(e))
    ||| exists|v: u64| #[trigger] can_be.ensures((v,), Err(e))
    ||| sat.ensures((), Err(e))
    ||| resolve.ensures((), Err(e))
}

/// The oracles agree with `fs`, the lengths possible when the query for up
/// to one solution gave `solutions`: `any_within` and `any_beyond` say
/// whether some length is at most, or above, the largest allowed; the rest
/// answer about the lengths once bounded by it (`constrain` bounds them).
pub open spec fn oracles_agree<W, B, A, Mn, Mx, E, S, R>(
    fs: Set<u64>,
    max: Option<u64>,
    solutions: PossibleSolutions<u64>,
    any_within: W,
    any_beyond: B,
    any_solution: A,
    minimum: Mn,
    maximum: Mx,
    can_be: E,
    sat: S,
    resolve: R,
) -> bool where
    W: Fn() -> Result<bool>,
    B: Fn() -> Result<bool>,
    A: Fn() -> Result<Option<u64>>,
    Mn: Fn() -> Result<Option<u64>>,
    Mx: Fn() -> Result<Option<u64>>,
    E: Fn(u64) -> Result<bool>,
    S: Fn() -> Result<bool>,
    R: Fn() -> Result<PossibleSolutions<u64>>,
 {
    &&& describes(solutions, fs)
    &&& max matches Some(m) ==> {
        &&& answers_check(any_within, exists|s: u64| #[trigger] fs.contains(s) && s <= m)
        &&& answers_check(any_beyond, exists|s: u64| #[trigger] fs.contains(s) && s > m)
    }
    &&& bounded_oracles_agree(bounded(fs, max), any_solution, minimum, maximum, can_be, sat, resolve)
}

/// For a `memcpy`, `memset`, or `memmove` whose length has the possible
/// values answered by `solutions` (a query for up to one solution), decide
/// the length of the operation to perform, following the policy
/// `concretize` and the largest length allowed, `max_memcpy_length`.
///
/// Where the length is known exactly, it is that length, unless it is larger
/// than allowed. Otherwise lengths larger than allowed are first ruled out
/// (by `constrain`, where some are possible), unless all are, and a length
/// is chosen by the policy. The second component of the result says whether
/// the caller must now constrain the length to the chosen one.
pub fn get_memcpy_length<W, B, K, A, Mn, Mx, E, S, R>(
    concretize: &Concretize,
    max_memcpy_length: Option<u64>,
    solutions: PossibleSolutions<u64>,
    any_within: W,
    any_beyond: B,
    constrain: K,
    any_solution: A,
    minimum: Mn,
    maximum: Mx,
    can_be: E,
    sat: S,
    resolve: R,
) -> (r: Result<(MemcpyLength, bool)>) where
    W: Fn() -> Result<bool>,
    B: Fn() -> Result<bool>,
    K: Fn() -> Result<()>,
    A: Fn() -> Result<Option<u64>>,
    Mn: Fn() -> Result<Option<u64>>,
    Mx: Fn() -> Result<Option<u64>>,
    E: Fn(u64) -> Result<bool>,
    S: Fn() -> Result<bool>,
    R: Fn() -> Result<PossibleSolutions<u64>>,

    requires
        solutions is AtLeast ==> solutions.items().len() >= 2,
        any_within.requires(()),
        any_beyond.requires(()),
        constrain.requires(()),
        any_solution.requires(()),
        minimum.requires(()),
        maximum.requires(()),
        forall|v: u64| #[trigger] can_be.requires((v,)),
        sat.requires(()),
        resolve.requires(()),
    ensures
        solutions matches PossibleSolutions::Exactly(v) ==> exact_outcome(r, v@, max_memcpy_length),
        forall|fs: Set<u64>|
            #[trigger] oracles_agree(
                fs,
                max_memcpy_length,
                solutions,
                any_within,
                any_beyond,
                any_solution,
                minimum,
                maximum,
                can_be,
                sat,
                resolve,
            ) && solutions is AtLeast ==> {
                &&& r matches Ok((len, pin)) ==> {
                    &&& chosen(*concretize, bounded(fs, max_memcpy_length), solutions.items(), max_memcpy_length, len)
                    &&& pin ==> len is Concrete
                    &&& !pin ==> (len matches MemcpyLength::Concrete(x) ==> bounded(fs, max_memcpy_length) == set![x])
                }
                &&& r matches Err(e) ==> {
                    ||| oracle_failed(e, any_within, any_beyond, constrain, any_solution, minimum, maximum, can_be, sat, resolve)
                    ||| all_too_long_error(e, fs, max_memcpy_length, solutions.items()[0])
                }
            },
{
    let cands = match solutions {
        PossibleSolutions::Exactly(v) => {
            if v.len() == 0 {
                return Err(Error::Unsat);
            }
            let single_val = v[0];
            if let Some(m) = max_memcpy_length {
                if single_val > m {
                    return Err(exact_too_long(single_val, m));
                }
            }
            return Ok((MemcpyLength::Concrete(single_val), false));
        },
        PossibleSolutions::AtLeast(v) => v,
    };
    let ghost cs = cands@;
    if let Some(m) = max_memcpy_length {
        match any_within() {
            Ok(true) => {},
            Ok(false) => {
                return Err(all_too_long(m, cands[0]));
            },
            Err(e) => {
                return Err(e);
            },
        }
        match any_beyond() {
            Ok(true) => match constrain() {
                Ok(()) => {},
                Err(e) => {
                    return Err(e);
                },
            },
            Ok(false) => {},
            Err(e) => {
                return Err(e);
            },
        }
        let r = choose_length(concretize, max_memcpy_length, cands, any_solution, minimum, maximum, can_be, sat, resolve);
        proof {
            assert forall|fs: Set<u64>|
                #[trigger] oracles_agree(
                    fs,
                    max_memcpy_length,
                    solutions,
                    any_within,
                    any_beyond,
                    any_solution,
                    minimum,
                    maximum,
                    can_be,
                    sat,
                    resolve,
                ) implies candidates_fit(bounded(fs, max_memcpy_length), cs, max_memcpy_length) by {
                let fb = bounded(fs, max_memcpy_length);
                let s0 = choose|s: u64| #[trigger] fs.contains(s) && s <= m;
                assert(fb.contains(s0));
                assert forall|i: int| 0 <= i < cs.len() && cs[i] <= m implies fb.contains(#[trigger] cs[i]) by {
                    assert(cs.to_set().contains(cs[i]));
                }
            }
        }
        r
    } else {
        let r = choose_length(concretize, max_memcpy_length, cands, any_solution, minimum, maximum, can_be, sat, resolve);
        proof {
            assert forall|fs: Set<u64>|
                #[trigger] oracles_agree(
                    fs,
                    max_memcpy_length,
                    solutions,
                    any_within,
                    any_beyond,
                    any_solution,
                    minimum,
                    maximum,
                    can_be,
                    sat,
                    resolve,
                ) implies candidates_fit(bounded(fs, max_memcpy_length), cs, max_memcpy_length) by {
                assert forall|i: int| 0 <= i < cs.len() implies fs.contains(#[trigger] cs[i]) by {
                    assert(cs.to_set().contains(cs[i]));
                }
                assert(fs.contains(cs[0]));
            }
        }
        r
    }
}


/// `e` is an error that one of the oracles about bounded lengths gave.
pub open spec fn bounded_oracle_failed<A, Mn, Mx, E, S, R>(
    e: Error,
    any_solution: A,
    minimum: Mn,
    maximum: Mx,
    can_be: E,
    sat: S,
    resolve: R,
) -> bool where
    A: Fn() -> Result<Option<u64>>,
    Mn: Fn() -> Result<Option<u64>>,
    Mx: Fn() -> Result<Option<u64>>,
    E: Fn(u64) -> Result<bool>,
    S: Fn() -> Result<bool>,
    R: Fn() -> Result<PossibleSolutions<u64>>,
 {
    ||| any_solution.ensures((), Err(e))
    ||| minimum.ensures((), Err(e))
    ||| maximum.ensures((), Err(e))
    ||| exists|v: u64| #[trigger] can_be.ensures((v,), Err(e))
    ||| sat.ensures((), Err(e))
    ||| resolve.ensures((), Err(e))
}

/// The bounded lengths `fb` are not empty, and hold every candidate (every
/// candidate no larger than `max`, where there is a `max`, all of `fb` being
/// no larger).
pub open spec fn candidates_fit(fb: Set<u64>, cands: Seq<u64>, max: Option<u64>) -> bool {
    &&& !fb.is_empty()
    &&& match max {
        None => forall|i: int| 0 <= i < cands.len() ==> fb.contains(#[trigger] cands[i]),
        Some(m) => {
            &&& forall|x: u64| #[trigger] fb.contains(x) ==> x <= m
            &&& forall|i: int| 0 <= i < cands.len() && cands[i] <= m ==> fb.contains(#[trigger] cands[i])
        },
    }
}

/// A first candidate no larger than `m` is one of the candidates.
proof fn lemma_first_within(cands: Seq<u64>, m: u64)
    ensures
        first_within(cands, m) matches Some(y) ==> y <= m && exists|i: int| 0 <= i < cands.len() && cands[i] == y,
    decreases cands.len(),
{
    if cands.len() > 0 && cands[0] > m {
        lemma_first_within(cands.drop_first(), m);
        if let Some(y) = first_within(cands.drop_first(), m) {
            let i = choose|i: int| 0 <= i < cands.drop_first().len() && cands.drop_first()[i] == y;
            assert(cands[i + 1] == y);
        }
    }
}

/// Choose a length from the bounded lengths by the policy `concretize`,
/// given the candidates `cands` a query for possible solutions found. The
/// second component of the result says whether the caller must constrain
/// the length to the chosen one.
fn choose_length<A, Mn, Mx, E, S, R>(
    concretize: &Concretize,
    max: Option<u64>,
    cands: Vec<u64>,
    any_solution: A,
    minimum: Mn,
    maximum: Mx,
    can_be: E,
    sat: S,
    resolve: R,
) -> (r: Result<(MemcpyLength, bool)>) where
    A: Fn() -> Result<Option<u64>>,
    Mn: Fn() -> Result<Option<u64>>,
    Mx: Fn() -> Result<Option<u64>>,
    E: Fn(u64) -> Result<bool>,
    S: Fn() -> Result<bool>,
    R: Fn() -> Result<PossibleSolutions<u64>>,

    requires
        cands@.len() >= 1,
        any_solution.requires(()),
        minimum.requires(()),
        maximum.requires(()),
        forall|v: u64| #[trigger] can_be.requires((v,)),
        sat.requires(()),
        resolve.requires(()),
    ensures
        forall|fb: Set<u64>|
            #[trigger] bounded_oracles_agree(fb, any_solution, minimum, maximum, can_be, sat, resolve) && candidates_fit(
                fb,
                cands@,
                max,
            ) ==> {
                &&& r matches Ok((len, pin)) ==> {
                    &&& chosen(*concretize, fb, cands@, max, len)
                    &&& pin ==> len is Concrete
                    &&& !pin ==> (len matches MemcpyLength::Concrete(x) ==> fb == set![x])
                }
                &&& r matches Err(e) ==> bounded_oracle_failed(e, any_solution, minimum, maximum, can_be, sat, resolve)
            },
{
    let mut cur: &Concretize = concretize;
    let mut cs: Vec<u64> = cands;
    let ghost cands0 = cs@;
    loop
        invariant
            cs@.len() >= 1,
            cands0 == cands@,
            any_solution.requires(()),
            minimum.requires(()),
            maximum.requires(()),
            forall|v: u64| #[trigger] can_be.requires((v,)),
            sat.requires(()),
            resolve.requires(()),
            forall|fb: Set<u64>|
                #[trigger] bounded_oracles_agree(fb, any_solution, minimum, maximum, can_be, sat, resolve) && candidates_fit(
                    fb,
                    cands0,
                    max,
                ) ==> {
                    &&& candidates_fit(fb, cs@, max)
                    &&& forall|len: MemcpyLength| #[trigger] chosen(*cur, fb, cs@, max, len) ==> chosen(*concretize, fb, cands0, max, len)
                },
        ensures
            forall|fb: Set<u64>|
                #[trigger] bounded_oracles_agree(fb, any_solution, minimum, maximum, can_be, sat, resolve) && candidates_fit(
                    fb,
                    cands0,
                    max,
                ) ==> false,
        decreases cur,
    {
        let ghost c0 = *cur;
        let ghost cs0 = cs@;
        // what `cur` chooses, where it chooses a length that needs pinning
        let x: u64 = match cur {
            Concretize::Symbolic => {
                assert forall|fb: Set<u64>|
                    #[trigger] bounded_oracles_agree(fb, any_solution, minimum, maximum, can_be, sat, resolve) && candidates_fit(
                        fb,
                        cands0,
                        max,
                    ) implies chosen(*concretize, fb, cands0, max, MemcpyLength::Symbolic) by {
                    assert(chosen(c0, fb, cs0, max, MemcpyLength::Symbolic));
                }
                return Ok((MemcpyLength::Symbolic, false));
            },
            Concretize::Arbitrary => match max {
                None => {
                    let y = cs[0];
                    assert forall|fb: Set<u64>|
                        #[trigger] bounded_oracles_agree(fb, any_solution, minimum, maximum, can_be, sat, resolve)
                            && candidates_fit(fb, cands0, max) implies chosen(*concretize, fb, cands0, max, MemcpyLength::Concrete(y)) by {
                        assert(fb.contains(cs0[0]));
                        assert(chosen(c0, fb, cs0, max, MemcpyLength::Concrete(y)));
                    }
                    y
                },
                Some(m) => match find_within(&cs, m) {
                    Some(y) => {
                        proof {
                            lemma_first_within(cs@, m);
                            let i = choose|i: int| 0 <= i < cs0.len() && cs0[i] == y;
                            assert forall|fb: Set<u64>|
                                #[trigger] bounded_oracles_agree(fb, any_solution, minimum, maximum, can_be, sat, resolve)
                                    && candidates_fit(fb, cands0, max) implies chosen(*concretize, fb, cands0, max, MemcpyLength::Concrete(y)) by {
                                assert(fb.contains(cs0[i]));
                                assert(chosen(c0, fb, cs0, max, MemcpyLength::Concrete(y)));
                            }
                        }
                        y
                    },
                    None => match any_solution() {
                        Ok(Some(y)) => {
                            assert forall|fb: Set<u64>|
                                #[trigger] bounded_oracles_agree(fb, any_solution, minimum, maximum, can_be, sat, resolve)
                                    && candidates_fit(fb, cands0, max) implies chosen(*concretize, fb, cands0, max, MemcpyLength::Concrete(y)) by {
                                assert(chosen(c0, fb, cs0, max, MemcpyLength::Concrete(y)));
                            }
                            y
                        },
                        Ok(None) => {
                            return Err(Error::Unsat);
                        },
                        Err(e) => {
                            return Err(e);
                        },
                    },
                },
            },
            Concretize::Minimum => match minimum() {
                Ok(Some(y)) => {
                    assert forall|fb: Set<u64>|
                        #[trigger] bounded_oracles_agree(fb, any_solution, minimum, maximum, can_be, sat, resolve)
                            && candidates_fit(fb, cands0, max) implies chosen(*concretize, fb, cands0, max, MemcpyLength::Concrete(y)) by {
                        assert(chosen(c0, fb, cs0, max, MemcpyLength::Concrete(y)));
                    }
                    y
                },
                Ok(None) => {
                    return Err(Error::Unsat);
                },
                Err(e) => {
                    return Err(e);
                },
            },
            Concretize::Maximum => match maximum() {
                Ok(Some(y)) => {
                    assert forall|fb: Set<u64>|
                        #[trigger] bounded_oracles_agree(fb, any_solution, minimum, maximum, can_be, sat, resolve)
                            && candidates_fit(fb, cands0, max) implies chosen(*concretize, fb, cands0, max, MemcpyLength::Concrete(y)) by {
                        assert(chosen(c0, fb, cs0, max, MemcpyLength::Concrete(y)));
                    }
                    y
                },
                Ok(None) => {
                    return Err(Error::Unsat);
                },
                Err(e) => {
                    return Err(e);
                },
            },
            Concretize::Prefer(val, backup) => {
                let v = *val;
                match can_be(v) {
                    Ok(true) => {
                        assert forall|fb: Set<u64>|
                            #[trigger] bounded_oracles_agree(fb, any_solution, minimum, maximum, can_be, sat, resolve)
                                && candidates_fit(fb, cands0, max) implies chosen(*concretize, fb, cands0, max, MemcpyLength::Concrete(v)) by {
                            assert(fb.contains(v));
                            assert(chosen(c0, fb, cs0, max, MemcpyLength::Concrete(v)));
                        }
                        v
                    },
                    Ok(false) => {
                        match sat() {
                            Ok(true) => {},
                            Ok(false) => {
                                return Err(Error::Unsat);
                            },
                            Err(e) => {
                                return Err(e);
                            },
                        }
                        match resolve() {
                            Ok(PossibleSolutions::Exactly(v2)) => {
                                if v2.len() == 0 {
                                    return Err(Error::Unsat);
                                }
                                let y = v2[0];
                                if let Some(m) = max {
                                    if y > m {
                                        return Err(exact_too_long(y, m));
                                    }
                                }
                                proof {
                                    assert forall|fb: Set<u64>|
                                        #[trigger] bounded_oracles_agree(fb, any_solution, minimum, maximum, can_be, sat, resolve)
                                            && candidates_fit(fb, cands0, max) implies fb == set![y] && chosen(
                                        *concretize,
                                        fb,
                                        cands0,
                                        max,
                                        MemcpyLength::Concrete(y),
                                    ) by {
                                        assert(v2@ =~= seq![y]);
                                        assert(seq![y].to_set() =~= set![y]) by {
                                            assert(seq![y].contains(y));
                                        }
                                        assert(!fb.contains(v));
                                        assert(chosen(c0, fb, cs0, max, MemcpyLength::Concrete(y)));
                                    }
                                }
                                return Ok((MemcpyLength::Concrete(y), false));
                            },
                            Ok(PossibleSolutions::AtLeast(v2)) => {
                                if v2.len() == 0 {
                                    return Err(Error::Unsat);
                                }
                                let b: &Concretize = backup;
                                proof {
                                    assert forall|fb: Set<u64>|
                                        #[trigger] bounded_oracles_agree(fb, any_solution, minimum, maximum, can_be, sat, resolve)
                                            && candidates_fit(fb, cands0, max) implies {
                                        &&& candidates_fit(fb, v2@, max)
                                        &&& forall|len: MemcpyLength| #[trigger] chosen(*b, fb, v2@, max, len) ==> chosen(*concretize, fb, cands0, max, len)
                                    } by {
                                        assert(!fb.contains(v));
                                        assert(v2@.len() >= 2 && v2@.to_set().subset_of(fb));
                                        assert forall|i: int| 0 <= i < v2@.len() implies fb.contains(#[trigger] v2@[i]) by {
                                            assert(v2@.to_set().contains(v2@[i]));
                                        }
                                        assert forall|len: MemcpyLength| #[trigger] chosen(*b, fb, v2@, max, len) implies chosen(
                                            *concretize,
                                            fb,
                                            cands0,
                                            max,
                                            len,
                                        ) by {
                                            assert(c0 == Concretize::Prefer(v, *backup));
                                            lemma_chosen_by_backup(**backup, fb, v2@, max, len);
                                            assert(chosen(c0, fb, cs0, max, len));
                                        }
                                    }
                                }
                                cur = b;
                                cs = v2;
                                continue;
                            },
                            Err(e) => {
                                return Err(e);
                            },
                        }
                    },
                    Err(e) => {
                        return Err(e);
                    },
                }
            },
        };
        return Ok((MemcpyLength::Concrete(x), true));
    }
}

} // verus!
