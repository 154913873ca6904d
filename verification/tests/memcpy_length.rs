//! Deciding the length of a memory operation, with the solver answered from a
//! concrete set of possible lengths.

use haybale::config::Concretize;
use haybale::memcpy_length::{get_memcpy_length, MemcpyLength};
use haybale::solver_utils::PossibleSolutions;
use haybale::Error;
use std::cell::Cell;

/// Decide the length where the possible lengths are `fs` and the query for
/// up to one solution found `cands`; also says whether the lengths were
/// constrained to the largest allowed.
fn decide(
    concretize: &Concretize,
    max: Option<u64>,
    fs: &[u64],
    solutions: PossibleSolutions<u64>,
) -> (haybale::Result<(MemcpyLength, bool)>, bool) {
    let constrained = Cell::new(false);
    let bounded: Vec<u64> = fs.iter().copied().filter(|s| max.map_or(true, |m| *s <= m)).collect();
    let r = get_memcpy_length(
        concretize,
        max,
        solutions,
        || Ok(fs.iter().any(|s| *s <= max.unwrap())),
        || Ok(fs.iter().any(|s| *s > max.unwrap())),
        || {
            constrained.set(true);
            Ok(())
        },
        || Ok(bounded.first().copied()),
        || Ok(bounded.iter().copied().min()),
        || Ok(bounded.iter().copied().max()),
        |v| Ok(bounded.contains(&v)),
        || Ok(!bounded.is_empty()),
        || {
            if bounded.len() <= 1 {
                Ok(PossibleSolutions::Exactly(bounded.clone()))
            } else {
                Ok(PossibleSolutions::AtLeast(bounded[..2].to_vec()))
            }
        },
    );
    (r, constrained.get())
}

fn at_least(v: &[u64]) -> PossibleSolutions<u64> {
    PossibleSolutions::AtLeast(v.to_vec())
}

#[test]
fn exact_length_is_taken() {
    let (r, _) = decide(&Concretize::Symbolic, None, &[5], PossibleSolutions::Exactly(vec![5]));
    assert_eq!(r.unwrap(), (MemcpyLength::Concrete(5), false));
    let (r, _) = decide(&Concretize::Symbolic, Some(5), &[5], PossibleSolutions::Exactly(vec![5]));
    assert_eq!(r.unwrap(), (MemcpyLength::Concrete(5), false));
}

#[test]
fn exact_length_too_long() {
    let (r, _) = decide(&Concretize::Arbitrary, Some(4), &[5], PossibleSolutions::Exactly(vec![5]));
    match r {
        Err(Error::OtherError(m)) => assert_eq!(
            m,
            "Encountered a memcpy/memset/memmove of length exactly 5 bytes, larger than max_memcpy_length 4 bytes"
        ),
        other => panic!("unexpected {:?}", other),
    }
}

#[test]
fn no_possible_length_is_unsat() {
    let (r, _) = decide(&Concretize::Arbitrary, None, &[], PossibleSolutions::Exactly(vec![]));
    assert!(matches!(r, Err(Error::Unsat)));
}

#[test]
fn minimum_and_maximum_policies() {
    let fs = [3, 9, 12];
    let (r, c) = decide(&Concretize::Minimum, None, &fs, at_least(&[9, 3]));
    assert_eq!(r.unwrap(), (MemcpyLength::Concrete(3), true));
    assert!(!c);
    let (r, _) = decide(&Concretize::Maximum, None, &fs, at_least(&[9, 3]));
    assert_eq!(r.unwrap(), (MemcpyLength::Concrete(12), true));
    // with a largest length allowed, the lengths beyond it are ruled out first
    let (r, c) = decide(&Concretize::Maximum, Some(10), &fs, at_least(&[9, 3]));
    assert_eq!(r.unwrap(), (MemcpyLength::Concrete(9), true));
    assert!(c);
}

#[test]
fn arbitrary_policy_takes_a_candidate() {
    let fs = [3, 9, 12];
    let (r, _) = decide(&Concretize::Arbitrary, None, &fs, at_least(&[9, 3]));
    assert_eq!(r.unwrap(), (MemcpyLength::Concrete(9), true));
    let (r, _) = decide(&Concretize::Arbitrary, Some(5), &fs, at_least(&[9, 3]));
    assert_eq!(r.unwrap(), (MemcpyLength::Concrete(3), true));
    // no candidate is small enough: some possible length that is
    let (r, _) = decide(&Concretize::Arbitrary, Some(10), &fs, at_least(&[12, 12]));
    assert_eq!(r.unwrap(), (MemcpyLength::Concrete(3), true));
}

#[test]
fn prefer_policy() {
    let fs = [3, 9];
    let prefer = |v, backup| Concretize::Prefer(v, Box::new(backup));
    let (r, _) = decide(&prefer(9, Concretize::Symbolic), None, &fs, at_least(&[3, 9]));
    assert_eq!(r.unwrap(), (MemcpyLength::Concrete(9), true));
    let (r, _) = decide(&prefer(7, Concretize::Symbolic), None, &fs, at_least(&[3, 9]));
    assert_eq!(r.unwrap(), (MemcpyLength::Symbolic, false));
    let (r, _) = decide(&prefer(7, Concretize::Maximum), None, &fs, at_least(&[3, 9]));
    assert_eq!(r.unwrap(), (MemcpyLength::Concrete(9), true));
    let (r, _) = decide(&prefer(7, prefer(3, Concretize::Maximum)), None, &fs, at_least(&[3, 9]));
    assert_eq!(r.unwrap(), (MemcpyLength::Concrete(3), true));
    // once bounded, one length is left: it is taken as it is
    let (r, c) = decide(&prefer(7, Concretize::Symbolic), Some(5), &fs, at_least(&[3, 9]));
    assert_eq!(r.unwrap(), (MemcpyLength::Concrete(3), false));
    assert!(c);
}

#[test]
fn symbolic_policy() {
    let (r, _) = decide(&Concretize::Symbolic, None, &[1, 2, 3], at_least(&[1, 2]));
    assert_eq!(r.unwrap(), (MemcpyLength::Symbolic, false));
}

#[test]
fn all_lengths_too_long() {
    let (r, c) = decide(&Concretize::Minimum, Some(2), &[3, 9], at_least(&[9, 3]));
    match r {
        Err(Error::OtherError(m)) => assert_eq!(
            m,
            "Encountered a memcpy/memset/memmove with multiple possible lengths, but all of them are larger than max_memcpy_length 2 bytes. One possible length is 9 bytes."
        ),
        other => panic!("unexpected {:?}", other),
    }
    assert!(!c);
}

#[test]
fn solver_errors_pass_through() {
    let r = get_memcpy_length(
        &Concretize::Minimum,
        None,
        at_least(&[1, 2]),
        || Ok(true),
        || Ok(false),
        || Ok(()),
        || Ok(Some(1)),
        || Err(Error::SolverError("timeout".to_owned())),
        || Ok(Some(2)),
        |_| Ok(true),
        || Ok(true),
        || Ok(at_least(&[1, 2])),
    );
    assert!(matches!(r, Err(Error::SolverError(_))));
}
