//! The decisions of the search for arguments on which a function returns
//! zero: what to do with each path the engine finishes, and how the values
//! found for the parameters are reported.
//!
//! The engine runs the paths and the solver answers the queries; this module
//! decides, for each outcome handed to it, whether the path is skipped, its
//! return value tested for zero, or the search failed.

use vstd::prelude::*;

use crate::error::{Error, Result};
use crate::layout::{LlvmType, NESTING_BOUND};
use crate::project::Project;
use crate::return_value::ReturnValue;
use crate::return_values::solution_value_for;
use crate::solution_value::SolutionValue;

verus! {

/// What the search does with a finished path.
#[derive(PartialEq, Eq, Structural, Clone, Copy, Debug)]
pub enum PathStep {
    /// Look at the next path: this one threw, aborted or ran past the loop
    /// bound.
    Skip,
    /// Constrain the path's return value to be zero and ask the solver
    /// whether the path can still be taken; if it can, the search is done.
    TestForZero,
    /// The search fails with the path's error.
    Fail,
}

/// What the search does with a path that ended with `outcome`. A path of a
/// function that returns a value cannot return void.
pub fn zero_search_step<V>(outcome: &Result<ReturnValue<V>>) -> (r: PathStep)
    requires
        !(outcome matches Ok(ReturnValue::ReturnVoid)),
    ensures
        r == match *outcome {
            Ok(ReturnValue::Return(_)) => PathStep::TestForZero,
            Ok(_) => PathStep::Skip,
            Err(Error::LoopBoundExceeded(_)) => PathStep::Skip,
            Err(_) => PathStep::Fail,
        },
{
    match outcome {
        Ok(ReturnValue::Return(_)) => PathStep::TestForZero,
        Ok(_) => PathStep::Skip,
        Err(Error::LoopBoundExceeded(_)) => PathStep::Skip,
        Err(_) => PathStep::Fail,
    }
}

/// The width, in bits, of the return value of a function whose return type
/// is `ret`: an error for a function returning void. The type must have a
/// size in the project, other than zero.
pub fn zero_search_width(proj: &Project, ret: &LlvmType) -> (r: std::result::Result<u32, String>)
    requires
        !(*ret is VoidType) ==> proj.sizable(*ret, NESTING_BOUND as nat) && match proj.size_spec(*ret, NESTING_BOUND as nat) {
            Some(s) => s != 0,
            None => false,
        },
    ensures
        match r {
            Ok(w) => !(*ret is VoidType) && proj.size_spec(*ret, NESTING_BOUND as nat) == Some(w as int),
            Err(m) => *ret is VoidType && m@ == "find_zero_of_func: function has void type"@,
        },
{
    match ret {
        LlvmType::VoidType => Err(String::from_str("find_zero_of_func: function has void type")),
        _ => match proj.size_in_bits(ret) {
            Some(w) => Ok(w),
            None => Ok(0),
        },
    }
}

/// The values found for the parameters, of types `params`, from the
/// solutions `values` the solver gave for them: each read from the low bits
/// of its solution according to its type.
pub fn zero_search_solution(params: &Vec<LlvmType>, values: &Vec<u64>) -> (r: Vec<SolutionValue>)
    requires
        params@.len() == values@.len(),
        forall|i: int|
            0 <= i < params@.len() ==> (#[trigger] params@[i] matches LlvmType::IntegerType(bits) && (bits == 8 || bits
                == 16 || bits == 32 || bits == 64) || params@[i] is PointerType),
    ensures
        r@.len() == params@.len(),
        forall|i: int|
            0 <= i < params@.len() ==> #[trigger] r@[i] == match params@[i] {
                LlvmType::IntegerType(8) => SolutionValue::I8(values@[i] as i8),
                LlvmType::IntegerType(16) => SolutionValue::I16(values@[i] as i16),
                LlvmType::IntegerType(32) => SolutionValue::I32(values@[i] as i32),
                LlvmType::IntegerType(_) => SolutionValue::I64(values@[i] as i64),
                _ => SolutionValue::Ptr(values@[i]),
            },
{
    let mut r: Vec<SolutionValue> = Vec::new();
    let mut i: usize = 0;
    while i < params.len()
        invariant
            params@.len() == values@.len(),
            i <= params@.len(),
            r@.len() == i,
            forall|k: int|
                0 <= k < params@.len() ==> (#[trigger] params@[k] matches LlvmType::IntegerType(bits) && (bits == 8
                    || bits == 16 || bits == 32 || bits == 64) || params@[k] is PointerType),
            forall|k: int|
                0 <= k < i ==> #[trigger] r@[k] == match params@[k] {
                    LlvmType::IntegerType(8) => SolutionValue::I8(values@[k] as i8),
                    LlvmType::IntegerType(16) => SolutionValue::I16(values@[k] as i16),
                    LlvmType::IntegerType(32) => SolutionValue::I32(values@[k] as i32),
                    LlvmType::IntegerType(_) => SolutionValue::I64(values@[k] as i64),
                    _ => SolutionValue::Ptr(values@[k]),
                },
        decreases params@.len() - i,
    {
        let v = solution_value_for(&params[i], values[i]);
        r.push(v);
        i = i + 1;
    }
    r
}

} // verus!
