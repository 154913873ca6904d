//! Concrete values found for the inputs of a function.

use vstd::prelude::*;

verus! {

/// A simple enum describing either an integer value or a pointer
#[derive(PartialEq, Eq, Clone, Copy, Debug)]
pub enum SolutionValue {
    I8(i8),
    I16(i16),
    I32(i32),
    I64(i64),
    Ptr(u64),
}

impl SolutionValue {
    /// The value held, which must be an `I8`.
    pub fn unwrap_to_i8(self) -> (r: i8)
        requires
            self is I8,
        ensures
            r == self->I8_0,
    {
        match self {
            SolutionValue::I8(i) => i,
            _ => { proof { assert(false); } 0 },
        }
    }

    /// The value held, which must be an `I16`.
    pub fn unwrap_to_i16(self) -> (r: i16)
        requires
            self is I16,
        ensures
            r == self->I16_0,
    {
        match self {
            SolutionValue::I16(i) => i,
            _ => { proof { assert(false); } 0 },
        }
    }

    /// The value held, which must be an `I32`.
    pub fn unwrap_to_i32(self) -> (r: i32)
        requires
            self is I32,
        ensures
            r == self->I32_0,
    {
        match self {
            SolutionValue::I32(i) => i,
            _ => { proof { assert(false); } 0 },
        }
    }

    /// The value held, which must be an `I64`.
    pub fn unwrap_to_i64(self) -> (r: i64)
        requires
            self is I64,
        ensures
            r == self->I64_0,
    {
        match self {
            SolutionValue::I64(i) => i,
            _ => { proof { assert(false); } 0 },
        }
    }

    /// The value held, which must be a `Ptr`.
    pub fn unwrap_to_ptr(self) -> (r: u64)
        requires
            self is Ptr,
        ensures
            r == self->Ptr_0,
    {
        match self {
            SolutionValue::Ptr(u) => u,
            _ => { proof { assert(false); } 0 },
        }
    }
}

} // verus!
