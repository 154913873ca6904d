//! Options that govern how symbolic execution treats null pointers and
//! symbolic memcpy lengths.

use vstd::prelude::*;

verus! {

/// Enum used for the `null_pointer_checking` option in `Config`.
#[derive(PartialEq, Eq, Clone, Debug)]
pub enum NullPointerChecking {
    /// All memory accesses will be checked to ensure their addresses cannot be
    /// `NULL`. If `NULL` is a possible solution for the address of a memory
    /// access, we will return `Error::NullPointerDereference` and not continue
    /// along the path.
    Simple,
    /// All memory accesses will be checked to ensure their addresses cannot be
    /// `NULL`. If `NULL` is a possible solution for the address of a memory
    /// access, but not the only possible solution, we will split into two paths:
    /// one in which the address is constrained to be `NULL`, and which returns
    /// `Error::NullPointerDereference`; and another in which the address is
    /// constrained to be non-`NULL`, and which will continue execution.
    SplitPath,
    /// Memory accesses will not be checked for `NULL` addresses. This may result
    /// in fewer solver queries and thus improved performance for some workloads.
    Disabled,
}

/// Enum used for the `concretize_memcpy_lengths` option in `Config`.
#[derive(PartialEq, Eq, Debug)]
pub enum Concretize {
    /// Handle everything fully symbolically - that is, have the solver fully
    /// consider all possible values. This may lead to poor solver performance
    /// for some workloads.
    Symbolic,
    /// Pick one possible value arbitrarily. Often this may choose `0` if `0` is
    /// a possible solution, but this behavior is not guaranteed. (To guarantee
    /// this behavior, use `Prefer(0)`.)
    ///
    /// The value will be permanently constrained to be the chosen value (on this
    /// path), and other possibilities will not be considered.
    Arbitrary,
    /// Prefer the given `u64` value if it is a possible value. Otherwise, fall
    /// back on the given `Concretize` strategy.
    ///
    /// If the given `u64` value is a possible value, then the value will be
    /// permanently constrained to be that value (on this path), and other
    /// possibilities will not be considered.
    Prefer(u64, Box<Concretize>),
    /// Choose the maximum possible value. `Maximum` will be interpreted in an
    /// unsigned fashion.
    ///
    /// The value will be permanently constrained to be this value (on this
    /// path), and other possibilities will not be considered.
    Maximum,
    /// Choose the minimum possible value. `Minimum` will be interpreted in an
    /// unsigned fashion.
    ///
    /// The value will be permanently constrained to be this value (on this
    /// path), and other possibilities will not be considered.
    Minimum,
}

impl Clone for Concretize {
    fn clone(&self) -> (r: Self)
        ensures
            r == *self,
        decreases self,
    {
        match self {
            Concretize::Symbolic => Concretize::Symbolic,
            Concretize::Arbitrary => Concretize::Arbitrary,
            Concretize::Prefer(v, backup) => {
                let b: &Concretize = backup;
                Concretize::Prefer(*v, Box::new(b.clone()))
            },
            Concretize::Maximum => Concretize::Maximum,
            Concretize::Minimum => Concretize::Minimum,
        }
    }
}

} // verus!
