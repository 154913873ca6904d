//! Error types used throughout this crate, and `BackendResult`, a result that
//! may carry nonfatal warnings.

use vstd::prelude::*;

verus! {

/// Error types used throughout this crate.
#[derive(PartialEq, Eq, Clone, Debug)]
pub enum Error {
    /// While performing an operation, we discovered the current path is unsat.
    Unsat,
    /// The current path has exceeded the configured `loop_bound`.
    /// (The `usize` here indicates the value of the configured `loop_bound`.)
    LoopBoundExceeded(usize),
    /// The current path has attempted to dereference a null pointer (or
    /// more precisely, a pointer for which `NULL` is a possible value)
    NullPointerDereference,
    /// Processing a call of a function with the given name, but failed to find
    /// an LLVM definition, a function hook, or a built-in handler for it
    FunctionNotFound(String),
    /// The solver returned this processing error while evaluating a query.
    SolverError(String),
    /// Encountered an LLVM instruction which is not currently supported
    UnsupportedInstruction(String),
    /// Encountered an LLVM instruction which was malformed, or at least didn't
    /// conform to our expected invariants
    MalformedInstruction(String),
    /// Reached an LLVM `Unreachable` instruction
    UnreachableInstruction,
    /// Failed to interpret some symbolic value as a function pointer, because
    /// it has a possible solution (the `u64` here) which points to something
    /// that's not a function
    FailedToResolveFunctionPointer(u64),
    /// The hook for some function returned a value which didn't match the
    /// function return type. The `String` here describes the error
    HookReturnValueMismatch(String),
    /// Some kind of error which doesn't fall into one of the above categories.
    OtherError(String),
}

/// A type alias for convenience, similar to how `std::io::Result` is used for I/O operations
pub type Result<T> = std::result::Result<T, Error>;

/// This Result is used for some backend operations.
/// It can return (zero or more) nonfatal warnings along with the actual `Result` value.
#[derive(Debug)]
pub struct BackendResult<T> {
    /// The actual result
    pub res: Result<T>,
    /// (Optional) Nonfatal warnings. These do not prevent execution from
    /// continuing on this path.
    pub warnings: Vec<String>,
}

impl<T: Clone> Clone for BackendResult<T> {
    fn clone(&self) -> (r: Self) {
        let res = match &self.res {
            Ok(t) => Ok(t.clone()),
            Err(e) => Err(e.clone()),
        };
        BackendResult { res, warnings: self.warnings.clone() }
    }
}

impl<T> BackendResult<T> {
    /// The warnings, as a sequence.
    pub open spec fn warns(&self) -> Seq<String> {
        self.warnings@
    }

    /// Construct a `BackendResult` from a `Result`, with no warnings.
    pub fn from_result(res: Result<T>) -> (r: Self)
        ensures
            r.res == res,
            r.warns().len() == 0,
    {
        BackendResult { res, warnings: Vec::new() }
    }

    /// Construct a `BackendResult` from a `Result` and the given warning.
    pub fn with_warn(res: Result<T>, warning: String) -> (r: Self)
        ensures
            r.res == res,
            r.warns() == seq![warning],
    {
        let mut warnings = Vec::new();
        warnings.push(warning);
        BackendResult { res, warnings }
    }

    /// Construct a `BackendResult` from a `Result` and the given warnings.
    pub fn with_warns(res: Result<T>, warnings: Vec<String>) -> (r: Self)
        ensures
            r.res == res,
            r.warns() == warnings@,
    {
        BackendResult { res, warnings }
    }

    /// Add the given warning.
    pub fn add_warn(&mut self, warning: String)
        ensures
            final(self).res == old(self).res,
            final(self).warns() == old(self).warns().push(warning),
    {
        self.warnings.push(warning);
    }

    /// Is the result `Ok`?
    pub fn is_ok(&self) -> (b: bool)
        ensures
            b == self.res is Ok,
    {
        self.res.is_ok()
    }

    /// Is the result `Err`?
    pub fn is_err(&self) -> (b: bool)
        ensures
            b == self.res is Err,
    {
        self.res.is_err()
    }

    /// Returns `true` if `self` has one or more warnings attached.
    pub fn has_warnings(&self) -> (b: bool)
        ensures
            b == (self.warns().len() > 0),
    {
        self.warnings.len() > 0
    }

    /// Converts `self` into `Option<T>`, discarding any errors or warnings.
    pub fn ok(self) -> (r: Option<T>)
        ensures
            r == (match self.res {
                Ok(t) => Some(t),
                Err(_) => None,
            }),
    {
        match self.res {
            Ok(t) => Some(t),
            Err(_) => None,
        }
    }

    /// Converts `self` into `Option<Error>`, discarding any success value or
    /// warnings.
    pub fn err(self) -> (r: Option<Error>)
        ensures
            r == (match self.res {
                Ok(_) => None,
                Err(e) => Some(e),
            }),
    {
        match self.res {
            Ok(_) => None,
            Err(e) => Some(e),
        }
    }

    /// Maps the `Ok` value, leaving an `Err` untouched, and also leaving
    /// warnings untouched.
    pub fn map<U, F: FnOnce(T) -> U>(self, op: F) -> (r: BackendResult<U>)
        requires
            self.res matches Ok(t) ==> op.requires((t,)),
        ensures
            r.warns() == self.warns(),
            match self.res {
                Ok(t) => r.res matches Ok(u) && op.ensures((t,), u),
                Err(e) => r.res == Err::<U, Error>(e),
            },
    {
        let res = match self.res {
            Ok(t) => Ok(op(t)),
            Err(e) => Err(e),
        };
        BackendResult { res, warnings: self.warnings }
    }

    /// If `self` is `Ok`, returns `res` with all the warnings on both `self` and
    /// `res`.
    /// If `self` is `Err`, returns `self` with only its own warnings.
    pub fn and<U>(self, res: BackendResult<U>) -> (r: BackendResult<U>)
        ensures
            match self.res {
                Ok(_) => r.res == res.res && r.warns() == self.warns() + res.warns(),
                Err(e) => r.res == Err::<U, Error>(e) && r.warns() == self.warns(),
            },
    {
        match self.res {
            Ok(_) => {
                let mut warnings = self.warnings;
                let mut other = res.warnings;
                warnings.append(&mut other);
                BackendResult { res: res.res, warnings }
            },
            Err(err) => BackendResult { res: Err(err), warnings: self.warnings },
        }
    }

    /// If `self` is `Ok`, calls `op` on it and returns the result with all the
    /// warnings generated along the way.
    /// If `self` is `Err`, returns `self` with only its own warnings.
    pub fn and_then<U, F: FnOnce(T) -> BackendResult<U>>(self, op: F) -> (r: BackendResult<U>)
        requires
            self.res matches Ok(t) ==> op.requires((t,)),
        ensures
            match self.res {
                Ok(t) => exists|n: BackendResult<U>|
                    #![trigger op.ensures((t,), n)]
                    op.ensures((t,), n) && r.res == n.res && r.warns() == self.warns() + n.warns(),
                Err(e) => r.res == Err::<U, Error>(e) && r.warns() == self.warns(),
            },
    {
        match self.res {
            Ok(t) => {
                let new_res = op(t);
                let mut warnings = self.warnings;
                let mut other = new_res.warnings;
                warnings.append(&mut other);
                BackendResult { res: new_res.res, warnings }
            },
            Err(err) => BackendResult { res: Err(err), warnings: self.warnings },
        }
    }

    /// If `self` is `Ok`, returns `self` with only its own warnings.
    /// If `self` is `Err`, returns `res` with all the warnings on both `self`
    /// and `res`.
    pub fn or(self, res: Self) -> (r: Self)
        ensures
            match self.res {
                Ok(_) => r == self,
                Err(_) => r.res == res.res && r.warns() == self.warns() + res.warns(),
            },
    {
        match &self.res {
            Ok(_) => self,
            Err(_) => {
                let mut warnings = self.warnings;
                let mut other = res.warnings;
                warnings.append(&mut other);
                BackendResult { res: res.res, warnings }
            },
        }
    }

    /// If `self` is `Ok`, returns `self` with only its own warnings.
    /// If `self` is `Err`, calls `op` on it and returns the result with all the
    /// warnings generated along the way.
    pub fn or_else<F: FnOnce(Error) -> Self>(self, op: F) -> (r: Self)
        requires
            self.res matches Err(e) ==> op.requires((e,)),
        ensures
            match self.res {
                Ok(_) => r == self,
                Err(e) => exists|n: Self|
                    #![trigger op.ensures((e,), n)]
                    op.ensures((e,), n) && r.res == n.res && r.warns() == self.warns() + n.warns(),
            },
    {
        match self.res {
            Ok(t) => BackendResult { res: Ok(t), warnings: self.warnings },
            Err(err) => {
                let new_res = op(err);
                let mut warnings = self.warnings;
                let mut other = new_res.warnings;
                warnings.append(&mut other);
                BackendResult { res: new_res.res, warnings }
            },
        }
    }

    /// Unwrap a `BackendResult` into a `Result`.
    /// The caller must ensure that no warnings are present.
    pub fn unwrap_warn(self) -> (r: Result<T>)
        requires
            self.warns().len() == 0,
        ensures
            r == self.res,
    {
        self.res
    }

    /// Unwrap a `BackendResult` into a `Result`, discarding any warnings.
    pub fn discard_warnings(self) -> (r: Result<T>)
        ensures
            r == self.res,
    {
        self.res
    }
}

} // verus!
