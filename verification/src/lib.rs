//! Symbolic execution of LLVM IR: the verified core of the engine.

pub mod alloc_utils;
pub mod backend;
pub mod arith_intrinsics;
pub mod bump_alloc;
pub mod bv_ops;
pub mod bv_solution;
pub mod bv_term;
pub mod cell_memory;
pub mod cell_memory_laws;
pub mod config;
pub mod constants;
pub use config::{Concretize, NullPointerChecking};
pub mod decimal;
pub mod demangling;
pub use demangling::Demangling;
pub mod double_keyed_map;
pub mod error;
pub mod exceptions;
pub mod function_hooks;
pub mod global_allocations;
pub mod hook_utils;
pub mod intrinsics;
pub mod layout;
pub mod memcpy_length;
pub mod memory_intrinsics;
pub use error::{BackendResult, Error, Result};
pub mod parameter_val;
pub use parameter_val::ParameterVal;
pub mod possible_solutions;
pub mod project;
pub mod return_value;
pub mod return_values;
pub use return_value::ReturnValue;
pub mod simple_memory;
pub mod solution_value;
pub use solution_value::SolutionValue;
pub mod solver_utils;
pub mod startup;
pub mod state;
pub mod type_text;
pub mod zero_search;
