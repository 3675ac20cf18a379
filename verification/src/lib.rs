//! A symbolic execution engine core for LLVM bitcode: a `Project` that
//! loads and indexes IR modules and reconciles duplicate struct
//! definitions, and a `State` that couples an SMT solver session with a
//! variable environment and a backtracking discipline for depth-first
//! branch exploration.
//!
//! The solver and the bitcode parser are outside collaborators: the solver
//! stands behind the trusted boundary in `solver`, and the parser hands the
//! library plain `ir` values. Everything else is verified.

pub mod ir;
pub mod project;
pub mod solver;
pub mod state;
