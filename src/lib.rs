//! Parallel iterative relaxation (Jacobi and Gauss-Seidel) for square linear systems.
//!
//! The library is generic over the value stored in a cell, so the
//! coordination logic (row ownership, the write-once iteration history, the
//! dependency checks, the per-worker state machine and the final result
//! selection) is verified independently of the arithmetic that fills the cells.
pub mod history;
pub mod loader;
pub mod operators;
pub mod partition;
pub mod protocol;
pub mod worker;
