//! Memory and concurrency primitives with verified contracts: a mutable
//! cell, a spin lock shared between threads, a cell that hands out shared or
//! exclusive borrows by a runtime state machine, and reference-counted
//! blocks in an arena. Beside them stand a flattening adapter over nested
//! vectors and a splitter of text at a delimiter.
//!
//! Each single-thread primitive changes its bookkeeping only through an
//! exclusive reference, so no instance is ever mutated from two places at
//! once; the borrow cell's guards and the arena's handles are plain values
//! that are handed back to the structure that issued them.

pub mod cell;
pub mod flatten;
pub mod rc;
pub mod refcell;
pub mod spinlock;
pub mod strsplit;
