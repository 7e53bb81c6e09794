//! A verified hash-join engine for small in-memory columnar tables.
//!
//! Given two tables and one key column on each side, the engine computes the
//! row pairings of an inner, left-outer, or full-outer join and materializes
//! the combined result table.  Keys are null-aware, and two nulls are
//! deliberately join-equal (a documented deviation from SQL semantics).

pub mod errors;
pub mod frame;
pub mod join;
pub mod laws;
pub mod relation;
pub mod tuples;
pub mod value;
