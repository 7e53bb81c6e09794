//! The error kinds a join call can surface.  Every failure is an explicit
//! result; no partial output table is ever returned.

use vstd::prelude::*;

verus! {

/// Why a join call failed.
#[derive(Clone, Copy, PartialEq, Eq, Structural, Debug)]
pub enum JoinError {
    /// A named key column does not exist in its table.
    KeyNotFound,
    /// The key columns' element kinds differ, or have no join implementation.
    UnsupportedKeyType,
    /// A gather, drop, rename, replace or append step could not complete.
    MaterializationFailure,
    /// A worker task terminated abnormally; converted, never propagated as a
    /// process-level abort.
    WorkerFailure,
}

} // verus!
