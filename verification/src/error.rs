//! Why an increment-and-read can fail.

use vstd::prelude::*;

verus! {

/// Why an increment-and-read against the store did not yield a count.
#[derive(Clone, Copy, Debug, PartialEq, Eq, Structural)]
pub enum StoreError {
    /// No pooled connection could be had: the pool is exhausted or the
    /// backend cannot be reached.
    ConnectionUnavailable,
    /// The backend rejected the upsert or the read-back.
    QueryFailed,
}

} // verus!
