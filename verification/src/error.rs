//! The failures that a pool hands back to its caller.

use vstd::prelude::*;

verus! {

/// A failure of the pool as a whole. A single connection that fails is
/// reported as an event of the connection pool, not as one of these.
#[derive(Clone, Copy, Debug, PartialEq, Eq, Structural)]
pub enum PoolError {
    /// A pool was asked for with no worker or no connection in it.
    InvalidConfig,
    /// The state that the pool shares among its connections was left
    /// damaged by a failure that struck while it was held.
    QueueLockPoisoned,
}

} // verus!
