//! The error taxonomy of the call boundary. Engine failures are wrapped in a
//! uniform message-carrying shape; key absence is not an error at all and is
//! reported as `None` by the lookup operations.

use vstd::prelude::*;

verus! {

/// Everything an operation can fail with, each variant a distinguishable,
/// recoverable outcome at the call boundary.
#[derive(Debug)]
pub enum KvError {
    /// A failure of the storage engine itself (open failure, commit
    /// conflict, exhausted sequence space), wrapped with a readable message.
    Engine { msg: String },
    /// A column family that does not exist: an expected outcome the caller
    /// must handle, never a crash.
    NotFound,
    /// A handle that does not name a live resource.
    InvalidHandle,
    /// A transaction handle whose underlying transaction was already
    /// consumed by a commit or rollback.
    TransactionConsumed,
    /// A caller-supplied value that was expected to be a byte buffer.
    NotBinary,
    /// A recognized option name carrying a value of the wrong shape.
    BadOptionShape,
    /// A declared entry point with no backing logic yet.
    NotImplemented,
}

impl KvError {
    /// Wraps an engine-level failure message.
    pub fn engine(msg: &str) -> (r: KvError)
        ensures
            r matches KvError::Engine { msg: m } && m@ == msg@,
    {
        KvError::Engine { msg: msg.to_owned() }
    }
}

} // verus!
