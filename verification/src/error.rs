//! Why an operation was refused.

use vstd::prelude::*;

verus! {

/// The reasons for which a ledger refuses an operation. A refused operation
/// leaves the ledger as it was.
#[derive(Clone, Copy, Debug, PartialEq, Eq, Structural)]
pub enum MarketError {
    /// No job, or no agent, has the given id.
    NotFound,
    /// An agent with the given id is registered already.
    AlreadyExists,
    /// The job's status does not allow the operation.
    InvalidState,
    /// The principal that has to approve the call did not, or the caller is
    /// no party to the job.
    Unauthorized,
    /// The token service did not carry out the transfer that the operation
    /// asked for.
    TransferFailed,
}

} // verus!
