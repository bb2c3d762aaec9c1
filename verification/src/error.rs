//! The error taxonomy of the swap protocol.  Every failure surfaces
//! synchronously to the caller; the contract performs no retries.

use vstd::prelude::*;

verus! {

/// Why an operation was refused.
#[derive(Debug, PartialEq, Eq)]
pub enum ContractError {
    /// Reserved for callers that a hardened deployment would turn away;
    /// no operation raises it today.
    Unauthorized {},
    /// The collection identifier failed syntactic validation.
    InvalidAddress { address: String },
    /// No swap record is stored under the given id.
    SwapNotFound {},
    /// Finalization was attempted before a responder answered the swap.
    SwapNotResponded {},
}

} // verus!
