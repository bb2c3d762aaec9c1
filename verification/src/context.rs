//! Call context handed in by the host environment: who sent the operation
//! and under which address the contract itself holds custody.

use vstd::prelude::*;

verus! {

/// The contract's own execution environment.
pub struct Env {
    /// The contract's address, used as the escrow custody point while a
    /// swap is open.
    pub contract_address: String,
}

/// Metadata about the incoming operation.
pub struct MessageInfo {
    /// The authenticated sender of the operation.  Authentication itself
    /// happens before this core runs.
    pub sender: String,
}

} // verus!
