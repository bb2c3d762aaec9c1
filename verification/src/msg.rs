//! The closed set of operations a caller can submit, and the query
//! response shape.

use crate::state::{opt_side_view, SwapSide, SwapView};
use vstd::prelude::*;

verus! {

/// Instantiation carries no arguments.
#[derive(Clone, Debug, PartialEq)]
pub struct InstantiateMsg {}

/// The operations of the swap state machine, matched exhaustively by the
/// dispatcher.
#[derive(Clone, Debug, PartialEq)]
pub enum ExecuteMsg {
    /// Open a new swap: deposit `token_id` of `collection` and wait for a
    /// responder.
    InitiateSwap { collection: String, token_id: String },
    /// Answer an open swap: deposit the counterpart token.
    SwapReply { swap_id: String, collection: String, token_id: String },
    /// Settle a fully answered swap.
    FinalizeSwap { swap_id: String },
    /// Abandon a swap and delete its record.
    CancelSwap { swap_id: String },
}

/// The read-only queries.
#[derive(Clone, Debug, PartialEq)]
pub enum QueryMsg {
    GetSwap { swap_id: String },
}

/// A swap record as a query returns it: whichever sides are currently
/// populated.
#[derive(Debug)]
pub struct SwapResponse {
    pub lhs: SwapSide,
    pub rhs: Option<SwapSide>,
}

impl View for SwapResponse {
    type V = SwapView;

    open spec fn view(&self) -> SwapView {
        SwapView { lhs: self.lhs@, rhs: opt_side_view(self.rhs) }
    }
}

} // verus!
