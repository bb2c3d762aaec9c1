//! What an operation hands back to the host: descriptive attributes and
//! the custody directives the asset ledger must execute.
//!
//! Directives are fire-and-forget from this core's point of view.  The
//! host commits the registry mutation and the directives as one unit: if
//! the ledger later rejects a directive, the host must roll the mutation
//! back, or the registry and real custody diverge.

use vstd::prelude::*;

verus! {

/// An outbound custody instruction: move `token_id` of `collection` into
/// the custody of `recipient`.
#[derive(Debug)]
pub struct TransferDirective {
    /// The collection (asset contract) that holds the token.
    pub collection: String,
    /// The address that receives custody.
    pub recipient: String,
    /// The token to move.
    pub token_id: String,
}

/// A key/value pair describing the operation's outcome.
#[derive(Debug)]
pub struct Attribute {
    pub key: String,
    pub value: String,
}

/// The result of a successful operation.
#[derive(Debug)]
pub struct Response {
    pub attributes: Vec<Attribute>,
    pub messages: Vec<TransferDirective>,
}

/// `d` moves `token_id` of `collection` to `recipient`.
pub open spec fn directive_is(
    d: TransferDirective,
    collection: Seq<char>,
    recipient: Seq<char>,
    token_id: Seq<char>,
) -> bool {
    d.collection@ == collection && d.recipient@ == recipient && d.token_id@ == token_id
}

/// `a` is the attribute `key: value`.
pub open spec fn attribute_is(a: Attribute, key: Seq<char>, value: Seq<char>) -> bool {
    a.key@ == key && a.value@ == value
}

} // verus!
