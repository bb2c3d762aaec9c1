//! Escrow-based two-party swap protocol for non-fungible assets.
//!
//! The contract acts as temporary custodian while two parties exchange
//! tokens: the initiator deposits one side, a responder deposits the
//! counterpart, and finalization releases the escrow.  The crate holds the
//! swap state machine itself — the registry of swap records, the monotonic
//! id allocator, the validation rules and the custody directives each
//! operation emits.  Storage persistence, message encoding and the asset
//! ledger that executes the directives are collaborators of the host
//! environment and stay outside this crate.

pub mod address;
pub mod context;
pub mod contract;
pub mod error;
pub mod executions;
pub mod ids;
pub mod msg;
pub mod queries;
pub mod response;
pub mod state;

pub use crate::error::ContractError;
