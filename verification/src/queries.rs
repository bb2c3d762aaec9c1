//! Read-only access to the registry, and how the queries relate to the
//! operations that mutate it.

use crate::error::ContractError;
use crate::executions::{cancel_post, finalize_post, initiate_post};
use crate::ids::{dec_str, dec_val, is_swap_key, lemma_dec_str_round_trip, parse_swap_id};
use crate::msg::SwapResponse;
use crate::response::Response;
use crate::state::{RegistryView, SideView, SwapRegistry, SwapView};
use vstd::prelude::*;

verus! {

/// The record a lookup yields: `Some` exactly when the string designates
/// a stored record, with whichever sides are currently populated.
pub open spec fn get_swap_spec(reg: RegistryView, swap_id: Seq<char>) -> Option<SwapView> {
    if is_swap_key(swap_id) && reg.swaps.contains_key(dec_val(swap_id)) {
        Some(reg.swaps[dec_val(swap_id)])
    } else {
        None
    }
}

/// Looks a swap up by its id string.  A pure read: no side effects.
/// Fails `SwapNotFound` exactly when no record is stored under the id —
/// including every string that is not a canonical decimal numeral.
pub fn get_swap(reg: &SwapRegistry, swap_id: String) -> (r: Result<SwapResponse, ContractError>)
    requires
        reg.wf(),
    ensures
        match r {
            Ok(resp) => get_swap_spec(reg@, swap_id@) == Some(resp@),
            Err(e) => get_swap_spec(reg@, swap_id@) is None && e == (ContractError::SwapNotFound {}),
        },
{
    let key = match parse_swap_id(swap_id.as_str()) {
        Some(k) => k,
        None => {
            return Err(ContractError::SwapNotFound {});
        },
    };
    match reg.get(key) {
        Some(swap) => {
            let resp = SwapResponse {
                lhs: swap.lhs.clone(),
                rhs: match &swap.rhs {
                    Some(side) => Some(side.clone()),
                    None => None,
                },
            };
            Ok(resp)
        },
        None => Err(ContractError::SwapNotFound {}),
    }
}

/// A freshly initiated swap is immediately readable: looking up the id
/// string the initiation announced yields the initiator's side and no
/// responder side.
pub proof fn lemma_initiate_then_get(
    pre: RegistryView,
    post: RegistryView,
    contract_address: Seq<char>,
    sender: Seq<char>,
    collection: Seq<char>,
    token_id: Seq<char>,
    r: Result<Response, ContractError>,
)
    requires
        initiate_post(pre, post, contract_address, sender, collection, token_id, r),
        r is Ok,
        pre.next_id <= u32::MAX as nat,
    ensures
        get_swap_spec(post, dec_str(pre.next_id)) == Some(
            (SwapView {
                lhs: (SideView { owner: sender, collection: collection, token_id: token_id }),
                rhs: None::<SideView>,
            }),
        ),
{
    lemma_dec_str_round_trip(pre.next_id);
}

/// A settled swap is gone: looking its id up after a successful
/// finalization finds nothing, while every other id resolves exactly as
/// before the settlement.
pub proof fn lemma_finalize_then_get(
    pre: RegistryView,
    post: RegistryView,
    swap_id: Seq<char>,
    other: Seq<char>,
    r: Result<Response, ContractError>,
)
    requires
        finalize_post(pre, post, swap_id, r),
        r is Ok,
    ensures
        get_swap_spec(post, swap_id) is None,
        dec_val(other) != dec_val(swap_id) ==> get_swap_spec(post, other) == get_swap_spec(
            pre,
            other,
        ),
{
}

/// A cancelled swap is gone: looking its id up afterwards finds nothing,
/// while every other id resolves exactly as before the cancellation.
pub proof fn lemma_cancel_then_get(
    pre: RegistryView,
    post: RegistryView,
    swap_id: Seq<char>,
    other: Seq<char>,
    r: Result<Response, ContractError>,
)
    requires
        cancel_post(pre, post, swap_id, r),
        r is Ok,
    ensures
        get_swap_spec(post, swap_id) is None,
        dec_val(other) != dec_val(swap_id) ==> get_swap_spec(post, other) == get_swap_spec(
            pre,
            other,
        ),
{
}

} // verus!
