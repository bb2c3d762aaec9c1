//! The dispatcher-facing surface: one entry point per message class,
//! matching the operation tags exhaustively.

use crate::address::valid_collection;
use crate::context::{Env, MessageInfo};
use crate::error::ContractError;
use crate::executions::{
    cancel_post, cancel_swap, finalize_post, finalize_swap, initialize, initialize_post,
    initiate_post, initiate_swap, respond_post, swap_reply,
};
use crate::msg::{ExecuteMsg, InstantiateMsg, QueryMsg, SwapResponse};
use crate::queries::{get_swap, get_swap_spec};
use crate::response::Response;
use crate::state::{SwapRegistry, SwapView};
use vstd::prelude::*;

verus! {

/// Instantiates the contract on a fresh store: installs the id allocator
/// at its starting value.
pub fn instantiate(
    reg: &mut SwapRegistry,
    env: &Env,
    info: &MessageInfo,
    msg: InstantiateMsg,
) -> (r: Result<Response, ContractError>)
    requires
        old(reg).wf(),
        old(reg)@.swaps == Map::<nat, SwapView>::empty(),
    ensures
        final(reg).wf(),
        initialize_post(old(reg)@, final(reg)@, info.sender@, r),
{
    initialize(reg, env, info, msg)
}

/// Routes a validated call to its operation.  The contract of each arm
/// is the operation's own outcome description.
pub fn execute(reg: &mut SwapRegistry, env: &Env, info: &MessageInfo, msg: ExecuteMsg) -> (r:
    Result<Response, ContractError>)
    requires
        old(reg).wf(),
        match msg {
            ExecuteMsg::InitiateSwap { collection, .. } => valid_collection(collection@)
                ==> old(reg)@.next_id < u32::MAX as nat,
            _ => true,
        },
    ensures
        final(reg).wf(),
        match msg {
            ExecuteMsg::InitiateSwap { collection, token_id } => initiate_post(
                old(reg)@,
                final(reg)@,
                env.contract_address@,
                info.sender@,
                collection@,
                token_id@,
                r,
            ),
            ExecuteMsg::SwapReply { swap_id, collection, token_id } => respond_post(
                old(reg)@,
                final(reg)@,
                env.contract_address@,
                info.sender@,
                swap_id@,
                collection@,
                token_id@,
                r,
            ),
            ExecuteMsg::FinalizeSwap { swap_id } => finalize_post(
                old(reg)@,
                final(reg)@,
                swap_id@,
                r,
            ),
            ExecuteMsg::CancelSwap { swap_id } => cancel_post(old(reg)@, final(reg)@, swap_id@, r),
        },
{
    match msg {
        ExecuteMsg::InitiateSwap { collection, token_id } => initiate_swap(
            reg,
            env,
            info,
            collection,
            token_id,
        ),
        ExecuteMsg::SwapReply { swap_id, collection, token_id } => swap_reply(
            reg,
            env,
            info,
            swap_id,
            collection,
            token_id,
        ),
        ExecuteMsg::FinalizeSwap { swap_id } => finalize_swap(reg, env, info, swap_id),
        ExecuteMsg::CancelSwap { swap_id } => cancel_swap(reg, env, info, swap_id),
    }
}

/// Answers a read-only query against the current registry snapshot.
pub fn query(reg: &SwapRegistry, _env: &Env, msg: QueryMsg) -> (r: Result<
    SwapResponse,
    ContractError,
>)
    requires
        reg.wf(),
    ensures
        match msg {
            QueryMsg::GetSwap { swap_id } => match r {
                Ok(resp) => get_swap_spec(reg@, swap_id@) == Some(resp@),
                Err(e) => get_swap_spec(reg@, swap_id@) is None && e == (
                ContractError::SwapNotFound {}),
            },
        },
{
    match msg {
        QueryMsg::GetSwap { swap_id } => get_swap(reg, swap_id),
    }
}

} // verus!
