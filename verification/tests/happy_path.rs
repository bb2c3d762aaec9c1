use swaps::context::{Env, MessageInfo};
use swaps::contract::{execute, instantiate};
use swaps::msg::{ExecuteMsg, InstantiateMsg};
use swaps::state::SwapRegistry;

#[test]
fn swap_happy_path() -> Result<(), String> {
    // Initialization
    let mut reg = SwapRegistry::new();
    let env = Env {
        contract_address: String::from("cosmos2contract"),
    };
    let msg = InstantiateMsg {};
    let owner = MessageInfo {
        sender: String::from("creator"),
    };
    let _res = instantiate(&mut reg, &env, &owner, msg);

    // Create Swap
    let creator_info = MessageInfo {
        sender: String::from("creator"),
    };
    let initiate_swap_msg = ExecuteMsg::InitiateSwap {
        collection: String::from("gp_collection"),
        token_id: String::from("123"),
    };
    let swap_created = execute(&mut reg, &env, &creator_info, initiate_swap_msg).unwrap();

    let swap_id = swap_created
        .attributes
        .iter()
        .find(move |x| x.key == String::from("swap_id"))
        .unwrap()
        .value
        .clone();

    // Reply to Swap
    let responder_info = MessageInfo {
        sender: String::from("responder"),
    };
    let swap_reply_msg = ExecuteMsg::SwapReply {
        swap_id: swap_id.clone(),
        collection: String::from("goochi-goochi"),
        token_id: String::from("abc"),
    };
    execute(&mut reg, &env, &responder_info, swap_reply_msg).unwrap();

    // Finalize Swap
    let finalize_swap_msg = ExecuteMsg::FinalizeSwap { swap_id: swap_id };
    execute(&mut reg, &env, &creator_info, finalize_swap_msg).unwrap();

    Ok(())
}
