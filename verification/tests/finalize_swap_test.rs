use swaps::context::{Env, MessageInfo};
use swaps::contract::{execute, instantiate};
use swaps::error::ContractError;
use swaps::msg::{ExecuteMsg, InstantiateMsg};
use swaps::state::SwapRegistry;

#[test]
fn cant_finalize_not_existing_sawp() -> Result<(), String> {
    // Initialization
    let mut reg = SwapRegistry::new();
    let env = Env {
        contract_address: String::from("cosmos2contract"),
    };
    let msg = InstantiateMsg {};
    let creator_info = MessageInfo {
        sender: String::from("creator"),
    };
    let _res = instantiate(&mut reg, &env, &creator_info, msg);

    // Try to finalize not existing Swap
    let finalize_swap_msg = ExecuteMsg::FinalizeSwap {
        swap_id: "123".to_string(),
    };
    match execute(&mut reg, &env, &creator_info, finalize_swap_msg) {
        Ok(_) => panic!("Error expected"),
        Err(err) => assert_eq!(err, ContractError::SwapNotFound {}),
    };

    Ok(())
}

#[test]
fn cant_finalize_unresponded_sawp() -> Result<(), String> {
    // Initialization
    let mut reg = SwapRegistry::new();
    let env = Env {
        contract_address: String::from("cosmos2contract"),
    };
    let msg = InstantiateMsg {};
    let creator_info = MessageInfo {
        sender: String::from("creator"),
    };
    let _res = instantiate(&mut reg, &env, &creator_info, msg);

    // Initiate Swap
    let swapper_info = MessageInfo {
        sender: String::from("swapper"),
    };
    let create_swap_msg = ExecuteMsg::InitiateSwap {
        collection: String::from("gp_collection"),
        token_id: String::from("123"),
    };
    let swap_created = execute(&mut reg, &env, &swapper_info, create_swap_msg).unwrap();
    let swap_id = swap_created
        .attributes
        .iter()
        .find(move |x| x.key == String::from("swap_id"))
        .unwrap()
        .value
        .clone();

    // Try to finalize not responded Swap
    let finalize_swap_msg = ExecuteMsg::FinalizeSwap { swap_id: swap_id };
    match execute(&mut reg, &env, &swapper_info, finalize_swap_msg) {
        Ok(_) => panic!("Error expected"),
        Err(err) => assert_eq!(err, ContractError::SwapNotResponded {}),
    };

    Ok(())
}
