use swaps::context::{Env, MessageInfo};
use swaps::contract::{execute, instantiate};
use swaps::error::ContractError;
use swaps::msg::{ExecuteMsg, InstantiateMsg};
use swaps::state::SwapRegistry;

#[test]
fn cant_respond_to_not_existing_swap() -> Result<(), String> {
    // Initialization
    let mut reg = SwapRegistry::new();
    let env = Env {
        contract_address: String::from("cosmos2contract"),
    };
    let msg = InstantiateMsg {};
    let creator_info = MessageInfo {
        sender: String::from("creator"),
    };
    let _res = instantiate(&mut reg, &env, &creator_info, msg);

    // Reply to not existing Swap
    let responder_info = MessageInfo {
        sender: String::from("responder"),
    };
    let swap_reply_msg = ExecuteMsg::SwapReply {
        swap_id: "123".to_string(),
        collection: String::from("goochi-goochi"),
        token_id: String::from("abc"),
    };

    match execute(&mut reg, &env, &responder_info, swap_reply_msg) {
        Ok(_) => panic!("Error expected"),
        Err(err) => assert_eq!(err, ContractError::SwapNotFound {}),
    };

    Ok(())
}
