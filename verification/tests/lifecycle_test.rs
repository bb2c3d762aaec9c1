use swaps::address::validate_collection;
use swaps::context::{Env, MessageInfo};
use swaps::contract::{execute, instantiate, query};
use swaps::error::ContractError;
use swaps::ids::{format_swap_id, parse_swap_id};
use swaps::msg::{ExecuteMsg, InstantiateMsg, QueryMsg};
use swaps::state::SwapRegistry;

fn fresh_registry() -> (SwapRegistry, Env) {
    let mut reg = SwapRegistry::new();
    let env = Env {
        contract_address: String::from("cosmos2contract"),
    };
    let info = MessageInfo {
        sender: String::from("creator"),
    };
    instantiate(&mut reg, &env, &info, InstantiateMsg {}).unwrap();
    (reg, env)
}

fn initiate(reg: &mut SwapRegistry, env: &Env, sender: &str, collection: &str, token: &str) -> Result<String, ContractError> {
    let info = MessageInfo {
        sender: String::from(sender),
    };
    let msg = ExecuteMsg::InitiateSwap {
        collection: String::from(collection),
        token_id: String::from(token),
    };
    let res = execute(reg, env, &info, msg)?;
    Ok(res
        .attributes
        .iter()
        .find(|a| a.key == "swap_id")
        .unwrap()
        .value
        .clone())
}

#[test]
fn get_swap_on_absent_id_fails_not_found() {
    let (reg, env) = fresh_registry();
    for id in ["1", "7", "0", "abc", ""] {
        let msg = QueryMsg::GetSwap {
            swap_id: String::from(id),
        };
        assert_eq!(query(&reg, &env, msg).unwrap_err(), ContractError::SwapNotFound {});
    }
}

#[test]
fn initiate_then_get_shows_lhs_only() {
    let (mut reg, env) = fresh_registry();
    let id = initiate(&mut reg, &env, "alice", "collection-a", "t").unwrap();
    assert_eq!(id, "1");
    let msg = QueryMsg::GetSwap { swap_id: id };
    let resp = query(&reg, &env, msg).unwrap();
    assert_eq!(resp.lhs.owner, "alice");
    assert_eq!(resp.lhs.collection, "collection-a");
    assert_eq!(resp.lhs.token_id, "t");
    assert!(resp.rhs.is_none());
}

#[test]
fn ids_count_up_even_across_cancels() {
    let (mut reg, env) = fresh_registry();
    let info = MessageInfo {
        sender: String::from("creator"),
    };
    let id1 = initiate(&mut reg, &env, "alice", "col-one", "t1").unwrap();
    assert_eq!(id1, "1");
    let cancel = ExecuteMsg::CancelSwap {
        swap_id: id1.clone(),
    };
    execute(&mut reg, &env, &info, cancel).unwrap();
    let id2 = initiate(&mut reg, &env, "alice", "col-one", "t2").unwrap();
    assert_eq!(id2, "2");
    // The cancelled id stays vacant: it is never handed out again.
    let msg = QueryMsg::GetSwap { swap_id: id1 };
    assert_eq!(query(&reg, &env, msg).unwrap_err(), ContractError::SwapNotFound {});
}

#[test]
fn twelfth_initiation_gets_a_two_digit_id() {
    let (mut reg, env) = fresh_registry();
    let mut last = String::new();
    for i in 1..=12 {
        last = initiate(&mut reg, &env, "alice", "col-one", &format!("t{}", i)).unwrap();
    }
    assert_eq!(last, "12");
    let msg = QueryMsg::GetSwap { swap_id: last };
    let resp = query(&reg, &env, msg).unwrap();
    assert_eq!(resp.lhs.token_id, "t12");
}

#[test]
fn respond_sets_rhs_and_keeps_lhs() {
    let (mut reg, env) = fresh_registry();
    let id = initiate(&mut reg, &env, "alice", "col-one", "t1").unwrap();
    let bob = MessageInfo {
        sender: String::from("bob"),
    };
    let reply = ExecuteMsg::SwapReply {
        swap_id: id.clone(),
        collection: String::from("col-two"),
        token_id: String::from("t2"),
    };
    execute(&mut reg, &env, &bob, reply).unwrap();
    let resp = query(&reg, &env, QueryMsg::GetSwap { swap_id: id }).unwrap();
    assert_eq!(resp.lhs.owner, "alice");
    assert_eq!(resp.lhs.collection, "col-one");
    assert_eq!(resp.lhs.token_id, "t1");
    let rhs = resp.rhs.unwrap();
    assert_eq!(rhs.owner, "bob");
    assert_eq!(rhs.collection, "col-two");
    assert_eq!(rhs.token_id, "t2");
}

#[test]
fn second_reply_replaces_the_first() {
    let (mut reg, env) = fresh_registry();
    let id = initiate(&mut reg, &env, "alice", "col-one", "t1").unwrap();
    for (who, token) in [("bob", "t2"), ("carol", "t3")] {
        let info = MessageInfo {
            sender: String::from(who),
        };
        let reply = ExecuteMsg::SwapReply {
            swap_id: id.clone(),
            collection: String::from("col-two"),
            token_id: String::from(token),
        };
        execute(&mut reg, &env, &info, reply).unwrap();
    }
    let resp = query(&reg, &env, QueryMsg::GetSwap { swap_id: id }).unwrap();
    let rhs = resp.rhs.unwrap();
    assert_eq!(rhs.owner, "carol");
    assert_eq!(rhs.token_id, "t3");
}

#[test]
fn finalize_error_taxonomy() {
    let (mut reg, env) = fresh_registry();
    let info = MessageInfo {
        sender: String::from("anyone"),
    };
    // Unknown id.
    let unknown = ExecuteMsg::FinalizeSwap {
        swap_id: String::from("9"),
    };
    assert_eq!(
        execute(&mut reg, &env, &info, unknown).unwrap_err(),
        ContractError::SwapNotFound {}
    );
    // Known id, no responder yet.
    let id = initiate(&mut reg, &env, "alice", "col-one", "t1").unwrap();
    let unresponded = ExecuteMsg::FinalizeSwap {
        swap_id: id.clone(),
    };
    assert_eq!(
        execute(&mut reg, &env, &info, unresponded).unwrap_err(),
        ContractError::SwapNotResponded {}
    );
    // Once answered, finalization succeeds and releases each escrowed
    // token to the counterpart.
    let reply = ExecuteMsg::SwapReply {
        swap_id: id.clone(),
        collection: String::from("col-two"),
        token_id: String::from("t2"),
    };
    execute(
        &mut reg,
        &env,
        &MessageInfo {
            sender: String::from("bob"),
        },
        reply,
    )
    .unwrap();
    let finalize = ExecuteMsg::FinalizeSwap {
        swap_id: id.clone(),
    };
    let res = execute(&mut reg, &env, &info, finalize.clone()).unwrap();
    assert_eq!(res.messages.len(), 2);
    // The initiator's token goes to the responder ...
    assert_eq!(res.messages[0].collection, "col-one");
    assert_eq!(res.messages[0].recipient, "bob");
    assert_eq!(res.messages[0].token_id, "t1");
    // ... and the responder's token goes to the initiator.
    assert_eq!(res.messages[1].collection, "col-two");
    assert_eq!(res.messages[1].recipient, "alice");
    assert_eq!(res.messages[1].token_id, "t2");
    // Settlement deletes the record: a second finalization fails, and
    // the id no longer resolves.
    assert_eq!(
        execute(&mut reg, &env, &info, finalize).unwrap_err(),
        ContractError::SwapNotFound {}
    );
    assert_eq!(
        query(&reg, &env, QueryMsg::GetSwap { swap_id: id }).unwrap_err(),
        ContractError::SwapNotFound {}
    );
}

#[test]
fn invalid_collection_rejected_without_consuming_an_id() {
    let (mut reg, env) = fresh_registry();
    // Uppercase, too-short and empty identifiers are all malformed.
    for bad in ["BadCollection", "ab", ""] {
        let err = initiate(&mut reg, &env, "alice", bad, "t").unwrap_err();
        assert_eq!(
            err,
            ContractError::InvalidAddress {
                address: String::from(bad)
            }
        );
    }
    // Replies validate the collection before looking the id up.
    let bob = MessageInfo {
        sender: String::from("bob"),
    };
    let reply = ExecuteMsg::SwapReply {
        swap_id: String::from("1"),
        collection: String::from("NOT-OK"),
        token_id: String::from("t"),
    };
    assert_eq!(
        execute(&mut reg, &env, &bob, reply).unwrap_err(),
        ContractError::InvalidAddress {
            address: String::from("NOT-OK")
        }
    );
    // No id was consumed by any rejection: the next swap is still "1".
    let id = initiate(&mut reg, &env, "alice", "col-one", "t").unwrap();
    assert_eq!(id, "1");
}

#[test]
fn directive_contents_pull_then_refund() {
    let (mut reg, env) = fresh_registry();
    let info = MessageInfo {
        sender: String::from("alice"),
    };
    let msg = ExecuteMsg::InitiateSwap {
        collection: String::from("col-one"),
        token_id: String::from("t1"),
    };
    let res = execute(&mut reg, &env, &info, msg).unwrap();
    // Initiation pulls the deposit into contract custody.
    assert_eq!(res.messages.len(), 1);
    assert_eq!(res.messages[0].collection, "col-one");
    assert_eq!(res.messages[0].recipient, "cosmos2contract");
    assert_eq!(res.messages[0].token_id, "t1");
    // Cancellation refunds the initiator.
    let cancel = ExecuteMsg::CancelSwap {
        swap_id: String::from("1"),
    };
    let res = execute(&mut reg, &env, &info, cancel).unwrap();
    assert_eq!(res.messages.len(), 1);
    assert_eq!(res.messages[0].collection, "col-one");
    assert_eq!(res.messages[0].recipient, "alice");
    assert_eq!(res.messages[0].token_id, "t1");
}

#[test]
fn only_canonical_numerals_designate_records() {
    let (mut reg, env) = fresh_registry();
    let id = initiate(&mut reg, &env, "alice", "col-one", "t1").unwrap();
    assert_eq!(id, "1");
    // The canonical numeral finds the record ...
    assert!(query(
        &reg,
        &env,
        QueryMsg::GetSwap {
            swap_id: String::from("1")
        }
    )
    .is_ok());
    // ... while every non-canonical spelling of the same number, and any
    // out-of-range numeral, designates nothing.
    for bad in ["01", "+1", " 1", "1 ", "0x1", "4294967296", "99999999999999999999"] {
        let msg = QueryMsg::GetSwap {
            swap_id: String::from(bad),
        };
        assert_eq!(query(&reg, &env, msg).unwrap_err(), ContractError::SwapNotFound {});
    }
}

#[test]
fn id_codec_round_trips() {
    for n in [0u32, 1, 9, 10, 42, 4_294_967_295] {
        let s = format_swap_id(n);
        assert_eq!(parse_swap_id(&s), Some(n));
    }
    assert_eq!(format_swap_id(120), "120");
    assert_eq!(parse_swap_id("4294967295"), Some(u32::MAX));
    for bad in ["", "012", "4294967296", "-1", "1.0"] {
        assert_eq!(parse_swap_id(bad), None);
    }
}

#[test]
fn snapshot_round_trip_preserves_the_registry() {
    let (mut reg, env) = fresh_registry();
    initiate(&mut reg, &env, "alice", "col-one", "t1").unwrap();
    let id2 = initiate(&mut reg, &env, "bob", "col-two", "t2").unwrap();
    let reply = ExecuteMsg::SwapReply {
        swap_id: id2.clone(),
        collection: String::from("col-three"),
        token_id: String::from("t3"),
    };
    execute(
        &mut reg,
        &env,
        &MessageInfo {
            sender: String::from("carol"),
        },
        reply,
    )
    .unwrap();

    let next = reg.next_swap_id();
    let records = reg.records();
    let rebuilt = SwapRegistry::from_parts(next, records).unwrap();
    for id in ["1", "2"] {
        let before = query(
            &reg,
            &env,
            QueryMsg::GetSwap {
                swap_id: String::from(id),
            },
        )
        .unwrap();
        let after = query(
            &rebuilt,
            &env,
            QueryMsg::GetSwap {
                swap_id: String::from(id),
            },
        )
        .unwrap();
        assert_eq!(before.lhs.owner, after.lhs.owner);
        assert_eq!(before.lhs.collection, after.lhs.collection);
        assert_eq!(before.lhs.token_id, after.lhs.token_id);
        assert_eq!(before.rhs.is_some(), after.rhs.is_some());
    }
}

#[test]
fn unsound_snapshots_are_rejected() {
    let (mut reg, env) = fresh_registry();
    initiate(&mut reg, &env, "alice", "col-one", "t1").unwrap();
    let records = reg.records();
    // An id at or above the allocator position could be handed out twice.
    assert!(SwapRegistry::from_parts(1, records).is_none());
    // A duplicated id is rejected outright.
    let mut doubled = reg.records();
    doubled.extend(reg.records());
    assert!(SwapRegistry::from_parts(reg.next_swap_id(), doubled).is_none());
}

#[test]
fn collection_validation_rule() {
    // Any lowercase-invariant ASCII identifier of admissible length
    // passes, punctuation and spaces included — the shape check mirrors
    // the host environment's validator.
    let bech32ish = format!("cosmos1{}", "q".repeat(56));
    for good in [
        "abc",
        "gp_collection",
        "goochi-goochi",
        "a.b-c_9",
        "a!b?c",
        "has space",
        bech32ish.as_str(),
    ] {
        assert!(validate_collection(good));
    }
    let longest = "a".repeat(90);
    assert!(validate_collection(&longest));
    // Too short, too long, uppercase or non-ASCII identifiers fail.
    let too_long = "a".repeat(91);
    for bad in ["", "ab", "ABC", "Mixed-case", "caf\u{e9}", too_long.as_str()] {
        assert!(!validate_collection(bad));
    }
}
