//! The swap state machine.
//!
//! Each operation takes the registry, the call context and its arguments,
//! validates its preconditions, applies its transition, and returns the
//! custody directives the host must forward to the asset ledger.  The
//! contract of every operation is an exact description of the outcome: a
//! transition function over [`RegistryView`] says what the registry holds
//! afterwards, and the response's attributes and directives are pinned
//! field by field, on the success path and on every error path.

use crate::address::{valid_collection, validate_collection};
use crate::context::{Env, MessageInfo};
use crate::error::ContractError;
use crate::ids::{dec_str, dec_val, format_swap_id, is_swap_key, lemma_dec_str_round_trip, parse_swap_id};
use crate::msg::InstantiateMsg;
use crate::response::{attribute_is, directive_is, Attribute, Response, TransferDirective};
use crate::state::{id_bounded, RegistryView, SideView, Swap, SwapRegistry, SwapSide, SwapView};
use vstd::prelude::*;
use vstd::string::*;

verus! {

/// What instantiation returns: the allocator is installed at one, the
/// record store is untouched, and no directive is emitted.
pub open spec fn initialize_post(
    pre: RegistryView,
    post: RegistryView,
    sender: Seq<char>,
    r: Result<Response, ContractError>,
) -> bool {
    match r {
        Ok(resp) => {
            &&& post.next_id == 1
            &&& post.swaps == pre.swaps
            &&& resp.attributes@.len() == 2
            &&& attribute_is(resp.attributes@[0], "method"@, "instantiate"@)
            &&& attribute_is(resp.attributes@[1], "owner"@, sender)
            &&& resp.messages@.len() == 0
        },
        Err(_) => false,
    }
}

/// Sets up a freshly instantiated contract: the id allocator starts at
/// one.  Runs once, before any swap exists.
pub fn initialize(
    reg: &mut SwapRegistry,
    _env: &Env,
    info: &MessageInfo,
    _msg: InstantiateMsg,
) -> (r: Result<Response, ContractError>)
    requires
        old(reg).wf(),
        old(reg)@.swaps == Map::<nat, SwapView>::empty(),
    ensures
        final(reg).wf(),
        initialize_post(old(reg)@, final(reg)@, info.sender@, r),
{
    reg.set_initial_config();
    let mut attributes: Vec<Attribute> = Vec::new();
    attributes.push(
        Attribute { key: String::from_str("method"), value: String::from_str("instantiate") },
    );
    attributes.push(Attribute { key: String::from_str("owner"), value: info.sender.clone() });
    let messages: Vec<TransferDirective> = Vec::new();
    Ok(Response { attributes, messages })
}

/// What a successful initiation does to the registry: the initiator's
/// side is recorded under the allocated id, with no responder yet, and
/// the allocator advances by exactly one.
pub open spec fn initiate_transition(
    r: RegistryView,
    sender: Seq<char>,
    collection: Seq<char>,
    token_id: Seq<char>,
) -> RegistryView {
    RegistryView {
        next_id: r.next_id + 1,
        swaps: r.swaps.insert(
            r.next_id,
            (SwapView {
                lhs: (SideView { owner: sender, collection: collection, token_id: token_id }),
                rhs: None,
            }),
        ),
    }
}

/// The full outcome of `initiate_swap`.  A valid collection identifier
/// yields the transition above plus one directive that pulls the
/// initiator's token into contract custody; an invalid one is rejected
/// as `InvalidAddress` with the registry untouched — no id is consumed.
pub open spec fn initiate_post(
    pre: RegistryView,
    post: RegistryView,
    contract_address: Seq<char>,
    sender: Seq<char>,
    collection: Seq<char>,
    token_id: Seq<char>,
    r: Result<Response, ContractError>,
) -> bool {
    if valid_collection(collection) {
        match r {
            Ok(resp) => {
                &&& post == initiate_transition(pre, sender, collection, token_id)
                &&& resp.attributes@.len() == 2
                &&& attribute_is(resp.attributes@[0], "method"@, "create_swap"@)
                &&& attribute_is(resp.attributes@[1], "swap_id"@, dec_str(pre.next_id))
                &&& resp.messages@.len() == 1
                &&& directive_is(resp.messages@[0], collection, contract_address, token_id)
            },
            Err(_) => false,
        }
    } else {
        match r {
            Err(e) => post == pre && match e {
                ContractError::InvalidAddress { address } => address@ == collection,
                _ => false,
            },
            Ok(_) => false,
        }
    }
}

/// Opens a new swap.  The caller deposits `token_id` of `collection`;
/// the emitted directive moves that token into the contract's custody.
/// Ownership is not checked here — the asset ledger enforces it when the
/// directive executes, and the host rolls the record back if it fails.
pub fn initiate_swap(
    reg: &mut SwapRegistry,
    env: &Env,
    info: &MessageInfo,
    collection: String,
    token_id: String,
) -> (r: Result<Response, ContractError>)
    requires
        old(reg).wf(),
        valid_collection(collection@) ==> old(reg)@.next_id < u32::MAX as nat,
    ensures
        final(reg).wf(),
        initiate_post(
            old(reg)@,
            final(reg)@,
            env.contract_address@,
            info.sender@,
            collection@,
            token_id@,
            r,
        ),
{
    if !validate_collection(collection.as_str()) {
        return Err(ContractError::InvalidAddress { address: collection });
    }
    let swap_id = reg.allocate_id();
    let swap = Swap {
        lhs: SwapSide {
            owner: info.sender.clone(),
            collection: collection.clone(),
            token_id: token_id.clone(),
        },
        rhs: None,
    };
    reg.put(swap_id, swap);
    proof {
        assert(reg@ == initiate_transition(old(reg)@, info.sender@, collection@, token_id@));
    }
    let id_str = format_swap_id(swap_id);
    let mut attributes: Vec<Attribute> = Vec::new();
    attributes.push(
        Attribute { key: String::from_str("method"), value: String::from_str("create_swap") },
    );
    attributes.push(Attribute { key: String::from_str("swap_id"), value: id_str });
    let mut messages: Vec<TransferDirective> = Vec::new();
    messages.push(
        TransferDirective {
            collection: collection,
            recipient: env.contract_address.clone(),
            token_id: token_id,
        },
    );
    Ok(Response { attributes, messages })
}

/// What a successful response does to the registry: the responder's side
/// is set on the addressed record, the initiator's side and every other
/// record stay as they were, and the allocator does not move.
pub open spec fn respond_transition(
    r: RegistryView,
    key: nat,
    sender: Seq<char>,
    collection: Seq<char>,
    token_id: Seq<char>,
) -> RegistryView
    recommends
        r.swaps.contains_key(key),
{
    RegistryView {
        next_id: r.next_id,
        swaps: r.swaps.insert(
            key,
            (SwapView {
                lhs: r.swaps[key].lhs,
                rhs: Some(SideView { owner: sender, collection: collection, token_id: token_id }),
            }),
        ),
    }
}

/// The full outcome of `swap_reply`.  Validation comes first: an invalid
/// collection identifier fails `InvalidAddress` even when the id is
/// unknown.  A string that designates no stored record fails
/// `SwapNotFound`.  Both rejections leave the registry untouched.
pub open spec fn respond_post(
    pre: RegistryView,
    post: RegistryView,
    contract_address: Seq<char>,
    sender: Seq<char>,
    swap_id: Seq<char>,
    collection: Seq<char>,
    token_id: Seq<char>,
    r: Result<Response, ContractError>,
) -> bool {
    if !valid_collection(collection) {
        match r {
            Err(e) => post == pre && match e {
                ContractError::InvalidAddress { address } => address@ == collection,
                _ => false,
            },
            Ok(_) => false,
        }
    } else if !(is_swap_key(swap_id) && pre.swaps.contains_key(dec_val(swap_id))) {
        match r {
            Err(e) => post == pre && e == (ContractError::SwapNotFound {}),
            Ok(_) => false,
        }
    } else {
        match r {
            Ok(resp) => {
                &&& post == respond_transition(pre, dec_val(swap_id), sender, collection, token_id)
                &&& resp.attributes@.len() == 1
                &&& attribute_is(resp.attributes@[0], "method"@, "swap_reply"@)
                &&& resp.messages@.len() == 1
                &&& directive_is(resp.messages@[0], collection, contract_address, token_id)
            },
            Err(_) => false,
        }
    }
}

/// Answers an open swap.  The caller deposits the counterpart token; the
/// emitted directive moves it into contract custody, mirroring
/// initiation.  A second response to the same swap replaces the first
/// recorded responder side.
pub fn swap_reply(
    reg: &mut SwapRegistry,
    env: &Env,
    info: &MessageInfo,
    swap_id: String,
    collection: String,
    token_id: String,
) -> (r: Result<Response, ContractError>)
    requires
        old(reg).wf(),
    ensures
        final(reg).wf(),
        respond_post(
            old(reg)@,
            final(reg)@,
            env.contract_address@,
            info.sender@,
            swap_id@,
            collection@,
            token_id@,
            r,
        ),
{
    if !validate_collection(collection.as_str()) {
        return Err(ContractError::InvalidAddress { address: collection });
    }
    let key = match parse_swap_id(swap_id.as_str()) {
        Some(k) => k,
        None => {
            return Err(ContractError::SwapNotFound {});
        },
    };
    let lhs = match reg.get(key) {
        Some(swap) => swap.lhs.clone(),
        None => {
            return Err(ContractError::SwapNotFound {});
        },
    };
    proof {
        reg.lemma_wf_bounded();
    }
    let updated = Swap {
        lhs,
        rhs: Some(
            SwapSide {
                owner: info.sender.clone(),
                collection: collection.clone(),
                token_id: token_id.clone(),
            },
        ),
    };
    reg.put(key, updated);
    proof {
        assert(reg@ == respond_transition(
            old(reg)@,
            key as nat,
            info.sender@,
            collection@,
            token_id@,
        ));
    }
    let mut attributes: Vec<Attribute> = Vec::new();
    attributes.push(
        Attribute { key: String::from_str("method"), value: String::from_str("swap_reply") },
    );
    let mut messages: Vec<TransferDirective> = Vec::new();
    messages.push(
        TransferDirective {
            collection: collection,
            recipient: env.contract_address.clone(),
            token_id: token_id,
        },
    );
    Ok(Response { attributes, messages })
}

/// Deleting a record, as settlement and cancellation both do: the map
/// loses the key and the allocator does not move, so the id is never
/// handed out again.
pub open spec fn delete_transition(r: RegistryView, key: nat) -> RegistryView {
    RegistryView { next_id: r.next_id, swaps: r.swaps.remove(key) }
}

/// The full outcome of `finalize_swap`.  An id that designates no stored
/// record fails `SwapNotFound`; a record whose responder side is still
/// missing fails `SwapNotResponded`.  Both rejections leave the registry
/// untouched.  Otherwise the call settles the exchange: it emits one
/// directive releasing the initiator's escrowed token to the responder
/// and one releasing the responder's escrowed token to the initiator,
/// and deletes the record, so settlement cannot repeat.
pub open spec fn finalize_post(
    pre: RegistryView,
    post: RegistryView,
    swap_id: Seq<char>,
    r: Result<Response, ContractError>,
) -> bool {
    if !(is_swap_key(swap_id) && pre.swaps.contains_key(dec_val(swap_id))) {
        post == pre && r == Err::<Response, ContractError>(ContractError::SwapNotFound {})
    } else {
        let record = pre.swaps[dec_val(swap_id)];
        match record.rhs {
            None => post == pre && r == Err::<Response, ContractError>(
                ContractError::SwapNotResponded {},
            ),
            Some(rhs) => match r {
                Ok(resp) => {
                    &&& post == delete_transition(pre, dec_val(swap_id))
                    &&& resp.attributes@.len() == 1
                    &&& attribute_is(resp.attributes@[0], "method"@, "finalize_reply"@)
                    &&& resp.messages@.len() == 2
                    &&& directive_is(
                        resp.messages@[0],
                        record.lhs.collection,
                        rhs.owner,
                        record.lhs.token_id,
                    )
                    &&& directive_is(resp.messages@[1], rhs.collection, record.lhs.owner, rhs.token_id)
                },
                Err(_) => false,
            },
        }
    }
}

/// Settles a fully answered swap: each escrowed token is released to the
/// counterpart — the initiator's token to the responder's owner, the
/// responder's token to the initiator's owner — and the record is
/// deleted, so a second settlement of the same id fails `SwapNotFound`.
/// Succeeds exactly when the record exists and its responder side is
/// set; any caller may settle.
pub fn finalize_swap(reg: &mut SwapRegistry, _env: &Env, _info: &MessageInfo, swap_id: String) -> (r:
    Result<Response, ContractError>)
    requires
        old(reg).wf(),
    ensures
        final(reg).wf(),
        finalize_post(old(reg)@, final(reg)@, swap_id@, r),
{
    let key = match parse_swap_id(swap_id.as_str()) {
        Some(k) => k,
        None => {
            return Err(ContractError::SwapNotFound {});
        },
    };
    let (lhs, rhs) = match reg.get(key) {
        Some(swap) => match &swap.rhs {
            Some(side) => (swap.lhs.clone(), side.clone()),
            None => {
                return Err(ContractError::SwapNotResponded {});
            },
        },
        None => {
            return Err(ContractError::SwapNotFound {});
        },
    };
    reg.remove(key);
    let mut attributes: Vec<Attribute> = Vec::new();
    attributes.push(
        Attribute { key: String::from_str("method"), value: String::from_str("finalize_reply") },
    );
    let mut messages: Vec<TransferDirective> = Vec::new();
    messages.push(
        TransferDirective {
            collection: lhs.collection,
            recipient: rhs.owner,
            token_id: lhs.token_id,
        },
    );
    messages.push(
        TransferDirective {
            collection: rhs.collection,
            recipient: lhs.owner,
            token_id: rhs.token_id,
        },
    );
    Ok(Response { attributes, messages })
}

/// The full outcome of `cancel_swap`.  An id that designates no stored
/// record fails `SwapNotFound` with the registry untouched.  On success
/// one directive returns the initiator's token to its owner; a responder
/// side already recorded is not refunded here.
pub open spec fn cancel_post(
    pre: RegistryView,
    post: RegistryView,
    swap_id: Seq<char>,
    r: Result<Response, ContractError>,
) -> bool {
    if !(is_swap_key(swap_id) && pre.swaps.contains_key(dec_val(swap_id))) {
        match r {
            Err(e) => post == pre && e == (ContractError::SwapNotFound {}),
            Ok(_) => false,
        }
    } else {
        match r {
            Ok(resp) => {
                &&& post == delete_transition(pre, dec_val(swap_id))
                &&& resp.attributes@.len() == 1
                &&& attribute_is(resp.attributes@[0], "method"@, "cancel_swap"@)
                &&& resp.messages@.len() == 1
                &&& directive_is(
                    resp.messages@[0],
                    pre.swaps[dec_val(swap_id)].lhs.collection,
                    pre.swaps[dec_val(swap_id)].lhs.owner,
                    pre.swaps[dec_val(swap_id)].lhs.token_id,
                )
            },
            Err(_) => false,
        }
    }
}

/// Abandons a swap: the record is removed and the initiator's token is
/// sent back to its owner.  Any caller may cancel, and a responder side
/// already recorded is not refunded here.
pub fn cancel_swap(reg: &mut SwapRegistry, _env: &Env, _info: &MessageInfo, swap_id: String) -> (r:
    Result<Response, ContractError>)
    requires
        old(reg).wf(),
    ensures
        final(reg).wf(),
        cancel_post(old(reg)@, final(reg)@, swap_id@, r),
{
    let key = match parse_swap_id(swap_id.as_str()) {
        Some(k) => k,
        None => {
            return Err(ContractError::SwapNotFound {});
        },
    };
    let lhs = match reg.get(key) {
        Some(swap) => swap.lhs.clone(),
        None => {
            return Err(ContractError::SwapNotFound {});
        },
    };
    reg.remove(key);
    let mut attributes: Vec<Attribute> = Vec::new();
    attributes.push(
        Attribute { key: String::from_str("method"), value: String::from_str("cancel_swap") },
    );
    let mut messages: Vec<TransferDirective> = Vec::new();
    messages.push(
        TransferDirective {
            collection: lhs.collection,
            recipient: lhs.owner,
            token_id: lhs.token_id,
        },
    );
    Ok(Response { attributes, messages })
}

/// Ids are never reused: in a registry whose keys all lie below the
/// allocator, the id the next initiation will allocate keys no record —
/// not even one whose record was cancelled, because deletion never moves
/// the allocator back.
pub proof fn lemma_next_id_fresh(r: RegistryView)
    requires
        id_bounded(r),
    ensures
        !r.swaps.contains_key(r.next_id),
{
}

/// Successful initiations hand out strictly increasing ids: whatever
/// other operations run in between, as long as none of them moves the
/// allocator back, the second initiation announces a strictly larger id
/// — and a distinct id string.
pub proof fn lemma_ids_strictly_increasing(
    pre1: RegistryView,
    post1: RegistryView,
    contract1: Seq<char>,
    sender1: Seq<char>,
    collection1: Seq<char>,
    token1: Seq<char>,
    r1: Result<Response, ContractError>,
    pre2: RegistryView,
    post2: RegistryView,
    contract2: Seq<char>,
    sender2: Seq<char>,
    collection2: Seq<char>,
    token2: Seq<char>,
    r2: Result<Response, ContractError>,
)
    requires
        initiate_post(pre1, post1, contract1, sender1, collection1, token1, r1),
        r1 is Ok,
        post1.next_id <= pre2.next_id,
        initiate_post(pre2, post2, contract2, sender2, collection2, token2, r2),
        r2 is Ok,
    ensures
        pre2.next_id > pre1.next_id,
        dec_str(pre2.next_id) != dec_str(pre1.next_id),
{
    lemma_dec_str_round_trip(pre1.next_id);
    lemma_dec_str_round_trip(pre2.next_id);
}

/// How one operation moves the allocator: a successful initiation
/// advances it by exactly one, anything else leaves it alone.
pub open spec fn allocator_step(pre: RegistryView, post: RegistryView, initiated: bool) -> bool {
    post.next_id == pre.next_id + (if initiated {
        1nat
    } else {
        0nat
    })
}

/// How many steps of a run were successful initiations.
pub open spec fn count_true(s: Seq<bool>) -> nat
    decreases s.len(),
{
    if s.len() == 0 {
        0
    } else {
        count_true(s.drop_last()) + (if s.last() {
            1nat
        } else {
            0nat
        })
    }
}

/// Over any run of operations the allocator counts the successful
/// initiations: its final position is its initial one plus the number of
/// steps that allocated.
pub proof fn lemma_allocator_counts(states: Seq<RegistryView>, flags: Seq<bool>)
    requires
        states.len() == flags.len() + 1,
        forall|i: int|
            0 <= i < flags.len() ==> #[trigger] allocator_step(states[i], states[i + 1], flags[i]),
    ensures
        states.last().next_id == states[0].next_id + count_true(flags),
    decreases flags.len(),
{
    if flags.len() == 0 {
        assert(states.last() == states[0]);
    } else {
        let m = flags.len() as int;
        assert forall|i: int|
            0 <= i < flags.drop_last().len() implies #[trigger] allocator_step(
            states.drop_last()[i],
            states.drop_last()[i + 1],
            flags.drop_last()[i],
        ) by {
            assert(states.drop_last()[i] == states[i]);
            assert(states.drop_last()[i + 1] == states[i + 1]);
            assert(flags.drop_last()[i] == flags[i]);
            assert(allocator_step(states[i], states[i + 1], flags[i]));
        }
        lemma_allocator_counts(states.drop_last(), flags.drop_last());
        assert(states.drop_last().last() == states[m - 1]);
        assert(states.drop_last()[0] == states[0]);
        assert(allocator_step(states[m - 1], states[m], flags[m - 1]));
        assert(states.last() == states[m]);
    }
}

/// Starting from a freshly initialized registry, the n-th successful
/// initiation of a run happens with the allocator exactly at n
/// (1-based), whatever the other steps do: a step that allocates finds
/// the allocator one past the number of allocations before it, and so
/// announces that position as its id.
pub proof fn lemma_nth_initiation_gets_its_ordinal(
    states: Seq<RegistryView>,
    flags: Seq<bool>,
    i: int,
)
    requires
        states.len() == flags.len() + 1,
        forall|j: int|
            0 <= j < flags.len() ==> #[trigger] allocator_step(states[j], states[j + 1], flags[j]),
        states[0].next_id == 1,
        0 <= i < flags.len(),
        flags[i],
    ensures
        states[i].next_id == 1 + count_true(flags.subrange(0, i)),
{
    let sub_states = states.subrange(0, i + 1);
    let sub_flags = flags.subrange(0, i);
    assert forall|j: int|
        0 <= j < sub_flags.len() implies #[trigger] allocator_step(
        sub_states[j],
        sub_states[j + 1],
        sub_flags[j],
    ) by {
        assert(sub_states[j] == states[j]);
        assert(sub_states[j + 1] == states[j + 1]);
        assert(sub_flags[j] == flags[j]);
        assert(allocator_step(states[j], states[j + 1], flags[j]));
    }
    lemma_allocator_counts(sub_states, sub_flags);
    assert(sub_states.last() == states[i]);
    assert(sub_states[0] == states[0]);
}

/// An initiation is an allocator step: it advances the allocator exactly
/// when it succeeds.
pub proof fn lemma_initiate_allocator_step(
    pre: RegistryView,
    post: RegistryView,
    contract_address: Seq<char>,
    sender: Seq<char>,
    collection: Seq<char>,
    token_id: Seq<char>,
    r: Result<Response, ContractError>,
)
    requires
        initiate_post(pre, post, contract_address, sender, collection, token_id, r),
    ensures
        allocator_step(pre, post, r is Ok),
{
}

/// Answering a swap never moves the allocator.
pub proof fn lemma_respond_preserves_allocator(
    pre: RegistryView,
    post: RegistryView,
    contract_address: Seq<char>,
    sender: Seq<char>,
    swap_id: Seq<char>,
    collection: Seq<char>,
    token_id: Seq<char>,
    r: Result<Response, ContractError>,
)
    requires
        respond_post(pre, post, contract_address, sender, swap_id, collection, token_id, r),
    ensures
        post.next_id == pre.next_id,
        allocator_step(pre, post, false),
{
}

/// Cancelling a swap never moves the allocator: a deleted record does
/// not free its id for reuse.
pub proof fn lemma_cancel_preserves_allocator(
    pre: RegistryView,
    post: RegistryView,
    swap_id: Seq<char>,
    r: Result<Response, ContractError>,
)
    requires
        cancel_post(pre, post, swap_id, r),
    ensures
        post.next_id == pre.next_id,
        allocator_step(pre, post, false),
{
}

/// Settling a swap never moves the allocator: a settled record's id is
/// not freed for reuse.
pub proof fn lemma_finalize_preserves_allocator(
    pre: RegistryView,
    post: RegistryView,
    swap_id: Seq<char>,
    r: Result<Response, ContractError>,
)
    requires
        finalize_post(pre, post, swap_id, r),
    ensures
        post.next_id == pre.next_id,
        allocator_step(pre, post, false),
{
}

/// Settlement cannot repeat: once a settlement of an id succeeds, its
/// record is gone, and a second settlement of the same id fails
/// `SwapNotFound` without touching the registry.
pub proof fn lemma_finalize_blocks_replay(
    pre: RegistryView,
    mid: RegistryView,
    post: RegistryView,
    swap_id: Seq<char>,
    r1: Result<Response, ContractError>,
    r2: Result<Response, ContractError>,
)
    requires
        finalize_post(pre, mid, swap_id, r1),
        r1 is Ok,
        finalize_post(mid, post, swap_id, r2),
    ensures
        r2 == Err::<Response, ContractError>(ContractError::SwapNotFound {}),
        post == mid,
{
}

/// A successful response sets exactly the responder side of exactly the
/// addressed record: the initiator's side is untouched, and every other
/// record is exactly as it was.
pub proof fn lemma_respond_preserves_lhs(
    pre: RegistryView,
    post: RegistryView,
    contract_address: Seq<char>,
    sender: Seq<char>,
    swap_id: Seq<char>,
    collection: Seq<char>,
    token_id: Seq<char>,
    r: Result<Response, ContractError>,
)
    requires
        respond_post(pre, post, contract_address, sender, swap_id, collection, token_id, r),
        r is Ok,
    ensures
        is_swap_key(swap_id),
        pre.swaps.contains_key(dec_val(swap_id)),
        post.swaps.contains_key(dec_val(swap_id)),
        post.swaps[dec_val(swap_id)].lhs == pre.swaps[dec_val(swap_id)].lhs,
        post.swaps[dec_val(swap_id)].rhs == Some(
            SideView { owner: sender, collection: collection, token_id: token_id },
        ),
        forall|k: nat|
            k != dec_val(swap_id) ==> (#[trigger] post.swaps.contains_key(k))
                == pre.swaps.contains_key(k),
        forall|k: nat|
            k != dec_val(swap_id) && pre.swaps.contains_key(k) ==> (#[trigger] post.swaps[k])
                == pre.swaps[k],
{
}

} // verus!
