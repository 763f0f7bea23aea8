use linera::amount::{Amount, Balance};
use linera::base::{
    BlockHeight, ChainDescription, ChainId, ChainOwnership, ChannelId, Committee, Destination,
    EffectId, Epoch, HashValue, Owner, PublicKey, ValidatorState,
};
use linera::committees::Committees;
use linera::execution::{EffectContext, OperationContext, QueryContext};
use linera::system::{
    admin_channel, published_bytecodes_channel, system_application_id, Address, SystemEffect,
    SystemExecutionError, SystemExecutionState, SystemExecutionStateView, SystemOperation,
    SystemQuery, UserData,
};

fn chain(n: u8) -> ChainId {
    ChainId(HashValue { bytes: [n; 64] })
}

fn owner(n: u8) -> Owner {
    Owner(PublicKey { bytes: [n; 32] })
}

fn committee(n: u8) -> Committee {
    Committee { validators: vec![ValidatorState { name: PublicKey { bytes: [n; 32] }, votes: 1 }] }
}

fn committees_at_zero() -> Committees {
    let mut c = Committees::new();
    c.insert(Epoch(0), committee(9));
    c
}

fn active_state(balance: u128) -> SystemExecutionStateView {
    let mut state = SystemExecutionState::default();
    state.description = Some(ChainDescription::Root(0));
    state.epoch = Some(Epoch(0));
    state.admin_id = Some(chain(0));
    state.committees = committees_at_zero();
    state.ownership = ChainOwnership::single(owner(1));
    state.balance = Balance::from_u128(balance);
    state.into_view()
}

fn context_of(chain_id: ChainId) -> OperationContext {
    OperationContext {
        chain_id,
        authenticated_signer: None,
        height: BlockHeight(1),
        index: 0,
        next_message_index: 0,
    }
}

fn effect_context_of(chain_id: ChainId) -> EffectContext {
    EffectContext {
        chain_id,
        height: BlockHeight(2),
        effect_id: EffectId { chain_id: chain(7), height: BlockHeight(1), index: 0 },
    }
}

fn admin_channel_of(admin: ChainId) -> ChannelId {
    ChannelId { chain_id: admin, name: "ADMIN".to_string() }
}

#[test]
fn default_state_is_inactive_and_empty() {
    let state = SystemExecutionState::default();
    assert!(state.description.is_none());
    assert!(state.epoch.is_none());
    assert!(state.admin_id.is_none());
    assert_eq!(state.subscriptions.len(), 0);
    assert!(state.committees.is_empty());
    assert!(!state.ownership.is_active());
    assert_eq!(state.balance.to_u128(), 0);
    assert!(!state.into_view().is_active());
}

#[test]
fn initialized_state_is_active() {
    let view = active_state(0);
    assert!(view.is_active());
}

#[test]
fn channel_names_and_system_id() {
    assert_eq!(admin_channel(), "ADMIN");
    assert_eq!(published_bytecodes_channel(), "PUBLISHED_BYTECODES");
    assert_eq!(system_application_id().0, 0);
}

#[test]
fn transfer_moves_money_to_the_recipient() {
    let mut view = active_state(10);
    let op = SystemOperation::Transfer {
        recipient: Address::Account(chain(2)),
        amount: Amount::from_u64(3),
        user_data: UserData(None),
    };
    let result = view.execute_operation(&context_of(chain(1)), &op, &chain(50)).unwrap();
    assert_eq!(view.balance.to_u128(), 7);
    assert_eq!(result.effects.len(), 1);
    assert!(result.subscribe.is_empty() && result.unsubscribe.is_empty());
    match &result.effects[0] {
        (Destination::Recipient(to), SystemEffect::Credit { recipient, amount }) => {
            assert_eq!(to.0.bytes, chain(2).0.bytes);
            assert_eq!(recipient.0.bytes, chain(2).0.bytes);
            assert_eq!(amount.to_u64(), 3);
        }
        _ => panic!("a transfer to an account sends a credit"),
    }
    let mut recipient = active_state(100);
    let credit = &result.effects[0].1;
    let r = recipient.execute_effect(&effect_context_of(chain(2)), credit).unwrap();
    assert!(r.effects.is_empty());
    assert_eq!(recipient.balance.to_u128(), 103);
}

#[test]
fn self_transfer_restores_the_balance() {
    let mut view = active_state(10);
    let op = SystemOperation::Transfer {
        recipient: Address::Account(chain(1)),
        amount: Amount::from_u64(4),
        user_data: UserData(Some([1; 32])),
    };
    let result = view.execute_operation(&context_of(chain(1)), &op, &chain(50)).unwrap();
    assert_eq!(view.balance.to_u128(), 6);
    view.execute_effect(&effect_context_of(chain(1)), &result.effects[0].1).unwrap();
    assert_eq!(view.balance.to_u128(), 10);
}

#[test]
fn transfer_to_burn_sends_nothing() {
    let mut view = active_state(10);
    let op = SystemOperation::Transfer { recipient: Address::Burn, amount: Amount::from_u64(10), user_data: UserData(None) };
    let result = view.execute_operation(&context_of(chain(1)), &op, &chain(50)).unwrap();
    assert!(result.effects.is_empty());
    assert_eq!(view.balance.to_u128(), 0);
}

#[test]
fn transfer_of_nothing_is_refused() {
    let mut view = active_state(10);
    let op = SystemOperation::Transfer { recipient: Address::Burn, amount: Amount::zero(), user_data: UserData(None) };
    let r = view.execute_operation(&context_of(chain(1)), &op, &chain(50));
    assert!(matches!(r, Err(SystemExecutionError::IncorrectTransferAmount)));
    assert_eq!(view.balance.to_u128(), 10);
}

#[test]
fn transfer_beyond_the_balance_is_refused() {
    let mut view = active_state(10);
    let op = SystemOperation::Transfer {
        recipient: Address::Account(chain(2)),
        amount: Amount::from_u64(11),
        user_data: UserData(None),
    };
    let r = view.execute_operation(&context_of(chain(1)), &op, &chain(50));
    assert!(matches!(r, Err(SystemExecutionError::InsufficientFunding { current_balance: 10 })));
    assert_eq!(view.balance.to_u128(), 10);
}

#[test]
fn credit_saturates_at_the_largest_balance() {
    let mut view = active_state(u128::MAX - 1);
    let effect = SystemEffect::Credit { recipient: chain(2), amount: Amount::from_u64(5) };
    view.execute_effect(&effect_context_of(chain(2)), &effect).unwrap();
    assert_eq!(view.balance.to_u128(), u128::MAX);
}

#[test]
fn credit_for_another_chain_is_skipped() {
    let mut view = active_state(5);
    let effect = SystemEffect::Credit { recipient: chain(3), amount: Amount::from_u64(5) };
    let r = view.execute_effect(&effect_context_of(chain(2)), &effect).unwrap();
    assert!(r.effects.is_empty());
    assert_eq!(view.balance.to_u128(), 5);
}

#[test]
fn subscribing_twice_fails_and_unsubscribing_undoes_it() {
    let mut view = active_state(0);
    let ctx = context_of(chain(1));
    let subscribe = SystemOperation::SubscribeToNewCommittees { admin_id: chain(0) };
    let result = view.execute_operation(&ctx, &subscribe, &chain(50)).unwrap();
    assert!(view.subscriptions.contains(&admin_channel_of(chain(0))));
    assert_eq!(result.effects.len(), 1);
    match &result.effects[0] {
        (Destination::Recipient(to), SystemEffect::Subscribe { id, channel }) => {
            assert_eq!(to.0.bytes, chain(0).0.bytes);
            assert_eq!(id.0.bytes, chain(1).0.bytes);
            assert_eq!(channel.name, "ADMIN");
        }
        _ => panic!("a subscription tells the admin chain"),
    }
    let again = view.execute_operation(&ctx, &subscribe, &chain(50));
    assert!(matches!(again, Err(SystemExecutionError::InvalidSubscriptionToNewCommittees(_))));
    let unsubscribe = SystemOperation::UnsubscribeToNewCommittees { admin_id: chain(0) };
    let result = view.execute_operation(&ctx, &unsubscribe, &chain(50)).unwrap();
    assert!(matches!(&result.effects[0].1, SystemEffect::Unsubscribe { .. }));
    assert!(!view.subscriptions.contains(&admin_channel_of(chain(0))));
    assert_eq!(view.subscriptions.len(), 0);
    let again = view.execute_operation(&ctx, &unsubscribe, &chain(50));
    assert!(matches!(again, Err(SystemExecutionError::InvalidUnsubscriptionToNewCommittees(_))));
}

#[test]
fn the_admin_chain_cannot_subscribe_to_itself() {
    let mut view = active_state(0);
    let op = SystemOperation::SubscribeToNewCommittees { admin_id: chain(0) };
    let r = view.execute_operation(&context_of(chain(0)), &op, &chain(50));
    assert!(matches!(r, Err(SystemExecutionError::InvalidSubscriptionToNewCommittees(_))));
    let op = SystemOperation::SubscribeToNewCommittees { admin_id: chain(4) };
    let r = view.execute_operation(&context_of(chain(1)), &op, &chain(50));
    assert!(matches!(r, Err(SystemExecutionError::InvalidSubscriptionToNewCommittees(_))));
}

#[test]
fn the_admin_chain_creates_and_removes_committees() {
    let mut view = active_state(0);
    let ctx = context_of(chain(0));
    let create = SystemOperation::CreateCommittee { admin_id: chain(0), epoch: Epoch(1), committee: committee(8) };
    let result = view.execute_operation(&ctx, &create, &chain(50)).unwrap();
    assert_eq!(view.epoch, Some(Epoch(1)));
    assert!(view.committees.contains_key(Epoch(0)));
    assert!(view.committees.contains_key(Epoch(1)));
    match &result.effects[0] {
        (Destination::Subscribers(name), SystemEffect::SetCommittees { epoch, committees, .. }) => {
            assert_eq!(name, "ADMIN");
            assert_eq!(*epoch, Epoch(1));
            assert!(committees.contains_key(Epoch(1)));
        }
        _ => panic!("new committees are published on the admin channel"),
    }
    let skip = SystemOperation::CreateCommittee { admin_id: chain(0), epoch: Epoch(3), committee: committee(8) };
    assert!(matches!(view.execute_operation(&ctx, &skip, &chain(50)), Err(SystemExecutionError::InvalidCommitteeCreation)));
    let remove = SystemOperation::RemoveCommittee { admin_id: chain(0), epoch: Epoch(1) };
    view.execute_operation(&ctx, &remove, &chain(50)).unwrap();
    assert!(!view.committees.contains_key(Epoch(1)));
    assert_eq!(view.epoch, Some(Epoch(1)));
    assert!(matches!(view.execute_operation(&ctx, &remove, &chain(50)), Err(SystemExecutionError::InvalidCommitteeRemoval)));
}

#[test]
fn only_the_admin_chain_creates_committees() {
    let mut view = active_state(0);
    let create = SystemOperation::CreateCommittee { admin_id: chain(0), epoch: Epoch(1), committee: committee(8) };
    let r = view.execute_operation(&context_of(chain(1)), &create, &chain(50));
    assert!(matches!(r, Err(SystemExecutionError::InvalidCommitteeCreation)));
    let remove = SystemOperation::RemoveCommittee { admin_id: chain(0), epoch: Epoch(0) };
    let r = view.execute_operation(&context_of(chain(1)), &remove, &chain(50));
    assert!(matches!(r, Err(SystemExecutionError::InvalidCommitteeRemoval)));
    assert_eq!(view.epoch, Some(Epoch(0)));
}

#[test]
fn committees_cannot_be_created_past_the_last_epoch() {
    let mut state = SystemExecutionState::default();
    state.epoch = Some(Epoch(u64::MAX));
    state.admin_id = Some(chain(0));
    let mut view = state.into_view();
    let create = SystemOperation::CreateCommittee { admin_id: chain(0), epoch: Epoch(0), committee: committee(8) };
    let r = view.execute_operation(&context_of(chain(0)), &create, &chain(50));
    assert!(matches!(r, Err(SystemExecutionError::BaseError(_))));
}

#[test]
fn closing_a_chain_unsubscribes_and_deactivates_it() {
    let mut view = active_state(0);
    let ctx = context_of(chain(1));
    view.execute_operation(&ctx, &SystemOperation::SubscribeToNewCommittees { admin_id: chain(0) }, &chain(50)).unwrap();
    let result = view.execute_operation(&ctx, &SystemOperation::CloseChain, &chain(50)).unwrap();
    assert!(!view.is_active());
    assert!(!view.ownership.is_active());
    assert_eq!(view.subscriptions.len(), 0);
    assert_eq!(result.effects.len(), 1);
    match &result.effects[0] {
        (Destination::Recipient(to), SystemEffect::Unsubscribe { id, channel }) => {
            assert_eq!(to.0.bytes, chain(0).0.bytes);
            assert_eq!(id.0.bytes, chain(1).0.bytes);
            assert_eq!(channel.name, "ADMIN");
        }
        _ => panic!("closing a chain unsubscribes from its channels"),
    }
}

#[test]
fn changing_owners_replaces_the_ownership() {
    let mut view = active_state(0);
    let ctx = context_of(chain(1));
    view.execute_operation(&ctx, &SystemOperation::ChangeOwner { new_owner: owner(5) }, &chain(50)).unwrap();
    assert!(matches!(&view.ownership, ChainOwnership::Single { owner } if owner.0.bytes == [5; 32]));
    let op = SystemOperation::ChangeMultipleOwners { new_owners: vec![owner(6), owner(7)] };
    let r = view.execute_operation(&ctx, &op, &chain(50)).unwrap();
    assert!(r.effects.is_empty());
    assert!(matches!(&view.ownership, ChainOwnership::Multi { owners } if owners.len() == 2));
}

#[test]
fn opening_a_chain_checks_its_configuration() {
    let mut view = active_state(0);
    let ctx = context_of(chain(1));
    let child = chain(60);
    let open = |id: ChainId, admin_id: ChainId, epoch: Epoch, committees: Committees| SystemOperation::OpenChain {
        id,
        owner: owner(3),
        admin_id,
        epoch,
        committees,
    };
    let result = view
        .execute_operation(&ctx, &open(child, chain(0), Epoch(0), committees_at_zero()), &child)
        .unwrap();
    assert_eq!(result.effects.len(), 2);
    assert!(matches!(&result.effects[0], (Destination::Recipient(to), SystemEffect::OpenChain { .. }) if to.0.bytes == child.0.bytes));
    assert!(matches!(&result.effects[1], (Destination::Recipient(to), SystemEffect::Subscribe { .. }) if to.0.bytes == chain(0).0.bytes));
    let r = view.execute_operation(&ctx, &open(chain(61), chain(0), Epoch(0), committees_at_zero()), &child);
    assert!(matches!(r, Err(SystemExecutionError::InvalidNewChainId(_))));
    let r = view.execute_operation(&ctx, &open(child, chain(5), Epoch(0), committees_at_zero()), &child);
    assert!(matches!(r, Err(SystemExecutionError::InvalidNewChainAdminId(_))));
    let r = view.execute_operation(&ctx, &open(child, chain(0), Epoch(0), Committees::new()), &child);
    assert!(matches!(r, Err(SystemExecutionError::InvalidCommittees)));
    let r = view.execute_operation(&ctx, &open(child, chain(0), Epoch(1), committees_at_zero()), &child);
    assert!(matches!(r, Err(SystemExecutionError::InvalidEpoch { epoch: Epoch(1), .. })));
}

#[test]
fn a_new_chain_is_initialized_from_its_configuration() {
    let mut view = SystemExecutionState::default().into_view();
    let effect_id = EffectId { chain_id: chain(1), height: BlockHeight(4), index: 2 };
    view.open_chain(effect_id, chain(60), owner(3), Epoch(0), committees_at_zero(), chain(0), &chain(60));
    assert!(view.is_active());
    assert!(matches!(view.description, Some(ChainDescription::Child(e)) if e.index == 2 && e.height == BlockHeight(4)));
    assert!(view.subscriptions.contains(&admin_channel_of(chain(0))));
    assert!(matches!(&view.ownership, ChainOwnership::Single { owner } if owner.0.bytes == [3; 32]));
    assert_eq!(view.balance.to_u128(), 0);
}

#[test]
fn new_committees_never_rewind_the_epoch() {
    let mut view = active_state(0);
    let ectx = effect_context_of(chain(1));
    let mut newer = Committees::new();
    newer.insert(Epoch(2), committee(4));
    let effect = SystemEffect::SetCommittees { admin_id: chain(0), epoch: Epoch(2), committees: newer };
    view.execute_effect(&ectx, &effect).unwrap();
    assert_eq!(view.epoch, Some(Epoch(2)));
    assert!(view.committees.contains_key(Epoch(2)));
    assert!(!view.committees.contains_key(Epoch(0)));
    let older = SystemEffect::SetCommittees { admin_id: chain(0), epoch: Epoch(1), committees: committees_at_zero() };
    assert!(matches!(view.execute_effect(&ectx, &older), Err(SystemExecutionError::CannotRewindEpoch)));
    assert_eq!(view.epoch, Some(Epoch(2)));
    let foreign = SystemEffect::SetCommittees { admin_id: chain(9), epoch: Epoch(7), committees: Committees::new() };
    view.execute_effect(&ectx, &foreign).unwrap();
    assert_eq!(view.epoch, Some(Epoch(2)));
}

#[test]
fn the_publisher_of_a_channel_answers_subscriptions() {
    let mut view = active_state(0);
    let ectx = effect_context_of(chain(0));
    let effect = SystemEffect::Subscribe { id: chain(1), channel: admin_channel_of(chain(0)) };
    let r = view.execute_effect(&ectx, &effect).unwrap();
    assert!(matches!(&r.effects[0], (Destination::Recipient(to), SystemEffect::Notify { .. }) if to.0.bytes == chain(1).0.bytes));
    assert_eq!(r.subscribe.len(), 1);
    assert_eq!(r.subscribe[0].0, "ADMIN");
    let effect = SystemEffect::Unsubscribe { id: chain(1), channel: admin_channel_of(chain(0)) };
    let r = view.execute_effect(&ectx, &effect).unwrap();
    assert_eq!(r.unsubscribe.len(), 1);
    assert!(r.subscribe.is_empty());
}

#[test]
fn publishing_bytecode_notifies_the_subscribers() {
    let mut view = active_state(0);
    let op = SystemOperation::PublishBytecode {
        contract: linera::base::Bytecode { bytes: vec![1, 2] },
        service: linera::base::Bytecode { bytes: vec![3] },
    };
    let r = view.execute_operation(&context_of(chain(1)), &op, &chain(50)).unwrap();
    assert!(matches!(&r.effects[0], (Destination::Subscribers(name), SystemEffect::BytecodePublished) if name == "PUBLISHED_BYTECODES"));
}

#[test]
fn queries_answer_the_chain_and_its_balance() {
    let view = active_state(77);
    let ctx = QueryContext { chain_id: chain(1) };
    let r = view.query_application(&ctx, &SystemQuery).unwrap();
    assert_eq!(r.chain_id.0.bytes, chain(1).0.bytes);
    assert_eq!(r.balance.to_u128(), 77);
}

#[test]
fn operation_context_identifies_messages_and_refunds() {
    let ctx = OperationContext {
        chain_id: chain(1),
        authenticated_signer: Some(owner(2)),
        height: BlockHeight(8),
        index: 3,
        next_message_index: 5,
    };
    let id = ctx.next_message_id();
    assert_eq!(id.chain_id.0.bytes, chain(1).0.bytes);
    assert_eq!(id.height, BlockHeight(8));
    assert_eq!(id.index, 5);
    let account = ctx.refund_grant_to().unwrap();
    assert_eq!(account.chain_id.0.bytes, chain(1).0.bytes);
    assert_eq!(account.owner.unwrap().0.bytes, [2; 32]);
    let effect_id = ctx.effect_id();
    assert_eq!(effect_id.index, 3);
    assert_eq!(effect_id.height, BlockHeight(8));
}
