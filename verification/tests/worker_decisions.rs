use linera::outboxes::group_outboxes;
use linera::base::{ApplicationId, BlockHeight, ChainId, Destination, Epoch, HashValue, Owner, PublicKey};
use linera::worker::{
    check_block_chaining, check_block_epoch, check_block_timestamp, check_execution_agrees, heights_to_load,
    record_confirmed_block, check_confirmed_block, complete_confirmed_block, ChainConfirmationState, ConfirmedBlock, check_next_block_height, check_no_missing_blobs,
    check_proposal_signers, check_values_only_for_confirmed, confirmed_block_step, get_missing_blobs,
    get_missing_bytecodes, height_with_fully_delivered_messages, medium_of, message_index,
    pending_message_action, sent_certificate_range, should_wait_for_delivery, update_recipient_actions,
    ArithmeticError, BlobId, BytecodeLocation, ChainTipState, ChainWorkerConfig, ConfirmationStep,
    validated_block_step, ValidationStep, CrossChainRequest, CryptoHash, DeliveryNotifiers, Medium, MessageAction, Reason, WorkerError,
};

fn chain_of(n: u8) -> ChainId {
    ChainId(HashValue { bytes: [n; 64] })
}

fn crypto(n: u8) -> CryptoHash {
    CryptoHash { bytes: [n; 32] }
}

fn blob(n: u8) -> BlobId {
    BlobId(crypto(n))
}

fn location(n: u8, index: u32) -> BytecodeLocation {
    BytecodeLocation { certificate_hash: crypto(n), operation_index: index }
}

fn owner_of(n: u8) -> Owner {
    Owner(PublicKey { bytes: [n; 32] })
}

#[test]
fn blocks_are_confirmed_in_order() {
    assert!(matches!(confirmed_block_step(BlockHeight(3), BlockHeight(3)), Ok(ConfirmationStep::Execute)));
    assert!(matches!(confirmed_block_step(BlockHeight(4), BlockHeight(3)), Ok(ConfirmationStep::AlreadyConfirmed)));
    assert!(matches!(
        confirmed_block_step(BlockHeight(2), BlockHeight(3)),
        Err(WorkerError::MissingEarlierBlocks { current_block_height: BlockHeight(2) })
    ));
}

#[test]
fn advancing_the_tip_confirms_the_block_once() {
    let mut tip = ChainTipState {
        block_hash: None,
        next_block_height: BlockHeight(3),
        num_incoming_messages: 1,
        num_operations: 2,
        num_outgoing_messages: 3,
    };
    assert!(matches!(confirmed_block_step(tip.next_block_height, BlockHeight(3)), Ok(ConfirmationStep::Execute)));
    tip.advance(crypto(9), 4, 5, 6).unwrap();
    assert_eq!(tip.next_block_height, BlockHeight(4));
    assert_eq!(tip.block_hash.unwrap().bytes, [9; 32]);
    assert_eq!((tip.num_incoming_messages, tip.num_operations, tip.num_outgoing_messages), (5, 7, 9));
    assert!(matches!(confirmed_block_step(tip.next_block_height, BlockHeight(3)), Ok(ConfirmationStep::AlreadyConfirmed)));
    assert!(matches!(confirmed_block_step(tip.next_block_height, BlockHeight(4)), Ok(ConfirmationStep::Execute)));
    let mut last = ChainTipState { next_block_height: BlockHeight(u64::MAX), ..tip };
    assert!(matches!(last.advance(crypto(1), 0, 0, 0), Err(WorkerError::ArithmeticError(ArithmeticError::Overflow))));
    assert_eq!(last.next_block_height, BlockHeight(u64::MAX));
}

#[test]
fn blocks_must_be_at_the_chain_epoch() {
    assert!(check_block_epoch(Epoch(2), chain_of(1), Epoch(2)).is_ok());
    assert!(matches!(
        check_block_epoch(Epoch(2), chain_of(1), Epoch(1)),
        Err(WorkerError::InvalidEpoch { chain_epoch: Epoch(2), epoch: Epoch(1), .. })
    ));
}

#[test]
fn missing_blobs_and_bytecodes_are_reported_together() {
    assert!(check_no_missing_blobs(vec![], vec![]).is_ok());
    assert!(matches!(check_no_missing_blobs(vec![], vec![blob(1)]), Err(WorkerError::BlobsNotFound(b)) if b.len() == 1));
    assert!(matches!(
        check_no_missing_blobs(vec![location(1, 0)], vec![]),
        Err(WorkerError::ApplicationBytecodesNotFound(l)) if l.len() == 1
    ));
    assert!(matches!(
        check_no_missing_blobs(vec![location(1, 0)], vec![blob(2), blob(3)]),
        Err(WorkerError::ApplicationBytecodesAndBlobsNotFound(l, b)) if l.len() == 1 && b.len() == 2
    ));
}

#[test]
fn missing_blobs_are_those_nowhere_to_be_found() {
    let required = vec![blob(1), blob(2), blob(3), blob(4)];
    let missing = get_missing_blobs(required, &vec![blob(2)], &vec![blob(3)], &vec![]).unwrap();
    assert_eq!(missing.len(), 2);
    assert_eq!(missing[0].0.bytes, [1; 32]);
    assert_eq!(missing[1].0.bytes, [4; 32]);
    let none = get_missing_blobs(vec![blob(1)], &vec![], &vec![], &vec![blob(1)]).unwrap();
    assert!(none.is_empty());
}

#[test]
fn unneeded_blobs_are_refused() {
    let r = get_missing_blobs(vec![blob(1)], &vec![blob(1), blob(5)], &vec![], &vec![]);
    assert!(matches!(r, Err(WorkerError::UnneededBlob { blob_id }) if blob_id.0.bytes == [5; 32]));
    let r = get_missing_blobs(vec![blob(1)], &vec![blob(1), blob(1)], &vec![], &vec![]);
    assert!(matches!(r, Err(WorkerError::UnneededBlob { blob_id }) if blob_id.0.bytes == [1; 32]));
}

#[test]
fn bytecodes_to_look_up_are_one_per_certificate() {
    let required = vec![location(1, 0), location(2, 0), location(1, 3), location(3, 1)];
    let l = get_missing_bytecodes(&required, &vec![crypto(2)], &vec![crypto(3)]).unwrap();
    assert_eq!(l.len(), 1);
    assert_eq!(l[0].certificate_hash.bytes, [1; 32]);
    assert_eq!(l[0].operation_index, 3);
    let r = get_missing_bytecodes(&required, &vec![crypto(7)], &vec![]);
    assert!(matches!(r, Err(WorkerError::UnneededValue { value_hash }) if value_hash.bytes == [7; 32]));
    let r = get_missing_bytecodes(&required, &vec![crypto(2), crypto(2)], &vec![]);
    assert!(matches!(r, Err(WorkerError::UnneededValue { value_hash }) if value_hash.bytes == [2; 32]));
}

#[test]
fn values_come_only_with_confirmed_blocks() {
    assert!(check_values_only_for_confirmed(true, &vec![crypto(1)]).is_ok());
    assert!(check_values_only_for_confirmed(false, &vec![]).is_ok());
    let r = check_values_only_for_confirmed(false, &vec![crypto(4), crypto(5)]);
    assert!(matches!(r, Err(WorkerError::UnneededValue { value_hash }) if value_hash.bytes == [4; 32]));
}

#[test]
fn proposals_are_checked_for_consistency_and_signer() {
    assert!(check_proposal_signers(false, false, None, owner_of(1)).is_ok());
    assert!(check_proposal_signers(false, false, Some(owner_of(1)), owner_of(1)).is_ok());
    assert!(matches!(
        check_proposal_signers(false, false, Some(owner_of(2)), owner_of(1)),
        Err(WorkerError::InvalidSigner(o)) if o.0.bytes == [2; 32]
    ));
    assert!(check_proposal_signers(true, true, Some(owner_of(2)), owner_of(1)).is_ok());
    assert!(matches!(
        check_proposal_signers(true, false, None, owner_of(1)),
        Err(WorkerError::InvalidBlockProposal(m))
            if m == "Must contain a validation certificate if and only if oracle responses are forced from a previous round"
    ));
}

#[test]
fn timestamps_may_be_ahead_by_the_grace_period() {
    let config = ChainWorkerConfig::new().with_grace_period(500);
    assert_eq!(config.grace_period_micros, 500);
    assert!(check_block_timestamp(1_500, 1_000, config.grace_period_micros).is_ok());
    assert!(check_block_timestamp(900, 1_000, 0).is_ok());
    assert!(matches!(check_block_timestamp(1_501, 1_000, 500), Err(WorkerError::InvalidTimestamp)));
}

#[test]
fn worker_configuration_builders_set_one_field() {
    let c = ChainWorkerConfig::new();
    assert!(!c.allow_inactive_chains && !c.allow_messages_from_deprecated_epochs && c.grace_period_micros == 0);
    let c = c.with_allow_inactive_chains(true).with_allow_messages_from_deprecated_epochs(true);
    assert!(c.allow_inactive_chains && c.allow_messages_from_deprecated_epochs);
}

#[test]
fn sent_certificates_are_read_within_the_log() {
    assert_eq!(sent_certificate_range(2, None, 10).unwrap(), (2, 10));
    assert_eq!(sent_certificate_range(2, Some(3), 10).unwrap(), (2, 5));
    assert_eq!(sent_certificate_range(8, Some(5), 10).unwrap(), (8, 10));
    assert!(matches!(
        sent_certificate_range(1, Some(u64::MAX), 10),
        Err(WorkerError::ArithmeticError(ArithmeticError::Overflow))
    ));
}

#[test]
fn queries_may_check_the_next_block_height() {
    assert!(check_next_block_height(None, BlockHeight(5)).is_ok());
    assert!(check_next_block_height(Some(BlockHeight(5)), BlockHeight(5)).is_ok());
    assert!(matches!(
        check_next_block_height(Some(BlockHeight(4)), BlockHeight(5)),
        Err(WorkerError::UnexpectedBlockHeight { expected_block_height: BlockHeight(4), found_block_height: BlockHeight(5) })
    ));
}

#[test]
fn closed_chains_reject_pending_messages() {
    assert_eq!(pending_message_action(true), MessageAction::Reject);
    assert_eq!(pending_message_action(false), MessageAction::Accept);
}

#[test]
fn messages_travel_directly_or_on_channels() {
    assert!(matches!(medium_of(&Destination::Recipient(chain_of(1)), ApplicationId(3)), Medium::Direct));
    assert!(matches!(
        medium_of(&Destination::Subscribers("news".to_string()), ApplicationId(3)),
        Medium::Channel { application_id: ApplicationId(3), name } if name == "news"
    ));
    assert_eq!(message_index(7).unwrap(), 7);
}

#[test]
fn fully_delivered_height_is_the_highest_delivered() {
    let latest = vec![(BlockHeight(4), true), (BlockHeight(9), false), (BlockHeight(6), true)];
    assert_eq!(height_with_fully_delivered_messages(&latest), BlockHeight(6));
    assert_eq!(height_with_fully_delivered_messages(&vec![]), BlockHeight(0));
    assert!(should_wait_for_delivery(&vec![false, true]));
    assert!(!should_wait_for_delivery(&vec![false, false]));
}

#[test]
fn delivery_notifiers_are_taken_by_height() {
    let mut notifiers = DeliveryNotifiers::new();
    assert!(notifiers.is_empty());
    notifiers.register(BlockHeight(5), "five");
    notifiers.register(BlockHeight(2), "two");
    notifiers.register(BlockHeight(5), "five again");
    notifiers.register(BlockHeight(9), "nine");
    assert_eq!(notifiers.take_up_to(BlockHeight(1)), Vec::<&str>::new());
    assert_eq!(notifiers.take_up_to(BlockHeight(5)), vec!["two", "five", "five again"]);
    assert!(!notifiers.is_empty());
    assert_eq!(notifiers.take_up_to(BlockHeight(100)), vec!["nine"]);
    assert!(notifiers.is_empty());
}

#[test]
fn updated_recipients_confirm_and_notify() {
    let updates = vec![
        (Medium::Direct, Some(BlockHeight(3))),
        (Medium::Channel { application_id: ApplicationId(1), name: "c".to_string() }, None),
        (Medium::Channel { application_id: ApplicationId(2), name: "d".to_string() }, Some(BlockHeight(7))),
    ];
    let actions = update_recipient_actions(chain_of(1), chain_of(2), updates);
    assert_eq!(actions.notifications.len(), 2);
    assert_eq!(actions.notifications[0].chain_id.0.bytes, [2; 64]);
    assert!(matches!(
        &actions.notifications[0].reason,
        Reason::NewIncomingMessage { origin, height: BlockHeight(3) } if matches!(origin.medium, Medium::Direct) && origin.sender.0.bytes == [1; 64]
    ));
    assert!(matches!(
        &actions.notifications[1].reason,
        Reason::NewIncomingMessage { height: BlockHeight(7), .. }
    ));
    assert_eq!(actions.cross_chain_requests.len(), 1);
    match &actions.cross_chain_requests[0] {
        CrossChainRequest::ConfirmUpdatedRecipient { sender, recipient, latest_heights } => {
            assert_eq!(sender.0.bytes, [1; 64]);
            assert_eq!(recipient.0.bytes, [2; 64]);
            assert_eq!(latest_heights.len(), 2);
            assert_eq!(latest_heights[1].1, BlockHeight(7));
            assert!(matches!(&latest_heights[1].0, Medium::Channel { name, .. } if name == "d"));
        }
    }
}

#[test]
fn nothing_new_means_nothing_to_do() {
    let actions = update_recipient_actions(chain_of(1), chain_of(2), vec![(Medium::Direct, None)]);
    assert!(actions.notifications.is_empty());
    assert!(actions.cross_chain_requests.is_empty());
}

#[test]
fn crypto_hashes_compare_by_bytes() {
    assert!(crypto(1).equals(&crypto(1)));
    assert!(!crypto(1).equals(&crypto(2)));
}

#[test]
fn blocks_must_extend_the_tip() {
    assert!(check_block_chaining(None, None).is_ok());
    assert!(check_block_chaining(Some(crypto(1)), Some(crypto(1))).is_ok());
    assert!(matches!(check_block_chaining(Some(crypto(1)), Some(crypto(2))), Err(WorkerError::InvalidBlockChaining)));
    assert!(matches!(check_block_chaining(None, Some(crypto(2))), Err(WorkerError::InvalidBlockChaining)));
    assert!(matches!(check_block_chaining(Some(crypto(1)), None), Err(WorkerError::InvalidBlockChaining)));
}

#[test]
fn execution_must_agree_with_the_certificate() {
    let msgs = vec![vec![1u8, 2], vec![3]];
    assert!(check_execution_agrees(msgs.clone(), msgs.clone(), &vec![2], &vec![2], crypto(5), crypto(5)).is_ok());
    let r = check_execution_agrees(msgs.clone(), vec![vec![1u8, 2]], &vec![2], &vec![1], crypto(5), crypto(6));
    assert!(matches!(r, Err(WorkerError::IncorrectMessages { computed, submitted }) if computed.len() == 2 && submitted.len() == 1));
    let r = check_execution_agrees(msgs.clone(), msgs.clone(), &vec![2], &vec![1], crypto(5), crypto(6));
    assert!(matches!(r, Err(WorkerError::IncorrectMessageCounts)));
    let r = check_execution_agrees(msgs.clone(), msgs, &vec![2], &vec![2], crypto(5), crypto(6));
    assert!(matches!(r, Err(WorkerError::IncorrectStateHash)));
}

#[test]
fn recording_a_confirmed_block_notifies_the_new_block() {
    let mut tip = ChainTipState {
        block_hash: None,
        next_block_height: BlockHeight(0),
        num_incoming_messages: 0,
        num_operations: 0,
        num_outgoing_messages: 0,
    };
    let n = record_confirmed_block(&mut tip, chain_of(3), BlockHeight(0), crypto(7), crypto(8), 1, 2, 3).unwrap();
    assert_eq!(n.chain_id.0.bytes, [3; 64]);
    assert!(matches!(n.reason, Reason::NewBlock { height: BlockHeight(0), hash } if hash.bytes == [8; 32]));
    assert_eq!(tip.next_block_height, BlockHeight(1));
    assert_eq!(tip.block_hash.unwrap().bytes, [7; 32]);
    assert_eq!((tip.num_incoming_messages, tip.num_operations, tip.num_outgoing_messages), (1, 2, 3));
}

#[test]
fn certificates_to_load_are_sorted_and_distinct() {
    let map = vec![
        (Medium::Direct, vec![BlockHeight(5), BlockHeight(2)]),
        (Medium::Channel { application_id: ApplicationId(1), name: "x".to_string() }, vec![BlockHeight(5), BlockHeight(9), BlockHeight(2)]),
    ];
    assert_eq!(heights_to_load(&map).unwrap(), vec![2, 5, 9]);
    assert_eq!(heights_to_load(&vec![]).unwrap(), Vec::<usize>::new());
}

#[test]
fn outboxes_are_grouped_by_recipient_then_medium() {
    let channel = |app: u64, name: &str| Medium::Channel { application_id: ApplicationId(app), name: name.to_string() };
    let outboxes = vec![
        (chain_of(2), channel(1, "b"), vec![BlockHeight(5)]),
        (chain_of(1), Medium::Direct, vec![BlockHeight(1), BlockHeight(2)]),
        (chain_of(2), Medium::Direct, vec![BlockHeight(3)]),
        (chain_of(2), channel(1, "a"), vec![BlockHeight(4)]),
        (chain_of(2), channel(0, "z"), vec![BlockHeight(6)]),
    ];
    let groups = group_outboxes(outboxes);
    assert_eq!(groups.len(), 2);
    assert_eq!(groups[0].0.0.bytes, [1; 64]);
    assert_eq!(groups[0].1.len(), 1);
    assert!(matches!(groups[0].1[0].0, Medium::Direct));
    assert_eq!(groups[0].1[0].1, vec![BlockHeight(1), BlockHeight(2)]);
    assert_eq!(groups[1].0.0.bytes, [2; 64]);
    let media: Vec<String> = groups[1]
        .1
        .iter()
        .map(|(m, hs)| match m {
            Medium::Direct => format!("direct:{}", hs[0].0),
            Medium::Channel { application_id, name } => format!("{}/{}:{}", application_id.0, name, hs[0].0),
        })
        .collect();
    assert_eq!(media, vec!["direct:3", "0/z:6", "1/a:4", "1/b:5"]);
}

fn tip_at(height: u64, hash: Option<CryptoHash>) -> ChainTipState {
    ChainTipState {
        block_hash: hash,
        next_block_height: BlockHeight(height),
        num_incoming_messages: 0,
        num_operations: 0,
        num_outgoing_messages: 0,
    }
}

fn block_at(height: u64, previous: Option<CryptoHash>) -> ConfirmedBlock {
    ConfirmedBlock {
        chain_id: chain_of(4),
        epoch: Epoch(1),
        height: BlockHeight(height),
        previous_block_hash: previous,
        num_incoming_messages: 2,
        num_operations: 1,
    }
}

#[test]
fn confirmed_blocks_are_checked_in_order() {
    let state = ChainConfirmationState { tip: tip_at(3, Some(crypto(2))), confirmed_log: vec![crypto(0), crypto(1), crypto(2)] };
    assert!(matches!(
        check_confirmed_block(&state, Epoch(1), &block_at(5, None), vec![], vec![]),
        Err(WorkerError::MissingEarlierBlocks { current_block_height: BlockHeight(3) })
    ));
    assert!(matches!(
        check_confirmed_block(&state, Epoch(9), &block_at(1, None), vec![location(1, 0)], vec![]),
        Ok(ConfirmationStep::AlreadyConfirmed)
    ));
    assert!(matches!(
        check_confirmed_block(&state, Epoch(2), &block_at(3, Some(crypto(2))), vec![], vec![]),
        Err(WorkerError::InvalidEpoch { .. })
    ));
    assert!(matches!(
        check_confirmed_block(&state, Epoch(1), &block_at(3, Some(crypto(9))), vec![], vec![]),
        Err(WorkerError::InvalidBlockChaining)
    ));
    assert!(matches!(
        check_confirmed_block(&state, Epoch(1), &block_at(3, Some(crypto(2))), vec![], vec![blob(5)]),
        Err(WorkerError::BlobsNotFound(_))
    ));
    assert!(matches!(
        check_confirmed_block(&state, Epoch(1), &block_at(3, Some(crypto(2))), vec![], vec![]),
        Ok(ConfirmationStep::Execute)
    ));
}

#[test]
fn completing_a_confirmed_block_advances_and_logs_it_once() {
    let mut state = ChainConfirmationState { tip: tip_at(3, Some(crypto(2))), confirmed_log: vec![crypto(0), crypto(1), crypto(2)] };
    let block = block_at(3, Some(crypto(2)));
    let msgs = vec![vec![7u8]];
    let r = complete_confirmed_block(&mut state, &block, crypto(3), crypto(30), msgs.clone(), vec![], &vec![1], &vec![1], crypto(8), crypto(8));
    assert!(matches!(r, Err(WorkerError::IncorrectMessages { .. })));
    assert_eq!(state.tip.next_block_height, BlockHeight(3));
    assert_eq!(state.confirmed_log.len(), 3);
    let n = complete_confirmed_block(&mut state, &block, crypto(3), crypto(30), msgs.clone(), msgs, &vec![1], &vec![1], crypto(8), crypto(8)).unwrap();
    assert!(matches!(n.reason, Reason::NewBlock { height: BlockHeight(3), hash } if hash.bytes == [30; 32]));
    assert_eq!(state.tip.next_block_height, BlockHeight(4));
    assert_eq!(state.tip.block_hash.unwrap().bytes, [3; 32]);
    assert_eq!((state.tip.num_incoming_messages, state.tip.num_operations, state.tip.num_outgoing_messages), (2, 1, 1));
    assert_eq!(state.confirmed_log.last().unwrap().bytes, [3; 32]);
    assert!(matches!(
        check_confirmed_block(&state, Epoch(1), &block, vec![], vec![]),
        Ok(ConfirmationStep::AlreadyConfirmed)
    ));
    let mut last = ChainConfirmationState { tip: tip_at(u64::MAX, Some(crypto(2))), confirmed_log: vec![] };
    let r = complete_confirmed_block(&mut last, &block_at(u64::MAX, Some(crypto(2))), crypto(3), crypto(30), vec![], vec![], &vec![], &vec![], crypto(8), crypto(8));
    assert!(matches!(r, Err(WorkerError::ArithmeticError(ArithmeticError::Overflow))));
    assert!(last.tip.block_hash.unwrap().bytes == [2; 32] && last.confirmed_log.is_empty());
}

#[test]
fn validated_blocks_get_one_vote_per_height() {
    assert!(matches!(
        validated_block_step(BlockHeight(3), BlockHeight(4), Ok(false)),
        Err(WorkerError::MissingEarlierBlocks { current_block_height: BlockHeight(3) })
    ));
    assert!(matches!(validated_block_step(BlockHeight(3), BlockHeight(2), Ok(false)), Ok(ValidationStep::Skip)));
    assert!(matches!(
        validated_block_step(BlockHeight(3), BlockHeight(2), Err(WorkerError::InvalidBlockChaining)),
        Ok(ValidationStep::Skip)
    ));
    assert!(matches!(validated_block_step(BlockHeight(3), BlockHeight(3), Ok(true)), Ok(ValidationStep::Skip)));
    assert!(matches!(validated_block_step(BlockHeight(3), BlockHeight(3), Ok(false)), Ok(ValidationStep::Vote)));
    assert!(matches!(
        validated_block_step(BlockHeight(3), BlockHeight(3), Err(WorkerError::InvalidBlockChaining)),
        Err(WorkerError::InvalidBlockChaining)
    ));
}
