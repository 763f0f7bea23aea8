use linera::base::{BlockHeight, ChainId, Destination, HashValue};
use linera::system::RawExecutionResult;
use linera::wasm::{operation_cost, Operator};
use linera::wit_conversions::{
    ApplicationCallResult, BytecodeId, GuestApplicationCallResult, GuestApplicationId, GuestDestination,
    GuestEffectId, GuestExecutionResult, GuestHashValue, GuestSessionCallResult, GuestSessionId,
    GuestSessionResult, NewSession, SessionCallResult, SessionId, UserApplicationId,
};

fn guest_hash(seed: u64) -> GuestHashValue {
    GuestHashValue {
        part1: seed,
        part2: seed + 1,
        part3: seed + 2,
        part4: seed + 3,
        part5: seed + 4,
        part6: seed + 5,
        part7: seed + 6,
        part8: seed + 7,
    }
}

fn expected_bytes(seed: u64) -> Vec<u8> {
    (0..8).flat_map(|i| (seed + i).to_le_bytes()).collect()
}

#[test]
fn guest_hashes_are_little_endian_parts() {
    let h = HashValue::from_guest(guest_hash(0x0102_0304_0506_0708));
    assert_eq!(h.bytes.to_vec(), expected_bytes(0x0102_0304_0506_0708));
    assert_eq!(&h.bytes[0..8], &[8, 7, 6, 5, 4, 3, 2, 1]);
    let c = ChainId::from_guest(guest_hash(5));
    assert_eq!(c.0.bytes.to_vec(), expected_bytes(5));
}

#[test]
fn guest_identifiers_are_converted_field_by_field() {
    let effect = GuestEffectId { chain_id: guest_hash(1), height: 12, index: 3 };
    let e = linera::base::EffectId::from_guest(effect);
    assert_eq!(e.height, BlockHeight(12));
    assert_eq!(e.index, 3);
    assert_eq!(e.chain_id.0.bytes.to_vec(), expected_bytes(1));
    let b = BytecodeId::from_guest(effect);
    assert_eq!(b.0.index, 3);
    let app = GuestApplicationId { bytecode: effect, creation: GuestEffectId { chain_id: guest_hash(2), height: 1, index: 0 } };
    let a = UserApplicationId::from_guest(app);
    assert_eq!(a.bytecode.0.height, BlockHeight(12));
    assert_eq!(a.creation.height, BlockHeight(1));
    let s = SessionId::from_guest(GuestSessionId { application_id: app, kind: 4, index: 9 });
    assert_eq!((s.kind, s.index), (4, 9));
    assert_eq!(s.application_id.creation.chain_id.0.bytes.to_vec(), expected_bytes(2));
}

#[test]
fn guest_destinations_and_sessions() {
    let d = Destination::from_guest(&GuestDestination::Subscribers("chan".to_string()));
    assert!(matches!(d, Destination::Subscribers(name) if name == "chan"));
    let d = Destination::from_guest(&GuestDestination::Recipient(guest_hash(3)));
    assert!(matches!(d, Destination::Recipient(c) if c.0.bytes.to_vec() == expected_bytes(3)));
    let n = NewSession::from_guest(&GuestSessionResult { kind: 2, data: vec![1, 2, 3] });
    assert_eq!((n.kind, n.data), (2, vec![1, 2, 3]));
}

fn guest_result() -> GuestExecutionResult {
    GuestExecutionResult {
        effects: vec![(GuestDestination::Recipient(guest_hash(1)), vec![9, 9])],
        subscribe: vec![("in".to_string(), guest_hash(2))],
        unsubscribe: vec![("out".to_string(), guest_hash(3)), ("out2".to_string(), guest_hash(4))],
    }
}

#[test]
fn guest_execution_results_keep_their_lists() {
    let r = RawExecutionResult::<Vec<u8>>::from_guest(&guest_result());
    assert_eq!(r.effects.len(), 1);
    assert_eq!(r.effects[0].1, vec![9, 9]);
    assert_eq!(r.subscribe.len(), 1);
    assert_eq!(r.subscribe[0].0, "in");
    assert_eq!(r.subscribe[0].1.0.bytes.to_vec(), expected_bytes(2));
    assert_eq!(r.unsubscribe.len(), 2);
    assert_eq!(r.unsubscribe[1].0, "out2");
}

#[test]
fn session_calls_close_the_session_when_data_is_returned() {
    let inner = GuestApplicationCallResult {
        value: vec![5],
        execution_result: guest_result(),
        create_sessions: vec![GuestSessionResult { kind: 1, data: vec![] }],
    };
    let a = ApplicationCallResult::from_guest(&inner);
    assert_eq!(a.value, vec![5]);
    assert_eq!(a.create_sessions.len(), 1);
    let (result, data) = SessionCallResult::from_guest(&GuestSessionCallResult { inner: inner.clone(), data: Some(vec![7]) });
    assert!(result.close_session);
    assert_eq!(data, vec![7]);
    let (result, data) = SessionCallResult::from_guest(&GuestSessionCallResult { inner, data: None });
    assert!(!result.close_session);
    assert!(data.is_empty());
}

#[test]
fn only_ordinary_instructions_cost_fuel() {
    assert_eq!(operation_cost(&Operator::Other), 1);
    for free in [Operator::Nop, Operator::Drop, Operator::Block, Operator::Loop, Operator::Unreachable, Operator::Else, Operator::End] {
        assert_eq!(operation_cost(&free), 0);
    }
}

#[test]
fn call_results_keep_their_effects_subscriptions_and_sessions() {
    let inner = GuestApplicationCallResult {
        value: vec![1, 2],
        execution_result: guest_result(),
        create_sessions: vec![
            GuestSessionResult { kind: 3, data: vec![4] },
            GuestSessionResult { kind: 6, data: vec![7, 8] },
        ],
    };
    let a = ApplicationCallResult::from_guest(&inner);
    assert_eq!(a.execution_result.effects[0].1, vec![9, 9]);
    assert!(matches!(a.execution_result.effects[0].0, Destination::Recipient(_)));
    assert_eq!(a.execution_result.subscribe[0].0, "in");
    assert_eq!(a.execution_result.subscribe[0].1.0.bytes.to_vec(), expected_bytes(2));
    assert_eq!(a.execution_result.unsubscribe[0].0, "out");
    assert_eq!(a.execution_result.unsubscribe[1].1.0.bytes.to_vec(), expected_bytes(4));
    assert_eq!((a.create_sessions[1].kind, a.create_sessions[1].data.clone()), (6, vec![7, 8]));
    let (result, _) = SessionCallResult::from_guest(&GuestSessionCallResult { inner, data: None });
    assert_eq!(result.inner.value, vec![1, 2]);
    assert_eq!((result.inner.create_sessions[0].kind, result.inner.create_sessions[0].data.clone()), (3, vec![4]));
    assert_eq!(result.inner.execution_result.subscribe[0].0, "in");
    assert_eq!(result.inner.execution_result.unsubscribe[1].0, "out2");
}
