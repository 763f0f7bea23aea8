use linera::base::{
    BaseError, BlockHeight, Bytecode, ChainId, ChainOwnership, ChannelId, Committee, Epoch, HashValue, Owner,
    PublicKey, ValidatorState,
};
use linera::http::{Method, Request, Response};
use linera::wit_conversions::Poll;

fn id(n: u8) -> ChainId {
    ChainId(HashValue { bytes: [n; 64] })
}

#[test]
fn epochs_and_heights_advance_until_the_last_one() {
    assert_eq!(Epoch(4).try_add_one().unwrap(), Epoch(5));
    assert!(matches!(Epoch(u64::MAX).try_add_one(), Err(BaseError::SequenceOverflow)));
    assert_eq!(BlockHeight(9).try_add_one().unwrap(), BlockHeight(10));
    assert!(matches!(BlockHeight(u64::MAX).try_add_one(), Err(BaseError::SequenceOverflow)));
}

#[test]
fn identifiers_compare_by_content() {
    assert!(id(1).equals(&id(1)));
    assert!(!id(1).equals(&id(2)));
    assert!(HashValue { bytes: [3; 64] }.equals(&HashValue { bytes: [3; 64] }));
    assert!(PublicKey { bytes: [1; 32] }.equals(&PublicKey { bytes: [1; 32] }));
    let a = ChannelId { chain_id: id(1), name: "x".to_string() };
    assert!(a.equals(&ChannelId { chain_id: id(1), name: "x".to_string() }));
    assert!(!a.equals(&ChannelId { chain_id: id(1), name: "y".to_string() }));
    assert!(!a.equals(&ChannelId { chain_id: id(2), name: "x".to_string() }));
}

#[test]
fn committees_and_bytecodes_copy_their_content() {
    let c = Committee {
        validators: vec![
            ValidatorState { name: PublicKey { bytes: [1; 32] }, votes: 2 },
            ValidatorState { name: PublicKey { bytes: [2; 32] }, votes: 3 },
        ],
    };
    let d = c.duplicate();
    assert!(c.equals(&d));
    let e = Committee { validators: vec![ValidatorState { name: PublicKey { bytes: [1; 32] }, votes: 2 }] };
    assert!(!c.equals(&e));
    let b = Bytecode { bytes: vec![0, 1, 2] };
    assert_eq!(b.duplicate().bytes, vec![0, 1, 2]);
}

#[test]
fn ownership_tells_whether_a_chain_is_active() {
    assert!(!ChainOwnership::none().is_active());
    assert!(ChainOwnership::single(Owner(PublicKey { bytes: [1; 32] })).is_active());
    assert!(ChainOwnership::multiple(vec![]).is_active());
}

#[test]
fn http_values_and_guest_polls_are_plain_data() {
    let request = Request { method: Method::Post, url: "http://x".to_string(), headers: vec![("a".to_string(), vec![1])], body: vec![2] };
    assert_eq!(request.clone().method, Method::Post);
    let response = Response { status: 200, headers: vec![], body: b"ok".to_vec() };
    assert_eq!(response.clone(), response);
    assert_ne!(Poll::Pending, Poll::Ready(3));
    assert_eq!(Poll::Ready(3), Poll::Ready(3));
}
