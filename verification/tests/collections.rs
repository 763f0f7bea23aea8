use std::sync::Arc;

use linera::base::{Bytecode, ChainId, ChannelId, Committee, Epoch, HashValue, PublicKey, ValidatorState};
use linera::committees::Committees;
use linera::module_cache::ModuleCache;
use linera::promises::PromiseTable;
use linera::response_slot::{CanceledError, ResponseSlot};
use linera::subscriptions::{channel_key_bytes, compare_keys, encode_uleb128, KeyOrder, Subscriptions};
use linera::value_cache::{CertificateValueCache, DEFAULT_VALUE_CACHE_SIZE};
use linera::wasm::WasmExecutionError;
use linera::worker::{CryptoHash, WorkerError};

fn chain_id(n: u8) -> ChainId {
    ChainId(HashValue { bytes: [n; 64] })
}

fn channel(n: u8, name: &str) -> ChannelId {
    ChannelId { chain_id: chain_id(n), name: name.to_string() }
}

fn committee_of(votes: u64) -> Committee {
    Committee { validators: vec![ValidatorState { name: PublicKey { bytes: [1; 32] }, votes }] }
}

fn hash(n: u8) -> CryptoHash {
    CryptoHash { bytes: [n; 32] }
}

#[test]
fn uleb128_encodes_seven_bits_per_byte() {
    assert_eq!(encode_uleb128(0), vec![0]);
    assert_eq!(encode_uleb128(127), vec![127]);
    assert_eq!(encode_uleb128(128), vec![0x80, 0x01]);
    assert_eq!(encode_uleb128(300), vec![0xac, 0x02]);
}

#[test]
fn channel_keys_are_chain_then_length_then_name() {
    let key = channel_key_bytes(&channel(3, "ADMIN"));
    assert_eq!(key.len(), 64 + 1 + 5);
    assert!(key[..64].iter().all(|b| *b == 3));
    assert_eq!(key[64], 5);
    assert_eq!(&key[65..], b"ADMIN");
}

#[test]
fn keys_compare_lexicographically() {
    assert!(matches!(compare_keys(&[1, 2], &[1, 3]), KeyOrder::Less));
    assert!(matches!(compare_keys(&[1, 2], &[1, 2]), KeyOrder::Equal));
    assert!(matches!(compare_keys(&[1, 2, 0], &[1, 2]), KeyOrder::Greater));
    assert!(matches!(compare_keys(&[], &[0]), KeyOrder::Less));
}

#[test]
fn subscriptions_keep_one_entry_per_channel_in_key_order() {
    let mut subs = Subscriptions::new();
    subs.insert(channel(2, "B"));
    subs.insert(channel(1, "ZZ"));
    subs.insert(channel(1, "A"));
    subs.insert(channel(2, "B"));
    assert_eq!(subs.len(), 3);
    assert!(subs.contains(&channel(1, "A")));
    assert!(!subs.contains(&channel(1, "B")));
    assert_eq!(subs.get(0).name, "A");
    assert_eq!(subs.get(1).name, "ZZ");
    assert_eq!(subs.get(2).chain_id.0.bytes, [2; 64]);
    subs.remove(&channel(1, "ZZ"));
    assert_eq!(subs.len(), 2);
    assert!(!subs.contains(&channel(1, "ZZ")));
    subs.remove(&channel(9, "none"));
    assert_eq!(subs.len(), 2);
    subs.clear();
    assert_eq!(subs.len(), 0);
}

#[test]
fn committees_map_epochs_to_committees() {
    let mut c = Committees::new();
    assert!(c.is_empty());
    c.insert(Epoch(3), committee_of(1));
    c.insert(Epoch(1), committee_of(2));
    assert!(c.contains_key(Epoch(1)) && c.contains_key(Epoch(3)));
    assert!(!c.contains_key(Epoch(2)));
    let copy = c.duplicate();
    assert!(copy.equals(&c));
    c.insert(Epoch(3), committee_of(5));
    assert!(!copy.equals(&c));
    assert!(c.remove(Epoch(1)));
    assert!(!c.remove(Epoch(1)));
    assert!(!c.contains_key(Epoch(1)));
    assert!(!c.is_empty());
}

#[test]
fn response_slot_hands_over_one_response() {
    let mut slot = ResponseSlot::new();
    assert!(matches!(slot.take(), Ok(None)));
    slot.insert(5u32);
    slot.close();
    assert!(matches!(slot.take(), Ok(Some(5))));
    assert!(matches!(slot, ResponseSlot::Finished));
}

#[test]
fn response_slot_closed_before_sending_is_canceled() {
    let mut slot: ResponseSlot<u8> = ResponseSlot::new();
    slot.close();
    assert!(matches!(slot, ResponseSlot::Canceled));
    assert_eq!(slot.take(), Err(CanceledError));
}

#[test]
fn module_cache_returns_what_was_inserted() {
    let mut cache: ModuleCache<String> = ModuleCache::default();
    let code = Bytecode { bytes: vec![0, 97, 115, 109] };
    assert!(cache.get(&code).is_none());
    cache.insert(code.clone(), Arc::new("compiled".to_string()));
    assert_eq!(cache.get(&code).unwrap().as_str(), "compiled");
    let other = Bytecode { bytes: vec![1] };
    assert!(cache.get(&other).is_none());
    cache.insert(code.clone(), Arc::new("again".to_string()));
    assert_eq!(cache.get(&code).unwrap().as_str(), "again");
}

#[test]
fn module_cache_builds_a_module_once() {
    let mut cache: ModuleCache<usize> = ModuleCache::default();
    let code = Bytecode { bytes: vec![7, 7, 7] };
    let first = cache
        .get_or_insert_with(code.clone(), |b: Bytecode| Ok::<usize, WasmExecutionError>(b.bytes.len()))
        .unwrap();
    assert_eq!(*first, 3);
    let second = cache
        .get_or_insert_with(code.clone(), |_b: Bytecode| Ok::<usize, WasmExecutionError>(99))
        .unwrap();
    assert_eq!(*second, 3);
    let failed = cache.get_or_insert_with(Bytecode { bytes: vec![8] }, |_b: Bytecode| {
        Err::<usize, WasmExecutionError>(WasmExecutionError::Aborted)
    });
    assert!(matches!(failed, Err(WasmExecutionError::Aborted)));
    assert!(cache.get(&Bytecode { bytes: vec![8] }).is_none());
}

#[test]
fn value_cache_returns_inserted_values() {
    let mut cache = CertificateValueCache::default();
    assert!(!cache.contains(&hash(1)));
    assert!(cache.insert(hash(1), vec![10, 20]));
    assert!(!cache.insert(hash(1), vec![99]));
    assert!(cache.contains(&hash(1)));
    assert_eq!(cache.get(&hash(1)), Some(vec![10, 20]));
    assert_eq!(cache.get(&hash(2)), None);
    assert!(cache.insert(hash(2), vec![30]));
    assert!(cache.insert(hash(0), vec![40]));
    let keys = cache.keys();
    assert_eq!(keys.len(), 3);
    assert_eq!(keys[0].bytes, [0; 32]);
    assert_eq!(keys[1].bytes, [1; 32]);
    assert_eq!(keys[2].bytes, [2; 32]);
    assert_eq!(cache.get(&hash(1)), Some(vec![10, 20]));
}

#[test]
fn value_cache_forgets_the_least_recently_used_value() {
    let mut cache = CertificateValueCache::default();
    for i in 0..DEFAULT_VALUE_CACHE_SIZE {
        let mut bytes = [0u8; 32];
        bytes[..8].copy_from_slice(&(i as u64).to_le_bytes());
        assert!(cache.insert(CryptoHash { bytes }, vec![1]));
    }
    let first = CryptoHash { bytes: [0u8; 32] };
    assert!(cache.contains(&first));
    assert!(cache.insert(hash(255), vec![2]));
    assert!(!cache.contains(&first));
    assert_eq!(cache.keys().len(), DEFAULT_VALUE_CACHE_SIZE);
}

#[test]
fn full_certificate_needs_a_cached_value() {
    let mut cache = CertificateValueCache::default();
    cache.insert(hash(4), vec![4, 4]);
    assert_eq!(cache.full_certificate_value(&hash(4)).unwrap(), vec![4, 4]);
    assert!(matches!(cache.full_certificate_value(&hash(5)), Err(WorkerError::MissingCertificateValue)));
}

#[test]
fn validated_and_confirmed_values_are_cached_together() {
    let mut cache = CertificateValueCache::default();
    cache.insert_validated_and_confirmed(hash(1), vec![1], Some((hash(2), vec![2])));
    assert_eq!(cache.get(&hash(1)), Some(vec![1]));
    assert_eq!(cache.get(&hash(2)), Some(vec![2]));
    cache.insert_validated_and_confirmed(hash(1), vec![9], Some((hash(3), vec![3])));
    assert!(!cache.contains(&hash(3)));
    assert_eq!(cache.get(&hash(1)), Some(vec![1]));
}

#[test]
fn promises_are_numbered_in_order_and_taken_once() {
    let mut table = PromiseTable::new();
    assert_eq!(table.register("load"), 0);
    assert_eq!(table.register("lock"), 1);
    assert_eq!(table.take(1).unwrap(), "lock");
    assert!(matches!(table.take(1), Err(WasmExecutionError::UnknownPromise)));
    assert!(matches!(table.take(7), Err(WasmExecutionError::UnknownPromise)));
    assert_eq!(table.register("query"), 2);
    assert_eq!(table.take(0).unwrap(), "load");
    assert_eq!(table.take(2).unwrap(), "query");
}
