//! A least-recently used cache of certificate values, keyed by their hash.
//!
//! The cache is a `lru::LruCache`. Its entries are described from the most recently
//! used to the least recently used; a full cache forgets its least recently used entry
//! when a new one is pushed.
use lru::LruCache;
use std::num::NonZeroUsize;
use vstd::prelude::*;

use crate::subscriptions::{lemma_lex_lt_irreflexive, lemma_lex_lt_transitive, lex_lt};
use crate::worker::{CryptoHash, WorkerError};

verus! {

#[verifier::external_type_specification]
#[verifier::external_body]
#[verifier::reject_recursive_types(K)]
#[verifier::reject_recursive_types(V)]
#[verifier::reject_recursive_types(S)]
pub struct ExLruCache<K, V, S>(LruCache<K, V, S>);

#[verifier::external_type_specification]
#[verifier::external_body]
pub struct ExLruDefaultHasher(lru::DefaultHasher);

/// The entries of an `LruCache` of certificate values: hash bytes and value bytes, from
/// the most recently used to the least recently used.
pub uninterp spec fn lru_entries(cache: LruCache<[u8; 32], Vec<u8>>) -> Seq<([u8; 32], Seq<u8>)>;

/// The capacity an `LruCache` of certificate values was created with.
pub uninterp spec fn lru_capacity(cache: LruCache<[u8; 32], Vec<u8>>) -> nat;

/// Whether the keys of `s` are distinct.
pub open spec fn distinct_keys(s: Seq<([u8; 32], Seq<u8>)>) -> bool {
    forall|i: int, j: int| 0 <= i < j < s.len() ==> s[i].0 != s[j].0
}

/// Whether `key` is a key of `s`.
pub open spec fn has_key(s: Seq<([u8; 32], Seq<u8>)>, key: [u8; 32]) -> bool {
    exists|i: int| 0 <= i < s.len() && (#[trigger] s[i]).0 == key
}

/// The index of `key` in `s`.
pub open spec fn key_index(s: Seq<([u8; 32], Seq<u8>)>, key: [u8; 32]) -> int {
    choose|i: int| 0 <= i < s.len() && (#[trigger] s[i]).0 == key
}

/// The entries of a cache with room for `capacity` entries after `value` is offered
/// under `key`: a cached key keeps its value; a new one goes to the front, and a full
/// cache forgets its least recently used entry.
pub open spec fn entries_after_insert(
    entries: Seq<([u8; 32], Seq<u8>)>,
    capacity: nat,
    key: [u8; 32],
    value: Seq<u8>,
) -> Seq<([u8; 32], Seq<u8>)> {
    if has_key(entries, key) {
        entries
    } else if entries.len() < capacity {
        seq![(key, value)] + entries
    } else {
        seq![(key, value)] + entries.drop_last()
    }
}

/// Creates an empty cache with room for `capacity` entries, by `LruCache::new`.
/// Trusted: the cache starts empty with that capacity.
#[verifier::external_body]
fn lru_new(capacity: usize) -> (r: LruCache<[u8; 32], Vec<u8>>)
    requires
        capacity > 0,
    ensures
        lru_entries(r) == Seq::<([u8; 32], Seq<u8>)>::empty(),
        lru_capacity(r) == capacity,
{
    LruCache::new(NonZeroUsize::new(capacity).unwrap())
}

/// Whether the cache holds `key`, by `LruCache::contains`, which does not change the
/// order of use. Trusted: the result tells whether some entry has that key.
#[verifier::external_body]
fn lru_contains(cache: &LruCache<[u8; 32], Vec<u8>>, key: &[u8; 32]) -> (r: bool)
    ensures
        r == has_key(lru_entries(*cache), *key),
{
    cache.contains(key)
}

/// Looks up `key` by `LruCache::get`, returning a copy of the value. Trusted: a found
/// entry moves to the front (most recently used); otherwise nothing changes.
#[verifier::external_body]
fn lru_get(cache: &mut LruCache<[u8; 32], Vec<u8>>, key: &[u8; 32]) -> (r: Option<Vec<u8>>)
    ensures
        lru_capacity(*final(cache)) == lru_capacity(*old(cache)),
        !has_key(lru_entries(*old(cache)), *key) ==> r is None && lru_entries(*final(cache)) == lru_entries(*old(cache)),
        has_key(lru_entries(*old(cache)), *key) ==> {
            let i = key_index(lru_entries(*old(cache)), *key);
            &&& r matches Some(v) && v@ == lru_entries(*old(cache))[i].1
            &&& lru_entries(*final(cache)) == seq![lru_entries(*old(cache))[i]] + lru_entries(*old(cache)).remove(i)
        },
{
    cache.get(key).cloned()
}

/// Adds `value` under `key` by `LruCache::push`. Trusted: an entry with that key gets
/// the new value and moves to the front, and the former entry is returned; otherwise the
/// new entry goes to the front, and when the cache was full its least recently used
/// entry is dropped and returned.
#[verifier::external_body]
fn lru_push(cache: &mut LruCache<[u8; 32], Vec<u8>>, key: [u8; 32], value: Vec<u8>) -> (r: Option<([u8; 32], Vec<u8>)>)
    ensures
        lru_capacity(*final(cache)) == lru_capacity(*old(cache)),
        has_key(lru_entries(*old(cache)), key) ==> {
            let i = key_index(lru_entries(*old(cache)), key);
            &&& r matches Some((k, v)) && k == key && v@ == lru_entries(*old(cache))[i].1
            &&& lru_entries(*final(cache)) == seq![(key, value@)] + lru_entries(*old(cache)).remove(i)
        },
        !has_key(lru_entries(*old(cache)), key) && lru_entries(*old(cache)).len() < lru_capacity(*old(cache)) ==> {
            &&& r is None
            &&& lru_entries(*final(cache)) == seq![(key, value@)] + lru_entries(*old(cache))
        },
        !has_key(lru_entries(*old(cache)), key) && lru_entries(*old(cache)).len() >= lru_capacity(*old(cache)) ==> {
            &&& r matches Some((k, v)) && k == lru_entries(*old(cache)).last().0 && v@ == lru_entries(*old(cache)).last().1
            &&& lru_entries(*final(cache)) == seq![(key, value@)] + lru_entries(*old(cache)).drop_last()
        },
{
    cache.push(key, value)
}

/// The keys of the cache, by `LruCache::iter`, from the most recently used. Trusted:
/// they are the keys of the entries, in order.
#[verifier::external_body]
fn lru_keys(cache: &LruCache<[u8; 32], Vec<u8>>) -> (r: Vec<[u8; 32]>)
    ensures
        r@ == lru_entries(*cache).map_values(|e: ([u8; 32], Seq<u8>)| e.0),
{
    cache.iter().map(|(key, _)| *key).collect()
}

/// Whether one of the first `n` keys is `key`.
pub open spec fn key_among(keys: Seq<[u8; 32]>, n: int, key: [u8; 32]) -> bool {
    exists|j: int| 0 <= j < n && keys[j] == key
}

/// Whether `hashes` holds a hash with the bytes `key`.
pub open spec fn hash_listed(hashes: Seq<CryptoHash>, key: [u8; 32]) -> bool {
    exists|a: int| 0 <= a < hashes.len() && hashes[a].bytes == key
}

/// Whether hash bytes `a` come strictly before `b`, computed.
fn key_precedes(a: &[u8; 32], b: &[u8; 32]) -> (r: bool)
    ensures
        r == lex_lt(a@, b@),
{
    let mut i: usize = 0;
    while i < 32
        invariant
            i <= 32,
            a@.len() == 32,
            b@.len() == 32,
            a@.take(i as int) == b@.take(i as int),
        decreases 32 - i,
    {
        if a[i] != b[i] {
            let r = a[i] < b[i];
            proof {
                lemma_lex_at(a@, b@, i as int);
            }
            return r;
        }
        assert(a@.take(i + 1) =~= a@.take(i as int).push(a@[i as int]));
        assert(b@.take(i + 1) =~= b@.take(i as int).push(b@[i as int]));
        i = i + 1;
    }
    proof {
        assert(a@ =~= b@) by {
            assert(a@.take(32) =~= a@);
            assert(b@.take(32) =~= b@);
        }
        lemma_lex_lt_irreflexive(a@);
    }
    false
}

/// Sequences of the same length that agree before index `i` and differ at `i` are
/// ordered by their elements at `i`.
proof fn lemma_lex_at(a: Seq<u8>, b: Seq<u8>, i: int)
    requires
        a.len() == b.len(),
        0 <= i < a.len(),
        a.take(i) == b.take(i),
        a[i] != b[i],
    ensures
        lex_lt(a, b) == (a[i] < b[i]),
        lex_lt(b, a) == (b[i] < a[i]),
{
    if a[i] < b[i] {
        assert(lex_lt(a, b));
    } else {
        assert(b.take(i) == a.take(i));
        assert(lex_lt(b, a));
    }
    lemma_lex_first_index(a, b, i);
    lemma_lex_first_index(b, a, i);
}

/// A witness of `lex_lt(a, b)` for sequences of the same length that agree before `i`
/// and differ at `i` can only be `i` itself.
proof fn lemma_lex_first_index(a: Seq<u8>, b: Seq<u8>, i: int)
    requires
        a.len() == b.len(),
        0 <= i < a.len(),
        a.take(i) == b.take(i),
        a[i] != b[i],
    ensures
        lex_lt(a, b) ==> a[i] < b[i],
{
    if lex_lt(a, b) {
        let k = choose|k: int| 0 <= k <= a.len() && k <= b.len() && #[trigger] a.take(k) == b.take(k)
            && ((k < a.len() && k < b.len() && a[k] < b[k]) || (k == a.len() && k < b.len()));
        if k < i {
            assert(a.take(i)[k] == a[k]);
            assert(b.take(i)[k] == b[k]);
            assert(a[k] == b[k]);
        } else if k > i {
            assert(a.take(k)[i] == a[i]);
            assert(b.take(k)[i] == b[i]);
            assert(a[i] == b[i]);
        }
    }
}

/// Of two distinct sequences of the same length, one comes before the other.
proof fn lemma_lex_total(a: Seq<u8>, b: Seq<u8>)
    requires
        a.len() == b.len(),
        a != b,
    ensures
        lex_lt(a, b) || lex_lt(b, a),
{
    lemma_first_difference(a, b, 0);
    let i = choose|i: int| 0 <= i < a.len() && a[i] != b[i] && forall|k: int| 0 <= k < i ==> a[k] == b[k];
    assert(a.take(i) =~= b.take(i));
    lemma_lex_at(a, b, i);
}

/// Distinct sequences of the same length that agree before `n` differ first at some
/// index from `n` on.
proof fn lemma_first_difference(a: Seq<u8>, b: Seq<u8>, n: int)
    requires
        a.len() == b.len(),
        0 <= n <= a.len(),
        a != b,
        forall|k: int| 0 <= k < n ==> a[k] == b[k],
    ensures
        exists|i: int| 0 <= i < a.len() && a[i] != b[i] && forall|k: int| 0 <= k < i ==> a[k] == b[k],
    decreases a.len() - n,
{
    if n == a.len() {
        assert(a =~= b);
    } else if a[n] != b[n] {
        assert(0 <= n < a.len() && a[n] != b[n] && forall|k: int| 0 <= k < n ==> a[k] == b[k]);
    } else {
        lemma_first_difference(a, b, n + 1);
    }
}

/// The number of values the cache keeps.
pub const DEFAULT_VALUE_CACHE_SIZE: usize = 1000usize;

/// A least-recently used cache of certificate values, by hash.
pub struct CertificateValueCache {
    cache: LruCache<[u8; 32], Vec<u8>>,
}

impl Default for CertificateValueCache {
    /// An empty cache keeping up to `DEFAULT_VALUE_CACHE_SIZE` values.
    fn default() -> (r: CertificateValueCache)
        ensures
            r.wf(),
            r.entries() == Seq::<([u8; 32], Seq<u8>)>::empty(),
            r.capacity() == DEFAULT_VALUE_CACHE_SIZE,
    {
        CertificateValueCache { cache: lru_new(DEFAULT_VALUE_CACHE_SIZE) }
    }
}

impl CertificateValueCache {
    /// The invariant of the cache: keys are distinct and the cache holds at most its
    /// capacity, which is positive.
    pub closed spec fn wf(&self) -> bool {
        &&& distinct_keys(lru_entries(self.cache))
        &&& lru_entries(self.cache).len() <= lru_capacity(self.cache)
        &&& lru_capacity(self.cache) > 0
    }

    /// The cached values, by hash, from the most recently used to the least recently used.
    pub closed spec fn entries(&self) -> Seq<([u8; 32], Seq<u8>)> {
        lru_entries(self.cache)
    }

    /// The number of values the cache keeps.
    pub closed spec fn capacity(&self) -> nat {
        lru_capacity(self.cache)
    }

    /// The hashes of the cached values, in increasing order of their bytes.
    pub fn keys(&self) -> (r: Vec<CryptoHash>)
        requires
            self.wf(),
        ensures
            r@.len() == self.entries().len(),
            forall|i: int, j: int| 0 <= i < j < r@.len() ==> lex_lt(r@[i].bytes@, r@[j].bytes@),
            forall|key: [u8; 32]| has_key(self.entries(), key) <==> #[trigger] hash_listed(r@, key),
    {
        let keys = lru_keys(&self.cache);
        let ghost entries = lru_entries(self.cache);
        let n = keys.len();
        let mut out: Vec<CryptoHash> = Vec::new();
        let mut i: usize = 0;
        while i < n
            invariant
                i <= n,
                n == keys@.len(),
                keys@ == entries.map_values(|e: ([u8; 32], Seq<u8>)| e.0),
                distinct_keys(entries),
                out@.len() == i,
                forall|a: int, b: int| 0 <= a < b < out@.len() ==> lex_lt(out@[a].bytes@, out@[b].bytes@),
                forall|key: [u8; 32]| key_among(keys@, i as int, key) <==> #[trigger] hash_listed(out@, key),
            decreases n - i,
        {
            let key = keys[i];
            let n_out = out.len();
            let mut p: usize = 0;
            while p < n_out && key_precedes(&out[p].bytes, &key)
                invariant
                    p <= n_out,
                    n_out == out@.len(),
                    forall|a: int| 0 <= a < p ==> lex_lt(out@[a].bytes@, key@),
                decreases n_out - p,
            {
                p = p + 1;
            }
            proof {
                assert(keys@[i as int] == entries[i as int].0);
                if p < n_out {
                    let existing = out@[p as int].bytes;
                    assert(!lex_lt(existing@, key@));
                    if existing@ == key@ {
                        assert(existing =~= key);
                        assert(hash_listed(out@, existing));
                        let j = choose|j: int| 0 <= j < i && keys@[j] == existing;
                        assert(keys@[j] == entries[j].0);
                        assert(entries[j].0 != entries[i as int].0);
                    }
                    lemma_lex_total(existing@, key@);
                }
            }
            let ghost before = out@;
            out.insert(p, CryptoHash { bytes: key });
            proof {
                assert forall|a: int, b: int| 0 <= a < b < out@.len() implies lex_lt(out@[a].bytes@, out@[b].bytes@) by {
                    if b < p {
                    } else if b == p {
                    } else if a < p {
                        assert(out@[b] == before[b - 1]);
                        if b - 1 > p {
                            lemma_lex_lt_transitive(key@, before[p as int].bytes@, before[b - 1].bytes@);
                        }
                        lemma_lex_lt_transitive(out@[a].bytes@, key@, out@[b].bytes@);
                    } else if a == p {
                        assert(out@[b] == before[b - 1]);
                        if b - 1 > p {
                            lemma_lex_lt_transitive(key@, before[p as int].bytes@, before[b - 1].bytes@);
                        }
                    } else {
                        assert(out@[a] == before[a - 1]);
                        assert(out@[b] == before[b - 1]);
                    }
                }
                assert forall|k: [u8; 32]| key_among(keys@, i + 1, k) <==> #[trigger] hash_listed(out@, k) by {
                    if key_among(keys@, i + 1, k) {
                        let j = choose|j: int| 0 <= j < i + 1 && keys@[j] == k;
                        if j == i {
                            assert(out@[p as int].bytes == k);
                        } else {
                            assert(key_among(keys@, i as int, k));
                            assert(hash_listed(before, k));
                            let a = choose|a: int| 0 <= a < before.len() && before[a].bytes == k;
                            if a < p {
                                assert(out@[a] == before[a]);
                            } else {
                                assert(out@[a + 1] == before[a]);
                            }
                        }
                    }
                    if hash_listed(out@, k) {
                        let a = choose|a: int| 0 <= a < out@.len() && out@[a].bytes == k;
                        if a < p {
                            assert(before[a].bytes == k);
                            assert(hash_listed(before, k));
                        } else if a > p {
                            assert(before[a - 1].bytes == k);
                            assert(hash_listed(before, k));
                        } else {
                            assert(keys@[i as int] == k);
                        }
                    }
                }
            }
            i = i + 1;
        }
        proof {
            assert forall|key: [u8; 32]| has_key(entries, key) <==> #[trigger] hash_listed(out@, key) by {
                if has_key(entries, key) {
                    let j = choose|j: int| 0 <= j < entries.len() && (#[trigger] entries[j]).0 == key;
                    assert(keys@[j] == key);
                    assert(key_among(keys@, n as int, key));
                }
                if hash_listed(out@, key) {
                    assert(key_among(keys@, n as int, key));
                    let j = choose|j: int| 0 <= j < n && keys@[j] == key;
                    assert(entries[j].0 == key);
                }
            }
        }
        out
    }

    /// Whether the value with hash `hash` is in the cache.
    pub fn contains(&self, hash: &CryptoHash) -> (r: bool)
        ensures
            r == has_key(self.entries(), hash.bytes),
    {
        lru_contains(&self.cache, &hash.bytes)
    }

    /// The value with hash `hash`, if cached; it becomes the most recently used.
    pub fn get(&mut self, hash: &CryptoHash) -> (r: Option<Vec<u8>>)
        requires
            old(self).wf(),
        ensures
            final(self).wf(),
            !has_key(old(self).entries(), hash.bytes) ==> r is None && final(self).entries() == old(self).entries(),
            has_key(old(self).entries(), hash.bytes) ==> {
                let i = key_index(old(self).entries(), hash.bytes);
                &&& r matches Some(v) && v@ == old(self).entries()[i].1
                &&& final(self).entries() == seq![old(self).entries()[i]] + old(self).entries().remove(i)
            },
    {
        let r = lru_get(&mut self.cache, &hash.bytes);
        proof {
            let pre = lru_entries(old(self).cache);
            if has_key(pre, hash.bytes) {
                let i = key_index(pre, hash.bytes);
                let post = lru_entries(self.cache);
                assert forall|a: int, b: int| 0 <= a < b < post.len() implies post[a].0 != post[b].0 by {
                    let rest = pre.remove(i);
                    if a == 0 {
                        if b - 1 < i {
                            assert(post[b] == pre[b - 1]);
                        } else {
                            assert(post[b] == pre[b]);
                        }
                    } else {
                        let pa = if a - 1 < i { a - 1 } else { a };
                        let pb = if b - 1 < i { b - 1 } else { b };
                        assert(post[a] == pre[pa]);
                        assert(post[b] == pre[pb]);
                    }
                }
            }
        }
        r
    }

    /// Inserts a value with its hash, unless a value with that hash is cached. Returns
    /// whether the value was inserted. When the cache is full, the least recently used
    /// value is forgotten.
    pub fn insert(&mut self, hash: CryptoHash, value: Vec<u8>) -> (r: bool)
        requires
            old(self).wf(),
        ensures
            final(self).wf(),
            r == !has_key(old(self).entries(), hash.bytes),
            final(self).entries() == entries_after_insert(old(self).entries(), old(self).capacity(), hash.bytes, value@),
            final(self).capacity() == old(self).capacity(),
    {
        if lru_contains(&self.cache, &hash.bytes) {
            return false;
        }
        let ghost pre = lru_entries(self.cache);
        let _ = lru_push(&mut self.cache, hash.bytes, value);
        proof {
            let post = lru_entries(self.cache);
            assert forall|a: int, b: int| 0 <= a < b < post.len() implies post[a].0 != post[b].0 by {
                if a == 0 {
                    assert(post[b] == pre[b - 1]);
                } else {
                    assert(post[a] == pre[a - 1]);
                    assert(post[b] == pre[b - 1]);
                }
            }
        }
        true
    }

    /// Inserts the value of a validated block and, when it was not cached yet, the value
    /// of the confirmed block that it becomes (`confirmed`, with its hash), if any.
    pub fn insert_validated_and_confirmed(
        &mut self,
        validated_hash: CryptoHash,
        validated_value: Vec<u8>,
        confirmed: Option<(CryptoHash, Vec<u8>)>,
    )
        requires
            old(self).wf(),
        ensures
            final(self).wf(),
            final(self).capacity() == old(self).capacity(),
            has_key(old(self).entries(), validated_hash.bytes) ==> final(self).entries() == old(self).entries(),
            !has_key(old(self).entries(), validated_hash.bytes) ==> {
                let first = entries_after_insert(old(self).entries(), old(self).capacity(), validated_hash.bytes, validated_value@);
                final(self).entries() == match confirmed {
                    Some((h, v)) => entries_after_insert(first, old(self).capacity(), h.bytes, v@),
                    None => first,
                }
            },
    {
        if self.insert(validated_hash, validated_value) {
            if let Some((hash, value)) = confirmed {
                self.insert(hash, value);
            }
        }
    }

    /// Finds the value of a certificate sent without it: the cached value with the
    /// certificate's value hash, or `MissingCertificateValue`.
    pub fn full_certificate_value(&mut self, value_hash: &CryptoHash) -> (r: Result<Vec<u8>, WorkerError>)
        requires
            old(self).wf(),
        ensures
            final(self).wf(),
            !has_key(old(self).entries(), value_hash.bytes) ==> r matches Err(WorkerError::MissingCertificateValue),
            has_key(old(self).entries(), value_hash.bytes) ==> (r matches Ok(v)
                && v@ == old(self).entries()[key_index(old(self).entries(), value_hash.bytes)].1),
    {
        match self.get(value_hash) {
            Some(v) => Ok(v),
            None => Err(WorkerError::MissingCertificateValue),
        }
    }
}

/// The value found for a key right after it was offered to the cache is the cached
/// one: the offered value when the key was new, the former value otherwise. So a `get`
/// after an `insert` of a new hash returns the inserted value.
pub proof fn law_get_after_insert(
    entries: Seq<([u8; 32], Seq<u8>)>,
    capacity: nat,
    key: [u8; 32],
    value: Seq<u8>,
)
    requires
        distinct_keys(entries),
        entries.len() <= capacity,
        capacity > 0,
    ensures
        has_key(entries_after_insert(entries, capacity, key, value), key),
        !has_key(entries, key) ==> entries_after_insert(entries, capacity, key, value)[key_index(
            entries_after_insert(entries, capacity, key, value),
            key,
        )].1 == value,
        has_key(entries, key) ==> entries_after_insert(entries, capacity, key, value)[key_index(
            entries_after_insert(entries, capacity, key, value),
            key,
        )].1 == entries[key_index(entries, key)].1,
{
    let post = entries_after_insert(entries, capacity, key, value);
    if !has_key(entries, key) {
        assert(post[0].0 == key);
        assert(has_key(post, key));
        let i = key_index(post, key);
        if i != 0 {
            if i <= entries.len() && (entries.len() < capacity || i < entries.len()) {
                assert(post[i] == entries[i - 1]);
            }
            assert(false);
        }
    }
}

} // verus!
