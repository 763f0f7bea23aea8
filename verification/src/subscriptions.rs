//! The channels a chain is subscribed to.
//!
//! The channels are kept as a map indexed by their storage key: the 64 bytes of the
//! publishing chain, the length of the channel name in ULEB128 and the UTF-8 bytes of
//! the name. Entries are visited in increasing order of their keys.
use vstd::prelude::*;
use vstd::utf8::{decode_utf8, encode_utf8};

use crate::base::{ChainId, ChannelId, ChannelIdView};

verus! {

/// The ULEB128 encoding of `v`: seven bits per byte, least significant first, the
/// high bit set on every byte but the last.
pub open spec fn uleb128(v: nat) -> Seq<u8>
    decreases v,
{
    if v < 128 {
        seq![v as u8]
    } else {
        seq![((v % 128) + 128) as u8] + uleb128(v / 128)
    }
}

/// The storage key of a channel.
pub open spec fn channel_key(c: ChannelIdView) -> Seq<u8> {
    c.chain_id@ + uleb128(encode_utf8(c.name).len()) + encode_utf8(c.name)
}

/// Whether `a` comes strictly before `b` in lexicographic byte order.
pub open spec fn lex_lt(a: Seq<u8>, b: Seq<u8>) -> bool {
    exists|i: int|
        0 <= i <= a.len() && i <= b.len() && #[trigger] a.take(i) == b.take(i) && ((i < a.len()
            && i < b.len() && a[i] < b[i]) || (i == a.len() && i < b.len()))
}

/// Whether the keys of `s` strictly increase.
pub open spec fn keys_increase(s: Seq<ChannelIdView>) -> bool {
    forall|i: int, j: int| 0 <= i < j < s.len() ==> lex_lt(channel_key(s[i]), channel_key(s[j]))
}

/// Three-way comparison of two keys.
pub enum KeyOrder {
    Less,
    Equal,
    Greater,
}

/// Lexicographic order is transitive.
pub proof fn lemma_lex_lt_transitive(a: Seq<u8>, b: Seq<u8>, c: Seq<u8>)
    requires
        lex_lt(a, b),
        lex_lt(b, c),
    ensures
        lex_lt(a, c),
{
    let i = choose|i: int|
        0 <= i <= a.len() && i <= b.len() && #[trigger] a.take(i) == b.take(i) && ((i < a.len()
            && i < b.len() && a[i] < b[i]) || (i == a.len() && i < b.len()));
    let j = choose|j: int|
        0 <= j <= b.len() && j <= c.len() && #[trigger] b.take(j) == c.take(j) && ((j < b.len()
            && j < c.len() && b[j] < c[j]) || (j == b.len() && j < c.len()));
    if i < j {
        assert(a.take(i) =~= c.take(i)) by {
            assert forall|k: int| 0 <= k < i implies a.take(i)[k] == c.take(i)[k] by {
                assert(a.take(i)[k] == b.take(i)[k]);
                assert(b.take(j)[k] == c.take(j)[k]);
            }
        }
        if i < a.len() {
            assert(b.take(j)[i] == c.take(j)[i]);
        }
        assert(lex_lt(a, c));
    } else if j < i {
        assert(a.take(j) =~= c.take(j)) by {
            assert forall|k: int| 0 <= k < j implies a.take(j)[k] == c.take(j)[k] by {
                assert(a.take(i)[k] == b.take(i)[k]);
                assert(b.take(j)[k] == c.take(j)[k]);
            }
        }
        assert(a.take(i)[j] == b.take(i)[j]);
        assert(lex_lt(a, c));
    } else {
        assert(a.take(i) =~= c.take(i)) by {
            assert forall|k: int| 0 <= k < i implies a.take(i)[k] == c.take(i)[k] by {
                assert(a.take(i)[k] == b.take(i)[k]);
                assert(b.take(j)[k] == c.take(j)[k]);
            }
        }
        assert(lex_lt(a, c));
    }
}

/// No key comes strictly before itself.
pub proof fn lemma_lex_lt_irreflexive(a: Seq<u8>)
    ensures
        !lex_lt(a, a),
{
}

/// Compares two byte sequences in lexicographic order.
pub fn compare_keys(a: &[u8], b: &[u8]) -> (r: KeyOrder)
    ensures
        r is Less <==> lex_lt(a@, b@),
        r is Equal <==> a@ == b@,
        r is Greater <==> lex_lt(b@, a@),
{
    let n = a.len();
    let m = b.len();
    let mut i: usize = 0;
    while i < n && i < m && a[i] == b[i]
        invariant
            i <= n,
            i <= m,
            n == a@.len(),
            m == b@.len(),
            a@.take(i as int) == b@.take(i as int),
        decreases n - i,
    {
        assert(a@.take(i + 1) =~= a@.take(i as int).push(a@[i as int]));
        assert(b@.take(i + 1) =~= b@.take(i as int).push(b@[i as int]));
        i = i + 1;
    }
    proof {
        lemma_lex_lt_irreflexive(a@);
        lemma_lex_lt_irreflexive(b@);
    }
    if i < n && i < m {
        if a[i] < b[i] {
            proof {
                assert(lex_lt(a@, b@));
                lemma_no_reverse(a@, b@, i as int);
            }
            KeyOrder::Less
        } else {
            proof {
                assert(lex_lt(b@, a@));
                lemma_no_reverse(b@, a@, i as int);
            }
            KeyOrder::Greater
        }
    } else if i == n && i == m {
        proof {
            assert(a@ =~= a@.take(i as int));
            assert(b@ =~= b@.take(i as int));
        }
        KeyOrder::Equal
    } else if i == n {
        proof {
            assert(lex_lt(a@, b@));
            lemma_no_reverse(a@, b@, i as int);
        }
        KeyOrder::Less
    } else {
        proof {
            assert(lex_lt(b@, a@));
            lemma_no_reverse(b@, a@, i as int);
        }
        KeyOrder::Greater
    }
}

/// When `a` comes before `b` at position `i`, `b` does not come before `a` and the two
/// differ.
proof fn lemma_no_reverse(a: Seq<u8>, b: Seq<u8>, i: int)
    requires
        0 <= i <= a.len(),
        i <= b.len(),
        a.take(i) == b.take(i),
        (i < a.len() && i < b.len() && a[i] < b[i]) || (i == a.len() && i < b.len()),
    ensures
        !lex_lt(b, a),
        a != b,
{
    if lex_lt(b, a) {
        let j = choose|j: int|
            0 <= j <= b.len() && j <= a.len() && #[trigger] b.take(j) == a.take(j) && ((j
                < b.len() && j < a.len() && b[j] < a[j]) || (j == b.len() && j < a.len()));
        if j < i {
            assert(a.take(i)[j] == a[j]);
            assert(b.take(i)[j] == b[j]);
            assert(false);
        } else if j == i {
            assert(false);
        } else {
            assert(i < a.len());
            assert(a.take(j)[i] == a[i]);
            assert(b.take(j)[i] == b[i]);
            assert(false);
        }
    }
    if a == b {
        if i < a.len() {
            assert(a[i] == b[i]);
        }
    }
}

/// Encodes `v` in ULEB128.
pub fn encode_uleb128(v: usize) -> (r: Vec<u8>)
    ensures
        r@ == uleb128(v as nat),
{
    let mut out: Vec<u8> = Vec::new();
    let mut rest: usize = v;
    while rest >= 128
        invariant
            out@ + uleb128(rest as nat) == uleb128(v as nat),
        decreases rest,
    {
        let byte: u8 = ((rest % 128) + 128) as u8;
        out.push(byte);
        proof {
            assert(uleb128(rest as nat) == seq![byte] + uleb128((rest / 128) as nat));
            assert(out@ + uleb128((rest / 128) as nat) =~= (out@.drop_last() + seq![byte]) + uleb128(
                (rest / 128) as nat,
            ));
        }
        rest = rest / 128;
    }
    out.push(rest as u8);
    proof {
        assert(uleb128(rest as nat) == seq![rest as u8]);
    }
    out
}

/// Computes the storage key of a channel.
pub fn channel_key_bytes(c: &ChannelId) -> (r: Vec<u8>)
    ensures
        r@ == channel_key(c@),
{
    let mut key: Vec<u8> = Vec::new();
    let mut i: usize = 0;
    while i < 64
        invariant
            i <= 64,
            key@ == c.chain_id.0.bytes@.take(i as int),
        decreases 64 - i,
    {
        key.push(c.chain_id.0.bytes[i]);
        proof {
            assert(c.chain_id.0.bytes@.take(i + 1) =~= c.chain_id.0.bytes@.take(i as int).push(
                c.chain_id.0.bytes@[i as int],
            ));
        }
        i = i + 1;
    }
    let name = c.name.as_str().as_bytes();
    let mut len_bytes = encode_uleb128(name.len());
    let ghost head = key@;
    key.append(&mut len_bytes);
    let m = name.len();
    let ghost mid = key@;
    let mut j: usize = 0;
    while j < m
        invariant
            j <= m,
            m == name@.len(),
            key@ == mid + name@.take(j as int),
        decreases m - j,
    {
        key.push(name[j]);
        proof {
            assert(name@.take(j + 1) =~= name@.take(j as int).push(name@[j as int]));
        }
        j = j + 1;
    }
    proof {
        assert(head =~= c.chain_id@);
        assert(name@.take(m as int) =~= name@);
        assert(key@ =~= channel_key(c@));
    }
    key
}

/// The channels a chain is subscribed to, in increasing order of their storage keys.
#[derive(Debug)]
pub struct Subscriptions {
    entries: Vec<(Vec<u8>, ChannelId)>,
}

impl Subscriptions {
    #[verifier::type_invariant]
    spec fn well_formed(self) -> bool {
        &&& forall|i: int|
            0 <= i < self.entries@.len() ==> (#[trigger] self.entries@[i]).0@ == channel_key(
                self.entries@[i].1.view(),
            )
        &&& keys_increase(self@)
    }

    /// The key stored at index `i`.
    closed spec fn key_at(self, i: int) -> Seq<u8> {
        self.entries@[i].0@
    }

    /// Whether a channel with the same storage key as `c` is subscribed to.
    pub open spec fn has(self, c: ChannelIdView) -> bool {
        subscribed(self@, c)
    }

    /// No subscription.
    pub fn new() -> (r: Subscriptions)
        ensures
            r@ == Seq::<ChannelIdView>::empty(),
    {
        let r = Subscriptions { entries: Vec::new() };
        assert(r@ =~= Seq::<ChannelIdView>::empty());
        r
    }

    /// The number of subscriptions.
    pub fn len(&self) -> (r: usize)
        ensures
            r == self@.len(),
    {
        self.entries.len()
    }

    /// A copy of the channel at index `i`.
    pub fn get(&self, i: usize) -> (r: ChannelId)
        requires
            i < self@.len(),
        ensures
            r@ == self@[i as int],
    {
        let c = &self.entries[i].1;
        ChannelId { chain_id: c.chain_id, name: c.name.clone() }
    }

    /// Finds where the key of `c` stands: the index of the first entry whose key is not
    /// smaller, and whether that entry has the same key.
    fn position(&self, key: &Vec<u8>) -> (r: (usize, bool))
        ensures
            r.0 <= self@.len(),
            forall|j: int| 0 <= j < r.0 ==> lex_lt(#[trigger] self.key_at(j), key@),
            r.1 ==> r.0 < self@.len() && self.key_at(r.0 as int) == key@,
            !r.1 && r.0 < self@.len() ==> lex_lt(key@, self.key_at(r.0 as int)),
    {
        let n = self.entries.len();
        let mut p: usize = 0;
        while p < n
            invariant
                p <= n,
                n == self.entries@.len(),
                forall|j: int| 0 <= j < p ==> lex_lt(#[trigger] self.key_at(j), key@),
            decreases n - p,
        {
            match compare_keys(self.entries[p].0.as_slice(), key.as_slice()) {
                KeyOrder::Less => {},
                KeyOrder::Equal => {
                    return (p, true);
                },
                KeyOrder::Greater => {
                    return (p, false);
                },
            }
            p = p + 1;
        }
        (p, false)
    }

    /// Whether a channel with the same storage key as `c` is subscribed to.
    pub fn contains(&self, c: &ChannelId) -> (r: bool)
        ensures
            r == self.has(c@),
    {
        proof {
            use_type_invariant(self);
        }
        let key = channel_key_bytes(c);
        let (p, found) = self.position(&key);
        proof {
            if !found && self.has(c@) {
                let k = choose|k: int|
                    0 <= k < self@.len() && channel_key(#[trigger] self@[k]) == channel_key(c@);
                assert(self.entries@[k].0@ == channel_key(self@[k]));
                if k < p {
                    assert(lex_lt(self.key_at(k), key@));
                    lemma_lex_lt_irreflexive(key@);
                } else if p < self@.len() {
                    assert(lex_lt(key@, self.key_at(p as int)));
                    if k > p {
                        assert(lex_lt(channel_key(self@[p as int]), channel_key(self@[k])));
                        lemma_lex_lt_transitive(key@, self.key_at(p as int), key@);
                    }
                    lemma_lex_lt_irreflexive(key@);
                }
            }
            if found {
                assert(self.entries@[p as int].0@ == channel_key(self@[p as int]));
            }
        }
        found
    }

    /// Subscribes to `c`. A channel with the same storage key is replaced by `c`.
    pub fn insert(&mut self, c: ChannelId)
        ensures
            final(self).has(c@),
            forall|d: ChannelIdView| #[trigger] subscribed(final(self)@, d) == (subscribed(old(self)@, d) || channel_key(d) == channel_key(c@)),
    {
        proof {
            use_type_invariant(&*self);
        }
        let ghost pre = self@;
        let ghost pre_entries = self.entries@;
        let key = channel_key_bytes(&c);
        let (p, found) = self.position(&key);
        proof {
            assert forall|j: int| 0 <= j < p implies lex_lt(#[trigger] channel_key(pre[j]), key@) by {
                assert(self.key_at(j) == pre_entries[j].0.view());
            }
            if !found && p < pre.len() {
                assert(self.key_at(p as int) == pre_entries[p as int].0.view());
                assert(lex_lt(key@, channel_key(pre[p as int])));
            }
            if found {
                assert(self.key_at(p as int) == pre_entries[p as int].0.view());
            }
        }
        let mut entries = Vec::new();
        std::mem::swap(&mut entries, &mut self.entries);
        let ghost cv = c@;
        if found {
            entries.set(p, (key, c));
        } else {
            entries.insert(p, (key, c));
        }
        proof {
            let s = entries@.map_values(|e: (Vec<u8>, ChannelId)| e.1.view());
            assert forall|i: int| 0 <= i < entries@.len() implies (#[trigger] entries@[i]).0@ == channel_key(entries@[i].1.view()) by {
                if found {
                    if i != p {
                        assert(entries@[i] == pre_entries[i]);
                    }
                } else if i < p {
                    assert(entries@[i] == pre_entries[i]);
                } else if i > p {
                    assert(entries@[i] == pre_entries[i - 1]);
                }
            }
            assert forall|i: int, j: int| 0 <= i < j < s.len() implies lex_lt(channel_key(s[i]), channel_key(s[j])) by {
                assert(s[i] == entries@[i].1.view());
                assert(s[j] == entries@[j].1.view());
                if found {
                    if i == p {
                        assert(channel_key(s[i]) == channel_key(pre[i]));
                    }
                    if j == p {
                        assert(channel_key(s[j]) == channel_key(pre[j]));
                    }
                    assert(pre_entries[i].0@ == channel_key(pre[i]));
                    assert(pre_entries[j].0@ == channel_key(pre[j]));
                } else {
                    if j < p {
                        assert(s[j] == pre[j]);
                        assert(s[i] == pre[i]);
                    } else if j == p {
                        assert(s[i] == pre[i]);
                        assert(pre_entries[i].0@ == channel_key(pre[i]));
                    } else if i < p {
                        assert(s[i] == pre[i]);
                        assert(s[j] == pre[j - 1]);
                        if p < pre.len() {
                            assert(pre_entries[p as int].0@ == channel_key(pre[p as int]));
                            assert(pre_entries[i].0@ == channel_key(pre[i]));
                            if j - 1 > p {
                                lemma_lex_lt_transitive(key@, channel_key(pre[p as int]), channel_key(pre[j - 1]));
                            }
                            lemma_lex_lt_transitive(channel_key(pre[i]), key@, channel_key(pre[j - 1]));
                        }
                    } else if i == p {
                        assert(s[j] == pre[j - 1]);
                        assert(pre_entries[p as int].0@ == channel_key(pre[p as int]));
                        if j - 1 > p {
                            lemma_lex_lt_transitive(key@, channel_key(pre[p as int]), channel_key(pre[j - 1]));
                        }
                    } else {
                        assert(s[i] == pre[i - 1]);
                        assert(s[j] == pre[j - 1]);
                    }
                }
            }
        }
        self.entries = entries;
        proof {
            assert(self@[p as int] == cv);
            assert forall|d: ChannelIdView| #[trigger] subscribed(self@, d) == (subscribed(pre, d) || channel_key(d) == channel_key(cv)) by {
                if subscribed(pre, d) {
                    let k = choose|k: int| 0 <= k < pre.len() && channel_key(#[trigger] pre[k]) == channel_key(d);
                    if found {
                        if k != p {
                            assert(self@[k] == pre[k]);
                        } else {
                            assert(pre_entries[k].0@ == channel_key(pre[k]));
                        }
                    } else if k < p {
                        assert(self@[k] == pre[k]);
                    } else {
                        assert(self@[k + 1] == pre[k]);
                    }
                }
                if subscribed(self@, d) && channel_key(d) != channel_key(cv) {
                    let k = choose|k: int| 0 <= k < self@.len() && channel_key(#[trigger] self@[k]) == channel_key(d);
                    if found {
                        assert(k != p);
                        assert(self@[k] == pre[k]);
                    } else if k < p {
                        assert(self@[k] == pre[k]);
                    } else {
                        assert(k != p);
                        assert(self@[k] == pre[k - 1]);
                    }
                }
            }
        }
    }

    /// Unsubscribes from the channel with the same storage key as `c`, if any.
    pub fn remove(&mut self, c: &ChannelId)
        ensures
            forall|d: ChannelIdView| #[trigger] subscribed(final(self)@, d) == (subscribed(old(self)@, d) && channel_key(d) != channel_key(c@)),
    {
        proof {
            use_type_invariant(&*self);
        }
        let ghost pre = self@;
        let ghost pre_entries = self.entries@;
        let key = channel_key_bytes(c);
        let (p, found) = self.position(&key);
        if !found {
            proof {
                assert forall|d: ChannelIdView| #[trigger] subscribed(self@, d) implies channel_key(d) != channel_key(c@) by {
                    let k = choose|k: int| 0 <= k < self@.len() && channel_key(#[trigger] self@[k]) == channel_key(d);
                    assert(self.entries@[k].0@ == channel_key(self@[k]));
                    if channel_key(d) == channel_key(c@) {
                        if k < p {
                            assert(lex_lt(self.key_at(k), key@));
                        } else {
                            assert(p < self@.len());
                            if k > p {
                                assert(self.entries@[p as int].0@ == channel_key(self@[p as int]));
                                lemma_lex_lt_transitive(key@, self.key_at(p as int), key@);
                            }
                        }
                        lemma_lex_lt_irreflexive(key@);
                    }
                }
            }
            return;
        }
        let mut entries = Vec::new();
        std::mem::swap(&mut entries, &mut self.entries);
        entries.remove(p);
        proof {
            let s = entries@.map_values(|e: (Vec<u8>, ChannelId)| e.1.view());
            assert forall|i: int| 0 <= i < entries@.len() implies (#[trigger] entries@[i]).0@ == channel_key(entries@[i].1.view()) by {
                if i < p {
                    assert(entries@[i] == pre_entries[i]);
                } else {
                    assert(entries@[i] == pre_entries[i + 1]);
                }
            }
            assert forall|i: int, j: int| 0 <= i < j < s.len() implies lex_lt(channel_key(s[i]), channel_key(s[j])) by {
                if j < p {
                    assert(s[i] == pre[i]);
                    assert(s[j] == pre[j]);
                } else if i < p {
                    assert(s[i] == pre[i]);
                    assert(s[j] == pre[j + 1]);
                } else {
                    assert(s[i] == pre[i + 1]);
                    assert(s[j] == pre[j + 1]);
                }
            }
        }
        self.entries = entries;
        proof {
            assert(pre_entries[p as int].0@ == channel_key(pre[p as int]));
            assert forall|d: ChannelIdView| #[trigger] subscribed(self@, d) == (subscribed(pre, d) && channel_key(d) != channel_key(c@)) by {
                if subscribed(pre, d) && channel_key(d) != channel_key(c@) {
                    let k = choose|k: int| 0 <= k < pre.len() && channel_key(#[trigger] pre[k]) == channel_key(d);
                    assert(k != p);
                    if k < p {
                        assert(self@[k] == pre[k]);
                    } else {
                        assert(self@[k - 1] == pre[k]);
                    }
                }
                if subscribed(self@, d) {
                    let k = choose|k: int| 0 <= k < self@.len() && channel_key(#[trigger] self@[k]) == channel_key(d);
                    if k < p {
                        assert(self@[k] == pre[k]);
                        assert(lex_lt(channel_key(pre[k]), channel_key(pre[p as int])));
                    } else {
                        assert(self@[k] == pre[k + 1]);
                        assert(lex_lt(channel_key(pre[p as int]), channel_key(pre[k + 1])));
                    }
                    lemma_lex_lt_irreflexive(channel_key(d));
                }
            }
        }
    }

    /// Unsubscribes from every channel.
    pub fn clear(&mut self)
        ensures
            final(self)@ == Seq::<ChannelIdView>::empty(),
    {
        self.entries = Vec::new();
        assert(self@ =~= Seq::<ChannelIdView>::empty());
    }
}

/// Whether a channel with the same storage key as `d` is in `s`.
pub open spec fn subscribed(s: Seq<ChannelIdView>, d: ChannelIdView) -> bool {
    exists|k: int| 0 <= k < s.len() && channel_key(#[trigger] s[k]) == channel_key(d)
}

impl View for Subscriptions {
    type V = Seq<ChannelIdView>;

    closed spec fn view(&self) -> Seq<ChannelIdView> {
        self.entries@.map_values(|e: (Vec<u8>, ChannelId)| e.1.view())
    }
}

/// The ULEB128 encoding of a length is never a prefix of the encoding of another: two
/// keys that agree after their encoded lengths agree on the lengths and on the rest.
proof fn lemma_uleb128_prefix_free(a: nat, b: nat, x: Seq<u8>, y: Seq<u8>)
    requires
        uleb128(a) + x == uleb128(b) + y,
    ensures
        a == b,
        x == y,
    decreases a,
{
    let l = uleb128(a) + x;
    let r = uleb128(b) + y;
    assert(l[0] == uleb128(a)[0]);
    assert(r[0] == uleb128(b)[0]);
    if a < 128 {
        if b >= 128 {
            assert(uleb128(b)[0] == ((b % 128) + 128) as u8);
        }
        assert(x =~= l.drop_first());
        assert(y =~= r.drop_first());
    } else {
        assert(uleb128(a)[0] == ((a % 128) + 128) as u8);
        if b < 128 {
            assert(uleb128(b)[0] == b as u8);
        } else {
            assert(uleb128(b)[0] == ((b % 128) + 128) as u8);
            assert(uleb128(a / 128) + x =~= l.drop_first());
            assert(uleb128(b / 128) + y =~= r.drop_first());
            lemma_uleb128_prefix_free(a / 128, b / 128, x, y);
            assert(a == 128 * (a / 128) + a % 128) by (nonlinear_arith);
            assert(b == 128 * (b / 128) + b % 128) by (nonlinear_arith);
        }
    }
}

/// The storage key of a channel identifies it: two channels with the same key are the
/// same channel.
pub proof fn law_channel_key_identifies_channel(c: ChannelIdView, d: ChannelIdView)
    ensures
        channel_key(c) == channel_key(d) ==> c == d,
{
    broadcast use vstd::utf8::encode_utf8_decode_utf8;

    if channel_key(c) == channel_key(d) {
        let k = channel_key(c);
        let ec = encode_utf8(c.name);
        let ed = encode_utf8(d.name);
        assert(c.chain_id.0.bytes@.len() == 64);
        assert(d.chain_id.0.bytes@.len() == 64);
        assert(k.take(64) =~= c.chain_id@);
        assert(channel_key(d).take(64) =~= d.chain_id@);
        assert(c.chain_id.0.bytes =~= d.chain_id.0.bytes);
        assert(k.skip(64) =~= uleb128(ec.len()) + ec);
        assert(channel_key(d).skip(64) =~= uleb128(ed.len()) + ed);
        lemma_uleb128_prefix_free(ec.len(), ed.len(), ec, ed);
        assert(decode_utf8(ec) == c.name);
        assert(decode_utf8(ed) == d.name);
    }
}

} // verus!
