//! A cache of compiled WebAssembly modules.
//!
//! The cache is limited by the total size of cached bytecodes. Entries are ranked by
//! their [`Metadata`]: the time of their last access (by a logical clock), how often they
//! were accessed and the size of their bytecode.
use std::sync::Arc;
use vstd::prelude::*;

use crate::base::Bytecode;
use crate::wasm::WasmExecutionError;

verus! {

/// The default limit on the total size of cached bytecodes: 512 MiB.
pub const DEFAULT_MAX_CACHE_SIZE: u64 = 536870912u64;

/// An entry in the [`ModuleCache`]: the module itself and how it was used.
#[derive(Debug)]
pub struct Entry<Module> {
    module: Arc<Module>,
    last_access: u64,
    /// The number of accesses, which is never zero; `None` marks the entry for eviction.
    access_count: Option<u64>,
}

/// What an entry holds.
pub struct EntryView<Module> {
    pub module: Arc<Module>,
    pub last_access: u64,
    pub access_count: Option<u64>,
}

/// A cache of compiled WebAssembly modules, keyed by their bytecode.
#[derive(Debug)]
pub struct ModuleCache<Module> {
    modules: Vec<(Bytecode, Entry<Module>)>,
    access_clock: u64,
    total_size: u64,
    max_size: u64,
}

/// What a cache holds: its entries (keyed by the bytes of their bytecode), its logical
/// clock, the total size it accounts for and its size limit.
pub struct ModuleCacheView<Module> {
    pub entries: Seq<(Seq<u8>, EntryView<Module>)>,
    pub access_clock: u64,
    pub total_size: u64,
    pub max_size: u64,
}

impl<Module> View for ModuleCache<Module> {
    type V = ModuleCacheView<Module>;

    closed spec fn view(&self) -> ModuleCacheView<Module> {
        ModuleCacheView {
            entries: entry_views(self.modules@),
            access_clock: self.access_clock,
            total_size: self.total_size,
            max_size: self.max_size,
        }
    }
}

/// What an entry holds, with its bytecode.
pub closed spec fn entry_view<Module>(e: (Bytecode, Entry<Module>)) -> (Seq<u8>, EntryView<Module>) {
    (e.0@, EntryView { module: e.1.module, last_access: e.1.last_access, access_count: e.1.access_count })
}

/// What the entries hold.
pub closed spec fn entry_views<Module>(s: Seq<(Bytecode, Entry<Module>)>) -> Seq<(Seq<u8>, EntryView<Module>)> {
    s.map_values(|e: (Bytecode, Entry<Module>)| entry_view(e))
}

/// Whether some entry of `entries` is for `bytecode`.
pub open spec fn has_bytecode<Module>(entries: Seq<(Seq<u8>, EntryView<Module>)>, bytecode: Seq<u8>) -> bool {
    exists|i: int| 0 <= i < entries.len() && (#[trigger] entries[i]).0 == bytecode
}

/// The index of the entry of `entries` for `bytecode`.
pub open spec fn index_of_bytecode<Module>(entries: Seq<(Seq<u8>, EntryView<Module>)>, bytecode: Seq<u8>) -> int {
    choose|i: int| 0 <= i < entries.len() && (#[trigger] entries[i]).0 == bytecode
}

/// The total size of the bytecodes of `s`.
pub open spec fn total_bytes<Module>(s: Seq<(Seq<u8>, EntryView<Module>)>) -> nat
    decreases s.len(),
{
    if s.len() == 0 {
        0
    } else {
        total_bytes(s.drop_last()) + s.last().0.len()
    }
}

/// The invariant of a cache: one entry per bytecode, distinct access times all before
/// the clock, access counts that are never zero (no entry stays marked for eviction),
/// and an accounted size that is the total size of the cached bytecodes and stays
/// within the limit.
pub open spec fn cache_wf<Module>(c: ModuleCacheView<Module>) -> bool {
    &&& forall|i: int, j: int| 0 <= i < j < c.entries.len() ==> c.entries[i].0 != c.entries[j].0
    &&& forall|i: int, j: int|
        0 <= i < j < c.entries.len() ==> c.entries[i].1.last_access != c.entries[j].1.last_access
    &&& forall|i: int| 0 <= i < c.entries.len() ==> (#[trigger] c.entries[i]).1.last_access < c.access_clock
    &&& forall|i: int|
        0 <= i < c.entries.len() ==> (#[trigger] c.entries[i]).1.access_count is Some
            && c.entries[i].1.access_count.unwrap() >= 1
    &&& c.total_size == total_bytes(c.entries)
    &&& c.total_size <= c.max_size
    &&& c.max_size == DEFAULT_MAX_CACHE_SIZE
}

/// Whether some entry of `s` is for the empty bytecode.
pub open spec fn has_empty_bytecode<Module>(s: Seq<(Seq<u8>, EntryView<Module>)>) -> bool {
    exists|i: int| 0 <= i < s.len() && (#[trigger] s[i]).0.len() == 0
}

/// Entries for distinct bytecodes are no more than their total size, plus one for the
/// empty bytecode.
proof fn lemma_entries_within_bytes<Module>(s: Seq<(Seq<u8>, EntryView<Module>)>)
    requires
        forall|i: int, j: int| 0 <= i < j < s.len() ==> s[i].0 != s[j].0,
    ensures
        s.len() <= total_bytes(s) + (if has_empty_bytecode(s) { 1int } else { 0int }),
    decreases s.len(),
{
    if s.len() > 0 {
        let p = s.drop_last();
        let n = s.len() - 1;
        assert forall|i: int, j: int| 0 <= i < j < p.len() implies p[i].0 != p[j].0 by {
            assert(p[i] == s[i] && p[j] == s[j]);
        }
        lemma_entries_within_bytes(p);
        if s.last().0.len() == 0 {
            assert(s[n].0.len() == 0);
            assert(has_empty_bytecode(s));
            if has_empty_bytecode(p) {
                let i = choose|i: int| 0 <= i < p.len() && (#[trigger] p[i]).0.len() == 0;
                assert(p[i] == s[i]);
                assert(s[i].0 =~= s[n].0);
            }
        } else {
            if has_empty_bytecode(p) {
                let i = choose|i: int| 0 <= i < p.len() && (#[trigger] p[i]).0.len() == 0;
                assert(p[i] == s[i]);
                assert(has_empty_bytecode(s));
            }
            if has_empty_bytecode(s) {
                let i = choose|i: int| 0 <= i < s.len() && (#[trigger] s[i]).0.len() == 0;
                assert(i < n);
                assert(p[i] == s[i]);
                assert(has_empty_bytecode(p));
            }
        }
    }
}

/// A cache that satisfies the invariant has far fewer entries than its clock can count.
proof fn lemma_entries_bounded<Module>(c: ModuleCacheView<Module>)
    requires
        cache_wf(c),
    ensures
        c.entries.len() <= DEFAULT_MAX_CACHE_SIZE + 1,
        c.entries.len() < u64::MAX,
{
    lemma_entries_within_bytes(c.entries);
}

/// The rank of an entry for eviction: its metadata.
pub closed spec fn entry_rank<Module>(e: (Seq<u8>, EntryView<Module>)) -> Metadata {
    Metadata { last_access: e.1.last_access, access_count: e.1.access_count, bytecode_size: e.0.len() as u64 }
}

/// Whether the entry at `i` ranks below every other entry of `s`.
pub open spec fn is_lowest_ranked<Module>(s: Seq<(Seq<u8>, EntryView<Module>)>, i: int) -> bool {
    &&& 0 <= i < s.len()
    &&& forall|j: int| 0 <= j < s.len() && j != i ==> entry_rank(s[i]).ranks_below(#[trigger] entry_rank(s[j]))
}

/// The cache after its lowest-ranked entry is evicted: the entry goes, and its bytecode
/// no longer counts in the total size.
pub open spec fn after_evict_one<Module>(c: ModuleCacheView<Module>) -> ModuleCacheView<Module> {
    let i = choose|i: int| is_lowest_ranked(c.entries, i);
    ModuleCacheView {
        entries: c.entries.remove(i),
        total_size: (c.total_size - c.entries[i].0.len()) as u64,
        ..c
    }
}

/// The cache after entries are evicted, lowest-ranked first, until the total size of its
/// bytecodes is at most `new_size`.
pub open spec fn after_reduce<Module>(c: ModuleCacheView<Module>, new_size: u64) -> ModuleCacheView<Module>
    decreases c.entries.len(),
{
    if c.total_size <= new_size || !(exists|i: int| is_lowest_ranked(c.entries, i)) {
        c
    } else {
        after_reduce(after_evict_one(c), new_size)
    }
}

/// The cache once room is made for a bytecode of `size` bytes: when the bytecode would
/// not fit, entries are evicted until it does.
pub open spec fn with_room_for<Module>(c: ModuleCacheView<Module>, size: nat) -> ModuleCacheView<Module> {
    if c.total_size + size > c.max_size {
        after_reduce(c, (c.max_size - size) as u64)
    } else {
        c
    }
}

/// The number of entries of `s` last accessed before time `t`.
pub open spec fn count_accessed_before<Module>(s: Seq<(Seq<u8>, EntryView<Module>)>, t: u64) -> nat
    decreases s.len(),
{
    if s.len() == 0 {
        0
    } else {
        count_accessed_before(s.drop_last(), t) + if s.last().1.last_access < t {
            1nat
        } else {
            0nat
        }
    }
}

/// The cache after its clock is reset: every entry gets as access time its rank among
/// the access times, and the clock restarts at the number of entries.
pub open spec fn after_clock_reset<Module>(c: ModuleCacheView<Module>) -> ModuleCacheView<Module> {
    ModuleCacheView {
        entries: c.entries.map_values(
            |e: (Seq<u8>, EntryView<Module>)|
                (
                    e.0,
                    EntryView {
                        module: e.1.module,
                        last_access: count_accessed_before(c.entries, e.1.last_access) as u64,
                        access_count: e.1.access_count,
                    },
                ),
        ),
        access_clock: c.entries.len() as u64,
        ..c
    }
}

/// The access time handed out by a tick of the clock, and the cache after the tick:
/// the clock advances, after being reset if it reached its maximum.
pub open spec fn after_tick<Module>(c: ModuleCacheView<Module>) -> (u64, ModuleCacheView<Module>) {
    let base = if c.access_clock == u64::MAX {
        after_clock_reset(c)
    } else {
        c
    };
    (base.access_clock, ModuleCacheView { access_clock: (base.access_clock + 1) as u64, ..base })
}

/// The access count after one more access, saturating at the largest count.
pub open spec fn count_after_access(count: Option<u64>) -> Option<u64> {
    match count {
        Some(n) => Some(if n == u64::MAX { n } else { (n + 1) as u64 }),
        None => None,
    }
}

/// The cache after a hit on the entry at index `k`: the clock ticks, the entry gets
/// the new access time and one more access.
pub open spec fn after_hit<Module>(c: ModuleCacheView<Module>, k: int) -> ModuleCacheView<Module> {
    let (t, base) = after_tick(c);
    ModuleCacheView {
        entries: base.entries.update(
            k,
            (
                base.entries[k].0,
                EntryView {
                    module: base.entries[k].1.module,
                    last_access: t,
                    access_count: count_after_access(base.entries[k].1.access_count),
                },
            ),
        ),
        ..base
    }
}

/// The cache after `module` is inserted for `bytecode`: the clock ticks and the entry,
/// accessed once at the new time, replaces the former entry for the bytecode, or is added
/// after the others and its bytecode counts in the total size.
pub open spec fn after_insert<Module>(
    c: ModuleCacheView<Module>,
    bytecode: Seq<u8>,
    module: Arc<Module>,
) -> ModuleCacheView<Module> {
    let (t, base) = after_tick(c);
    let entry = (bytecode, EntryView { module, last_access: t, access_count: Some(1u64) });
    ModuleCacheView {
        entries: if has_bytecode(base.entries, bytecode) {
            base.entries.update(index_of_bytecode(base.entries, bytecode), entry)
        } else {
            base.entries.push(entry)
        },
        total_size: if has_bytecode(base.entries, bytecode) {
            base.total_size
        } else {
            (base.total_size + bytecode.len()) as u64
        },
        ..base
    }
}

/// Counting is monotonic in the time bound.
proof fn lemma_count_monotonic<Module>(s: Seq<(Seq<u8>, EntryView<Module>)>, t1: u64, t2: u64)
    requires
        t1 <= t2,
    ensures
        count_accessed_before(s, t1) <= count_accessed_before(s, t2),
    decreases s.len(),
{
    if s.len() > 0 {
        lemma_count_monotonic(s.drop_last(), t1, t2);
    }
}

/// An entry accessed at a time in `[t1, t2)` makes the count before `t2` larger.
proof fn lemma_count_strict<Module>(s: Seq<(Seq<u8>, EntryView<Module>)>, t1: u64, t2: u64, i: int)
    requires
        0 <= i < s.len(),
        t1 <= s[i].1.last_access < t2,
    ensures
        count_accessed_before(s, t1) < count_accessed_before(s, t2),
    decreases s.len(),
{
    if i == s.len() - 1 {
        lemma_count_monotonic(s.drop_last(), t1, t2);
    } else {
        lemma_count_strict(s.drop_last(), t1, t2, i);
    }
}

/// Entries accessed at or after `t` are not counted.
proof fn lemma_count_bound<Module>(s: Seq<(Seq<u8>, EntryView<Module>)>, t: u64, i: int)
    requires
        0 <= i < s.len(),
        s[i].1.last_access >= t,
    ensures
        count_accessed_before(s, t) < s.len(),
    decreases s.len(),
{
    lemma_count_at_most_len(s.drop_last(), t);
    if i < s.len() - 1 {
        lemma_count_bound(s.drop_last(), t, i);
    }
}

proof fn lemma_count_at_most_len<Module>(s: Seq<(Seq<u8>, EntryView<Module>)>, t: u64)
    ensures
        count_accessed_before(s, t) <= s.len(),
    decreases s.len(),
{
    if s.len() > 0 {
        lemma_count_at_most_len(s.drop_last(), t);
    }
}

/// Resetting the clock of a cache that satisfies the invariant keeps the invariant and
/// the relative order of the access times.
pub proof fn lemma_clock_reset_keeps_invariant<Module>(c: ModuleCacheView<Module>)
    requires
        cache_wf(c),
    ensures
        cache_wf(after_clock_reset(c)),
        forall|i: int, j: int|
            0 <= i < c.entries.len() && 0 <= j < c.entries.len() ==> (c.entries[i].1.last_access
                < c.entries[j].1.last_access <==> after_clock_reset(c).entries[i].1.last_access
                < after_clock_reset(c).entries[j].1.last_access),
{
    lemma_entries_bounded(c);
    let r = after_clock_reset(c);
    let s = c.entries;
    lemma_total_bytes_same_sizes(s, r.entries);
    assert forall|i: int| 0 <= i < s.len() implies count_accessed_before(s, s[i].1.last_access) < s.len() by {
        lemma_count_bound(s, s[i].1.last_access, i);
    }
    assert forall|i: int, j: int| 0 <= i < s.len() && 0 <= j < s.len() && s[i].1.last_access < s[j].1.last_access implies
        count_accessed_before(s, s[i].1.last_access) < count_accessed_before(s, s[j].1.last_access) by {
        lemma_count_strict(s, s[i].1.last_access, s[j].1.last_access, i);
    }
    assert forall|i: int, j: int| 0 <= i < j < r.entries.len() implies r.entries[i].1.last_access != r.entries[j].1.last_access by {
        assert(s[i].1.last_access != s[j].1.last_access);
    }
    assert forall|i: int, j: int| 0 <= i < s.len() && 0 <= j < s.len() implies (s[i].1.last_access
        < s[j].1.last_access <==> r.entries[i].1.last_access < r.entries[j].1.last_access) by {
        if s[j].1.last_access < s[i].1.last_access {
            assert(count_accessed_before(s, s[j].1.last_access) < count_accessed_before(s, s[i].1.last_access));
        }
        if i != j && s[i].1.last_access == s[j].1.last_access {
            if i < j {
                assert(s[i].1.last_access != s[j].1.last_access);
            } else {
                assert(s[j].1.last_access != s[i].1.last_access);
            }
        }
    }
}

/// Entries whose bytecodes have the same sizes have the same total size.
proof fn lemma_total_bytes_same_sizes<Module>(s: Seq<(Seq<u8>, EntryView<Module>)>, t: Seq<(Seq<u8>, EntryView<Module>)>)
    requires
        s.len() == t.len(),
        forall|i: int| 0 <= i < s.len() ==> (#[trigger] s[i]).0.len() == t[i].0.len(),
    ensures
        total_bytes(s) == total_bytes(t),
    decreases s.len(),
{
    if s.len() > 0 {
        lemma_total_bytes_same_sizes(s.drop_last(), t.drop_last());
    }
}

/// Removing an entry takes its bytecode out of the total size.
proof fn lemma_total_bytes_remove<Module>(s: Seq<(Seq<u8>, EntryView<Module>)>, i: int)
    requires
        0 <= i < s.len(),
    ensures
        total_bytes(s.remove(i)) + s[i].0.len() == total_bytes(s),
    decreases s.len(),
{
    if i == s.len() - 1 {
        assert(s.remove(i) =~= s.drop_last());
    } else {
        lemma_total_bytes_remove(s.drop_last(), i);
        assert(s.remove(i).drop_last() =~= s.drop_last().remove(i));
        assert(s.remove(i).last() == s.last());
    }
}

/// Adding an entry adds its bytecode to the total size.
proof fn lemma_total_bytes_push<Module>(s: Seq<(Seq<u8>, EntryView<Module>)>, e: (Seq<u8>, EntryView<Module>))
    ensures
        total_bytes(s.push(e)) == total_bytes(s) + e.0.len(),
{
    assert(s.push(e).drop_last() =~= s);
}

/// The ranks of entries accessed at different times differ.
proof fn lemma_ranks_differ<Module>(a: (Seq<u8>, EntryView<Module>), b: (Seq<u8>, EntryView<Module>))
    requires
        a.1.last_access != b.1.last_access,
    ensures
        entry_rank(a).ranks_below(entry_rank(b)) || entry_rank(b).ranks_below(entry_rank(a)),
        !(entry_rank(a).ranks_below(entry_rank(b)) && entry_rank(b).ranks_below(entry_rank(a))),
{
    law_metadata_rank_is_total_order(entry_rank(a), entry_rank(b), entry_rank(a));
}

/// Entries accessed at distinct times have a lowest-ranked one.
proof fn lemma_lowest_ranked_exists<Module>(s: Seq<(Seq<u8>, EntryView<Module>)>)
    requires
        s.len() > 0,
        forall|i: int, j: int| 0 <= i < j < s.len() ==> s[i].1.last_access != s[j].1.last_access,
    ensures
        exists|i: int| is_lowest_ranked(s, i),
    decreases s.len(),
{
    if s.len() == 1 {
        assert(is_lowest_ranked(s, 0));
    } else {
        let t = s.drop_last();
        lemma_lowest_ranked_exists(t);
        let i0 = choose|i: int| is_lowest_ranked(t, i);
        let n = s.len() - 1;
        lemma_ranks_differ(s[i0], s[n]);
        if entry_rank(s[i0]).ranks_below(entry_rank(s[n])) {
            assert forall|j: int| 0 <= j < s.len() && j != i0 implies entry_rank(s[i0]).ranks_below(#[trigger] entry_rank(s[j])) by {
                if j < n {
                    assert(t[j] == s[j]);
                }
            }
            assert(is_lowest_ranked(s, i0));
        } else {
            assert forall|j: int| 0 <= j < s.len() && j != n implies entry_rank(s[n]).ranks_below(#[trigger] entry_rank(s[j])) by {
                if j != i0 {
                    assert(t[j] == s[j]);
                    assert(entry_rank(t[i0]).ranks_below(entry_rank(t[j])));
                    law_metadata_rank_is_total_order(entry_rank(s[n]), entry_rank(s[i0]), entry_rank(s[j]));
                }
            }
            assert(is_lowest_ranked(s, n));
        }
    }
}

/// There is only one lowest-ranked entry.
proof fn lemma_lowest_ranked_unique<Module>(s: Seq<(Seq<u8>, EntryView<Module>)>, i: int, k: int)
    requires
        is_lowest_ranked(s, i),
        is_lowest_ranked(s, k),
    ensures
        i == k,
{
    if i != k {
        assert(entry_rank(s[i]).ranks_below(entry_rank(s[k])));
        assert(entry_rank(s[k]).ranks_below(entry_rank(s[i])));
        law_metadata_rank_is_total_order(entry_rank(s[i]), entry_rank(s[k]), entry_rank(s[i]));
    }
}

/// Evicting the lowest-ranked entry of a non-empty cache keeps the invariant and removes
/// one entry.
proof fn lemma_evict_keeps_invariant<Module>(c: ModuleCacheView<Module>)
    requires
        cache_wf(c),
        c.entries.len() > 0,
    ensures
        exists|i: int| is_lowest_ranked(c.entries, i),
        cache_wf(after_evict_one(c)),
        after_evict_one(c).entries.len() == c.entries.len() - 1,
        after_evict_one(c).access_clock == c.access_clock,
        after_evict_one(c).max_size == c.max_size,
{
    lemma_lowest_ranked_exists(c.entries);
    let i = choose|i: int| is_lowest_ranked(c.entries, i);
    let s = c.entries;
    let t = s.remove(i);
    lemma_total_bytes_remove(s, i);
    assert forall|a: int| 0 <= a < t.len() implies #[trigger] t[a] == s[if a < i { a } else { a + 1 }] by {
    }
    assert forall|a: int, b: int| 0 <= a < b < t.len() implies t[a].0 != t[b].0 && t[a].1.last_access != t[b].1.last_access by {
        let pa = if a < i { a } else { a + 1 };
        let pb = if b < i { b } else { b + 1 };
        assert(t[a] == s[pa]);
        assert(t[b] == s[pb]);
    }
}

/// Evicting until the total size is at most `new_size` keeps the invariant and gets the
/// size there; the entries left are among the former ones.
proof fn lemma_reduce_keeps_invariant<Module>(c: ModuleCacheView<Module>, new_size: u64)
    requires
        cache_wf(c),
    ensures
        cache_wf(after_reduce(c, new_size)),
        after_reduce(c, new_size).total_size <= new_size,
        after_reduce(c, new_size).access_clock == c.access_clock,
        after_reduce(c, new_size).max_size == c.max_size,
        after_reduce(c, new_size).entries.len() <= c.entries.len(),
        c.total_size > new_size ==> after_reduce(c, new_size).entries.len() < c.entries.len(),
    decreases c.entries.len(),
{
    if c.total_size > new_size {
        if c.entries.len() == 0 {
            assert(total_bytes(c.entries) == 0);
        }
        lemma_evict_keeps_invariant(c);
        lemma_reduce_keeps_invariant(after_evict_one(c), new_size);
    }
}

/// The entries left by evicting the lowest-ranked entry at `i` of a cache: all but that
/// one, in order.
proof fn lemma_evict_shape<Module>(c: ModuleCacheView<Module>) -> (i: int)
    requires
        cache_wf(c),
        c.entries.len() > 0,
    ensures
        is_lowest_ranked(c.entries, i),
        after_evict_one(c).entries == c.entries.remove(i),
        forall|a: int| 0 <= a < after_evict_one(c).entries.len() ==> #[trigger] after_evict_one(c).entries[a]
            == c.entries[if a < i { a } else { a + 1 }],
        !after_evict_one(c).entries.contains(c.entries[i]),
        after_evict_one(c).total_size + c.entries[i].0.len() == c.total_size,
{
    lemma_evict_keeps_invariant(c);
    let i = choose|i: int| is_lowest_ranked(c.entries, i);
    let s = c.entries;
    let t = after_evict_one(c).entries;
    lemma_total_bytes_remove(s, i);
    if t.contains(s[i]) {
        let a = choose|a: int| 0 <= a < t.len() && t[a] == s[i];
        let m = if a < i { a } else { a + 1 };
        assert(t[a] == s[m]);
        if m < i {
            assert(s[m].0 != s[i].0);
        } else {
            assert(s[i].0 != s[m].0);
        }
    }
    i
}

/// The entries left by making room were all in the cache before.
proof fn lemma_reduce_keeps_old_entries<Module>(c: ModuleCacheView<Module>, new_size: u64)
    requires
        cache_wf(c),
    ensures
        forall|k: int| 0 <= k < after_reduce(c, new_size).entries.len() ==> c.entries.contains(
            #[trigger] after_reduce(c, new_size).entries[k],
        ),
    decreases c.entries.len(),
{
    let r = after_reduce(c, new_size);
    if c.total_size > new_size {
        if c.entries.len() == 0 {
            assert(total_bytes(c.entries) == 0);
        }
        lemma_evict_keeps_invariant(c);
        let i = lemma_evict_shape(c);
        let d = after_evict_one(c);
        assert(r == after_reduce(d, new_size));
        lemma_reduce_keeps_old_entries(d, new_size);
        assert forall|k: int| 0 <= k < r.entries.len() implies c.entries.contains(#[trigger] r.entries[k]) by {
            assert(d.entries.contains(r.entries[k]));
            let a = choose|a: int| 0 <= a < d.entries.len() && d.entries[a] == r.entries[k];
            assert(d.entries[a] == c.entries[if a < i { a } else { a + 1 }]);
        }
    } else {
        assert forall|k: int| 0 <= k < r.entries.len() implies c.entries.contains(#[trigger] r.entries[k]) by {
            assert(r.entries[k] == c.entries[k]);
        }
    }
}

/// Every entry evicted to make room ranks below every entry left.
proof fn lemma_reduce_evicts_lower<Module>(c: ModuleCacheView<Module>, new_size: u64)
    requires
        cache_wf(c),
    ensures
        forall|j: int, k: int|
            0 <= j < c.entries.len() && !after_reduce(c, new_size).entries.contains(c.entries[j]) && 0 <= k
                < after_reduce(c, new_size).entries.len() ==> entry_rank(#[trigger] c.entries[j]).ranks_below(
                entry_rank(#[trigger] after_reduce(c, new_size).entries[k]),
            ),
    decreases c.entries.len(),
{
    let r = after_reduce(c, new_size);
    if c.total_size > new_size {
        if c.entries.len() == 0 {
            assert(total_bytes(c.entries) == 0);
        }
        lemma_evict_keeps_invariant(c);
        let i = lemma_evict_shape(c);
        let d = after_evict_one(c);
        let s = c.entries;
        let t = d.entries;
        assert(r == after_reduce(d, new_size));
        lemma_reduce_evicts_lower(d, new_size);
        lemma_reduce_keeps_old_entries(d, new_size);
        assert forall|j: int, k: int|
            0 <= j < s.len() && !r.entries.contains(s[j]) && 0 <= k < r.entries.len() implies entry_rank(#[trigger] s[j]).ranks_below(
                entry_rank(#[trigger] r.entries[k]),
            ) by {
            assert(t.contains(r.entries[k]));
            let a = choose|a: int| 0 <= a < t.len() && t[a] == r.entries[k];
            let m = if a < i { a } else { a + 1 };
            assert(t[a] == s[m]);
            if j == i {
                assert(m != i);
                assert(entry_rank(s[i]).ranks_below(entry_rank(s[m])));
            } else {
                let ja = if j < i { j } else { j - 1 };
                assert(t[ja] == s[j]);
                assert(entry_rank(t[ja]).ranks_below(entry_rank(r.entries[k])));
            }
        }
    }
}

/// When making room evicts anything, keeping any one evicted entry would not have fit.
proof fn lemma_reduce_evicts_no_more_than_needed<Module>(c: ModuleCacheView<Module>, new_size: u64)
    requires
        cache_wf(c),
    ensures
        after_reduce(c, new_size).entries.len() < c.entries.len() ==> exists|j: int|
            0 <= j < c.entries.len() && !after_reduce(c, new_size).entries.contains(#[trigger] c.entries[j])
                && after_reduce(c, new_size).total_size + c.entries[j].0.len() > new_size,
    decreases c.entries.len(),
{
    let r = after_reduce(c, new_size);
    if c.total_size > new_size {
        if c.entries.len() == 0 {
            assert(total_bytes(c.entries) == 0);
        }
        lemma_evict_keeps_invariant(c);
        let i = lemma_evict_shape(c);
        let d = after_evict_one(c);
        let s = c.entries;
        let t = d.entries;
        assert(r == after_reduce(d, new_size));
        if d.total_size <= new_size {
            assert(r == d);
            assert(!r.entries.contains(s[i]));
        } else {
            lemma_reduce_keeps_invariant(d, new_size);
            lemma_reduce_evicts_no_more_than_needed(d, new_size);
            let ja = choose|ja: int| 0 <= ja < t.len() && !r.entries.contains(#[trigger] t[ja])
                && r.total_size + t[ja].0.len() > new_size;
            let j = if ja < i { ja } else { ja + 1 };
            assert(t[ja] == s[j]);
        }
    }
}

/// Making room for a bytecode evicts entries, lowest-ranked first, until it fits: what
/// is left is at most the new size, every entry left was there before, every entry
/// evicted ranks below every entry left, and no fewer evictions would have done.
pub proof fn law_reduce_evicts_lowest_ranked_first<Module>(c: ModuleCacheView<Module>, new_size: u64)
    requires
        cache_wf(c),
    ensures
        cache_wf(after_reduce(c, new_size)),
        after_reduce(c, new_size).total_size <= new_size,
        forall|k: int| 0 <= k < after_reduce(c, new_size).entries.len() ==> c.entries.contains(
            #[trigger] after_reduce(c, new_size).entries[k],
        ),
        forall|j: int, k: int|
            0 <= j < c.entries.len() && !after_reduce(c, new_size).entries.contains(c.entries[j]) && 0 <= k
                < after_reduce(c, new_size).entries.len() ==> entry_rank(#[trigger] c.entries[j]).ranks_below(
                entry_rank(#[trigger] after_reduce(c, new_size).entries[k]),
            ),
        after_reduce(c, new_size).entries.len() < c.entries.len() ==> exists|j: int|
            0 <= j < c.entries.len() && !after_reduce(c, new_size).entries.contains(#[trigger] c.entries[j])
                && after_reduce(c, new_size).total_size + c.entries[j].0.len() > new_size,
{
    lemma_reduce_keeps_invariant(c, new_size);
    lemma_reduce_keeps_old_entries(c, new_size);
    lemma_reduce_evicts_lower(c, new_size);
    lemma_reduce_evicts_no_more_than_needed(c, new_size);
}

/// Whether no two entries are for the same bytecode.
pub open spec fn distinct_bytecodes<Module>(entries: Seq<(Seq<u8>, EntryView<Module>)>) -> bool {
    forall|i: int, j: int| 0 <= i < j < entries.len() ==> entries[i].0 != entries[j].0
}

/// In entries with distinct bytecodes, the entry found for a bytecode is the one that
/// holds it.
proof fn lemma_index_of_unique<Module>(entries: Seq<(Seq<u8>, EntryView<Module>)>, bytecode: Seq<u8>, i: int)
    requires
        distinct_bytecodes(entries),
        0 <= i < entries.len(),
        entries[i].0 == bytecode,
    ensures
        has_bytecode(entries, bytecode),
        index_of_bytecode(entries, bytecode) == i,
{
    assert(has_bytecode(entries, bytecode));
    let k = index_of_bytecode(entries, bytecode);
    if k < i {
        assert(entries[k].0 != entries[i].0);
    } else if i < k {
        assert(entries[i].0 != entries[k].0);
    }
}

/// A module inserted in the cache is the one found for its bytecode afterwards, so that
/// a `get` right after an `insert` of `bytecode` returns `module`, accessed once; the
/// cache still holds the modules that were not evicted to make room, for the other
/// bytecodes, and stays within its size limit.
pub proof fn law_get_after_insert<Module>(
    c: ModuleCacheView<Module>,
    bytecode: Seq<u8>,
    module: Arc<Module>,
    other: Seq<u8>,
)
    requires
        cache_wf(c),
        bytecode.len() <= c.max_size,
    ensures
        cache_wf(after_insert(with_room_for(c, bytecode.len()), bytecode, module)),
        has_bytecode(after_insert(with_room_for(c, bytecode.len()), bytecode, module).entries, bytecode),
        after_insert(with_room_for(c, bytecode.len()), bytecode, module).entries[index_of_bytecode(
            after_insert(with_room_for(c, bytecode.len()), bytecode, module).entries,
            bytecode,
        )].1.module == module,
        after_insert(with_room_for(c, bytecode.len()), bytecode, module).entries[index_of_bytecode(
            after_insert(with_room_for(c, bytecode.len()), bytecode, module).entries,
            bytecode,
        )].1.access_count == Some(1u64),
        other != bytecode ==> has_bytecode(after_insert(with_room_for(c, bytecode.len()), bytecode, module).entries, other)
            == has_bytecode(with_room_for(c, bytecode.len()).entries, other),
        other != bytecode && has_bytecode(with_room_for(c, bytecode.len()).entries, other) ==> after_insert(
            with_room_for(c, bytecode.len()),
            bytecode,
            module,
        ).entries[index_of_bytecode(
            after_insert(with_room_for(c, bytecode.len()), bytecode, module).entries,
            other,
        )].1.module == with_room_for(c, bytecode.len()).entries[index_of_bytecode(
            with_room_for(c, bytecode.len()).entries,
            other,
        )].1.module,
{
    lemma_entries_bounded(c);
    lemma_reduce_keeps_invariant(c, (c.max_size - bytecode.len()) as u64);
    let base = with_room_for(c, bytecode.len());
    lemma_insert_finds_module(base, bytecode, module, other);
    lemma_insert_keeps_invariant(base, bytecode, module);
}

/// Inserting into a cache that has room keeps its invariant.
proof fn lemma_insert_keeps_invariant<Module>(c: ModuleCacheView<Module>, bytecode: Seq<u8>, module: Arc<Module>)
    requires
        cache_wf(c),
        c.total_size + bytecode.len() <= c.max_size,
    ensures
        cache_wf(after_insert(c, bytecode, module)),
{
    lemma_entries_bounded(c);
    let (t, base) = after_tick(c);
    if c.access_clock == u64::MAX {
        lemma_clock_reset_keeps_invariant(c);
    }
    let post = after_insert(c, bytecode, module);
    lemma_insert_finds_module(c, bytecode, module, bytecode);
    assert forall|i: int| 0 <= i < base.entries.len() implies (#[trigger] base.entries[i]).1.last_access < t by {
    }
    if has_bytecode(base.entries, bytecode) {
        let k = index_of_bytecode(base.entries, bytecode);
        lemma_total_bytes_same_sizes(base.entries, post.entries);
        assert forall|i: int, j: int| 0 <= i < j < post.entries.len() implies post.entries[i].1.last_access != post.entries[j].1.last_access by {
            if i != k && j != k {
                assert(post.entries[i] == base.entries[i]);
                assert(post.entries[j] == base.entries[j]);
            } else if i == k {
                assert(post.entries[j] == base.entries[j]);
            } else {
                assert(post.entries[i] == base.entries[i]);
            }
        }
    } else {
        lemma_total_bytes_push(base.entries, (bytecode, EntryView { module, last_access: t, access_count: Some(1u64) }));
    }
}

/// After an insertion, the module of the inserted bytecode is found, and the other
/// bytecodes keep theirs.
proof fn lemma_insert_finds_module<Module>(
    c: ModuleCacheView<Module>,
    bytecode: Seq<u8>,
    module: Arc<Module>,
    other: Seq<u8>,
)
    requires
        cache_wf(c),
    ensures
        has_bytecode(after_insert(c, bytecode, module).entries, bytecode),
        after_insert(c, bytecode, module).entries[index_of_bytecode(
            after_insert(c, bytecode, module).entries,
            bytecode,
        )].1.module == module,
        after_insert(c, bytecode, module).entries[index_of_bytecode(
            after_insert(c, bytecode, module).entries,
            bytecode,
        )].1.access_count == Some(1u64),
        other != bytecode ==> has_bytecode(after_insert(c, bytecode, module).entries, other)
            == has_bytecode(c.entries, other),
        other != bytecode && has_bytecode(c.entries, other) ==> after_insert(c, bytecode, module).entries[index_of_bytecode(
            after_insert(c, bytecode, module).entries,
            other,
        )].1.module == c.entries[index_of_bytecode(c.entries, other)].1.module,
{
    lemma_entries_bounded(c);
    let (t, base) = after_tick(c);
    let post = after_insert(c, bytecode, module);
    assert(base.entries.len() == c.entries.len());
    assert forall|i: int| 0 <= i < c.entries.len() implies (#[trigger] base.entries[i]).0 == c.entries[i].0
        && base.entries[i].1.module == c.entries[i].1.module by {
    }
    assert(distinct_bytecodes(c.entries));
    assert(distinct_bytecodes(base.entries)) by {
        assert forall|i: int, j: int| 0 <= i < j < base.entries.len() implies base.entries[i].0 != base.entries[j].0 by {
            assert(c.entries[i].0 != c.entries[j].0);
        }
    }
    let found = has_bytecode(base.entries, bytecode);
    let n = base.entries.len();
    let k = if found { index_of_bytecode(base.entries, bytecode) } else { n as int };
    assert(0 <= k < post.entries.len());
    assert(post.entries[k].0 == bytecode && post.entries[k].1.module == module);
    assert forall|i: int| 0 <= i < post.entries.len() && i != k implies #[trigger] post.entries[i] == base.entries[i] by {
    }
    assert(distinct_bytecodes(post.entries)) by {
        assert forall|i: int, j: int| 0 <= i < j < post.entries.len() implies post.entries[i].0 != post.entries[j].0 by {
            if i != k && j != k {
                assert(base.entries[i].0 != base.entries[j].0);
            } else if i == k && found {
                assert(base.entries[k].0 != base.entries[j].0);
            } else if j == k && found {
                assert(base.entries[i].0 != base.entries[k].0);
            } else if j == k {
                assert(base.entries[i].0 != bytecode);
            }
        }
    }
    lemma_index_of_unique(post.entries, bytecode, k);
    if other != bytecode {
        if has_bytecode(c.entries, other) {
            let j = index_of_bytecode(c.entries, other);
            assert(c.entries[j].0 == other);
            assert(j != k);
            assert(post.entries[j] == base.entries[j]);
            lemma_index_of_unique(post.entries, other, j);
        } else {
            if has_bytecode(post.entries, other) {
                let j = index_of_bytecode(post.entries, other);
                assert(j != k);
                assert(post.entries[j] == base.entries[j]);
                assert(c.entries[j].0 == other);
            }
        }
    }
}

/// Three-way comparison of eviction metadata.
pub enum MetadataOrder {
    Less,
    Equal,
    Greater,
}

/// Information on a cache entry used to find eviction candidates: entries most recently
/// used, then entries more accessed, then entries with smaller bytecodes rank higher.
#[derive(Clone, Copy, Debug, PartialEq, Eq, Structural)]
pub struct Metadata {
    last_access: u64,
    access_count: Option<u64>,
    bytecode_size: u64,
}

/// The order of access counts: marked entries (`None`) first, then by count.
pub open spec fn count_lt(a: Option<u64>, b: Option<u64>) -> bool {
    match (a, b) {
        (None, Some(_)) => true,
        (Some(x), Some(y)) => x < y,
        _ => false,
    }
}

impl Metadata {
    /// Whether `self` ranks strictly lower than `other`: less recently used, or as
    /// recently and less accessed, or as recently, as often and with a larger bytecode.
    pub closed spec fn ranks_below(self, other: Metadata) -> bool {
        ||| self.last_access < other.last_access
        ||| self.last_access == other.last_access && count_lt(self.access_count, other.access_count)
        ||| self.last_access == other.last_access && self.access_count == other.access_count
            && self.bytecode_size > other.bytecode_size
    }

    /// Compares two metadata by rank.
    pub fn compare(&self, other: &Metadata) -> (r: MetadataOrder)
        ensures
            r is Less <==> self.ranks_below(*other),
            r is Equal <==> *self == *other,
            r is Greater <==> other.ranks_below(*self),
    {
        if self.last_access < other.last_access {
            return MetadataOrder::Less;
        }
        if self.last_access > other.last_access {
            return MetadataOrder::Greater;
        }
        let counts = match (self.access_count, other.access_count) {
            (None, None) => MetadataOrder::Equal,
            (None, Some(_)) => MetadataOrder::Less,
            (Some(_), None) => MetadataOrder::Greater,
            (Some(x), Some(y)) => if x < y {
                MetadataOrder::Less
            } else if x > y {
                MetadataOrder::Greater
            } else {
                MetadataOrder::Equal
            },
        };
        match counts {
            MetadataOrder::Equal => {
                if self.bytecode_size > other.bytecode_size {
                    MetadataOrder::Less
                } else if self.bytecode_size < other.bytecode_size {
                    MetadataOrder::Greater
                } else {
                    MetadataOrder::Equal
                }
            },
            other_order => other_order,
        }
    }
}

/// The rank of cache entries is a strict total order: no metadata ranks below itself,
/// two distinct metadata are ranked one way, and ranking is transitive.
pub proof fn law_metadata_rank_is_total_order(a: Metadata, b: Metadata, c: Metadata)
    ensures
        !a.ranks_below(a),
        a.ranks_below(b) ==> !b.ranks_below(a),
        a != b ==> a.ranks_below(b) || b.ranks_below(a),
        a.ranks_below(b) && b.ranks_below(c) ==> a.ranks_below(c),
{
}

impl<Module> Default for ModuleCache<Module> {
    /// An empty cache with the default size limit.
    fn default() -> (r: ModuleCache<Module>)
        ensures
            r.wf(),
            r@.entries.len() == 0,
            r@.access_clock == 0,
            r@.total_size == 0,
            r@.max_size == DEFAULT_MAX_CACHE_SIZE,
    {
        ModuleCache { modules: Vec::new(), access_clock: 0, total_size: 0, max_size: DEFAULT_MAX_CACHE_SIZE }
    }
}

impl<Module> ModuleCache<Module> {
    /// Whether the cache satisfies its invariant.
    pub open spec fn wf(&self) -> bool {
        cache_wf(self@)
    }

    /// Finds the entry of `bytecode`.
    fn find(&self, bytecode: &Bytecode) -> (r: Option<usize>)
        requires
            self.wf(),
        ensures
            r is None ==> !has_bytecode(self@.entries, bytecode@),
            r matches Some(k) ==> k < self@.entries.len() && self@.entries[k as int].0 == bytecode@
                && index_of_bytecode(self@.entries, bytecode@) == k,
    {
        let n = self.modules.len();
        let mut i: usize = 0;
        while i < n
            invariant
                i <= n,
                n == self.modules@.len(),
                cache_wf(self@),
                forall|j: int| 0 <= j < i ==> self@.entries[j].0 != bytecode@,
            decreases n - i,
        {
            if bytes_equal(&self.modules[i].0.bytes, &bytecode.bytes) {
                proof {
                    assert(self@.entries[i as int].0 == bytecode@);
                    assert(has_bytecode(self@.entries, bytecode@));
                    let k = index_of_bytecode(self@.entries, bytecode@);
                    if k != i {
                        if k < i {
                            assert(self@.entries[k].0 != self@.entries[i as int].0);
                        } else {
                            assert(self@.entries[i as int].0 != self@.entries[k].0);
                        }
                    }
                }
                return Some(i);
            }
            i = i + 1;
        }
        None
    }

    /// Returns the module for `bytecode` if it's in the cache, recording the access.
    pub fn get(&mut self, bytecode: &Bytecode) -> (r: Option<Arc<Module>>)
        requires
            old(self).wf(),
        ensures
            final(self).wf(),
            !has_bytecode(old(self)@.entries, bytecode@) ==> r is None && final(self)@ == old(self)@,
            has_bytecode(old(self)@.entries, bytecode@) ==> {
                let k = index_of_bytecode(old(self)@.entries, bytecode@);
                &&& r == Some(old(self)@.entries[k].1.module)
                &&& final(self)@ == after_hit(old(self)@, k)
            },
    {
        proof {
            lemma_entries_bounded(self@);
        }
        let k = match self.find(bytecode) {
            Some(k) => k,
            None => {
                return None;
            },
        };
        let ghost pre = self@;
        let current_access_time = self.tick_access_clock();
        let ghost mid = self@;
        let mut modules = Vec::new();
        std::mem::swap(&mut modules, &mut self.modules);
        let (code, mut entry) = modules.remove(k);
        if let Some(count) = entry.access_count {
            entry.access_count = Some(count.saturating_add(1));
        }
        entry.last_access = current_access_time;
        let module = entry.module.clone();
        modules.insert(k, (code, entry));
        self.modules = modules;
        proof {
            let post = after_hit(pre, k as int);
            assert(self@.entries =~= post.entries);
            lemma_total_bytes_same_sizes(mid.entries, self@.entries);
        }
        Some(module)
    }

    /// Inserts a `bytecode` and its compiled `module` in the cache. When the bytecode would
    /// not fit within the size limit, the lowest-ranked entries are evicted first.
    #[verifier::rlimit(30)]
    pub fn insert(&mut self, bytecode: Bytecode, module: Arc<Module>)
        requires
            old(self).wf(),
            bytecode@.len() <= old(self)@.max_size,
        ensures
            final(self).wf(),
            final(self)@ == after_insert(with_room_for(old(self)@, bytecode@.len()), bytecode@, module),
    {
        let bytecode_size = bytecode.bytes.len() as u64;
        if self.total_size > self.max_size - bytecode_size {
            self.reduce_size_to(self.max_size - bytecode_size);
        }
        proof {
            lemma_reduce_keeps_invariant(old(self)@, (old(self)@.max_size - bytecode@.len()) as u64);
            assert(self@ == with_room_for(old(self)@, bytecode@.len()));
        }
        let ghost pre = self@;
        let last_access = self.tick_access_clock();
        let ghost mid = self@;
        let entry = Entry { module, last_access, access_count: Some(1) };
        match self.find(&bytecode) {
            Some(k) => {
                let mut modules = Vec::new();
                std::mem::swap(&mut modules, &mut self.modules);
                modules.set(k, (bytecode, entry));
                self.modules = modules;
                proof {
                    assert(self@.entries =~= after_insert(pre, bytecode@, module).entries);
                    lemma_total_bytes_same_sizes(mid.entries, self@.entries);
                }
            },
            None => {
                self.modules.push((bytecode, entry));
                self.total_size = self.total_size + bytecode_size;
                proof {
                    assert(self@.entries =~= after_insert(pre, bytecode@, module).entries);
                    lemma_total_bytes_push(mid.entries, self@.entries.last());
                    assert(mid.entries.push(self@.entries.last()) =~= self@.entries);
                }
            },
        }
    }

    /// Returns a module for the requested `bytecode`, creating it with `module_builder`
    /// and adding it to the cache if it doesn't already exist in the cache. A bytecode
    /// larger than the size limit can only be asked for with a builder that fails on it:
    /// a module for it could never be cached.
    pub fn get_or_insert_with<E, F: FnOnce(Bytecode) -> Result<Module, E>>(
        &mut self,
        bytecode: Bytecode,
        module_builder: F,
    ) -> (r: Result<Arc<Module>, WasmExecutionError>) where WasmExecutionError: From<E>
        requires
            old(self).wf(),
            forall|b: Bytecode, built: Result<Module, E>|
                b@ == bytecode@ && #[trigger] call_ensures(module_builder, (b,), built) && built is Ok
                    ==> bytecode@.len() <= old(self)@.max_size,
            forall|b: Bytecode| b@ == bytecode@ ==> call_requires(module_builder, (b,)),
        ensures
            final(self).wf(),
            has_bytecode(old(self)@.entries, bytecode@) ==> {
                let k = index_of_bytecode(old(self)@.entries, bytecode@);
                &&& r == Ok::<Arc<Module>, WasmExecutionError>(old(self)@.entries[k].1.module)
                &&& final(self)@ == after_hit(old(self)@, k)
            },
            !has_bytecode(old(self)@.entries, bytecode@) ==> exists|b: Bytecode, built: Result<Module, E>| {
                &&& b@ == bytecode@
                &&& call_ensures(module_builder, (b,), built)
                &&& match built {
                    Ok(m) => r == Ok::<Arc<Module>, WasmExecutionError>(Arc::new(m)) && final(self)@ == after_insert(
                        with_room_for(old(self)@, bytecode@.len()),
                        bytecode@,
                        Arc::new(m),
                    ),
                    Err(e) => final(self)@ == old(self)@ && exists|w: WasmExecutionError| r == Err::<Arc<Module>, WasmExecutionError>(w) && call_ensures(WasmExecutionError::from, (e,), w),
                }
            },
    {
        proof {
            lemma_entries_bounded(self@);
        }
        if let Some(module) = self.get(&bytecode) {
            Ok(module)
        } else {
            let copy = bytecode.duplicate();
            let built = module_builder(copy);
            match built {
                Ok(m) => {
                    let module = Arc::new(m);
                    self.insert(bytecode, module.clone());
                    Ok(module)
                },
                Err(e) => Err(WasmExecutionError::from(e)),
            }
        }
    }

    /// Evicts entries from the cache, lowest-ranked first, until the total size of the
    /// cached bytecodes is at most `new_size`.
    fn reduce_size_to(&mut self, new_size: u64)
        requires
            old(self).wf(),
        ensures
            final(self).wf(),
            final(self)@ == after_reduce(old(self)@, new_size),
    {
        while self.total_size > new_size
            invariant
                cache_wf(self@),
                after_reduce(self@, new_size) == after_reduce(old(self)@, new_size),
            decreases self.modules@.len(),
        {
            proof {
                if self@.entries.len() == 0 {
                    assert(total_bytes(self@.entries) == 0);
                }
                lemma_evict_keeps_invariant(self@);
            }
            let ghost before = self@;
            self.evict_one();
            proof {
                assert(after_reduce(before, new_size) == after_reduce(after_evict_one(before), new_size));
            }
        }
    }

    /// The metadata of the entry at index `i`.
    fn metadata_of(&self, i: usize) -> (r: Metadata)
        requires
            i < self@.entries.len(),
        ensures
            r.last_access == self@.entries[i as int].1.last_access,
            r.access_count == self@.entries[i as int].1.access_count,
            r.bytecode_size == self@.entries[i as int].0.len(),
            r == entry_rank(self@.entries[i as int]),
    {
        let (code, entry) = &self.modules[i];
        Metadata {
            last_access: entry.last_access,
            access_count: entry.access_count,
            bytecode_size: code.bytes.len() as u64,
        }
    }

    /// Increments the logical clock used to keep track of cache entry hits. Returns the
    /// time of the access.
    fn tick_access_clock(&mut self) -> (r: u64)
        requires
            old(self).wf(),
        ensures
            final(self).wf(),
            (r, final(self)@) == after_tick(old(self)@),
            r < final(self)@.access_clock,
            forall|i: int| 0 <= i < final(self)@.entries.len() ==> (#[trigger] final(self)@.entries[i]).1.last_access < r,
            cache_wf(ModuleCacheView { access_clock: r, ..final(self)@ }),
    {
        proof {
            lemma_entries_bounded(self@);
        }
        if self.access_clock == u64::MAX {
            self.reset_access_clock();
        }
        let ghost base = self@;
        self.access_clock = self.access_clock + 1;
        proof {
            assert(self@.entries =~= base.entries);
        }
        self.access_clock - 1
    }

    /// Resets the logical clock used to keep track of cache entry hits, to control how it
    /// overflows. All entries in the cache have their access time reset to their rank, so
    /// that they become compacted, and the clock is reset to the next value.
    fn reset_access_clock(&mut self)
        requires
            old(self).wf(),
        ensures
            final(self)@ == after_clock_reset(old(self)@),
            cache_wf(final(self)@),
    {
        proof {
            lemma_entries_bounded(self@);
        }
        let ghost pre = self@;
        proof {
            lemma_clock_reset_keeps_invariant(pre);
            assert forall|j: int| 0 <= j < pre.entries.len() implies count_accessed_before(pre.entries, pre.entries[j].1.last_access) < pre.entries.len() by {
                lemma_count_bound(pre.entries, pre.entries[j].1.last_access, j);
            }
        }
        self.access_clock = self.modules.len() as u64;
        let n = self.modules.len();
        let mut ranks: Vec<u64> = Vec::new();
        let mut i: usize = 0;
        while i < n
            invariant
                i <= n,
                n == self.modules@.len(),
                self@.entries == pre.entries,
                n < u64::MAX,
                ranks@.len() == i,
                forall|j: int| 0 <= j < i ==> ranks@[j] == count_accessed_before(pre.entries, pre.entries[j].1.last_access),
                forall|j: int| 0 <= j < n ==> count_accessed_before(pre.entries, pre.entries[j].1.last_access) < n,
            decreases n - i,
        {
            let rank = self.count_before(self.modules[i].1.last_access);
            ranks.push(rank);
            i = i + 1;
        }
        let mut modules = Vec::new();
        std::mem::swap(&mut modules, &mut self.modules);
        let mut j: usize = 0;
        while j < n
            invariant
                j <= n,
                n == modules@.len(),
                ranks@.len() == n,
                forall|k: int| 0 <= k < n ==> ranks@[k] == count_accessed_before(pre.entries, pre.entries[k].1.last_access),
                forall|k: int| 0 <= k < n ==> (#[trigger] modules@[k]).0@ == pre.entries[k].0
                    && modules@[k].1.module == pre.entries[k].1.module
                    && modules@[k].1.access_count == pre.entries[k].1.access_count,
                forall|k: int| 0 <= k < j ==> (#[trigger] modules@[k]).1.last_access == ranks@[k],
                forall|k: int| j <= k < n ==> (#[trigger] modules@[k]).1.last_access == pre.entries[k].1.last_access,
            decreases n - j,
        {
            let (code, mut entry) = modules.remove(j);
            entry.last_access = ranks[j];
            modules.insert(j, (code, entry));
            j = j + 1;
        }
        self.modules = modules;
        proof {
            assert(self@.entries =~= after_clock_reset(pre).entries);
        }
    }

    /// The number of entries last accessed before `t`.
    fn count_before(&self, t: u64) -> (r: u64)
        requires
            self@.entries.len() < u64::MAX,
        ensures
            r == count_accessed_before(self@.entries, t),
    {
        let n = self.modules.len();
        let mut count: u64 = 0;
        let mut i: usize = 0;
        while i < n
            invariant
                i <= n,
                n == self.modules@.len(),
                n < u64::MAX,
                count == count_accessed_before(self@.entries.take(i as int), t),
                count <= i,
            decreases n - i,
        {
            proof {
                assert(self@.entries.take(i + 1).drop_last() =~= self@.entries.take(i as int));
            }
            if self.modules[i].1.last_access < t {
                count = count + 1;
            }
            i = i + 1;
        }
        proof {
            assert(self@.entries.take(n as int) =~= self@.entries);
        }
        count
    }

    /// Evicts the lowest-ranked entry of a non-empty cache: the one used least recently,
    /// then least often, then with the largest bytecode. Its bytecode no longer counts in
    /// the total size.
    fn evict_one(&mut self)
        requires
            old(self).wf(),
            old(self)@.entries.len() > 0,
        ensures
            final(self).wf(),
            final(self)@ == after_evict_one(old(self)@),
    {
        proof {
            lemma_evict_keeps_invariant(self@);
        }
        let n = self.modules.len();
        let mut best: usize = 0;
        let mut i: usize = 1;
        while i < n
            invariant
                1 <= i <= n,
                best < i,
                n == self@.entries.len(),
                cache_wf(self@),
                forall|j: int| 0 <= j < i && j != best ==> entry_rank(self@.entries[best as int]).ranks_below(
                    #[trigger] entry_rank(self@.entries[j]),
                ),
            decreases n - i,
        {
            let candidate = self.metadata_of(i);
            let current = self.metadata_of(best);
            let order = candidate.compare(&current);
            proof {
                lemma_ranks_differ(self@.entries[i as int], self@.entries[best as int]);
            }
            if let MetadataOrder::Less = order {
                proof {
                    assert forall|j: int| 0 <= j < i + 1 && j != i implies entry_rank(self@.entries[i as int]).ranks_below(
                        #[trigger] entry_rank(self@.entries[j]),
                    ) by {
                        if j != best {
                            law_metadata_rank_is_total_order(
                                entry_rank(self@.entries[i as int]),
                                entry_rank(self@.entries[best as int]),
                                entry_rank(self@.entries[j]),
                            );
                        }
                    }
                }
                best = i;
            }
            i = i + 1;
        }
        let ghost pre = self@;
        proof {
            assert(is_lowest_ranked(pre.entries, best as int));
            let chosen = choose|k: int| is_lowest_ranked(pre.entries, k);
            lemma_lowest_ranked_unique(pre.entries, best as int, chosen);
            lemma_total_bytes_remove(pre.entries, best as int);
        }
        let (code, _) = self.modules.remove(best);
        self.total_size = self.total_size - code.bytes.len() as u64;
        proof {
            assert(self@.entries =~= pre.entries.remove(best as int));
        }
    }
}

/// Whether the two byte sequences are the same.
fn bytes_equal(a: &Vec<u8>, b: &Vec<u8>) -> (r: bool)
    ensures
        r == (a@ == b@),
{
    if a.len() != b.len() {
        return false;
    }
    let n = a.len();
    let mut i: usize = 0;
    while i < n
        invariant
            i <= n,
            n == a@.len(),
            n == b@.len(),
            forall|j: int| 0 <= j < i ==> a@[j] == b@[j],
        decreases n - i,
    {
        if a[i] != b[i] {
            return false;
        }
        i = i + 1;
    }
    assert(a@ =~= b@);
    true
}

} // verus!
