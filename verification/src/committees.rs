//! The committees a chain trusts, indexed by epoch and kept in increasing epoch order.
use vstd::prelude::*;

use crate::base::{Committee, Epoch, ValidatorState};

verus! {

/// A map from epochs to committees, kept in increasing epoch order.
#[derive(Debug)]
pub struct Committees {
    entries: Vec<(Epoch, Committee)>,
}

/// What a committee holds: its validators and their votes, in order.
pub type CommitteeView = Seq<ValidatorState>;

/// Whether the epochs of `s` strictly increase.
pub open spec fn epochs_increase(s: Seq<(Epoch, Committee)>) -> bool {
    forall|i: int, j: int| 0 <= i < j < s.len() ==> s[i].0.0 < s[j].0.0
}

impl Committees {
    #[verifier::type_invariant]
    spec fn sorted(self) -> bool {
        epochs_increase(self.entries@)
    }

    /// Whether some entry is for epoch `e`.
    pub closed spec fn has(self, e: Epoch) -> bool {
        exists|i: int| 0 <= i < self.entries@.len() && self.entries@[i].0 == e
    }

    /// The index of the entry for epoch `e`, when there is one.
    closed spec fn index_of(self, e: Epoch) -> int {
        choose|i: int| 0 <= i < self.entries@.len() && self.entries@[i].0 == e
    }

    /// The committees, by epoch.
    pub closed spec fn as_map(self) -> Map<Epoch, CommitteeView> {
        Map::new(|e: Epoch| self.has(e), |e: Epoch| self.entries@[self.index_of(e)].1.view())
    }

    /// The epochs of the committees, in increasing order.
    pub closed spec fn epochs(self) -> Seq<Epoch> {
        self.entries@.map_values(|p: (Epoch, Committee)| p.0)
    }

    proof fn lemma_index_of(self, i: int)
        requires
            epochs_increase(self.entries@),
            0 <= i < self.entries@.len(),
        ensures
            self.has(self.entries@[i].0),
            self.index_of(self.entries@[i].0) == i,
    {
        let e = self.entries@[i].0;
        assert(self.has(e));
        let k = self.index_of(e);
        if k < i {
            assert(self.entries@[k].0.0 < self.entries@[i].0.0);
        } else if k > i {
            assert(self.entries@[i].0.0 < self.entries@[k].0.0);
        }
    }

    /// No committee at all.
    pub fn new() -> (r: Committees)
        ensures
            r@ == Map::<Epoch, CommitteeView>::empty(),
    {
        let r = Committees { entries: Vec::new() };
        assert(r.as_map() =~= Map::<Epoch, CommitteeView>::empty());
        r
    }

    /// Whether there is no committee.
    pub fn is_empty(&self) -> (r: bool)
        ensures
            r == (self@ == Map::<Epoch, CommitteeView>::empty()),
    {
        proof {
            if self.entries@.len() > 0 {
                assert(self.as_map().dom().contains(self.entries@[0].0));
            } else {
                assert(self.as_map() =~= Map::<Epoch, CommitteeView>::empty());
            }
        }
        self.entries.len() == 0
    }

    /// Whether there is a committee for `epoch`.
    pub fn contains_key(&self, epoch: Epoch) -> (r: bool)
        ensures
            r == self@.dom().contains(epoch),
    {
        let n = self.entries.len();
        let mut i: usize = 0;
        while i < n
            invariant
                i <= n,
                n == self.entries@.len(),
                forall|j: int| 0 <= j < i ==> self.entries@[j].0 != epoch,
            decreases n - i,
        {
            if self.entries[i].0.0 == epoch.0 {
                assert(self.has(epoch));
                return true;
            }
            i = i + 1;
        }
        false
    }

    /// Sets the committee of `epoch`, replacing the former one if any.
    pub fn insert(&mut self, epoch: Epoch, committee: Committee)
        ensures
            final(self)@ == old(self)@.insert(epoch, committee@),
    {
        proof {
            use_type_invariant(&*self);
        }
        let ghost pre = self.entries@;
        let ghost old_c: Committees = *self;
        let n = self.entries.len();
        let mut p: usize = 0;
        while p < n && self.entries[p].0.0 < epoch.0
            invariant
                p <= n,
                n == self.entries@.len(),
                forall|j: int| 0 <= j < p ==> self.entries@[j].0.0 < epoch.0,
            decreases n - p,
        {
            p = p + 1;
        }
        let mut entries = Vec::new();
        std::mem::swap(&mut entries, &mut self.entries);
        if p < n && entries[p].0.0 == epoch.0 {
            entries.set(p, (epoch, committee));
            proof {
                assert(epochs_increase(entries@));
            }
            self.entries = entries;
            proof {
                assert forall|e: Epoch| #[trigger] self.has(e) == old_c.has(e) by {
                    if old_c.has(e) {
                        let k = old_c.index_of(e);
                        assert(self.entries@[k].0 == e);
                    }
                    if self.has(e) {
                        let k = self.index_of(e);
                        assert(pre[k].0 == e);
                    }
                }
                assert forall|e: Epoch| #[trigger] self.has(e) && e != epoch implies
                    self.entries@[self.index_of(e)].1.view() == pre[old_c.index_of(e)].1.view() by {
                    let k = old_c.index_of(e);
                    old_c.lemma_index_of(k);
                    self.lemma_index_of(k);
                }
                self.lemma_index_of(p as int);
                assert(self.as_map() =~= old_c.as_map().insert(epoch, committee@));
            }
        } else {
            entries.insert(p, (epoch, committee));
            proof {
                assert forall|i: int, j: int| 0 <= i < j < entries@.len() implies
                    entries@[i].0.0 < entries@[j].0.0 by {
                    if j < p {
                    } else if j == p {
                    } else if i < p {
                        assert(entries@[j] == pre[j - 1]);
                        if p < n {
                            assert(epoch.0 < pre[p as int].0.0);
                        }
                    } else if i == p {
                        assert(entries@[j] == pre[j - 1]);
                        assert(epoch.0 < pre[p as int].0.0);
                    } else {
                    }
                }
            }
            self.entries = entries;
            proof {
                assert forall|e: Epoch| #[trigger] self.has(e) == (old_c.has(e) || e == epoch) by {
                    if old_c.has(e) {
                        let k = old_c.index_of(e);
                        if k < p {
                            assert(self.entries@[k].0 == e);
                        } else {
                            assert(self.entries@[k + 1].0 == e);
                        }
                    }
                    if e == epoch {
                        assert(self.entries@[p as int].0 == e);
                    }
                    if self.has(e) && e != epoch {
                        let k = self.index_of(e);
                        if k < p {
                            assert(pre[k].0 == e);
                        } else {
                            assert(pre[k - 1].0 == e);
                        }
                    }
                }
                assert forall|e: Epoch| #[trigger] self.has(e) && e != epoch implies
                    self.entries@[self.index_of(e)].1.view() == pre[old_c.index_of(e)].1.view() by {
                    let k = old_c.index_of(e);
                    old_c.lemma_index_of(k);
                    if k < p {
                        self.lemma_index_of(k);
                    } else {
                        self.lemma_index_of(k + 1);
                    }
                }
                self.lemma_index_of(p as int);
                assert(self.as_map() =~= old_c.as_map().insert(epoch, committee@));
            }
        }
    }

    /// Removes the committee of `epoch`. Returns whether there was one.
    pub fn remove(&mut self, epoch: Epoch) -> (r: bool)
        ensures
            r == old(self)@.dom().contains(epoch),
            final(self)@ == old(self)@.remove(epoch),
    {
        proof {
            use_type_invariant(&*self);
        }
        let ghost pre = self.entries@;
        let ghost old_c: Committees = *self;
        let n = self.entries.len();
        let mut p: usize = 0;
        while p < n && self.entries[p].0.0 != epoch.0
            invariant
                p <= n,
                n == self.entries@.len(),
                self.entries@ == pre,
                forall|j: int| 0 <= j < p ==> self.entries@[j].0 != epoch,
            decreases n - p,
        {
            p = p + 1;
        }
        if p == n {
            proof {
                assert(self.as_map() =~= self.as_map().remove(epoch));
            }
            return false;
        }
        let mut entries = Vec::new();
        std::mem::swap(&mut entries, &mut self.entries);
        entries.remove(p);
        proof {
            assert forall|i: int, j: int| 0 <= i < j < entries@.len() implies
                entries@[i].0.0 < entries@[j].0.0 by {
                if j < p {
                } else if i < p {
                    assert(entries@[j] == pre[j + 1]);
                } else {
                    assert(entries@[i] == pre[i + 1]);
                    assert(entries@[j] == pre[j + 1]);
                }
            }
        }
        self.entries = entries;
        proof {
            old_c.lemma_index_of(p as int);
            assert(old_c.has(epoch));
            assert forall|e: Epoch| #[trigger] self.has(e) == (old_c.has(e) && e != epoch) by {
                if old_c.has(e) && e != epoch {
                    let k = old_c.index_of(e);
                    if k < p {
                        assert(self.entries@[k].0 == e);
                    } else {
                        assert(k != p);
                        assert(self.entries@[k - 1].0 == e);
                    }
                }
                if self.has(e) {
                    let k = self.index_of(e);
                    if k < p {
                        assert(pre[k].0 == e);
                    } else {
                        assert(pre[k + 1].0 == e);
                        assert(pre[k + 1].0.0 > pre[p as int].0.0);
                    }
                }
            }
            assert forall|e: Epoch| #[trigger] self.has(e) implies
                self.entries@[self.index_of(e)].1.view() == pre[old_c.index_of(e)].1.view() by {
                let k = self.index_of(e);
                self.lemma_index_of(k);
                if k < p {
                    old_c.lemma_index_of(k);
                } else {
                    old_c.lemma_index_of(k + 1);
                }
            }
            assert(self.as_map() =~= old_c.as_map().remove(epoch));
        }
        true
    }

    /// Whether the two maps hold the same committees for the same epochs.
    pub fn equals(&self, other: &Committees) -> (r: bool)
        ensures
            r == (self@ == other@),
    {
        proof {
            use_type_invariant(self);
            use_type_invariant(other);
        }
        let n = self.entries.len();
        let mut i: usize = 0;
        let m = other.entries.len();
        while i < n && i < m
            invariant
                i <= n,
                i <= m,
                n == self.entries@.len(),
                m == other.entries@.len(),
                epochs_increase(self.entries@),
                epochs_increase(other.entries@),
                forall|j: int| 0 <= j < i ==> self.entries@[j].0 == other.entries@[j].0 && self.entries@[j].1.view() == other.entries@[j].1.view(),
            decreases n - i,
        {
            let (ea, ca) = &self.entries[i];
            let (eb, cb) = &other.entries[i];
            if ea.0 != eb.0 {
                proof {
                    self.lemma_first_difference(*other, i as int);
                }
                return false;
            }
            if !ca.equals(cb) {
                proof {
                    self.lemma_index_of(i as int);
                    other.lemma_index_of(i as int);
                    assert(self.as_map()[*ea] != other.as_map()[*ea]);
                }
                return false;
            }
            i = i + 1;
        }
        if n != m {
            proof {
                self.lemma_first_difference(*other, i as int);
            }
            return false;
        }
        proof {
            assert forall|e: Epoch| #[trigger] self.has(e) == other.has(e) by {
                if self.has(e) {
                    let k = self.index_of(e);
                    assert(other.entries@[k].0 == e);
                }
                if other.has(e) {
                    let k = other.index_of(e);
                    assert(self.entries@[k].0 == e);
                }
            }
            assert forall|e: Epoch| #[trigger] self.has(e) implies
                self.entries@[self.index_of(e)].1.view() == other.entries@[other.index_of(e)].1.view() by {
                let k = self.index_of(e);
                self.lemma_index_of(k);
                other.lemma_index_of(k);
            }
            assert(self.as_map() =~= other.as_map());
        }
        true
    }

    /// When two increasing lists agree on their epochs before index `i` and differ at `i`
    /// (or one of them ends at `i` and not the other), their maps differ.
    proof fn lemma_first_difference(self, other: Committees, i: int)
        requires
            epochs_increase(self.entries@),
            epochs_increase(other.entries@),
            0 <= i <= self.entries@.len(),
            i <= other.entries@.len(),
            forall|j: int| 0 <= j < i ==> self.entries@[j].0 == other.entries@[j].0,
            i == self.entries@.len() ==> i < other.entries@.len(),
            i < self.entries@.len() && i < other.entries@.len() ==> self.entries@[i].0 != other.entries@[i].0,
        ensures
            self.as_map() != other.as_map(),
    {
        if i < self.entries@.len() && (i == other.entries@.len() || self.entries@[i].0.0 < other.entries@[i].0.0) {
            let e = self.entries@[i].0;
            assert(self.as_map().dom().contains(e));
            if other.has(e) {
                let k = other.index_of(e);
                if k < i {
                    assert(self.entries@[k].0 == e);
                    assert(self.entries@[k].0.0 < self.entries@[i].0.0);
                } else if k > i {
                    assert(other.entries@[i].0.0 < other.entries@[k].0.0);
                }
            }
            assert(!other.as_map().dom().contains(e));
        } else {
            let e = other.entries@[i].0;
            assert(other.as_map().dom().contains(e));
            if self.has(e) {
                let k = self.index_of(e);
                if k < i {
                    assert(other.entries@[k].0 == e);
                    assert(other.entries@[k].0.0 < other.entries@[i].0.0);
                } else if k > i {
                    assert(self.entries@[i].0.0 < self.entries@[k].0.0);
                }
            }
            assert(!self.as_map().dom().contains(e));
        }
    }

    /// A copy of the map.
    pub fn duplicate(&self) -> (r: Committees)
        ensures
            r@ == self@,
    {
        proof {
            use_type_invariant(self);
        }
        let n = self.entries.len();
        let mut entries: Vec<(Epoch, Committee)> = Vec::new();
        let mut i: usize = 0;
        while i < n
            invariant
                i <= n,
                n == self.entries@.len(),
                entries@.len() == i,
                epochs_increase(self.entries@),
                forall|j: int| 0 <= j < i ==> entries@[j].0 == self.entries@[j].0 && entries@[j].1.view() == self.entries@[j].1.view(),
            decreases n - i,
        {
            let (e, c) = &self.entries[i];
            entries.push((*e, c.duplicate()));
            i = i + 1;
        }
        let r = Committees { entries };
        proof {
            assert(epochs_increase(r.entries@)) by {
                assert forall|a: int, b: int| 0 <= a < b < r.entries@.len() implies
                    r.entries@[a].0.0 < r.entries@[b].0.0 by {
                    assert(r.entries@[a].0 == self.entries@[a].0);
                    assert(r.entries@[b].0 == self.entries@[b].0);
                }
            }
            assert forall|e: Epoch| #[trigger] r.has(e) == self.has(e) by {
                if self.has(e) {
                    let k = self.index_of(e);
                    assert(r.entries@[k].0 == e);
                }
                if r.has(e) {
                    let k = r.index_of(e);
                    assert(self.entries@[k].0 == e);
                }
            }
            assert forall|e: Epoch| #[trigger] r.has(e) implies
                r.entries@[r.index_of(e)].1.view() == self.entries@[self.index_of(e)].1.view() by {
                let k = self.index_of(e);
                self.lemma_index_of(k);
                r.lemma_index_of(k);
            }
            assert(r.as_map() =~= self.as_map());
        }
        r
    }
}

impl View for Committees {
    type V = Map<Epoch, CommitteeView>;

    closed spec fn view(&self) -> Map<Epoch, CommitteeView> {
        self.as_map()
    }
}

} // verus!
