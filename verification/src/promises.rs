//! The promises a WebAssembly guest holds on the host: each asynchronous request of the
//! guest is registered under a fresh number, which the guest hands back to collect the
//! result once.
use std::collections::HashMap;
use vstd::prelude::*;

use crate::wasm::WasmExecutionError;

verus! {

broadcast use vstd::std_specs::hash::group_hash_axioms;

/// The active promises, by number, and the number the next promise will get.
#[derive(Debug)]
pub struct PromiseTable<Promise> {
    active: HashMap<u32, Promise>,
    counter: u32,
}

/// The abstract value of a promise table.
pub struct PromiseTableView<Promise> {
    pub active: Map<u32, Promise>,
    pub counter: u32,
}

impl<Promise> View for PromiseTable<Promise> {
    type V = PromiseTableView<Promise>;

    closed spec fn view(&self) -> PromiseTableView<Promise> {
        PromiseTableView { active: self.active@, counter: self.counter }
    }
}

impl<Promise> PromiseTable<Promise> {
    /// The invariant of the table: every number held was handed out before the counter.
    pub closed spec fn wf(&self) -> bool {
        forall|id: u32| #[trigger] self.active@.contains_key(id) ==> id < self.counter
    }

    /// A table without promises, whose first promise gets the number zero.
    pub fn new() -> (r: PromiseTable<Promise>)
        ensures
            r.wf(),
            r@.active == Map::<u32, Promise>::empty(),
            r@.counter == 0,
    {
        PromiseTable { active: HashMap::new(), counter: 0 }
    }

    /// Registers `promise` under the next number, which is returned. The numbers are
    /// handed out in increasing order, so there must be one left.
    pub fn register(&mut self, promise: Promise) -> (r: u32)
        requires
            old(self).wf(),
            old(self)@.counter < u32::MAX,
        ensures
            final(self).wf(),
            r == old(self)@.counter,
            !old(self)@.active.dom().contains(r),
            final(self)@.active == old(self)@.active.insert(r, promise),
            final(self)@.counter == old(self)@.counter + 1,
    {
        let id = self.counter;
        self.active.insert(id, promise);
        self.counter = self.counter + 1;
        id
    }

    /// Takes out the promise registered under `id`, or fails with `UnknownPromise` when
    /// there is none.
    pub fn take(&mut self, id: u32) -> (r: Result<Promise, WasmExecutionError>)
        requires
            old(self).wf(),
        ensures
            final(self).wf(),
            final(self)@.counter == old(self)@.counter,
            old(self)@.active.dom().contains(id) ==> r == Ok::<Promise, WasmExecutionError>(old(self)@.active[id])
                && final(self)@.active == old(self)@.active.remove(id),
            !old(self)@.active.dom().contains(id) ==> (r matches Err(WasmExecutionError::UnknownPromise))
                && final(self)@ == old(self)@,
    {
        match self.active.remove(&id) {
            Some(promise) => Ok(promise),
            None => {
                assert(self.active@ =~= old(self).active@);
                Err(WasmExecutionError::UnknownPromise)
            },
        }
    }
}

/// A promise is collected once: taking the number that `register` returned gives back
/// the registered promise, and taking it again fails.
pub proof fn law_promise_taken_once<Promise>(
    before: PromiseTableView<Promise>,
    registered: PromiseTableView<Promise>,
    taken: PromiseTableView<Promise>,
    id: u32,
    promise: Promise,
)
    requires
        !before.active.dom().contains(id),
        registered.active == before.active.insert(id, promise),
        taken.active == registered.active.remove(id),
    ensures
        registered.active.dom().contains(id),
        registered.active[id] == promise,
        !taken.active.dom().contains(id),
        taken.active == before.active,
{
    assert(taken.active =~= before.active);
}

} // verus!
