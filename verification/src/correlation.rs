//! The correlation table: the single source of truth for matching a
//! response id to the caller waiting for it.
//!
//! The table is generic in the waiter handle `W`: the resolver half of
//! whatever single-resolution primitive the surrounding runtime uses (a
//! one-shot channel sender, a slot behind a condition variable). The
//! table itself only stores and surrenders handles; delivering a message
//! through one is the caller's step.

use std::collections::HashMap;

use vstd::prelude::*;

verus! {

broadcast use vstd::std_specs::hash::group_hash_axioms;

/// Maps each outstanding correlation id to the one waiter that will
/// receive the matching response. At most one waiter per id, always.
pub struct CorrelationTable<W> {
    entries: HashMap<u64, W>,
}

impl<W> View for CorrelationTable<W> {
    type V = Map<u64, W>;

    closed spec fn view(&self) -> Map<u64, W> {
        self.entries@
    }
}

impl<W> CorrelationTable<W> {
    /// An empty table.
    pub fn new() -> (t: Self)
        ensures
            t@ == Map::<u64, W>::empty(),
    {
        CorrelationTable { entries: HashMap::new() }
    }

    /// Register a waiter under an id. Never overwrites: if the id is
    /// already taken the table is unchanged and `fresh` is false.
    pub fn register(&mut self, id: u64, waiter: W) -> (fresh: bool)
        ensures
            fresh == !old(self)@.contains_key(id),
            fresh ==> final(self)@ == old(self)@.insert(id, waiter),
            !fresh ==> final(self)@ == old(self)@,
    {
        if self.entries.contains_key(&id) {
            false
        } else {
            self.entries.insert(id, waiter);
            true
        }
    }

    /// Remove and surrender the waiter registered under this id, the
    /// instant its response is delivered. `None` if no waiter is
    /// pending under the id.
    pub fn resolve(&mut self, id: u64) -> (w: Option<W>)
        ensures
            final(self)@ == old(self)@.remove(id),
            w matches Some(x) ==> old(self)@.contains_key(id) && x == old(self)@[id],
            w is None ==> !old(self)@.contains_key(id),
    {
        self.entries.remove(&id)
    }

    /// Remove a registration without resolving it: cancellation or
    /// shutdown. Without this, a caller that gives up on a response
    /// would leave its entry in the table forever.
    pub fn abandon(&mut self, id: u64) -> (present: bool)
        ensures
            final(self)@ == old(self)@.remove(id),
            present == old(self)@.contains_key(id),
    {
        self.entries.remove(&id).is_some()
    }

    /// Whether a waiter is pending under this id.
    pub fn contains(&self, id: u64) -> (r: bool)
        ensures
            r == self@.contains_key(id),
    {
        self.entries.contains_key(&id)
    }

    /// How many waiters are pending.
    pub fn len(&self) -> (n: usize)
        ensures
            n == self@.len(),
    {
        self.entries.len()
    }
}

/// Correlation correctness: resolving id `k` surrenders exactly the
/// waiter registered under `k`; every other registration is still there,
/// unchanged, and `k` itself is gone.
pub proof fn lemma_resolution_exact<W>(m: Map<u64, W>, k: u64)
    requires
        m.contains_key(k),
    ensures
        !m.remove(k).contains_key(k),
        forall|j: u64|
            j != k && m.contains_key(j) ==> (#[trigger] m.remove(k).contains_key(j)) && m.remove(
                k,
            )[j] == m[j],
        forall|j: u64| j != k && !m.contains_key(j) ==> !(#[trigger] m.remove(k).contains_key(j)),
{
}

} // verus!
