//! Where the resolver keeps its entries.

use vstd::prelude::*;
use std::sync::Arc;
use crate::codec::header::IPv8Address;
use crate::resolver::record;
use crate::resolver::record::Entry;
use crate::table;
use crate::table::{Expiring, Table};

verus! {

/// `Arc::clone`: another pointer to the same entry.
#[verifier::external_body]
pub(crate) fn share(e: &Arc<Entry>) -> (r: Arc<Entry>)
    ensures
        r == *e,
{
    Arc::clone(e)
}

/// The entries that have not gone stale.
pub open spec fn live(m: Map<IPv8Address, record::EntryView>, now: u64) -> Map<IPv8Address, record::EntryView> {
    m.restrict(Set::new(|a: IPv8Address| m.contains_key(a) && !m[a].rec.expired(now)))
}

/// A place for entries.
pub trait Store: Sized {
    /// Whether the store is in order, as every function here leaves it.
    spec fn wf(&self) -> bool;

    /// What the store holds.
    spec fn contents(&self) -> Map<IPv8Address, record::EntryView>;

    /// What [`Store::sweep_expired`] counts at time `now`.
    spec fn swept(&self, now: u64) -> nat;

    /// The entry of an address. A store may remember the answer.
    fn get(&mut self, addr: &IPv8Address, now: u64) -> (r: Option<Arc<Entry>>)
        requires
            old(self).wf(),
        ensures
            final(self).wf(),
            final(self).contents() == old(self).contents(),
            match r {
                Some(e) => old(self).contents().contains_key(*addr) && e@ == old(self).contents()[*addr],
                None => !old(self).contents().contains_key(*addr),
            },
    ;

    /// Keeps an entry.
    fn insert(&mut self, addr: IPv8Address, e: Entry)
        requires
            old(self).wf(),
        ensures
            final(self).wf(),
            final(self).contents() == old(self).contents().insert(addr, e@),
    ;

    /// Takes out what has gone stale, and counts it.
    fn sweep_expired(&mut self, now: u64) -> (n: usize)
        requires
            old(self).wf(),
        ensures
            final(self).wf(),
            final(self).contents() == live(old(self).contents(), now),
            n == old(self).swept(now),
    ;

    /// How many entries there are.
    fn len(&self) -> (n: usize)
        requires
            self.wf(),
        ensures
            self.contents().dom().finite(),
            n == self.contents().len(),
    ;

    /// Whether there are none.
    fn is_empty(&self) -> (r: bool)
        requires
            self.wf(),
        ensures
            r == (self.contents().len() == 0),
    {
        self.len() == 0
    }
}

impl Expiring for Arc<Entry> {
    open spec fn stale(&self, now: u64) -> bool {
        self@.rec.expired(now)
    }

    fn is_stale(&self, now: u64) -> (r: bool) {
        self.rec.is_expired(now)
    }
}

/// A store in memory.
pub struct MemStore {
    by_addr: Table<IPv8Address, Arc<Entry>>,
}

/// The values of a map of entries.
pub open spec fn views(m: Map<IPv8Address, Arc<Entry>>) -> Map<IPv8Address, record::EntryView> {
    m.map_values(|e: Arc<Entry>| e@)
}

impl Default for MemStore {
    fn default() -> (s: Self)
        ensures
            s.wf(),
            s.contents() == Map::<IPv8Address, record::EntryView>::empty(),
    {
        let s = MemStore { by_addr: Table::new() };
        assert(s.contents() =~= Map::<IPv8Address, record::EntryView>::empty());
        s
    }
}

impl Store for MemStore {
    closed spec fn wf(&self) -> bool {
        self.by_addr.wf()
    }

    closed spec fn contents(&self) -> Map<IPv8Address, record::EntryView> {
        views(self.by_addr@)
    }

    /// The number of entries that have gone stale.
    closed spec fn swept(&self, now: u64) -> nat {
        (self.by_addr@.len() - table::live(self.by_addr@, now).len()) as nat
    }

    fn get(&mut self, addr: &IPv8Address, now: u64) -> (r: Option<Arc<Entry>>) {
        match self.by_addr.get(addr) {
            Some(e) => Some(share(e)),
            None => None,
        }
    }

    fn insert(&mut self, addr: IPv8Address, e: Entry) {
        let ghost v = e@;
        self.by_addr.insert(addr, Arc::new(e));
        assert(self.contents() =~= old(self).contents().insert(addr, v));
    }

    fn sweep_expired(&mut self, now: u64) -> (n: usize)
        ensures
            n == old(self).contents().len() - final(self).contents().len(),
    {
        let n: usize = self.by_addr.sweep(now);
        proof {
            assert(self.contents() =~= live(old(self).contents(), now));
            assert(self.contents().dom() =~= self.by_addr@.dom());
            assert(old(self).contents().dom() =~= old(self).by_addr@.dom());
        }
        n
    }

    fn len(&self) -> (n: usize) {
        assert(self.contents().dom() =~= self.by_addr@.dom());
        self.by_addr.len()
    }
}

} // verus!
