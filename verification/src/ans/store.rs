//! Where the name service keeps its agents.

use vstd::prelude::*;
use crate::ans::card;
use crate::ans::card::AgentCard;
use crate::codec::header::IPv8Address;
use crate::codec::layouts::AgentCardSummary;
use crate::table;
use crate::table::Table;
use crate::text;

verus! {

/// An agent that is registered.
#[derive(Debug, Clone)]
pub struct StoredAgent {
    pub ed_pub: [u8; 32],
    pub name: String,
    pub card: AgentCard,
    pub summary: AgentCardSummary,
    /// The plan that the agent is leased to, and until when.
    pub lease: Option<(u64, u64)>,
}

/// A registered agent as a mathematical value.
pub ghost struct AgentView {
    pub ed_pub: Seq<u8>,
    pub name: Seq<char>,
    pub card: card::CardView,
    pub summary: AgentCardSummary,
    pub lease: Option<(u64, u64)>,
}

impl View for StoredAgent {
    type V = AgentView;

    open spec fn view(&self) -> AgentView {
        AgentView {
            ed_pub: self.ed_pub@,
            name: self.name@,
            card: self.card@,
            summary: self.summary,
            lease: self.lease,
        }
    }
}

impl AgentView {
    /// Whether the agent is leased.
    pub open spec fn leased(self, now: u64) -> bool {
        self.lease matches Some((_, end)) && end > now
    }

    /// Whether the card has expired.
    pub open spec fn expired(self, now: u64) -> bool {
        self.card.not_after <= now
    }
}

impl StoredAgent {
    /// Whether the agent is leased.
    pub fn is_leased(&self, now: u64) -> (r: bool)
        ensures
            r == self@.leased(now),
    {
        match self.lease {
            Some((_, end)) => end > now,
            None => false,
        }
    }

    /// Whether the card has expired.
    pub fn is_expired(&self, now: u64) -> (r: bool)
        ensures
            r == self@.expired(now),
    {
        self.card.not_after <= now
    }
}

/// A place for agents.
pub trait Store: Sized {
    /// Whether the store is in order, as every function here leaves it.
    spec fn wf(&self) -> bool;

    /// Which agent is at an address.
    spec fn agents(&self) -> Map<IPv8Address, AgentView>;

    /// Which address has a name.
    spec fn names(&self) -> Map<Seq<char>, IPv8Address>;

    /// Keeps an agent under its address and its name.
    fn put(&mut self, addr: IPv8Address, agent: StoredAgent)
        requires
            old(self).wf(),
        ensures
            final(self).wf(),
            final(self).agents() == old(self).agents().insert(addr, agent@),
            final(self).names() == old(self).names().insert(agent.name@, addr),
    ;

    /// The agent at an address.
    fn get(&self, addr: IPv8Address) -> (r: Option<&StoredAgent>)
        requires
            self.wf(),
        ensures
            match r {
                Some(a) => self.agents().contains_key(addr) && a@ == self.agents()[addr],
                None => !self.agents().contains_key(addr),
            },
    ;

    /// Changes the lease of the agent at an address; tells whether there is
    /// one.
    fn set_lease(&mut self, addr: IPv8Address, lease: Option<(u64, u64)>) -> (r: bool)
        requires
            old(self).wf(),
        ensures
            final(self).wf(),
            r == old(self).agents().contains_key(addr),
            final(self).agents() == if r {
                old(self).agents().insert(addr, (AgentView { lease, ..old(self).agents()[addr] }))
            } else {
                old(self).agents()
            },
            final(self).names() == old(self).names(),
    ;

    /// The address that has a name.
    fn addr_of_name(&self, name: &str) -> (r: Option<IPv8Address>)
        requires
            self.wf(),
        ensures
            r == if self.names().contains_key(name@) {
                Some(self.names()[name@])
            } else {
                None
            },
    ;

    /// Takes out the agent at an address, and its name.
    fn remove(&mut self, addr: IPv8Address) -> (r: Option<StoredAgent>)
        requires
            old(self).wf(),
        ensures
            final(self).wf(),
            match r {
                Some(a) => {
                    &&& old(self).agents().contains_key(addr)
                    &&& a@ == old(self).agents()[addr]
                    &&& final(self).agents() == old(self).agents().remove(addr)
                    &&& final(self).names() == old(self).names().remove(a.name@)
                },
                None => {
                    &&& !old(self).agents().contains_key(addr)
                    &&& final(self).agents() == old(self).agents()
                    &&& final(self).names() == old(self).names()
                },
            },
    ;

    /// The addresses of all agents, each once, in any order.
    fn addrs(&self) -> (r: Vec<IPv8Address>)
        requires
            self.wf(),
        ensures
            r@.no_duplicates(),
            forall|a: IPv8Address| #[trigger] r@.contains(a) <==> self.agents().contains_key(a),
            self.agents().dom().finite(),
            r@.len() == self.agents().len(),
    ;
}

/// A map from texts to addresses.
pub struct NameTable {
    entries: Vec<(String, IPv8Address)>,
}

/// The entries of a name table, with their texts.
pub open spec fn named(s: Seq<(String, IPv8Address)>) -> Seq<(Seq<char>, IPv8Address)> {
    Seq::new(s.len(), |i: int| (s[i].0@, s[i].1))
}

impl View for NameTable {
    type V = Map<Seq<char>, IPv8Address>;

    closed spec fn view(&self) -> Map<Seq<char>, IPv8Address> {
        table::as_map(named(self.entries@))
    }
}

impl NameTable {
    /// Whether no name occurs twice.
    pub closed spec fn wf(&self) -> bool {
        table::distinct(named(self.entries@))
    }

    /// A map without names.
    pub fn new() -> (t: Self)
        ensures
            t.wf(),
            t@ == Map::<Seq<char>, IPv8Address>::empty(),
    {
        let t = NameTable { entries: Vec::new() };
        proof {
            table::same_entries(named(t.entries@), Map::<Seq<char>, IPv8Address>::empty());
        }
        t
    }

    /// Where a name stands.
    fn find(&self, name: &str) -> (r: Option<usize>)
        requires
            self.wf(),
        ensures
            match r {
                Some(i) => i < self.entries@.len() && self.entries@[i as int].0@ == name@ && self@.contains_key(name@)
                    && self@[name@] == self.entries@[i as int].1,
                None => !self@.contains_key(name@),
            },
    {
        let ghost v = named(self.entries@);
        let mut i: usize = 0;
        while i < self.entries.len()
            invariant
                i <= self.entries.len(),
                v == named(self.entries@),
                table::distinct(v),
                forall|j: int| 0 <= j < i ==> (#[trigger] v[j]).0 != name@,
            decreases self.entries.len() - i,
        {
            if text::same_text(self.entries[i].0.as_str(), name) {
                proof {
                    assert(v[i as int].0 == name@);
                    table::entry_in_map(v, i as int);
                }
                return Some(i);
            }
            assert(v[i as int].0 != name@);
            i = i + 1;
        }
        None
    }

    /// The address that has a name.
    pub fn get(&self, name: &str) -> (r: Option<IPv8Address>)
        requires
            self.wf(),
        ensures
            r == if self@.contains_key(name@) {
                Some(self@[name@])
            } else {
                None
            },
    {
        match self.find(name) {
            Some(i) => Some(self.entries[i].1),
            None => None,
        }
    }

    /// Gives a name to an address.
    pub fn insert(&mut self, name: String, addr: IPv8Address)
        requires
            old(self).wf(),
        ensures
            final(self).wf(),
            final(self)@ == old(self)@.insert(name@, addr),
    {
        let ghost n = name@;
        let ghost m = self@.insert(n, addr);
        let ghost v0 = named(self.entries@);
        match self.find(name.as_str()) {
            Some(i) => {
                self.entries[i] = (name, addr);
                proof {
                    let v = named(self.entries@);
                    assert(v =~= v0.update(i as int, (n, addr)));
                    assert forall|k: int| 0 <= k < v.len() implies m.contains_key((#[trigger] v[k]).0) && m[v[k].0]
                        == v[k].1 by {
                        if k != i {
                            table::entry_in_map(v0, k);
                            if k < i {
                                assert(v0[k].0 != v0[i as int].0);
                            } else {
                                assert(v0[i as int].0 != v0[k].0);
                            }
                        }
                    }
                    assert forall|k: Seq<char>| #[trigger] m.contains_key(k) implies table::has(v, k) by {
                        if k == n {
                            assert(v[i as int].0 == n);
                        } else {
                            let j = choose|j: int| 0 <= j < v0.len() && (#[trigger] v0[j]).0 == k;
                            assert(v[j].0 == k);
                        }
                    }
                    assert(table::distinct(v)) by {
                        assert forall|a: int, b: int| 0 <= a < b < v.len() implies (#[trigger] v[a]).0 != (#[trigger] v[b]).0 by {
                            assert(v0[a].0 != v0[b].0);
                        }
                    }
                    table::same_entries(v, m);
                }
            },
            None => {
                self.entries.push((name, addr));
                proof {
                    let v = named(self.entries@);
                    let last = v0.len() as int;
                    assert(v =~= v0.push((n, addr)));
                    assert forall|k: int| 0 <= k < v.len() implies m.contains_key((#[trigger] v[k]).0) && m[v[k].0]
                        == v[k].1 by {
                        if k < last {
                            table::entry_in_map(v0, k);
                            assert(v0[k].0 != n);
                        }
                    }
                    assert forall|k: Seq<char>| #[trigger] m.contains_key(k) implies table::has(v, k) by {
                        if k == n {
                            assert(v[last].0 == n);
                        } else {
                            let j = choose|j: int| 0 <= j < v0.len() && (#[trigger] v0[j]).0 == k;
                            assert(v[j].0 == k);
                        }
                    }
                    assert(table::distinct(v)) by {
                        assert forall|a: int, b: int| 0 <= a < b < v.len() implies (#[trigger] v[a]).0 != (#[trigger] v[b]).0 by {
                            if b == last {
                                table::entry_in_map(v0, a);
                            } else {
                                assert(v0[a].0 != v0[b].0);
                            }
                        }
                    }
                    table::same_entries(v, m);
                }
            },
        }
    }

    /// Takes out a name.
    pub fn remove(&mut self, name: &str)
        requires
            old(self).wf(),
        ensures
            final(self).wf(),
            final(self)@ == old(self)@.remove(name@),
    {
        let ghost m = self@.remove(name@);
        let ghost v0 = named(self.entries@);
        match self.find(name) {
            Some(i) => {
                let _ = self.entries.remove(i);
                proof {
                    let v = named(self.entries@);
                    let at = i as int;
                    assert(v =~= v0.remove(at));
                    assert forall|k: int| 0 <= k < v.len() implies m.contains_key((#[trigger] v[k]).0) && m[v[k].0]
                        == v[k].1 by {
                        let o = if k < at {
                            k
                        } else {
                            k + 1
                        };
                        assert(v[k] == v0[o]);
                        table::entry_in_map(v0, o);
                        if o < at {
                            assert(v0[o].0 != v0[at].0);
                        } else {
                            assert(v0[at].0 != v0[o].0);
                        }
                    }
                    assert forall|k: Seq<char>| #[trigger] m.contains_key(k) implies table::has(v, k) by {
                        let j = choose|j: int| 0 <= j < v0.len() && (#[trigger] v0[j]).0 == k;
                        if j < at {
                            assert(v[j].0 == k);
                        } else {
                            assert(v[j - 1].0 == k);
                        }
                    }
                    assert(table::distinct(v)) by {
                        assert forall|a: int, b: int| 0 <= a < b < v.len() implies (#[trigger] v[a]).0 != (#[trigger] v[b]).0 by {
                            let oa = if a < at {
                                a
                            } else {
                                a + 1
                            };
                            let ob = if b < at {
                                b
                            } else {
                                b + 1
                            };
                            assert(v0[oa].0 != v0[ob].0);
                        }
                    }
                    table::same_entries(v, m);
                }
            },
            None => {
                assert(m =~= self@);
            },
        }
    }
}

/// A store in memory.
pub struct MemStore {
    by_addr: Table<IPv8Address, StoredAgent>,
    by_name: NameTable,
}

/// The values of a map of agents.
pub open spec fn views(m: Map<IPv8Address, StoredAgent>) -> Map<IPv8Address, AgentView> {
    m.map_values(|a: StoredAgent| a@)
}

impl Default for MemStore {
    fn default() -> (s: Self)
        ensures
            s.wf(),
            s.agents() == Map::<IPv8Address, AgentView>::empty(),
            s.names() == Map::<Seq<char>, IPv8Address>::empty(),
    {
        let s = MemStore { by_addr: Table::new(), by_name: NameTable::new() };
        assert(s.agents() =~= Map::<IPv8Address, AgentView>::empty());
        s
    }
}

impl Store for MemStore {
    closed spec fn wf(&self) -> bool {
        self.by_addr.wf() && self.by_name.wf()
    }

    closed spec fn agents(&self) -> Map<IPv8Address, AgentView> {
        views(self.by_addr@)
    }

    closed spec fn names(&self) -> Map<Seq<char>, IPv8Address> {
        self.by_name@
    }

    fn put(&mut self, addr: IPv8Address, agent: StoredAgent) {
        let ghost v = agent@;
        self.by_name.insert(agent.name.clone(), addr);
        self.by_addr.insert(addr, agent);
        assert(self.agents() =~= old(self).agents().insert(addr, v));
    }

    fn get(&self, addr: IPv8Address) -> (r: Option<&StoredAgent>) {
        self.by_addr.get(&addr)
    }

    fn set_lease(&mut self, addr: IPv8Address, lease: Option<(u64, u64)>) -> (r: bool) {
        match self.by_addr.remove(&addr) {
            Some(a) => {
                let b = StoredAgent { ed_pub: a.ed_pub, name: a.name, card: a.card, summary: a.summary, lease };
                let ghost v = b@;
                self.by_addr.insert(addr, b);
                assert(self.agents() =~= old(self).agents().insert(addr, v));
                true
            },
            None => {
                assert(self.agents() =~= old(self).agents());
                false
            },
        }
    }

    fn addr_of_name(&self, name: &str) -> (r: Option<IPv8Address>) {
        self.by_name.get(name)
    }

    fn remove(&mut self, addr: IPv8Address) -> (r: Option<StoredAgent>) {
        match self.by_addr.remove(&addr) {
            Some(a) => {
                self.by_name.remove(a.name.as_str());
                assert(self.agents() =~= old(self).agents().remove(addr));
                Some(a)
            },
            None => {
                assert(self.agents() =~= old(self).agents());
                None
            },
        }
    }

    fn addrs(&self) -> (r: Vec<IPv8Address>) {
        let mut r: Vec<IPv8Address> = Vec::new();
        let n: usize = self.by_addr.len();
        let ghost l = self.by_addr.list();
        proof {
            self.by_addr.list_is_map();
            assert(self.agents().dom() =~= self.by_addr@.dom());
        }
        let mut i: usize = 0;
        while i < n
            invariant
                i <= n,
                self.by_addr.wf(),
                l == self.by_addr.list(),
                n == l.len(),
                r@.len() == i,
                forall|j: int| 0 <= j < i ==> #[trigger] r@[j] == l[j].0,
            decreases n - i,
        {
            r.push(self.by_addr.entry(i).0);
            i = i + 1;
        }
        proof {
            assert forall|a: IPv8Address| #[trigger] r@.contains(a) <==> self.agents().contains_key(a) by {
                if r@.contains(a) {
                    let j = choose|j: int| 0 <= j < r@.len() && r@[j] == a;
                    table::entry_in_map(l, j);
                }
                if self.by_addr@.contains_key(a) {
                    let j = choose|j: int| 0 <= j < l.len() && (#[trigger] l[j]).0 == a;
                    assert(r@[j] == a);
                }
            }
            assert forall|x: int, y: int| 0 <= x < r@.len() && 0 <= y < r@.len() && x != y implies r@[x] != r@[y] by {
                if x < y {
                    assert(l[x].0 != l[y].0);
                } else {
                    assert(l[y].0 != l[x].0);
                }
            }
        }
        r
    }
}

} // verus!
