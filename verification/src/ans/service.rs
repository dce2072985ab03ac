//! The agent name service.

use vstd::prelude::*;
use crate::ans::card;
use crate::ans::card::{AgentCard, AnsError, CARD_VERSION};
use crate::ans::search;
use crate::ans::search::ResolvedAgent;
use crate::ans::store;
use crate::ans::store::{MemStore, Store, StoredAgent};
use crate::cert;
use crate::codec::header;
use crate::codec::header::IPv8Address;
use crate::codec::layouts;
use crate::codec::layouts::AgentCardSummary;
use crate::crypto;
use crate::pop;
use crate::text;
use crate::wire;

verus! {

/// The longest lease, in seconds.
pub const MAX_LEASE_SECS: u64 = 3600;

/// What an agent registers.
#[derive(Debug, Clone)]
pub struct RegisterSpec<'a> {
    pub addr_text: &'a str,
    /// The certificate of the agent's key.
    pub cert_wire: &'a [u8],
    pub card: &'a AgentCard,
    /// The agent's signature of its card.
    pub card_sig: &'a [u8; 64],
    /// The agent's signature of [`card::ans_register_pop_message`].
    pub pop: &'a [u8],
}

/// What a task needs.
#[derive(Debug, Clone, PartialEq, Eq)]
pub struct TaskDescription {
    pub required_caps: Vec<String>,
    /// How many agents.
    pub min_count: usize,
    pub qos_level: u8,
    /// For how long, in milliseconds.
    pub timeout_ms: u64,
}

/// An agent's part of a task.
#[derive(Debug, Clone, Copy, PartialEq, Eq)]
pub struct Assignment {
    pub addr: IPv8Address,
    pub shard_id: usize,
    pub lease_expiry: u64,
}

/// Which agents do a task.
#[derive(Debug, Clone, PartialEq, Eq)]
pub struct Plan {
    pub plan_id: u64,
    pub assignments: Vec<Assignment>,
    pub created_at: u64,
}

/// The state of the service.
pub ghost struct AnsView {
    pub agents: Map<IPv8Address, store::AgentView>,
    pub names: Map<Seq<char>, IPv8Address>,
    pub anchor: Seq<u8>,
    pub root: Seq<char>,
    pub next_plan: u64,
}

/// Whether agents are kept under the addresses on their cards, and their names
/// lead to them.
pub open spec fn consistent(agents: Map<IPv8Address, store::AgentView>, names: Map<Seq<char>, IPv8Address>) -> bool {
    &&& search::at_home(agents)
    &&& forall|a: IPv8Address| #[trigger]
        agents.contains_key(a) ==> agents[a].name == agents[a].card.name && names.contains_key(agents[a].name)
            && names[agents[a].name] == a
}

/// Whether a name is one that the service with root `root` gives out.
pub open spec fn good_name(name: Seq<char>, root: Seq<char>) -> bool {
    &&& 0 < name.len()
    &&& pop::utf8(name).len() <= 255
    &&& root.len() == 0 || text::ends_with(name, root)
    &&& name != root
}

/// Whether a registration is in order, and for which address, given whether
/// the certificate binds the address to a key, and whether the card and the
/// proof are signed with it.
pub open spec fn vetted(
    root: Seq<char>,
    addr: Seq<char>,
    c: card::CardView,
    bound: bool,
    signed: bool,
    held: bool,
    now: u64,
) -> Result<IPv8Address, AnsError> {
    match header::address_of_text(addr) {
        Err(_) => Err(AnsError::BadAddress),
        Ok(a) => if !good_name(c.name, root) {
            Err(AnsError::BadName)
        } else if c.version != CARD_VERSION || c.addr != a || c.not_after <= now {
            Err(AnsError::BadCard)
        } else if !card::valid_tags(c.capabilities) {
            Err(AnsError::BadTags)
        } else if !card::card_ok(c) {
            Err(AnsError::BadCard)
        } else if !bound {
            Err(AnsError::BadCert)
        } else if !signed {
            Err(AnsError::BadCard)
        } else if !held {
            Err(AnsError::BadProof)
        } else {
            Ok(a)
        },
    }
}

/// Whether a name is taken by another agent whose card holds.
pub open spec fn taken(v: AnsView, name: Seq<char>, addr: IPv8Address, now: u64) -> bool {
    &&& v.names.contains_key(name)
    &&& v.names[name] != addr
    &&& v.agents.contains_key(v.names[name])
    &&& !v.agents[v.names[name]].expired(now)
}

/// The state without the agent at an address.
pub open spec fn dropped(v: AnsView, addr: IPv8Address) -> AnsView {
    if v.agents.contains_key(addr) {
        AnsView { agents: v.agents.remove(addr), names: v.names.remove(v.agents[addr].name), ..v }
    } else {
        v
    }
}

/// The state without the agent that had a name before, unless it is the one at
/// `addr`.
pub open spec fn cleared(v: AnsView, name: Seq<char>, addr: IPv8Address) -> AnsView {
    if v.names.contains_key(name) && v.names[name] != addr {
        dropped(v, v.names[name])
    } else {
        v
    }
}

/// Why an agent is not let in.
pub open spec fn conflict(v: AnsView, name: Seq<char>, addr: IPv8Address, key: Seq<u8>, now: u64) -> Option<AnsError> {
    let w = cleared(v, name, addr);
    if taken(v, name, addr, now) {
        Some(AnsError::NameConflict)
    } else if w.agents.contains_key(addr) && w.agents[addr].ed_pub != key {
        Some(AnsError::KeyConflict)
    } else {
        None
    }
}

/// The state after an agent was let in. An agent that was there keeps its
/// lease.
pub open spec fn enrolled(
    v: AnsView,
    addr: IPv8Address,
    key: Seq<u8>,
    c: card::CardView,
    summary: AgentCardSummary,
) -> AnsView {
    let w = cleared(v, c.name, addr);
    AnsView {
        agents: w.agents.insert(
            addr,
            store::AgentView {
                ed_pub: key,
                name: c.name,
                card: c,
                summary,
                lease: if w.agents.contains_key(addr) {
                    w.agents[addr].lease
                } else {
                    None
                },
            },
        ),
        names: w.names.insert(c.name, addr),
        ..w
    }
}

/// The state after an attempt to let an agent in.
pub open spec fn after_enrolment(
    v: AnsView,
    addr: IPv8Address,
    key: Seq<u8>,
    c: card::CardView,
    summary: AgentCardSummary,
    now: u64,
) -> AnsView {
    match conflict(v, c.name, addr, key, now) {
        Some(AnsError::NameConflict) => v,
        Some(_) => cleared(v, c.name, addr),
        None => enrolled(v, addr, key, c, summary),
    }
}

/// For how many seconds agents are leased that are asked for `ms`
/// milliseconds.
pub open spec fn lease_secs(ms: u64) -> u64 {
    let s = if ms + 999 > u64::MAX {
        u64::MAX / 1000
    } else {
        ((ms + 999) / 1000) as u64
    };
    if s < 1 {
        1
    } else if s > MAX_LEASE_SECS {
        MAX_LEASE_SECS
    } else {
        s
    }
}

/// The sum of two numbers, or the greatest number where it is beyond that.
pub open spec fn saturating(a: u64, b: u64) -> u64 {
    if a + b > u64::MAX {
        u64::MAX
    } else {
        (a + b) as u64
    }
}

/// The agents after the first `n` of an answer were leased.
pub open spec fn leased_out(
    agents: Map<IPv8Address, store::AgentView>,
    s: Seq<search::ResolvedView>,
    n: int,
    lease: (u64, u64),
) -> Map<IPv8Address, store::AgentView>
    decreases n,
{
    if n <= 0 {
        agents
    } else {
        let m = leased_out(agents, s, n - 1, lease);
        m.insert(s[n - 1].addr, store::AgentView { lease: Some(lease), ..m[s[n - 1].addr] })
    }
}

/// An agent after leases that are over were taken back.
pub open spec fn released(a: store::AgentView, now: u64) -> store::AgentView {
    if lease_over(a, now) {
        store::AgentView { lease: None, ..a }
    } else {
        a
    }
}

/// Whether an agent is leased to a plan.
pub open spec fn leased_to(a: store::AgentView, plan_id: u64) -> bool {
    a.lease matches Some((p, _)) && p == plan_id
}

/// Whether an agent has a lease that is over.
pub open spec fn lease_over(a: store::AgentView, now: u64) -> bool {
    a.lease matches Some((_, end)) && end <= now
}

/// The agents whose cards hold, without the leases that are over.
pub open spec fn reaped(agents: Map<IPv8Address, store::AgentView>, now: u64) -> Map<IPv8Address, store::AgentView> {
    Map::new(
        |a: IPv8Address| agents.contains_key(a) && !agents[a].expired(now),
        |a: IPv8Address| released(agents[a], now),
    )
}

/// The names that are not those of agents whose cards have expired.
pub open spec fn kept_names(
    agents: Map<IPv8Address, store::AgentView>,
    names: Map<Seq<char>, IPv8Address>,
    now: u64,
) -> Map<Seq<char>, IPv8Address> {
    names.restrict(
        Set::new(
            |n: Seq<char>|
                names.contains_key(n) && !exists|a: IPv8Address| #[trigger]
                    agents.contains_key(a) && agents[a].expired(now) && agents[a].name == n,
        ),
    )
}

/// The addresses of agents with a lease that is over.
pub open spec fn overdue(agents: Map<IPv8Address, store::AgentView>, now: u64) -> Set<IPv8Address> {
    Set::new(|a: IPv8Address| agents.contains_key(a) && lease_over(agents[a], now))
}

/// The addresses of agents whose cards have expired.
pub open spec fn outdated(agents: Map<IPv8Address, store::AgentView>, now: u64) -> Set<IPv8Address> {
    Set::new(|a: IPv8Address| agents.contains_key(a) && agents[a].expired(now))
}

/// Checks a name.
pub fn check_name(name: &str, root: &str) -> (r: Result<(), AnsError>)
    ensures
        r == if good_name(name@, root@) {
            Ok::<(), AnsError>(())
        } else {
            Err(AnsError::BadName)
        },
{
    if name.is_empty() || name.as_bytes().len() > 255 {
        return Err(AnsError::BadName);
    }
    if !root.is_empty() && !text::has_end(name, root) {
        return Err(AnsError::BadName);
    }
    if text::same_text(name, root) {
        return Err(AnsError::BadName);
    }
    Ok(())
}

/// Whether a registration is in order, given whether the certificate binds the
/// address to a key, and whether the card and the proof are signed with it.
pub fn vet(
    root: &str,
    addr_text: &str,
    c: &AgentCard,
    bound: bool,
    signed: bool,
    held: bool,
    now: u64,
) -> (r: Result<IPv8Address, AnsError>)
    ensures
        r == vetted(root@, addr_text@, c@, bound, signed, held, now),
{
    let addr = match IPv8Address::from_canonical_str(addr_text) {
        Ok(a) => a,
        Err(_) => {
            return Err(AnsError::BadAddress);
        },
    };
    match check_name(c.name.as_str(), root) {
        Ok(_) => {},
        Err(e) => {
            return Err(e);
        },
    }
    if c.version != CARD_VERSION || !header::same_address(&c.addr, &addr) || c.not_after <= now {
        return Err(AnsError::BadCard);
    }
    match card::validate_tags(c.capabilities.as_slice()) {
        Ok(_) => {},
        Err(e) => {
            return Err(e);
        },
    }
    match c.canonical_bytes() {
        Ok(_) => {},
        Err(e) => {
            return Err(e);
        },
    }
    if !bound {
        return Err(AnsError::BadCert);
    }
    if !signed {
        return Err(AnsError::BadCard);
    }
    if !held {
        return Err(AnsError::BadProof);
    }
    Ok(addr)
}

/// The key that a certificate on the wire names.
pub open spec fn cert_key(b: Seq<u8>) -> Seq<u8> {
    b.subrange(16, 48)
}

/// Whether a certificate binds the address that a text names to its key.
pub open spec fn cert_binds(anchor: Seq<u8>, b: Seq<u8>, addr: Seq<char>, now: u64) -> bool {
    header::address_of_text(addr) matches Ok(a) && cert::binds(anchor, b, a, cert_key(b), now)
}

/// Whether a card is signed with a key.
pub open spec fn card_signed(c: card::CardView, key: Seq<u8>, sig: Seq<u8>) -> bool {
    crypto::signature_holds(key, layouts::card_message(c.version, card::hash_of(c), c.not_after, key), sig)
}

/// Whether a proof for a name is signed with a key.
pub open spec fn name_held(c: card::CardView, addr: Seq<char>, key: Seq<u8>, sig: Seq<u8>) -> bool {
    sig.len() == 64 && crypto::signature_holds(key, card::register_message(c.name, addr, card::hash_of(c)), sig)
}

/// The agent name service.
pub struct AnsService<S: Store> {
    store: S,
    anchor_pub: [u8; 32],
    namespace_root: String,
    next_plan_id: u64,
}

impl<S: Store> View for AnsService<S> {
    type V = AnsView;

    closed spec fn view(&self) -> AnsView {
        AnsView {
            agents: self.store.agents(),
            names: self.store.names(),
            anchor: self.anchor_pub@,
            root: self.namespace_root@,
            next_plan: self.next_plan_id,
        }
    }
}

impl AnsService<MemStore> {
    /// A service that keeps its agents in memory.
    pub fn new(anchor_pub: [u8; 32], namespace_root: String) -> (s: Self)
        ensures
            s.wf(),
            s@ == (AnsView {
                agents: Map::empty(),
                names: Map::empty(),
                anchor: anchor_pub@,
                root: namespace_root@,
                next_plan: 1,
            }),
    {
        AnsService { store: MemStore::default(), anchor_pub, namespace_root, next_plan_id: 1 }
    }
}

/// What a registration gives and changes: it is vetted, and then it must not
/// conflict with another agent.
pub open spec fn registers(
    v: AnsView,
    addr: Seq<char>,
    cert: Seq<u8>,
    c: card::CardView,
    sig: [u8; 64],
    pop: Seq<u8>,
    now: u64,
    r: Result<[u8; 16], AnsError>,
    w: AnsView,
) -> bool {
    let key = cert_key(cert);
    let d = vetted(
        v.root,
        addr,
        c,
        cert_binds(v.anchor, cert, addr, now),
        card_signed(c, key, sig@),
        name_held(c, addr, key, pop),
        now,
    );
    let x = conflict(v, c.name, d->Ok_0, key, now);
    match r {
        Ok(h) => {
            &&& d is Ok && x is None
            &&& h@ == card::hash_of(c)
            &&& exists|s: AgentCardSummary| #[trigger]
                enrolled(v, d->Ok_0, key, c, s) == w && s.version
                    == c.version && s.card_hash@ == h@ && s.not_after == c.not_after
                    && s.agent_pubkey@ == key && s.card_sig == sig
        },
        Err(e) => if d is Ok {
            x == Some(e) && w == if e == AnsError::NameConflict {
                v
            } else {
                cleared(v, c.name, d->Ok_0)
            }
        } else {
            d == Err::<IPv8Address, AnsError>(e) && w == v
        },
    }
}

/// What planning a task gives and changes: the best agents that are free, as
/// many as are asked for, are leased.
pub open spec fn plans(
    v: AnsView,
    req: Seq<Seq<char>>,
    count: usize,
    qos: u8,
    timeout_ms: u64,
    now: u64,
    r: Result<Plan, AnsError>,
    w: AnsView,
) -> bool {
    let id = v.next_plan;
    let end = saturating(now, lease_secs(timeout_ms));
    match r {
        Ok(p) => {
            &&& card::valid_tags(req)
            &&& 0 < count
            &&& p.plan_id == id
            &&& p.created_at == now
            &&& p.assignments@.len() == count
            &&& exists|s: Seq<search::ResolvedView>|
                {
                    &&& #[trigger] search::is_answer(s, v.agents, req, qos, true, now)
                    &&& s.len() >= count
                    &&& forall|i: int|
                        0 <= i < count ==> #[trigger] p.assignments@[i] == (Assignment {
                            addr: s[i].addr,
                            shard_id: i as usize,
                            lease_expiry: end,
                        })
                    &&& w == (AnsView {
                        agents: leased_out(v.agents, s, count as int, (id, end)),
                        next_plan: (id + 1) as u64,
                        ..v
                    })
                }
        },
        Err(e) => w == v && match e {
            AnsError::BadTags => !card::valid_tags(req),
            AnsError::Insufficient { wanted, got } => {
                &&& card::valid_tags(req)
                &&& wanted == count
                &&& count == 0 ==> got == 0
                &&& count > 0 ==> exists|s: Seq<search::ResolvedView>| #[trigger]
                    search::is_answer(s, v.agents, req, qos, true, now) && s.len() == got
                        && got < count
            },
            _ => false,
        },
    }
}

impl<S: Store> AnsService<S> {
    /// Whether the state is in order, as every function here leaves it.
    pub closed spec fn wf(&self) -> bool {
        self.store.wf() && consistent(self.store.agents(), self.store.names())
    }

    /// The names and the agents agree.
    pub proof fn agrees(&self)
        requires
            self.wf(),
        ensures
            consistent(self@.agents, self@.names),
    {
    }

    /// A service that keeps its agents in a given store.
    pub fn with_store(store: S, anchor_pub: [u8; 32], namespace_root: String) -> (s: Self)
        requires
            store.wf(),
            consistent(store.agents(), store.names()),
        ensures
            s.wf(),
            s@ == (AnsView {
                agents: store.agents(),
                names: store.names(),
                anchor: anchor_pub@,
                root: namespace_root@,
                next_plan: 1,
            }),
    {
        AnsService { store, anchor_pub, namespace_root, next_plan_id: 1 }
    }

    /// Lets an agent in, unless its name or its address is another's. A name
    /// that an agent with an expired card had is free.
    pub fn enrol(&mut self, addr: IPv8Address, key: [u8; 32], c: &AgentCard, summary: AgentCardSummary, now: u64) -> (r: Result<
        (),
        AnsError,
    >)
        requires
            old(self).wf(),
            addr.wf(),
            c.addr == addr,
        ensures
            final(self).wf(),
            r == match conflict(old(self)@, c@.name, addr, key@, now) {
                Some(e) => Err(e),
                None => Ok::<(), AnsError>(()),
            },
            final(self)@ == after_enrolment(old(self)@, addr, key@, c@, summary, now),
    {
        let ghost v = self@;
        match self.store.addr_of_name(c.name.as_str()) {
            Some(other) => {
                if !header::same_address(&other, &addr) {
                    let live: bool = match self.store.get(other) {
                        Some(a) => !a.is_expired(now),
                        None => false,
                    };
                    if live {
                        return Err(AnsError::NameConflict);
                    }
                    let _ = self.store.remove(other);
                }
            },
            None => {},
        }
        let ghost w = self@;
        proof {
            assert(w == cleared(v, c@.name, addr));
            cleared_is_consistent(v, c@.name, addr);
        }
        let lease: Option<(u64, u64)> = match self.store.get(addr) {
            Some(a) => {
                if !wire::same_bytes(a.ed_pub.as_slice(), key.as_slice()) {
                    return Err(AnsError::KeyConflict);
                }
                a.lease
            },
            None => None,
        };
        let agent = StoredAgent { ed_pub: key, name: c.name.clone(), card: c.copy(), summary, lease };
        self.store.put(addr, agent);
        proof {
            enrolled_is_consistent(v, addr, key@, c@, summary);
            assert(self@ == enrolled(v, addr, key@, c@, summary));
        }
        Ok(())
    }

    /// Registers an agent, or a new card of one: the certificate must bind its
    /// address to its key, and it must have signed its card and the proof for
    /// its name. Gives the hash of the card.
    pub fn register(&mut self, spec: &RegisterSpec<'_>, now: u64) -> (r: Result<[u8; 16], AnsError>)
        requires
            old(self).wf(),
        ensures
            final(self).wf(),
            registers(
                old(self)@,
                spec.addr_text@,
                spec.cert_wire@,
                spec.card@,
                *spec.card_sig,
                spec.pop@,
                now,
                r,
                final(self)@,
            ),
    {
        let (bound, signed, held): (bool, bool, bool) = self.check_signatures(spec, now);
        let addr = match vet(self.namespace_root.as_str(), spec.addr_text, spec.card, bound, signed, held, now) {
            Ok(a) => a,
            Err(e) => {
                return Err(e);
            },
        };
        let key = wire::array32(vstd::slice::slice_subrange(spec.cert_wire, 16, 48));
        assert(key@ =~= cert_key(spec.cert_wire@));
        let summary = match spec.card.summary(key, *spec.card_sig) {
            Ok(s) => s,
            Err(e) => {
                return Err(e);
            },
        };
        match self.enrol(addr, key, spec.card, summary, now) {
            Ok(_) => {},
            Err(e) => {
                return Err(e);
            },
        }
        assert(enrolled(old(self)@, addr, cert_key(spec.cert_wire@), spec.card@, summary) == self@);
        Ok(summary.card_hash)
    }

    /// Whether the certificate of a registration binds its address to a key,
    /// and whether the card and the proof are signed with it.
    fn check_signatures(&self, spec: &RegisterSpec<'_>, now: u64) -> (r: (bool, bool, bool))
        ensures
            r.0 == cert_binds(self@.anchor, spec.cert_wire@, spec.addr_text@, now),
            r.0 ==> spec.cert_wire.len() == cert::CERT_BODY_LEN,
            r.0 && card::card_ok(spec.card@) ==> r.1 == card_signed(
                spec.card@,
                cert_key(spec.cert_wire@),
                spec.card_sig@,
            ) && r.2 == name_held(spec.card@, spec.addr_text@, cert_key(spec.cert_wire@), spec.pop@),
    {
        let addr = match IPv8Address::from_canonical_str(spec.addr_text) {
            Ok(a) => a,
            Err(_) => {
                return (false, false, false);
            },
        };
        let key = match cert::cert_pubkey_from_wire(spec.cert_wire) {
            Some(k) => k,
            None => {
                return (false, false, false);
            },
        };
        if !cert::cert_binding_ok(&self.anchor_pub, spec.cert_wire, &addr, &key, now) {
            return (false, false, false);
        }
        let hash = match spec.card.card_hash() {
            Ok(h) => h,
            Err(_) => {
                return (true, false, false);
            },
        };
        let m = layouts::agent_card_message(spec.card.version, &hash, spec.card.not_after, &key);
        let signed = crypto::verify(&key, m.as_slice(), spec.card_sig);
        let held = if spec.pop.len() != 64 {
            false
        } else {
            let p = wire::array64(spec.pop);
            assert(p@ =~= spec.pop@);
            let n = card::ans_register_pop_message(spec.card.name.as_str(), spec.addr_text, &hash);
            crypto::verify(&key, n.as_slice(), &p)
        };
        (true, signed, held)
    }

    /// The agent with a name. A name that nobody has and one whose agent's
    /// card has expired get the same answer.
    pub fn resolve_name(&self, name: &str, now: u64) -> (r: Result<ResolvedAgent, AnsError>)
        requires
            self.wf(),
        ensures
            match r {
                Ok(x) => {
                    let a = self@.names[name@];
                    self@.names.contains_key(name@) && self@.agents.contains_key(a) && !self@.agents[a].expired(now) && x@
                        == search::told(self@.agents[a])
                },
                Err(e) => {
                    let a = self@.names[name@];
                    e == AnsError::NotFound && (!self@.names.contains_key(name@) || !self@.agents.contains_key(a)
                        || self@.agents[a].expired(now))
                },
            },
            r matches Ok(x) ==> {
                let c = self@.agents[self@.names[name@]].card;
                &&& x.name@ == c.name
                &&& x.addr == c.addr
                &&& x.tunnel_entry@ == c.tunnel_entry
                &&& text::texts(x.capabilities@) == c.capabilities
                &&& text::texts(x.endpoints@) == c.endpoints
                &&& x.qos_hint == c.qos_hint
                &&& x.not_after == c.not_after
                &&& now < x.not_after
            },
    {
        match self.store.addr_of_name(name) {
            Some(a) => self.resolve_addr(a, now),
            None => Err(AnsError::NotFound),
        }
    }

    /// The agent at an address.
    pub fn resolve_addr(&self, addr: IPv8Address, now: u64) -> (r: Result<ResolvedAgent, AnsError>)
        requires
            self.wf(),
        ensures
            match r {
                Ok(x) => self@.agents.contains_key(addr) && !self@.agents[addr].expired(now) && x@ == search::told(
                    self@.agents[addr],
                ),
                Err(e) => e == AnsError::NotFound && (!self@.agents.contains_key(addr) || self@.agents[addr].expired(now)),
            },
            r matches Ok(x) ==> {
                let c = self@.agents[addr].card;
                &&& x.name@ == c.name
                &&& x.addr == c.addr && x.addr == addr
                &&& x.tunnel_entry@ == c.tunnel_entry
                &&& text::texts(x.capabilities@) == c.capabilities
                &&& text::texts(x.endpoints@) == c.endpoints
                &&& x.qos_hint == c.qos_hint
                &&& x.not_after == c.not_after
                &&& now < x.not_after
            },
    {
        match self.store.get(addr) {
            Some(a) => if a.is_expired(now) {
                Err(AnsError::NotFound)
            } else {
                Ok(search::to_resolved(a))
            },
            None => Err(AnsError::NotFound),
        }
    }

    /// The agents that can do what is asked for, best first.
    pub fn search_capability(&self, required_caps: &[String], min_qos: u8, exclude_leased: bool, now: u64) -> (r: Vec<
        ResolvedAgent,
    >)
        requires
            self.wf(),
        ensures
            search::is_answer(
                search::told_all(r@),
                self@.agents,
                text::texts(required_caps@),
                min_qos,
                exclude_leased,
                now,
            ),
    {
        search::search(&self.store, required_caps, min_qos, exclude_leased, now)
    }

    /// Plans a task: takes the best agents that are free, and leases them.
    pub fn plan_task(&mut self, task: &TaskDescription, now: u64) -> (r: Result<Plan, AnsError>)
        requires
            old(self).wf(),
            old(self)@.next_plan < u64::MAX,
        ensures
            final(self).wf(),
            plans(
                old(self)@,
                text::texts(task.required_caps@),
                task.min_count,
                task.qos_level,
                task.timeout_ms,
                now,
                r,
                final(self)@,
            ),
    {
        match card::validate_tags(task.required_caps.as_slice()) {
            Ok(_) => {},
            Err(e) => {
                return Err(e);
            },
        }
        if task.min_count == 0 {
            return Err(AnsError::Insufficient { wanted: 0, got: 0 });
        }
        let best = search::search(&self.store, task.required_caps.as_slice(), task.qos_level, true, now);
        let ghost s = search::told_all(best@);
        if best.len() < task.min_count {
            assert(search::is_answer(s, old(self)@.agents, text::texts(task.required_caps@), task.qos_level, true, now));
            return Err(AnsError::Insufficient { wanted: task.min_count, got: best.len() });
        }
        let secs: u64 = clamp_lease(task.timeout_ms);
        let end: u64 = now.saturating_add(secs);
        let plan_id: u64 = self.next_plan_id;
        self.next_plan_id = plan_id + 1;
        proof {
            assert forall|i: int| 0 <= i < best@.len() implies self@.agents.contains_key((#[trigger] best@[i]).addr) by {
                assert(s[i].addr == best@[i].addr);
            }
        }
        let assignments = self.lease_agents(&best, task.min_count, plan_id, end);
        proof {
            assert(search::is_answer(s, old(self)@.agents, text::texts(task.required_caps@), task.qos_level, true, now));
        }
        Ok(Plan { plan_id, assignments, created_at: now })
    }

    /// Leases the first `n` agents of an answer.
    fn lease_agents(&mut self, best: &Vec<ResolvedAgent>, n: usize, plan_id: u64, end: u64) -> (r: Vec<Assignment>)
        requires
            old(self).wf(),
            n <= best@.len(),
            forall|i: int| 0 <= i < best@.len() ==> old(self)@.agents.contains_key((#[trigger] best@[i]).addr),
        ensures
            final(self).wf(),
            final(self)@ == (AnsView {
                agents: leased_out(old(self)@.agents, search::told_all(best@), n as int, (plan_id, end)),
                ..old(self)@
            }),
            r@.len() == n,
            forall|i: int|
                0 <= i < n ==> #[trigger] r@[i] == (Assignment {
                    addr: best@[i].addr,
                    shard_id: i as usize,
                    lease_expiry: end,
                }),
    {
        let ghost v = self@;
        let ghost s = search::told_all(best@);
        let mut r: Vec<Assignment> = Vec::new();
        let mut i: usize = 0;
        while i < n
            invariant
                i <= n <= best@.len(),
                self.wf(),
                s == search::told_all(best@),
                self@ == (AnsView { agents: leased_out(v.agents, s, i as int, (plan_id, end)), ..v }),
                forall|j: int| 0 <= j < best@.len() ==> self@.agents.contains_key((#[trigger] best@[j]).addr),
                r@.len() == i,
                forall|j: int|
                    0 <= j < i ==> #[trigger] r@[j] == (Assignment {
                        addr: best@[j].addr,
                        shard_id: j as usize,
                        lease_expiry: end,
                    }),
            decreases n - i,
        {
            let addr = best[i].addr;
            assert(s[i as int].addr == addr);
            let _ = self.store.set_lease(addr, Some((plan_id, end)));
            r.push(Assignment { addr, shard_id: i, lease_expiry: end });
            i = i + 1;
        }
        r
    }

    /// Ends the lease of an agent to a plan.
    pub fn report_done(&mut self, plan_id: u64, addr: IPv8Address, now: u64) -> (r: Result<(), AnsError>)
        requires
            old(self).wf(),
        ensures
            final(self).wf(),
            ({
                let v = old(self)@;
                let ok = v.agents.contains_key(addr) && leased_to(v.agents[addr], plan_id);
                &&& r == if ok {
                    Ok::<(), AnsError>(())
                } else {
                    Err(AnsError::NotFound)
                }
                &&& final(self)@ == if ok {
                    AnsView {
                        agents: v.agents.insert(addr, store::AgentView { lease: None, ..v.agents[addr] }),
                        ..v
                    }
                } else {
                    v
                }
            }),
    {
        let ours: bool = match self.store.get(addr) {
            Some(a) => match a.lease {
                Some((p, _)) => p == plan_id,
                None => false,
            },
            None => false,
        };
        if !ours {
            return Err(AnsError::NotFound);
        }
        let _ = self.store.set_lease(addr, None);
        Ok(())
    }

    /// Takes back leases that are over, and takes out agents whose cards have
    /// expired; gives the numbers of both.
    pub fn reap(&mut self, now: u64) -> (r: (usize, usize))
        requires
            old(self).wf(),
        ensures
            final(self).wf(),
            final(self)@ == (AnsView {
                agents: reaped(old(self)@.agents, now),
                names: kept_names(old(self)@.agents, old(self)@.names, now),
                ..old(self)@
            }),
            overdue(old(self)@.agents, now).finite() && r.0 == overdue(old(self)@.agents, now).len(),
            outdated(old(self)@.agents, now).finite() && r.1 == outdated(old(self)@.agents, now).len(),
    {
        let addrs = self.store.addrs();
        self.reap_all(&addrs, now)
    }

    /// How many agents there are.
    pub fn len(&self) -> (n: usize)
        requires
            self.wf(),
        ensures
            n == self@.agents.len(),
    {
        self.store.addrs().len()
    }

    /// Whether there are none.
    pub fn is_empty(&self) -> (r: bool)
        requires
            self.wf(),
        ensures
            r == (self@.agents.len() == 0),
    {
        self.store.addrs().len() == 0
    }
}

/// For how many seconds agents are leased.
pub fn clamp_lease(ms: u64) -> (s: u64)
    ensures
        s == lease_secs(ms),
{
    let s: u64 = ms.saturating_add(999) / 1000;
    if s < 1 {
        1
    } else if s > MAX_LEASE_SECS {
        MAX_LEASE_SECS
    } else {
        s
    }
}

/// The state stays consistent where a name is made free.
proof fn cleared_is_consistent(v: AnsView, name: Seq<char>, addr: IPv8Address)
    requires
        consistent(v.agents, v.names),
    ensures
        consistent(cleared(v, name, addr).agents, cleared(v, name, addr).names),
        cleared(v, name, addr).names.contains_key(name) && cleared(v, name, addr).agents.contains_key(
            cleared(v, name, addr).names[name],
        ) ==> cleared(v, name, addr).names[name] == addr,
{
    let w = cleared(v, name, addr);
    if v.names.contains_key(name) && v.names[name] != addr && v.agents.contains_key(v.names[name]) {
        let o = v.names[name];
        assert forall|a: IPv8Address| #[trigger] w.agents.contains_key(a) implies a.wf() && w.agents[a].card.addr == a
            && w.agents[a].name == w.agents[a].card.name && w.names.contains_key(w.agents[a].name)
            && w.names[w.agents[a].name] == a by {
            assert(v.agents.contains_key(a));
            assert(v.agents.contains_key(o));
        }
    }
}

/// The state stays consistent where an agent is let in.
proof fn enrolled_is_consistent(v: AnsView, addr: IPv8Address, key: Seq<u8>, c: card::CardView, summary: AgentCardSummary)
    requires
        consistent(v.agents, v.names),
        addr.wf(),
        c.addr == addr,
    ensures
        consistent(enrolled(v, addr, key, c, summary).agents, enrolled(v, addr, key, c, summary).names),
{
    let w = cleared(v, c.name, addr);
    let e = enrolled(v, addr, key, c, summary);
    cleared_is_consistent(v, c.name, addr);
    assert forall|a: IPv8Address| #[trigger] e.agents.contains_key(a) implies a.wf() && e.agents[a].card.addr == a
        && e.agents[a].name == e.agents[a].card.name && e.names.contains_key(e.agents[a].name) && e.names[e.agents[a].name]
        == a by {
        if a != addr {
            assert(w.agents.contains_key(a));
            if w.agents[a].name == c.name {
                assert(w.names[c.name] == a);
                assert(w.names.contains_key(c.name));
            }
        }
    }
}

impl<S: Store> AnsService<S> {
    /// Reaps the agents at all addresses.
    fn reap_all(&mut self, addrs: &Vec<IPv8Address>, now: u64) -> (r: (usize, usize))
        requires
            old(self).wf(),
            addrs@.no_duplicates(),
            forall|a: IPv8Address| #[trigger] addrs@.contains(a) <==> old(self)@.agents.contains_key(a),
        ensures
            final(self).wf(),
            final(self)@ == (AnsView {
                agents: reaped(old(self)@.agents, now),
                names: kept_names(old(self)@.agents, old(self)@.names, now),
                ..old(self)@
            }),
            overdue(old(self)@.agents, now).finite() && r.0 == overdue(old(self)@.agents, now).len(),
            outdated(old(self)@.agents, now).finite() && r.1 == outdated(old(self)@.agents, now).len(),
    {
        let ghost v = self@;
        let mut over: usize = 0;
        let mut gone: usize = 0;
        let mut i: usize = 0;
        proof {
            assert(part_agents(v.agents, addrs@, 0, now) =~= v.agents);
            assert(part_names(v.agents, v.names, addrs@, 0, now) =~= v.names);
            assert(part_over(v.agents, addrs@, 0, now) =~= Set::empty());
            assert(part_gone(v.agents, addrs@, 0, now) =~= Set::empty());
        }
        while i < addrs.len()
            invariant
                i <= addrs.len(),
                self.wf(),
                consistent(v.agents, v.names),
                addrs@.no_duplicates(),
                forall|a: IPv8Address| #[trigger] addrs@.contains(a) <==> v.agents.contains_key(a),
                self@ == (AnsView {
                    agents: part_agents(v.agents, addrs@, i as int, now),
                    names: part_names(v.agents, v.names, addrs@, i as int, now),
                    ..v
                }),
                over <= i,
                gone <= i,
                part_over(v.agents, addrs@, i as int, now).finite(),
                over == part_over(v.agents, addrs@, i as int, now).len(),
                part_gone(v.agents, addrs@, i as int, now).finite(),
                gone == part_gone(v.agents, addrs@, i as int, now).len(),
            decreases addrs.len() - i,
        {
            let addr = addrs[i];
            let ghost before = self@;
            proof {
                assert(addrs@.contains(addr));
                part_step(v, addrs@, i as int, now);
                not_reached(addrs@, i as int);
            }
            let (late, dead): (bool, bool) = match self.store.get(addr) {
                Some(a) => (
                    match a.lease {
                        Some((_, end)) => end <= now,
                        None => false,
                    },
                    a.is_expired(now),
                ),
                None => (false, false),
            };
            if late {
                let _ = self.store.set_lease(addr, None);
                over = over + 1;
            }
            if dead {
                let _ = self.store.remove(addr);
                gone = gone + 1;
            }
            i = i + 1;
            proof {
                part_is_consistent(v, addrs@, i as int, now);
                assert(self@.agents =~= part_agents(v.agents, addrs@, i as int, now));
                assert(self@.names =~= part_names(v.agents, v.names, addrs@, i as int, now));
            }
        }
        proof {
            let n = addrs@.len() as int;
            assert forall|a: IPv8Address| #[trigger] v.agents.contains_key(a) implies done(addrs@, n, a) by {
                assert(addrs@.contains(a));
                let j = choose|j: int| 0 <= j < addrs@.len() && addrs@[j] == a;
                assert(addrs@[j] == a);
            }
            assert(part_agents(v.agents, addrs@, n, now) =~= reaped(v.agents, now));
            assert(part_over(v.agents, addrs@, n, now) =~= overdue(v.agents, now));
            assert(part_gone(v.agents, addrs@, n, now) =~= outdated(v.agents, now));
            assert(part_names(v.agents, v.names, addrs@, n, now) =~= kept_names(v.agents, v.names, now));
        }
        (over, gone)
    }
}

/// Whether an address is among the first `n`.
spec fn done(addrs: Seq<IPv8Address>, n: int, a: IPv8Address) -> bool {
    exists|j: int| 0 <= j < n && #[trigger] addrs[j] == a
}

/// The agents after those at the first `n` addresses were reaped.
spec fn part_agents(
    agents: Map<IPv8Address, store::AgentView>,
    addrs: Seq<IPv8Address>,
    n: int,
    now: u64,
) -> Map<IPv8Address, store::AgentView> {
    Map::new(
        |a: IPv8Address| agents.contains_key(a) && !(done(addrs, n, a) && agents[a].expired(now)),
        |a: IPv8Address|
            if done(addrs, n, a) {
                released(agents[a], now)
            } else {
                agents[a]
            },
    )
}

/// Whether a name is that of an agent at one of the first `n` addresses whose
/// card has expired.
spec fn name_gone(
    agents: Map<IPv8Address, store::AgentView>,
    addrs: Seq<IPv8Address>,
    n: int,
    now: u64,
    name: Seq<char>,
) -> bool {
    exists|a: IPv8Address| #[trigger]
        agents.contains_key(a) && done(addrs, n, a) && agents[a].expired(now) && agents[a].name == name
}

/// The names after the agents at the first `n` addresses were reaped.
spec fn part_names(
    agents: Map<IPv8Address, store::AgentView>,
    names: Map<Seq<char>, IPv8Address>,
    addrs: Seq<IPv8Address>,
    n: int,
    now: u64,
) -> Map<Seq<char>, IPv8Address> {
    names.restrict(Set::new(|x: Seq<char>| names.contains_key(x) && !name_gone(agents, addrs, n, now, x)))
}

/// The first `n` addresses with a lease that is over.
spec fn part_over(
    agents: Map<IPv8Address, store::AgentView>,
    addrs: Seq<IPv8Address>,
    n: int,
    now: u64,
) -> Set<IPv8Address> {
    Set::new(|a: IPv8Address| agents.contains_key(a) && done(addrs, n, a) && lease_over(agents[a], now))
}

/// The first `n` addresses with a card that has expired.
spec fn part_gone(
    agents: Map<IPv8Address, store::AgentView>,
    addrs: Seq<IPv8Address>,
    n: int,
    now: u64,
) -> Set<IPv8Address> {
    Set::new(|a: IPv8Address| agents.contains_key(a) && done(addrs, n, a) && agents[a].expired(now))
}

/// An address that comes later has not come before.
proof fn not_reached(addrs: Seq<IPv8Address>, i: int)
    requires
        addrs.no_duplicates(),
        0 <= i < addrs.len(),
    ensures
        !done(addrs, i, addrs[i]),
        forall|a: IPv8Address| #[trigger] done(addrs, i + 1, a) <==> done(addrs, i, a) || a == addrs[i],
{
    if done(addrs, i, addrs[i]) {
        let j = choose|j: int| 0 <= j < i && #[trigger] addrs[j] == addrs[i];
        assert(addrs[j] == addrs[i]);
    }
    assert forall|a: IPv8Address| #[trigger] done(addrs, i + 1, a) <==> done(addrs, i, a) || a == addrs[i] by {
        if done(addrs, i + 1, a) {
            let j = choose|j: int| 0 <= j < i + 1 && #[trigger] addrs[j] == a;
            if j < i {
                assert(addrs[j] == a);
            }
        }
        if done(addrs, i, a) {
            let j = choose|j: int| 0 <= j < i && #[trigger] addrs[j] == a;
            assert(addrs[j] == a);
        }
        if a == addrs[i] {
            assert(addrs[i] == a);
        }
    }
}

/// One step of reaping.
proof fn part_step(v: AnsView, addrs: Seq<IPv8Address>, i: int, now: u64)
    requires
        consistent(v.agents, v.names),
        addrs.no_duplicates(),
        0 <= i < addrs.len(),
        v.agents.contains_key(addrs[i]),
    ensures
        ({
            let a = addrs[i];
            let x = v.agents[a];
            let m = part_agents(v.agents, addrs, i, now);
            &&& m.contains_key(a) && m[a] == x
            &&& part_agents(v.agents, addrs, i + 1, now) == if x.expired(now) {
                m.remove(a)
            } else {
                m.insert(a, released(x, now))
            }
            &&& part_names(v.agents, v.names, addrs, i + 1, now) == if x.expired(now) {
                part_names(v.agents, v.names, addrs, i, now).remove(x.name)
            } else {
                part_names(v.agents, v.names, addrs, i, now)
            }
            &&& part_over(v.agents, addrs, i + 1, now) == if lease_over(x, now) {
                part_over(v.agents, addrs, i, now).insert(a)
            } else {
                part_over(v.agents, addrs, i, now)
            }
            &&& !part_over(v.agents, addrs, i, now).contains(a)
            &&& part_gone(v.agents, addrs, i + 1, now) == if x.expired(now) {
                part_gone(v.agents, addrs, i, now).insert(a)
            } else {
                part_gone(v.agents, addrs, i, now)
            }
            &&& !part_gone(v.agents, addrs, i, now).contains(a)
        }),
{
    not_reached(addrs, i);
    let a = addrs[i];
    let x = v.agents[a];
    let m = part_agents(v.agents, addrs, i, now);
    if x.expired(now) {
        assert(part_agents(v.agents, addrs, i + 1, now) =~= m.remove(a));
    } else {
        assert(part_agents(v.agents, addrs, i + 1, now) =~= m.insert(a, released(x, now)));
    }
    if lease_over(x, now) {
        assert(part_over(v.agents, addrs, i + 1, now) =~= part_over(v.agents, addrs, i, now).insert(a));
    } else {
        assert(part_over(v.agents, addrs, i + 1, now) =~= part_over(v.agents, addrs, i, now));
    }
    if x.expired(now) {
        assert(part_gone(v.agents, addrs, i + 1, now) =~= part_gone(v.agents, addrs, i, now).insert(a));
    } else {
        assert(part_gone(v.agents, addrs, i + 1, now) =~= part_gone(v.agents, addrs, i, now));
    }
    names_step(v, addrs, i, now);
}

/// One step of reaping, for the names.
proof fn names_step(v: AnsView, addrs: Seq<IPv8Address>, i: int, now: u64)
    requires
        addrs.no_duplicates(),
        0 <= i < addrs.len(),
        v.agents.contains_key(addrs[i]),
    ensures
        part_names(v.agents, v.names, addrs, i + 1, now) == if v.agents[addrs[i]].expired(now) {
            part_names(v.agents, v.names, addrs, i, now).remove(v.agents[addrs[i]].name)
        } else {
            part_names(v.agents, v.names, addrs, i, now)
        },
{
    not_reached(addrs, i);
    let a = addrs[i];
    let x = v.agents[a];
    assert forall|n: Seq<char>|
        name_gone(v.agents, addrs, i + 1, now, n) <==> name_gone(v.agents, addrs, i, now, n) || (x.expired(now) && x.name
            == n) by {
        if name_gone(v.agents, addrs, i + 1, now, n) {
            let b = choose|b: IPv8Address| #[trigger]
                v.agents.contains_key(b) && done(addrs, i + 1, b) && v.agents[b].expired(now) && v.agents[b].name == n;
            if b != a {
                assert(done(addrs, i, b));
                assert(v.agents.contains_key(b));
            }
        }
        if name_gone(v.agents, addrs, i, now, n) {
            let b = choose|b: IPv8Address| #[trigger]
                v.agents.contains_key(b) && done(addrs, i, b) && v.agents[b].expired(now) && v.agents[b].name == n;
            assert(done(addrs, i + 1, b));
            assert(v.agents.contains_key(b));
        }
        if x.expired(now) && x.name == n {
            assert(done(addrs, i + 1, a));
            assert(v.agents.contains_key(a));
        }
    }
    let p = part_names(v.agents, v.names, addrs, i, now);
    let q = part_names(v.agents, v.names, addrs, i + 1, now);
    if x.expired(now) {
        assert(q =~= p.remove(x.name));
    } else {
        assert(q =~= p);
    }
}

/// The state stays consistent while agents are reaped.
proof fn part_is_consistent(v: AnsView, addrs: Seq<IPv8Address>, n: int, now: u64)
    requires
        consistent(v.agents, v.names),
    ensures
        consistent(part_agents(v.agents, addrs, n, now), part_names(v.agents, v.names, addrs, n, now)),
{
    let m = part_agents(v.agents, addrs, n, now);
    let names = part_names(v.agents, v.names, addrs, n, now);
    assert forall|a: IPv8Address| #[trigger] m.contains_key(a) implies a.wf() && m[a].card.addr == a && m[a].name
        == m[a].card.name && names.contains_key(m[a].name) && names[m[a].name] == a by {
        assert(v.agents.contains_key(a));
        if name_gone(v.agents, addrs, n, now, m[a].name) {
            let b = choose|b: IPv8Address| #[trigger]
                v.agents.contains_key(b) && done(addrs, n, b) && v.agents[b].expired(now) && v.agents[b].name == m[a].name;
            assert(v.agents.contains_key(b));
            assert(a == b);
        }
    }
}

} // verus!
