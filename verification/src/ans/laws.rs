//! What holds of the agent name service as a whole.

use vstd::prelude::*;
use crate::ans::card;
use crate::ans::search;
use crate::ans::service;
use crate::ans::service::{Plan, MAX_LEASE_SECS};
use crate::ans::store;
use crate::codec::formats;
use crate::codec::header;
use crate::codec::header::IPv8Address;
use crate::codec::layouts;
use crate::codec::layouts::AgentCardSummary;
use crate::crypto;
use crate::text;

verus! {

/// A lease lasts a second at least and an hour at most.
pub proof fn lease_is_bounded(ms: u64)
    ensures
        1 <= service::lease_secs(ms) <= MAX_LEASE_SECS,
{
}

/// Leasing changes the leases of the agents that are leased, and nothing else.
pub proof fn leasing_changes_leases_alone(
    agents: Map<IPv8Address, store::AgentView>,
    s: Seq<search::ResolvedView>,
    n: int,
    lease: (u64, u64),
)
    requires
        0 <= n <= s.len(),
        forall|i: int| 0 <= i < n ==> agents.contains_key((#[trigger] s[i]).addr),
    ensures
        ({
            let m = service::leased_out(agents, s, n, lease);
            &&& m.dom() == agents.dom()
            &&& forall|a: IPv8Address| #[trigger]
                agents.contains_key(a) ==> m[a] == if exists|i: int| 0 <= i < n && (#[trigger] s[i]).addr == a {
                    store::AgentView { lease: Some(lease), ..agents[a] }
                } else {
                    agents[a]
                }
        }),
    decreases n,
{
    if n > 0 {
        leasing_changes_leases_alone(agents, s, n - 1, lease);
        let m0 = service::leased_out(agents, s, n - 1, lease);
        let m = service::leased_out(agents, s, n, lease);
        assert(m.dom() =~= agents.dom());
        assert forall|a: IPv8Address| #[trigger] agents.contains_key(a) implies m[a] == if exists|i: int|
            0 <= i < n && (#[trigger] s[i]).addr == a {
            store::AgentView { lease: Some(lease), ..agents[a] }
        } else {
            agents[a]
        } by {
            if a == s[n - 1].addr {
                assert(s[n - 1].addr == a);
            } else if exists|i: int| 0 <= i < n && (#[trigger] s[i]).addr == a {
                let i = choose|i: int| 0 <= i < n && (#[trigger] s[i]).addr == a;
                assert(i < n - 1);
                assert(s[i].addr == a);
            }
            assert(m0[a] == m0[a]);
        }
    }
}

/// An agent that is leased to one task is given to no other until the lease is
/// over.
pub proof fn no_agent_is_leased_twice(
    agents: Map<IPv8Address, store::AgentView>,
    s: Seq<search::ResolvedView>,
    n: int,
    plan_id: u64,
    end: u64,
    i: int,
    t: Seq<search::ResolvedView>,
    required: Seq<Seq<char>>,
    min_qos: u8,
    later: u64,
    k: int,
)
    requires
        0 <= n <= s.len(),
        forall|j: int| 0 <= j < n ==> agents.contains_key((#[trigger] s[j]).addr),
        0 <= i < n,
        later < end,
        search::is_answer(t, service::leased_out(agents, s, n, (plan_id, end)), required, min_qos, true, later),
        0 <= k < t.len(),
    ensures
        t[k].addr != s[i].addr,
{
    leasing_changes_leases_alone(agents, s, n, (plan_id, end));
    let m = service::leased_out(agents, s, n, (plan_id, end));
    if t[k].addr == s[i].addr {
        assert(m.contains_key(t[k].addr));
        assert(agents.contains_key(s[i].addr));
        assert(m[s[i].addr].lease == Some((plan_id, end)));
    }
}

/// An agent that was let in is found under its name and its address, until its
/// card expires.
pub proof fn enrolled_agent_is_found(
    v: service::AnsView,
    addr: IPv8Address,
    key: Seq<u8>,
    c: card::CardView,
    summary: AgentCardSummary,
)
    ensures
        ({
            let w = service::enrolled(v, addr, key, c, summary);
            &&& w.names.contains_key(c.name) && w.names[c.name] == addr
            &&& w.agents.contains_key(addr) && w.agents[addr].card == c
            &&& forall|t: u64| #[trigger] w.agents[addr].expired(t) == (c.not_after <= t)
        }),
{
}

/// An agent that renews its card keeps its key and its lease.
pub proof fn renewal_keeps_key_and_lease(
    v: service::AnsView,
    addr: IPv8Address,
    key: Seq<u8>,
    c: card::CardView,
    summary: AgentCardSummary,
    now: u64,
)
    requires
        service::consistent(v.agents, v.names),
        v.agents.contains_key(addr),
        service::conflict(v, c.name, addr, key, now) is None,
    ensures
        key == v.agents[addr].ed_pub,
        service::enrolled(v, addr, key, c, summary).agents[addr].lease == v.agents[addr].lease,
{
}

/// A name whose agent's card holds is given to no other agent.
pub proof fn live_name_is_kept(
    v: service::AnsView,
    name: Seq<char>,
    holder: IPv8Address,
    addr: IPv8Address,
    key: Seq<u8>,
    now: u64,
)
    requires
        service::consistent(v.agents, v.names),
        v.agents.contains_key(holder),
        v.agents[holder].name == name,
        !v.agents[holder].expired(now),
        addr != holder,
    ensures
        service::conflict(v, name, addr, key, now) == Some(card::AnsError::NameConflict),
{
}

/// Reaping changes no answer to a search.
pub proof fn reaping_changes_no_answer(
    agents: Map<IPv8Address, store::AgentView>,
    s: Seq<search::ResolvedView>,
    required: Seq<Seq<char>>,
    min_qos: u8,
    exclude_leased: bool,
    now: u64,
)
    ensures
        search::is_answer(s, agents, required, min_qos, exclude_leased, now) == search::is_answer(
            s,
            service::reaped(agents, now),
            required,
            min_qos,
            exclude_leased,
            now,
        ),
{
    let m = service::reaped(agents, now);
    assert forall|a: IPv8Address| #[trigger] m.contains_key(a) implies agents.contains_key(a) && search::told(m[a])
        == search::told(agents[a]) && search::suits(m[a], required, min_qos, exclude_leased, now) == search::suits(
        agents[a],
        required,
        min_qos,
        exclude_leased,
        now,
    ) by {}
    assert forall|a: IPv8Address| #[trigger]
        agents.contains_key(a) && search::suits(agents[a], required, min_qos, exclude_leased, now) implies m.contains_key(
        a,
    ) by {}
    if search::is_answer(s, agents, required, min_qos, exclude_leased, now) {
        assert forall|a: IPv8Address| #[trigger]
            m.contains_key(a) && search::suits(m[a], required, min_qos, exclude_leased, now) implies s.contains(
            search::told(m[a]),
        ) by {
            assert(agents.contains_key(a));
        }
        assert forall|i: int| 0 <= i < s.len() implies m.contains_key((#[trigger] s[i]).addr) && s[i] == search::told(
            m[s[i].addr],
        ) && search::suits(m[s[i].addr], required, min_qos, exclude_leased, now) by {
            assert(agents.contains_key(s[i].addr));
            assert(m.contains_key(s[i].addr));
        }
    }
    if search::is_answer(s, m, required, min_qos, exclude_leased, now) {
        assert forall|a: IPv8Address| #[trigger]
            agents.contains_key(a) && search::suits(agents[a], required, min_qos, exclude_leased, now) implies s.contains(
            search::told(agents[a]),
        ) by {
            assert(m.contains_key(a));
        }
        assert forall|i: int| 0 <= i < s.len() implies agents.contains_key((#[trigger] s[i]).addr) && s[i]
            == search::told(agents[s[i].addr]) && search::suits(
            agents[s[i].addr],
            required,
            min_qos,
            exclude_leased,
            now,
        ) by {
            assert(m.contains_key(s[i].addr));
        }
    }
}

/// A lease that was reported done, or that is over, leaves the agent free.
pub proof fn released_agent_is_free(a: store::AgentView, now: u64)
    requires
        service::lease_over(a, now) || a.lease is None,
    ensures
        !service::released(a, now).leased(now),
        service::released(a, now).lease is None,
{
}

/// After a card was registered, its name leads to what the card says, field by
/// field, until the card expires; so does its address.
pub proof fn registered_card_is_told(
    v: service::AnsView,
    addr: Seq<char>,
    cert: Seq<u8>,
    c: card::CardView,
    sig: [u8; 64],
    pop: Seq<u8>,
    now: u64,
    h: [u8; 16],
    w: service::AnsView,
    t: u64,
)
    requires
        service::registers(v, addr, cert, c, sig, pop, now, Ok(h), w),
        t < c.not_after,
    ensures
        w.names.contains_key(c.name),
        w.names[c.name] == c.addr,
        w.agents.contains_key(c.addr),
        !w.agents[c.addr].expired(t),
        ({
            let r = search::told(w.agents[c.addr]);
            &&& r.name == c.name
            &&& r.addr == c.addr
            &&& r.tunnel_entry == c.tunnel_entry
            &&& r.capabilities == c.capabilities
            &&& r.endpoints == c.endpoints
            &&& r.qos_hint == c.qos_hint
            &&& r.not_after == c.not_after
            &&& r.summary.version == c.version
            &&& r.summary.card_hash == h
            &&& r.summary.not_after == c.not_after
            &&& r.summary.agent_pubkey@ == cert.subrange(16, 48)
            &&& r.summary.card_sig == sig
        }),
{
    let d = header::address_of_text(addr)->Ok_0;
    let key = service::cert_key(cert);
    let s = choose|s: AgentCardSummary| #[trigger]
        service::enrolled(v, d, key, c, s) == w && s.version == c.version && s.card_hash@ == h@ && s.not_after
            == c.not_after && s.agent_pubkey@ == key && s.card_sig == sig;
    assert(service::enrolled(v, d, key, c, s) == w);
    assert(s.card_hash =~= h);
}

/// What an agent says of itself is told as it says it, whatever it is.
pub proof fn agent_is_told_as_it_is(a: store::AgentView)
    ensures
        ({
            let r = search::told(a);
            &&& r.name == a.name
            &&& r.addr == a.card.addr
            &&& r.tunnel_entry == a.card.tunnel_entry
            &&& r.capabilities == a.card.capabilities
            &&& r.endpoints == a.card.endpoints
            &&& r.qos_hint == a.card.qos_hint
            &&& r.not_after == a.card.not_after
            &&& r.summary == a.summary
        }),
{
}

/// A registration leaves the other agents as they are, but for one whose name it
/// takes over.
pub proof fn registration_leaves_others(
    v: service::AnsView,
    addr: Seq<char>,
    cert: Seq<u8>,
    c: card::CardView,
    sig: [u8; 64],
    pop: Seq<u8>,
    now: u64,
    r: Result<[u8; 16], card::AnsError>,
    w: service::AnsView,
    other: IPv8Address,
)
    requires
        service::consistent(v.agents, v.names),
        service::registers(v, addr, cert, c, sig, pop, now, r, w),
        v.agents.contains_key(other),
        header::address_of_text(addr) is Err || header::address_of_text(addr)->Ok_0 != other,
    ensures
        v.names.contains_key(c.name) && v.names[c.name] == other && now >= v.agents[other].card.not_after
            || w.agents.contains_key(other) && w.agents[other] == v.agents[other],
        w.anchor == v.anchor,
        w.root == v.root,
        w.next_plan == v.next_plan,
{
}

/// What a card is to be for its agent to be let in: of the first version, for the
/// address that is registered, not expired, with a name under the root of the
/// service, and with a service class of 15 at most.
pub proof fn registered_card_is_good(
    root: Seq<char>,
    addr: Seq<char>,
    c: card::CardView,
    bound: bool,
    signed: bool,
    held: bool,
    now: u64,
)
    ensures
        service::vetted(root, addr, c, bound, signed, held, now) is Ok <==> {
            &&& header::address_of_text(addr) == Ok::<IPv8Address, header::AddrParseError>(c.addr)
            &&& c.version == 1
            &&& now < c.not_after
            &&& 0 < c.name.len()
            &&& vstd::utf8::encode_utf8(c.name).len() <= 255
            &&& c.name != root
            &&& root.len() <= c.name.len() && c.name.subrange(c.name.len() - root.len(), c.name.len() as int) == root
            &&& vstd::utf8::encode_utf8(c.tunnel_entry).len() <= 255
            &&& c.qos_hint <= 15
            &&& c.capabilities.len() <= 255 && forall|i: int|
                0 <= i < c.capabilities.len() ==> vstd::utf8::encode_utf8(#[trigger] c.capabilities[i]).len() <= 255
            &&& c.endpoints.len() <= 255 && forall|i: int|
                0 <= i < c.endpoints.len() ==> vstd::utf8::encode_utf8(#[trigger] c.endpoints[i]).len() <= 255
            &&& card::valid_tags(c.capabilities)
            &&& bound && signed && held
        },
        service::vetted(root, addr, c, bound, signed, held, now) is Ok ==> service::vetted(
            root,
            addr,
            c,
            bound,
            signed,
            held,
            now,
        )->Ok_0 == c.addr,
{
    if root.len() == 0 {
        assert(c.name.subrange(c.name.len() - root.len(), c.name.len() as int) =~= root);
    }
    assert forall|i: int| 0 <= i < c.capabilities.len() implies card::short(#[trigger] c.capabilities[i]) == (
    vstd::utf8::encode_utf8(c.capabilities[i]).len() <= 255) by {}
    assert forall|i: int| 0 <= i < c.endpoints.len() implies card::short(#[trigger] c.endpoints[i]) == (
    vstd::utf8::encode_utf8(c.endpoints[i]).len() <= 255) by {}
}

/// Which name is refused to an agent: one that another agent holds whose card has
/// not expired; and which agent: one that is known under another key.
pub proof fn conflicts_of_an_agent(v: service::AnsView, name: Seq<char>, addr: IPv8Address, key: Seq<u8>, now: u64)
    ensures
        service::conflict(v, name, addr, key, now) == Some(card::AnsError::NameConflict) <==> {
            &&& v.names.contains_key(name)
            &&& v.names[name] != addr
            &&& v.agents.contains_key(v.names[name])
            &&& now < v.agents[v.names[name]].card.not_after
        },
        v.agents.contains_key(addr) && v.agents[addr].ed_pub != key ==> service::conflict(v, name, addr, key, now) is Some,
        service::conflict(v, name, addr, key, now) == Some(card::AnsError::KeyConflict) ==> v.agents.contains_key(addr)
            && v.agents[addr].ed_pub != key,
        service::conflict(v, name, addr, key, now) is None || service::conflict(v, name, addr, key, now) == Some(
            card::AnsError::NameConflict,
        ) || service::conflict(v, name, addr, key, now) == Some(card::AnsError::KeyConflict),
{
}

/// A lease lasts as many whole seconds as the task asks for, counted up, from one
/// to an hour.
pub proof fn lease_is_counted_up(ms: u64)
    ensures
        ms == 0 ==> service::lease_secs(ms) == 1,
        0 < ms <= 3_600_000 ==> (service::lease_secs(ms) - 1) * 1000 < ms <= service::lease_secs(ms) * 1000,
        ms > 3_600_000 ==> service::lease_secs(ms) == 3600,
{
}

/// What a plan gives a task: as many agents as it asks for, each once, free and
/// not expired, able to do all that is asked, in the service class at least; each
/// is leased to this plan, for the time that the task asks for; and no agent is
/// left out that is better than one taken.
pub proof fn plan_is_good(
    v: service::AnsView,
    req: Seq<Seq<char>>,
    count: usize,
    qos: u8,
    timeout_ms: u64,
    now: u64,
    p: Plan,
    w: service::AnsView,
    i: int,
)
    requires
        service::consistent(v.agents, v.names),
        service::plans(v, req, count, qos, timeout_ms, now, Ok(p), w),
        0 <= i < count,
    ensures
        p.plan_id == v.next_plan,
        w.next_plan == p.plan_id + 1 || v.next_plan == u64::MAX,
        p.created_at == now,
        p.assignments@.len() == count,
        ({
            let a = p.assignments@[i].addr;
            &&& p.assignments@[i].shard_id == i
            &&& v.agents.contains_key(a)
            &&& now < v.agents[a].card.not_after
            &&& v.agents[a].lease matches Some((_, end)) ==> end <= now
            &&& qos <= v.agents[a].card.qos_hint
            &&& forall|k: int| 0 <= k < req.len() ==> v.agents[a].card.capabilities.contains(#[trigger] req[k])
            &&& w.agents.contains_key(a)
            &&& w.agents[a].card == v.agents[a].card
            &&& w.agents[a].lease == Some((p.plan_id, p.assignments@[i].lease_expiry))
            &&& now + 3600 <= u64::MAX ==> p.assignments@[i].lease_expiry == now + service::lease_secs(timeout_ms)
            &&& forall|b: IPv8Address| #[trigger]
                v.agents.contains_key(b) && now < v.agents[b].card.not_after && v.agents[b].lease is None
                    && v.agents[b].card.qos_hint >= qos && v.agents[b].card.qos_hint > v.agents[a].card.qos_hint && (forall|
                    k: int,
                |
                    0 <= k < req.len() ==> v.agents[b].card.capabilities.contains(#[trigger] req[k])) ==> exists|j: int|
                    0 <= j < i && (#[trigger] p.assignments@[j]).addr == b
        }),
        forall|j: int| 0 <= j < count && j != i ==> (#[trigger] p.assignments@[j]).addr != p.assignments@[i].addr,
{
    let id = v.next_plan;
    let end = service::saturating(now, service::lease_secs(timeout_ms));
    let s = choose|s: Seq<search::ResolvedView>|
        {
            &&& #[trigger] search::is_answer(s, v.agents, req, qos, true, now)
            &&& s.len() >= count
            &&& forall|k: int|
                0 <= k < count ==> #[trigger] p.assignments@[k] == (service::Assignment {
                    addr: s[k].addr,
                    shard_id: k as usize,
                    lease_expiry: end,
                })
            &&& w == (service::AnsView {
                agents: service::leased_out(v.agents, s, count as int, (id, end)),
                next_plan: (id + 1) as u64,
                ..v
            })
        };
    assert(search::is_answer(s, v.agents, req, qos, true, now));
    lease_is_bounded(timeout_ms);
    assert(p.assignments@[i].addr == s[i].addr);
    let a = s[i].addr;
    assert(v.agents.contains_key(s[i].addr));
    assert(s[i] == search::told(v.agents[a]));
    leasing_changes_leases_alone(v.agents, s, count as int, (id, end));
    assert(w.agents.dom() == v.agents.dom());
    assert(w.agents.contains_key(a));
    assert(s[i].addr == a);
    assert forall|b: IPv8Address| #[trigger]
        v.agents.contains_key(b) && now < v.agents[b].card.not_after && v.agents[b].lease is None && v.agents[b].card.qos_hint
            >= qos && v.agents[b].card.qos_hint > v.agents[a].card.qos_hint && (forall|k: int|
            0 <= k < req.len() ==> v.agents[b].card.capabilities.contains(#[trigger] req[k])) implies exists|j: int|
        0 <= j < i && (#[trigger] p.assignments@[j]).addr == b by {
        assert(search::suits(v.agents[b], req, qos, true, now));
        assert(s.contains(search::told(v.agents[b])));
        let j = choose|j: int| 0 <= j < s.len() && s[j] == search::told(v.agents[b]);
        if j > i {
            assert(search::ahead(s[i], s[j]));
        }
        assert(j != i);
        assert(p.assignments@[j].addr == b);
    }
    assert forall|j: int| 0 <= j < count && j != i implies (#[trigger] p.assignments@[j]).addr != p.assignments@[i].addr by {
        assert(p.assignments@[j].addr == s[j].addr);
        assert(s[j] == search::told(v.agents[s[j].addr]));
        if s[j].addr == s[i].addr {
            assert(s[j] == s[i]);
            text::before_is_total(text::hex_text(a.bytes()), text::hex_text(a.bytes()));
            if j < i {
                assert(search::ahead(s[j], s[i]));
            } else {
                assert(search::ahead(s[i], s[j]));
            }
        }
    }
}

/// What a search finds is able to do all that is asked, in the service class at
/// least, and not expired, nor leased where leased ones are left out; every agent
/// of that kind is found; and a higher service class stands before a lower one,
/// and a card that holds longer before one that does not, in the same class.
pub proof fn search_is_good(
    s: Seq<search::ResolvedView>,
    m: Map<IPv8Address, store::AgentView>,
    required: Seq<Seq<char>>,
    min_qos: u8,
    exclude_leased: bool,
    now: u64,
    i: int,
)
    requires
        search::is_answer(s, m, required, min_qos, exclude_leased, now),
        0 <= i < s.len(),
    ensures
        now < s[i].not_after,
        min_qos <= s[i].qos_hint,
        forall|k: int| 0 <= k < required.len() ==> s[i].capabilities.contains(#[trigger] required[k]),
        m.contains_key(s[i].addr),
        exclude_leased ==> (m[s[i].addr].lease matches Some((_, end)) ==> end <= now),
        i + 1 < s.len() ==> s[i].qos_hint >= s[i + 1].qos_hint,
        i + 1 < s.len() && s[i].qos_hint == s[i + 1].qos_hint ==> s[i].not_after >= s[i + 1].not_after,
        i + 1 < s.len() ==> s[i].addr != s[i + 1].addr,
{
    assert(s[i] == search::told(m[s[i].addr]));
    if i + 1 < s.len() {
        assert(search::ahead(s[i], s[i + 1]));
        assert(s[i + 1] == search::told(m[s[i + 1].addr]));
        if s[i].addr == s[i + 1].addr {
            let a = text::hex_text(s[i].addr.bytes());
            text::before_is_total(a, a);
        }
    }
}

/// Every agent that can do what is asked is found.
pub proof fn search_is_complete(
    s: Seq<search::ResolvedView>,
    m: Map<IPv8Address, store::AgentView>,
    required: Seq<Seq<char>>,
    min_qos: u8,
    exclude_leased: bool,
    now: u64,
    a: IPv8Address,
)
    requires
        search::is_answer(s, m, required, min_qos, exclude_leased, now),
        search::at_home(m),
        m.contains_key(a),
        now < m[a].card.not_after,
        min_qos <= m[a].card.qos_hint,
        !exclude_leased || (m[a].lease matches Some((_, end)) ==> end <= now),
        forall|k: int| 0 <= k < required.len() ==> m[a].card.capabilities.contains(#[trigger] required[k]),
    ensures
        exists|i: int| 0 <= i < s.len() && (#[trigger] s[i]).addr == a,
{
    assert(search::suits(m[a], required, min_qos, exclude_leased, now));
    assert(s.contains(search::told(m[a])));
    let i = choose|i: int| 0 <= i < s.len() && s[i] == search::told(m[a]);
    assert(s[i].addr == a);
}

/// Reaping takes away the agents whose cards have expired, and their names, and
/// the leases that are over; the other agents stay as they are.
pub proof fn reaping_takes_what_is_over(
    v: service::AnsView,
    now: u64,
    a: IPv8Address,
)
    requires
        service::consistent(v.agents, v.names),
        v.agents.contains_key(a),
    ensures
        ({
            let m = service::reaped(v.agents, now);
            let n = service::kept_names(v.agents, v.names, now);
            let x = v.agents[a];
            &&& x.card.not_after <= now ==> !m.contains_key(a) && !n.contains_key(x.name)
            &&& x.card.not_after > now ==> m.contains_key(a) && m[a].card == x.card && m[a].ed_pub == x.ed_pub && m[a].name
                == x.name && m[a].summary == x.summary && n.contains_key(x.name) && n[x.name] == a
            &&& x.card.not_after > now ==> m[a].lease == match x.lease {
                Some((p, end)) => if end <= now {
                    None
                } else {
                    Some((p, end))
                },
                None => None,
            }
            &&& service::overdue(v.agents, now).contains(a) == (x.lease matches Some((_, end)) && end <= now)
            &&& service::outdated(v.agents, now).contains(a) == (x.card.not_after <= now)
        }),
{
    let n = service::kept_names(v.agents, v.names, now);
    if v.agents[a].card.not_after > now {
        assert forall|b: IPv8Address| #[trigger]
            v.agents.contains_key(b) && v.agents[b].expired(now) implies v.agents[b].name != v.agents[a].name by {
            if v.agents[b].name == v.agents[a].name {
                assert(v.names[v.agents[b].name] == b);
            }
        }
    }
}

/// What a registration proves: that the certificate binds the address to the key,
/// that the key signed the card, and that it signed the name for this address.
pub proof fn registration_is_proved(
    v: service::AnsView,
    addr: Seq<char>,
    cert: Seq<u8>,
    c: card::CardView,
    sig: [u8; 64],
    pop: Seq<u8>,
    now: u64,
    h: [u8; 16],
    w: service::AnsView,
)
    requires
        service::registers(v, addr, cert, c, sig, pop, now, Ok(h), w),
    ensures
        ({
            let key = cert.subrange(16, 48);
            let hash = crypto::sha256_of(card::card_wire(c)).subrange(0, 16);
            &&& h@ == hash
            &&& cert.len() == 120
            &&& header::address_of_wire(cert.subrange(0, 16)) == c.addr
            &&& crypto::signature_holds(v.anchor, cert.subrange(0, 56), cert.subrange(56, 120))
            &&& now <= formats::eight(cert, 48)
            &&& crypto::signature_holds(key, layouts::card_message(c.version, hash, c.not_after, key), sig@)
            &&& pop.len() == 64
            &&& crypto::signature_holds(
                key,
                vstd::utf8::encode_utf8("ipv8plus-ans-register"@) + vstd::utf8::encode_utf8(c.name) + (vstd::utf8::encode_utf8(
                    addr,
                ) + hash),
                pop,
            )
            &&& w.agents.contains_key(c.addr) && w.agents[c.addr].ed_pub == key
        }),
{
    formats::numbers_are_read(cert, 48);
    let d = header::address_of_text(addr)->Ok_0;
    let key = service::cert_key(cert);
    let s = choose|s: AgentCardSummary| #[trigger]
        service::enrolled(v, d, key, c, s) == w && s.version == c.version && s.card_hash@ == h@ && s.not_after
            == c.not_after && s.agent_pubkey@ == key && s.card_sig == sig;
    assert(service::enrolled(v, d, key, c, s) == w);
}

/// Of agents of the same class whose cards hold as long, the one stands first whose
/// address does.
pub proof fn ties_go_by_address(
    s: Seq<search::ResolvedView>,
    m: Map<IPv8Address, store::AgentView>,
    required: Seq<Seq<char>>,
    min_qos: u8,
    exclude_leased: bool,
    now: u64,
    i: int,
    j: int,
)
    requires
        search::is_answer(s, m, required, min_qos, exclude_leased, now),
        0 <= i < j < s.len(),
        s[i].qos_hint == s[j].qos_hint,
        s[i].not_after == s[j].not_after,
    ensures
        text::before(text::hex_text(s[i].addr.bytes()), text::hex_text(s[j].addr.bytes())),
{
    assert(search::ahead(s[i], s[j]));
}

/// An agent is free for a plan that does not hold it any more: reporting is for the
/// plan that holds the agent, and for no other.
pub proof fn reports_are_of_the_holder(a: store::AgentView, plan_id: u64)
    ensures
        service::leased_to(a, plan_id) <==> a.lease is Some && a.lease->0 == (plan_id, (a.lease->0).1),
        a.lease is None ==> !service::leased_to(a, plan_id),
{
}

/// What is kept of an agent, and what is told of it, is what it holds.
pub proof fn agent_holds(a: store::StoredAgent, r: search::ResolvedAgent)
    ensures
        a@.ed_pub == a.ed_pub@,
        a@.name == a.name@,
        a@.card == a.card@,
        a@.summary == a.summary,
        a@.lease == a.lease,
        r@.name == r.name@,
        r@.addr == r.addr,
        r@.tunnel_entry == r.tunnel_entry@,
        r@.capabilities == text::texts(r.capabilities@),
        r@.endpoints == text::texts(r.endpoints@),
        r@.qos_hint == r.qos_hint,
        r@.not_after == r.not_after,
        r@.summary == r.summary,
{
}

/// Why a card is refused: the first reason is told.
pub proof fn refused_cards(
    root: Seq<char>,
    addr: Seq<char>,
    c: card::CardView,
    bound: bool,
    signed: bool,
    held: bool,
    now: u64,
)
    ensures
        ({
            let r = service::vetted(root, addr, c, bound, signed, held, now);
            let named = header::address_of_text(addr);
            let known = 0 < c.name.len() && vstd::utf8::encode_utf8(c.name).len() <= 255 && c.name != root && (root.len() == 0
                || text::ends_with(c.name, root));
            let fits = c.version == 1 && c.addr == named->Ok_0 && now < c.not_after;
            let tagged = card::valid_tags(c.capabilities);
            let whole = card::card_ok(c);
            &&& named is Err ==> r == Err::<IPv8Address, card::AnsError>(card::AnsError::BadAddress)
            &&& named is Ok && !known ==> r == Err::<IPv8Address, card::AnsError>(card::AnsError::BadName)
            &&& named is Ok && known && !fits ==> r == Err::<IPv8Address, card::AnsError>(card::AnsError::BadCard)
            &&& named is Ok && known && fits && !tagged ==> r == Err::<IPv8Address, card::AnsError>(card::AnsError::BadTags)
            &&& named is Ok && known && fits && tagged && !whole ==> r == Err::<IPv8Address, card::AnsError>(
                card::AnsError::BadCard,
            )
            &&& named is Ok && known && fits && tagged && whole && !bound ==> r == Err::<IPv8Address, card::AnsError>(
                card::AnsError::BadCert,
            )
            &&& named is Ok && known && fits && tagged && whole && bound && !signed ==> r == Err::<
                IPv8Address,
                card::AnsError,
            >(card::AnsError::BadCard)
            &&& named is Ok && known && fits && tagged && whole && bound && signed && !held ==> r == Err::<
                IPv8Address,
                card::AnsError,
            >(card::AnsError::BadProof)
        }),
{
}

/// Why a task gets no plan: its tags are none, or there are too few agents; how
/// many are wanted and how many there are is told, and nothing changes.
pub proof fn refused_tasks(
    v: service::AnsView,
    req: Seq<Seq<char>>,
    count: usize,
    qos: u8,
    timeout_ms: u64,
    now: u64,
    e: card::AnsError,
    w: service::AnsView,
)
    requires
        service::plans(v, req, count, qos, timeout_ms, now, Err(e), w),
    ensures
        w == v,
        !card::valid_tags(req) ==> e == card::AnsError::BadTags,
        card::valid_tags(req) ==> (e matches card::AnsError::Insufficient { wanted, got } && wanted == count && (count > 0
            ==> got < count) && (count == 0 ==> got == 0)),
{
}

} // verus!
