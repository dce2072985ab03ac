//! Which agents can do what, best first.

use vstd::prelude::*;
use crate::ans::card;
use crate::ans::store;
use crate::ans::store::{StoredAgent, Store};
use crate::codec::header;
use crate::codec::header::IPv8Address;
use crate::codec::layouts::AgentCardSummary;
use crate::text;

verus! {

/// What the service tells of an agent.
#[derive(Debug, Clone, PartialEq, Eq)]
pub struct ResolvedAgent {
    pub name: String,
    pub addr: IPv8Address,
    pub tunnel_entry: String,
    pub capabilities: Vec<String>,
    pub endpoints: Vec<String>,
    pub qos_hint: u8,
    pub not_after: u64,
    pub summary: AgentCardSummary,
}

/// What the service tells of an agent, as a mathematical value.
pub ghost struct ResolvedView {
    pub name: Seq<char>,
    pub addr: IPv8Address,
    pub tunnel_entry: Seq<char>,
    pub capabilities: Seq<Seq<char>>,
    pub endpoints: Seq<Seq<char>>,
    pub qos_hint: u8,
    pub not_after: u64,
    pub summary: AgentCardSummary,
}

impl View for ResolvedAgent {
    type V = ResolvedView;

    open spec fn view(&self) -> ResolvedView {
        ResolvedView {
            name: self.name@,
            addr: self.addr,
            tunnel_entry: self.tunnel_entry@,
            capabilities: text::texts(self.capabilities@),
            endpoints: text::texts(self.endpoints@),
            qos_hint: self.qos_hint,
            not_after: self.not_after,
            summary: self.summary,
        }
    }
}

/// What is told of an agent.
pub open spec fn told(a: store::AgentView) -> ResolvedView {
    ResolvedView {
        name: a.name,
        addr: a.card.addr,
        tunnel_entry: a.card.tunnel_entry,
        capabilities: a.card.capabilities,
        endpoints: a.card.endpoints,
        qos_hint: a.card.qos_hint,
        not_after: a.card.not_after,
        summary: a.summary,
    }
}

/// Answers as mathematical values.
pub open spec fn told_all(s: Seq<ResolvedAgent>) -> Seq<ResolvedView> {
    Seq::new(s.len(), |i: int| s[i]@)
}

/// What is told of an agent.
pub fn to_resolved(a: &StoredAgent) -> (r: ResolvedAgent)
    ensures
        r@ == told(a@),
        r.name@ == a.name@,
        r.addr == a.card.addr,
        r.tunnel_entry@ == a.card.tunnel_entry@,
        text::texts(r.capabilities@) == text::texts(a.card.capabilities@),
        text::texts(r.endpoints@) == text::texts(a.card.endpoints@),
        r.qos_hint == a.card.qos_hint,
        r.not_after == a.card.not_after,
        r.summary == a.summary,
{
    ResolvedAgent {
        name: a.name.clone(),
        addr: a.card.addr,
        tunnel_entry: a.card.tunnel_entry.clone(),
        capabilities: text::copy_texts(&a.card.capabilities),
        endpoints: text::copy_texts(&a.card.endpoints),
        qos_hint: a.card.qos_hint,
        not_after: a.card.not_after,
        summary: a.summary,
    }
}

/// Whether every text of `required` is among `caps`.
pub open spec fn covered(caps: Seq<Seq<char>>, required: Seq<Seq<char>>) -> bool {
    forall|i: int| 0 <= i < required.len() ==> caps.contains(#[trigger] required[i])
}

/// Whether every text of `required` is among `caps`.
pub fn covers(caps: &Vec<String>, required: &[String]) -> (r: bool)
    ensures
        r == covered(text::texts(caps@), text::texts(required@)),
{
    let mut i: usize = 0;
    while i < required.len()
        invariant
            i <= required.len(),
            forall|j: int| 0 <= j < i ==> text::texts(caps@).contains(#[trigger] text::texts(required@)[j]),
        decreases required.len() - i,
    {
        if !text::has_text(caps, required[i].as_str()) {
            assert(!text::texts(caps@).contains(text::texts(required@)[i as int]));
            return false;
        }
        i = i + 1;
    }
    true
}

/// Whether an agent can do what is asked for.
pub open spec fn suits(
    a: store::AgentView,
    required: Seq<Seq<char>>,
    min_qos: u8,
    exclude_leased: bool,
    now: u64,
) -> bool {
    !a.expired(now) && (exclude_leased ==> !a.leased(now)) && covered(a.card.capabilities, required) && a.card.qos_hint
        >= min_qos
}

/// Whether an answer comes before another: by quality, then by how long the
/// card holds, then by address.
pub open spec fn ahead(x: ResolvedView, y: ResolvedView) -> bool {
    if x.qos_hint != y.qos_hint {
        x.qos_hint > y.qos_hint
    } else if x.not_after != y.not_after {
        x.not_after > y.not_after
    } else {
        text::before(text::hex_text(x.addr.bytes()), text::hex_text(y.addr.bytes()))
    }
}

/// Whether answers are in order.
pub open spec fn in_order(s: Seq<ResolvedView>) -> bool {
    forall|i: int, j: int| 0 <= i < j < s.len() ==> ahead(#[trigger] s[i], #[trigger] s[j])
}

/// Whether the agents are kept under the addresses on their cards, and these
/// are addresses that have a text.
pub open spec fn at_home(m: Map<IPv8Address, store::AgentView>) -> bool {
    forall|a: IPv8Address| #[trigger] m.contains_key(a) ==> a.wf() && m[a].card.addr == a
}

/// Whether `s` is the answer to a search: all agents that can do what is asked
/// for, and no others, in order.
pub open spec fn is_answer(
    s: Seq<ResolvedView>,
    m: Map<IPv8Address, store::AgentView>,
    required: Seq<Seq<char>>,
    min_qos: u8,
    exclude_leased: bool,
    now: u64,
) -> bool {
    &&& in_order(s)
    &&& forall|a: IPv8Address| #[trigger] m.contains_key(a) && suits(m[a], required, min_qos, exclude_leased, now)
        ==> s.contains(told(m[a]))
    &&& forall|i: int|
        0 <= i < s.len() ==> m.contains_key((#[trigger] s[i]).addr) && s[i] == told(m[s[i].addr]) && suits(
            m[s[i].addr],
            required,
            min_qos,
            exclude_leased,
            now,
        )
}

/// Addresses with the same text are the same.
proof fn text_is_injective(a: IPv8Address, b: IPv8Address)
    requires
        a.wf() && b.wf(),
        text::hex_text(a.bytes()) == text::hex_text(b.bytes()),
    ensures
        a == b,
{
    header::address_text_round_trip(a, text::hex_text(a.bytes()));
    header::address_text_round_trip(b, text::hex_text(b.bytes()));
}

/// Of two answers about different agents one comes before the other.
proof fn ahead_is_total(x: ResolvedView, y: ResolvedView)
    requires
        x.addr.wf() && y.addr.wf(),
    ensures
        x.addr != y.addr ==> ahead(x, y) || ahead(y, x),
        !(ahead(x, y) && ahead(y, x)),
{
    let a = text::hex_text(x.addr.bytes());
    let b = text::hex_text(y.addr.bytes());
    text::before_is_total(a, b);
    if a == b {
        text_is_injective(x.addr, y.addr);
    }
}

/// What comes before an answer comes before whatever comes after it.
proof fn ahead_is_transitive(x: ResolvedView, y: ResolvedView, z: ResolvedView)
    requires
        ahead(x, y),
        ahead(y, z),
    ensures
        ahead(x, z),
{
    let a = text::hex_text(x.addr.bytes());
    let b = text::hex_text(y.addr.bytes());
    let c = text::hex_text(z.addr.bytes());
    if text::before(a, b) && text::before(b, c) {
        text::before_is_transitive(a, b, c);
    }
}

/// Whether an answer comes before another.
fn is_ahead(x: &ResolvedAgent, y: &ResolvedAgent) -> (r: bool)
    ensures
        r == ahead(x@, y@),
{
    if x.qos_hint != y.qos_hint {
        x.qos_hint > y.qos_hint
    } else if x.not_after != y.not_after {
        x.not_after > y.not_after
    } else {
        let s = x.addr.to_canonical_string();
        let t = y.addr.to_canonical_string();
        proof {
            text::hex_text_is_ascii(x.addr.bytes());
            text::hex_text_is_ascii(y.addr.bytes());
        }
        text::is_before(s.as_str(), t.as_str())
    }
}

/// Puts an answer in its place.
fn put_in_order(out: &mut Vec<ResolvedAgent>, x: ResolvedAgent)
    requires
        in_order(told_all(old(out)@)),
        x.addr.wf(),
        forall|i: int| 0 <= i < old(out)@.len() ==> (#[trigger] old(out)@[i]).addr.wf() && old(out)@[i].addr != x.addr,
    ensures
        in_order(told_all(final(out)@)),
        exists|p: int| 0 <= p <= old(out)@.len() && final(out)@ == #[trigger] old(out)@.insert(p, x),
{
    let ghost before = out@;
    let ghost v = told_all(before);
    let mut p: usize = 0;
    while p < out.len() && !is_ahead(&x, &out[p])
        invariant
            p <= out.len(),
            out@ == before,
            v == told_all(before),
            x.addr.wf(),
            forall|i: int| 0 <= i < before.len() ==> (#[trigger] before[i]).addr.wf() && before[i].addr != x.addr,
            forall|i: int| 0 <= i < p ==> ahead(#[trigger] v[i], x@),
        decreases out.len() - p,
    {
        proof {
            ahead_is_total(x@, v[p as int]);
            assert(before[p as int].addr != x.addr);
        }
        p = p + 1;
    }
    let ghost y = x;
    out.insert(p, x);
    proof {
        let w = told_all(out@);
        let at = p as int;
        assert(out@ == before.insert(at, y));
        assert forall|i: int, j: int| 0 <= i < j < w.len() implies ahead(#[trigger] w[i], #[trigger] w[j]) by {
            if j < at {
                assert(w[i] == v[i] && w[j] == v[j]);
            } else if j == at {
                assert(w[i] == v[i] && w[j] == y@);
            } else if i == at {
                assert(w[j] == v[j - 1] && w[i] == y@);
                if j - 1 > at {
                    assert(ahead(v[at], v[j - 1]));
                    ahead_is_transitive(y@, v[at], v[j - 1]);
                }
            } else if i < at {
                assert(w[i] == v[i] && w[j] == v[j - 1]);
                if i < j - 1 {
                    assert(ahead(v[i], v[j - 1]));
                }
            } else {
                assert(w[i] == v[i - 1] && w[j] == v[j - 1]);
            }
        }
    }
}

/// The agents of a store that can do what is asked for, best first.
pub fn search<S: Store>(s: &S, required: &[String], min_qos: u8, exclude_leased: bool, now: u64) -> (r: Vec<ResolvedAgent>)
    requires
        s.wf(),
        at_home(s.agents()),
    ensures
        is_answer(told_all(r@), s.agents(), text::texts(required@), min_qos, exclude_leased, now),
{
    let ghost m = s.agents();
    let ghost req = text::texts(required@);
    let addrs = s.addrs();
    let mut out: Vec<ResolvedAgent> = Vec::new();
    let mut i: usize = 0;
    while i < addrs.len()
        invariant
            i <= addrs.len(),
            s.wf(),
            m == s.agents(),
            at_home(m),
            req == text::texts(required@),
            addrs@.no_duplicates(),
            forall|a: IPv8Address| #[trigger] addrs@.contains(a) <==> m.contains_key(a),
            in_order(told_all(out@)),
            forall|j: int|
                0 <= j < i && suits(m[#[trigger] addrs@[j]], req, min_qos, exclude_leased, now) ==> told_all(out@).contains(
                    told(m[addrs@[j]]),
                ),
            forall|k: int|
                0 <= k < out@.len() ==> {
                    let x = #[trigger] out@[k];
                    &&& m.contains_key(x.addr)
                    &&& x@ == told(m[x.addr])
                    &&& suits(m[x.addr], req, min_qos, exclude_leased, now)
                    &&& addrs@.subrange(0, i as int).contains(x.addr)
                },
        decreases addrs.len() - i,
    {
        let addr = addrs[i];
        assert(addrs@.contains(addr));
        let ghost before = out@;
        let ghost seen = addrs@.subrange(0, i as int);
        let ghost now_seen = addrs@.subrange(0, i + 1);
        assert(now_seen =~= seen.push(addr));
        match s.get(addr) {
            Some(a) => {
                if !a.is_expired(now) && !(exclude_leased && a.is_leased(now)) && covers(&a.card.capabilities, required)
                    && a.card.qos_hint >= min_qos {
                    let x = to_resolved(a);
                    proof {
                        assert(x.addr == addr);
                        assert forall|k: int| 0 <= k < out@.len() implies (#[trigger] out@[k]).addr.wf() && out@[k].addr
                            != x.addr by {
                            assert(seen.contains(out@[k].addr));
                            let j = choose|j: int| 0 <= j < seen.len() && seen[j] == out@[k].addr;
                            assert(addrs@[j] != addrs@[i as int]);
                        }
                    }
                    let ghost y = x;
                    put_in_order(&mut out, x);
                    proof {
                        let p = choose|p: int| 0 <= p <= before.len() && out@ == #[trigger] before.insert(p, y);
                        inserted(before, out@, p, y);
                        assert forall|k: int| 0 <= k < out@.len() implies {
                            let z = #[trigger] out@[k];
                            &&& m.contains_key(z.addr)
                            &&& z@ == told(m[z.addr])
                            &&& suits(m[z.addr], req, min_qos, exclude_leased, now)
                            &&& now_seen.contains(z.addr)
                        } by {
                            if k == p {
                                assert(now_seen[i as int] == addr);
                            } else {
                                let o = if k < p {
                                    k
                                } else {
                                    k - 1
                                };
                                assert(out@[k] == before[o]);
                                let j = choose|j: int| 0 <= j < seen.len() && seen[j] == before[o].addr;
                                assert(now_seen[j] == out@[k].addr);
                            }
                        }
                        assert forall|j: int|
                            0 <= j < i + 1 && suits(m[#[trigger] addrs@[j]], req, min_qos, exclude_leased, now) implies told_all(
                            out@,
                        ).contains(told(m[addrs@[j]])) by {
                            if j < i {
                                assert(told_all(before).contains(told(m[addrs@[j]])));
                            } else {
                                assert(told(m[addrs@[j]]) == y@);
                            }
                        }
                    }
                } else {
                    proof {
                        keep_seen(out@, seen, addr);
                    }
                }
            },
            None => {
                assert(false);
            },
        }
        i = i + 1;
    }
    proof {
        let v = told_all(out@);
        assert forall|a: IPv8Address| #[trigger] m.contains_key(a) && suits(m[a], req, min_qos, exclude_leased, now) implies v.contains(
            told(m[a]),
        ) by {
            assert(addrs@.contains(a));
            let j = choose|j: int| 0 <= j < addrs@.len() && addrs@[j] == a;
            assert(suits(m[addrs@[j]], req, min_qos, exclude_leased, now));
        }
        assert forall|k: int| 0 <= k < v.len() implies m.contains_key((#[trigger] v[k]).addr) && v[k] == told(m[v[k].addr])
            && suits(m[v[k].addr], req, min_qos, exclude_leased, now) by {
            assert(v[k] == out@[k]@);
        }
    }
    out
}

/// What was seen stays seen.
proof fn keep_seen(out: Seq<ResolvedAgent>, seen: Seq<IPv8Address>, addr: IPv8Address)
    requires
        forall|k: int| 0 <= k < out.len() ==> seen.contains((#[trigger] out[k]).addr),
    ensures
        forall|k: int| 0 <= k < out.len() ==> seen.push(addr).contains((#[trigger] out[k]).addr),
{
    assert forall|k: int| 0 <= k < out.len() implies seen.push(addr).contains((#[trigger] out[k]).addr) by {
        let j = choose|j: int| 0 <= j < seen.len() && seen[j] == out[k].addr;
        assert(seen.push(addr)[j] == out[k].addr);
    }
}

/// The answers after one was put in.
proof fn inserted(before: Seq<ResolvedAgent>, after: Seq<ResolvedAgent>, p: int, x: ResolvedAgent)
    requires
        0 <= p <= before.len(),
        after == before.insert(p, x),
    ensures
        told_all(after).contains(x@),
        forall|v: ResolvedView| #[trigger] told_all(before).contains(v) ==> told_all(after).contains(v),
{
    assert(told_all(after)[p] == x@);
    assert forall|v: ResolvedView| #[trigger] told_all(before).contains(v) implies told_all(after).contains(v) by {
        let j = choose|j: int| 0 <= j < told_all(before).len() && told_all(before)[j] == v;
        if j < p {
            assert(told_all(after)[j] == v);
        } else {
            assert(told_all(after)[j + 1] == v);
        }
    }
}

/// Two lists in order with the same answers are the same.
proof fn order_determines(s: Seq<ResolvedView>, t: Seq<ResolvedView>)
    requires
        in_order(s) && in_order(t),
        forall|i: int| 0 <= i < s.len() ==> (#[trigger] s[i]).addr.wf() && t.contains(s[i]),
        forall|i: int| 0 <= i < t.len() ==> (#[trigger] t[i]).addr.wf() && s.contains(t[i]),
    ensures
        s == t,
    decreases s.len(),
{
    if s.len() == 0 {
        if t.len() > 0 {
            assert(s.contains(t[0]));
        }
        assert(s =~= t);
    } else {
        assert(t.contains(s[0]));
        let j = choose|j: int| 0 <= j < t.len() && t[j] == s[0];
        assert(s.contains(t[0]));
        let i = choose|i: int| 0 <= i < s.len() && s[i] == t[0];
        if j > 0 {
            assert(ahead(t[0], t[j]));
            ahead_is_total(s[0], t[0]);
            if i > 0 {
                assert(ahead(s[0], s[i]));
            }
        }
        assert(s[0] == t[0]);
        let s1 = s.drop_first();
        let t1 = t.drop_first();
        assert forall|k: int| 0 <= k < s1.len() implies (#[trigger] s1[k]).addr.wf() && t1.contains(s1[k]) by {
            assert(s1[k] == s[k + 1]);
            assert(ahead(s[0], s[k + 1]));
            let m = choose|m: int| 0 <= m < t.len() && t[m] == s[k + 1];
            ahead_is_total(s[0], s[k + 1]);
            assert(m > 0);
            assert(t1[m - 1] == s1[k]);
        }
        assert forall|k: int| 0 <= k < t1.len() implies (#[trigger] t1[k]).addr.wf() && s1.contains(t1[k]) by {
            assert(t1[k] == t[k + 1]);
            assert(ahead(t[0], t[k + 1]));
            let m = choose|m: int| 0 <= m < s.len() && s[m] == t[k + 1];
            ahead_is_total(t[0], t[k + 1]);
            assert(m > 0);
            assert(s1[m - 1] == t1[k]);
        }
        order_determines(s1, t1);
        assert(seq![s[0]] + s1 =~= s);
        assert(seq![t[0]] + t1 =~= t);
    }
}

/// A search has one answer.
pub proof fn answer_is_determined(
    s: Seq<ResolvedView>,
    t: Seq<ResolvedView>,
    m: Map<IPv8Address, store::AgentView>,
    required: Seq<Seq<char>>,
    min_qos: u8,
    exclude_leased: bool,
    now: u64,
)
    requires
        at_home(m),
        is_answer(s, m, required, min_qos, exclude_leased, now),
        is_answer(t, m, required, min_qos, exclude_leased, now),
    ensures
        s == t,
{
    assert forall|i: int| 0 <= i < s.len() implies (#[trigger] s[i]).addr.wf() && t.contains(s[i]) by {
        assert(m.contains_key(s[i].addr));
    }
    assert forall|i: int| 0 <= i < t.len() implies (#[trigger] t[i]).addr.wf() && s.contains(t[i]) by {
        assert(m.contains_key(t[i].addr));
    }
    order_determines(s, t);
}

} // verus!
