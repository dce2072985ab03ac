//! What holds of the resolver as a whole.

use vstd::prelude::*;
use crate::codec::header;
use crate::codec::header::IPv8Address;
use crate::crypto;
use crate::resolver::record;
use crate::resolver::record::{MAX_CANDIDATE_LEN, MAX_LOCAL_CANDIDATES, MAX_TTL};
use crate::resolver::service;
use crate::resolver::service::RegisterSpec;
use crate::resolver::store;
use crate::text;

verus! {

/// An entry is granted for a second at least and a day at most.
pub proof fn granted_ttl_is_bounded(secs: u64)
    ensures
        1000 <= service::granted_ttl(secs) <= MAX_TTL,
{
}

/// A registration is found until its time is over, and not from then on.
pub proof fn registration_is_found_until_it_ends(
    m: Map<IPv8Address, record::EntryView>,
    a: IPv8Address,
    s: RegisterSpec,
    existing: Option<record::EntryView>,
    now: u64,
    t: u64,
)
    requires
        now <= u64::MAX - MAX_TTL,
    ensures
        ({
            let e = service::registered(s, existing, now);
            let after = m.insert(a, e);
            &&& service::at(after, a) == Some(e)
            &&& e.rec.expired(t) == (t >= now + service::granted_ttl(s.ttl_secs))
            &&& e.rec.tunnel_entry == s.tunnel_entry@
            &&& e.rec.alt_entries == text::texts(s.alt_entries@)
        }),
{
    granted_ttl_is_bounded(s.ttl_secs);
}

/// As long as an entry holds, no other key takes its address.
pub proof fn live_entry_keeps_its_key(
    addr: Seq<char>,
    key: Seq<u8>,
    e: record::EntryView,
    key_ok: bool,
    proof_ok: bool,
    now: u64,
)
    requires
        !e.rec.expired(now),
        service::registration(addr, key, Some(e), key_ok, proof_ok, now) is Ok,
    ensures
        key == e.ed_pub,
{
}

/// A key that the address does not have yet takes a proof.
pub proof fn new_key_takes_a_proof(
    addr: Seq<char>,
    key: Seq<u8>,
    existing: Option<record::EntryView>,
    key_ok: bool,
    proof_ok: bool,
    now: u64,
)
    requires
        service::registration(addr, key, existing, key_ok, proof_ok, now) is Ok,
        existing is None || existing->0.ed_pub != key,
    ensures
        proof_ok,
{
}

/// A new holder of an address inherits nothing of what was seen of the last.
pub proof fn new_holder_inherits_nothing(s: RegisterSpec, e: record::EntryView, now: u64)
    requires
        e.ed_pub != s.ed_pub@,
    ensures
        service::registered(s, Some(e), now) == service::registered(s, None, now),
{
}

/// Sweeping changes no answer.
pub proof fn sweeping_changes_no_answer(m: Map<IPv8Address, record::EntryView>, a: IPv8Address, now: u64)
    ensures
        ({
            let before = service::at(m, a);
            let after = service::at(store::live(m, now), a);
            if before is Some && !before->0.rec.expired(now) {
                after == before
            } else {
                after is None
            }
        }),
{
}

/// The visible part of a text is visible and no longer.
proof fn visible_part_is_visible(t: Seq<char>)
    ensures
        service::visible_part(t).len() <= t.len(),
        forall|i: int| 0 <= i < service::visible_part(t).len() ==> service::visible(#[trigger] service::visible_part(t)[i]),
    decreases t.len(),
{
    if t.len() > 0 {
        visible_part_is_visible(t.drop_last());
    }
}

/// What is kept of reported addresses is no more than was reported.
proof fn cleaned_is_bounded(list: Seq<Seq<char>>)
    ensures
        service::cleaned(list).len() <= list.len(),
        forall|i: int|
            0 <= i < service::cleaned(list).len() ==> {
                let c = #[trigger] service::cleaned(list)[i];
                0 < c.len() <= MAX_CANDIDATE_LEN && forall|j: int|
                    0 <= j < c.len() ==> service::visible(#[trigger] c[j])
            },
    decreases list.len(),
{
    if list.len() > 0 {
        cleaned_is_bounded(list.drop_last());
        visible_part_is_visible(service::front(list.last(), MAX_CANDIDATE_LEN as int));
    }
}

/// What a node reports is cut to a few short texts of visible ASCII, none of
/// them empty.
pub proof fn reported_is_bounded(list: Seq<Seq<char>>)
    ensures
        service::sanitized(list).len() <= MAX_LOCAL_CANDIDATES,
        forall|i: int|
            0 <= i < service::sanitized(list).len() ==> {
                let c = #[trigger] service::sanitized(list)[i];
                0 < c.len() <= MAX_CANDIDATE_LEN && forall|j: int|
                    0 <= j < c.len() ==> service::visible(#[trigger] c[j])
            },
{
    cleaned_is_bounded(service::front(list, MAX_LOCAL_CANDIDATES as int));
}

/// A list of texts stays without repetition, and grows by one at most.
proof fn with_text_is_distinct(list: Seq<Seq<char>>, t: Seq<char>)
    requires
        list.no_duplicates(),
    ensures
        service::with_text(list, t).no_duplicates(),
        service::with_text(list, t).len() <= list.len() + 1,
        list.is_prefix_of(service::with_text(list, t)),
{
}

/// Added texts leave the list without repetition and not too long.
proof fn with_texts_is_distinct(list: Seq<Seq<char>>, more: Seq<Seq<char>>, n: int)
    requires
        list.no_duplicates(),
        list.len() <= 2 + MAX_LOCAL_CANDIDATES,
        0 <= n <= more.len(),
    ensures
        service::with_texts(list, more, n).no_duplicates(),
        service::with_texts(list, more, n).len() <= 2 + MAX_LOCAL_CANDIDATES,
        list.is_prefix_of(service::with_texts(list, more, n)),
    decreases n,
{
    if n > 0 {
        with_texts_is_distinct(list, more, n - 1);
        with_text_is_distinct(service::with_texts(list, more, n - 1), more[n - 1]);
    }
}

/// The candidates for a peer are few and different, and where it was seen not
/// long ago comes first, with the port of its entry where that has one.
pub proof fn candidates_are_few_and_different(rec: record::RecordView, now: u64)
    ensures
        service::candidates(rec, now).no_duplicates(),
        service::candidates(rec, now).len() <= 2 + MAX_LOCAL_CANDIDATES,
        rec.fresh(now) is Some ==> service::candidates(rec, now).len() > 0 && service::candidates(rec, now)[0]
            == match service::combined(rec.fresh(now)->0, rec.tunnel_entry) {
            Some(c) => c,
            None => rec.fresh(now)->0,
        },
{
    let first = service::seen_candidates(rec, now);
    match rec.fresh(now) {
        Some(o) => match service::combined(o, rec.tunnel_entry) {
            Some(c) => {
                with_text_is_distinct(seq![c], o);
            },
            None => {},
        },
        None => {},
    }
    with_texts_is_distinct(first, rec.local_candidates, rec.local_candidates.len() as int);
    let all = service::candidates(rec, now);
    if rec.fresh(now) is Some {
        assert(all.subrange(0, first.len() as int)[0] == first[0]);
    }
}

/// Where a peer was seen long ago is no candidate, unless it reports that
/// address itself.
pub proof fn old_sightings_are_no_candidates(rec: record::RecordView, now: u64, c: Seq<char>)
    requires
        rec.fresh(now) is None,
        service::candidates(rec, now).contains(c),
    ensures
        rec.local_candidates.contains(c),
{
    only_added(Seq::empty(), rec.local_candidates, rec.local_candidates.len() as int, c);
}

/// What a list has after texts were added was there or was added.
proof fn only_added(list: Seq<Seq<char>>, more: Seq<Seq<char>>, n: int, c: Seq<char>)
    requires
        0 <= n <= more.len(),
        service::with_texts(list, more, n).contains(c),
    ensures
        list.contains(c) || more.contains(c),
    decreases n,
{
    if n > 0 {
        let l = service::with_texts(list, more, n - 1);
        let k = service::with_texts(list, more, n);
        let i = choose|i: int| 0 <= i < k.len() && k[i] == c;
        if i < l.len() {
            assert(l[i] == c);
            only_added(list, more, n - 1, c);
        } else {
            assert(c == more[n - 1]);
        }
    }
}

/// A few texts more are all taken.
proof fn few_texts_are_taken(list: Seq<Seq<char>>, more: Seq<Seq<char>>, n: int)
    requires
        list.len() <= 2,
        0 <= n <= more.len(),
        n <= 8,
    ensures
        service::with_texts(list, more, n).len() <= list.len() + n,
        forall|k: int| 0 <= k < list.len() ==> service::with_texts(list, more, n).contains(#[trigger] list[k]),
        forall|k: int| 0 <= k < n ==> service::with_texts(list, more, n).contains(#[trigger] more[k]),
    decreases n,
{
    let l = service::with_texts(list, more, n);
    if n > 0 {
        few_texts_are_taken(list, more, n - 1);
        let k = service::with_texts(list, more, n - 1);
        assert(l == service::with_text(k, more[n - 1]));
        assert forall|t: Seq<char>| #[trigger] k.contains(t) implies l.contains(t) by {
            let j = choose|j: int| 0 <= j < k.len() && k[j] == t;
            assert(l[j] == t);
        }
        if !k.contains(more[n - 1]) {
            assert(l[k.len() as int] == more[n - 1]);
        }
    } else {
        assert forall|k: int| 0 <= k < list.len() implies l.contains(#[trigger] list[k]) by {
            assert(l[k] == list[k]);
        }
    }
}

/// Every address that a peer reports itself is a candidate for it, and so is the
/// address at which it was seen in the last 90 seconds.
pub proof fn all_of_a_peer_are_candidates(rec: record::RecordView, now: u64)
    requires
        rec.local_candidates.len() <= 8,
    ensures
        forall|i: int|
            0 <= i < rec.local_candidates.len() ==> service::candidates(rec, now).contains(#[trigger] rec.local_candidates[i]),
        rec.observed matches Some((o, t)) ==> now - t <= 90_000 ==> service::candidates(rec, now).contains(o),
{
    let first = service::seen_candidates(rec, now);
    few_texts_are_taken(first, rec.local_candidates, rec.local_candidates.len() as int);
    if let Some((o, t)) = rec.observed {
        if now - t <= 90_000 {
            match service::combined(o, rec.tunnel_entry) {
                Some(c) => {
                    if c == o {
                        assert(first[0] == o);
                    } else {
                        assert(!seq![c].contains(o));
                        assert(first[1] == o);
                    }
                },
                None => {
                    assert(first[0] == o);
                },
            }
        }
    }
}

/// A candidate for a peer is one that it reports, where it was seen in the last 90
/// seconds, or that place with the port of its entry.
pub proof fn candidates_are_of_the_peer(rec: record::RecordView, now: u64, c: Seq<char>)
    requires
        service::candidates(rec, now).contains(c),
    ensures
        rec.local_candidates.contains(c) || (rec.observed matches Some((o, t)) && now - t <= 90_000 && (c == o
            || service::combined(o, rec.tunnel_entry) == Some(c))),
{
    let first = service::seen_candidates(rec, now);
    only_added(first, rec.local_candidates, rec.local_candidates.len() as int, c);
}

/// The colon that stands last is found.
proof fn colon_is_found(t: Seq<char>, k: int, n: int)
    requires
        0 <= k < n <= t.len(),
        t[k] == ':',
        forall|i: int| k < i < n ==> #[trigger] t[i] != ':',
    ensures
        service::last_colon(t, n) == k,
    decreases n,
{
    if k < n - 1 {
        colon_is_found(t, k, n - 1);
    }
}

/// Where there is no colon, none is found.
proof fn no_colon_is_found(t: Seq<char>, n: int)
    requires
        0 <= n <= t.len(),
        forall|i: int| 0 <= i < n ==> #[trigger] t[i] != ':',
    ensures
        service::last_colon(t, n) == -1,
    decreases n,
{
    if n > 0 {
        no_colon_is_found(t, n - 1);
    }
}

/// The host at which a node was seen, with the port of its entry: that is the
/// combination of both.
pub proof fn host_of_one_port_of_the_other(host: Seq<char>, seen: Seq<char>, from: Seq<char>, port: Seq<char>)
    requires
        forall|i: int| 0 <= i < seen.len() ==> #[trigger] seen[i] != ':',
        forall|i: int| 0 <= i < port.len() ==> #[trigger] port[i] != ':',
        port.len() > 0,
    ensures
        service::combined(host + seq![':'] + seen, from + seq![':'] + port) == Some(host + seq![':'] + port),
        service::combined(host + seq![':'] + seen, from + seq![':']) is None,
        service::combined(host + seq![':'] + seen, port) is None,
        service::combined(seen, from + seq![':'] + port) is None,
{
    let a = host + seq![':'] + seen;
    let b = from + seq![':'] + port;
    colon_is_found(a, host.len() as int, a.len() as int);
    colon_is_found(b, from.len() as int, b.len() as int);
    colon_is_found(from + seq![':'], from.len() as int, from.len() as int + 1);
    no_colon_is_found(port, port.len() as int);
    no_colon_is_found(seen, seen.len() as int);
    assert(a.subrange(0, host.len() as int) =~= host);
    assert(b.subrange(from.len() as int + 1, b.len() as int) =~= port);
}

/// An entry is granted for the seconds that are asked for, up to a day; for five
/// minutes where none are.
pub proof fn ttl_is_as_asked(secs: u64)
    ensures
        secs == 0 ==> service::granted_ttl(secs) == 300_000,
        1 <= secs <= 86_400 ==> service::granted_ttl(secs) == secs * 1000,
        secs > 86_400 ==> service::granted_ttl(secs) == 86_400_000,
{
}

/// What was registered is resolved, field by field, until its time is over; an
/// entry without an MTU has that of 1432 bytes.
pub proof fn registered_entry_is_resolved(
    m: Map<IPv8Address, record::EntryView>,
    s: RegisterSpec,
    now: u64,
    o: service::RegisterOutcome,
    n: Map<IPv8Address, record::EntryView>,
    t: u64,
    r: Result<service::Resolved, service::ResolveError>,
)
    requires
        service::registers(m, s, now, Ok(o), n),
        service::resolves(n, s.addr_text@, t, r),
        now <= u64::MAX - 86_400_000,
    ensures
        r is Ok <==> t < now + o.ttl,
        s.ttl_secs == 0 ==> o.ttl == 300_000,
        1 <= s.ttl_secs <= 86_400 ==> o.ttl == s.ttl_secs * 1000,
        s.ttl_secs > 86_400 ==> o.ttl == 86_400_000,
        r matches Err(e) ==> e == service::ResolveError::NotFound,
        r matches Ok(x) ==> {
            &&& x.tunnel_entry@ == s.tunnel_entry@
            &&& x.alt_entries@ == text::texts(s.alt_entries@)
            &&& x.ipv8_capable == s.ipv8_capable
            &&& s.mtu != 0 ==> x.mtu == s.mtu
            &&& s.mtu == 0 ==> x.mtu == 1432
            &&& x.ttl == o.ttl
        },
        s.observed matches Some(a) ==> o.observed is Some && o.observed->0@ == a@,
{
    let e = service::registered(s, service::named(m, s.addr_text@), now);
    assert(service::named(n, s.addr_text@) == Some(e));
}

/// A registration leaves the entries of the other nodes as they are.
pub proof fn others_keep_their_entries(
    m: Map<IPv8Address, record::EntryView>,
    s: RegisterSpec,
    now: u64,
    r: Result<service::RegisterOutcome, service::ResolveError>,
    n: Map<IPv8Address, record::EntryView>,
    other: Seq<char>,
)
    requires
        service::registers(m, s, now, r, n),
        header::address_of_text(other) is Ok,
        header::address_of_text(s.addr_text@) is Err || header::address_of_text(other)->Ok_0 != header::address_of_text(
            s.addr_text@,
        )->Ok_0,
    ensures
        service::named(n, other) == service::named(m, other),
{
}

/// When a registration is let in: with a good key of 32 bytes, and a proof where
/// the address is not this key's already, and unless another key holds it still.
pub proof fn registration_is_let_in(
    addr: Seq<char>,
    key: Seq<u8>,
    existing: Option<record::EntryView>,
    key_ok: bool,
    proof_ok: bool,
    now: u64,
)
    requires
        existing matches Some(e) ==> e.rec.registered_at + e.rec.ttl <= u64::MAX,
    ensures
        service::registration(addr, key, existing, key_ok, proof_ok, now) is Ok <==> {
            &&& header::address_of_text(addr) is Ok
            &&& key.len() == 32 && key_ok
            &&& match existing {
                Some(e) => e.ed_pub == key || (proof_ok && now >= e.rec.registered_at + e.rec.ttl),
                None => proof_ok,
            }
        },
{
}

/// An introduction: both addresses are good, and the one that asks is registered,
/// proves its key and is remembered as it was seen and as it says; what it learns
/// is how to reach the other, and for 90 seconds.
pub proof fn introduction_leads_to_the_peer(
    m: Map<IPv8Address, record::EntryView>,
    addr: Seq<char>,
    peer: Seq<char>,
    signature: Seq<u8>,
    local: Seq<Seq<char>>,
    seen: Option<Seq<char>>,
    now: u64,
    o: service::RendezvousOutcome,
    n: Map<IPv8Address, record::EntryView>,
)
    requires
        service::introduces(m, addr, peer, signature, local, seen, now, Ok(o), n),
        header::address_of_text(addr) is Ok && header::address_of_text(peer) is Ok ==> header::address_of_text(addr)->Ok_0
            != header::address_of_text(peer)->Ok_0,
    ensures
        ({
            let me = service::named(m, addr);
            let you = service::named(m, peer);
            &&& me is Some && !me->0.rec.expired(now)
            &&& you is Some && !you->0.rec.expired(now)
            &&& text::texts(o.peer_candidates@) == service::candidates(you->0.rec, now)
            &&& o.ttl == 90_000
            &&& service::named(n, peer) == you
            &&& seen is Some ==> o.self_observed is Some && o.self_observed->0@ == seen->0
            &&& seen is None ==> o.self_observed is None
            &&& service::named(n, addr) is Some
            &&& service::named(n, addr)->0.ed_pub == me->0.ed_pub
            &&& service::named(n, addr)->0.rec.tunnel_entry == me->0.rec.tunnel_entry
            &&& service::named(n, addr)->0.rec.registered_at == me->0.rec.registered_at
            &&& service::named(n, addr)->0.rec.ttl == me->0.rec.ttl
            &&& seen is Some ==> service::named(n, addr)->0.rec.observed == Some((seen->0, now))
            &&& seen is None ==> service::named(n, addr)->0.rec.observed == me->0.rec.observed
            &&& crypto::signature_holds(
                me->0.ed_pub,
                vstd::utf8::encode_utf8("ipv8plus-rendezvous"@) + vstd::utf8::encode_utf8(addr) + vstd::utf8::encode_utf8(peer),
                signature,
            )
        }),
{
}

/// A short text of visible characters is as visible as it is.
proof fn visible_text_stays(t: Seq<char>)
    requires
        forall|i: int| 0 <= i < t.len() ==> '!' <= #[trigger] t[i] && t[i] <= '~',
    ensures
        service::visible_part(t) == t,
    decreases t.len(),
{
    if t.len() > 0 {
        visible_text_stays(t.drop_last());
        assert(t.drop_last().push(t.last()) =~= t);
    }
}

/// A few short texts of visible characters stay as they are.
proof fn good_texts_stay(list: Seq<Seq<char>>)
    requires
        forall|i: int| 0 <= i < list.len() ==> 0 < (#[trigger] list[i]).len() <= 64,
        forall|i: int, j: int|
            0 <= i < list.len() && 0 <= j < list[i].len() ==> '!' <= #[trigger] list[i][j] && list[i][j] <= '~',
    ensures
        service::cleaned(list) == list,
    decreases list.len(),
{
    if list.len() > 0 {
        let front = list.drop_last();
        assert forall|i: int, j: int| 0 <= i < front.len() && 0 <= j < front[i].len() implies '!' <= #[trigger] front[i][j]
            && front[i][j] <= '~' by {
            assert(list[i][j] == front[i][j]);
        }
        good_texts_stay(front);
        let t = list[list.len() - 1];
        assert(0 < t.len() <= 64);
        visible_text_stays(t);
        assert(front.push(t) =~= list);
    }
}

/// What a node reports is kept as it is where it is no more than eight texts of
/// visible ASCII, each of 64 characters at most.
pub proof fn good_reports_are_kept(list: Seq<Seq<char>>)
    requires
        list.len() <= 8,
        forall|i: int| 0 <= i < list.len() ==> 0 < (#[trigger] list[i]).len() <= 64,
        forall|i: int, j: int|
            0 <= i < list.len() && 0 <= j < list[i].len() ==> '!' <= #[trigger] list[i][j] && list[i][j] <= '~',
    ensures
        service::sanitized(list) == list,
{
    good_texts_stay(list);
}

/// What is kept of a report is never more than eight texts of 64 characters.
pub proof fn reports_are_cut(list: Seq<Seq<char>>)
    ensures
        service::sanitized(list).len() <= 8,
        forall|i: int| 0 <= i < service::sanitized(list).len() ==> 0 < (#[trigger] service::sanitized(list)[i]).len() <= 64,
        forall|i: int, j: int|
            0 <= i < service::sanitized(list).len() && 0 <= j < service::sanitized(list)[i].len() ==> '!' <= #[trigger] service::sanitized(
                list,
            )[i][j] && service::sanitized(list)[i][j] <= '~',
{
    reported_is_bounded(list);
    assert forall|i: int, j: int|
        0 <= i < service::sanitized(list).len() && 0 <= j < service::sanitized(list)[i].len() implies '!'
        <= #[trigger] service::sanitized(list)[i][j] && service::sanitized(list)[i][j] <= '~' by {
        let c = service::sanitized(list)[i];
        assert(service::visible(c[j]));
    }
}

/// A node that registers again under its key is still where it was seen and as it
/// reported, unless it is seen anew.
pub proof fn what_a_new_registration_keeps(s: RegisterSpec, e: record::EntryView, now: u64)
    requires
        e.ed_pub == s.ed_pub@,
    ensures
        s.observed is None ==> {
            let n = service::registered(s, Some(e), now);
            n.rec.observed == e.rec.observed && n.rec.local_candidates == e.rec.local_candidates
        },
        s.observed matches Some(o) ==> {
            let n = service::registered(s, Some(e), now);
            n.rec.observed == Some((o@, now)) && n.rec.local_candidates.len() == 0
        },
        service::registered(s, None, now).rec.local_candidates.len() == 0,
        s.observed is None ==> service::registered(s, None, now).rec.observed is None,
        service::registered(s, Some(e), now).ed_pub == s.ed_pub@,
        service::registered(s, Some(e), now).rec.registered_at == now,
        service::registered(s, Some(e), now).rec.mtu == s.mtu,
        service::registered(s, Some(e), now).rec.ipv8_capable == s.ipv8_capable,
{
}

/// Why an introduction is refused: where an address is none; where the one that
/// asks is not registered, or not any more; and where it does not prove its key.
pub proof fn refused_introductions(
    addr: Seq<char>,
    peer: Seq<char>,
    existing: Option<record::EntryView>,
    proof_ok: bool,
    now: u64,
)
    ensures
        ({
            let r = service::introduction(addr, peer, existing, proof_ok, now);
            let good = header::address_of_text(addr) is Ok && header::address_of_text(peer) is Ok;
            let there = existing matches Some(e) && !e.rec.expired(now);
            &&& !good ==> r == Err::<(IPv8Address, IPv8Address), service::ResolveError>(service::ResolveError::BadAddress)
            &&& good && !there ==> r == Err::<(IPv8Address, IPv8Address), service::ResolveError>(
                service::ResolveError::NotFound,
            )
            &&& good && there && !proof_ok ==> r == Err::<(IPv8Address, IPv8Address), service::ResolveError>(
                service::ResolveError::BadProof,
            )
            &&& good && there && proof_ok ==> r == Ok::<(IPv8Address, IPv8Address), service::ResolveError>(
                (header::address_of_text(addr)->Ok_0, header::address_of_text(peer)->Ok_0),
            )
        }),
{
}

/// What a node signs: to register, its address and key; to be introduced, its
/// address and that of the other; each after a domain of its own.
pub proof fn what_a_node_signs(addr: Seq<char>, peer: Seq<char>, key: Seq<u8>, msg: Seq<u8>, sig: Seq<u8>)
    ensures
        service::register_message(addr, key) == vstd::utf8::encode_utf8("ipv8plus-resolve"@) + vstd::utf8::encode_utf8(addr)
            + key,
        service::rendezvous_message(addr, peer) == vstd::utf8::encode_utf8("ipv8plus-rendezvous"@)
            + vstd::utf8::encode_utf8(addr) + vstd::utf8::encode_utf8(peer),
        service::proven(key, msg, sig) <==> sig.len() == 64 && crypto::signature_holds(key, msg, sig),
{
}

/// An entry ends when its time to live has passed since it was registered, and at
/// that very moment.
pub proof fn when_an_entry_ends(rec: record::RecordView, now: u64)
    requires
        rec.registered_at + rec.ttl <= u64::MAX,
    ensures
        rec.expired(now) <==> now >= rec.registered_at + rec.ttl,
{
}

/// Where a node was seen counts for 90 seconds, that moment included.
pub proof fn how_long_a_sighting_counts(rec: record::RecordView, now: u64)
    ensures
        rec.observed is None ==> rec.fresh(now) is None,
        rec.observed matches Some((a, t)) ==> if now - t <= 90_000 {
            rec.fresh(now) == Some(a)
        } else {
            rec.fresh(now) is None
        },
{
}

/// Of a report the texts stay in their order, without the characters that are not
/// visible.
pub proof fn reports_keep_their_order(list: Seq<Seq<char>>, t: Seq<char>, c: char)
    ensures
        service::visible_part(t.push(c)) == if '!' <= c && c <= '~' {
            service::visible_part(t).push(c)
        } else {
            service::visible_part(t)
        },
        service::visible_part(Seq::empty()).len() == 0,
        service::cleaned(list.push(t)) == if service::clean(t).len() == 0 {
            service::cleaned(list)
        } else {
            service::cleaned(list).push(service::clean(t))
        },
        service::cleaned(Seq::empty()).len() == 0,
        t.len() <= 64 ==> service::clean(t) == service::visible_part(t),
        t.len() > 64 ==> service::clean(t) == service::visible_part(t.subrange(0, 64)),
        list.len() <= 8 ==> service::sanitized(list) == service::cleaned(list),
        list.len() > 8 ==> service::sanitized(list) == service::cleaned(list.subrange(0, 8)),
{
    assert(t.push(c).drop_last() =~= t);
    assert(list.push(t).drop_last() =~= list);
}

/// What is kept of a record is what it holds.
pub proof fn record_holds(r: record::NodeRecord, e: record::Entry)
    ensures
        r@.tunnel_entry == r.tunnel_entry@,
        r@.alt_entries == r.alt_entries@,
        r@.ipv8_capable == r.ipv8_capable,
        r@.mtu == r.mtu,
        r@.registered_at == r.registered_at,
        r@.ttl == r.ttl,
        r@.local_candidates == r.local_candidates@,
        r@.observed is Some == r.observed is Some,
        r.observed matches Some((a, t)) ==> r@.observed == Some((a@, t)),
        e@.ed_pub == e.ed_pub@,
        e@.rec == e.rec@,
{
}

/// Why a registration is refused: the first reason is told, with the address where
/// another key holds it.
pub proof fn refused_registrations(
    addr: Seq<char>,
    key: Seq<u8>,
    existing: Option<record::EntryView>,
    key_ok: bool,
    proof_ok: bool,
    now: u64,
)
    ensures
        ({
            let r = service::registration(addr, key, existing, key_ok, proof_ok, now);
            let named = header::address_of_text(addr);
            let sized = key.len() == 32 && key_ok;
            let taken = existing matches Some(e) && e.ed_pub != key && !e.rec.expired(now);
            &&& named is Err ==> r == Err::<IPv8Address, service::ResolveError>(service::ResolveError::BadAddress)
            &&& named is Ok && !sized ==> r == Err::<IPv8Address, service::ResolveError>(service::ResolveError::BadProof)
            &&& named is Ok && sized && taken ==> r == Err::<IPv8Address, service::ResolveError>(
                service::ResolveError::KeyConflict { addr: named->Ok_0 },
            )
            &&& named is Ok && sized && !taken && r is Err ==> r == Err::<IPv8Address, service::ResolveError>(
                service::ResolveError::BadProof,
            ) && !proof_ok
            &&& r matches Ok(a) ==> named == Ok::<IPv8Address, header::AddrParseError>(a)
        }),
{
}

} // verus!
