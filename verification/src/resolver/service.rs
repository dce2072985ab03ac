//! The resolver's answers.

use vstd::prelude::*;
use std::sync::Arc;
use crate::codec::header;
use crate::codec::header::IPv8Address;
use crate::crypto;
use crate::pop;
use crate::resolver::list;
use crate::resolver::list::TextList;
use crate::resolver::record;
use crate::resolver::record::{
    Entry, NodeRecord, DEFAULT_MTU, DEFAULT_TTL, MAX_CANDIDATE_LEN, MAX_LOCAL_CANDIDATES, MAX_TTL, OBSERVED_MAX_AGE,
};
use crate::resolver::sqlite;
use crate::resolver::sqlite::{SqliteStore, Write};
use crate::resolver::store;
use crate::resolver::store::{MemStore, Store};
use crate::text;
use crate::wire;

verus! {

/// Why the resolver refuses.
#[derive(Debug, Clone, PartialEq, Eq)]
pub enum ResolveError {
    /// The text is no address.
    BadAddress,
    /// Nothing is known of the address, or no longer.
    NotFound,
    /// The proof does not show that the key is held.
    BadProof,
    /// The address is another key's.
    KeyConflict { addr: IPv8Address },
}

/// The message that proves to hold a key for an address.
pub open spec fn register_message(addr: Seq<char>, key: Seq<u8>) -> Seq<u8> {
    pop::message(pop::RESOLVE_DOMAIN@, pop::utf8(addr), key)
}

/// The message that proves that a node asks for a rendezvous with a peer.
pub open spec fn rendezvous_message(addr: Seq<char>, peer: Seq<char>) -> Seq<u8> {
    pop::message(pop::RENDEZVOUS_DOMAIN@, pop::utf8(addr), pop::utf8(peer))
}

/// The message that proves to hold a key for an address.
pub fn register_pop_message(addr_text: &str, ed_pub: &[u8]) -> (m: Vec<u8>)
    ensures
        m@ == register_message(addr_text@, ed_pub@),
{
    pop::join(pop::RESOLVE_DOMAIN, addr_text.as_bytes(), ed_pub)
}

/// The message that proves that a node asks for a rendezvous with a peer.
pub fn rendezvous_pop_message(addr_text: &str, peer_text: &str) -> (m: Vec<u8>)
    ensures
        m@ == rendezvous_message(addr_text@, peer_text@),
{
    pop::join(pop::RENDEZVOUS_DOMAIN, addr_text.as_bytes(), peer_text.as_bytes())
}

/// Where a node can be reached, and for how long that holds.
#[derive(Debug, Clone, PartialEq, Eq)]
pub struct Resolved {
    pub tunnel_entry: String,
    pub alt_entries: TextList,
    pub ipv8_capable: bool,
    pub mtu: u32,
    pub ttl: u64,
}

/// Whether an answer is what a record says.
pub open spec fn answers(r: Resolved, rec: record::RecordView) -> bool {
    &&& r.tunnel_entry@ == rec.tunnel_entry
    &&& r.alt_entries@ == rec.alt_entries
    &&& r.ipv8_capable == rec.ipv8_capable
    &&& r.mtu == if rec.mtu == 0 {
        DEFAULT_MTU
    } else {
        rec.mtu
    }
    &&& r.ttl == rec.ttl
}

/// What a rendezvous gives.
#[derive(Debug, Clone, PartialEq, Eq)]
pub struct RendezvousOutcome {
    /// Where to try to reach the peer, best first.
    pub peer_candidates: Vec<String>,
    /// Where the asking node was seen.
    pub self_observed: Option<String>,
    /// How long the candidates are good for.
    pub ttl: u64,
}

/// What a node registers.
#[derive(Debug, Clone)]
pub struct RegisterSpec<'a> {
    pub addr_text: &'a str,
    pub ed_pub: &'a [u8],
    /// The signature of [`register_pop_message`], for a new key.
    pub proof: &'a [u8],
    pub tunnel_entry: &'a str,
    pub alt_entries: Vec<String>,
    pub ipv8_capable: bool,
    pub mtu: u32,
    /// For how many seconds; 0 for the usual time.
    pub ttl_secs: u64,
    /// Where the node was seen, if it could be.
    pub observed: Option<&'a str>,
}

/// What a registration gives: for how long it holds, and where the node was
/// seen.
#[derive(Debug, Clone, PartialEq, Eq)]
pub struct RegisterOutcome {
    pub ttl: u64,
    pub observed: Option<String>,
}

/// A text, if there is one, as a mathematical value.
pub open spec fn maybe(t: Option<String>) -> Option<Seq<char>> {
    match t {
        Some(s) => Some(s@),
        None => None,
    }
}

/// A text, if there is one, as a mathematical value.
pub open spec fn maybe_str(t: Option<&str>) -> Option<Seq<char>> {
    match t {
        Some(s) => Some(s@),
        None => None,
    }
}

/// For how long an entry holds that is asked for `secs` seconds.
pub open spec fn granted_ttl(secs: u64) -> u64 {
    if secs == 0 {
        DEFAULT_TTL
    } else if secs > 86400 {
        MAX_TTL
    } else {
        (secs * 1000) as u64
    }
}

/// Whether an address and a key are let in, given the entry that there is,
/// whether the key is one and the proof holds.
pub open spec fn registration(
    addr: Seq<char>,
    key: Seq<u8>,
    existing: Option<record::EntryView>,
    key_ok: bool,
    proof_ok: bool,
    now: u64,
) -> Result<IPv8Address, ResolveError> {
    match header::address_of_text(addr) {
        Err(_) => Err(ResolveError::BadAddress),
        Ok(a) => if key.len() != 32 || !key_ok {
            Err(ResolveError::BadProof)
        } else {
            match existing {
                Some(e) => if e.ed_pub == key {
                    Ok(a)
                } else if !e.rec.expired(now) {
                    Err(ResolveError::KeyConflict { addr: a })
                } else if !proof_ok {
                    Err(ResolveError::BadProof)
                } else {
                    Ok(a)
                },
                None => if !proof_ok {
                    Err(ResolveError::BadProof)
                } else {
                    Ok(a)
                },
            }
        },
    }
}

/// The entry that a registration leaves. Where the node was not seen, the same
/// key keeps what was seen of it before.
pub open spec fn registered(s: RegisterSpec, existing: Option<record::EntryView>, now: u64) -> record::EntryView {
    let kept = match (s.observed, existing) {
        (Some(o), _) => (Some((o@, now)), Seq::<Seq<char>>::empty()),
        (None, Some(e)) => if e.ed_pub == s.ed_pub@ {
            (e.rec.observed, e.rec.local_candidates)
        } else {
            (None::<(Seq<char>, u64)>, Seq::<Seq<char>>::empty())
        },
        (None, None) => (None::<(Seq<char>, u64)>, Seq::<Seq<char>>::empty()),
    };
    record::EntryView {
        ed_pub: s.ed_pub@,
        rec: record::RecordView {
            tunnel_entry: s.tunnel_entry@,
            alt_entries: text::texts(s.alt_entries@),
            ipv8_capable: s.ipv8_capable,
            mtu: s.mtu,
            registered_at: now,
            ttl: granted_ttl(s.ttl_secs),
            observed: kept.0,
            local_candidates: kept.1,
        },
    }
}

/// The entry of an address, if there is one.
pub open spec fn at(m: Map<IPv8Address, record::EntryView>, a: IPv8Address) -> Option<record::EntryView> {
    if m.contains_key(a) {
        Some(m[a])
    } else {
        None
    }
}

/// The entry of the address that a text names, if there is one.
pub open spec fn named(m: Map<IPv8Address, record::EntryView>, addr: Seq<char>) -> Option<record::EntryView> {
    match header::address_of_text(addr) {
        Ok(a) => at(m, a),
        Err(_) => None,
    }
}

/// Whether a character is visible ASCII.
pub open spec fn visible(c: char) -> bool {
    '!' <= c <= '~'
}

/// The visible ASCII of a text.
pub open spec fn visible_part(t: Seq<char>) -> Seq<char>
    decreases t.len(),
{
    if t.len() == 0 {
        Seq::empty()
    } else if visible(t.last()) {
        visible_part(t.drop_last()).push(t.last())
    } else {
        visible_part(t.drop_last())
    }
}

/// The beginning of a list, or all of it.
pub open spec fn front<A>(s: Seq<A>, n: int) -> Seq<A> {
    if s.len() <= n {
        s
    } else {
        s.subrange(0, n)
    }
}

/// What is kept of an address that a node reports.
pub open spec fn clean(t: Seq<char>) -> Seq<char> {
    visible_part(front(t, MAX_CANDIDATE_LEN as int))
}

/// What is kept of the addresses that a node reports, one after the other.
pub open spec fn cleaned(list: Seq<Seq<char>>) -> Seq<Seq<char>>
    decreases list.len(),
{
    if list.len() == 0 {
        Seq::empty()
    } else if clean(list.last()).len() == 0 {
        cleaned(list.drop_last())
    } else {
        cleaned(list.drop_last()).push(clean(list.last()))
    }
}

/// What is kept of the addresses that a node reports.
pub open spec fn sanitized(list: Seq<Seq<char>>) -> Seq<Seq<char>> {
    cleaned(front(list, MAX_LOCAL_CANDIDATES as int))
}

/// Where the last colon of a text stands, before `n`; -1 where there is none.
pub open spec fn last_colon(t: Seq<char>, n: int) -> int
    decreases n,
{
    if n <= 0 {
        -1
    } else if t[n - 1] == ':' {
        n - 1
    } else {
        last_colon(t, n - 1)
    }
}

/// The host that a node was seen at with the port of its entry.
pub open spec fn combined(seen: Seq<char>, entry: Seq<char>) -> Option<Seq<char>> {
    let i = last_colon(seen, seen.len() as int);
    let j = last_colon(entry, entry.len() as int);
    if i < 0 || j < 0 || j + 1 == entry.len() {
        None
    } else {
        Some(seen.subrange(0, i) + seq![':'] + entry.subrange(j + 1, entry.len() as int))
    }
}

/// A list with a text more, unless it has it already.
pub open spec fn with_text(list: Seq<Seq<char>>, t: Seq<char>) -> Seq<Seq<char>> {
    if list.contains(t) {
        list
    } else {
        list.push(t)
    }
}

/// A list with the first `n` of some texts more, as long as it is not full.
pub open spec fn with_texts(list: Seq<Seq<char>>, more: Seq<Seq<char>>, n: int) -> Seq<Seq<char>>
    decreases n,
{
    if n <= 0 {
        list
    } else {
        let l = with_texts(list, more, n - 1);
        if l.len() > 1 + MAX_LOCAL_CANDIDATES {
            l
        } else {
            with_text(l, more[n - 1])
        }
    }
}

/// Where to try a node first: where it was seen.
pub open spec fn seen_candidates(rec: record::RecordView, now: u64) -> Seq<Seq<char>> {
    match rec.fresh(now) {
        Some(o) => match combined(o, rec.tunnel_entry) {
            Some(c) => with_text(seq![c], o),
            None => seq![o],
        },
        None => Seq::empty(),
    }
}

/// Where to try a node.
pub open spec fn candidates(rec: record::RecordView, now: u64) -> Seq<Seq<char>> {
    with_texts(seen_candidates(rec, now), rec.local_candidates, rec.local_candidates.len() as int)
}

/// The record of a node that asks for a rendezvous.
pub open spec fn reported(rec: record::RecordView, local: Seq<Seq<char>>, observed: Option<Seq<char>>, now: u64) -> record::RecordView {
    record::RecordView {
        observed: match observed {
            Some(o) => Some((o, now)),
            None => rec.observed,
        },
        local_candidates: sanitized(local),
        ..rec
    }
}

/// Whether a node may ask for a rendezvous, and what its address is, given the
/// entry that there is and whether the proof holds.
pub open spec fn introduction(
    addr: Seq<char>,
    peer: Seq<char>,
    existing: Option<record::EntryView>,
    proof_ok: bool,
    now: u64,
) -> Result<(IPv8Address, IPv8Address), ResolveError> {
    match (header::address_of_text(addr), header::address_of_text(peer)) {
        (Ok(a), Ok(p)) => match existing {
            None => Err(ResolveError::NotFound),
            Some(e) => if e.rec.expired(now) {
                Err(ResolveError::NotFound)
            } else if !proof_ok {
                Err(ResolveError::BadProof)
            } else {
                Ok((a, p))
            },
        },
        _ => Err(ResolveError::BadAddress),
    }
}

/// Where the last colon of a text stands.
fn find_colon(t: &Vec<char>) -> (r: Option<usize>)
    ensures
        match r {
            Some(i) => i < t.len() && last_colon(t@, t@.len() as int) == i,
            None => last_colon(t@, t@.len() as int) == -1,
        },
{
    let mut n: usize = t.len();
    while n > 0
        invariant
            n <= t.len(),
            last_colon(t@, t@.len() as int) == last_colon(t@, n as int),
        decreases n,
    {
        if t[n - 1] == ':' {
            return Some(n - 1);
        }
        n = n - 1;
    }
    None
}

/// The host that a node was seen at with the port of its entry.
pub fn combine(seen: &str, entry: &str) -> (r: Option<String>)
    ensures
        maybe(r) == combined(seen@, entry@),
{
    let s = text::chars_of(seen);
    let e = text::chars_of(entry);
    match (find_colon(&s), find_colon(&e)) {
        (Some(i), Some(j)) => {
            if j + 1 == e.len() {
                return None;
            }
            let mut c = text::text_of(&s, 0, i);
            c.push(':');
            let port = text::text_of(&e, j + 1, e.len());
            append(&mut c, port.as_str());
            assert(c@ =~= seen@.subrange(0, i as int) + seq![':'] + entry@.subrange(j + 1, entry@.len() as int));
            Some(c)
        },
        _ => None,
    }
}

/// Appends a text.
fn append(s: &mut String, t: &str)
    ensures
        final(s)@ == old(s)@ + t@,
{
    let v = text::chars_of(t);
    let mut i: usize = 0;
    while i < v.len()
        invariant
            i <= v.len(),
            s@ == old(s)@ + v@.subrange(0, i as int),
        decreases v.len() - i,
    {
        s.push(v[i]);
        i = i + 1;
        assert(s@ =~= old(s)@ + v@.subrange(0, i as int));
    }
    assert(v@.subrange(0, i as int) =~= v@);
}

/// What is kept of an address that a node reports.
fn clean_text(t: &str) -> (s: String)
    ensures
        s@ == clean(t@),
{
    let v = text::chars_of(t);
    let n: usize = if v.len() <= MAX_CANDIDATE_LEN {
        v.len()
    } else {
        MAX_CANDIDATE_LEN
    };
    let mut s = String::new();
    let mut i: usize = 0;
    assert(v@.subrange(0, 0) =~= Seq::empty());
    while i < n
        invariant
            i <= n <= v.len(),
            s@ == visible_part(v@.subrange(0, i as int)),
        decreases n - i,
    {
        let c = v[i];
        assert(v@.subrange(0, i + 1).drop_last() =~= v@.subrange(0, i as int));
        if '!' <= c && c <= '~' {
            s.push(c);
        }
        i = i + 1;
    }
    assert(v@.subrange(0, n as int) =~= front(t@, MAX_CANDIDATE_LEN as int));
    s
}

/// What is kept of the addresses that a node reports.
pub fn sanitize_candidates(list: &[String]) -> (r: TextList)
    ensures
        r@ == sanitized(text::texts(list@)),
{
    let n: usize = if list.len() <= MAX_LOCAL_CANDIDATES {
        list.len()
    } else {
        MAX_LOCAL_CANDIDATES
    };
    let ghost all = text::texts(list@);
    let mut r: Vec<String> = Vec::new();
    let mut i: usize = 0;
    assert(all.subrange(0, 0) =~= Seq::empty());
    assert(text::texts(r@) =~= Seq::empty());
    while i < n
        invariant
            i <= n <= list.len(),
            all == text::texts(list@),
            text::texts(r@) == cleaned(all.subrange(0, i as int)),
        decreases n - i,
    {
        let ghost before = text::texts(r@);
        let t = clean_text(list[i].as_str());
        assert(all.subrange(0, i + 1).drop_last() =~= all.subrange(0, i as int));
        assert(all.subrange(0, i + 1).last() == list@[i as int]@);
        if !t.as_str().is_empty() {
            let ghost c = t@;
            r.push(t);
            assert(text::texts(r@) =~= before.push(c));
        }
        i = i + 1;
    }
    assert(all.subrange(0, n as int) =~= front(all, MAX_LOCAL_CANDIDATES as int));
    TextList::new(r)
}

/// Adds a text to a list, unless it has it already.
fn push_text(list: &mut Vec<String>, t: &str)
    ensures
        text::texts(final(list)@) == with_text(text::texts(old(list)@), t@),
{
    if !text::has_text(list, t) {
        let ghost before = text::texts(list@);
        list.push(t.to_owned());
        assert(text::texts(list@) =~= before.push(t@));
    }
}

/// Where to try a node.
pub fn peer_candidates(rec: &NodeRecord, now: u64) -> (r: Vec<String>)
    ensures
        text::texts(r@) == candidates(rec@, now),
{
    let mut r: Vec<String> = Vec::new();
    assert(text::texts(r@) =~= Seq::empty());
    match rec.fresh_observed(now) {
        Some(o) => match combine(o, rec.tunnel_entry.as_str()) {
            Some(c) => {
                let ghost t = c@;
                r.push(c);
                assert(text::texts(r@) =~= seq![t]);
                push_text(&mut r, o);
            },
            None => {
                r.push(o.to_owned());
                assert(text::texts(r@) =~= seq![o@]);
            },
        },
        None => {},
    }
    let ghost first = text::texts(r@);
    let ghost more = rec.local_candidates@;
    let local: &[String] = list::as_slice(&rec.local_candidates);
    let mut i: usize = 0;
    while i < local.len()
        invariant
            i <= local.len(),
            more == text::texts(local@),
            text::texts(r@) == with_texts(first, more, i as int),
        decreases local.len() - i,
    {
        if r.len() > 1 + MAX_LOCAL_CANDIDATES {
            assert(text::texts(r@).len() == r@.len());
        } else {
            assert(text::texts(r@).len() == r@.len());
            assert(more[i as int] == local@[i as int]@);
            push_text(&mut r, local[i].as_str());
        }
        i = i + 1;
    }
    r
}

/// For how long an entry holds that is asked for `secs` seconds.
pub fn grant_ttl(secs: u64) -> (ttl: u64)
    ensures
        ttl == granted_ttl(secs),
{
    if secs == 0 {
        DEFAULT_TTL
    } else if secs > 86400 {
        MAX_TTL
    } else {
        secs * 1000
    }
}

/// Whether a signature holds, of the length that it must have.
pub open spec fn proven(key: Seq<u8>, msg: Seq<u8>, sig: Seq<u8>) -> bool {
    sig.len() == 64 && crypto::signature_holds(key, msg, sig)
}

/// Whether a signature holds, of the length that it must have.
fn check_proof(key: &[u8; 32], msg: &[u8], sig: &[u8]) -> (r: bool)
    ensures
        r == proven(key@, msg@, sig@),
{
    if sig.len() != 64 {
        return false;
    }
    let s = wire::array64(sig);
    assert(s@ =~= sig@);
    crypto::verify(key, msg, &s)
}

/// An entry, if there is one, as a mathematical value.
pub open spec fn maybe_entry(e: Option<Arc<Entry>>) -> Option<record::EntryView> {
    match e {
        Some(e) => Some(e@),
        None => None,
    }
}

/// Whether an address and a key are let in, given the entry that there is,
/// whether the key is one and the proof holds.
pub fn check_registration(
    addr_text: &str,
    ed_pub: &[u8],
    existing: &Option<Arc<Entry>>,
    key_ok: bool,
    proof_ok: bool,
    now: u64,
) -> (r: Result<IPv8Address, ResolveError>)
    ensures
        r == registration(addr_text@, ed_pub@, maybe_entry(*existing), key_ok, proof_ok, now),
{
    let addr = match IPv8Address::from_canonical_str(addr_text) {
        Ok(a) => a,
        Err(_) => {
            return Err(ResolveError::BadAddress);
        },
    };
    if ed_pub.len() != 32 || !key_ok {
        return Err(ResolveError::BadProof);
    }
    match existing {
        Some(e) => if wire::same_bytes(e.ed_pub.as_slice(), ed_pub) {
            Ok(addr)
        } else if !e.rec.is_expired(now) {
            Err(ResolveError::KeyConflict { addr })
        } else if !proof_ok {
            Err(ResolveError::BadProof)
        } else {
            Ok(addr)
        },
        None => if !proof_ok {
            Err(ResolveError::BadProof)
        } else {
            Ok(addr)
        },
    }
}

/// The entry that a registration leaves.
fn new_entry(spec: &RegisterSpec<'_>, existing: &Option<Arc<Entry>>, now: u64) -> (e: Entry)
    requires
        spec.ed_pub@.len() == 32,
    ensures
        e@ == registered(*spec, maybe_entry(*existing), now),
{
    let (observed, local_candidates): (Option<(String, u64)>, TextList) = match spec.observed {
        Some(o) => (Some((o.to_owned(), now)), TextList::new(Vec::new())),
        None => match existing {
            Some(e) => if wire::same_bytes(e.ed_pub.as_slice(), spec.ed_pub) {
                (record::copy_seen(&e.rec.observed), e.rec.local_candidates.clone())
            } else {
                (None, TextList::new(Vec::new()))
            },
            None => (None, TextList::new(Vec::new())),
        },
    };
    let ed_pub = wire::array32(spec.ed_pub);
    let e = Entry {
        ed_pub,
        rec: NodeRecord {
            tunnel_entry: spec.tunnel_entry.to_owned(),
            alt_entries: TextList::new(text::copy_texts(&spec.alt_entries)),
            ipv8_capable: spec.ipv8_capable,
            mtu: spec.mtu,
            registered_at: now,
            ttl: grant_ttl(spec.ttl_secs),
            observed,
            local_candidates,
        },
    };
    proof {
        let v = registered(*spec, maybe_entry(*existing), now);
        assert(e@.ed_pub =~= v.ed_pub);
        assert(e@.rec.local_candidates =~= v.rec.local_candidates);
    }
    e
}

/// The resolver.
pub struct ResolverService<S: Store> {
    store: S,
}

impl Default for ResolverService<MemStore> {
    fn default() -> (s: Self)
        ensures
            s.wf(),
            s.contents() == Map::<IPv8Address, record::EntryView>::empty(),
    {
        Self::new()
    }
}

impl ResolverService<MemStore> {
    /// A resolver that keeps its entries in memory.
    pub fn new() -> (s: Self)
        ensures
            s.wf(),
            s.contents() == Map::<IPv8Address, record::EntryView>::empty(),
    {
        ResolverService { store: MemStore::default() }
    }
}

/// What a registration gives and changes.
pub open spec fn registers(
    m: Map<IPv8Address, record::EntryView>,
    spec: RegisterSpec<'_>,
    now: u64,
    r: Result<RegisterOutcome, ResolveError>,
    n: Map<IPv8Address, record::EntryView>,
) -> bool {
    let existing = named(m, spec.addr_text@);
    let d = registration(
        spec.addr_text@,
        spec.ed_pub@,
        existing,
        crypto::is_public_key(spec.ed_pub@),
        proven(spec.ed_pub@, register_message(spec.addr_text@, spec.ed_pub@), spec.proof@),
        now,
    );
    let e = registered(spec, existing, now);
    match r {
        Ok(o) => {
            &&& d is Ok
            &&& n == m.insert(d->Ok_0, e)
            &&& o.ttl == e.rec.ttl
            &&& maybe(o.observed) == match e.rec.observed {
                Some((a, _)) => Some(a),
                None => None,
            }
        },
        Err(x) => d == Err::<IPv8Address, ResolveError>(x) && n == m,
    }
}

/// What a question for an address gives.
pub open spec fn resolves(
    m: Map<IPv8Address, record::EntryView>,
    target: Seq<char>,
    now: u64,
    r: Result<Resolved, ResolveError>,
) -> bool {
    match r {
        Ok(x) => {
            let e = named(m, target);
            e is Some && !e->0.rec.expired(now) && answers(x, e->0.rec)
        },
        Err(ResolveError::BadAddress) => header::address_of_text(target) is Err,
        Err(x) => x == ResolveError::NotFound && header::address_of_text(target) is Ok && match named(
            m,
            target,
        ) {
            Some(e) => e.rec.expired(now),
            None => true,
        },
    }
}

/// What asking to meet a peer gives and changes.
pub open spec fn introduces(
    m: Map<IPv8Address, record::EntryView>,
    addr: Seq<char>,
    peer_addr: Seq<char>,
    proof_bytes: Seq<u8>,
    local: Seq<Seq<char>>,
    seen: Option<Seq<char>>,
    now: u64,
    r: Result<RendezvousOutcome, ResolveError>,
    n: Map<IPv8Address, record::EntryView>,
) -> bool {
    let me = named(m, addr);
    let d = introduction(
        addr,
        peer_addr,
        me,
        proven(me->0.ed_pub, rendezvous_message(addr, peer_addr), proof_bytes),
        now,
    );
    let noted = m.insert(
        d->Ok_0.0,
        record::EntryView {
            rec: reported(me->0.rec, local, seen, now),
            ..me->0
        },
    );
    let peer = at(noted, d->Ok_0.1);
    match r {
        Ok(o) => {
            &&& d is Ok
            &&& n == noted
            &&& peer is Some && !peer->0.rec.expired(now)
            &&& text::texts(o.peer_candidates@) == candidates(peer->0.rec, now)
            &&& maybe(o.self_observed) == seen
            &&& o.ttl == OBSERVED_MAX_AGE
        },
        Err(x) => if d is Ok {
            &&& n == noted
            &&& x == ResolveError::NotFound
            &&& peer is None || peer->0.rec.expired(now)
        } else {
            d == Err::<(IPv8Address, IPv8Address), ResolveError>(x) && n == m
        },
    }
}

impl<S: Store> ResolverService<S> {
    /// Whether the store is in order, as every function here leaves it.
    pub closed spec fn wf(&self) -> bool {
        self.store.wf()
    }

    /// What is known of which address.
    pub closed spec fn contents(&self) -> Map<IPv8Address, record::EntryView> {
        self.store.contents()
    }

    /// The store.
    pub closed spec fn kept_in(&self) -> S {
        self.store
    }

    /// A resolver that keeps its entries in a given store.
    pub fn with_store(store: S) -> (s: Self)
        requires
            store.wf(),
        ensures
            s.wf(),
            s.contents() == store.contents(),
            s.kept_in() == store,
    {
        ResolverService { store }
    }

    /// Registers where a node can be reached. A new key must prove to be held;
    /// the key that the address has already need not. Another key is refused
    /// as long as the entry holds.
    pub fn register(&mut self, spec: &RegisterSpec<'_>, now: u64) -> (r: Result<RegisterOutcome, ResolveError>)
        requires
            old(self).wf(),
        ensures
            final(self).wf(),
            registers(old(self).contents(), *spec, now, r, final(self).contents()),
    {
        let addr = match IPv8Address::from_canonical_str(spec.addr_text) {
            Ok(a) => a,
            Err(_) => {
                return Err(ResolveError::BadAddress);
            },
        };
        let existing = self.store.get(&addr, now);
        let (key_ok, proof_ok): (bool, bool) = if spec.ed_pub.len() == 32 {
            let k = wire::array32(spec.ed_pub);
            assert(k@ =~= spec.ed_pub@);
            let m = register_pop_message(spec.addr_text, spec.ed_pub);
            (crypto::valid_key(&k), check_proof(&k, m.as_slice(), spec.proof))
        } else {
            (false, false)
        };
        match check_registration(spec.addr_text, spec.ed_pub, &existing, key_ok, proof_ok, now) {
            Ok(_) => {},
            Err(e) => {
                return Err(e);
            },
        }
        let e = new_entry(spec, &existing, now);
        let ttl: u64 = e.rec.ttl;
        let observed: Option<String> = match &e.rec.observed {
            Some((a, _)) => Some(a.clone()),
            None => None,
        };
        self.store.insert(addr, e);
        Ok(RegisterOutcome { ttl, observed })
    }

    /// Where a node can be reached. An address that was never registered and
    /// one whose entry has gone stale get the same answer.
    pub fn resolve(&mut self, target_text: &str, now: u64) -> (r: Result<Resolved, ResolveError>)
        requires
            old(self).wf(),
        ensures
            final(self).wf(),
            final(self).contents() == old(self).contents(),
            resolves(old(self).contents(), target_text@, now, r),
    {
        let addr = match IPv8Address::from_canonical_str(target_text) {
            Ok(a) => a,
            Err(_) => {
                return Err(ResolveError::BadAddress);
            },
        };
        let e = match self.store.get(&addr, now) {
            Some(e) => e,
            None => {
                return Err(ResolveError::NotFound);
            },
        };
        if e.rec.is_expired(now) {
            return Err(ResolveError::NotFound);
        }
        Ok(
            Resolved {
                tunnel_entry: e.rec.tunnel_entry.clone(),
                alt_entries: e.rec.alt_entries.clone(),
                ipv8_capable: e.rec.ipv8_capable,
                mtu: if e.rec.mtu == 0 {
                    DEFAULT_MTU
                } else {
                    e.rec.mtu
                },
                ttl: e.rec.ttl,
            },
        )
    }

    /// Takes out what has gone stale; gives the number that the store counts.
    pub fn sweep_expired(&mut self, now: u64) -> (n: usize)
        requires
            old(self).wf(),
        ensures
            final(self).wf(),
            final(self).contents() == store::live(old(self).contents(), now),
            n == old(self).kept_in().swept(now),
    {
        self.store.sweep_expired(now)
    }

    /// Notes where a node is that asks to meet a peer, and tells it where to
    /// try the peer.
    pub fn rendezvous(
        &mut self,
        addr_text: &str,
        peer_text: &str,
        proof: &[u8],
        local_candidates: &[String],
        observed: Option<&str>,
        now: u64,
    ) -> (r: Result<RendezvousOutcome, ResolveError>)
        requires
            old(self).wf(),
        ensures
            final(self).wf(),
            introduces(
                old(self).contents(),
                addr_text@,
                peer_text@,
                proof@,
                text::texts(local_candidates@),
                maybe_str(observed),
                now,
                r,
                final(self).contents(),
            ),
    {
        let addr = match IPv8Address::from_canonical_str(addr_text) {
            Ok(a) => a,
            Err(_) => {
                return Err(ResolveError::BadAddress);
            },
        };
        let peer = match IPv8Address::from_canonical_str(peer_text) {
            Ok(a) => a,
            Err(_) => {
                return Err(ResolveError::BadAddress);
            },
        };
        let me = match self.store.get(&addr, now) {
            Some(e) => e,
            None => {
                return Err(ResolveError::NotFound);
            },
        };
        if me.rec.is_expired(now) {
            return Err(ResolveError::NotFound);
        }
        let m = rendezvous_pop_message(addr_text, peer_text);
        if !check_proof(&me.ed_pub, m.as_slice(), proof) {
            return Err(ResolveError::BadProof);
        }
        let mut rec = me.rec.copy();
        match observed {
            Some(o) => {
                rec.observed = Some((o.to_owned(), now));
            },
            None => {},
        }
        rec.local_candidates = sanitize_candidates(local_candidates);
        let ghost noted = record::EntryView {
            rec: reported(me@.rec, text::texts(local_candidates@), maybe_str(observed), now),
            ..me@
        };
        let e = Entry { ed_pub: me.ed_pub, rec };
        assert(e@ == noted);
        self.store.insert(addr, e);
        let pe = match self.store.get(&peer, now) {
            Some(e) => e,
            None => {
                return Err(ResolveError::NotFound);
            },
        };
        if pe.rec.is_expired(now) {
            return Err(ResolveError::NotFound);
        }
        let c = peer_candidates(&pe.rec, now);
        let self_observed: Option<String> = match observed {
            Some(o) => Some(o.to_owned()),
            None => None,
        };
        Ok(RendezvousOutcome { peer_candidates: c, self_observed, ttl: OBSERVED_MAX_AGE })
    }

    /// How many entries there are.
    pub fn len(&self) -> (n: usize)
        requires
            self.wf(),
        ensures
            n == self.contents().len(),
    {
        self.store.len()
    }

    /// Whether there are none.
    pub fn is_empty(&self) -> (r: bool)
        requires
            self.wf(),
        ensures
            r == (self.contents().len() == 0),
    {
        self.store.len() == 0
    }
}

impl ResolverService<SqliteStore> {
    /// Takes the writes that are to be made in the table.
    pub fn take_writes(&mut self) -> (w: Vec<Write>)
        requires
            old(self).wf(),
        ensures
            final(self).wf(),
            final(self).contents() == old(self).contents(),
            final(self).kept_in().log().len() == 0,
            final(self).kept_in().start() == old(self).contents(),
            final(self).kept_in().clocks() == old(self).kept_in().clocks(),
            sqlite::are_writes(
                w@,
                sqlite::writable(old(self).kept_in().log(), old(self).kept_in().clocks()),
                old(self).kept_in().clocks(),
            ),
    {
        self.store.take_writes()
    }
}

} // verus!
