//! Entries as bytes.
//!
//! Numbers are little-endian. In order: the key; the tunnel entry; the other
//! entries; whether the node speaks IPv8+; the packet size; when it was
//! registered, in seconds since the epoch; for how many seconds; where it was
//! seen and when; the addresses that it reports. A text has its length before
//! it, a list its number of texts.

use vstd::prelude::*;
use crate::codec::header::IPv8Address;
use crate::pop;
use crate::resolver::clock::TimeBase;
use crate::resolver::list;
use crate::resolver::list::TextList;
use crate::resolver::record;
use crate::resolver::record::{Entry, NodeRecord};
use crate::text;
use crate::wire;

verus! {

/// The text of bytes, with what is no UTF-8 replaced.
pub uninterp spec fn lossy_of(b: Seq<u8>) -> Seq<char>;

/// `String::from_utf8_lossy`: the text of bytes. Bytes that are UTF-8 are
/// taken as they are.
#[verifier::external_body]
fn lossy(b: &[u8]) -> (s: String)
    ensures
        s@ == lossy_of(b@),
        vstd::utf8::valid_utf8(b@) ==> s@ == vstd::utf8::decode_utf8(b@),
{
    String::from_utf8_lossy(b).into_owned()
}

/// A length as it is written: as many as fit in 16 bits.
pub open spec fn len_wire(n: nat) -> Seq<u8> {
    wire::le16((n % 0x10000) as u16)
}

/// A text as bytes.
pub open spec fn text_wire(t: Seq<char>) -> Seq<u8> {
    len_wire(pop::utf8(t).len()) + pop::utf8(t)
}

/// The first `n` texts of a list as bytes.
pub open spec fn list_wire(l: Seq<Seq<char>>, n: nat) -> Seq<u8>
    decreases n,
{
    if n == 0 {
        Seq::empty()
    } else {
        list_wire(l, (n - 1) as nat) + text_wire(l[n - 1])
    }
}

/// A list of texts as bytes.
pub open spec fn texts_wire(l: Seq<Seq<char>>) -> Seq<u8> {
    len_wire(l.len()) + list_wire(l, l.len())
}

/// Where and when a node was seen, as bytes.
pub open spec fn seen_wire(o: Option<(Seq<char>, u64)>, clock: TimeBase) -> Seq<u8> {
    match o {
        None => seq![0u8],
        Some((a, t)) => seq![1u8] + text_wire(a) + wire::le64(clock.day_secs(t)),
    }
}

/// An entry as bytes.
pub open spec fn entry_wire(e: record::EntryView, clock: TimeBase) -> Seq<u8> {
    e.ed_pub + text_wire(e.rec.tunnel_entry) + texts_wire(e.rec.alt_entries) + seq![
        if e.rec.ipv8_capable {
            1u8
        } else {
            0u8
        },
    ] + wire::le32(e.rec.mtu) + wire::le64(clock.day_secs(e.rec.registered_at)) + wire::le64(e.rec.ttl / 1000) + seen_wire(
        e.rec.observed,
        clock,
    ) + texts_wire(e.rec.local_candidates)
}

/// The text of bytes: as they are where they are UTF-8, else with what is none
/// replaced.
pub open spec fn text_of_bytes(b: Seq<u8>) -> Seq<char> {
    if vstd::utf8::valid_utf8(b) {
        vstd::utf8::decode_utf8(b)
    } else {
        lossy_of(b)
    }
}

/// The text at `p`, and where it ends.
pub open spec fn text_at(b: Seq<u8>, p: int) -> Option<(Seq<char>, int)> {
    if p + 2 > b.len() {
        None
    } else {
        let end = p + 2 + wire::le16_at(b, p);
        if end > b.len() {
            None
        } else {
            Some((text_of_bytes(b.subrange(p + 2, end)), end))
        }
    }
}

/// The `n` texts at `p`, and where they end.
pub open spec fn list_at(b: Seq<u8>, p: int, n: nat) -> Option<(Seq<Seq<char>>, int)>
    decreases n,
{
    if n == 0 {
        Some((Seq::empty(), p))
    } else {
        match list_at(b, p, (n - 1) as nat) {
            None => None,
            Some((l, q)) => match text_at(b, q) {
                None => None,
                Some((t, end)) => Some((l.push(t), end)),
            },
        }
    }
}

/// The list of texts at `p`, and where it ends.
pub open spec fn texts_at(b: Seq<u8>, p: int) -> Option<(Seq<Seq<char>>, int)> {
    if p + 2 > b.len() {
        None
    } else {
        list_at(b, p + 2, wire::le16_at(b, p) as nat)
    }
}

/// Where and when a node was seen, at `p`, and where that ends.
pub open spec fn seen_at(b: Seq<u8>, p: int, clock: TimeBase) -> Option<(Option<(Seq<char>, u64)>, int)> {
    if p + 1 > b.len() {
        None
    } else if b[p] == 0 {
        Some((None, p + 1))
    } else if b[p] == 1 {
        match text_at(b, p + 1) {
            None => None,
            Some((a, q)) => if q + 8 > b.len() {
                None
            } else {
                match clock.time_of_secs(wire::le64_at(b, q)) {
                    None => None,
                    Some(t) => Some((Some((a, t)), q + 8)),
                }
            },
        }
    } else {
        None
    }
}

/// How long an entry holds that begins at `at` and is to hold for `secs`
/// seconds: up to the end of the clock at most.
pub open spec fn lasting(at: u64, secs: u64) -> u64 {
    if at + secs * 1000 > u64::MAX {
        (u64::MAX - at) as u64
    } else {
        (secs * 1000) as u64
    }
}

/// How long an entry holds that begins at `at` and is to hold for `secs`
/// seconds.
fn last(at: u64, secs: u64) -> (ttl: u64)
    ensures
        ttl == lasting(at, secs),
{
    let room: u64 = u64::MAX - at;
    match secs.checked_mul(1000) {
        Some(d) => if d > room {
            room
        } else {
            d
        },
        None => room,
    }
}

/// The entry whose lists and numbers are at `p`.
pub open spec fn record_at(b: Seq<u8>, p: int, entry: Seq<char>, alts: Seq<Seq<char>>, clock: TimeBase) -> Option<record::RecordView> {
    if p + 21 > b.len() {
        None
    } else {
        match (clock.time_of_secs(wire::le64_at(b, p + 5)), seen_at(b, p + 21, clock)) {
            (Some(at), Some((observed, q))) => match texts_at(b, q) {
                Some((local, _)) => Some(
                    record::RecordView {
                        tunnel_entry: entry,
                        alt_entries: alts,
                        ipv8_capable: b[p] != 0,
                        mtu: wire::le32_at(b, p + 1),
                        registered_at: at,
                        ttl: lasting(at, wire::le64_at(b, p + 13)),
                        observed,
                        local_candidates: local,
                    },
                ),
                None => None,
            },
            _ => None,
        }
    }
}

/// The entry that bytes stand for, where they stand for one and its times are
/// not before the clock's first. Bytes after it are not looked at.
pub open spec fn entry_of(b: Seq<u8>, clock: TimeBase) -> Option<record::EntryView> {
    if b.len() < 32 {
        None
    } else {
        match text_at(b, 32) {
            None => None,
            Some((entry, q)) => match texts_at(b, q) {
                None => None,
                Some((alts, p)) => match record_at(b, p, entry, alts, clock) {
                    None => None,
                    Some(rec) => Some(record::EntryView { ed_pub: b.subrange(0, 32), rec }),
                },
            },
        }
    }
}

/// Writes a length.
fn put_len(out: &mut Vec<u8>, n: usize)
    ensures
        final(out)@ == old(out)@ + len_wire(n as nat),
{
    wire::put_le16(out, (n % 0x10000) as u16);
}

/// Writes a text.
fn put_text(out: &mut Vec<u8>, t: &str)
    ensures
        final(out)@ == old(out)@ + text_wire(t@),
{
    let b: &[u8] = t.as_bytes();
    put_len(out, b.len());
    wire::put_bytes(out, b);
    assert(out@ =~= old(out)@ + text_wire(t@));
}

/// Writes a list of texts.
fn put_texts(out: &mut Vec<u8>, l: &[String])
    ensures
        final(out)@ == old(out)@ + texts_wire(text::texts(l@)),
{
    let ghost v = text::texts(l@);
    put_len(out, l.len());
    let ghost start = out@;
    let mut i: usize = 0;
    assert(start + list_wire(v, 0) =~= start);
    while i < l.len()
        invariant
            i <= l.len(),
            v == text::texts(l@),
            out@ == start + list_wire(v, i as nat),
        decreases l.len() - i,
    {
        put_text(out, l[i].as_str());
        i = i + 1;
        assert(v[i - 1] == l@[i - 1]@);
        assert(out@ =~= start + list_wire(v, i as nat));
    }
    assert(out@ =~= old(out)@ + texts_wire(v));
}

/// Writes an entry.
pub fn encode_entry(e: &Entry, clock: &TimeBase) -> (b: Vec<u8>)
    ensures
        b@ == entry_wire(e@, *clock),
{
    let mut out: Vec<u8> = Vec::new();
    wire::put_bytes(&mut out, e.ed_pub.as_slice());
    put_text(&mut out, e.rec.tunnel_entry.as_str());
    put_texts(&mut out, list::as_slice(&e.rec.alt_entries));
    out.push(if e.rec.ipv8_capable {
        1
    } else {
        0
    });
    wire::put_le32(&mut out, e.rec.mtu);
    wire::put_le64(&mut out, clock.instant_to_system_secs(e.rec.registered_at));
    wire::put_le64(&mut out, e.rec.ttl / 1000);
    let ghost before = out@;
    match &e.rec.observed {
        None => {
            out.push(0);
        },
        Some((a, t)) => {
            out.push(1);
            put_text(&mut out, a.as_str());
            wire::put_le64(&mut out, clock.instant_to_system_secs(*t));
        },
    }
    assert(out@ =~= before + seen_wire(e@.rec.observed, *clock));
    put_texts(&mut out, list::as_slice(&e.rec.local_candidates));
    assert(out@ =~= entry_wire(e@, *clock));
    out
}

/// Reads the text at `p`.
fn read_text(b: &[u8], p: usize) -> (r: Option<(String, usize)>)
    requires
        p <= b.len(),
    ensures
        match r {
            Some((t, q)) => text_at(b@, p as int) == Some((t@, q as int)) && q <= b.len(),
            None => text_at(b@, p as int) is None,
        },
{
    if b.len() - p < 2 {
        return None;
    }
    let n: usize = wire::get_le16(b, p) as usize;
    if b.len() - p - 2 < n {
        return None;
    }
    let t = lossy(vstd::slice::slice_subrange(b, p + 2, p + 2 + n));
    Some((t, p + 2 + n))
}

/// Reads the list of texts at `p`.
fn read_texts(b: &[u8], p: usize) -> (r: Option<(Vec<String>, usize)>)
    requires
        p <= b.len(),
    ensures
        match r {
            Some((l, q)) => texts_at(b@, p as int) == Some((text::texts(l@), q as int)) && q <= b.len(),
            None => texts_at(b@, p as int) is None,
        },
{
    if b.len() - p < 2 {
        return None;
    }
    let n: u16 = wire::get_le16(b, p);
    let mut l: Vec<String> = Vec::new();
    let mut q: usize = p + 2;
    let mut i: u16 = 0;
    assert(text::texts(l@) =~= Seq::empty());
    while i < n
        invariant
            i <= n,
            n == wire::le16_at(b@, p as int),
            p + 2 <= b.len(),
            q <= b.len(),
            list_at(b@, p + 2, i as nat) == Some((text::texts(l@), q as int)),
        decreases n - i,
    {
        match read_text(b, q) {
            Some((t, end)) => {
                let ghost before = text::texts(l@);
                let ghost c = t@;
                l.push(t);
                assert(text::texts(l@) =~= before.push(c));
                q = end;
            },
            None => {
                proof {
                    list_ends(b@, p + 2, i as nat + 1, n as nat);
                }
                return None;
            },
        }
        i = i + 1;
    }
    Some((l, q))
}

/// A list that breaks off has no continuation.
proof fn list_ends(b: Seq<u8>, p: int, m: nat, n: nat)
    requires
        m <= n,
        list_at(b, p, m) is None,
    ensures
        list_at(b, p, n) is None,
    decreases n,
{
    if m < n {
        list_ends(b, p, m, (n - 1) as nat);
    }
}

/// Reads where and when a node was seen, at `p`.
fn read_seen(b: &[u8], p: usize, clock: &TimeBase) -> (r: Option<(Option<(String, u64)>, usize)>)
    requires
        p <= b.len(),
    ensures
        match r {
            Some((o, q)) => seen_at(b@, p as int, *clock) == Some((record::seen(o), q as int)) && q <= b.len(),
            None => seen_at(b@, p as int, *clock) is None,
        },
{
    if p == b.len() {
        return None;
    }
    if b[p] == 0 {
        return Some((None, p + 1));
    }
    if b[p] != 1 {
        return None;
    }
    match read_text(b, p + 1) {
        None => None,
        Some((a, q)) => {
            if b.len() - q < 8 {
                return None;
            }
            match clock.system_secs_to_instant(wire::get_le64(b, q)) {
                None => None,
                Some(t) => Some((Some((a, t)), q + 8)),
            }
        },
    }
}

/// Reads an entry.
pub fn decode_entry(b: &[u8], clock: &TimeBase) -> (r: Option<Entry>)
    ensures
        match r {
            Some(e) => entry_of(b@, *clock) == Some(e@),
            None => entry_of(b@, *clock) is None,
        },
{
    if b.len() < 32 {
        return None;
    }
    let ed_pub = wire::array32(b);
    let (tunnel_entry, q): (String, usize) = match read_text(b, 32) {
        Some(x) => x,
        None => {
            return None;
        },
    };
    let (alt_entries, p): (Vec<String>, usize) = match read_texts(b, q) {
        Some(x) => x,
        None => {
            return None;
        },
    };
    if b.len() - p < 21 {
        return None;
    }
    let ipv8_capable: bool = b[p] != 0;
    let mtu: u32 = wire::get_le32(b, p + 1);
    let at: Option<u64> = clock.system_secs_to_instant(wire::get_le64(b, p + 5));
    let ttl_secs: u64 = wire::get_le64(b, p + 13);
    let seen = read_seen(b, p + 21, clock);
    match (at, seen) {
        (Some(registered_at), Some((observed, s))) => match read_texts(b, s) {
            Some((local_candidates, _)) => {
                let e = Entry {
                    ed_pub,
                    rec: NodeRecord {
                        tunnel_entry,
                        alt_entries: TextList::new(alt_entries),
                        ipv8_capable,
                        mtu,
                        registered_at,
                        ttl: last(registered_at, ttl_secs),
                        observed,
                        local_candidates: TextList::new(local_candidates),
                    },
                };
                assert(e@.ed_pub =~= b@.subrange(0, 32));
                Some(e)
            },
            None => None,
        },
        _ => None,
    }
}

/// The numbers that the place of an address in a distributed table is taken
/// from: the first 32 bits with their halves exchanged, and the next 32.
pub fn table_key(addr: &IPv8Address) -> (r: (u32, u32))
    ensures
        r.0 == (addr.asn % 0x10000) * 0x10000 + addr.asn / 0x10000,
        r.1 == addr.host_id,
{
    ((addr.asn % 0x10000) * 0x10000 + addr.asn / 0x10000, addr.host_id)
}

/// Whether stored bytes can go: they are no entry, or one that has gone stale.
pub open spec fn dead(b: Seq<u8>, clock: TimeBase, now: u64) -> bool {
    match entry_of(b, clock) {
        Some(e) => e.rec.expired(now),
        None => true,
    }
}

/// Whether stored bytes can go.
pub fn is_dead(b: &[u8], clock: &TimeBase, now: u64) -> (r: bool)
    ensures
        r == dead(b@, *clock, now),
{
    match decode_entry(b, clock) {
        Some(e) => e.rec.is_expired(now),
        None => true,
    }
}

/// The keys under which bytes are stored that can go, in their order.
pub open spec fn dead_keys_of(items: Seq<(u64, Vec<u8>)>, clock: TimeBase, now: u64) -> Seq<u64>
    decreases items.len(),
{
    if items.len() == 0 {
        Seq::empty()
    } else if dead(items.last().1@, clock, now) {
        dead_keys_of(items.drop_last(), clock, now).push(items.last().0)
    } else {
        dead_keys_of(items.drop_last(), clock, now)
    }
}

/// The keys under which a node of a distributed table stores bytes that can go.
pub fn dead_keys(items: &Vec<(u64, Vec<u8>)>, clock: &TimeBase, now: u64) -> (r: Vec<u64>)
    ensures
        r@ == dead_keys_of(items@, *clock, now),
{
    let mut r: Vec<u64> = Vec::new();
    let mut i: usize = 0;
    while i < items.len()
        invariant
            i <= items.len(),
            r@ == dead_keys_of(items@.subrange(0, i as int), *clock, now),
        decreases items.len() - i,
    {
        assert(items@.subrange(0, i + 1).drop_last() =~= items@.subrange(0, i as int));
        if is_dead(items[i].1.as_slice(), clock, now) {
            r.push(items[i].0);
        }
        i = i + 1;
    }
    assert(items@.subrange(0, i as int) =~= items@);
    r
}

/// The keys of what can go, in their order: of bytes that are no entry, and of
/// entries whose time is over.
pub proof fn dead_keys_in_order(items: Seq<(u64, Vec<u8>)>, x: (u64, Vec<u8>), clock: TimeBase, now: u64)
    ensures
        dead_keys_of(items.push(x), clock, now) == if entry_of(x.1@, clock) is None || entry_of(
            x.1@,
            clock,
        )->0.rec.expired(now) {
            dead_keys_of(items, clock, now).push(x.0)
        } else {
            dead_keys_of(items, clock, now)
        },
        dead_keys_of(Seq::empty(), clock, now).len() == 0,
{
    assert(items.push(x).drop_last() =~= items);
}

} // verus!
