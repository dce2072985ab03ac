//! What holds of entries as bytes.

use vstd::prelude::*;
use crate::pop;
use crate::resolver::clock::TimeBase;
use crate::resolver::entry;
use crate::resolver::record;
use crate::wire;

verus! {

/// Whether a text is short enough for its length to be written.
pub open spec fn fits(t: Seq<char>) -> bool {
    pop::utf8(t).len() <= 0xffff
}

/// Whether a list and its texts are short enough for their lengths to be
/// written.
pub open spec fn all_fit(l: Seq<Seq<char>>) -> bool {
    l.len() <= 0xffff && forall|i: int| 0 <= i < l.len() ==> fits(#[trigger] l[i])
}

/// Whether the second of a time can be written and read back.
pub open spec fn on_clock(t: u64, clock: TimeBase) -> bool {
    &&& clock.instant <= clock.system + t
    &&& clock.system + t - clock.instant <= u64::MAX
    &&& (clock.system + t - clock.instant) % 1000 <= t
}

/// The start of the second of a time.
pub open spec fn whole_second(t: u64, clock: TimeBase) -> u64 {
    (t - (clock.system + t - clock.instant) % 1000) as u64
}

/// Whether all parts of an entry can be written and read back.
pub open spec fn writable(e: record::EntryView, clock: TimeBase) -> bool {
    &&& e.ed_pub.len() == 32
    &&& fits(e.rec.tunnel_entry)
    &&& all_fit(e.rec.alt_entries)
    &&& all_fit(e.rec.local_candidates)
    &&& on_clock(e.rec.registered_at, clock)
    &&& e.rec.observed matches Some((a, t)) ==> fits(a) && on_clock(t, clock)
}

/// An entry with its times cut to whole seconds, and to the end of the clock.
pub open spec fn in_seconds(e: record::EntryView, clock: TimeBase) -> record::EntryView {
    record::EntryView {
        rec: record::RecordView {
            registered_at: whole_second(e.rec.registered_at, clock),
            ttl: entry::lasting(whole_second(e.rec.registered_at, clock), e.rec.ttl / 1000),
            observed: match e.rec.observed {
                Some((a, t)) => Some((a, whole_second(t, clock))),
                None => None,
            },
            ..e.rec
        },
        ..e
    }
}

/// Whether `w` stands in `b` at `p`.
pub open spec fn stands(b: Seq<u8>, p: int, w: Seq<u8>) -> bool {
    0 <= p && p + w.len() <= b.len() && b.subrange(p, p + w.len()) == w
}

/// What stands at a place, its first part stands there, and its second part
/// after it.
proof fn parts_stand(b: Seq<u8>, p: int, v: Seq<u8>, w: Seq<u8>)
    requires
        stands(b, p, v + w),
    ensures
        stands(b, p, v),
        stands(b, p + v.len(), w),
{
    let s = b.subrange(p, p + (v + w).len());
    assert(b.subrange(p, p + v.len()) =~= v) by {
        assert(s.subrange(0, v.len() as int) =~= v);
        assert(b.subrange(p, p + v.len()) =~= s.subrange(0, v.len() as int));
    }
    assert(b.subrange(p + v.len(), p + v.len() + w.len()) =~= w) by {
        assert(s.subrange(v.len() as int, (v + w).len() as int) =~= w);
        assert(b.subrange(p + v.len(), p + v.len() + w.len()) =~= s.subrange(v.len() as int, (v + w).len() as int));
    }
}

/// A text that was written is read back.
proof fn text_reads(b: Seq<u8>, p: int, t: Seq<char>)
    requires
        fits(t),
        stands(b, p, entry::text_wire(t)),
    ensures
        entry::text_at(b, p) == Some((t, p + entry::text_wire(t).len())),
{
    let u = pop::utf8(t);
    let n = u.len();
    parts_stand(b, p, entry::len_wire(n), u);
    assert(n % 0x10000 == n);
    wire::le16_round_trip(n as u16, b, p);
    vstd::utf8::encode_utf8_valid_utf8(t);
    vstd::utf8::encode_utf8_decode_utf8(t);
}

/// Texts that were written are read back.
proof fn list_reads(b: Seq<u8>, p: int, l: Seq<Seq<char>>, n: nat)
    requires
        n <= l.len(),
        all_fit(l),
        stands(b, p, entry::list_wire(l, n)),
    ensures
        entry::list_at(b, p, n) == Some((l.subrange(0, n as int), p + entry::list_wire(l, n).len())),
    decreases n,
{
    if n == 0 {
        assert(l.subrange(0, 0) =~= Seq::empty());
    } else {
        let m = (n - 1) as nat;
        parts_stand(b, p, entry::list_wire(l, m), entry::text_wire(l[n - 1]));
        list_reads(b, p, l, m);
        text_reads(b, p + entry::list_wire(l, m).len(), l[n - 1]);
        assert(l.subrange(0, m as int).push(l[n - 1]) =~= l.subrange(0, n as int));
    }
}

/// A list that was written is read back.
proof fn texts_read(b: Seq<u8>, p: int, l: Seq<Seq<char>>)
    requires
        all_fit(l),
        stands(b, p, entry::texts_wire(l)),
    ensures
        entry::texts_at(b, p) == Some((l, p + entry::texts_wire(l).len())),
{
    let n = l.len();
    parts_stand(b, p, entry::len_wire(n), entry::list_wire(l, n));
    assert(n % 0x10000 == n);
    wire::le16_round_trip(n as u16, b, p);
    list_reads(b, p + 2, l, n);
    assert(l.subrange(0, n as int) =~= l);
}

/// Where and when a node was seen is read back, to the second.
proof fn seen_reads(b: Seq<u8>, p: int, o: Option<(Seq<char>, u64)>, clock: TimeBase)
    requires
        o matches Some((a, t)) ==> fits(a) && on_clock(t, clock),
        stands(b, p, entry::seen_wire(o, clock)),
    ensures
        entry::seen_at(b, p, clock) == Some(
            (
                match o {
                    Some((a, t)) => Some((a, whole_second(t, clock))),
                    None => None,
                },
                p + entry::seen_wire(o, clock).len(),
            ),
        ),
{
    match o {
        None => {
            assert(b.subrange(p, p + 1)[0] == b[p]);
        },
        Some((a, t)) => {
            let w = entry::text_wire(a);
            let s = wire::le64(clock.day_secs(t));
            assert(seq![1u8] + w + s =~= seq![1u8] + (w + s));
            parts_stand(b, p, seq![1u8], w + s);
            parts_stand(b, p + 1, w, s);
            assert(b.subrange(p, p + 1)[0] == b[p]);
            text_reads(b, p + 1, a);
            wire::le64_round_trip(clock.day_secs(t), b, p + 1 + w.len());
            crate::resolver::clock::secs_round_trip(clock, t);
        },
    }
}

/// Where the numbers of an entry start.
pub open spec fn numbers_start(e: record::EntryView) -> int {
    32int + entry::text_wire(e.rec.tunnel_entry).len() + entry::texts_wire(e.rec.alt_entries).len()
}

/// The byte that tells whether a node speaks IPv8+.
pub open spec fn capable_wire(c: bool) -> Seq<u8> {
    seq![
        if c {
            1u8
        } else {
            0u8
        },
    ]
}

/// The parts of an entry stand one after the other.
proof fn entry_parts(e: record::EntryView, clock: TimeBase)
    requires
        e.ed_pub.len() == 32,
    ensures
        ({
            let b = entry::entry_wire(e, clock);
            let p = numbers_start(e);
            &&& stands(b, 0, e.ed_pub)
            &&& stands(b, 32, entry::text_wire(e.rec.tunnel_entry))
            &&& stands(b, 32int + entry::text_wire(e.rec.tunnel_entry).len(), entry::texts_wire(e.rec.alt_entries))
            &&& stands(b, p, capable_wire(e.rec.ipv8_capable))
            &&& stands(b, p + 1, wire::le32(e.rec.mtu))
            &&& stands(b, p + 5, wire::le64(clock.day_secs(e.rec.registered_at)))
            &&& stands(b, p + 13, wire::le64(e.rec.ttl / 1000))
            &&& stands(b, p + 21, entry::seen_wire(e.rec.observed, clock))
            &&& stands(b, p + 21 + entry::seen_wire(e.rec.observed, clock).len(), entry::texts_wire(e.rec.local_candidates))
        }),
{
    let b = entry::entry_wire(e, clock);
    let x1 = e.ed_pub + entry::text_wire(e.rec.tunnel_entry);
    let x2 = x1 + entry::texts_wire(e.rec.alt_entries);
    let x3 = x2 + capable_wire(e.rec.ipv8_capable);
    let x4 = x3 + wire::le32(e.rec.mtu);
    let x5 = x4 + wire::le64(clock.day_secs(e.rec.registered_at));
    let x6 = x5 + wire::le64(e.rec.ttl / 1000);
    let x7 = x6 + entry::seen_wire(e.rec.observed, clock);
    assert(b == x7 + entry::texts_wire(e.rec.local_candidates));
    assert(b.subrange(0, b.len() as int) =~= b);
    parts_stand(b, 0, x7, entry::texts_wire(e.rec.local_candidates));
    parts_stand(b, 0, x6, entry::seen_wire(e.rec.observed, clock));
    parts_stand(b, 0, x5, wire::le64(e.rec.ttl / 1000));
    parts_stand(b, 0, x4, wire::le64(clock.day_secs(e.rec.registered_at)));
    parts_stand(b, 0, x3, wire::le32(e.rec.mtu));
    parts_stand(b, 0, x2, capable_wire(e.rec.ipv8_capable));
    parts_stand(b, 0, x1, entry::texts_wire(e.rec.alt_entries));
    parts_stand(b, 0, e.ed_pub, entry::text_wire(e.rec.tunnel_entry));
}

/// The record of an entry is read back.
proof fn record_reads(b: Seq<u8>, p: int, e: record::EntryView, clock: TimeBase)
    requires
        writable(e, clock),
        stands(b, p, capable_wire(e.rec.ipv8_capable)),
        stands(b, p + 1, wire::le32(e.rec.mtu)),
        stands(b, p + 5, wire::le64(clock.day_secs(e.rec.registered_at))),
        stands(b, p + 13, wire::le64(e.rec.ttl / 1000)),
        stands(b, p + 21, entry::seen_wire(e.rec.observed, clock)),
        stands(b, p + 21 + entry::seen_wire(e.rec.observed, clock).len(), entry::texts_wire(e.rec.local_candidates)),
    ensures
        entry::record_at(b, p, e.rec.tunnel_entry, e.rec.alt_entries, clock) == Some(in_seconds(e, clock).rec),
{
    assert(b.subrange(p, p + 1)[0] == b[p]);
    wire::le32_round_trip(e.rec.mtu, b, p + 1);
    wire::le64_round_trip(clock.day_secs(e.rec.registered_at), b, p + 5);
    wire::le64_round_trip(e.rec.ttl / 1000, b, p + 13);
    crate::resolver::clock::secs_round_trip(clock, e.rec.registered_at);
    seen_reads(b, p + 21, e.rec.observed, clock);
    texts_read(b, p + 21 + entry::seen_wire(e.rec.observed, clock).len(), e.rec.local_candidates);
}

/// An entry that was written is read back, with its times in whole seconds; its
/// time to live, too, where it ends on the clock.
pub proof fn entry_round_trip(e: record::EntryView, clock: TimeBase)
    requires
        writable(e, clock),
    ensures
        entry::entry_of(entry::entry_wire(e, clock), clock) == Some(in_seconds(e, clock)),
        e.rec.registered_at + e.rec.ttl <= u64::MAX ==> in_seconds(e, clock).rec.ttl == e.rec.ttl - e.rec.ttl % 1000,
{
    let b = entry::entry_wire(e, clock);
    entry_parts(e, clock);
    text_reads(b, 32, e.rec.tunnel_entry);
    texts_read(b, 32int + entry::text_wire(e.rec.tunnel_entry).len(), e.rec.alt_entries);
    record_reads(b, numbers_start(e), e, clock);
}

/// An entry as bytes: the key; the length of the tunnel entry, low byte first, and
/// its bytes; the number of other entries, and these.
#[verifier::rlimit(60)]
pub proof fn entry_head_format(e: record::EntryView, clock: TimeBase)
    requires
        writable(e, clock),
    ensures
        ({
            let b = entry::entry_wire(e, clock);
            let u = vstd::utf8::encode_utf8(e.rec.tunnel_entry);
            let n = u.len() as int;
            &&& b.len() >= 36 + n
            &&& b.subrange(0, 32) == e.ed_pub
            &&& b[32] + b[33] * 256 == n
            &&& b.subrange(34, 34 + n) == u
            &&& b[34 + n] + b[35 + n] * 256 == e.rec.alt_entries.len()
        }),
{
    entry_parts(e, clock);
    head_reads(entry::entry_wire(e, clock), e);
}

/// The texts of an entry, where they stand.
proof fn head_reads(b: Seq<u8>, e: record::EntryView)
    requires
        e.ed_pub.len() == 32,
        fits(e.rec.tunnel_entry),
        all_fit(e.rec.alt_entries),
        stands(b, 0, e.ed_pub),
        stands(b, 32, entry::text_wire(e.rec.tunnel_entry)),
        stands(b, 32int + entry::text_wire(e.rec.tunnel_entry).len(), entry::texts_wire(e.rec.alt_entries)),
    ensures
        ({
            let u = vstd::utf8::encode_utf8(e.rec.tunnel_entry);
            let n = u.len() as int;
            &&& b.len() >= 36 + n
            &&& b.subrange(0, 32) == e.ed_pub
            &&& b[32] + b[33] * 256 == n
            &&& b.subrange(34, 34 + n) == u
            &&& b[34 + n] + b[35 + n] * 256 == e.rec.alt_entries.len()
        }),
{
    let u = vstd::utf8::encode_utf8(e.rec.tunnel_entry);
    let n = u.len() as int;
    let l = e.rec.alt_entries;
    parts_stand(b, 32, entry::len_wire(n as nat), u);
    parts_stand(b, 34 + n, entry::len_wire(l.len()), entry::list_wire(l, l.len()));
    assert(n % 0x10000 == n && l.len() % 0x10000 == l.len());
    wire::le16_round_trip(n as u16, b, 32);
    wire::le16_round_trip(l.len() as u16, b, 34 + n);
}

/// After the entries of a node: one byte for whether it speaks IPv8+; the packet
/// size; the time of registration and the time to live in seconds; one byte for
/// whether it was seen.
#[verifier::rlimit(60)]
pub proof fn entry_numbers_format(e: record::EntryView, clock: TimeBase)
    requires
        writable(e, clock),
    ensures
        ({
            let b = entry::entry_wire(e, clock);
            let p = 36 + vstd::utf8::encode_utf8(e.rec.tunnel_entry).len() + entry::list_wire(
                e.rec.alt_entries,
                e.rec.alt_entries.len(),
            ).len() as int;
            &&& b.len() > p + 21
            &&& b[p] == 1 <==> e.rec.ipv8_capable
            &&& b[p] == 0 <==> !e.rec.ipv8_capable
            &&& wire::le32_at(b, p + 1) == e.rec.mtu
            &&& wire::le64_at(b, p + 5) == clock.day_secs(e.rec.registered_at)
            &&& wire::le64_at(b, p + 13) == e.rec.ttl / 1000
            &&& b[p + 21] == 1 <==> e.rec.observed is Some
            &&& b[p + 21] == 0 <==> e.rec.observed is None
        }),
{
    entry_parts(e, clock);
    numbers_start_at(e);
    numbers_read(entry::entry_wire(e, clock), numbers_start(e), e, clock);
}

/// Where the numbers of an entry stand.
proof fn numbers_start_at(e: record::EntryView)
    ensures
        numbers_start(e) == 36 + vstd::utf8::encode_utf8(e.rec.tunnel_entry).len() + entry::list_wire(
            e.rec.alt_entries,
            e.rec.alt_entries.len(),
        ).len() as int,
{
}

/// The numbers of an entry, where they stand.
proof fn numbers_read(b: Seq<u8>, p: int, e: record::EntryView, clock: TimeBase)
    requires
        stands(b, p, capable_wire(e.rec.ipv8_capable)),
        stands(b, p + 1, wire::le32(e.rec.mtu)),
        stands(b, p + 5, wire::le64(clock.day_secs(e.rec.registered_at))),
        stands(b, p + 13, wire::le64(e.rec.ttl / 1000)),
        stands(b, p + 21, entry::seen_wire(e.rec.observed, clock)),
    ensures
        b.len() > p + 21,
        b[p] == 1 <==> e.rec.ipv8_capable,
        b[p] == 0 <==> !e.rec.ipv8_capable,
        wire::le32_at(b, p + 1) == e.rec.mtu,
        wire::le64_at(b, p + 5) == clock.day_secs(e.rec.registered_at),
        wire::le64_at(b, p + 13) == e.rec.ttl / 1000,
        b[p + 21] == 1 <==> e.rec.observed is Some,
        b[p + 21] == 0 <==> e.rec.observed is None,
{
    wire::le32_round_trip(e.rec.mtu, b, p + 1);
    wire::le64_round_trip(clock.day_secs(e.rec.registered_at), b, p + 5);
    wire::le64_round_trip(e.rec.ttl / 1000, b, p + 13);
    assert(b.subrange(p, p + 1)[0] == b[p]);
    let w = entry::seen_wire(e.rec.observed, clock);
    assert(b.subrange(p + 21, p + 21 + w.len())[0] == b[p + 21]);
}

} // verus!
