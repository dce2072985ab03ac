//! Laws of forward error correction.

use vstd::prelude::*;
use crate::codec::formats;
use crate::fec;
use crate::fec::rx;
use crate::fec::tx;
use crate::fec::{FecError, DATA_FRAME_TYPE, DATA_MIN_FRAME, FEC_FRAME_TYPE, FEC_MAX_K, FEC_MIN_K, TUNNEL_VERSION};
use crate::wire;

verus! {

/// Beyond the longest frame the exclusive or is zero.
pub proof fn xor_beyond(frames: Seq<Seq<u8>>, i: int)
    requires
        i >= fec::longest(frames),
    ensures
        fec::xor_byte(frames, i) == 0,
    decreases frames.len(),
{
    if frames.len() > 0 {
        xor_beyond(frames.drop_last(), i);
        assert(0u8 ^ 0u8 == 0u8) by (bit_vector);
    }
}

/// Taking a frame out of an exclusive or is to add it once more.
proof fn xor_without(frames: Seq<Seq<u8>>, m: int, i: int)
    requires
        0 <= m < frames.len(),
    ensures
        fec::xor_byte(frames, i) ^ fec::xor_byte(frames.remove(m), i) == fec::byte_at(frames[m], i),
    decreases frames.len(),
{
    let last = frames.last();
    let front = frames.drop_last();
    let x = fec::xor_byte(front, i);
    let z = fec::byte_at(last, i);
    if m == frames.len() - 1 {
        assert(frames.remove(m) =~= front);
        assert((x ^ z) ^ x == z) by (bit_vector);
    } else {
        xor_without(front, m, i);
        assert(frames.remove(m).drop_last() =~= front.remove(m));
        assert(frames.remove(m).last() == last);
        let y = fec::xor_byte(front.remove(m), i);
        assert((x ^ z) ^ (y ^ z) == x ^ y) by (bit_vector);
    }
}

/// Every frame is at most as long as the longest.
proof fn longest_bounds(frames: Seq<Seq<u8>>, m: int)
    requires
        0 <= m < frames.len(),
    ensures
        frames[m].len() <= fec::longest(frames),
    decreases frames.len(),
{
    if m < frames.len() - 1 {
        longest_bounds(frames.drop_last(), m);
    }
}

/// Where each counter stands among counters.
proof fn counter_at(counters: Seq<u64>, i: int)
    requires
        0 <= i < counters.len(),
    ensures
        tx::counters_wire(counters).len() == 8 * counters.len(),
        tx::counters_wire(counters).subrange(8 * i, 8 * i + 8) == wire::be64(counters[i]),
    decreases counters.len(),
{
    let w = tx::counters_wire(counters);
    let front = counters.drop_last();
    counters_len(front);
    if i == counters.len() - 1 {
        assert(w.subrange(8 * i, 8 * i + 8) =~= wire::be64(counters[i]));
    } else {
        counter_at(front, i);
        assert(w.subrange(8 * i, 8 * i + 8) =~= tx::counters_wire(front).subrange(8 * i, 8 * i + 8));
    }
}

proof fn counters_len(counters: Seq<u64>)
    ensures
        tx::counters_wire(counters).len() == 8 * counters.len(),
    decreases counters.len(),
{
    if counters.len() > 0 {
        counters_len(counters.drop_last());
    }
}

/// Where each length stands among lengths.
proof fn len_at(lens: Seq<u16>, i: int)
    requires
        0 <= i < lens.len(),
    ensures
        tx::lens_wire(lens).subrange(2 * i, 2 * i + 2) == wire::be16(lens[i]),
    decreases lens.len(),
{
    let w = tx::lens_wire(lens);
    let front = lens.drop_last();
    lens_len(front);
    if i == lens.len() - 1 {
        assert(w.subrange(2 * i, 2 * i + 2) =~= wire::be16(lens[i]));
    } else {
        len_at(front, i);
        assert(w.subrange(2 * i, 2 * i + 2) =~= tx::lens_wire(front).subrange(2 * i, 2 * i + 2));
    }
}

proof fn lens_len(lens: Seq<u16>)
    ensures
        tx::lens_wire(lens).len() == 2 * lens.len(),
    decreases lens.len(),
{
    if lens.len() > 0 {
        lens_len(lens.drop_last());
    }
}

/// The greatest stated length is that of the longest frame.
proof fn greatest_is_longest(frames: Seq<Seq<u8>>)
    requires
        forall|i: int| 0 <= i < frames.len() ==> DATA_MIN_FRAME <= (#[trigger] frames[i]).len() <= 65535,
    ensures
        rx::greatest(tx::lens_of(frames)) == fec::longest(frames),
        rx::short_len(tx::lens_of(frames)) is None,
    decreases frames.len(),
{
    if frames.len() > 0 {
        greatest_is_longest(frames.drop_last());
        assert(tx::lens_of(frames).drop_last() =~= tx::lens_of(frames.drop_last()));
        assert(tx::lens_of(frames).last() == tx::stated_len(frames.last()));
    }
}

/// Whether frames can form a group: 2 to 16 of them, with lengths that the
/// length field can state.
pub open spec fn is_group(members: Seq<Seq<u8>>) -> bool {
    &&& FEC_MIN_K <= members.len() <= FEC_MAX_K
    &&& forall|i: int| 0 <= i < members.len() ==> DATA_MIN_FRAME <= (#[trigger] members[i]).len() <= 65535
}

/// A recovery frame says what it was made of.
pub proof fn recovery_round_trip(group_seq: u64, members: Seq<Seq<u8>>, key_id: Seq<u8>)
    requires
        is_group(members),
        key_id.len() == 8,
    ensures
        ({
            let f = tx::recovery_wire(group_seq, members, key_id);
            &&& rx::head_error(f) is None
            &&& rx::table_error(f) is None
            &&& rx::group_of(f) == group_seq
            &&& rx::member_counters(f) == tx::counters_of(members)
            &&& rx::member_lens(f) == tx::lens_of(members)
            &&& rx::parity_of(f) == fec::parity(members)
        }),
{
    let f = tx::recovery_wire(group_seq, members, key_id);
    let k = members.len();
    let cs = tx::counters_of(members);
    let ls = tx::lens_of(members);
    counters_len(cs);
    lens_len(ls);
    assert(f[0] == TUNNEL_VERSION && f[1] == FEC_FRAME_TYPE);
    assert(f.subrange(10, 18) =~= wire::be64(group_seq));
    wire::be64_round_trip(group_seq, f, 10);
    assert(f[18] == k);
    assert(f.len() == 22 + 10 * k + fec::longest(members));
    assert(rx::parity_of(f) =~= fec::parity(members));
    assert forall|i: int| 0 <= i < k implies #[trigger] rx::member_counters(f)[i] == cs[i] by {
        counter_at(cs, i);
        assert(f.subrange(22 + 8 * i, 22 + 8 * i + 8) =~= tx::counters_wire(cs).subrange(8 * i, 8 * i + 8));
        wire::be64_round_trip(cs[i], f, 22 + 8 * i);
    }
    assert(rx::member_counters(f) =~= cs);
    assert forall|i: int| 0 <= i < k implies #[trigger] rx::member_lens(f)[i] == ls[i] by {
        len_at(ls, i);
        let at = 22 + 8 * k + 2 * i;
        assert(f.subrange(at, at + 2) =~= tx::lens_wire(ls).subrange(2 * i, 2 * i + 2));
        wire::be16_round_trip(ls[i], f, at);
    }
    assert(rx::member_lens(f) =~= ls);
    greatest_is_longest(members);
}

/// Any one frame of a group is rebuilt, byte for byte, from the recovery frame
/// of the group and the other frames.
pub proof fn missing_frame_is_rebuilt(
    v: rx::RxView,
    group_seq: u64,
    members: Seq<Seq<u8>>,
    key_id: Seq<u8>,
    m: int,
)
    requires
        is_group(members),
        key_id.len() == 8,
        0 <= m < members.len(),
        members[m][0] == TUNNEL_VERSION,
        members[m][1] == DATA_FRAME_TYPE,
        !v.seen.contains(group_seq),
        !v.cache.contains_key(fec::counter_of(members[m])),
        forall|i: int|
            0 <= i < members.len() && i != m ==> {
                &&& v.cache.contains_key(fec::counter_of(#[trigger] members[i]))
                &&& v.cache[fec::counter_of(members[i])] == members[i]
            },
    ensures
        rx::recovery_step(v, tx::recovery_wire(group_seq, members, key_id)) == (
            rx::RxView { recovered: (v.recovered + 1) as u64, seen: rx::remembered(v.seen, group_seq), ..v },
            Ok::<Option<Seq<u8>>, FecError>(Some(members[m])),
        ),
{
    let f = tx::recovery_wire(group_seq, members, key_id);
    recovery_round_trip(group_seq, members, key_id);
    let counters = rx::member_counters(f);
    assert(forall|i: int| 0 <= i < members.len() ==> counters[i] == fec::counter_of(#[trigger] members[i]));
    assert(rx::missing(v.cache, counters, m));
    assert forall|i: int| rx::missing(v.cache, counters, i) implies i == m by {
        if i != m {
            assert(v.cache.contains_key(fec::counter_of(members[i])));
        }
    }
    let mm = choose|mm: int| rx::missing(v.cache, counters, mm);
    assert(mm == m);
    let rest = rx::others(v.cache, counters, m);
    assert(rest =~= members.remove(m)) by {
        assert forall|i: int| 0 <= i < rest.len() implies rest[i] == members.remove(m)[i] by {
            let o = if i < m {
                i
            } else {
                i + 1
            };
            assert(v.cache[fec::counter_of(members[o])] == members[o]);
        }
    }
    longest_bounds(members, m);
    let r = rx::rebuilt(v.cache, f, m);
    assert(r =~= members[m]) by {
        assert(r.len() == members[m].len()) by {
            assert(rx::member_lens(f)[m] == tx::stated_len(members[m]));
        }
        assert forall|i: int| 0 <= i < r.len() implies r[i] == members[m][i] by {
            xor_without(members, m, i);
            assert(rx::parity_of(f)[i] == fec::xor_byte(members, i));
        }
    }
}

/// A group of which two frames are missing is given up, and so is one of which
/// none is: no frame comes out.
pub proof fn no_frame_without_one_missing(v: rx::RxView, group_seq: u64, members: Seq<Seq<u8>>, key_id: Seq<u8>)
    requires
        is_group(members),
        key_id.len() == 8,
        (forall|i: int| 0 <= i < members.len() ==> v.cache.contains_key(fec::counter_of(#[trigger] members[i]))) || (exists|
            i: int,
            j: int,
        |
            0 <= i < j < members.len() && !v.cache.contains_key(fec::counter_of(#[trigger] members[i]))
                && !v.cache.contains_key(fec::counter_of(#[trigger] members[j]))),
    ensures
        rx::recovery_step(v, tx::recovery_wire(group_seq, members, key_id)).1 == Ok::<Option<Seq<u8>>, FecError>(None),
{
    let f = tx::recovery_wire(group_seq, members, key_id);
    recovery_round_trip(group_seq, members, key_id);
    let counters = rx::member_counters(f);
    assert(forall|i: int| 0 <= i < members.len() ==> counters[i] == fec::counter_of(#[trigger] members[i]));
    if exists|i: int, j: int|
        0 <= i < j < members.len() && !v.cache.contains_key(fec::counter_of(#[trigger] members[i]))
            && !v.cache.contains_key(fec::counter_of(#[trigger] members[j])) {
        let (i, j) = choose|i: int, j: int|
            0 <= i < j < members.len() && !v.cache.contains_key(fec::counter_of(#[trigger] members[i]))
                && !v.cache.contains_key(fec::counter_of(#[trigger] members[j]));
        assert(i != j && rx::missing(v.cache, counters, i) && rx::missing(v.cache, counters, j));
    } else {
        assert forall|i: int| !rx::missing(v.cache, counters, i) by {
            if 0 <= i < members.len() {
                assert(v.cache.contains_key(fec::counter_of(members[i])));
            }
        }
    }
}

/// A recovery frame of a group that was looked at gives nothing and changes
/// nothing but the count of such frames.
pub proof fn known_group_is_ignored(v: rx::RxView, frame: Seq<u8>)
    requires
        rx::head_error(frame) is None,
        v.seen.contains(rx::group_of(frame)),
    ensures
        rx::recovery_step(v, frame) == (
            rx::RxView { dup_recovery: (v.dup_recovery + 1) as u64, ..v },
            Ok::<Option<Seq<u8>>, FecError>(None),
        ),
{
}

/// A recovery frame that was taken and comes again, with nothing in between,
/// gives nothing and changes nothing but the count of such frames, which grows
/// by 1 as long as it can.
pub proof fn second_copy_is_ignored(v: rx::RxView, frame: Seq<u8>)
    requires
        rx::recovery_step(v, frame).1 is Ok,
        rx::recovery_step(v, frame).0.dup_recovery < u64::MAX,
    ensures
        ({
            let w = rx::recovery_step(v, frame).0;
            &&& rx::recovery_step(w, frame) == (
                rx::RxView { dup_recovery: (w.dup_recovery + 1) as u64, ..w },
                Ok::<Option<Seq<u8>>, FecError>(None),
            )
        }),
{
    let w = rx::recovery_step(v, frame).0;
    let g = rx::group_of(frame);
    assert(w.seen.contains(g)) by {
        if !v.seen.contains(g) {
            assert(w.seen == rx::remembered(v.seen, g));
            assert(w.seen[w.seen.len() - 1] == g);
        }
    }
    known_group_is_ignored(w, frame);
}

/// A receiver never keeps more frames than its limit.
pub proof fn cache_is_bounded(v: rx::RxView)
    requires
        v.wf(),
    ensures
        v.cache.dom().finite(),
        v.cache.dom().len() <= v.limit,
{
    v.order.unique_seq_to_set();
    assert(v.order.to_set() =~= v.cache.dom()) by {
        assert forall|c: u64| v.order.to_set().contains(c) <==> v.cache.dom().contains(c) by {
            assert(v.cache.contains_key(c) <==> v.order.contains(c));
        }
    }
}

/// The counter of a data frame stands in eight bytes that begin 24 bytes before
/// its end.
pub proof fn counter_format(frame: Seq<u8>)
    ensures
        fec::counter_of(frame) == formats::eight(frame, frame.len() - 24),
{
    formats::numbers_are_read(frame, frame.len() - 24);
}

/// A recovery frame on the wire: version and type, the key, the number of the
/// group, the number of its frames, three bytes of zero, the counters, the lengths
/// and the exclusive or.
pub proof fn recovery_format(group_seq: u64, members: Seq<Seq<u8>>, key_id: Seq<u8>, i: int)
    requires
        is_group(members),
        key_id.len() == 8,
        0 <= i < members.len(),
    ensures
        ({
            let f = tx::recovery_wire(group_seq, members, key_id);
            let k = members.len();
            &&& f.len() >= 22 + 10 * k + members[i].len()
            &&& f[0] == 1
            &&& f[1] == 6
            &&& f.subrange(2, 10) == key_id
            &&& formats::eight(f, 10) == group_seq
            &&& f[18] == k
            &&& f[19] == 0 && f[20] == 0 && f[21] == 0
            &&& formats::eight(f, 22 + 8 * i) == formats::eight(members[i], members[i].len() - 24)
            &&& formats::two(f, 22 + 8 * k + 2 * i) == members[i].len()
        }),
{
    let f = tx::recovery_wire(group_seq, members, key_id);
    let k = members.len();
    recovery_round_trip(group_seq, members, key_id);
    counters_len(tx::counters_of(members));
    lens_len(tx::lens_of(members));
    assert(f.subrange(2, 10) =~= key_id);
    formats::numbers_are_read(f, 10);
    formats::numbers_are_read(f, 22 + 8 * i);
    formats::numbers_are_read(f, 22 + 8 * k + 2 * i);
    formats::numbers_are_read(members[i], members[i].len() - 24);
    assert(rx::member_counters(f)[i] == wire::be64_at(f, 22 + 8 * i));
    assert(tx::counters_of(members)[i] == fec::counter_of(members[i]));
    assert(rx::member_lens(f)[i] == wire::be16_at(f, 22 + 8 * f[18] + 2 * i));
    assert(tx::lens_of(members)[i] == tx::stated_len(members[i]));
    no_longer_than_longest(members, i);
}

/// No frame is longer than the longest.
proof fn no_longer_than_longest(frames: Seq<Seq<u8>>, i: int)
    requires
        0 <= i < frames.len(),
    ensures
        frames[i].len() <= fec::longest(frames),
    decreases frames.len(),
{
    if i < frames.len() - 1 {
        no_longer_than_longest(frames.drop_last(), i);
    }
}

/// What two frames make: each byte is the exclusive or of theirs, the shorter one
/// filled up with zeros.
pub proof fn parity_of_two(a: Seq<u8>, b: Seq<u8>, i: int)
    requires
        0 <= i,
        i < a.len() || i < b.len(),
    ensures
        i < fec::parity(seq![a, b]).len(),
        i < a.len() && i < b.len() ==> fec::parity(seq![a, b])[i] == a[i] ^ b[i],
        i < a.len() && i >= b.len() ==> fec::parity(seq![a, b])[i] == a[i],
        i >= a.len() && i < b.len() ==> fec::parity(seq![a, b])[i] == b[i],
{
    let s = seq![a, b];
    no_longer_than_longest(s, 0);
    no_longer_than_longest(s, 1);
    assert(s.drop_last() =~= seq![a]);
    assert(seq![a].drop_last() =~= Seq::empty());
    assert(fec::xor_byte(Seq::empty(), i) == 0);
    let x = fec::byte_at(a, i);
    let y = fec::byte_at(b, i);
    assert(fec::xor_byte(seq![a], i) == 0u8 ^ x);
    assert(fec::xor_byte(s, i) == (0u8 ^ x) ^ y);
    assert(0u8 ^ x == x && x ^ 0 == x && 0u8 ^ y == y) by (bit_vector);
}

/// A data frame that was seen is kept under its counter; all others stay, but for
/// the oldest where there is no room.
pub proof fn seen_frame_is_kept(v: rx::RxView, frame: Seq<u8>)
    requires
        v.wf(),
    ensures
        ({
            let w = rx::observed(v, frame);
            let c = fec::counter_of(frame);
            &&& w.cache.contains_key(c)
            &&& w.cache[c] == frame
            &&& forall|d: u64| #[trigger] v.cache.contains_key(d) && d != c && !(v.order.len() == v.limit && d == v.order[0]
                && !v.cache.contains_key(c)) ==> w.cache.contains_key(d) && w.cache[d] == v.cache[d]
            &&& forall|d: u64| #[trigger] w.cache.contains_key(d) && d != c ==> v.cache.contains_key(d)
            &&& v.order.len() == v.limit && !v.cache.contains_key(c) ==> !w.cache.contains_key(v.order[0])
            &&& !v.cache.contains_key(c) ==> w.order.last() == c
            &&& w.limit == v.limit && w.seen == v.seen
            &&& w.recovered == v.recovered && w.abandoned == v.abandoned && w.dup_recovery == v.dup_recovery
        }),
{
    let c = fec::counter_of(frame);
    let w = rx::observed(v, frame);
    if !v.cache.contains_key(c) && v.order.len() == v.limit {
        assert(v.order.contains(v.order[0]));
        assert(v.cache.contains_key(v.order[0]));
        assert(w.order.last() == c);
    }
}

/// Which recovery frames are refused: those that are too short, of another version
/// or type, or of fewer than 2 or more than 16 frames.
pub proof fn refused_recovery(v: rx::RxView, f: Seq<u8>)
    requires
        f.len() <= usize::MAX,
    ensures
        f.len() < 22 ==> rx::recovery_step(v, f) == (
            v,
            Err::<Option<Seq<u8>>, FecError>(FecError::BodyTooShort { need: 22, got: f.len() as usize }),
        ),
        f.len() >= 22 && (f[0] != 1 || f[1] != 6) ==> rx::recovery_step(v, f) == (
            v,
            Err::<Option<Seq<u8>>, FecError>(FecError::SanityCheck),
        ),
        f.len() >= 22 && f[0] == 1 && f[1] == 6 && (f[18] < 2 || f[18] > 16) ==> rx::recovery_step(v, f) == (
            v,
            Err::<Option<Seq<u8>>, FecError>(FecError::BadK(f[18] as usize)),
        ),
        f.len() >= 22 && f[0] == 1 && f[1] == 6 && 2 <= f[18] <= 16 && f.len() < 22 + 10 * f[18] ==> rx::recovery_step(v, f)
            == (
            v,
            Err::<Option<Seq<u8>>, FecError>(
                FecError::BodyTooShort { need: (22 + 10 * f[18]) as usize, got: f.len() as usize },
            ),
        ),
        rx::head_error(f) is None ==> f.len() >= 22 + 10 * f[18] && f[0] == 1 && f[1] == 6 && 2 <= f[18] <= 16,
{
}

/// A recovery frame whose exclusive or is not as long as its longest frame, or
/// that speaks of a frame of fewer than 74 bytes, is refused.
pub proof fn refused_lengths(f: Seq<u8>, i: int)
    requires
        rx::head_error(f) is None,
        0 <= i < f[18],
    ensures
        formats::two(f, 22 + 8 * f[18] + 2 * i) < 74 ==> rx::table_error(f) is Some,
        formats::two(f, 22 + 8 * f[18] + 2 * i) > f.len() - 22 - 10 * f[18] ==> rx::table_error(f) is Some,
{
    formats::numbers_are_read(f, 22 + 8 * f[18] + 2 * i);
    let lens = rx::member_lens(f);
    assert(lens[i] == wire::be16_at(f, 22 + 8 * f[18] + 2 * i));
    short_is_found(lens, i);
    no_greater_than_greatest(lens, i);
}

/// A length that is too short is found.
proof fn short_is_found(lens: Seq<u16>, i: int)
    requires
        0 <= i < lens.len(),
    ensures
        lens[i] < 74 ==> rx::short_len(lens) is Some,
    decreases lens.len(),
{
    if i < lens.len() - 1 {
        short_is_found(lens.drop_last(), i);
    }
}

/// No length is greater than the greatest.
proof fn no_greater_than_greatest(lens: Seq<u16>, i: int)
    requires
        0 <= i < lens.len(),
    ensures
        lens[i] <= rx::greatest(lens),
    decreases lens.len(),
{
    if i < lens.len() - 1 {
        no_greater_than_greatest(lens.drop_last(), i);
    }
}

/// The last 128 groups are remembered, in their order.
pub proof fn groups_are_remembered(seen: Seq<u64>, group: u64)
    requires
        seen.len() <= 128,
    ensures
        ({
            let s = rx::remembered(seen, group);
            &&& s.len() <= 128
            &&& s.last() == group
            &&& seen.len() < 128 ==> s.drop_last() == seen
            &&& seen.len() == 128 ==> s.drop_last() == seen.drop_first()
        }),
{
    let s = rx::remembered(seen, group);
    if seen.len() < 128 {
        assert(s.drop_last() =~= seen);
    } else {
        assert(s.drop_last() =~= seen.drop_first());
    }
}

/// What comes out of a recovery frame is a data frame with the counter and the
/// length of the one frame that was missing; the frames that are kept stay as they
/// are.
pub proof fn rebuilt_frame_is_the_missing_one(v: rx::RxView, f: Seq<u8>)
    requires
        v.recovered < u64::MAX,
    ensures
        ({
            let (w, r) = rx::recovery_step(v, f);
            &&& w.cache == v.cache && w.order == v.order && w.limit == v.limit
            &&& r matches Ok(Some(x)) ==> {
                &&& x[0] == 1
                &&& x[1] == 2
                &&& w.recovered == v.recovered + 1
                &&& w.abandoned == v.abandoned
                &&& exists|m: int|
                    {
                        &&& 0 <= m < f[18]
                        &&& fec::counter_of(x) == #[trigger] rx::member_counters(f)[m]
                        &&& !v.cache.contains_key(fec::counter_of(x))
                        &&& x.len() == rx::member_lens(f)[m]
                    }
            }
            &&& r is Err ==> w.recovered == v.recovered && w.abandoned == v.abandoned && w.dup_recovery == v.dup_recovery
        }),
{
    let (w, r) = rx::recovery_step(v, f);
    if let Ok(Some(x)) = r {
        let counters = rx::member_counters(f);
        let m = choose|m: int| rx::missing(v.cache, counters, m);
        assert(rx::missing(v.cache, counters, m));
        assert(fec::counter_of(x) == rx::member_counters(f)[m]);
    }
}

/// What a recovery frame is counted as: with one frame missing, as one that was
/// rebuilt, where it is plausible; with two missing, as one that was given up; with
/// none missing, as nothing. Its group is remembered in each case.
pub proof fn how_recovery_is_counted(v: rx::RxView, f: Seq<u8>)
    requires
        rx::head_error(f) is None,
        rx::table_error(f) is None,
        !v.seen.contains(rx::group_of(f)),
        v.recovered < u64::MAX && v.abandoned < u64::MAX,
    ensures
        ({
            let (w, r) = rx::recovery_step(v, f);
            let c = rx::member_counters(f);
            &&& w.seen == rx::remembered(v.seen, rx::group_of(f))
            &&& w.dup_recovery == v.dup_recovery
            &&& (forall|i: int| 0 <= i < c.len() ==> v.cache.contains_key(#[trigger] c[i])) ==> {
                &&& w.recovered == v.recovered && w.abandoned == v.abandoned
                &&& r == Ok::<Option<Seq<u8>>, FecError>(None)
            }
            &&& (exists|i: int, j: int|
                0 <= i < j < c.len() && !v.cache.contains_key(#[trigger] c[i]) && !v.cache.contains_key(#[trigger] c[j])) ==> {
                &&& w.recovered == v.recovered && w.abandoned == v.abandoned + 1
                &&& r == Ok::<Option<Seq<u8>>, FecError>(None)
            }
            &&& r matches Ok(Some(_)) ==> w.recovered == v.recovered + 1 && w.abandoned == v.abandoned
        }),
{
    let c = rx::member_counters(f);
    if forall|i: int| 0 <= i < c.len() ==> v.cache.contains_key(#[trigger] c[i]) {
        assert forall|i: int| !rx::missing(v.cache, c, i) by {
            if 0 <= i < c.len() {
                assert(v.cache.contains_key(c[i]));
            }
        }
    }
    if exists|i: int, j: int|
        0 <= i < j < c.len() && !v.cache.contains_key(#[trigger] c[i]) && !v.cache.contains_key(#[trigger] c[j]) {
        let (i, j) = choose|i: int, j: int|
            0 <= i < j < c.len() && !v.cache.contains_key(#[trigger] c[i]) && !v.cache.contains_key(#[trigger] c[j]);
        assert(i != j && rx::missing(v.cache, c, i) && rx::missing(v.cache, c, j));
    }
}

/// How a recovery frame is refused whose exclusive or has another length than its
/// longest frame.
pub proof fn refused_parity(f: Seq<u8>)
    requires
        rx::head_error(f) is None,
        f.len() <= usize::MAX,
    ensures
        rx::table_error(f) matches Some(FecError::XorLenMismatch { expect, got }) ==> got == f.len() - 22 - 10 * f[18]
            && expect != got,
        rx::table_error(f) matches Some(FecError::BadMemberLen(n)) ==> n < 74,
        rx::table_error(f) is Some ==> rx::table_error(f)->0 is XorLenMismatch || rx::table_error(f)->0 is BadMemberLen,
{
    short_is_short(rx::member_lens(f));
}

/// A length that is found to be too short is.
proof fn short_is_short(lens: Seq<u16>)
    ensures
        rx::short_len(lens) matches Some(n) ==> n < 74,
    decreases lens.len(),
{
    if lens.len() > 0 {
        short_is_short(lens.drop_last());
    }
}

} // verus!
