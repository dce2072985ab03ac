//! Laws of fragmentation: every fragment is a packet, no fragment is
//! fragmented again, and the fragments of a packet make up that packet again in
//! whatever order they come.

use vstd::prelude::*;
use crate::codec::decode;
use crate::codec::decode::DecodeError;
use crate::codec::encode;
use crate::codec::flags;
use crate::codec::fragment;
use crate::codec::fragment::{FragmentError, FragmentInfo, MAX_GROUPS, REASSEMBLY_TIMEOUT};
use crate::codec::header;
use crate::codec::header::ExtType;
use crate::codec::laws;
use crate::codec::reassembly;
use crate::codec::reassembly::FragmentKey;

verus! {

/// Whether a packet can be split into pieces of `chunk` bytes: it is sound and
/// no fragment, and the headers of its first fragment can be written.
pub open spec fn splittable(p: decode::Packet, id: u32, chunk: nat) -> bool {
    &&& laws::sound_chain(p.header.exts)
    &&& !fragment::has_fragment(p.header.exts)
    &&& p.payload.len() == p.header.payload_len
    &&& 0 < p.payload.len() <= 65467
    &&& chunk >= 8
    &&& chunk % 8 == 0
    &&& encode::encode_error(fragment::fragment_header(p.header, id, p.payload.len(), chunk, 0)) is None
}

/// The header of the `i`th fragment of a packet.
pub open spec fn piece_header(p: decode::Packet, id: u32, chunk: nat, i: nat) -> header::HeaderView {
    fragment::fragment_header(p.header, id, p.payload.len(), chunk, i)
}

/// The payload of the `i`th fragment of a packet.
pub open spec fn piece(p: decode::Packet, chunk: nat, i: nat) -> Seq<u8> {
    fragment::fragment_payload(p.payload, chunk, i)
}

/// The number of fragments of a packet.
pub open spec fn piece_count(p: decode::Packet, chunk: nat) -> nat {
    fragment::chunk_count(p.payload.len(), chunk)
}

/// Where a fragment begins, in units of 8 bytes, fits the field for it.
proof fn offset_fits(p: decode::Packet, id: u32, chunk: nat, i: nat)
    requires
        splittable(p, id, chunk),
        i < piece_count(p, chunk),
    ensures
        i * chunk % 8 == 0,
        i * chunk / 8 < 0x2000,
        i * chunk / 8 * 8 == i * chunk,
{
    fragment::chunk_bounds(p.payload.len(), chunk, i);
    let q = chunk / 8;
    assert(i * chunk == 8 * (i * q)) by (nonlinear_arith)
        requires
            chunk == 8 * q,
    ;
}

/// Every fragment of a packet decodes to its header and its payload.
pub proof fn fragment_decodes(p: decode::Packet, id: u32, chunk: nat, i: nat)
    requires
        splittable(p, id, chunk),
        i < piece_count(p, chunk),
    ensures
        decode::parse(fragment::fragment_wire(p, id, chunk, i)) == Ok::<decode::Packet, DecodeError>(
            decode::Packet { header: piece_header(p, id, chunk, i), payload: piece(p, chunk, i) },
        ),
{
    let h = piece_header(p, id, chunk, i);
    let exts = p.header.exts;
    let len = p.payload.len();
    fragment::later_headers_fit(p.header, id, len, chunk, i);
    fragment::chunk_bounds(len, chunk, i);
    offset_fits(p, id, chunk, i);
    let f = FragmentInfo { id, offset: (i * chunk / 8) as u16, more: (i + 1) * chunk < len };
    fragment::fragment_ext_round_trip(f);
    let fe = fragment::fragment_ext(f);
    assert(h.exts[0] == fe);
    assert(laws::sound_chain(h.exts)) by {
        assert forall|a: int| 0 <= a < h.exts.len() implies (#[trigger] h.exts[a]).valid() && h.exts[a].ext_type.canonical() by {
            if a > 0 {
                assert(h.exts[a] == exts[a - 1]);
            }
        }
        assert forall|a: int, b: int| 0 <= a < b < h.exts.len() implies (#[trigger] h.exts[a]).ext_type.number() != (
        #[trigger] h.exts[b]).ext_type.number() by {
            assert(h.exts[b] == exts[b - 1]);
            if a > 0 {
                assert(h.exts[a] == exts[a - 1]);
            } else {
                assert(exts[b - 1].ext_type != ExtType::Fragment);
                assert(exts[b - 1].ext_type.canonical());
            }
        }
    }
    laws::decode_of_encode(h, piece(p, chunk, i), Seq::empty());
    assert(encode::header_wire(h) + piece(p, chunk, i) + Seq::<u8>::empty() =~= fragment::fragment_wire(p, id, chunk, i));
}

/// A fragment is never fragmented again, whatever the MTU.
pub proof fn no_refragmentation(p: decode::Packet, id: u32, chunk: nat, i: nat, max_len: usize, id2: u32)
    requires
        splittable(p, id, chunk),
        i < piece_count(p, chunk),
    ensures
        fragment::fragments(fragment::fragment_wire(p, id, chunk, i), max_len, id2) == Err::<Seq<Seq<u8>>, FragmentError>(
            FragmentError::AlreadyFragmented,
        ),
{
    fragment_decodes(p, id, chunk, i);
    let h = piece_header(p, id, chunk, i);
    assert(h.exts[0].ext_type == ExtType::Fragment);
    assert(fragment::has_fragment(h.exts));
}

/// The key under which the fragments of a packet are collected.
pub open spec fn piece_key(p: decode::Packet, id: u32) -> FragmentKey {
    reassembly::key_of(p.header, id)
}

/// The state of a reassembler after the first `j` fragments of a packet came,
/// in the order `order` and at the times `times`.
pub open spec fn fed(
    m: Map<FragmentKey, reassembly::GroupView>,
    p: decode::Packet,
    id: u32,
    chunk: nat,
    order: Seq<nat>,
    times: Seq<u64>,
    j: nat,
) -> Map<FragmentKey, reassembly::GroupView>
    decreases j,
{
    if j == 0 {
        m
    } else {
        reassembly::step(
            fed(m, p, id, chunk, order, times, (j - 1) as nat),
            piece_header(p, id, chunk, order[j - 1]),
            piece(p, chunk, order[j - 1]),
            times[j - 1],
        ).0
    }
}

/// What the `j`th fragment to come leads to.
pub open spec fn outcome(
    m: Map<FragmentKey, reassembly::GroupView>,
    p: decode::Packet,
    id: u32,
    chunk: nat,
    order: Seq<nat>,
    times: Seq<u64>,
    j: nat,
) -> reassembly::Outcome {
    reassembly::step(
        fed(m, p, id, chunk, order, times, j),
        piece_header(p, id, chunk, order[j as int]),
        piece(p, chunk, order[j as int]),
        times[j as int],
    ).1
}

/// Whether `order` names each of `n` fragments once.
pub open spec fn is_order(order: Seq<nat>, n: nat) -> bool {
    &&& order.len() == n
    &&& forall|i: int| 0 <= i < n ==> #[trigger] order[i] < n
    &&& forall|i: int, j: int| 0 <= i < j < n ==> #[trigger] order[i] != #[trigger] order[j]
}

/// Whether fragment `i` is among the first `j` to come.
spec fn came(order: Seq<nat>, j: nat, i: nat) -> bool {
    exists|t: int| 0 <= t < j && #[trigger] order[t] == i
}

/// The first fragment from `from` on that is not among the first `j` to come.
spec fn gap(order: Seq<nat>, j: nat, n: nat, from: nat) -> nat
    decreases n - from,
{
    if from >= n {
        n
    } else if came(order, j, from) {
        gap(order, j, n, from + 1)
    } else {
        from
    }
}

/// Where fragment `c` begins; the end of the payload after the last one.
spec fn begin(p: decode::Packet, chunk: nat, c: nat) -> nat {
    if c < piece_count(p, chunk) {
        c * chunk
    } else {
        p.payload.len()
    }
}

/// The payloads from fragment `c` on that are among the first `j` to come.
spec fn waiting(p: decode::Packet, chunk: nat, order: Seq<nat>, j: nat, c: nat) -> Map<u64, Seq<u8>> {
    Map::new(
        |k: u64| k as nat % chunk == 0 && c <= k as nat / chunk < piece_count(p, chunk) && came(order, j, k as nat / chunk),
        |k: u64| piece(p, chunk, k as nat / chunk),
    )
}

/// Index and position of a fragment determine each other.
proof fn index_of_begin(chunk: nat, i: nat)
    requires
        chunk > 0,
    ensures
        (i * chunk) % chunk == 0,
        (i * chunk) / chunk == i,
{
    vstd::arithmetic::div_mod::lemma_mod_multiples_basic(i as int, chunk as int);
    vstd::arithmetic::div_mod::lemma_div_by_multiple(i as int, chunk as int);
}

/// A position is its quotient times the chunk size where the remainder is zero.
proof fn begin_of_index(chunk: nat, k: nat)
    requires
        chunk > 0,
        k % chunk == 0,
    ensures
        (k / chunk) * chunk == k,
{
    vstd::arithmetic::div_mod::lemma_fundamental_div_mod(k as int, chunk as int);
    assert((k / chunk) * chunk == chunk * (k / chunk)) by (nonlinear_arith);
}

/// What continues a payload that is complete up to fragment `c`.
proof fn drain_waiting(p: decode::Packet, id: u32, chunk: nat, order: Seq<nat>, j: nat, c: nat)
    requires
        splittable(p, id, chunk),
        c <= piece_count(p, chunk),
        waiting(p, chunk, order, j, c).dom().finite(),
    ensures
        ({
            let n = piece_count(p, chunk);
            let d = gap(order, j, n, c);
            let w = waiting(p, chunk, order, j, d);
            &&& c <= d <= n
            &&& w.dom().finite()
            &&& reassembly::drain(
                waiting(p, chunk, order, j, c),
                begin(p, chunk, c) as int,
                p.payload.subrange(0, begin(p, chunk, c) as int),
            ) == (w, begin(p, chunk, d) as int, p.payload.subrange(0, begin(p, chunk, d) as int))
        }),
    decreases piece_count(p, chunk) - c,
{
    let n = piece_count(p, chunk);
    let len = p.payload.len();
    let w = waiting(p, chunk, order, j, c);
    let b = begin(p, chunk, c);
    if c < n {
        fragment::chunk_bounds(len, chunk, c);
        index_of_begin(chunk, c);
        assert(b as u64 as nat == b);
        if came(order, j, c) {
            assert(w.contains_key(b as u64));
            assert(w[b as u64] == piece(p, chunk, c));
            let w2 = w.remove(b as u64);
            assert(w2 =~= waiting(p, chunk, order, j, c + 1)) by {
                assert forall|k: u64| #[trigger] waiting(p, chunk, order, j, c + 1).contains_key(k) <==> w2.contains_key(k) by {
                    if w.contains_key(k) && k != b as u64 {
                        begin_of_index(chunk, k as nat);
                        assert(k as nat / chunk != c);
                    }
                }
            }
            drain_waiting(p, id, chunk, order, j, c + 1);
            assert(begin(p, chunk, c + 1) == fragment::chunk_end(len, chunk, c));
            assert(p.payload.subrange(0, b as int) + piece(p, chunk, c) =~= p.payload.subrange(
                0,
                begin(p, chunk, c + 1) as int,
            ));
        } else {
            assert(!w.contains_key(b as u64));
        }
    } else {
        assert forall|k: u64| !(#[trigger] w.contains_key(k)) by {}
    }
}

/// The packet under reassembly after the first `j` fragments came.
spec fn partial(p: decode::Packet, chunk: nat, order: Seq<nat>, j: nat, created: u64) -> reassembly::GroupView {
    let n = piece_count(p, chunk);
    let c = gap(order, j, n, 0);
    reassembly::GroupView {
        orig_ext: if came(order, j, 0) {
            Some(p.header.exts)
        } else {
            None
        },
        flags: p.header.flags & !(flags::FRAGMENT | flags::HAS_EXTENSION | flags::RESERVED_MASK),
        version: p.header.version,
        min_compat_ver: p.header.min_compat_ver,
        hop_limit: p.header.hop_limit,
        src: p.header.src,
        dst: p.header.dst,
        chunks: waiting(p, chunk, order, j, c),
        pos: begin(p, chunk, c) as int,
        total: if came(order, j, (n - 1) as nat) {
            Some(p.payload.len() as int)
        } else {
            None
        },
        payload: p.payload.subrange(0, begin(p, chunk, c) as int),
        created,
    }
}

/// A gap lies where it is looked for.
proof fn gap_range(order: Seq<nat>, j: nat, n: nat, from: nat)
    requires
        from <= n,
    ensures
        from <= gap(order, j, n, from) <= n,
    decreases n - from,
{
    if from < n && came(order, j, from) {
        gap_range(order, j, n, from + 1);
    }
}

/// A gap among more fragments is not before one among fewer.
proof fn gap_grows(order: Seq<nat>, j: nat, n: nat, from: nat)
    requires
        from <= n,
    ensures
        from <= gap(order, j, n, from) <= n,
        gap(order, j, n, from) <= gap(order, j + 1, n, from),
        gap(order, j + 1, n, from) == gap(order, j + 1, n, gap(order, j, n, from)),
        forall|i: nat| from <= i < gap(order, j, n, from) ==> #[trigger] came(order, j, i),
        gap(order, j, n, from) < n ==> !came(order, j, gap(order, j, n, from)),
    decreases n - from,
{
    gap_range(order, j + 1, n, from);
    if from < n && came(order, j, from) {
        let t = choose|t: int| 0 <= t < j && #[trigger] order[t] == from;
        assert(0 <= t < j + 1 && order[t] == from);
        assert(came(order, j + 1, from));
        gap_grows(order, j, n, from + 1);
    }
}

/// Which fragments are among the first `j + 1` to come.
proof fn came_next(order: Seq<nat>, j: nat, i: nat)
    ensures
        came(order, j + 1, i) == (came(order, j, i) || order[j as int] == i),
{
    if came(order, j, i) {
        let t = choose|t: int| 0 <= t < j && #[trigger] order[t] == i;
        assert(0 <= t < j + 1 && order[t] == i);
    }
    if came(order, j + 1, i) {
        let t = choose|t: int| 0 <= t < j + 1 && #[trigger] order[t] == i;
        if t < j {
            assert(came(order, j, i));
        }
    }
    if order[j as int] == i {
        assert(0 <= j < j + 1 && order[j as int] == i);
    }
}

/// A fragment that has not come overlaps none that has.
proof fn pieces_are_apart(p: decode::Packet, id: u32, chunk: nat, order: Seq<nat>, j: nat, c: nat, x: nat)
    requires
        splittable(p, id, chunk),
        x < piece_count(p, chunk),
        !came(order, j, x),
    ensures
        !reassembly::overlaps_any(
            waiting(p, chunk, order, j, c),
            (x * chunk) as int,
            (x * chunk + piece(p, chunk, x).len()) as int,
        ),
{
    let w = waiting(p, chunk, order, j, c);
    let start = x * chunk;
    let end = start + piece(p, chunk, x).len();
    let len = p.payload.len();
    fragment::chunk_bounds(len, chunk, x);
    assert((x + 1) * chunk == x * chunk + chunk) by (nonlinear_arith);
    assert forall|k: u64| #[trigger] w.contains_key(k) implies !reassembly::overlaps(w, k, start as int, end as int) by {
        let y = k as nat / chunk;
        begin_of_index(chunk, k as nat);
        fragment::chunk_bounds(len, chunk, y);
        assert((y + 1) * chunk == y * chunk + chunk) by (nonlinear_arith);
        assert(y != x);
        if y < x {
            assert((y + 1) * chunk <= x * chunk) by (nonlinear_arith)
                requires
                    y + 1 <= x,
            ;
        } else {
            assert((x + 1) * chunk <= y * chunk) by (nonlinear_arith)
                requires
                    x + 1 <= y,
            ;
        }
    }
}

/// A fragment that comes is taken in.
proof fn partial_step(p: decode::Packet, id: u32, chunk: nat, order: Seq<nat>, j: nat, created: u64)
    requires
        splittable(p, id, chunk),
        is_order(order, piece_count(p, chunk)),
        j < piece_count(p, chunk),
        partial(p, chunk, order, j, created).chunks.dom().finite(),
    ensures
        ({
            let x = order[j as int];
            let h = piece_header(p, id, chunk, x);
            let f = fragment::fragment_of(h.exts[0]);
            &&& h.exts.len() > 0
            &&& f is Some
            &&& f->Some_0.id == id
            &&& !(f->Some_0.more && piece(p, chunk, x).len() % 8 != 0)
            &&& partial(p, chunk, order, j + 1, created).chunks.dom().finite()
            &&& reassembly::group_step(
                partial(p, chunk, order, j, created),
                h,
                f->Some_0,
                piece(p, chunk, x),
            ) == (partial(p, chunk, order, j + 1, created), None::<reassembly::ReassemblyError>)
        }),
{
    let n = piece_count(p, chunk);
    let len = p.payload.len();
    let x = order[j as int];
    let h = piece_header(p, id, chunk, x);
    let g = partial(p, chunk, order, j, created);
    let g1 = partial(p, chunk, order, j + 1, created);
    let c = gap(order, j, n, 0);
    let data = piece(p, chunk, x);
    fragment::chunk_count_bounds(len, chunk);
    fragment::chunk_bounds(len, chunk, x);
    offset_fits(p, id, chunk, x);
    let f = FragmentInfo { id, offset: (x * chunk / 8) as u16, more: (x + 1) * chunk < len };
    fragment::fragment_ext_round_trip(f);
    assert(h.exts[0] == fragment::fragment_ext(f));
    gap_grows(order, j, n, 0);
    came_next(order, j, x);
    came_next(order, j, 0);
    came_next(order, j, (n - 1) as nat);
    assert(!came(order, j, x)) by {
        if came(order, j, x) {
            let t = choose|t: int| 0 <= t < j && #[trigger] order[t] == x;
            assert(order[t] != order[j as int]);
        }
    }
    assert(x >= c);
    let start = x * chunk;
    assert(begin(p, chunk, c) <= start) by {
        if c < n {
            assert(c * chunk <= x * chunk) by (nonlinear_arith)
                requires
                    c <= x,
            ;
        }
    }
    index_of_begin(chunk, x);
    assert(start as u64 as nat == start);
    assert(!reassembly::overlaps_any(g.chunks, start as int, (start + data.len()) as int)) by {
        pieces_are_apart(p, id, chunk, order, j, c, x);
    }
    let w = g.chunks.insert(start as u64, data);
    assert(w =~= waiting(p, chunk, order, j + 1, c)) by {
        assert forall|k: u64| #[trigger] waiting(p, chunk, order, j + 1, c).contains_key(k) <==> w.contains_key(k) by {
            came_next(order, j, k as nat / chunk);
            if k as nat % chunk == 0 {
                begin_of_index(chunk, k as nat);
            }
        }
    }
    drain_waiting(p, id, chunk, order, j + 1, c);
    assert((start == 0) == (x == 0)) by (nonlinear_arith)
        requires
            start == x * chunk,
            chunk > 0,
    ;
    assert(x == 0 ==> h.exts.subrange(1, h.exts.len() as int) =~= p.header.exts);
    if f.more {
        assert(data.len() == chunk);
        assert(x != n - 1);
    } else {
        assert(x == n - 1);
    }
}

/// Giving up old packets leaves no more than there were.
proof fn live_len(m: Map<FragmentKey, reassembly::GroupView>, now: u64)
    requires
        m.dom().finite(),
    ensures
        reassembly::live_groups(m, now).dom().finite(),
        reassembly::live_groups(m, now).dom().len() <= m.dom().len(),
{
    let l = reassembly::live_groups(m, now).dom();
    assert(l.subset_of(m.dom()));
    vstd::set_lib::lemma_len_subset(l, m.dom());
}

/// What the reassembler holds for a packet after some of its fragments came.
proof fn fed_partial(
    m: Map<FragmentKey, reassembly::GroupView>,
    p: decode::Packet,
    id: u32,
    chunk: nat,
    order: Seq<nat>,
    times: Seq<u64>,
    j: nat,
)
    requires
        splittable(p, id, chunk),
        encode::packet_error(p.header, p.payload) is None,
        is_order(order, piece_count(p, chunk)),
        times.len() == order.len(),
        forall|i: int| 0 <= i < times.len() ==> #[trigger] times[i] - times[0] < REASSEMBLY_TIMEOUT,
        m.dom().finite(),
        m.dom().len() < MAX_GROUPS,
        !m.contains_key(piece_key(p, id)),
        j < order.len(),
    ensures
        ({
            let g = partial(p, chunk, order, j + 1, times[0]);
            let last = fed(m, p, id, chunk, order, times, j + 1);
            let k = piece_key(p, id);
            &&& g.chunks.dom().finite()
            &&& if j + 1 < order.len() {
                &&& outcome(m, p, id, chunk, order, times, j) == reassembly::Outcome::Pending
                &&& last.contains_key(k)
                &&& last[k] == g
            } else {
                &&& reassembly::complete(g)
                &&& outcome(m, p, id, chunk, order, times, j) == reassembly::Outcome::Whole(
                    reassembly::whole_header(g),
                    g.payload,
                )
                &&& !last.contains_key(k)
            }
        }),
    decreases j,
{
    let n = piece_count(p, chunk);
    let k = piece_key(p, id);
    let x = order[j as int];
    let h = piece_header(p, id, chunk, x);
    let now = times[j as int];
    let data = piece(p, chunk, x);
    let before = fed(m, p, id, chunk, order, times, j);
    let g0 = partial(p, chunk, order, j, times[0]);
    let g = partial(p, chunk, order, j + 1, times[0]);
    fragment::chunk_count_bounds(p.payload.len(), chunk);
    let hf = p.header.flags;
    let fl = h.flags;
    assert(fl == ((hf & !(0x40 | 0x20u16)) | 0x40) | 0x20);
    assert(fl & 0x20 != 0 && fl & !(0x20u16 | 0x40 | 0xFF80) == hf & !(0x20u16 | 0x40 | 0xFF80)) by (bit_vector)
        requires
            fl == ((hf & !(0x40 | 0x20u16)) | 0x40) | 0x20,
    ;
    let alive = reassembly::live_groups(before, now);
    if j == 0 {
        live_len(m, now);
        let e = reassembly::empty_group(h, now);
        assert(gap(order, 0, n, 0) == 0) by {
            assert(!came(order, 0, 0));
        }
        assert(0 * chunk == 0) by (nonlinear_arith);
        assert(g0.chunks =~= Map::empty()) by {
            assert forall|q: u64| !(#[trigger] g0.chunks.contains_key(q)) by {
                assert(!came(order, 0, q as nat / chunk));
            }
        }
        assert(!came(order, 0, (n - 1) as nat));
        assert(g0.payload =~= Seq::empty());
        assert(g0 == e);
        assert(!alive.contains_key(k));
    } else {
        fed_partial(m, p, id, chunk, order, times, (j - 1) as nat);
        assert(before[k] == g0);
        assert(!g0.stale(now)) by {
            assert(times[j as int] - times[0] < REASSEMBLY_TIMEOUT);
        }
        assert(alive.contains_key(k) && alive[k] == g0);
    }
    partial_step(p, id, chunk, order, j, times[0]);
    assert(reassembly::key_of(h, id) == k);
    gap_grows(order, j + 1, n, 0);
    let c = gap(order, j + 1, n, 0);
    if j + 1 < n {
        let y = order[j as int + 1];
        assert(!came(order, j + 1, y)) by {
            if came(order, j + 1, y) {
                let t = choose|t: int| 0 <= t < j + 1 && #[trigger] order[t] == y;
                assert(order[t] != order[j as int + 1]);
            }
        }
        assert(c < n);
        fragment::chunk_bounds(p.payload.len(), chunk, c);
        assert(!reassembly::complete(g));
    } else {
        all_came(order, n);
        assert(c == n) by {
            if c < n {
                assert(came(order, n, c));
            }
        }
        assert(came(order, n, (n - 1) as nat));
        assert(reassembly::complete(g));
        assert(came(order, n, 0));
        assert(!reassembly::too_long(g));
    }
}

/// An order of all fragments leaves none out.
proof fn all_came(order: Seq<nat>, n: nat)
    requires
        is_order(order, n),
    ensures
        forall|i: nat| i < n ==> #[trigger] came(order, n, i),
{
    let ints = order.map_values(|i: nat| i as int);
    assert(ints.no_duplicates()) by {
        assert forall|a: int, b: int| 0 <= a < ints.len() && 0 <= b < ints.len() && a != b implies ints[a] != ints[b] by {
            if a < b {
                assert(order[a] != order[b]);
            } else {
                assert(order[b] != order[a]);
            }
        }
    }
    ints.unique_seq_to_set();
    let full = vstd::set_lib::set_int_range(0, n as int);
    vstd::set_lib::lemma_int_range(0, n as int);
    assert(ints.to_set().subset_of(full)) by {
        assert forall|v: int| #[trigger] ints.to_set().contains(v) implies full.contains(v) by {
            let t = choose|t: int| 0 <= t < ints.len() && ints[t] == v;
            assert(order[t] < n);
        }
    }
    vstd::set_lib::lemma_subset_equality(ints.to_set(), full);
    assert forall|i: nat| i < n implies #[trigger] came(order, n, i) by {
        assert(full.contains(i as int));
        assert(ints.to_set().contains(i as int));
        let t = choose|t: int| 0 <= t < ints.len() && ints[t] == i as int;
        assert(order[t] == i);
    }
}

/// The fragments of a packet make up the packet again: in whatever order they
/// come within the time limit, all but the last to come lead to nothing yet,
/// and the last one gives the header and the payload of the packet and leaves
/// nothing of it behind. The packet does not have the fragment mark set (a
/// reassembled packet never has), and there is room for one more packet.
pub proof fn reassembly_of_fragments(
    m: Map<FragmentKey, reassembly::GroupView>,
    p: decode::Packet,
    id: u32,
    chunk: nat,
    order: Seq<nat>,
    times: Seq<u64>,
)
    requires
        splittable(p, id, chunk),
        encode::packet_error(p.header, p.payload) is None,
        p.header.flags & flags::FRAGMENT == 0,
        is_order(order, piece_count(p, chunk)),
        times.len() == order.len(),
        forall|i: int| 0 <= i < times.len() ==> #[trigger] times[i] - times[0] < REASSEMBLY_TIMEOUT,
        m.dom().finite(),
        m.dom().len() < MAX_GROUPS,
        !m.contains_key(piece_key(p, id)),
    ensures
        forall|j: nat|
            j + 1 < order.len() ==> #[trigger] outcome(m, p, id, chunk, order, times, j) == reassembly::Outcome::Pending,
        outcome(m, p, id, chunk, order, times, (order.len() - 1) as nat) == reassembly::Outcome::Whole(p.header, p.payload),
        !fed(m, p, id, chunk, order, times, order.len()).contains_key(piece_key(p, id)),
{
    let n = piece_count(p, chunk);
    fragment::chunk_count_bounds(p.payload.len(), chunk);
    assert forall|j: nat| j + 1 < order.len() implies #[trigger] outcome(m, p, id, chunk, order, times, j)
        == reassembly::Outcome::Pending by {
        fed_partial(m, p, id, chunk, order, times, j);
    }
    let last = (n - 1) as nat;
    fed_partial(m, p, id, chunk, order, times, last);
    let g = partial(p, chunk, order, n, times[0]);
    all_came(order, n);
    gap_grows(order, n, n, 0);
    assert(gap(order, n, n, 0) == n) by {
        let c = gap(order, n, n, 0);
        if c < n {
            assert(came(order, n, c));
        }
    }
    assert(came(order, n, 0));
    assert(g.payload =~= p.payload);
    let hf = p.header.flags;
    let bare = hf & !(0x20u16 | 0x40 | 0xFF80);
    assert(hf & 0x20 == 0 && hf & 0x40 != 0 ==> (bare | 0x40) == hf) by (bit_vector)
        requires
            bare == hf & !(0x20u16 | 0x40 | 0xFF80),
            hf & 0xFF80 == 0,
    ;
    assert(hf & 0x20 == 0 && hf & 0x40 == 0 ==> (bare & !0x40u16) == hf) by (bit_vector)
        requires
            bare == hf & !(0x20u16 | 0x40 | 0xFF80),
            hf & 0xFF80 == 0,
    ;
    assert(reassembly::whole_header(g) == p.header);
}

/// What fragmenting a packet gives, where it does not fit.
proof fn fragments_of_packet(h: header::HeaderView, payload: Seq<u8>, max_len: usize, id: u32)
    requires
        encode::packet_error(h, payload) is None,
        laws::sound_chain(h.exts),
        encode::header_wire(h).len() + payload.len() > max_len,
        fragment::fragments(encode::header_wire(h) + payload, max_len, id) is Ok,
        fragment::fragments(encode::header_wire(h) + payload, max_len, id)->Ok_0.len() > 0,
    ensures
        ({
            let p = decode::Packet { header: h, payload };
            let chunk = fragment::chunk_size(max_len as nat, h.exts);
            &&& splittable(p, id, chunk)
            &&& fragment::fragments(encode::header_wire(h) + payload, max_len, id)->Ok_0 == Seq::new(
                piece_count(p, chunk),
                |i: int| fragment::fragment_wire(p, id, chunk, i as nat),
            )
        }),
{
    let packet = encode::header_wire(h) + payload;
    let p = decode::Packet { header: h, payload };
    assert(decode::parse(packet) == Ok::<decode::Packet, DecodeError>(p)) by {
        laws::decode_of_encode(h, payload, Seq::empty());
        assert(packet + Seq::<u8>::empty() =~= packet);
    }
    parsed_fragments(packet, p, max_len, id);
}

/// What fragmenting a packet gives, where it does not fit.
proof fn parsed_fragments(packet: Seq<u8>, p: decode::Packet, max_len: usize, id: u32)
    requires
        decode::parse(packet) == Ok::<decode::Packet, DecodeError>(p),
        packet.len() > max_len,
        fragment::fragments(packet, max_len, id) is Ok,
        fragment::fragments(packet, max_len, id)->Ok_0.len() > 0,
    ensures
        ({
            let chunk = fragment::chunk_size(max_len as nat, p.header.exts);
            &&& !fragment::has_fragment(p.header.exts)
            &&& chunk >= 8
            &&& chunk % 8 == 0
            &&& p.payload.len() > 0
            &&& encode::encode_error(fragment::fragment_header(p.header, id, p.payload.len(), chunk, 0)) is None
            &&& fragment::fragments(packet, max_len, id)->Ok_0 == Seq::new(
                piece_count(p, chunk),
                |i: int| fragment::fragment_wire(p, id, chunk, i as nat),
            )
        }),
{
    let chunk = fragment::chunk_size(max_len as nat, p.header.exts);
    assert(p.payload.len() > 0);
    assert(encode::encode_error(fragment::fragment_header(p.header, id, p.payload.len(), chunk, 0)) is None);
    let frags = fragment::fragments(packet, max_len, id)->Ok_0;
    assert(frags == Seq::new(piece_count(p, chunk), |i: int| fragment::fragment_wire(p, id, chunk, i as nat)));
}

/// Fragmenting a packet that does not fit, and putting the fragments together
/// again in any order, gives back the bytes of the packet.
pub proof fn fragment_then_reassemble(
    m: Map<FragmentKey, reassembly::GroupView>,
    h: header::HeaderView,
    payload: Seq<u8>,
    max_len: usize,
    id: u32,
    order: Seq<nat>,
    times: Seq<u64>,
)
    requires
        encode::packet_error(h, payload) is None,
        laws::sound_chain(h.exts),
        h.flags & flags::FRAGMENT == 0,
        encode::header_wire(h).len() + payload.len() > max_len,
        fragment::fragments(encode::header_wire(h) + payload, max_len, id) is Ok,
        is_order(order, fragment::fragments(encode::header_wire(h) + payload, max_len, id)->Ok_0.len()),
        order.len() > 0,
        times.len() == order.len(),
        forall|i: int| 0 <= i < times.len() ==> #[trigger] times[i] - times[0] < REASSEMBLY_TIMEOUT,
        m.dom().finite(),
        m.dom().len() < MAX_GROUPS,
        !m.contains_key(reassembly::key_of(h, id)),
    ensures
        ({
            let packet = encode::header_wire(h) + payload;
            let frags = fragment::fragments(packet, max_len, id)->Ok_0;
            let p = decode::Packet { header: h, payload };
            let chunk = fragment::chunk_size(max_len as nat, h.exts);
            let n = order.len();
            &&& forall|i: nat|
                i < n ==> decode::parse(#[trigger] frags[i as int]) == Ok::<decode::Packet, DecodeError>(
                    decode::Packet { header: piece_header(p, id, chunk, i), payload: piece(p, chunk, i) },
                )
            &&& forall|j: nat|
                j + 1 < n ==> #[trigger] outcome(m, p, id, chunk, order, times, j) == reassembly::Outcome::Pending
            &&& outcome(m, p, id, chunk, order, times, (n - 1) as nat) matches reassembly::Outcome::Whole(h2, p2)
            &&& encode::header_wire(h2) + p2 == packet
            &&& !fed(m, p, id, chunk, order, times, n).contains_key(reassembly::key_of(h, id))
        }),
{
    let packet = encode::header_wire(h) + payload;
    let p = decode::Packet { header: h, payload };
    let chunk = fragment::chunk_size(max_len as nat, h.exts);
    fragments_of_packet(h, payload, max_len, id);
    let frags = fragment::fragments(packet, max_len, id)->Ok_0;
    assert forall|i: nat| i < order.len() implies decode::parse(#[trigger] frags[i as int]) == Ok::<
        decode::Packet,
        DecodeError,
    >(decode::Packet { header: piece_header(p, id, chunk, i), payload: piece(p, chunk, i) }) by {
        fragment_decodes(p, id, chunk, i);
    }
    reassembly_of_fragments(m, p, id, chunk, order, times);
}

/// The fragments of two packets are collected together only where source,
/// destination and identification are all the same.
pub proof fn packets_share_no_key(g: header::HeaderView, e: u32, h: header::HeaderView, f: u32)
    requires
        g.src.wf() && g.dst.wf(),
        h.src.wf() && h.dst.wf(),
    ensures
        (reassembly::key_of(g, e) == reassembly::key_of(h, f)) == (g.src == h.src && g.dst == h.dst && e == f),
{
}

/// A fragment does not touch the packet of another source, another destination
/// or another identification that is under reassembly: that is the same
/// afterwards, unless it was given up for its age.
pub proof fn other_packets_are_not_touched(
    m: Map<FragmentKey, reassembly::GroupView>,
    h: header::HeaderView,
    payload: Seq<u8>,
    now: u64,
    g: header::HeaderView,
    e: u32,
)
    requires
        g.src.wf() && g.dst.wf(),
        h.src.wf() && h.dst.wf(),
        h.exts.len() > 0 && fragment::fragment_of(h.exts[0]) is Some ==> {
            ||| g.src != h.src
            ||| g.dst != h.dst
            ||| e != fragment::fragment_of(h.exts[0])->Some_0.id
        },
        m.contains_key(reassembly::key_of(g, e)),
        now - m[reassembly::key_of(g, e)].created < 30_000,
    ensures
        ({
            let k = reassembly::key_of(g, e);
            let n = reassembly::step(m, h, payload, now).0;
            n.contains_key(k) && n[k] == m[k]
        }),
{
}

/// What a fragment leads to depends on what came of its own packet alone, as
/// long as there is room: two reassemblers that hold the same of this source,
/// destination and identification, whatever else they hold, give the same.
pub proof fn outcome_depends_on_own_packet(
    m: Map<FragmentKey, reassembly::GroupView>,
    n: Map<FragmentKey, reassembly::GroupView>,
    h: header::HeaderView,
    payload: Seq<u8>,
    now: u64,
)
    requires
        h.exts.len() > 0 && fragment::fragment_of(h.exts[0]) is Some ==> {
            let k = FragmentKey { src: h.src, dst: h.dst, id: fragment::fragment_of(h.exts[0])->Some_0.id };
            &&& m.contains_key(k) == n.contains_key(k)
            &&& m.contains_key(k) ==> m[k] == n[k]
        },
        h.src.wf() && h.dst.wf(),
        m.dom().finite() && m.dom().len() < 64,
        n.dom().finite() && n.dom().len() < 64,
    ensures
        reassembly::step(m, h, payload, now).1 == reassembly::step(n, h, payload, now).1,
{
    live_len(m, now);
    live_len(n, now);
}

/// A packet of which nothing was complete for 30 seconds is given up: a fragment
/// that comes then is the first of a new one.
pub proof fn old_packets_are_given_up(
    m: Map<FragmentKey, reassembly::GroupView>,
    h: header::HeaderView,
    payload: Seq<u8>,
    now: u64,
    k: FragmentKey,
)
    requires
        m.contains_key(k),
        now - m[k].created >= 30_000,
        h.exts.len() > 0 && h.flags & 0x20 != 0,
        fragment::fragment_of(h.exts[0]) matches Some(f) && !(f.more && payload.len() % 8 != 0),
    ensures
        reassembly::step(m, h, payload, now) == reassembly::step(m.remove(k), h, payload, now),
{
    assert(reassembly::live_groups(m, now) =~= reassembly::live_groups(m.remove(k), now));
}

/// No more than 64 packets are under reassembly: a fragment of one more is
/// refused, and there is nothing of it afterwards.
pub proof fn packets_at_once_are_bounded(
    m: Map<FragmentKey, reassembly::GroupView>,
    h: header::HeaderView,
    payload: Seq<u8>,
    now: u64,
)
    requires
        m.dom().finite(),
        m.dom().len() <= 64,
    ensures
        ({
            let n = reassembly::step(m, h, payload, now).0;
            n.dom().finite() && n.dom().len() <= 64
        }),
        reassembly::live_groups(m, now).dom().len() == 64 && h.exts.len() > 0 && (fragment::fragment_of(
            h.exts[0],
        ) matches Some(f) && h.flags & 0x20 != 0 && !(f.more && payload.len() % 8 != 0) && !m.contains_key(
            reassembly::key_of(h, f.id),
        )) ==> reassembly::step(m, h, payload, now).1 == reassembly::Outcome::Refused(
            reassembly::ReassemblyError::TooManyGroups,
        ),
{
    live_len(m, now);
    let l = reassembly::live_groups(m, now);
    if h.exts.len() > 0 {
        if let Some(f) = fragment::fragment_of(h.exts[0]) {
            let k = reassembly::key_of(h, f.id);
            let n = reassembly::step(m, h, payload, now).0;
            assert forall|g: reassembly::GroupView| #[trigger] l.insert(k, g).dom().finite() && (l.dom().len() < 64 || l.contains_key(k) ==> l.insert(k, g).dom().len() <= 64) by {
                assert(l.insert(k, g).dom() =~= l.dom().insert(k));
            }
            assert(l.remove(k).dom() =~= l.dom().remove(k));
        }
    }
}

/// A complete packet has the source and the destination of its fragments, no
/// fragment mark and no reserved flag. One that came in a single fragment has its
/// hop limit and its versions too.
pub proof fn whole_packet_is_of_its_fragments(
    m: Map<FragmentKey, reassembly::GroupView>,
    h: header::HeaderView,
    payload: Seq<u8>,
    now: u64,
)
    requires
        reassembly::step(m, h, payload, now).1 is Whole,
        h.src.wf() && h.dst.wf(),
        forall|k: FragmentKey| #[trigger] m.contains_key(k) ==> m[k].src == k.src && m[k].dst == k.dst && m[k].flags & 0xFFA0
            == 0,
    ensures
        reassembly::step(m, h, payload, now).1 matches reassembly::Outcome::Whole(w, p) && {
            &&& w.src == h.src
            &&& w.dst == h.dst
            &&& w.flags & 0xFFA0 == 0
            &&& !reassembly::live_groups(m, now).contains_key(
                FragmentKey { src: h.src, dst: h.dst, id: fragment::fragment_of(h.exts[0])->Some_0.id },
            ) ==> {
                &&& w.hop_limit == h.hop_limit
                &&& w.version == h.version
                &&& w.min_compat_ver == h.min_compat_ver
            }
        },
{
    let f = fragment::fragment_of(h.exts[0])->Some_0;
    let k = reassembly::key_of(h, f.id);
    let l = reassembly::live_groups(m, now);
    if l.contains_key(k) {
        assert(m.contains_key(k));
    }
    let fl = h.flags;
    assert((fl & !(0x20u16 | 0x40 | 0xFF80)) & 0xFFA0 == 0) by (bit_vector);
    let g = if l.contains_key(k) {
        l[k]
    } else {
        reassembly::empty_group(h, now)
    };
    let b = g.flags;
    assert((b | 0x40) & 0xFFA0 == 0 && (b & !0x40u16) & 0xFFA0 == 0) by (bit_vector)
        requires
            b & 0xFFA0 == 0,
    ;
}

/// The fragments of a packet that does not fit: each is no longer than the MTU,
/// and all but the last carry a multiple of 8 bytes.
pub proof fn fragments_fit_the_mtu(p: decode::Packet, id: u32, max_len: usize, i: nat)
    requires
        splittable(p, id, fragment::chunk_size(max_len as nat, p.header.exts)),
        i < piece_count(p, fragment::chunk_size(max_len as nat, p.header.exts)),
    ensures
        ({
            let chunk = fragment::chunk_size(max_len as nat, p.header.exts);
            &&& fragment::fragment_wire(p, id, chunk, i).len() <= max_len
            &&& 0 < piece(p, chunk, i).len()
            &&& i + 1 < piece_count(p, chunk) ==> piece(p, chunk, i).len() % 8 == 0
        }),
{
    let chunk = fragment::chunk_size(max_len as nat, p.header.exts);
    let h = piece_header(p, id, chunk, i);
    fragment::chunk_bounds(p.payload.len(), chunk, i);
    encode::header_wire_len(h);
    let f = FragmentInfo { id, offset: (i * chunk / 8) as u16, more: (i + 1) * chunk < p.payload.len() };
    let fe = fragment::fragment_ext(f);
    assert(fe.payload.len() == 8);
    if i == 0 {
        assert(h.exts =~= seq![fe] + p.header.exts);
        laws::chain_cons(fe, p.header.exts, p.header.exts.len());
    } else {
        assert(h.exts =~= seq![fe] + Seq::empty());
        laws::chain_cons(fe, Seq::empty(), 0);
        assert(encode::chain_size(Seq::<header::ExtView>::empty(), 0) == 0);
    }
}

/// What the fragments of a packet say: where their bytes belong, whether more
/// follow, which packet they are of; and they go the way that the packet goes.
/// The first one carries the extension headers of the packet, the others carry
/// none of them.
pub proof fn fragments_say_where_they_belong(p: decode::Packet, id: u32, chunk: nat, i: nat)
    requires
        splittable(p, id, chunk),
        i < piece_count(p, chunk),
    ensures
        ({
            let h = piece_header(p, id, chunk, i);
            let f = fragment::fragment_of(h.exts[0])->Some_0;
            let from = f.offset * 8;
            &&& fragment::fragment_of(h.exts[0]) is Some
            &&& f.id == id
            &&& f.more == (i + 1 < piece_count(p, chunk))
            &&& from + piece(p, chunk, i).len() <= p.payload.len()
            &&& piece(p, chunk, i) == p.payload.subrange(from, from + piece(p, chunk, i).len())
            &&& !f.more ==> from + piece(p, chunk, i).len() == p.payload.len()
            &&& i == 0 ==> from == 0 && h.exts.subrange(1, h.exts.len() as int) == p.header.exts
            &&& i > 0 ==> h.exts.len() == 1
            &&& h.src == p.header.src && h.dst == p.header.dst
            &&& h.hop_limit == p.header.hop_limit
            &&& h.version == p.header.version && h.min_compat_ver == p.header.min_compat_ver
            &&& h.payload_len == piece(p, chunk, i).len()
            &&& h.flags & 0x20 != 0 && h.flags & 0x40 != 0
            &&& h.flags & 0xFF9F == p.header.flags & 0xFF9F
        }),
{
    let h = piece_header(p, id, chunk, i);
    fragment::chunk_bounds(p.payload.len(), chunk, i);
    offset_fits(p, id, chunk, i);
    let f = FragmentInfo { id, offset: (i * chunk / 8) as u16, more: (i + 1) * chunk < p.payload.len() };
    fragment::fragment_ext_round_trip(f);
    assert(h.exts[0] == fragment::fragment_ext(f));
    if i == 0 {
        assert(h.exts.subrange(1, h.exts.len() as int) =~= p.header.exts);
        assert(0 * chunk == 0) by (nonlinear_arith);
    }
    let hf = p.header.flags;
    let fl = h.flags;
    assert(fl & 0x20 != 0 && fl & 0x40 != 0 && fl & 0xFF9F == hf & 0xFF9F) by (bit_vector)
        requires
            fl == ((hf & !(0x40 | 0x20u16)) | 0x40) | 0x20,
    ;
}

/// A packet that fits stays as it is.
pub proof fn packet_that_fits_stays_whole(packet: Seq<u8>, max_len: usize, id: u32)
    requires
        decode::parse(packet) matches Ok(p) && forall|i: int|
            0 <= i < p.header.exts.len() ==> (#[trigger] p.header.exts[i]).ext_type.number() != 6,
        packet.len() <= max_len,
    ensures
        fragment::fragments(packet, max_len, id) == Ok::<Seq<Seq<u8>>, FragmentError>(seq![packet]),
{
    let p = decode::parse(packet)->Ok_0;
    assert(!fragment::has_fragment(p.header.exts)) by {
        assert(ExtType::Fragment.number() == 6);
    }
}

/// When a fragment is refused by its own packet, which stays as it was: it begins
/// before what is complete; it ends after the known end; it is the last one and
/// ends after 65467 bytes, or elsewhere than the last one did; or it overlaps
/// another.
pub proof fn refused_fragments(
    g: reassembly::GroupView,
    h: header::HeaderView,
    f: FragmentInfo,
    payload: Seq<u8>,
)
    ensures
        ({
            let (n, e) = reassembly::group_step(g, h, f, payload);
            let start = f.offset * 8;
            let end = start + payload.len();
            &&& e is Some ==> n == g
            &&& start < g.pos ==> e == Some(reassembly::ReassemblyError::Overlap)
            &&& start >= g.pos && (g.total matches Some(t) && t < end) ==> e == Some(
                reassembly::ReassemblyError::BeyondTotal,
            )
            &&& start >= g.pos && g.total is None && !f.more && end > 65467 ==> e == Some(
                reassembly::ReassemblyError::Oversize,
            )
            &&& start >= g.pos && !f.more && end <= 65467 && (g.total matches Some(t) && t > end) ==> e == Some(
                reassembly::ReassemblyError::BeyondTotal,
            )
        }),
{
}

/// A fragment that fits is taken: one that does not begin before what is complete,
/// keeps to the known end, is not too long, and overlaps no other.
pub proof fn fitting_fragment_is_taken(
    g: reassembly::GroupView,
    h: header::HeaderView,
    f: FragmentInfo,
    payload: Seq<u8>,
)
    requires
        f.offset * 8 >= g.pos,
        g.total matches Some(t) ==> f.offset * 8 + payload.len() == t || (f.more && f.offset * 8 + payload.len() < t),
        !f.more ==> f.offset * 8 + payload.len() <= 65467,
        forall|k: u64|
            #[trigger] g.chunks.contains_key(k) ==> k != f.offset * 8 && (k + g.chunks[k].len() <= f.offset * 8 || f.offset * 8
                + payload.len() <= k),
    ensures
        reassembly::group_step(g, h, f, payload).1 is None,
        !f.more ==> reassembly::group_step(g, h, f, payload).0.total == Some(f.offset * 8 + payload.len()),
        f.more ==> reassembly::group_step(g, h, f, payload).0.total == g.total,
        f.offset == 0 && g.orig_ext is None ==> reassembly::group_step(g, h, f, payload).0.orig_ext == Some(
            h.exts.subrange(1, h.exts.len() as int),
        ),
        f.offset != 0 ==> reassembly::group_step(g, h, f, payload).0.orig_ext == g.orig_ext,
{
    if reassembly::overlaps_any(g.chunks, f.offset * 8, f.offset * 8 + payload.len()) {
        let k = choose|k: u64| #[trigger]
            g.chunks.contains_key(k) && reassembly::overlaps(
                g.chunks,
                k,
                f.offset * 8,
                f.offset * 8 + payload.len(),
            );
        assert(g.chunks.contains_key(k));
    }
}

/// What is no fragment at all is refused and changes nothing: a packet without the
/// mark, without extensions, or whose first extension is another; so is a fragment
/// with more to come that is not a multiple of 8 bytes long.
pub proof fn no_fragments_are_refused(
    m: Map<FragmentKey, reassembly::GroupView>,
    h: header::HeaderView,
    payload: Seq<u8>,
    now: u64,
)
    ensures
        h.flags & 0x20 == 0 || h.exts.len() == 0 || h.exts[0].ext_type != ExtType::Fragment ==> reassembly::step(
            m,
            h,
            payload,
            now,
        ) == (m, reassembly::Outcome::Refused(reassembly::ReassemblyError::FlagMismatch)),
        h.flags & 0x20 != 0 && h.exts.len() > 0 && (fragment::fragment_of(h.exts[0]) matches Some(f) && f.more
            && payload.len() % 8 != 0) ==> reassembly::step(m, h, payload, now) == (
            m,
            reassembly::Outcome::Refused(reassembly::ReassemblyError::Misaligned),
        ),
{
}

/// A packet that comes in a single fragment is complete at once, with its bytes.
pub proof fn single_fragment_is_whole(
    m: Map<FragmentKey, reassembly::GroupView>,
    h: header::HeaderView,
    payload: Seq<u8>,
    now: u64,
)
    requires
        h.flags & 0x20 != 0,
        h.exts.len() > 0,
        fragment::fragment_of(h.exts[0]) matches Some(f) && f.offset == 0 && !f.more,
        !m.contains_key(reassembly::key_of(h, fragment::fragment_of(h.exts[0])->Some_0.id)),
        m.dom().finite() && m.dom().len() < 64,
        0 < payload.len(),
        encode::header_wire(h).len() + payload.len() <= 65507,
        payload.len() <= 65467,
    ensures
        reassembly::step(m, h, payload, now).1 matches reassembly::Outcome::Whole(w, p) && {
            &&& p == payload
            &&& w.payload_len == payload.len()
            &&& w.exts == h.exts.subrange(1, h.exts.len() as int)
            &&& w.src == h.src && w.dst == h.dst && w.hop_limit == h.hop_limit
        },
        !reassembly::step(m, h, payload, now).0.contains_key(
            reassembly::key_of(h, fragment::fragment_of(h.exts[0])->Some_0.id),
        ),
{
    live_len(m, now);
    let f = fragment::fragment_of(h.exts[0])->Some_0;
    let g = reassembly::empty_group(h, now);
    let c = g.chunks.insert(0u64, payload);
    let d = c.remove(0u64);
    assert(d =~= Map::<u64, Seq<u8>>::empty());
    assert(c.dom() =~= set![0u64]);
    assert(reassembly::drain(d, payload.len() as int, Seq::<u8>::empty() + payload) == (
        d,
        payload.len() as int,
        Seq::<u8>::empty() + payload,
    ));
    assert(reassembly::drain(c, 0, Seq::empty()) == (d, payload.len() as int, Seq::<u8>::empty() + payload));
    assert(Seq::<u8>::empty() + payload =~= payload);
    fitting_fragment_is_taken(g, h, f, payload);
    encode::header_wire_len(h);
    let rest = h.exts.subrange(1, h.exts.len() as int);
    assert(seq![h.exts[0]] + rest =~= h.exts);
    laws::chain_cons(h.exts[0], rest, rest.len());
}

/// Reaping gives up the packets that were begun 30 seconds ago or more, and no
/// others.
pub proof fn what_is_reaped(m: Map<FragmentKey, reassembly::GroupView>, now: u64, k: FragmentKey)
    ensures
        reassembly::live_groups(m, now).contains_key(k) <==> m.contains_key(k) && now - m[k].created < 30_000,
        reassembly::live_groups(m, now).contains_key(k) ==> reassembly::live_groups(m, now)[k] == m[k],
{
}

/// What is refused as no packet by a receiver is refused so by fragmentation, with
/// the length that was too much; anything else that cannot be encoded counts as too
/// short.
pub proof fn errors_of_fragmentation(n: u16, v: u8)
    ensures
        fragment::as_decode_error(encode::EncodeError::PayloadTooLong(n)) == DecodeError::PayloadTooLong(n),
        fragment::as_decode_error(encode::EncodeError::BadVersion(v)) == DecodeError::TooShort(0),
        fragment::as_decode_error(encode::EncodeError::PacketTooLong) == DecodeError::TooShort(0),
        fragment::as_decode_error(encode::EncodeError::ReservedBits) == DecodeError::TooShort(0),
{
}

} // verus!
