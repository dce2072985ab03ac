//! Putting fragments together again, in whatever order they come.

use vstd::prelude::*;
use std::collections::BTreeMap;
use crate::codec::encode;
use crate::codec::flags;
use crate::codec::fragment;
use crate::codec::fragment::{FragmentInfo, MAX_GROUPS, MAX_GROUP_BYTES, REASSEMBLY_TIMEOUT};
use crate::codec::header;
use crate::codec::header::{
    ExtensionHeader, Flags, IPv8Address, IPv8Header, BASE_HEADER_SIZE, MAX_EXT_CHAIN, MAX_PACKET_LEN, VERSION,
};
use crate::table;
use crate::table::{Expiring, Key, Table};
use crate::wire;

verus! {

broadcast use {
    vstd::std_specs::btree::group_btree_axioms,
    vstd::laws_cmp::group_laws_cmp,
};

/// Why a fragment is refused.
#[derive(Debug, Clone, PartialEq, Eq, Structural)]
pub enum ReassemblyError {
    /// No fragment mark, or no Fragment header at the head of the chain.
    FlagMismatch,
    /// The Fragment header is not the first one.
    NotFirstExt,
    /// Fragments overlap.
    Overlap,
    /// The fragment goes past the end of the packet.
    BeyondTotal,
    /// A fragment before the last is not a multiple of 8 bytes.
    Misaligned,
    /// The packet would exceed the greatest payload.
    Oversize,
    /// The offset does not fit its field.
    OffsetOverflow,
    /// Too many packets are under reassembly.
    TooManyGroups,
}

/// What tells the fragments of one packet from those of another.
#[derive(Debug, Clone, Copy)]
pub struct FragmentKey {
    pub src: IPv8Address,
    pub dst: IPv8Address,
    pub id: u32,
}

impl Key for FragmentKey {
    fn same(&self, other: &Self) -> (r: bool) {
        header::same_address(&self.src, &other.src) && header::same_address(&self.dst, &other.dst) && self.id == other.id
    }
}

/// The address that stands for another one as part of a key: itself, or zero
/// where its reserved bytes are not zero.
pub open spec fn key_address(a: IPv8Address) -> IPv8Address {
    if a.wf() {
        a
    } else {
        header::address(0, 0, 0, 0, 0)
    }
}

/// The key of a fragment.
pub open spec fn key_of(h: header::HeaderView, id: u32) -> FragmentKey {
    FragmentKey { src: key_address(h.src), dst: key_address(h.dst), id }
}

/// A packet under reassembly.
struct Group {
    /// The extension chain of the whole packet, from the first fragment.
    orig_ext: Option<Vec<ExtensionHeader>>,
    flags: u16,
    version: u8,
    min_compat_ver: u8,
    hop_limit: u8,
    src: IPv8Address,
    dst: IPv8Address,
    /// Payloads that came ahead of a gap, by where they begin.
    chunks: BTreeMap<u64, Vec<u8>>,
    /// Up to where the payload is complete.
    pos: u64,
    /// Length of the whole payload, from the last fragment.
    total: Option<u64>,
    payload: Vec<u8>,
    created: u64,
}

/// A packet under reassembly as a mathematical value.
pub ghost struct GroupView {
    pub orig_ext: Option<Seq<header::ExtView>>,
    pub flags: u16,
    pub version: u8,
    pub min_compat_ver: u8,
    pub hop_limit: u8,
    pub src: IPv8Address,
    pub dst: IPv8Address,
    pub chunks: Map<u64, Seq<u8>>,
    pub pos: int,
    pub total: Option<int>,
    pub payload: Seq<u8>,
    pub created: u64,
}

impl View for Group {
    type V = GroupView;

    closed spec fn view(&self) -> GroupView {
        GroupView {
            orig_ext: match self.orig_ext {
                Some(v) => Some(header::ext_views(v@)),
                None => None,
            },
            flags: self.flags,
            version: self.version,
            min_compat_ver: self.min_compat_ver,
            hop_limit: self.hop_limit,
            src: self.src,
            dst: self.dst,
            chunks: self.chunks@.map_values(|v: Vec<u8>| v@),
            pos: self.pos as int,
            total: match self.total {
                Some(t) => Some(t as int),
                None => None,
            },
            payload: self.payload@,
            created: self.created,
        }
    }
}

impl GroupView {
    /// Whether the packet was begun too long ago.
    pub open spec fn stale(self, now: u64) -> bool {
        now - self.created >= REASSEMBLY_TIMEOUT
    }

    /// Whether no two payloads share a byte: those ahead of a gap begin behind
    /// what is complete, and each ends before the next begins.
    pub open spec fn apart(self) -> bool {
        &&& forall|k: u64| #[trigger] self.chunks.contains_key(k) ==> self.pos <= k
        &&& forall|j: u64, k: u64|
            #[trigger] self.chunks.contains_key(j) && #[trigger] self.chunks.contains_key(k) && j < k ==> j
                + self.chunks[j].len() <= k
    }

    /// Whether the header of the packet has fields that can be written.
    pub open spec fn writable(self) -> bool {
        &&& self.version == VERSION
        &&& self.min_compat_ver <= 15
        &&& self.flags & flags::RESERVED_MASK == 0
        &&& self.src.wf()
        &&& self.dst.wf()
        &&& self.orig_ext matches Some(e) ==> e.len() <= MAX_EXT_CHAIN
    }

    /// The invariant of a packet under reassembly.
    pub open spec fn wf(self) -> bool {
        &&& self.chunks.dom().finite()
        &&& self.pos == self.payload.len()
        &&& self.total matches Some(t) ==> 0 <= t <= MAX_GROUP_BYTES
        &&& forall|k: u64| #[trigger] self.chunks.contains_key(k) ==> k + self.chunks[k].len() <= u64::MAX
        &&& self.apart()
    }
}

impl Expiring for Group {
    closed spec fn stale(&self, now: u64) -> bool {
        self@.stale(now)
    }

    fn is_stale(&self, now: u64) -> (r: bool) {
        now >= self.created && now - self.created >= REASSEMBLY_TIMEOUT
    }
}

/// Takes from `chunks` what continues the payload from `pos` on.
pub open spec fn drain(chunks: Map<u64, Seq<u8>>, pos: int, payload: Seq<u8>) -> (Map<u64, Seq<u8>>, int, Seq<u8>)
    decreases chunks.dom().len(),
    when chunks.dom().finite()
{
    if 0 <= pos <= u64::MAX && chunks.contains_key(pos as u64) {
        let c = chunks[pos as u64];
        drain(chunks.remove(pos as u64), pos + c.len(), payload + c)
    } else {
        (chunks, pos, payload)
    }
}

/// Whether a payload from `start` up to `end` overlaps the one that is kept from
/// `k` on.
pub open spec fn overlaps(chunks: Map<u64, Seq<u8>>, k: u64, start: int, end: int) -> bool {
    k == start || (k < end && start < k + chunks[k].len())
}

/// Whether a payload from `start` up to `end` overlaps one that is kept.
pub open spec fn overlaps_any(chunks: Map<u64, Seq<u8>>, start: int, end: int) -> bool {
    exists|k: u64| #[trigger] chunks.contains_key(k) && overlaps(chunks, k, start, end)
}

/// What becomes of a packet under reassembly when a fragment of it comes, and
/// the error where the fragment is refused.
pub open spec fn group_step(g: GroupView, h: header::HeaderView, f: FragmentInfo, payload: Seq<u8>) -> (
    GroupView,
    Option<ReassemblyError>,
) {
    let start = f.offset * 8;
    let end = start + payload.len();
    if start < g.pos {
        (g, Some(ReassemblyError::Overlap))
    } else if g.total matches Some(t) && end > t {
        (g, Some(ReassemblyError::BeyondTotal))
    } else if !f.more && end > MAX_GROUP_BYTES {
        (g, Some(ReassemblyError::Oversize))
    } else if !f.more && g.total is Some && g.total->Some_0 != end {
        (g, Some(ReassemblyError::BeyondTotal))
    } else if overlaps_any(g.chunks, start, end) {
        (g, Some(ReassemblyError::Overlap))
    } else {
        let (chunks, pos, whole) = drain(g.chunks.insert(start as u64, payload), g.pos, g.payload);
        (
            GroupView {
                total: if f.more {
                    g.total
                } else {
                    Some(end)
                },
                orig_ext: if start == 0 && g.orig_ext is None {
                    Some(h.exts.subrange(1, h.exts.len() as int))
                } else {
                    g.orig_ext
                },
                chunks,
                pos,
                payload: whole,
                ..g
            },
            None,
        )
    }
}

/// Whether all of the payload is there.
pub open spec fn complete(g: GroupView) -> bool {
    g.total == Some(g.pos)
}

/// The extension chain of a reassembled packet.
pub open spec fn whole_chain(g: GroupView) -> Seq<header::ExtView> {
    match g.orig_ext {
        Some(e) => e,
        None => Seq::empty(),
    }
}

/// Whether the chain and the payload are more than a packet can hold.
pub open spec fn too_long(g: GroupView) -> bool {
    BASE_HEADER_SIZE + encode::chain_size(whole_chain(g), whole_chain(g).len()) + g.pos > MAX_PACKET_LEN
}

/// The header of a reassembled packet.
pub open spec fn whole_header(g: GroupView) -> header::HeaderView {
    header::HeaderView {
        version: g.version,
        min_compat_ver: g.min_compat_ver,
        flags: g.flags,
        payload_len: g.pos as u16,
        hop_limit: g.hop_limit,
        next_header: 0,
        src: g.src,
        dst: g.dst,
        exts: Seq::empty(),
    }.with_exts(whole_chain(g))
}

/// A packet of which no fragment was taken in yet. Reserved flags are not
/// looked at, and not passed on.
pub open spec fn empty_group(h: header::HeaderView, now: u64) -> GroupView {
    GroupView {
        orig_ext: None,
        flags: h.flags & !(flags::FRAGMENT | flags::HAS_EXTENSION | flags::RESERVED_MASK),
        version: h.version,
        min_compat_ver: h.min_compat_ver,
        hop_limit: h.hop_limit,
        src: h.src,
        dst: h.dst,
        chunks: Map::empty(),
        pos: 0,
        total: None,
        payload: Seq::empty(),
        created: now,
    }
}

/// The packets that are not given up at time `now`.
pub open spec fn live_groups(m: Map<FragmentKey, GroupView>, now: u64) -> Map<FragmentKey, GroupView> {
    Map::new(|k: FragmentKey| m.contains_key(k) && !m[k].stale(now), |k: FragmentKey| m[k])
}

/// What a fragment leads to.
pub ghost enum Outcome {
    /// It was refused.
    Refused(ReassemblyError),
    /// The packet is not complete yet.
    Pending,
    /// It completed a packet.
    Whole(header::HeaderView, Seq<u8>),
}

/// The state and the outcome after a fragment came at time `now`.
pub open spec fn step(m: Map<FragmentKey, GroupView>, h: header::HeaderView, payload: Seq<u8>, now: u64) -> (
    Map<FragmentKey, GroupView>,
    Outcome,
) {
    if h.flags & flags::FRAGMENT == 0 || h.exts.len() == 0 || fragment::fragment_of(h.exts[0]) is None {
        (m, Outcome::Refused(ReassemblyError::FlagMismatch))
    } else {
        let f = fragment::fragment_of(h.exts[0])->Some_0;
        let k = key_of(h, f.id);
        let old_groups = live_groups(m, now);
        if f.more && payload.len() % 8 != 0 {
            (m, Outcome::Refused(ReassemblyError::Misaligned))
        } else if !old_groups.contains_key(k) && old_groups.dom().len() >= MAX_GROUPS {
            (old_groups, Outcome::Refused(ReassemblyError::TooManyGroups))
        } else {
            let g = if old_groups.contains_key(k) {
                old_groups[k]
            } else {
                empty_group(h, now)
            };
            let (g2, e) = group_step(g, h, f, payload);
            match e {
                Some(e) => (old_groups.insert(k, g2), Outcome::Refused(e)),
                None => if !complete(g2) {
                    (old_groups.insert(k, g2), Outcome::Pending)
                } else if too_long(g2) {
                    (old_groups.remove(k), Outcome::Refused(ReassemblyError::Oversize))
                } else {
                    (old_groups.remove(k), Outcome::Whole(whole_header(g2), g2.payload))
                },
            }
        }
    }
}

/// A fragment that overlaps one that waits is refused, and changes nothing. The
/// overlap is the reason, unless the fragment does not fit the packet's length.
pub proof fn overlap_is_refused(g: GroupView, h: header::HeaderView, f: FragmentInfo, payload: Seq<u8>, k: u64)
    requires
        g.chunks.contains_key(k),
        k < f.offset * 8 + payload.len(),
        f.offset * 8 < k + g.chunks[k].len(),
    ensures
        group_step(g, h, f, payload).0 == g,
        group_step(g, h, f, payload).1 is Some,
        ({
            let end = f.offset * 8 + payload.len();
            let fits = (g.total matches Some(t) ==> end == t || (f.more && end < t)) && (f.more || end <= MAX_GROUP_BYTES);
            fits ==> group_step(g, h, f, payload).1 == Some(ReassemblyError::Overlap)
        }),
{
    assert(overlaps(g.chunks, k, f.offset * 8, f.offset * 8 + payload.len()));
}

/// Whether the headers of all packets under reassembly have fields that can be
/// written.
pub open spec fn all_writable(m: Map<FragmentKey, GroupView>) -> bool {
    forall|k: FragmentKey| #[trigger] m.contains_key(k) ==> m[k].writable()
}

/// Whether the packet that a fragment completes, if it completes one, can be
/// written.
pub open spec fn finishes(m: Map<FragmentKey, GroupView>, h: header::HeaderView, payload: Seq<u8>, now: u64) -> bool {
    step(m, h, payload, now).1 matches Outcome::Whole(w, _) ==> encode::encode_error(w) is None
}

/// Where all fragments have headers as a receiver reads them, every packet that
/// they make up can be written: reserved flags are not passed on, and a packet
/// that is too long is refused.
pub proof fn decoded_fragments_finish(m: Map<FragmentKey, GroupView>, h: header::HeaderView, payload: Seq<u8>, now: u64)
    requires
        forall|k: FragmentKey| #[trigger] m.contains_key(k) ==> m[k].wf(),
        all_writable(m),
        h.readable(),
    ensures
        all_writable(step(m, h, payload, now).0),
        finishes(m, h, payload, now),
{
    let fl = h.flags;
    assert((fl & !(0x20u16 | 0x40 | 0xFF80)) & 0xFF80 == 0) by (bit_vector);
    let (n, out) = step(m, h, payload, now);
    assert forall|k: FragmentKey| #[trigger] n.contains_key(k) implies n[k].writable() by {
        if m.contains_key(k) {
            assert(m[k].writable());
        }
    }
    if out is Whole {
        let f = fragment::fragment_of(h.exts[0])->Some_0;
        let k = key_of(h, f.id);
        let live = live_groups(m, now);
        let g = if live.contains_key(k) {
            live[k]
        } else {
            empty_group(h, now)
        };
        if live.contains_key(k) {
            assert(m.contains_key(k));
            assert(m[k].wf() && m[k].writable());
        }
        let g2 = group_step(g, h, f, payload).0;
        let b = g2.flags;
        assert((b | 0x40) & 0xFF80 == 0 && (b & !0x40u16) & 0xFF80 == 0 && (b | 0x40) & 0x40 != 0 && (b & !0x40u16) & 0x40
            == 0) by (bit_vector)
            requires
                b & 0xFF80 == 0,
        ;
        assert(encode::encode_error(whole_header(g2)) is None);
    }
}

impl Group {
    spec fn wf(&self) -> bool {
        self@.wf()
    }

    /// Whether a payload from `start` up to `end` overlaps one that is kept.
    fn overlaps(&self, start: u64, end: u64) -> (r: bool)
        ensures
            r == overlaps_any(self@.chunks, start as int, end as int),
    {
        let ghost kept = self@.chunks;
        for x in it: self.chunks.iter()
            invariant
                kept == self@.chunks,
                forall|j: int|
                    0 <= j < it.index() ==> !overlaps(kept, *(#[trigger] it.seq()[j]).0, start as int, end as int),
        {
            let (k, v) = x;
            assert(self.chunks@.contains_key(*k) && self.chunks@[*k] == *v);
            assert(kept[*k] == v@);
            if *k == start || (*k < end && (*k >= start || start - *k < v.len() as u64)) {
                assert(kept.contains_key(*k) && overlaps(kept, *k, start as int, end as int));
                return true;
            }
        }
        false
    }

    /// Takes in a fragment.
    fn accept(&mut self, hdr: &IPv8Header, f: FragmentInfo, payload: &[u8]) -> (r: Result<(), ReassemblyError>)
        requires
            old(self).wf(),
            f.offset < 0x2000,
            hdr@.exts.len() > 0,
            payload.len() <= isize::MAX,
        ensures
            final(self).wf(),
            match r {
                Ok(_) => group_step(old(self)@, hdr@, f, payload@) == (final(self)@, None::<ReassemblyError>),
                Err(e) => group_step(old(self)@, hdr@, f, payload@) == (final(self)@, Some(e)),
            },
    {
        let start: u64 = f.offset as u64 * 8;
        let end: u64 = start + payload.len() as u64;
        if start < self.pos {
            return Err(ReassemblyError::Overlap);
        }
        if let Some(t) = self.total {
            if end > t {
                return Err(ReassemblyError::BeyondTotal);
            }
        }
        if !f.more {
            if end > MAX_GROUP_BYTES as u64 {
                return Err(ReassemblyError::Oversize);
            }
            if let Some(t) = self.total {
                if t != end {
                    return Err(ReassemblyError::BeyondTotal);
                }
            }
        }
        if self.overlaps(start, end) {
            return Err(ReassemblyError::Overlap);
        }
        if !f.more {
            self.total = Some(end);
        }
        if start == 0 && self.orig_ext.is_none() {
            let mut chain: Vec<ExtensionHeader> = Vec::new();
            fragment::append_exts(&mut chain, &hdr.ext_headers, 1);
            assert(header::ext_views(chain@) =~= hdr@.exts.subrange(1, hdr@.exts.len() as int));
            self.orig_ext = Some(chain);
        }
        let ghost before = self@.chunks;
        let v = vstd::slice::slice_to_vec(payload);
        let _ = self.chunks.insert(start, v);
        assert(self@.chunks =~= before.insert(start, payload@));
        assert(self@.apart()) by {
            assert forall|k: u64| #[trigger] before.contains_key(k) implies !overlaps(before, k, start as int, end as int) by {}
        }
        self.advance();
        Ok(())
    }

    /// Appends what continues the payload.
    fn advance(&mut self)
        requires
            old(self).wf(),
        ensures
            final(self).wf(),
            ({
                let (chunks, pos, payload) = drain(old(self)@.chunks, old(self)@.pos, old(self)@.payload);
                final(self)@ == (GroupView { chunks, pos, payload, ..old(self)@ })
            }),
    {
        let ghost start = self@;
        loop
            invariant
                self.wf(),
                drain(self@.chunks, self@.pos, self@.payload) == drain(start.chunks, start.pos, start.payload),
                self@ == (GroupView { chunks: self@.chunks, pos: self@.pos, payload: self@.payload, ..start }),
            ensures
                self.wf(),
                !self@.chunks.contains_key(self.pos),
                drain(self@.chunks, self@.pos, self@.payload) == drain(start.chunks, start.pos, start.payload),
                self@ == (GroupView { chunks: self@.chunks, pos: self@.pos, payload: self@.payload, ..start }),
            decreases self@.chunks.dom().len(),
        {
            let ghost before = self@;
            let pos: u64 = self.pos;
            match self.chunks.remove(&pos) {
                Some(bytes) => {
                    assert(self@.chunks =~= before.chunks.remove(pos));
                    wire::put_bytes(&mut self.payload, bytes.as_slice());
                    self.pos = pos + bytes.len() as u64;
                },
                None => {
                    assert(self@.chunks =~= before.chunks);
                    break;
                },
            }
        }
    }
}

/// The groups of a reassembler as mathematical values.
spec fn group_views(m: Map<FragmentKey, Group>) -> Map<FragmentKey, GroupView> {
    m.map_values(|g: Group| g@)
}

/// A reassembler of fragments.
pub struct Reassembler {
    groups: Table<FragmentKey, Group>,
}

impl View for Reassembler {
    type V = Map<FragmentKey, GroupView>;

    closed spec fn view(&self) -> Map<FragmentKey, GroupView> {
        group_views(self.groups@)
    }
}

impl Reassembler {
    /// The invariant: every packet under reassembly keeps its own.
    pub closed spec fn wf(&self) -> bool {
        self.groups.wf() && forall|k: FragmentKey| #[trigger] self.groups@.contains_key(k) ==> self.groups@[k].wf()
    }

    /// What the invariant says of every packet under reassembly.
    pub proof fn groups_are_in_order(&self)
        requires
            self.wf(),
        ensures
            forall|k: FragmentKey| #[trigger] self@.contains_key(k) ==> self@[k].wf(),
    {
    }

    /// A reassembler without packets.
    pub fn new() -> (r: Self)
        ensures
            r.wf(),
            r@ == Map::<FragmentKey, GroupView>::empty(),
    {
        let r = Reassembler { groups: Table::new() };
        assert(r@ =~= Map::<FragmentKey, GroupView>::empty());
        r
    }

    /// The number of packets under reassembly.
    pub fn active_groups(&self) -> (n: usize)
        requires
            self.wf(),
        ensures
            n == self@.dom().len(),
    {
        assert(self@.dom() =~= self.groups@.dom());
        self.groups.len()
    }

    /// Gives up packets that were begun too long before `now`, a time in
    /// milliseconds.
    pub fn reap(&mut self, now: u64)
        requires
            old(self).wf(),
        ensures
            final(self).wf(),
            final(self)@ == live_groups(old(self)@, now),
    {
        let _ = self.groups.sweep(now);
        assert(self@ =~= live_groups(old(self)@, now));
    }

    /// Takes in a fragment at time `now`, in milliseconds; gives the header
    /// and the payload of the packet that it completes.
    pub fn accept(&mut self, hdr: &IPv8Header, payload: &[u8], now: u64) -> (r: Result<
        Option<(IPv8Header, Vec<u8>)>,
        ReassemblyError,
    >)
        requires
            old(self).wf(),
            payload.len() <= isize::MAX,
        ensures
            final(self).wf(),
            step(old(self)@, hdr@, payload@, now) == (
                final(self)@,
                match r {
                    Ok(Some((h, p))) => Outcome::Whole(h@, p@),
                    Ok(None) => Outcome::Pending,
                    Err(e) => Outcome::Refused(e),
                },
            ),
    {
        if !Flags::is_fragment(hdr.flags) || hdr.ext_headers.len() == 0 {
            return Err(ReassemblyError::FlagMismatch);
        }
        assert(hdr@.exts[0] == hdr.ext_headers@[0]@);
        let f = match FragmentInfo::parse(&hdr.ext_headers[0]) {
            Some(f) => f,
            None => {
                return Err(ReassemblyError::FlagMismatch);
            },
        };
        if f.more && payload.len() % 8 != 0 {
            return Err(ReassemblyError::Misaligned);
        }
        self.reap(now);
        let ghost alive = self@;
        let k = FragmentKey { src: keyed(&hdr.src_addr), dst: keyed(&hdr.dst_addr), id: f.id };
        assert(alive.dom() =~= self.groups@.dom());
        if !self.groups.contains(&k) && self.groups.len() >= MAX_GROUPS {
            return Err(ReassemblyError::TooManyGroups);
        }
        let mut g = match self.groups.remove(&k) {
            Some(g) => g,
            None => {
                let g = Group {
                    orig_ext: None,
                    flags: hdr.flags & !(flags::FRAGMENT | flags::HAS_EXTENSION | flags::RESERVED_MASK),
                    version: hdr.version,
                    min_compat_ver: hdr.min_compat_ver,
                    hop_limit: hdr.hop_limit,
                    src: hdr.src_addr,
                    dst: hdr.dst_addr,
                    chunks: BTreeMap::new(),
                    pos: 0,
                    total: None,
                    payload: Vec::new(),
                    created: now,
                };
                assert(g@.chunks =~= Map::empty());
                g
            },
        };
        assert(self@ =~= alive.remove(k));
        let r = g.accept(hdr, f, payload);
        match r {
            Ok(_) => {
                let done: bool = match g.total {
                    Some(t) => t == g.pos,
                    None => false,
                };
                if done {
                    return finish(g);
                }
            },
            Err(_) => {},
        }
        let ghost gv = g@;
        self.groups.insert(k, g);
        assert(self@ =~= alive.insert(k, gv));
        match r {
            Ok(_) => Ok(None),
            Err(e) => Err(e),
        }
    }

    /// Takes in a fragment at time `now`, in milliseconds; gives the bytes of
    /// the packet that it completes. Fragments that were decoded are always
    /// taken; others must not complete a packet that cannot be written.
    pub fn insert(&mut self, hdr: &IPv8Header, payload: &[u8], now: u64) -> (r: Result<Option<Vec<u8>>, ReassemblyError>)
        requires
            old(self).wf(),
            all_writable(old(self)@) && hdr@.readable() || finishes(old(self)@, hdr@, payload@, now),
            payload.len() <= isize::MAX,
        ensures
            final(self).wf(),
            all_writable(old(self)@) && hdr@.readable() ==> all_writable(final(self)@),
            final(self)@ == step(old(self)@, hdr@, payload@, now).0,
            match step(old(self)@, hdr@, payload@, now).1 {
                Outcome::Whole(h, p) => r matches Ok(Some(v)) && v@ == encode::header_wire(h) + p,
                Outcome::Pending => r matches Ok(None),
                Outcome::Refused(e) => r == Err::<Option<Vec<u8>>, ReassemblyError>(e),
            },
    {
        proof {
            if all_writable(self@) && hdr@.readable() {
                self.groups_are_in_order();
                decoded_fragments_finish(self@, hdr@, payload@, now);
            }
        }
        match self.accept(hdr, payload, now) {
            Ok(Some((h, p))) => {
                let mut out: Vec<u8> = Vec::new();
                let _ = encode::encode_header(&h, &mut out);
                wire::put_bytes(&mut out, p.as_slice());
                assert(out@ =~= encode::header_wire(h@) + p@);
                Ok(Some(out))
            },
            Ok(None) => Ok(None),
            Err(e) => Err(e),
        }
    }
}

/// The address that stands for another one as part of a key.
fn keyed(a: &IPv8Address) -> (r: IPv8Address)
    ensures
        r == key_address(*a),
{
    if a.reserved[0] == 0 && a.reserved[1] == 0 && a.reserved[2] == 0 {
        assert(a.reserved@ =~= seq![0u8, 0u8, 0u8]);
        *a
    } else {
        IPv8Address::new(0, 0, 0, 0, 0)
    }
}

/// The header and the payload of a complete packet, unless it is too long.
fn finish(g: Group) -> (r: Result<Option<(IPv8Header, Vec<u8>)>, ReassemblyError>)
    requires
        g.wf(),
        complete(g@),
    ensures
        match r {
            Ok(Some((h, p))) => !too_long(g@) && h@ == whole_header(g@) && p@ == g@.payload,
            Ok(None) => false,
            Err(e) => too_long(g@) && e == ReassemblyError::Oversize,
        },
{
    let mut h = IPv8Header {
        version: g.version,
        min_compat_ver: g.min_compat_ver,
        flags: g.flags,
        payload_len: g.pos as u16,
        hop_limit: g.hop_limit,
        next_header: 0,
        src_addr: g.src,
        dst_addr: g.dst,
        ext_headers: Vec::new(),
    };
    assert(h@.exts =~= Seq::empty());
    let chain = match g.orig_ext {
        Some(v) => v,
        None => Vec::new(),
    };
    assert(header::ext_views(chain@) =~= whole_chain(g@));
    if encode::chain_size_within(&chain, MAX_PACKET_LEN - BASE_HEADER_SIZE - g.pos as usize).is_none() {
        return Err(ReassemblyError::Oversize);
    }
    h.attach_ext_headers(chain);
    Ok(Some((h, g.payload)))
}

} // verus!
