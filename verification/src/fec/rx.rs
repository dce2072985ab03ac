//! The receiving side: keeps data frames and rebuilds the one that is missing
//! from a group.

use vstd::prelude::*;
use std::collections::HashMap;
use std::collections::VecDeque;
use crate::fec;
use crate::fec::{
    FecError, DATA_FRAME_TYPE, DATA_MIN_FRAME, DEFAULT_RX_CACHE, FEC_FRAME_TYPE, FEC_MAX_K, FEC_MIN_K, MAX_SEEN_GROUPS,
    TUNNEL_VERSION,
};
use crate::wire;

verus! {

broadcast use vstd::std_specs::hash::group_hash_axioms;

/// Data frames that came, and groups that were looked at.
pub struct FecRx {
    cache: HashMap<u64, Vec<u8>>,
    order: VecDeque<u64>,
    limit: usize,
    seen_groups: VecDeque<u64>,
    /// Frames that were rebuilt.
    pub recovered: u64,
    /// Groups of which more than one frame was missing.
    pub abandoned: u64,
    /// Recovery frames that came again.
    pub dup_recovery: u64,
}

/// The state of a receiver as a mathematical value.
pub ghost struct RxView {
    /// The frames by their counters.
    pub cache: Map<u64, Seq<u8>>,
    /// The counters in the order in which they came.
    pub order: Seq<u64>,
    /// Greatest number of frames to keep.
    pub limit: nat,
    /// The groups that were looked at, the latest last.
    pub seen: Seq<u64>,
    pub recovered: u64,
    pub abandoned: u64,
    pub dup_recovery: u64,
}

impl View for FecRx {
    type V = RxView;

    closed spec fn view(&self) -> RxView {
        RxView {
            cache: self.cache@.map_values(|v: Vec<u8>| v@),
            order: self.order@,
            limit: self.limit as nat,
            seen: self.seen_groups@,
            recovered: self.recovered,
            abandoned: self.abandoned,
            dup_recovery: self.dup_recovery,
        }
    }
}

impl RxView {
    /// The invariant: the order names each kept frame once, and no more is
    /// kept than allowed.
    pub open spec fn wf(self) -> bool {
        &&& self.limit > 0
        &&& self.order.len() <= self.limit
        &&& self.order.no_duplicates()
        &&& forall|c: u64| #[trigger] self.cache.contains_key(c) <==> self.order.contains(c)
        &&& self.seen.len() <= MAX_SEEN_GROUPS
    }
}

/// The state after a data frame came: it is kept, in place of one with the
/// same counter, or else in place of the oldest where there is no more room.
pub open spec fn observed(v: RxView, frame: Seq<u8>) -> RxView {
    let c = fec::counter_of(frame);
    let cache = v.cache.insert(c, frame);
    if v.cache.contains_key(c) {
        RxView { cache, ..v }
    } else if v.order.len() < v.limit {
        RxView { cache, order: v.order.push(c), ..v }
    } else {
        RxView { cache: cache.remove(v.order[0]), order: v.order.push(c).drop_first(), ..v }
    }
}

/// What the head of a recovery frame is wrong with.
pub open spec fn head_error(frame: Seq<u8>) -> Option<FecError> {
    if frame.len() < 22 {
        Some(FecError::BodyTooShort { need: 22, got: frame.len() as usize })
    } else if frame[0] != TUNNEL_VERSION || frame[1] != FEC_FRAME_TYPE {
        Some(FecError::SanityCheck)
    } else if !(FEC_MIN_K <= frame[18] <= FEC_MAX_K) {
        Some(FecError::BadK(frame[18] as usize))
    } else if frame.len() < 22 + frame[18] * 10 {
        Some(FecError::BodyTooShort { need: (22 + frame[18] * 10) as usize, got: frame.len() as usize })
    } else {
        None
    }
}

/// The number of the group of a recovery frame.
pub open spec fn group_of(frame: Seq<u8>) -> u64 {
    wire::be64_at(frame, 10)
}

/// The counters of the members of a recovery frame.
pub open spec fn member_counters(frame: Seq<u8>) -> Seq<u64> {
    Seq::new(frame[18] as nat, |i: int| wire::be64_at(frame, 22 + 8 * i))
}

/// The lengths of the members of a recovery frame.
pub open spec fn member_lens(frame: Seq<u8>) -> Seq<u16> {
    Seq::new(frame[18] as nat, |i: int| wire::be16_at(frame, 22 + 8 * frame[18] + 2 * i))
}

/// The parity of a recovery frame.
pub open spec fn parity_of(frame: Seq<u8>) -> Seq<u8> {
    frame.subrange(22 + 10 * frame[18], frame.len() as int)
}

/// The greatest of some lengths.
pub open spec fn greatest(lens: Seq<u16>) -> u16
    decreases lens.len(),
{
    if lens.len() == 0 {
        0
    } else if lens.last() > greatest(lens.drop_last()) {
        lens.last()
    } else {
        greatest(lens.drop_last())
    }
}

/// The first of some lengths that is too short for a data frame.
pub open spec fn short_len(lens: Seq<u16>) -> Option<u16>
    decreases lens.len(),
{
    if lens.len() == 0 {
        None
    } else {
        match short_len(lens.drop_last()) {
            Some(n) => Some(n),
            None => if lens.last() < DATA_MIN_FRAME {
                Some(lens.last())
            } else {
                None
            },
        }
    }
}

/// What the lengths in a recovery frame are wrong with.
pub open spec fn table_error(frame: Seq<u8>) -> Option<FecError> {
    let lens = member_lens(frame);
    if parity_of(frame).len() != greatest(lens) {
        Some(FecError::XorLenMismatch { expect: greatest(lens) as usize, got: parity_of(frame).len() as usize })
    } else {
        match short_len(lens) {
            Some(n) => Some(FecError::BadMemberLen(n as usize)),
            None => None,
        }
    }
}

/// The groups looked at, with one more; the oldest is forgotten where there is
/// no more room.
pub open spec fn remembered(seen: Seq<u64>, group: u64) -> Seq<u64> {
    if seen.len() < MAX_SEEN_GROUPS {
        seen.push(group)
    } else {
        seen.push(group).drop_first()
    }
}

/// Whether member `i` is missing.
pub open spec fn missing(cache: Map<u64, Seq<u8>>, counters: Seq<u64>, i: int) -> bool {
    0 <= i < counters.len() && !cache.contains_key(counters[i])
}

/// The kept frames of all members but one.
pub open spec fn others(cache: Map<u64, Seq<u8>>, counters: Seq<u64>, m: int) -> Seq<Seq<u8>> {
    counters.remove(m).map_values(|c: u64| cache[c])
}

/// What the missing member must have been.
pub open spec fn rebuilt(cache: Map<u64, Seq<u8>>, frame: Seq<u8>, m: int) -> Seq<u8> {
    let rest = others(cache, member_counters(frame), m);
    Seq::new(member_lens(frame)[m] as nat, |i: int| parity_of(frame)[i] ^ fec::xor_byte(rest, i))
}

/// Whether a rebuilt frame is a data frame with the right counter.
pub open spec fn plausible(f: Seq<u8>, counter: u64) -> bool {
    f[0] == TUNNEL_VERSION && f[1] == DATA_FRAME_TYPE && fec::counter_of(f) == counter
}

/// The state and the result after a recovery frame came.
pub open spec fn recovery_step(v: RxView, frame: Seq<u8>) -> (RxView, Result<Option<Seq<u8>>, FecError>) {
    let counters = member_counters(frame);
    let noted = RxView { seen: remembered(v.seen, group_of(frame)), ..v };
    if head_error(frame) is Some {
        (v, Err(head_error(frame)->Some_0))
    } else if v.seen.contains(group_of(frame)) {
        (RxView { dup_recovery: (v.dup_recovery + 1) as u64, ..v }, Ok(None))
    } else if table_error(frame) is Some {
        (v, Err(table_error(frame)->Some_0))
    } else if forall|i: int| !missing(v.cache, counters, i) {
        (noted, Ok(None))
    } else if exists|i: int, j: int| i != j && missing(v.cache, counters, i) && missing(v.cache, counters, j) {
        (RxView { abandoned: (v.abandoned + 1) as u64, ..noted }, Ok(None))
    } else {
        let m = choose|m: int| missing(v.cache, counters, m);
        let f = rebuilt(v.cache, frame, m);
        if !plausible(f, counters[m]) {
            (noted, Err(FecError::SanityCheck))
        } else {
            (RxView { recovered: (v.recovered + 1) as u64, ..noted }, Ok(Some(f)))
        }
    }
}

impl FecRx {
    /// The invariant of a receiver.
    pub open spec fn wf(&self) -> bool {
        self@.wf()
    }

    /// A receiver that keeps at most `limit` frames; 0 stands for the default.
    pub fn new(limit: usize) -> (r: Self)
        ensures
            r.wf(),
            r@ == (RxView {
                cache: Map::empty(),
                order: Seq::empty(),
                limit: if limit == 0 {
                    DEFAULT_RX_CACHE as nat
                } else {
                    limit as nat
                },
                seen: Seq::empty(),
                recovered: 0,
                abandoned: 0,
                dup_recovery: 0,
            }),
    {
        let r = FecRx {
            cache: HashMap::new(),
            order: VecDeque::new(),
            limit: if limit == 0 {
                DEFAULT_RX_CACHE
            } else {
                limit
            },
            seen_groups: VecDeque::new(),
            recovered: 0,
            abandoned: 0,
            dup_recovery: 0,
        };
        assert(r@.cache =~= Map::empty());
        r
    }

    /// The number of frames kept.
    pub fn cached(&self) -> (n: usize)
        ensures
            n == self@.cache.dom().len(),
    {
        assert(self@.cache.dom() =~= self.cache@.dom());
        self.cache.len()
    }

    /// Keeps a data frame.
    pub fn observe_data(&mut self, frame: &[u8]) -> (r: Result<(), FecError>)
        requires
            old(self).wf(),
        ensures
            final(self).wf(),
            if frame@.len() < DATA_MIN_FRAME {
                &&& r == Err::<(), FecError>(FecError::TooShort(frame@.len() as usize))
                &&& final(self)@ == old(self)@
            } else {
                &&& r == Ok::<(), FecError>(())
                &&& final(self)@ == observed(old(self)@, frame@)
            },
    {
        let counter: u64 = match fec::data_counter(frame) {
            Ok(c) => c,
            Err(e) => {
                return Err(e);
            },
        };
        let ghost v = self@;
        assert(v.cache.contains_key(counter) == self.cache@.contains_key(counter));
        let was = self.cache.insert(counter, vstd::slice::slice_to_vec(frame));
        assert(self@.cache =~= v.cache.insert(counter, frame@));
        if was.is_some() {
            return Ok(());
        }
        assert(!v.order.contains(counter));
        self.order.push_back(counter);
        proof {
            let o = v.order.push(counter);
            assert forall|c: u64| o.contains(c) == (v.order.contains(c) || c == counter) by {
                if v.order.contains(c) {
                    let i = choose|i: int| 0 <= i < v.order.len() && v.order[i] == c;
                    assert(o[i] == c);
                }
                if c == counter {
                    assert(o[v.order.len() as int] == c);
                }
            }
            assert(o.no_duplicates());
        }
        if self.order.len() > self.limit {
            let ghost o = self.order@;
            let ghost cache = self@.cache;
            if let Some(oldest) = self.order.pop_front() {
                let _ = self.cache.remove(&oldest);
                proof {
                    assert(self@.cache =~= cache.remove(oldest));
                    let t = o.subrange(1, o.len() as int);
                    assert(t =~= o.drop_first());
                    assert forall|c: u64| t.contains(c) == (o.contains(c) && c != oldest) by {
                        if t.contains(c) {
                            let i = choose|i: int| 0 <= i < t.len() && t[i] == c;
                            assert(o[i + 1] == c);
                            assert(o[0] != o[i + 1]);
                        }
                        if o.contains(c) && c != oldest {
                            let i = choose|i: int| 0 <= i < o.len() && o[i] == c;
                            assert(t[i - 1] == c);
                        }
                    }
                    assert(oldest == v.order[0]);
                }
            }
        }
        Ok(())
    }

    /// Looks at a recovery frame; gives the frame that is missing from its
    /// group, where it is the only one.
    pub fn accept_recovery(&mut self, frame: &[u8]) -> (r: Result<Option<Vec<u8>>, FecError>)
        requires
            old(self).wf(),
            old(self)@.recovered < u64::MAX,
            old(self)@.abandoned < u64::MAX,
            old(self)@.dup_recovery < u64::MAX,
        ensures
            final(self).wf(),
            recovery_step(old(self)@, frame@) == (
                final(self)@,
                match r {
                    Ok(Some(f)) => Ok::<Option<Seq<u8>>, FecError>(Some(f@)),
                    Ok(None) => Ok(None),
                    Err(e) => Err(e),
                },
            ),
    {
        let ghost v = self@;
        if frame.len() < 22 {
            return Err(FecError::BodyTooShort { need: 22, got: frame.len() });
        }
        if frame[0] != TUNNEL_VERSION || frame[1] != FEC_FRAME_TYPE {
            return Err(FecError::SanityCheck);
        }
        let group: u64 = wire::get_be64(frame, 10);
        let k: usize = frame[18] as usize;
        if k < FEC_MIN_K || k > FEC_MAX_K {
            return Err(FecError::BadK(k));
        }
        let table_end: usize = 22 + k * 10;
        if frame.len() < table_end {
            return Err(FecError::BodyTooShort { need: table_end, got: frame.len() });
        }
        if self.has_seen(group) {
            self.dup_recovery = self.dup_recovery + 1;
            return Ok(None);
        }
        let (counters, lens) = read_table(frame, k);
        match check_lens(&lens, frame.len() - table_end) {
            Ok(_) => {},
            Err(e) => {
                assert(parity_of(frame@).len() == frame@.len() - table_end);
                return Err(e);
            },
        }
        assert(table_error(frame@) is None);
        self.seen_groups.push_back(group);
        if self.seen_groups.len() > MAX_SEEN_GROUPS {
            let ghost s = self.seen_groups@;
            let _ = self.seen_groups.pop_front();
            assert(self.seen_groups@ =~= s.drop_first());
        }
        assert(self@ == (RxView { seen: remembered(v.seen, group), ..v }));
        match self.find_missing(&counters) {
            Absent::Nothing => Ok(None),
            Absent::Several => {
                self.abandoned = self.abandoned + 1;
                Ok(None)
            },
            Absent::One(m) => {
                let ghost mi = choose|m: int| missing(v.cache, counters@, m);
                proof {
                    assert(missing(v.cache, counters@, m as int));
                    assert(mi == m);
                }
                let recon = self.rebuild(frame, &counters, m, lens[m] as usize);
                let ok: bool = recon[0] == TUNNEL_VERSION && recon[1] == DATA_FRAME_TYPE && wire::get_be64(
                    recon.as_slice(),
                    recon.len() - 24,
                ) == counters[m];
                if !ok {
                    return Err(FecError::SanityCheck);
                }
                self.recovered = self.recovered + 1;
                Ok(Some(recon))
            },
        }
    }

    /// Whether a group was looked at.
    fn has_seen(&self, group: u64) -> (r: bool)
        ensures
            r == self@.seen.contains(group),
    {
        let mut i: usize = 0;
        while i < self.seen_groups.len()
            invariant
                i <= self.seen_groups.len(),
                forall|j: int| 0 <= j < i ==> self.seen_groups@[j] != group,
            decreases self.seen_groups.len() - i,
        {
            if self.seen_groups[i] == group {
                return true;
            }
            i = i + 1;
        }
        false
    }

    /// Which members of a group are missing.
    fn find_missing(&self, counters: &Vec<u64>) -> (r: Absent)
        ensures
            match r {
                Absent::Nothing => forall|i: int| !missing(self@.cache, counters@, i),
                Absent::One(m) => {
                    &&& missing(self@.cache, counters@, m as int)
                    &&& forall|i: int| missing(self@.cache, counters@, i) ==> i == m
                },
                Absent::Several => exists|i: int, j: int|
                    i != j && missing(self@.cache, counters@, i) && missing(self@.cache, counters@, j),
            },
    {
        let mut found: Option<usize> = None;
        let mut i: usize = 0;
        while i < counters.len()
            invariant
                i <= counters.len(),
                match found {
                    None => forall|j: int| 0 <= j < i ==> !missing(self@.cache, counters@, j),
                    Some(m) => m < i && missing(self@.cache, counters@, m as int) && forall|j: int|
                        0 <= j < i && missing(self@.cache, counters@, j) ==> j == m,
                },
            decreases counters.len() - i,
        {
            if !self.cache.contains_key(&counters[i]) {
                assert(missing(self@.cache, counters@, i as int));
                if let Some(m) = found {
                    assert(missing(self@.cache, counters@, m as int) && m != i);
                    return Absent::Several;
                }
                found = Some(i);
            }
            i = i + 1;
        }
        match found {
            Some(m) => Absent::One(m),
            None => Absent::Nothing,
        }
    }

    /// Rebuilds the missing member.
    fn rebuild(&self, frame: &[u8], counters: &Vec<u64>, m: usize, want: usize) -> (f: Vec<u8>)
        requires
            head_error(frame@) is None,
            table_error(frame@) is None,
            counters@ == member_counters(frame@),
            m < counters@.len(),
            want == member_lens(frame@)[m as int],
            forall|i: int| missing(self@.cache, counters@, i) ==> i == m,
        ensures
            f@ == rebuilt(self@.cache, frame@, m as int),
            f@.len() == want,
            want >= DATA_MIN_FRAME,
    {
        let start: usize = 22 + counters.len() * 10;
        let mut recon = wire::copy_range(frame, start, frame.len());
        let ghost p = parity_of(frame@);
        let ghost cache = self@.cache;
        assert(recon@ =~= p);
        let ghost mut rest: Seq<Seq<u8>> = Seq::empty();
        let mut i: usize = 0;
        proof {
            assert forall|q: int| 0 <= q < p.len() implies #[trigger] recon@[q] == p[q] ^ fec::xor_byte(rest, q) by {
                let x = p[q];
                assert(x ^ 0 == x) by (bit_vector);
            }
        }
        while i < counters.len()
            invariant
                i <= counters.len(),
                m < counters@.len(),
                cache == self@.cache,
                forall|j: int| missing(cache, counters@, j) ==> j == m,
                recon@.len() == p.len(),
                rest.len() == if i <= m {
                    i as int
                } else {
                    i - 1
                },
                forall|j: int|
                    0 <= j < rest.len() ==> #[trigger] rest[j] == cache[counters@[if j < m {
                        j
                    } else {
                        j + 1
                    }]],
                forall|q: int| 0 <= q < p.len() ==> #[trigger] recon@[q] == p[q] ^ fec::xor_byte(rest, q),
            decreases counters.len() - i,
        {
            if i != m {
                assert(!missing(cache, counters@, i as int));
                match self.cache.get(&counters[i]) {
                    Some(f) => {
                        let ghost before = recon@;
                        let ghost old_rest = rest;
                        fec::xor_into(recon.as_mut_slice(), f.as_slice());
                        proof {
                            assert(cache[counters@[i as int]] == f@);
                            rest = old_rest.push(f@);
                            assert(rest.drop_last() =~= old_rest);
                            assert forall|q: int| 0 <= q < p.len() implies #[trigger] recon@[q] == p[q] ^ fec::xor_byte(
                                rest,
                                q,
                            ) by {
                                let x = p[q];
                                let y = fec::xor_byte(old_rest, q);
                                let z = fec::byte_at(f@, q);
                                assert((x ^ y) ^ z == x ^ (y ^ z)) by (bit_vector);
                                let w = x ^ y;
                                assert(w ^ 0 == w) by (bit_vector);
                                assert(before[q] == w);
                            }
                        }
                    },
                    None => {},
                }
            }
            i = i + 1;
        }
        proof {
            assert(rest =~= others(cache, counters@, m as int));
            len_bounds(member_lens(frame@), m as int);
        }
        recon.truncate(want);
        assert(recon@ =~= rebuilt(cache, frame@, m as int));
        recon
    }
}

/// How many members of a group are missing.
enum Absent {
    Nothing,
    One(usize),
    Several,
}

/// A length is no greater than the greatest and, where none is too short, not
/// too short.
proof fn len_bounds(lens: Seq<u16>, i: int)
    requires
        0 <= i < lens.len(),
    ensures
        lens[i] <= greatest(lens),
        short_len(lens) is None ==> lens[i] >= DATA_MIN_FRAME,
    decreases lens.len(),
{
    if i < lens.len() - 1 {
        len_bounds(lens.drop_last(), i);
    }
}

/// Reads the counters and the lengths of a recovery frame.
fn read_table(frame: &[u8], k: usize) -> (r: (Vec<u64>, Vec<u16>))
    requires
        frame.len() >= 22 + 10 * k,
        k == frame@[18],
    ensures
        r.0@ == member_counters(frame@),
        r.1@ == member_lens(frame@),
{
    let mut counters: Vec<u64> = Vec::new();
    let mut lens: Vec<u16> = Vec::new();
    let mut i: usize = 0;
    while i < k
        invariant
            i <= k <= 255,
            frame.len() >= 22 + 10 * k,
            counters@.len() == i,
            lens@.len() == i,
            forall|j: int| 0 <= j < i ==> #[trigger] counters@[j] == wire::be64_at(frame@, 22 + 8 * j),
            forall|j: int| 0 <= j < i ==> #[trigger] lens@[j] == wire::be16_at(frame@, 22 + 8 * k + 2 * j),
        decreases k - i,
    {
        counters.push(wire::get_be64(frame, 22 + 8 * i));
        lens.push(wire::get_be16(frame, 22 + 8 * k + 2 * i));
        i = i + 1;
    }
    assert(counters@ =~= member_counters(frame@));
    assert(lens@ =~= member_lens(frame@));
    (counters, lens)
}

/// Holds the lengths of members against the length of the parity.
fn check_lens(lens: &Vec<u16>, xor_len: usize) -> (r: Result<(), FecError>)
    ensures
        match r {
            Ok(_) => xor_len == greatest(lens@) && short_len(lens@) is None,
            Err(e) => if xor_len != greatest(lens@) {
                e == (FecError::XorLenMismatch { expect: greatest(lens@) as usize, got: xor_len })
            } else {
                short_len(lens@) matches Some(n) && e == FecError::BadMemberLen(n as usize)
            },
        },
{
    let mut max: u16 = 0;
    let mut short: Option<u16> = None;
    let mut i: usize = 0;
    assert(lens@.subrange(0, 0) =~= Seq::empty());
    while i < lens.len()
        invariant
            i <= lens.len(),
            max == greatest(lens@.subrange(0, i as int)),
            short == short_len(lens@.subrange(0, i as int)),
        decreases lens.len() - i,
    {
        let n: u16 = lens[i];
        assert(lens@.subrange(0, i + 1).drop_last() =~= lens@.subrange(0, i as int));
        if n > max {
            max = n;
        }
        if short.is_none() && (n as usize) < DATA_MIN_FRAME {
            short = Some(n);
        }
        i = i + 1;
    }
    assert(lens@.subrange(0, i as int) =~= lens@);
    if xor_len != max as usize {
        return Err(FecError::XorLenMismatch { expect: max as usize, got: xor_len });
    }
    match short {
        Some(n) => Err(FecError::BadMemberLen(n as usize)),
        None => Ok(()),
    }
}

} // verus!
