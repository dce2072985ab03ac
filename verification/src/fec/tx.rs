//! The sending side: collects data frames into groups.

use vstd::prelude::*;
use crate::fec;
use crate::fec::{FecError, DATA_MIN_FRAME, FEC_FRAME_TYPE, FEC_MAX_K, FEC_MIN_K, TUNNEL_VERSION};
use crate::wire;

verus! {

/// The group that is being collected.
pub struct FecTx {
    k: usize,
    group_seq: u64,
    acc: Vec<u8>,
    counters: Vec<u64>,
    lens: Vec<u16>,
    members: Ghost<Seq<Seq<u8>>>,
}

/// The group that is being collected, as a mathematical value.
pub ghost struct TxView {
    /// Size of a group.
    pub k: nat,
    /// Number of the group.
    pub group_seq: u64,
    /// The frames collected so far.
    pub members: Seq<Seq<u8>>,
}

/// The length of a frame as a recovery frame states it.
pub open spec fn stated_len(frame: Seq<u8>) -> u16 {
    if frame.len() > 65535 {
        65535
    } else {
        frame.len() as u16
    }
}

/// The counters of some frames, one after the other.
pub open spec fn counters_wire(counters: Seq<u64>) -> Seq<u8>
    decreases counters.len(),
{
    if counters.len() == 0 {
        Seq::empty()
    } else {
        counters_wire(counters.drop_last()) + wire::be64(counters.last())
    }
}

/// The lengths of some frames, one after the other.
pub open spec fn lens_wire(lens: Seq<u16>) -> Seq<u8>
    decreases lens.len(),
{
    if lens.len() == 0 {
        Seq::empty()
    } else {
        lens_wire(lens.drop_last()) + wire::be16(lens.last())
    }
}

/// The counters of some frames.
pub open spec fn counters_of(frames: Seq<Seq<u8>>) -> Seq<u64> {
    frames.map_values(|f: Seq<u8>| fec::counter_of(f))
}

/// The stated lengths of some frames.
pub open spec fn lens_of(frames: Seq<Seq<u8>>) -> Seq<u16> {
    frames.map_values(|f: Seq<u8>| stated_len(f))
}

/// A recovery frame: version, type, key (2-9), number of the group (10-17),
/// size (18), reserved (19-21), counters, lengths, parity.
pub open spec fn recovery_wire(group_seq: u64, members: Seq<Seq<u8>>, key_id: Seq<u8>) -> Seq<u8> {
    seq![TUNNEL_VERSION, FEC_FRAME_TYPE] + key_id + wire::be64(group_seq) + seq![members.len() as u8] + wire::zeros(3)
        + counters_wire(counters_of(members)) + lens_wire(lens_of(members)) + fec::parity(members)
}

impl View for FecTx {
    type V = TxView;

    closed spec fn view(&self) -> TxView {
        TxView { k: self.k as nat, group_seq: self.group_seq, members: self.members@ }
    }
}

impl FecTx {
    /// The invariant: what is kept of the members is their parity, their
    /// counters and their lengths.
    pub closed spec fn wf(&self) -> bool {
        &&& FEC_MIN_K <= self.k <= FEC_MAX_K
        &&& self.members@.len() < self.k
        &&& forall|i: int| 0 <= i < self.members@.len() ==> (#[trigger] self.members@[i]).len() >= DATA_MIN_FRAME
        &&& self.keeps()
    }

    /// A collector of groups of `k` frames, 2 to 16.
    pub fn new(k: usize) -> (r: Result<Self, FecError>)
        ensures
            match r {
                Ok(t) => {
                    &&& FEC_MIN_K <= k <= FEC_MAX_K
                    &&& t.wf()
                    &&& t@ == (TxView { k: k as nat, group_seq: 0, members: Seq::empty() })
                },
                Err(e) => !(FEC_MIN_K <= k <= FEC_MAX_K) && e == FecError::BadK(k),
            },
    {
        if k < FEC_MIN_K || k > FEC_MAX_K {
            return Err(FecError::BadK(k));
        }
        let t = FecTx {
            k,
            group_seq: 0,
            acc: Vec::new(),
            counters: Vec::new(),
            lens: Vec::new(),
            members: Ghost(Seq::empty()),
        };
        proof {
            assert(t.acc@ =~= fec::parity(t.members@));
            assert(t.counters@ =~= counters_of(t.members@));
            assert(t.lens@ =~= lens_of(t.members@));
        }
        Ok(t)
    }

    /// The number of frames collected so far.
    pub fn pending(&self) -> (n: usize)
        requires
            self.wf(),
        ensures
            n == self@.members.len(),
    {
        self.counters.len()
    }

    /// The size of a group.
    pub fn k(&self) -> (n: usize)
        requires
            self.wf(),
        ensures
            n == self@.k,
    {
        self.k
    }

    /// Adds a data frame; gives the recovery frame where it fills the group.
    pub fn push(&mut self, frame: &[u8], key_id: [u8; 8]) -> (r: Result<Option<Vec<u8>>, FecError>)
        requires
            old(self).wf(),
        ensures
            final(self).wf(),
            ({
                let v = old(self)@;
                let members = v.members.push(frame@);
                if frame@.len() < DATA_MIN_FRAME {
                    &&& r == Err::<Option<Vec<u8>>, FecError>(FecError::TooShort(frame@.len() as usize))
                    &&& final(self)@ == v
                } else if members.len() < v.k {
                    &&& r matches Ok(None)
                    &&& final(self)@ == (TxView { members, ..v })
                } else {
                    &&& r matches Ok(Some(out))
                    &&& out@ == recovery_wire(v.group_seq, members, key_id@)
                    &&& final(self)@ == (TxView {
                        group_seq: ((v.group_seq + 1) % 0x1_0000_0000_0000_0000) as u64,
                        members: Seq::empty(),
                        ..v
                    })
                }
            }),
    {
        let counter: u64 = match fec::data_counter(frame) {
            Ok(c) => c,
            Err(e) => {
                return Err(e);
            },
        };
        self.take(frame, counter);
        if self.counters.len() < self.k {
            return Ok(None);
        }
        let out = self.encode_recovery(key_id);
        self.restart();
        Ok(Some(out))
    }

    /// Whether what is kept of the members is their parity, their counters and
    /// their lengths.
    closed spec fn keeps(&self) -> bool {
        &&& self.acc@ == fec::parity(self.members@)
        &&& self.counters@ == counters_of(self.members@)
        &&& self.lens@ == lens_of(self.members@)
    }

    /// Adds a member to the group.
    fn take(&mut self, frame: &[u8], counter: u64)
        requires
            old(self).keeps(),
            counter == fec::counter_of(frame@),
        ensures
            final(self).keeps(),
            final(self).members@ == old(self).members@.push(frame@),
            final(self).k == old(self).k,
            final(self).group_seq == old(self).group_seq,
    {
        let ghost before = self.members@;
        let ghost members = before.push(frame@);
        absorb(&mut self.acc, frame, Ghost(before));
        self.counters.push(counter);
        let len: u16 = if frame.len() > 65535 {
            65535
        } else {
            frame.len() as u16
        };
        self.lens.push(len);
        assert(self.counters@ =~= counters_of(members));
        assert(self.lens@ =~= lens_of(members));
        self.members = Ghost(members);
    }

    /// Begins the next group.
    fn restart(&mut self)
        ensures
            final(self).keeps(),
            final(self).members@ == Seq::<Seq<u8>>::empty(),
            final(self).k == old(self).k,
            final(self).group_seq == (old(self).group_seq + 1) % 0x1_0000_0000_0000_0000,
    {
        self.group_seq = self.group_seq.wrapping_add(1);
        self.acc.clear();
        self.counters.clear();
        self.lens.clear();
        self.members = Ghost(Seq::empty());
        assert(self.acc@ =~= fec::parity(self.members@));
        assert(self.counters@ =~= counters_of(self.members@));
        assert(self.lens@ =~= lens_of(self.members@));
    }

    /// The recovery frame of the group.
    fn encode_recovery(&self, key_id: [u8; 8]) -> (f: Vec<u8>)
        requires
            self.keeps(),
            self.members@.len() <= FEC_MAX_K,
        ensures
            f@ == recovery_wire(self.group_seq, self.members@, key_id@),
    {
        let mut f: Vec<u8> = Vec::new();
        f.push(TUNNEL_VERSION);
        f.push(FEC_FRAME_TYPE);
        wire::put_bytes(&mut f, key_id.as_slice());
        wire::put_be64(&mut f, self.group_seq);
        f.push(self.counters.len() as u8);
        wire::put_zeros(&mut f, 3);
        put_counters(&mut f, &self.counters);
        put_lens(&mut f, &self.lens);
        wire::put_bytes(&mut f, self.acc.as_slice());
        assert(f@ =~= recovery_wire(self.group_seq, self.members@, key_id@));
        f
    }
}

/// Adds a frame to the parity of some frames.
fn absorb(acc: &mut Vec<u8>, frame: &[u8], Ghost(before): Ghost<Seq<Seq<u8>>>)
    requires
        old(acc)@ == fec::parity(before),
    ensures
        final(acc)@ == fec::parity(before.push(frame@)),
{
    let ghost members = before.push(frame@);
    let ghost acc0 = acc@;
    assert(members.drop_last() =~= before);
    if frame.len() > acc.len() {
        acc.resize(frame.len(), 0);
    }
    let ghost acc1 = acc@;
    assert forall|i: int| 0 <= i < acc1.len() implies #[trigger] acc1[i] == fec::xor_byte(before, i) by {
        if i < acc0.len() {
            if frame@.len() > acc0.len() {
                assert(acc1.subrange(0, acc0.len() as int)[i] == acc1[i]);
            }
            assert(acc0[i] == fec::xor_byte(before, i));
        } else {
            fec::laws::xor_beyond(before, i);
        }
    }
    fec::xor_into(acc.as_mut_slice(), frame);
    assert forall|i: int| 0 <= i < acc@.len() implies acc@[i] == #[trigger] fec::parity(members)[i] by {
        let x = acc1[i];
        assert(x ^ 0 == x) by (bit_vector);
    }
    assert(acc@ =~= fec::parity(members));
}

/// Appends counters.
fn put_counters(out: &mut Vec<u8>, counters: &Vec<u64>)
    ensures
        final(out)@ == old(out)@ + counters_wire(counters@),
{
    let mut i: usize = 0;
    assert(counters@.subrange(0, 0) =~= Seq::empty());
    assert(out@ =~= old(out)@ + counters_wire(counters@.subrange(0, 0)));
    while i < counters.len()
        invariant
            i <= counters.len(),
            out@ == old(out)@ + counters_wire(counters@.subrange(0, i as int)),
        decreases counters.len() - i,
    {
        wire::put_be64(out, counters[i]);
        i = i + 1;
        proof {
            assert(counters@.subrange(0, i as int).drop_last() =~= counters@.subrange(0, i - 1));
            assert(out@ =~= old(out)@ + counters_wire(counters@.subrange(0, i as int)));
        }
    }
    assert(counters@.subrange(0, i as int) =~= counters@);
}

/// Appends lengths.
fn put_lens(out: &mut Vec<u8>, lens: &Vec<u16>)
    ensures
        final(out)@ == old(out)@ + lens_wire(lens@),
{
    let mut i: usize = 0;
    assert(lens@.subrange(0, 0) =~= Seq::empty());
    assert(out@ =~= old(out)@ + lens_wire(lens@.subrange(0, 0)));
    while i < lens.len()
        invariant
            i <= lens.len(),
            out@ == old(out)@ + lens_wire(lens@.subrange(0, i as int)),
        decreases lens.len() - i,
    {
        wire::put_be16(out, lens[i]);
        i = i + 1;
        proof {
            assert(lens@.subrange(0, i as int).drop_last() =~= lens@.subrange(0, i - 1));
            assert(out@ =~= old(out)@ + lens_wire(lens@.subrange(0, i as int)));
        }
    }
    assert(lens@.subrange(0, i as int) =~= lens@);
}

} // verus!
