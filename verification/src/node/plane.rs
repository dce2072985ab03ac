//! What the node does with packets and frames.

use vstd::prelude::*;
use crate::compat;
use crate::fec::rx;
use crate::fec::rx::FecRx;
use crate::fec::tx;
use crate::fec::tx::FecTx;
use crate::fec::{DATA_FRAME_TYPE, DATA_MIN_FRAME, FEC_FRAME_TYPE, TUNNEL_VERSION};
use crate::node::roam;
use crate::node::roam::{RoamKind, Sched};
use crate::node::sock::SockAddr;
use crate::wire;

verus! {

/// How many packets of the network card are handled at once, at most.
pub const TUN_BATCH_CAP: usize = 64;

/// Milliseconds between two packets that are made up.
pub const INJECT_INTERVAL: u64 = 5_000;

/// Both sides of error correction.
pub struct FecNode {
    pub tx: FecTx,
    pub rx: FecRx,
}

/// What the node does with packets and frames.
pub struct Plane {
    pub sched: Sched,
    pub fec: Option<FecNode>,
    /// Whether plain packets are taken.
    pub plain_demux: bool,
    /// Whether the peer's address is learned from its first frame.
    pub learn: bool,
    pub is_initiator: bool,
    /// Whether there is a network card.
    pub has_tun: bool,
    /// Whether packets are adapted to the tunnel.
    pub compat: bool,
    pub effective_mtu: usize,
    pub tun_ip: [u8; 4],
    pub mss_clamp: Option<u16>,
    /// Whether the peer may move.
    pub migrate: bool,
    /// The second address that frames are sent to.
    pub mp_alt: Option<SockAddr>,
    /// Packets that came back as they were.
    pub echo_ok: u32,
    /// Packets that came back otherwise.
    pub echo_bad: u32,
}

/// What does not change while the node runs.
pub ghost struct Settings {
    pub plain_demux: bool,
    pub learn: bool,
    pub is_initiator: bool,
    pub has_tun: bool,
    pub compat: bool,
    pub effective_mtu: usize,
    pub tun_ip: Seq<u8>,
    pub mss_clamp: Option<u16>,
    pub migrate: bool,
    pub mp_alt: Option<SockAddr>,
}

impl Plane {
    /// What does not change while the node runs.
    pub open spec fn settings(self) -> Settings {
        Settings {
            plain_demux: self.plain_demux,
            learn: self.learn,
            is_initiator: self.is_initiator,
            has_tun: self.has_tun,
            compat: self.compat,
            effective_mtu: self.effective_mtu,
            tun_ip: self.tun_ip@,
            mss_clamp: self.mss_clamp,
            migrate: self.migrate,
            mp_alt: self.mp_alt,
        }
    }

    /// The receiving side of error correction.
    pub open spec fn rx_view(self) -> Option<rx::RxView> {
        match self.fec {
            Some(f) => Some(f.rx@),
            None => None,
        }
    }

    /// The sending side of error correction.
    pub open spec fn tx_view(self) -> Option<tx::TxView> {
        match self.fec {
            Some(f) => Some(f.tx@),
            None => None,
        }
    }

    /// The invariant.
    pub open spec fn wf(self) -> bool {
        self.fec matches Some(f) ==> f.tx.wf() && f.rx.wf()
    }

    /// Whether the counters of error correction can still count.
    pub open spec fn can_count(self) -> bool {
        self.rx_view() matches Some(v) ==> v.recovered < u64::MAX && v.abandoned < u64::MAX && v.dup_recovery < u64::MAX
    }
}

/// The frame that knocks at the peer.
pub open spec fn knock() -> Seq<u8> {
    seq![0x49u8, 0x50u8, 0x38u8, 0x50u8, 0x55u8, 0x4eu8, 0x43u8, 0x48u8]
}

/// The frame that knocks at the peer.
pub fn punch_knock() -> (k: [u8; 8])
    ensures
        k@ == knock(),
{
    let k: [u8; 8] = [0x49, 0x50, 0x38, 0x50, 0x55, 0x4e, 0x43, 0x48];
    assert(k@ =~= knock());
    k
}

/// The receiving side after a frame, and the frame that it stands for, if any:
/// a knock stands for none, and a recovery frame for the one that it rebuilds.
pub open spec fn unwrapped(v: Option<rx::RxView>, raw: Seq<u8>) -> (Option<rx::RxView>, Option<Seq<u8>>) {
    if raw == knock() {
        (v, None)
    } else {
        match v {
            None => (v, Some(raw)),
            Some(w) => if raw.len() < 2 || raw[0] != TUNNEL_VERSION {
                (v, Some(raw))
            } else if raw[1] == FEC_FRAME_TYPE {
                let (w2, out) = rx::recovery_step(w, raw);
                match out {
                    Ok(Some(f)) => (Some(rx::observed(w2, f)), Some(f)),
                    _ => (Some(w2), None),
                }
            } else if raw[1] == DATA_FRAME_TYPE && raw.len() >= DATA_MIN_FRAME {
                (Some(rx::observed(w, raw)), Some(raw))
            } else {
                (v, Some(raw))
            },
        }
    }
}

/// Whether bytes are an IP packet and no frame.
pub open spec fn is_plain_packet(raw: Seq<u8>) -> bool {
    raw.len() > 0 && (raw.len() < 10 || raw[0] != TUNNEL_VERSION) && (raw[0] / 16 == 4 || raw[0] / 16 == 6)
}

/// Whether a frame may teach the node its peer's address before it is looked
/// into.
pub open spec fn may_teach(s: Settings, frame: Seq<u8>, learned: bool) -> bool {
    s.learn && frame.len() > 0 && frame[0] == TUNNEL_VERSION && (!learned || s.migrate)
}

/// What came.
#[derive(Debug, Clone, PartialEq, Eq)]
pub enum Inbound {
    /// Nothing to handle.
    Nothing,
    /// An IP packet that is to be handed to the network card as it is.
    Plain,
    /// A frame for the engine: the one that came, or the one that was rebuilt.
    /// `learned` says why the entry changed, if it did.
    Frame { rebuilt: Option<Vec<u8>>, learned: Option<RoamKind> },
}

/// What became of the entry after the engine.
#[derive(Debug, Clone, Copy, PartialEq, Eq, Structural)]
pub enum Moved {
    No,
    /// By a frame that proves its sender.
    Strong,
    /// By one that proves nothing.
    Weak,
}

/// What is done with a packet that came through the tunnel.
#[derive(Debug, Clone, Copy, PartialEq, Eq, Structural)]
pub enum Delivery {
    /// The network card gets it.
    WriteTun,
    /// It goes back to its sender.
    SendBack,
    /// It came back as it was; the number counts such packets.
    EchoOk(u32),
    /// It came back otherwise.
    EchoBad,
}

/// Whether a packet is one that was made up: its mark, a number, and filling.
pub open spec fn is_made_up(p: Seq<u8>) -> bool {
    &&& p.len() >= 9
    &&& p.subrange(0, 5) == seq![0x49u8, 0x50u8, 0x38u8, 0x4eu8, 0x54u8]
    &&& forall|i: int| 9 <= i < p.len() ==> #[trigger] p[i] == 0xa5
}

/// A packet that is made up.
pub open spec fn made_up(size: nat, seq: u32) -> Seq<u8> {
    seq![0x49u8, 0x50u8, 0x38u8, 0x4eu8, 0x54u8] + wire::be32(seq) + Seq::new((size - 9) as nat, |i: int| 0xa5u8)
}

/// A packet that is made up, of a given size, 16 bytes at least.
pub fn make_up(nt_size: usize, seq: u32) -> (p: Vec<u8>)
    ensures
        p@ == made_up(
            if nt_size < 16 {
                16
            } else {
                nt_size as nat
            },
            seq,
        ),
{
    let size: usize = if nt_size < 16 {
        16
    } else {
        nt_size
    };
    let mut p: Vec<u8> = Vec::new();
    p.push(0x49);
    p.push(0x50);
    p.push(0x38);
    p.push(0x4e);
    p.push(0x54);
    assert(p@ =~= seq![0x49u8, 0x50u8, 0x38u8, 0x4eu8, 0x54u8]);
    wire::put_be32(&mut p, seq);
    let ghost head = p@;
    while p.len() < size
        invariant
            9 <= p.len() <= size,
            head.len() == 9,
            p@ == head + Seq::new((p@.len() - 9) as nat, |i: int| 0xa5u8),
        decreases size - p.len(),
    {
        p.push(0xa5);
        assert(p@ =~= head + Seq::new((p@.len() - 9) as nat, |i: int| 0xa5u8));
    }
    p
}

/// Whether a packet is one that was made up.
pub fn is_echo(p: &[u8]) -> (r: bool)
    ensures
        r == is_made_up(p@),
{
    if p.len() < 9 {
        return false;
    }
    let mark: [u8; 5] = [0x49, 0x50, 0x38, 0x4e, 0x54];
    assert(mark@ =~= seq![0x49u8, 0x50u8, 0x38u8, 0x4eu8, 0x54u8]);
    if !wire::same_bytes(vstd::slice::slice_subrange(p, 0, 5), mark.as_slice()) {
        return false;
    }
    let mut i: usize = 9;
    while i < p.len()
        invariant
            9 <= i <= p.len(),
            forall|j: int| 9 <= j < i ==> #[trigger] p@[j] == 0xa5,
        decreases p.len() - i,
    {
        if p[i] != 0xa5 {
            return false;
        }
        i = i + 1;
    }
    true
}

/// A packet that is made up is recognised when it comes back.
pub proof fn made_up_is_recognised(size: nat, seq: u32)
    requires
        size >= 9,
    ensures
        is_made_up(made_up(size, seq)),
        made_up(size, seq).len() == size,
{
    assert(made_up(size, seq).subrange(0, 5) =~= seq![0x49u8, 0x50u8, 0x38u8, 0x4eu8, 0x54u8]);
}

/// When the next packet is made up, and its number.
#[derive(Debug, Clone, Copy, PartialEq, Eq, Structural)]
pub struct Injector {
    pub seq: u32,
    /// In milliseconds.
    pub next_send: u64,
}

impl Injector {
    /// Makes up a packet if it is time and there is a tunnel.
    pub fn poll(&mut self, established: bool, nt_size: usize, now: u64) -> (r: Option<Vec<u8>>)
        requires
            now <= u64::MAX - INJECT_INTERVAL,
        ensures
            match r {
                Some(p) => {
                    &&& established && now >= old(self).next_send
                    &&& p@ == made_up(
                        if nt_size < 16 {
                            16
                        } else {
                            nt_size as nat
                        },
                        old(self).seq,
                    )
                    &&& *final(self) == (Injector {
                        seq: if old(self).seq == u32::MAX {
                            0
                        } else {
                            (old(self).seq + 1) as u32
                        },
                        next_send: (now + INJECT_INTERVAL) as u64,
                    })
                },
                None => !(established && now >= old(self).next_send) && *final(self) == *old(self),
            },
    {
        if !established || now < self.next_send {
            return None;
        }
        let p = make_up(nt_size, self.seq);
        self.next_send = now + INJECT_INTERVAL;
        self.seq = if self.seq == u32::MAX {
            0
        } else {
            self.seq + 1
        };
        Some(p)
    }
}

impl Plane {
    /// Hands a frame to the receiving side of error correction; gives the
    /// frame that it rebuilds, or `None` where it rebuilds none.
    fn recover(&mut self, raw: &[u8]) -> (r: Option<Vec<u8>>)
        requires
            old(self).wf(),
            old(self).can_count(),
            old(self).fec is Some,
            raw@.len() >= 2,
            raw@[0] == TUNNEL_VERSION,
            raw@[1] == FEC_FRAME_TYPE,
        ensures
            final(self).wf(),
            final(self).settings() == old(self).settings(),
            final(self).sched == old(self).sched,
            final(self).tx_view() == old(self).tx_view(),
            final(self).echo_ok == old(self).echo_ok,
            final(self).echo_bad == old(self).echo_bad,
            unwrapped(old(self).rx_view(), raw@) == (
                final(self).rx_view(),
                match r {
                    Some(f) => Some(f@),
                    None => None,
                },
            ),
            r matches Some(f) ==> f@.len() >= DATA_MIN_FRAME && f@[0] == TUNNEL_VERSION && f@[1] == DATA_FRAME_TYPE,
    {
        assert(raw@ != knock()) by {
            assert(knock()[0] == 0x49);
        }
        let mut node = match self.fec.take() {
            Some(n) => n,
            None => {
                return None;
            },
        };
        let ghost w = node.rx@;
        let out = node.rx.accept_recovery(raw);
        let r = match out {
            Ok(Some(f)) => {
                proof {
                    rebuilt_is_data(w, raw@);
                }
                let _ = node.rx.observe_data(f.as_slice());
                Some(f)
            },
            _ => None,
        };
        self.fec = Some(node);
        r
    }

    /// A datagram came. Knocks are ignored; recovery frames stand for what they
    /// rebuild; plain packets are let through where the node takes them; of
    /// other frames the first may teach the node its peer's address. `now` is
    /// in milliseconds.
    pub fn receive(&mut self, raw: &[u8], from: SockAddr, learned: &mut bool, now: u64) -> (r: Inbound)
        requires
            old(self).wf(),
            old(self).can_count(),
        ensures
            final(self).wf(),
            final(self).settings() == old(self).settings(),
            final(self).tx_view() == old(self).tx_view(),
            final(self).echo_ok == old(self).echo_ok,
            final(self).echo_bad == old(self).echo_bad,
            ({
                let (v, frame) = unwrapped(old(self).rx_view(), raw@);
                let s = old(self).settings();
                &&& final(self).rx_view() == v
                &&& match frame {
                    None => {
                        &&& r is Nothing
                        &&& final(self).sched@ == old(self).sched@
                        &&& *final(learned) == *old(learned)
                    },
                    Some(f) => if s.plain_demux && is_plain_packet(f) {
                        &&& r is Plain
                        &&& f == raw@
                        &&& final(self).sched@ == old(self).sched@
                        &&& *final(learned) == *old(learned)
                    } else {
                        &&& r matches Inbound::Frame { rebuilt, learned: why }
                        &&& f == match rebuilt {
                            Some(b) => b@,
                            None => raw@,
                        }
                        &&& rebuilt is Some <==> f != raw@
                        &&& if may_teach(s, f, *old(learned)) {
                            &&& why == old(self).sched@.weak_change(from, *old(learned), true, now)
                            &&& final(self).sched@ == old(self).sched@.after_weak(from, *old(learned), true, now)
                            &&& *final(learned) == (*old(learned) || why is Some || !old(self).sched@.weak_news(from))
                        } else {
                            &&& why is None
                            &&& final(self).sched@ == old(self).sched@
                            &&& *final(learned) == *old(learned)
                        }
                    },
                }
            }),
    {
        let k = punch_knock();
        if wire::same_bytes(raw, k.as_slice()) {
            return Inbound::Nothing;
        }
        let mut rebuilt: Option<Vec<u8>> = None;
        let tunnel = raw.len() > 0 && raw[0] == TUNNEL_VERSION;
        if self.fec.is_some() && raw.len() >= 2 && tunnel {
            if raw[1] == FEC_FRAME_TYPE {
                rebuilt = self.recover(raw);
                if rebuilt.is_none() {
                    return Inbound::Nothing;
                }
                assert(rebuilt->0@[1] != raw@[1]);
            } else if raw[1] == DATA_FRAME_TYPE {
                match self.fec.take() {
                    Some(mut node) => {
                        let _ = node.rx.observe_data(raw);
                        self.fec = Some(node);
                    },
                    None => {},
                }
            }
        }
        if rebuilt.is_none() && self.plain_demux && raw.len() > 0 && (raw.len() < 10 || !tunnel) && (raw[0] / 16 == 4
            || raw[0] / 16 == 6) {
            return Inbound::Plain;
        }
        let mut why: Option<RoamKind> = None;
        if self.learn && tunnel && (!*learned || self.migrate) {
            why = self.sched.unauth_refresh(from, learned, true, now);
        }
        Inbound::Frame { rebuilt, learned: why }
    }

    /// The engine is done with a frame. Where the peer may move, the entry
    /// follows a frame that was answered or through which a packet came: at
    /// once where that proves its sender.
    pub fn after_engine(
        &mut self,
        raw: &[u8],
        from: SockAddr,
        learned: &mut bool,
        has_resp: bool,
        has_delivered: bool,
        now: u64,
    ) -> (r: Moved)
        requires
            old(self).wf(),
        ensures
            final(self).wf(),
            final(self).settings() == old(self).settings(),
            final(self).rx_view() == old(self).rx_view(),
            final(self).tx_view() == old(self).tx_view(),
            final(self).echo_ok == old(self).echo_ok,
            final(self).echo_bad == old(self).echo_bad,
            ({
                let s = old(self).sched@;
                let first = old(self).learn;
                if !old(self).migrate || !(has_resp || has_delivered) {
                    &&& r is No
                    &&& final(self).sched@ == s
                    &&& *final(learned) == *old(learned)
                } else if roam::is_strong(raw@, has_resp, has_delivered) {
                    &&& r == if s.strong_change(from) {
                        Moved::Strong
                    } else {
                        Moved::No
                    }
                    &&& final(self).sched@ == s.after_strong(from, now)
                    &&& *final(learned) == *old(learned)
                } else {
                    let why = s.weak_change(from, *old(learned), first, now);
                    &&& r == if why is Some {
                        Moved::Weak
                    } else {
                        Moved::No
                    }
                    &&& final(self).sched@ == s.after_weak(from, *old(learned), first, now)
                    &&& *final(learned) == (*old(learned) || why is Some || !s.weak_news(from))
                }
            }),
    {
        if !self.migrate || !(has_resp || has_delivered) {
            return Moved::No;
        }
        if roam::is_strong_roam_credential(raw, has_resp, has_delivered) {
            if self.sched.strong_refresh(from, now) {
                Moved::Strong
            } else {
                Moved::No
            }
        } else {
            let first = self.learn;
            if self.sched.unauth_refresh(from, learned, first, now).is_some() {
                Moved::Weak
            } else {
                Moved::No
            }
        }
    }

    /// Adapts a packet that came through the tunnel, where packets are.
    pub fn adapt(&self, pkt: &mut [u8])
        ensures
            final(pkt)@ == if self.compat {
                compat::mss::clamped(
                    old(pkt)@,
                    compat::mss_target(old(pkt)@, self.effective_mtu, self.mss_clamp),
                )
            } else {
                old(pkt)@
            },
    {
        if self.compat {
            compat::process_inbound(pkt, self.effective_mtu, self.mss_clamp);
        }
    }

    /// Says what is done with a packet that came through the tunnel: the
    /// network card gets it; without one the responder sends it back, and the
    /// initiator counts it.
    pub fn deliver(&mut self, pkt: &[u8]) -> (r: Delivery)
        requires
            old(self).wf(),
        ensures
            final(self).wf(),
            final(self).settings() == old(self).settings(),
            final(self).sched@ == old(self).sched@,
            final(self).rx_view() == old(self).rx_view(),
            final(self).tx_view() == old(self).tx_view(),
            ({
                let good = is_made_up(pkt@);
                let counts = !old(self).has_tun && old(self).is_initiator;
                &&& r == if old(self).has_tun {
                    Delivery::WriteTun
                } else if !old(self).is_initiator {
                    Delivery::SendBack
                } else if good {
                    Delivery::EchoOk(final(self).echo_ok)
                } else {
                    Delivery::EchoBad
                }
                &&& final(self).echo_ok == if counts && good {
                    next(old(self).echo_ok)
                } else {
                    old(self).echo_ok
                }
                &&& final(self).echo_bad == if counts && !good {
                    next(old(self).echo_bad)
                } else {
                    old(self).echo_bad
                }
            }),
    {
        if self.has_tun {
            return Delivery::WriteTun;
        }
        if !self.is_initiator {
            return Delivery::SendBack;
        }
        if is_echo(pkt) {
            self.echo_ok = count(self.echo_ok);
            Delivery::EchoOk(self.echo_ok)
        } else {
            self.echo_bad = count(self.echo_bad);
            Delivery::EchoBad
        }
    }
}

/// The next number, or 0 after the greatest.
pub open spec fn next(n: u32) -> u32 {
    if n == u32::MAX {
        0
    } else {
        (n + 1) as u32
    }
}

/// The next number, or 0 after the greatest.
fn count(n: u32) -> (r: u32)
    ensures
        r == next(n),
{
    if n == u32::MAX {
        0
    } else {
        n + 1
    }
}

/// What is rebuilt is a data frame.
pub proof fn rebuilt_is_data(w: rx::RxView, raw: Seq<u8>)
    requires
        rx::recovery_step(w, raw).1 matches Ok(Some(_)),
    ensures
        ({
            let f = rx::recovery_step(w, raw).1->Ok_0->Some_0;
            f.len() >= DATA_MIN_FRAME && f[0] == TUNNEL_VERSION && f[1] == DATA_FRAME_TYPE
        }),
{
    let counters = rx::member_counters(raw);
    let m = choose|m: int| rx::missing(w.cache, counters, m);
    assert(rx::missing(w.cache, counters, m));
    assert(rx::member_lens(raw).len() == counters.len());
    short_is_found(rx::member_lens(raw), m);
}

/// Where no length is found too short, none is.
proof fn short_is_found(lens: Seq<u16>, m: int)
    requires
        rx::short_len(lens) is None,
        0 <= m < lens.len(),
    ensures
        lens[m] >= DATA_MIN_FRAME,
    decreases lens.len(),
{
    if m < lens.len() - 1 {
        short_is_found(lens.drop_last(), m);
        assert(lens.drop_last()[m] == lens[m]);
    }
}

/// A knock changes nothing, whoever it comes from.
pub proof fn knock_changes_nothing(v: Option<rx::RxView>)
    ensures
        unwrapped(v, knock()) == (v, None::<Seq<u8>>),
{
}

/// The knock is the text IP8PUNCH.
pub proof fn knock_format()
    ensures
        vstd::utf8::encode_utf8("IP8PUNCH"@) == knock(),
{
    reveal_strlit("IP8PUNCH");
    vstd::utf8::is_ascii_chars_encode_utf8("IP8PUNCH"@);
    assert(vstd::utf8::encode_utf8("IP8PUNCH"@) =~= knock());
}

/// What becomes of a datagram: without error correction it is a frame as it is;
/// with it, a data frame is kept and is a frame, a recovery frame is the frame that
/// it rebuilds or none, and anything else is a frame as it is.
pub proof fn what_becomes_of_a_datagram(w: rx::RxView, raw: Seq<u8>)
    requires
        raw != knock(),
    ensures
        unwrapped(None, raw) == (None::<rx::RxView>, Some(raw)),
        raw.len() < 2 || raw[0] != 1 || (raw[1] != 2 && raw[1] != 6) || (raw[1] == 2 && raw.len() < 74) ==> unwrapped(
            Some(w),
            raw,
        ) == (Some(w), Some(raw)),
        raw.len() >= 74 && raw[0] == 1 && raw[1] == 2 ==> unwrapped(Some(w), raw) == (Some(rx::observed(w, raw)), Some(raw)),
        raw.len() >= 2 && raw[0] == 1 && raw[1] == 6 ==> {
            let (x, r) = rx::recovery_step(w, raw);
            match r {
                Ok(Some(f)) => unwrapped(Some(w), raw) == (Some(rx::observed(x, f)), Some(f)),
                _ => unwrapped(Some(w), raw) == (Some(x), None::<Seq<u8>>),
            }
        },
{
}

/// What is a plain packet beside the frames of the tunnel: one of IPv4 or IPv6,
/// which no frame begins like.
pub proof fn plain_packets(raw: Seq<u8>)
    ensures
        is_plain_packet(raw) <==> raw.len() > 0 && (0x40 <= raw[0] <= 0x4F || 0x60 <= raw[0] <= 0x6F),
        is_plain_packet(raw) ==> raw[0] != 1,
{
}

/// Which frames may teach where the peer is: those of the tunnel, where that is to
/// be learned, and was not yet or may change.
pub proof fn teaching_frames(s: Settings, frame: Seq<u8>, learned: bool)
    ensures
        may_teach(s, frame, learned) <==> s.learn && frame.len() > 0 && frame[0] == 1 && (s.migrate || !learned),
{
}

/// A packet that the node makes up: a mark of five bytes, the number, and the byte
/// 0xa5 up to its length.
pub proof fn made_up_format(size: nat, seq: u32)
    requires
        size >= 9,
    ensures
        ({
            let p = made_up(size, seq);
            &&& p.len() == size
            &&& vstd::utf8::encode_utf8("IP8NT"@) == p.subrange(0, 5)
            &&& p[5] * 0x100_0000 + p[6] * 0x1_0000 + p[7] * 0x100 + p[8] == seq
            &&& forall|i: int| 9 <= i < p.len() ==> #[trigger] p[i] == 0xa5
        }),
{
    let p = made_up(size, seq);
    crate::codec::formats::numbers_are_written(0, seq, 0);
    let w = wire::be32(seq);
    assert(p[5] == w[0] && p[6] == w[1] && p[7] == w[2] && p[8] == w[3]);
    reveal_strlit("IP8NT");
    vstd::utf8::is_ascii_chars_encode_utf8("IP8NT"@);
    assert(vstd::utf8::encode_utf8("IP8NT"@) =~= p.subrange(0, 5));
}

} // verus!
