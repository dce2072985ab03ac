//! Packets on their way out.

use vstd::prelude::*;
use crate::compat;
use crate::compat::Outcome;
use crate::fec::rx;
use crate::fec::rx::FecRx;
use crate::fec::tx;
use crate::fec::tx::FecTx;
use crate::fec::{DATA_MIN_FRAME, DEFAULT_RX_CACHE, FEC_MAX_K, FEC_MIN_K};
use crate::node::args::Config;
use crate::node::args::RioMode;
use crate::node::plane;
use crate::node::plane::{FecNode, Plane};
use crate::node::roam;
use crate::node::roam::{Sched, Transport};
use crate::node::sock::SockAddr;
use crate::node::ticker::IpAddr;
use crate::wire;

verus! {

/// The socket address of a host and a port.
pub open spec fn sock_of(ip: IpAddr, port: u16) -> SockAddr {
    match ip {
        IpAddr::V4(a) => SockAddr::V4 { ip: a, port },
        IpAddr::V6(a) => SockAddr::V6 { ip6: a, port, flowinfo: 0, scope_id: 0 },
    }
}

/// The socket address of a host and a port.
pub fn sock_addr(ip: &IpAddr, port: u16) -> (a: SockAddr)
    ensures
        a == sock_of(*ip, port),
{
    match ip {
        IpAddr::V4(x) => SockAddr::V4 { ip: *x, port },
        IpAddr::V6(x) => SockAddr::V6 { ip6: *x, port, flowinfo: 0, scope_id: 0 },
    }
}

/// The address that the node binds: any of the peer's family.
pub fn bind_addr(cfg: &Config) -> (a: SockAddr)
    ensures
        match cfg.net.peer_ip {
            IpAddr::V4(_) => a matches SockAddr::V4 { ip, port } && ip@ == wire::zeros(4) && port == cfg.net.udp_port,
            IpAddr::V6(_) => {
                &&& a matches SockAddr::V6 { ip6, port, flowinfo, scope_id }
                &&& ip6@ == wire::zeros(16) && port == cfg.net.udp_port && flowinfo == 0 && scope_id == 0
            },
        },
{
    match cfg.net.peer_ip {
        IpAddr::V4(_) => {
            let ip: [u8; 4] = [0, 0, 0, 0];
            assert(ip@ =~= wire::zeros(4));
            SockAddr::V4 { ip, port: cfg.net.udp_port }
        },
        IpAddr::V6(_) => {
            let ip6: [u8; 16] = [0, 0, 0, 0, 0, 0, 0, 0, 0, 0, 0, 0, 0, 0, 0, 0];
            assert(ip6@ =~= wire::zeros(16));
            SockAddr::V6 { ip6, port: cfg.net.udp_port, flowinfo: 0, scope_id: 0 }
        },
    }
}

/// Whether the node's address behind the tunnel has the prefix that was given.
pub fn tun_fits(cfg: &Config) -> (r: bool)
    ensures
        r == (cfg.net.tun_ip@[0] == cfg.net.tun_prefix),
{
    cfg.net.tun_ip[0] == cfg.net.tun_prefix
}

/// How packets are sent and received: as frames of the local network where
/// that was asked for.
pub fn io_mode(cfg: &Config) -> (m: RioMode)
    ensures
        m == if cfg.l2 {
            RioMode::L2
        } else {
            cfg.tuning.rio_mode
        },
{
    if cfg.l2 {
        RioMode::L2
    } else {
        cfg.tuning.rio_mode
    }
}

/// Where the node's certificate comes from.
#[derive(Debug, Clone, Copy, PartialEq, Eq, Structural)]
pub enum TrustSource {
    /// There is none: handshakes prove nothing.
    Nowhere,
    /// A zone server.
    Zone,
    /// A key that both ends were given.
    Seed,
    /// There is to be one, and nothing gives it: the node cannot run.
    Missing,
}

/// Where the node's certificate comes from: a zone server before a key.
pub fn trust_source(cfg: &Config) -> (s: TrustSource)
    ensures
        s == if !cfg.trust.auth {
            TrustSource::Nowhere
        } else if cfg.trust.zone is Some {
            TrustSource::Zone
        } else if cfg.trust.ca_seed is Some {
            TrustSource::Seed
        } else {
            TrustSource::Missing
        },
{
    if !cfg.trust.auth {
        TrustSource::Nowhere
    } else if cfg.trust.zone.is_some() {
        TrustSource::Zone
    } else if cfg.trust.ca_seed.is_some() {
        TrustSource::Seed
    } else {
        TrustSource::Missing
    }
}

/// The other entry that was given.
pub open spec fn alt_of(cfg: Config) -> Option<SockAddr> {
    match cfg.net.alt {
        Some((ip, port)) => Some(sock_of(ip, port)),
        None => None,
    }
}

impl Plane {
    /// What a node does that was told so.
    pub fn new(cfg: &Config) -> (p: Plane)
        requires
            cfg.fec ==> FEC_MIN_K <= cfg.tuning.fec_k <= FEC_MAX_K,
        ensures
            p.wf(),
            p.can_count(),
            p.settings() == (plane::Settings {
                plain_demux: cfg.tuning.fallback,
                learn: cfg.learn_peer || (cfg.trust.punch && !cfg.initiate),
                is_initiator: cfg.initiate,
                has_tun: !cfg.no_tun,
                compat: cfg.compat,
                effective_mtu: if cfg.net.mtu < 40 {
                    0
                } else {
                    (cfg.net.mtu - 40) as usize
                },
                tun_ip: cfg.net.tun_ip@,
                mss_clamp: cfg.tuning.mss_clamp,
                migrate: cfg.migrate,
                mp_alt: if cfg.tuning.mp {
                    alt_of(*cfg)
                } else {
                    None
                },
            }),
            p.tx_view() == if cfg.fec {
                Some(tx::TxView { k: cfg.tuning.fec_k as nat, group_seq: 0, members: Seq::empty() })
            } else {
                None
            },
            p.rx_view() == if cfg.fec {
                Some(
                    rx::RxView {
                        cache: Map::empty(),
                        order: Seq::empty(),
                        limit: DEFAULT_RX_CACHE as nat,
                        seen: Seq::empty(),
                        recovered: 0,
                        abandoned: 0,
                        dup_recovery: 0,
                    },
                )
            } else {
                None
            },
            p.sched@ == (roam::SchedView {
                main: sock_of(cfg.net.peer_ip, cfg.net.peer_port),
                alt: alt_of(*cfg),
                current: roam::PathView::Tunnel { entry: Seq::empty() },
                transport: Transport::Tunnel(sock_of(cfg.net.peer_ip, cfg.net.peer_port)),
                attempt: None,
                success_recorded: false,
                plain_reported: false,
                est_started: None,
                est_delivered: 0,
                plain_tx: 0,
                plain_rx: 0,
                last_unauth_roam: None,
                mp: cfg.tuning.mp,
            }),
            p.echo_ok == 0,
            p.echo_bad == 0,
    {
        let peer = sock_addr(&cfg.net.peer_ip, cfg.net.peer_port);
        let alt = match &cfg.net.alt {
            Some((ip, port)) => Some(sock_addr(ip, *port)),
            None => None,
        };
        let fec = if cfg.fec {
            match FecTx::new(cfg.tuning.fec_k) {
                Ok(tx) => Some(FecNode { tx, rx: FecRx::new(DEFAULT_RX_CACHE) }),
                Err(_) => None,
            }
        } else {
            None
        };
        Plane {
            sched: Sched::new(peer, alt, cfg.tuning.mp),
            fec,
            plain_demux: cfg.tuning.fallback,
            learn: cfg.learn_peer || (cfg.trust.punch && !cfg.initiate),
            is_initiator: cfg.initiate,
            has_tun: !cfg.no_tun,
            compat: cfg.compat,
            effective_mtu: cfg.net.mtu.saturating_sub(40),
            tun_ip: cfg.net.tun_ip,
            mss_clamp: cfg.tuning.mss_clamp,
            migrate: cfg.migrate,
            mp_alt: if cfg.tuning.mp {
                alt
            } else {
                None
            },
            echo_ok: 0,
            echo_bad: 0,
        }
    }
}

/// The packets of which the verdict is to pass.
pub open spec fn passed(batch: Seq<Seq<u8>>, verdicts: Seq<bool>) -> Seq<Seq<u8>>
    decreases batch.len(),
{
    if batch.len() == 0 {
        Seq::empty()
    } else if verdicts.last() {
        passed(batch.drop_last(), verdicts.drop_last()).push(batch.last())
    } else {
        passed(batch.drop_last(), verdicts.drop_last())
    }
}

/// Keeps the packets of which the verdict is to pass, in their order.
pub fn keep_passed(batch: Vec<Vec<u8>>, verdicts: &Vec<bool>) -> (r: Vec<Vec<u8>>)
    requires
        batch@.len() == verdicts@.len(),
    ensures
        wire::contents(r@) == passed(wire::contents(batch@), verdicts@),
{
    let ghost all = wire::contents(batch@);
    let mut r: Vec<Vec<u8>> = Vec::new();
    let n: usize = batch.len();
    let mut i: usize = 0;
    assert(wire::contents(r@) =~= Seq::<Seq<u8>>::empty());
    for p in it: batch
        invariant
            i == it.index(),
            it.seq() == batch@,
            n == batch@.len(),
            all == wire::contents(batch@),
            batch@.len() == verdicts@.len(),
            wire::contents(r@) == passed(all.subrange(0, i as int), verdicts@.subrange(0, i as int)),
    {
        let ghost before = wire::contents(r@);
        assert(all.subrange(0, i + 1).drop_last() =~= all.subrange(0, i as int));
        assert(verdicts@.subrange(0, i + 1).drop_last() =~= verdicts@.subrange(0, i as int));
        if verdicts[i] {
            r.push(p);
            assert(wire::contents(r@) =~= before.push(p@));
        }
        i = i + 1;
    }
    assert(all.subrange(0, i as int) =~= all);
    assert(verdicts@.subrange(0, i as int) =~= verdicts@);
    r
}

/// What becomes of a packet on its way out.
pub open spec fn outcome(s: plane::Settings, p: Seq<u8>) -> (Seq<u8>, compat::Verdict) {
    compat::outbound(p, s.effective_mtu, s.mss_clamp, s.tun_ip, None)
}

/// The packets that go on, as they then are.
pub open spec fn forwarded(s: plane::Settings, batch: Seq<Seq<u8>>) -> Seq<Seq<u8>>
    decreases batch.len(),
{
    if batch.len() == 0 {
        Seq::empty()
    } else {
        let rest = forwarded(s, batch.drop_last());
        match outcome(s, batch.last()).1 {
            compat::Verdict::Forward => rest.push(outcome(s, batch.last()).0),
            _ => rest,
        }
    }
}

/// The errors that are reported to the senders of packets.
pub open spec fn reports(s: plane::Settings, batch: Seq<Seq<u8>>) -> Seq<Seq<u8>>
    decreases batch.len(),
{
    if batch.len() == 0 {
        Seq::empty()
    } else {
        let rest = reports(s, batch.drop_last());
        match outcome(s, batch.last()).1 {
            compat::Verdict::Report(e) => rest.push(e),
            _ => rest,
        }
    }
}

impl Plane {
    /// Adapts a packet on its way out, and puts it, or the error that is
    /// reported, where it belongs.
    fn adapt_one(&self, packet: Vec<u8>, on: &mut Vec<Vec<u8>>, errors: &mut Vec<Vec<u8>>)
        ensures
            ({
                let (p, v) = outcome(self.settings(), packet@);
                &&& wire::contents(final(on)@) == match v {
                    compat::Verdict::Forward => wire::contents(old(on)@).push(p),
                    _ => wire::contents(old(on)@),
                }
                &&& wire::contents(final(errors)@) == match v {
                    compat::Verdict::Report(e) => wire::contents(old(errors)@).push(e),
                    _ => wire::contents(old(errors)@),
                }
            }),
    {
        let mut p = packet;
        let ghost was = p@;
        let out = compat::process_outbound(p.as_mut_slice(), self.effective_mtu, self.mss_clamp, self.tun_ip, None);
        assert(outcome(self.settings(), was) == (p@, out@));
        match out {
            Outcome::Forward => {
                on.push(p);
                assert(wire::contents(on@) =~= wire::contents(old(on)@).push(p@));
            },
            Outcome::InjectIcmp(e) => {
                errors.push(e);
                assert(wire::contents(errors@) =~= wire::contents(old(errors)@).push(e@));
            },
            Outcome::Drop => {},
        }
    }

    /// Adapts packets on their way out, where packets are: gives those that go
    /// on, and the errors that are reported to the senders of others.
    pub fn adapt_batch(&self, batch: Vec<Vec<u8>>) -> (r: (Vec<Vec<u8>>, Vec<Vec<u8>>))
        ensures
            wire::contents(r.0@) == if self.compat {
                forwarded(self.settings(), wire::contents(batch@))
            } else {
                wire::contents(batch@)
            },
            wire::contents(r.1@) == if self.compat {
                reports(self.settings(), wire::contents(batch@))
            } else {
                Seq::empty()
            },
    {
        let mut on: Vec<Vec<u8>> = Vec::new();
        let mut errors: Vec<Vec<u8>> = Vec::new();
        assert(wire::contents(on@) =~= Seq::<Seq<u8>>::empty());
        assert(wire::contents(errors@) =~= Seq::<Seq<u8>>::empty());
        if !self.compat {
            return (batch, errors);
        }
        let ghost s = self.settings();
        let ghost all = wire::contents(batch@);
        let n: usize = batch.len();
        let mut i: usize = 0;
        assert(all.subrange(0, 0) =~= Seq::<Seq<u8>>::empty());
        for packet in it: batch
            invariant
                i == it.index(),
                it.seq() == batch@,
                n == batch@.len(),
                all == wire::contents(batch@),
                s == self.settings(),
                wire::contents(on@) == forwarded(s, all.subrange(0, i as int)),
                wire::contents(errors@) == reports(s, all.subrange(0, i as int)),
        {
            assert(all.subrange(0, i + 1).drop_last() =~= all.subrange(0, i as int));
            assert(all.subrange(0, i + 1).last() == packet@);
            self.adapt_one(packet, &mut on, &mut errors);
            i = i + 1;
        }
        assert(all.subrange(0, i as int) =~= all);
        (on, errors)
    }
}

/// The key that a frame belongs to.
pub open spec fn key_of(frame: Seq<u8>) -> Seq<u8> {
    frame.subrange(2, 10)
}

/// The sending side after a frame, and the recovery frame that it completes.
pub open spec fn push_step(v: tx::TxView, frame: Seq<u8>) -> (tx::TxView, Seq<Seq<u8>>) {
    let members = v.members.push(frame);
    if frame.len() < DATA_MIN_FRAME {
        (v, Seq::empty())
    } else if members.len() < v.k {
        (tx::TxView { members, ..v }, Seq::empty())
    } else {
        (
            tx::TxView {
                group_seq: ((v.group_seq + 1) % 0x1_0000_0000_0000_0000) as u64,
                members: Seq::empty(),
                ..v
            },
            seq![tx::recovery_wire(v.group_seq, members, key_of(frame))],
        )
    }
}

/// The sending side after some frames, and the recovery frames that they
/// complete.
pub open spec fn push_all(v: tx::TxView, frames: Seq<Seq<u8>>) -> (tx::TxView, Seq<Seq<u8>>)
    decreases frames.len(),
{
    if frames.len() == 0 {
        (v, Seq::empty())
    } else {
        let (w, out) = push_all(v, frames.drop_last());
        let (x, more) = push_step(w, frames.last());
        (x, out + more)
    }
}

/// Whether the frames of a packet are protected: where there is error
/// correction and the packet is of a higher class of service.
pub open spec fn is_marked(p: Seq<u8>) -> bool {
    roam::dscp_of(p) matches Some(d) && d != 0
}

/// The sending side after a packet that was sealed into frames, and the frames
/// that go out: before its own the recovery frames that they complete.
pub open spec fn packet_out(v: Option<tx::TxView>, p: Seq<u8>, frames: Option<Seq<Seq<u8>>>) -> (
    Option<tx::TxView>,
    Seq<Seq<u8>>,
) {
    match frames {
        None => (v, Seq::empty()),
        Some(f) => match v {
            Some(w) => if is_marked(p) {
                (Some(push_all(w, f).0), push_all(w, f).1 + f)
            } else {
                (v, f)
            },
            None => (v, f),
        },
    }
}

/// The sending side after some packets, and the frames that go out.
pub open spec fn batch_out(v: Option<tx::TxView>, packets: Seq<Seq<u8>>, sealed: Seq<Option<Seq<Seq<u8>>>>) -> (
    Option<tx::TxView>,
    Seq<Seq<u8>>,
)
    decreases packets.len(),
{
    if packets.len() == 0 {
        (v, Seq::empty())
    } else {
        let (w, out) = batch_out(v, packets.drop_last(), sealed.drop_last());
        let (x, more) = packet_out(w, packets.last(), sealed.last());
        (x, out + more)
    }
}

/// The frames that a packet was sealed into, as mathematical values.
pub open spec fn sealed_view(s: Option<Vec<Vec<u8>>>) -> Option<Seq<Seq<u8>>> {
    match s {
        Some(f) => Some(wire::contents(f@)),
        None => None,
    }
}

/// Whether frames, if there are any, have their headers.
pub open spec fn have_headers(s: Option<Vec<Vec<u8>>>) -> bool {
    s matches Some(f) ==> forall|i: int| 0 <= i < f@.len() ==> (#[trigger] f@[i])@.len() >= 10
}

/// The key that a frame belongs to.
fn key_id(frame: &[u8]) -> (k: [u8; 8])
    requires
        frame@.len() >= 10,
    ensures
        k@ == key_of(frame@),
{
    let k: [u8; 8] = [frame[2], frame[3], frame[4], frame[5], frame[6], frame[7], frame[8], frame[9]];
    assert(k@ =~= key_of(frame@));
    k
}

/// Hands a frame to the sending side, and puts out the recovery frame that it
/// completes.
fn push_one(t: &mut FecTx, frame: &[u8], out: &mut Vec<Vec<u8>>)
    requires
        old(t).wf(),
        frame@.len() >= 10,
    ensures
        final(t).wf(),
        final(t)@ == push_step(old(t)@, frame@).0,
        wire::contents(final(out)@) == wire::contents(old(out)@) + push_step(old(t)@, frame@).1,
{
    let ghost before = wire::contents(out@);
    let k = key_id(frame);
    match t.push(frame, k) {
        Ok(Some(rec)) => {
            out.push(rec);
            assert(wire::contents(out@) =~= before + seq![rec@]);
        },
        _ => {
            assert(wire::contents(out@) =~= before + Seq::<Seq<u8>>::empty());
        },
    }
}

/// Hands frames to the sending side, and puts out the recovery frames that they
/// complete.
fn push_frames(t: &mut FecTx, frames: &Vec<Vec<u8>>, out: &mut Vec<Vec<u8>>)
    requires
        old(t).wf(),
        forall|i: int| 0 <= i < frames@.len() ==> (#[trigger] frames@[i])@.len() >= 10,
    ensures
        final(t).wf(),
        final(t)@ == push_all(old(t)@, wire::contents(frames@)).0,
        wire::contents(final(out)@) == wire::contents(old(out)@) + push_all(old(t)@, wire::contents(frames@)).1,
{
    let ghost all = wire::contents(frames@);
    let ghost v = t@;
    let ghost before = wire::contents(out@);
    let mut i: usize = 0;
    assert(all.subrange(0, 0) =~= Seq::<Seq<u8>>::empty());
    assert(wire::contents(out@) =~= before + Seq::<Seq<u8>>::empty());
    while i < frames.len()
        invariant
            i <= frames.len(),
            t.wf(),
            all == wire::contents(frames@),
            forall|j: int| 0 <= j < frames@.len() ==> (#[trigger] frames@[j])@.len() >= 10,
            t@ == push_all(v, all.subrange(0, i as int)).0,
            wire::contents(out@) == before + push_all(v, all.subrange(0, i as int)).1,
        decreases frames.len() - i,
    {
        assert(all.subrange(0, i + 1).drop_last() =~= all.subrange(0, i as int));
        assert(all.subrange(0, i + 1).last() == frames@[i as int]@);
        push_one(t, frames[i].as_slice(), out);
        assert(wire::contents(out@) =~= before + push_all(v, all.subrange(0, i + 1)).1);
        i = i + 1;
    }
    assert(all.subrange(0, i as int) =~= all);
}

/// Appends frames.
fn put_frames(out: &mut Vec<Vec<u8>>, frames: Vec<Vec<u8>>)
    ensures
        wire::contents(final(out)@) == wire::contents(old(out)@) + wire::contents(frames@),
{
    let ghost before = out@;
    let mut f = frames;
    out.append(&mut f);
    assert(wire::contents(out@) =~= wire::contents(before) + wire::contents(frames@));
}

impl Plane {
    /// Puts out the frames of a packet, with what protects them.
    fn protect_one(&mut self, packet: &[u8], sealed: Option<Vec<Vec<u8>>>, out: &mut Vec<Vec<u8>>)
        requires
            old(self).wf(),
            old(self).fec is Some && is_marked(packet@) ==> have_headers(sealed),
        ensures
            final(self).wf(),
            final(self).settings() == old(self).settings(),
            final(self).sched == old(self).sched,
            final(self).rx_view() == old(self).rx_view(),
            final(self).echo_ok == old(self).echo_ok,
            final(self).echo_bad == old(self).echo_bad,
            ({
                let (w, more) = packet_out(old(self).tx_view(), packet@, sealed_view(sealed));
                &&& final(self).tx_view() == w
                &&& wire::contents(final(out)@) == wire::contents(old(out)@) + more
            }),
    {
        let ghost before = wire::contents(out@);
        let frames = match sealed {
            Some(f) => f,
            None => {
                assert(wire::contents(out@) =~= before + Seq::<Seq<u8>>::empty());
                return;
            },
        };
        let ghost content = wire::contents(frames@);
        let marked = match roam::inner_dscp(packet) {
            Some(d) => d != 0,
            None => false,
        };
        if marked && self.fec.is_some() {
            match self.fec.take() {
                Some(mut node) => {
                    push_frames(&mut node.tx, &frames, out);
                    self.fec = Some(node);
                },
                None => {},
            }
            put_frames(out, frames);
            assert(wire::contents(out@) =~= before + (push_all(old(self).tx_view()->0, content).1 + content));
            return;
        }
        put_frames(out, frames);
    }

    /// Puts together the frames that go out for some packets, of which
    /// `sealed` tells the frames, `None` where sealing failed. The frames of
    /// packets of a higher class of service are protected, where there is error
    /// correction.
    pub fn protect(&mut self, packets: &Vec<Vec<u8>>, sealed: Vec<Option<Vec<Vec<u8>>>>) -> (out: Vec<Vec<u8>>)
        requires
            old(self).wf(),
            packets@.len() == sealed@.len(),
            forall|i: int|
                0 <= i < sealed@.len() && old(self).fec is Some && is_marked(packets@[i]@) ==> have_headers(
                    #[trigger] sealed@[i],
                ),
        ensures
            final(self).wf(),
            final(self).settings() == old(self).settings(),
            final(self).sched@ == old(self).sched@,
            final(self).rx_view() == old(self).rx_view(),
            final(self).echo_ok == old(self).echo_ok,
            final(self).echo_bad == old(self).echo_bad,
            batch_out(
                old(self).tx_view(),
                wire::contents(packets@),
                sealed@.map_values(|s: Option<Vec<Vec<u8>>>| sealed_view(s)),
            ) == (final(self).tx_view(), wire::contents(out@)),
    {
        let ghost v = self.tx_view();
        let ghost all = wire::contents(packets@);
        let ghost frames = sealed@.map_values(|s: Option<Vec<Vec<u8>>>| sealed_view(s));
        let mut out: Vec<Vec<u8>> = Vec::new();
        let n: usize = sealed.len();
        let mut i: usize = 0;
        assert(wire::contents(out@) =~= Seq::<Seq<u8>>::empty());
        for s in it: sealed
            invariant
                i == it.index(),
                it.seq() == sealed@,
                n == sealed@.len(),
                packets@.len() == sealed@.len(),
                all == wire::contents(packets@),
                frames == sealed@.map_values(|s: Option<Vec<Vec<u8>>>| sealed_view(s)),
                forall|j: int|
                    0 <= j < sealed@.len() && old(self).fec is Some && is_marked(packets@[j]@) ==> have_headers(
                        #[trigger] sealed@[j],
                    ),
                self.wf(),
                self.settings() == old(self).settings(),
                self.sched == old(self).sched,
                self.rx_view() == old(self).rx_view(),
                self.echo_ok == old(self).echo_ok,
                self.echo_bad == old(self).echo_bad,
                batch_out(v, all.subrange(0, i as int), frames.subrange(0, i as int)) == (
                    self.tx_view(),
                    wire::contents(out@),
                ),
        {
            assert(s == sealed@[i as int]);
            assert(all.subrange(0, i + 1).drop_last() =~= all.subrange(0, i as int));
            assert(frames.subrange(0, i + 1).drop_last() =~= frames.subrange(0, i as int));
            assert(all.subrange(0, i + 1).last() == packets@[i as int]@);
            assert(frames.subrange(0, i + 1).last() == sealed_view(s));
            self.protect_one(packets[i].as_slice(), s, &mut out);
            i = i + 1;
        }
        assert(all.subrange(0, i as int) =~= all);
        assert(frames.subrange(0, i as int) =~= frames);
        out
    }

    /// Where each frame is sent, in this order: to the entry, and to the second
    /// one where both are used at once.
    pub fn targets(&self) -> (r: Vec<SockAddr>)
        ensures
            r@ == match self.mp_alt {
                Some(a) => seq![roam::dest_of(self.sched.transport), a],
                None => seq![roam::dest_of(self.sched.transport)],
            },
    {
        let mut r: Vec<SockAddr> = Vec::new();
        r.push(self.sched.dest());
        match self.mp_alt {
            Some(a) => {
                r.push(a);
            },
            None => {},
        }
        assert(r@ =~= match self.mp_alt {
            Some(a) => seq![roam::dest_of(self.sched.transport), a],
            None => seq![roam::dest_of(self.sched.transport)],
        });
        r
    }
}

/// The frames of some packets, one after the other.
pub open spec fn plain_out(sealed: Seq<Option<Seq<Seq<u8>>>>) -> Seq<Seq<u8>>
    decreases sealed.len(),
{
    if sealed.len() == 0 {
        Seq::empty()
    } else {
        plain_out(sealed.drop_last()) + match sealed.last() {
            Some(f) => f,
            None => Seq::empty(),
        }
    }
}

/// Without error correction the frames of all packets go out, and nothing else.
pub proof fn frames_go_out_alone(packets: Seq<Seq<u8>>, sealed: Seq<Option<Seq<Seq<u8>>>>)
    requires
        packets.len() == sealed.len(),
    ensures
        batch_out(None, packets, sealed) == (None::<tx::TxView>, plain_out(sealed)),
    decreases packets.len(),
{
    if packets.len() > 0 {
        frames_go_out_alone(packets.drop_last(), sealed.drop_last());
    }
}

/// Every frame of every packet goes out, whatever is protected.
pub proof fn every_frame_goes_out(
    v: Option<tx::TxView>,
    packets: Seq<Seq<u8>>,
    sealed: Seq<Option<Seq<Seq<u8>>>>,
    i: int,
    f: Seq<u8>,
)
    requires
        packets.len() == sealed.len(),
        0 <= i < sealed.len(),
        sealed[i] matches Some(frames) && frames.contains(f),
    ensures
        batch_out(v, packets, sealed).1.contains(f),
    decreases packets.len(),
{
    let (w, out) = batch_out(v, packets.drop_last(), sealed.drop_last());
    let (x, more) = packet_out(w, packets.last(), sealed.last());
    if i < sealed.len() - 1 {
        every_frame_goes_out(v, packets.drop_last(), sealed.drop_last(), i, f);
        let k = choose|k: int| 0 <= k < out.len() && out[k] == f;
        assert((out + more)[k] == f);
    } else {
        let frames = sealed.last()->0;
        let k = choose|k: int| 0 <= k < frames.len() && frames[k] == f;
        let at = more.len() - frames.len() + k;
        assert(more[at] == f);
        assert((out + more)[out.len() + at] == f);
    }
}

/// A packet of the lowest class of service is not protected.
pub proof fn ordinary_packets_are_not_protected(v: Option<tx::TxView>, p: Seq<u8>, frames: Seq<Seq<u8>>)
    requires
        !is_marked(p),
    ensures
        packet_out(v, p, Some(frames)) == (v, frames),
{
}

/// What one data frame does to a group: one that is too short stays out; any other
/// is the next of the group; the last of a group closes it with its recovery
/// frame, for the key of that last frame, and the next group begins empty.
pub proof fn frame_joins_the_group(v: tx::TxView, frame: Seq<u8>)
    requires
        v.members.len() < v.k,
    ensures
        ({
            let (w, out) = push_step(v, frame);
            &&& w.k == v.k
            &&& frame.len() < 74 ==> w == v && out.len() == 0
            &&& frame.len() >= 74 && v.members.len() + 1 < v.k ==> {
                &&& w.members == v.members.push(frame)
                &&& w.group_seq == v.group_seq
                &&& out.len() == 0
            }
            &&& frame.len() >= 74 && v.members.len() + 1 == v.k ==> {
                &&& w.members.len() == 0
                &&& v.group_seq < u64::MAX ==> w.group_seq == v.group_seq + 1
                &&& v.group_seq == u64::MAX ==> w.group_seq == 0
                &&& out == seq![tx::recovery_wire(v.group_seq, v.members.push(frame), frame.subrange(2, 10))]
            }
        }),
{
}

/// Which packets are protected: those of IPv4 and IPv6 with a service class.
pub proof fn protected_packets(p: Seq<u8>)
    ensures
        is_marked(p) <==> p.len() >= 2 && ((p[0] / 16 == 4 && p[1] >= 4) || (p[0] / 16 == 6 && (p[0] % 16 != 0 || p[1] >= 64))),
{
}

/// What goes out for a packet: its frames, and for a protected one the recovery
/// frames of the groups that they close, before them; nothing for one that was not
/// sealed.
pub proof fn what_goes_out(v: tx::TxView, p: Seq<u8>, frames: Seq<Seq<u8>>)
    ensures
        packet_out(Some(v), p, None) == (Some(v), Seq::<Seq<u8>>::empty()),
        !is_marked(p) ==> packet_out(Some(v), p, Some(frames)) == (Some(v), frames),
        is_marked(p) ==> {
            let (w, out) = packet_out(Some(v), p, Some(frames));
            let n = out.len() - frames.len();
            &&& n == push_all(v, frames).1.len()
            &&& out.subrange(n, out.len() as int) == frames
            &&& out.subrange(0, n) == push_all(v, frames).1
            &&& w == Some(push_all(v, frames).0)
        },
{
    if is_marked(p) {
        let (w, out) = packet_out(Some(v), p, Some(frames));
        let n = out.len() - frames.len();
        assert(out.subrange(n, out.len() as int) =~= frames);
        assert(out.subrange(0, n) =~= push_all(v, frames).1);
    }
}

/// The frames of a batch join the group one after another.
pub proof fn frames_join_in_order(v: tx::TxView, frames: Seq<Seq<u8>>, f: Seq<u8>)
    ensures
        push_all(v, Seq::empty()) == (v, Seq::<Seq<u8>>::empty()),
        push_all(v, frames.push(f)).0 == push_step(push_all(v, frames).0, f).0,
        push_all(v, frames.push(f)).1 == push_all(v, frames).1 + push_step(push_all(v, frames).0, f).1,
{
    assert(frames.push(f).drop_last() =~= frames);
}

/// Of a batch the packets stay that passed, in their order.
pub proof fn passed_packets_stay(batch: Seq<Seq<u8>>, verdicts: Seq<bool>, p: Seq<u8>, ok: bool)
    requires
        batch.len() == verdicts.len(),
    ensures
        passed(batch.push(p), verdicts.push(ok)) == if ok {
            passed(batch, verdicts).push(p)
        } else {
            passed(batch, verdicts)
        },
        passed(Seq::empty(), Seq::empty()) == Seq::<Seq<u8>>::empty(),
{
    assert(batch.push(p).drop_last() =~= batch);
    assert(verdicts.push(ok).drop_last() =~= verdicts);
}

/// Of a batch the packets go on that a router would forward, as it would; for the
/// others it reports what it would report, and drops what it would drop.
pub proof fn batch_is_treated_one_by_one(s: plane::Settings, batch: Seq<Seq<u8>>, p: Seq<u8>)
    ensures
        ({
            let (q, v) = compat::outbound(p, s.effective_mtu, s.mss_clamp, s.tun_ip, None);
            &&& forwarded(s, batch.push(p)) == match v {
                compat::Verdict::Forward => forwarded(s, batch).push(q),
                _ => forwarded(s, batch),
            }
            &&& reports(s, batch.push(p)) == match v {
                compat::Verdict::Report(e) => reports(s, batch).push(e),
                _ => reports(s, batch),
            }
        }),
        forwarded(s, Seq::empty()).len() == 0,
        reports(s, Seq::empty()).len() == 0,
{
    assert(batch.push(p).drop_last() =~= batch);
}

/// The address of a peer is its IP address and port.
pub proof fn address_of_a_peer(ip: IpAddr, port: u16)
    ensures
        sock_of(ip, port).port_of() == port,
        ip matches IpAddr::V4(a) ==> sock_of(ip, port) == (SockAddr::V4 { ip: a, port }),
        ip matches IpAddr::V6(a) ==> sock_of(ip, port) == (SockAddr::V6 { ip6: a, port, flowinfo: 0, scope_id: 0 }),
{
}

} // verus!
