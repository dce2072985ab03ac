//! Where the node sends to, and which frames may change that.

use vstd::prelude::*;
use vstd::string::StringExecFns;
use crate::node::sock;
use crate::node::sock::SockAddr;

verus! {

/// Milliseconds between two changes of the entry on the word of frames that
/// prove nothing.
pub const ROAM_MIN_INTERVAL: u64 = 10_000;

/// Where outer packets go, and how.
#[derive(Debug, Clone, Copy, PartialEq, Eq)]
pub enum Transport {
    /// Through the tunnel.
    Tunnel(SockAddr),
    /// As they are.
    PlainUdp(SockAddr),
}

/// The address of a transport.
pub open spec fn dest_of(t: Transport) -> SockAddr {
    match t {
        Transport::Tunnel(d) => d,
        Transport::PlainUdp(d) => d,
    }
}

/// A way to the peer that was chosen.
#[derive(Debug, Clone, PartialEq, Eq)]
pub enum FallbackPath {
    /// Through the tunnel, by an entry.
    Tunnel { entry: String },
    PlainTcp,
    PlainUdp,
}

/// A way to the peer as a mathematical value.
pub ghost enum PathView {
    Tunnel { entry: Seq<char> },
    PlainTcp,
    PlainUdp,
}

impl View for FallbackPath {
    type V = PathView;

    open spec fn view(&self) -> PathView {
        match self {
            FallbackPath::Tunnel { entry } => PathView::Tunnel { entry: entry@ },
            FallbackPath::PlainTcp => PathView::PlainTcp,
            FallbackPath::PlainUdp => PathView::PlainUdp,
        }
    }
}

/// A handshake that was begun.
#[derive(Debug, Clone, PartialEq, Eq)]
pub struct Attempt {
    /// The first frame.
    pub frame: Vec<u8>,
    /// When it was first sent, in seconds.
    pub started: u64,
    /// Where it is sent.
    pub dest: SockAddr,
}

/// A handshake that was begun, as a mathematical value.
pub ghost struct AttemptView {
    pub frame: Seq<u8>,
    pub started: u64,
    pub dest: SockAddr,
}

impl View for Attempt {
    type V = AttemptView;

    open spec fn view(&self) -> AttemptView {
        AttemptView { frame: self.frame@, started: self.started, dest: self.dest }
    }
}

/// What the node knows about the way to its peer.
pub struct Sched {
    /// The main entry.
    pub main: SockAddr,
    /// Another entry.
    pub alt: Option<SockAddr>,
    /// The way that was last chosen.
    pub current: FallbackPath,
    pub transport: Transport,
    /// The handshake under way.
    pub attempt: Option<Attempt>,
    /// Whether the tunnel's success was noted.
    pub success_recorded: bool,
    /// Whether falling back to plain packets was reported.
    pub plain_reported: bool,
    /// When the tunnel's success was noted, in seconds.
    pub est_started: Option<u64>,
    /// How many packets had come by then.
    pub est_delivered: u64,
    /// Plain packets sent.
    pub plain_tx: u64,
    /// Plain packets received.
    pub plain_rx: u64,
    /// When a frame that proves nothing last changed the entry, in
    /// milliseconds.
    pub last_unauth_roam: Option<u64>,
    /// Whether both entries are used at once.
    pub mp: bool,
}

/// What the node knows about the way to its peer, as a mathematical value.
pub ghost struct SchedView {
    pub main: SockAddr,
    pub alt: Option<SockAddr>,
    pub current: PathView,
    pub transport: Transport,
    pub attempt: Option<AttemptView>,
    pub success_recorded: bool,
    pub plain_reported: bool,
    pub est_started: Option<u64>,
    pub est_delivered: u64,
    pub plain_tx: u64,
    pub plain_rx: u64,
    pub last_unauth_roam: Option<u64>,
    pub mp: bool,
}

impl View for Sched {
    type V = SchedView;

    open spec fn view(&self) -> SchedView {
        SchedView {
            main: self.main,
            alt: self.alt,
            current: self.current@,
            transport: self.transport,
            attempt: match self.attempt {
                Some(a) => Some(a@),
                None => None,
            },
            success_recorded: self.success_recorded,
            plain_reported: self.plain_reported,
            est_started: self.est_started,
            est_delivered: self.est_delivered,
            plain_tx: self.plain_tx,
            plain_rx: self.plain_rx,
            last_unauth_roam: self.last_unauth_roam,
            mp: self.mp,
        }
    }
}

/// Why the entry was changed on the word of a frame that proves nothing.
#[derive(Debug, Clone, Copy, PartialEq, Eq, Structural)]
pub enum RoamKind {
    /// It was the first frame of a peer that is to be learned.
    FirstFrame,
    /// The last such change is long ago.
    Roam,
}

impl RoamKind {
    /// What is reported of the change, given the new entry as a text.
    pub open spec fn text(self, from: Seq<char>) -> Seq<char> {
        match self {
            RoamKind::FirstFrame => "[learn-peer] 入口 → "@ + from + "（按合法首帧源地址）"@,
            RoamKind::Roam => "[migration] 漫游现学（限速，未认证帧）：隧道入口 → "@ + from,
        }
    }

    /// What is reported of the change, given the new entry as a text.
    pub fn message(&self, from: &str) -> (s: String)
        ensures
            s@ == self.text(from@),
    {
        let mut s = String::new();
        match self {
            RoamKind::FirstFrame => {
                s.append("[learn-peer] 入口 → ");
                s.append(from);
                s.append("（按合法首帧源地址）");
            },
            RoamKind::Roam => {
                s.append("[migration] 漫游现学（限速，未认证帧）：隧道入口 → ");
                s.append(from);
            },
        }
        assert(s@ =~= self.text(from@));
        s
    }
}

impl SchedView {
    /// Whether an address is one of the entries that are used at once.
    pub open spec fn in_entry_set(self, from: SockAddr) -> bool {
        self.mp && (self.main == from || self.alt == Some(from))
    }

    /// The same with another address for the handshake under way.
    pub open spec fn redirected(self, dest: SockAddr) -> SchedView {
        SchedView {
            attempt: match self.attempt {
                Some(a) => Some(AttemptView { dest, ..a }),
                None => None,
            },
            ..self
        }
    }

    /// The same with another entry.
    pub open spec fn moved(self, from: SockAddr) -> SchedView {
        SchedView { main: from, transport: Transport::Tunnel(from), ..self.redirected(from) }
    }

    /// Whether a frame that proves its sender changes the entry.
    pub open spec fn strong_change(self, from: SockAddr) -> bool {
        self.transport is Tunnel && dest_of(self.transport) != from && !self.in_entry_set(from)
    }

    /// The state after a frame that proves its sender.
    pub open spec fn after_strong(self, from: SockAddr, now: u64) -> SchedView {
        if self.strong_change(from) {
            SchedView { last_unauth_roam: Some(now), ..self.moved(from) }
        } else {
            self
        }
    }

    /// Whether the address of a frame that proves nothing is another than the
    /// entry.
    pub open spec fn weak_news(self, from: SockAddr) -> bool {
        self.transport is PlainUdp || (dest_of(self.transport) != from && !self.in_entry_set(from))
    }

    /// Whether the last change on the word of a frame that proves nothing is
    /// too recent for another.
    pub open spec fn too_soon(self, now: u64) -> bool {
        self.last_unauth_roam matches Some(t) && now - t < ROAM_MIN_INTERVAL
    }

    /// Why a frame that proves nothing changes the entry, if it does.
    pub open spec fn weak_change(self, from: SockAddr, learned: bool, first: bool, now: u64) -> Option<RoamKind> {
        if !self.weak_news(from) {
            None
        } else if first && !learned {
            Some(RoamKind::FirstFrame)
        } else if self.too_soon(now) {
            None
        } else {
            Some(RoamKind::Roam)
        }
    }

    /// The state after a frame that proves nothing.
    pub open spec fn after_weak(self, from: SockAddr, learned: bool, first: bool, now: u64) -> SchedView {
        match self.weak_change(from, learned, first, now) {
            None => self,
            Some(RoamKind::FirstFrame) => self.moved(from),
            Some(RoamKind::Roam) => SchedView { last_unauth_roam: Some(now), ..self.moved(from) },
        }
    }
}

impl Sched {
    /// What a node knows when it begins.
    pub fn new(peer: SockAddr, alt: Option<SockAddr>, mp: bool) -> (s: Self)
        ensures
            s@ == (SchedView {
                main: peer,
                alt,
                current: PathView::Tunnel { entry: Seq::empty() },
                transport: Transport::Tunnel(peer),
                attempt: None,
                success_recorded: false,
                plain_reported: false,
                est_started: None,
                est_delivered: 0,
                plain_tx: 0,
                plain_rx: 0,
                last_unauth_roam: None,
                mp,
            }),
    {
        let entry = String::new();
        assert(entry@ =~= Seq::<char>::empty());
        Sched {
            main: peer,
            alt,
            current: FallbackPath::Tunnel { entry },
            transport: Transport::Tunnel(peer),
            attempt: None,
            success_recorded: false,
            plain_reported: false,
            est_started: None,
            est_delivered: 0,
            plain_tx: 0,
            plain_rx: 0,
            last_unauth_roam: None,
            mp,
        }
    }

    /// Where packets go.
    pub fn dest(&self) -> (d: SockAddr)
        ensures
            d == dest_of(self.transport),
    {
        match self.transport {
            Transport::Tunnel(d) => d,
            Transport::PlainUdp(d) => d,
        }
    }

    /// Whether an address is one of the entries that are used at once.
    pub fn in_entry_set(&self, from: &SockAddr) -> (r: bool)
        ensures
            r == self@.in_entry_set(*from),
    {
        if !self.mp {
            return false;
        }
        if sock::same_sock(&self.main, from) {
            return true;
        }
        match &self.alt {
            Some(a) => sock::same_sock(a, from),
            None => false,
        }
    }

    /// Sends the handshake under way, if there is one, to another address.
    fn redirect(&mut self, dest: SockAddr)
        ensures
            final(self)@ == old(self)@.redirected(dest),
    {
        match self.attempt.take() {
            Some(a) => {
                self.attempt = Some(Attempt { frame: a.frame, started: a.started, dest });
            },
            None => {},
        }
    }

    /// A frame came that proves its sender: the entry follows at once, and
    /// frames that prove nothing cannot change it for a while. Says whether the
    /// entry changed.
    pub fn strong_refresh(&mut self, from: SockAddr, now: u64) -> (changed: bool)
        ensures
            changed == old(self)@.strong_change(from),
            final(self)@ == old(self)@.after_strong(from, now),
    {
        let need = match &self.transport {
            Transport::Tunnel(dest) => !sock::same_sock(dest, &from) && !self.in_entry_set(&from),
            Transport::PlainUdp(_) => false,
        };
        if !need {
            return false;
        }
        self.redirect(from);
        self.main = from;
        self.transport = Transport::Tunnel(from);
        self.last_unauth_roam = Some(now);
        true
    }

    /// A frame came that proves nothing: the entry follows it where it is the
    /// first frame of a peer that is to be learned, and else once in a while.
    /// `learned` tells afterwards whether the entry is the sender's.
    pub fn unauth_refresh(
        &mut self,
        from: SockAddr,
        learned: &mut bool,
        allow_first_frame: bool,
        now: u64,
    ) -> (r: Option<RoamKind>)
        ensures
            r == old(self)@.weak_change(from, *old(learned), allow_first_frame, now),
            final(self)@ == old(self)@.after_weak(from, *old(learned), allow_first_frame, now),
            *final(learned) == (*old(learned) || r is Some || !old(self)@.weak_news(from)),
    {
        let news = match &self.transport {
            Transport::Tunnel(dest) => !sock::same_sock(dest, &from) && !self.in_entry_set(&from),
            Transport::PlainUdp(_) => true,
        };
        if !news {
            *learned = true;
            return None;
        }
        let kind = if allow_first_frame && !*learned {
            RoamKind::FirstFrame
        } else {
            match self.last_unauth_roam {
                Some(t) => {
                    if now.saturating_sub(t) < ROAM_MIN_INTERVAL {
                        return None;
                    }
                },
                None => {},
            }
            self.last_unauth_roam = Some(now);
            RoamKind::Roam
        };
        self.redirect(from);
        self.main = from;
        self.transport = Transport::Tunnel(from);
        *learned = true;
        Some(kind)
    }

    /// A better address of the peer is known: a node that has no tunnel yet and
    /// begins handshakes aims there.
    pub fn retarget(&mut self, dest: SockAddr, initiate: bool, established: bool)
        ensures
            final(self)@ == if initiate && !established {
                (SchedView { transport: Transport::Tunnel(dest), ..old(self)@.redirected(dest) })
            } else {
                old(self)@
            },
    {
        if initiate && !established {
            self.redirect(dest);
            self.transport = Transport::Tunnel(dest);
        }
    }
}

/// The class of service of an IP packet, if it has one: the high six bits of
/// the second byte for IPv4, of the traffic class for IPv6.
pub open spec fn dscp_of(p: Seq<u8>) -> Option<u8> {
    if p.len() < 2 {
        None
    } else if p[0] / 16 == 4 {
        Some((p[1] / 4) as u8)
    } else if p[0] / 16 == 6 {
        Some(((p[0] % 16) * 4 + p[1] / 64) as u8)
    } else {
        None
    }
}

/// The class of service of an IP packet.
pub fn inner_dscp(pkt: &[u8]) -> (r: Option<u8>)
    ensures
        r == dscp_of(pkt@),
{
    if pkt.len() < 2 {
        return None;
    }
    if pkt[0] / 16 == 4 {
        Some(pkt[1] / 4)
    } else if pkt[0] / 16 == 6 {
        Some((pkt[0] % 16) * 4 + pkt[1] / 64)
    } else {
        None
    }
}

/// Whether what became of a frame proves its sender: a packet was deciphered,
/// or an authenticated handshake was answered.
pub open spec fn is_strong(raw: Seq<u8>, has_resp: bool, has_delivered: bool) -> bool {
    has_delivered || (has_resp && raw.len() >= 2 && raw[0] == 1 && raw[1] == 4)
}

/// Whether what became of a frame proves its sender.
pub fn is_strong_roam_credential(raw: &[u8], has_resp: bool, has_delivered: bool) -> (r: bool)
    ensures
        r == is_strong(raw@, has_resp, has_delivered),
{
    if has_delivered {
        return true;
    }
    has_resp && raw.len() >= 2 && raw[0] == 1 && raw[1] == 4
}

/// After a change on the word of a frame that proves nothing, or a correction
/// by one that proves its sender, no frame that proves nothing changes the
/// entry for the interval, once the peer is learned.
pub proof fn weak_changes_are_rare(s: SchedView, from: SockAddr, now: u64, t: u64, first: bool)
    requires
        s.last_unauth_roam == Some(t),
        now - t < ROAM_MIN_INTERVAL,
    ensures
        s.weak_change(from, true, first, now) is None,
        s.weak_change(from, false, false, now) is None,
        s.after_weak(from, true, first, now) == s,
        s.after_weak(from, false, false, now) == s,
{
}

/// A change on the word of a frame that proves nothing starts the interval,
/// unless it was the first frame of a peer that is to be learned.
pub proof fn weak_change_starts_the_interval(s: SchedView, from: SockAddr, learned: bool, first: bool, now: u64)
    requires
        s.weak_change(from, learned, first, now) is Some,
    ensures
        s.after_weak(from, learned, first, now).last_unauth_roam == if first && !learned {
            s.last_unauth_roam
        } else {
            Some(now)
        },
{
}

/// A frame that proves its sender corrects the entry at any time, and starts
/// the interval in which frames that prove nothing cannot change it.
pub proof fn proof_corrects_the_entry(s: SchedView, from: SockAddr, now: u64)
    requires
        s.transport is Tunnel,
        !s.in_entry_set(from),
    ensures
        s.after_strong(from, now).transport == Transport::Tunnel(from),
        s.strong_change(from) ==> s.after_strong(from, now).last_unauth_roam == Some(now),
{
}

/// With both entries in use no frame from either of them changes anything.
pub proof fn entries_do_not_alternate(s: SchedView, from: SockAddr, learned: bool, first: bool, now: u64)
    requires
        s.mp,
        s.transport is Tunnel,
        from == s.main || s.alt == Some(from),
    ensures
        s.after_strong(from, now) == s,
        s.after_weak(from, learned, first, now) == s,
{
}

/// After a change of the entry, packets and the handshake under way go to the
/// new one.
pub proof fn change_takes_effect(s: SchedView, from: SockAddr, learned: bool, first: bool, now: u64)
    ensures
        s.weak_change(from, learned, first, now) is Some ==> ({
            let t = s.after_weak(from, learned, first, now);
            t.main == from && t.transport == Transport::Tunnel(from) && (t.attempt matches Some(a) ==> a.dest == from)
        }),
        s.strong_change(from) ==> ({
            let t = s.after_strong(from, now);
            t.main == from && t.transport == Transport::Tunnel(from) && (t.attempt matches Some(a) ==> a.dest == from)
        }),
{
}

/// A frame that proves nothing changes the entry: as the first one of a peer that
/// is to be learned at once, else not within ten seconds of the last change; and
/// never where it comes from where packets go already, or from an entry in use.
pub proof fn when_a_weak_frame_counts(s: SchedView, from: SockAddr, learned: bool, first: bool, now: u64)
    requires
        s.last_unauth_roam matches Some(t) ==> t <= now,
    ensures
        ({
            let known = s.transport is Tunnel && (s.transport->Tunnel_0 == from || (s.mp && (s.main == from || s.alt == Some(from))));
            let rested = match s.last_unauth_roam {
                Some(t) => now - t >= 10_000,
                None => true,
            };
            &&& known ==> s.weak_change(from, learned, first, now) is None
            &&& !known && first && !learned ==> s.weak_change(from, learned, first, now) == Some(RoamKind::FirstFrame)
            &&& !known && !(first && !learned) && rested ==> s.weak_change(from, learned, first, now) == Some(RoamKind::Roam)
            &&& !known && !(first && !learned) && !rested ==> s.weak_change(from, learned, first, now) is None
            &&& s.weak_change(from, learned, first, now) is None ==> s.after_weak(from, learned, first, now) == s
        }),
{
}

/// A frame that proves its sender changes the entry of a tunnel, unless it comes
/// from where packets go already, or from an entry in use; it does not end plain
/// sending.
pub proof fn when_a_strong_frame_counts(s: SchedView, from: SockAddr, now: u64)
    ensures
        s.strong_change(from) <==> s.transport is Tunnel && s.transport->Tunnel_0 != from && !(s.mp && (s.main == from || s.alt
            == Some(from))),
        !s.strong_change(from) ==> s.after_strong(from, now) == s,
{
}

/// A change of the entry changes where packets and the handshake go, and nothing
/// else.
pub proof fn change_leaves_the_rest(s: SchedView, from: SockAddr, learned: bool, first: bool, now: u64)
    ensures
        ({
            let t = s.after_weak(from, learned, first, now);
            let u = s.after_strong(from, now);
            &&& t.alt == s.alt && t.current == s.current && t.success_recorded == s.success_recorded
            &&& t.plain_reported == s.plain_reported && t.est_started == s.est_started && t.est_delivered == s.est_delivered
            &&& t.plain_tx == s.plain_tx && t.plain_rx == s.plain_rx && t.mp == s.mp
            &&& t.attempt is Some == s.attempt is Some
            &&& s.attempt matches Some(a) ==> t.attempt->0.frame == a.frame && t.attempt->0.started == a.started
            &&& u.alt == s.alt && u.current == s.current && u.success_recorded == s.success_recorded
            &&& u.plain_reported == s.plain_reported && u.est_started == s.est_started && u.est_delivered == s.est_delivered
            &&& u.plain_tx == s.plain_tx && u.plain_rx == s.plain_rx && u.mp == s.mp
            &&& u.attempt is Some == s.attempt is Some
            &&& s.attempt matches Some(a) ==> u.attempt->0.frame == a.frame && u.attempt->0.started == a.started
        }),
{
}

/// The service class of an inner packet: the upper six bits of the second byte of
/// IPv4, and the upper six bits of the traffic class of IPv6.
pub proof fn service_class(p: Seq<u8>)
    ensures
        p.len() < 2 ==> dscp_of(p) is None,
        p.len() >= 2 && 0x40 <= p[0] <= 0x4F ==> dscp_of(p) is Some && p[1] == dscp_of(p)->0 * 4 + p[1] % 4,
        p.len() >= 2 && 0x60 <= p[0] <= 0x6F ==> dscp_of(p) is Some && (p[0] % 16) * 16 + p[1] / 16 == dscp_of(p)->0 * 4
            + p[1] / 16 % 4,
        p.len() >= 2 && p[0] / 16 != 4 && p[0] / 16 != 6 ==> dscp_of(p) is None,
{
}

/// What proves the sender of a frame: that its payload was delivered, or the answer
/// to a handshake message of the kind that ends one.
pub proof fn proofs_of_a_sender(raw: Seq<u8>, has_resp: bool, has_delivered: bool)
    ensures
        has_delivered ==> is_strong(raw, has_resp, has_delivered),
        !has_delivered && !has_resp ==> !is_strong(raw, has_resp, has_delivered),
        !has_delivered && has_resp ==> (is_strong(raw, has_resp, has_delivered) <==> raw.len() >= 2 && raw[0] == 1 && raw[1]
            == 4),
{
}

} // verus!
