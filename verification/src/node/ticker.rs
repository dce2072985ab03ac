//! What the node does every two seconds: looks after handshakes, falls back to
//! other ways, and counts.

use vstd::prelude::*;
use crate::node::roam;
use crate::node::roam::{Attempt, FallbackPath, Sched, Transport};
use crate::node::sock;
use crate::node::sock::SockAddr;

verus! {

/// The state of a handshake.
#[derive(Debug, Clone, Copy, PartialEq, Eq, Structural)]
pub enum State {
    Idle,
    Initiating,
    Responding,
    Established,
}

/// What is due for the workers of a tunnel.
#[derive(Debug, Clone, Copy, PartialEq, Eq, Structural)]
pub enum ShardStep {
    /// Nothing.
    Keep,
    /// The tunnel has new keys: the workers go.
    Retire,
    /// The tunnel is there and has no workers yet: it gets some.
    Split,
}

/// What is due for the workers of a tunnel: they go where the engine is no more
/// split, and come where the tunnel is established.
pub fn shard_step(shards: usize, has_tun: bool, active: bool, eng_sharded: bool, state: State) -> (r: ShardStep)
    ensures
        r == if shards <= 1 || !has_tun || eng_sharded {
            ShardStep::Keep
        } else if active {
            ShardStep::Retire
        } else if state == State::Established {
            ShardStep::Split
        } else {
            ShardStep::Keep
        },
{
    if shards > 1 && has_tun {
        if active && !eng_sharded {
            return ShardStep::Retire;
        }
        if state == State::Established && !active && !eng_sharded {
            return ShardStep::Split;
        }
    }
    ShardStep::Keep
}

/// What was counted of the packets of a tunnel.
#[derive(Debug, Clone, Copy, PartialEq, Eq, Structural)]
pub struct ShardStats {
    pub sealed: u64,
    pub delivered: u64,
    pub dropped: u64,
    pub fragments_sent: u64,
    pub fragments_reassembled: u64,
}

impl ShardStats {
    /// Nothing was counted.
    pub open spec fn none() -> ShardStats {
        ShardStats { sealed: 0, delivered: 0, dropped: 0, fragments_sent: 0, fragments_reassembled: 0 }
    }

    /// Whether two counts can be added.
    pub open spec fn fits(self, other: ShardStats) -> bool {
        &&& self.sealed + other.sealed <= u64::MAX
        &&& self.delivered + other.delivered <= u64::MAX
        &&& self.dropped + other.dropped <= u64::MAX
        &&& self.fragments_sent + other.fragments_sent <= u64::MAX
        &&& self.fragments_reassembled + other.fragments_reassembled <= u64::MAX
    }

    /// Two counts together.
    pub open spec fn sum(self, other: ShardStats) -> ShardStats {
        ShardStats {
            sealed: (self.sealed + other.sealed) as u64,
            delivered: (self.delivered + other.delivered) as u64,
            dropped: (self.dropped + other.dropped) as u64,
            fragments_sent: (self.fragments_sent + other.fragments_sent) as u64,
            fragments_reassembled: (self.fragments_reassembled + other.fragments_reassembled) as u64,
        }
    }

    /// Two counts together.
    pub fn plus(&self, other: &ShardStats) -> (r: ShardStats)
        requires
            self.fits(*other),
        ensures
            r == self.sum(*other),
    {
        ShardStats {
            sealed: self.sealed + other.sealed,
            delivered: self.delivered + other.delivered,
            dropped: self.dropped + other.dropped,
            fragments_sent: self.fragments_sent + other.fragments_sent,
            fragments_reassembled: self.fragments_reassembled + other.fragments_reassembled,
        }
    }
}

/// The workers of a tunnel: how many there are, and what earlier ones counted.
#[derive(Debug, Clone, Copy, PartialEq, Eq, Structural)]
pub struct ShardHub {
    pub workers: usize,
    pub off: ShardStats,
}

impl Default for ShardHub {
    fn default() -> (r: Self)
        ensures
            r == (ShardHub { workers: 0, off: ShardStats::none() }),
    {
        ShardHub {
            workers: 0,
            off: ShardStats { sealed: 0, delivered: 0, dropped: 0, fragments_sent: 0, fragments_reassembled: 0 },
        }
    }
}

impl ShardHub {
    /// What all workers counted, given what the present ones did.
    pub open spec fn total(self, cur: ShardStats) -> ShardStats {
        if self.workers > 0 {
            self.off.sum(cur)
        } else {
            self.off
        }
    }

    /// What all workers counted, given what the present ones did.
    pub fn stats(&self, cur: &ShardStats) -> (r: ShardStats)
        requires
            self.off.fits(*cur),
        ensures
            r == self.total(*cur),
    {
        if self.workers > 0 {
            self.off.plus(cur)
        } else {
            self.off
        }
    }

    /// New workers come.
    pub fn install(&mut self, workers: usize)
        ensures
            *final(self) == (ShardHub { workers, ..*old(self) }),
    {
        self.workers = workers;
    }

    /// The number of workers.
    pub fn active(&self) -> (n: usize)
        ensures
            n == self.workers,
    {
        self.workers
    }

    /// The workers go, and what they counted is kept; gives their number.
    pub fn retire(&mut self, cur: &ShardStats) -> (n: usize)
        requires
            old(self).off.fits(*cur),
        ensures
            n == old(self).workers,
            *final(self) == (ShardHub { workers: 0, off: old(self).total(*cur) }),
    {
        let n: usize = self.workers;
        if n > 0 {
            self.off = self.off.plus(cur);
        }
        self.workers = 0;
        n
    }

    /// What is reported as counted: what the workers did where there are some,
    /// else what the engine did.
    pub fn reported(&self, engine: &ShardStats, cur: &ShardStats) -> (r: ShardStats)
        requires
            self.off.fits(*cur),
        ensures
            r == if self.workers > 0 {
                self.total(*cur)
            } else {
                *engine
            },
    {
        if self.workers > 0 {
            self.stats(cur)
        } else {
            *engine
        }
    }
}

/// Retiring the workers changes nothing of what is counted in all.
pub proof fn retiring_keeps_the_count(h: ShardHub, cur: ShardStats, later: ShardStats)
    ensures
        (ShardHub { workers: 0, off: h.total(cur) }).total(later) == h.total(cur),
{
}

/// What follows from an established tunnel.
#[derive(Debug, Clone, Copy, PartialEq, Eq, Structural)]
pub struct EstablishedStep {
    /// Note the success of the way that was chosen.
    pub record_success: bool,
    /// Nothing came back in time: note the failure and start anew.
    pub timed_out: bool,
}

/// What is due where the tunnel is not established.
#[derive(Debug, Clone, PartialEq, Eq)]
pub enum PendingStep {
    /// Nothing.
    Wait,
    /// Send the handshake's first frame again.
    Resend { frame: Vec<u8>, dest: SockAddr },
    /// Choose a way to the peer.
    ChoosePath,
    /// The handshake took too long: note the failure and abandon it.
    GiveUp,
}

/// What is due, as a mathematical value.
pub ghost enum PendingView {
    Wait,
    Resend { frame: Seq<u8>, dest: SockAddr },
    ChoosePath,
    GiveUp,
}

impl View for PendingStep {
    type V = PendingView;

    open spec fn view(&self) -> PendingView {
        match self {
            PendingStep::Wait => PendingView::Wait,
            PendingStep::Resend { frame, dest } => PendingView::Resend { frame: frame@, dest: *dest },
            PendingStep::ChoosePath => PendingView::ChoosePath,
            PendingStep::GiveUp => PendingView::GiveUp,
        }
    }
}

/// What is due where a way was chosen.
#[derive(Debug, Clone, Copy, PartialEq, Eq)]
pub enum PathStep {
    /// Begin a handshake with an address.
    Handshake(SockAddr),
    /// Report that packets go plain from now on.
    ReportPlain,
    /// Nothing.
    Nothing,
}

impl roam::SchedView {
    /// The state after the success of the tunnel is noted: the way is that of
    /// the handshake that succeeded.
    pub open spec fn with_success(self, now: u64, delivered: u64) -> roam::SchedView {
        roam::SchedView {
            transport: match self.attempt {
                Some(a) => Transport::Tunnel(a.dest),
                None => self.transport,
            },
            attempt: None,
            success_recorded: true,
            est_started: Some(now),
            est_delivered: delivered,
            ..self
        }
    }

    /// Whether packets went out and for the given time none came back.
    pub open spec fn half_open(self, sealed: u64, delivered: u64, timeout: u64, now: u64) -> bool {
        sealed > 0 && delivered == self.est_delivered && (self.est_started matches Some(t) && (if now >= t {
            now - t
        } else {
            0
        }) >= timeout)
    }

    /// The state after the tunnel was seen established, and what is due.
    pub open spec fn established_step(
        self,
        fb_on: bool,
        sealed: u64,
        delivered: u64,
        timeout: u64,
        now: u64,
    ) -> (roam::SchedView, EstablishedStep) {
        let first = fb_on && !self.success_recorded;
        let s = if first {
            self.with_success(now, delivered)
        } else {
            self
        };
        let late = fb_on && s.half_open(sealed, delivered, timeout, now);
        (
            if late {
                roam::SchedView { success_recorded: false, est_started: None, ..s }
            } else {
                s
            },
            EstablishedStep { record_success: first, timed_out: late },
        )
    }

    /// What is due where the tunnel is not established.
    pub open spec fn pending_step(self, fb_on: bool, initiate: bool, state: State, timeout: u64, now: u64) -> PendingView {
        if !fb_on {
            match self.attempt {
                Some(a) => if state == State::Initiating {
                    PendingView::Resend { frame: a.frame, dest: a.dest }
                } else {
                    PendingView::Wait
                },
                None => PendingView::Wait,
            }
        } else if state == State::Established {
            PendingView::Wait
        } else if state == State::Idle {
            if initiate {
                PendingView::ChoosePath
            } else {
                PendingView::Wait
            }
        } else {
            match self.attempt {
                Some(a) => if (if now >= a.started {
                    now - a.started
                } else {
                    0
                }) >= timeout {
                    PendingView::GiveUp
                } else {
                    PendingView::Resend { frame: a.frame, dest: a.dest }
                },
                None => PendingView::Wait,
            }
        }
    }

    /// The state after a way was chosen; `entry` is the address of its entry,
    /// where that is one.
    pub open spec fn with_path(self, path: roam::PathView, entry: Option<SockAddr>) -> roam::SchedView {
        roam::SchedView {
            current: path,
            success_recorded: false,
            est_started: None,
            transport: match path {
                roam::PathView::Tunnel { entry: _ } => Transport::Tunnel(
                    match entry {
                        Some(d) => d,
                        None => self.main,
                    },
                ),
                _ => Transport::PlainUdp(self.main),
            },
            plain_reported: self.plain_reported || !(path is Tunnel),
            ..self
        }
    }
}

impl Sched {
    /// The tunnel was seen established. The first time, its success is noted,
    /// and packets go where the handshake succeeded. Where packets went out and
    /// none came back for `timeout` seconds, the node starts anew.
    pub fn on_established(
        &mut self,
        fb_on: bool,
        sealed: u64,
        delivered: u64,
        timeout: u64,
        now: u64,
    ) -> (r: EstablishedStep)
        ensures
            old(self)@.established_step(fb_on, sealed, delivered, timeout, now) == (final(self)@, r),
    {
        let record_success = fb_on && !self.success_recorded;
        if record_success {
            match self.attempt.take() {
                Some(a) => {
                    self.transport = Transport::Tunnel(a.dest);
                },
                None => {},
            }
            self.success_recorded = true;
            self.est_started = Some(now);
            self.est_delivered = delivered;
        }
        let waited = match self.est_started {
            Some(t) => now.saturating_sub(t) >= timeout,
            None => false,
        };
        let timed_out = fb_on && sealed > 0 && delivered == self.est_delivered && waited;
        if timed_out {
            self.success_recorded = false;
            self.est_started = None;
        }
        EstablishedStep { record_success, timed_out }
    }

    /// The tunnel is not established. Without other ways to fall back to, the
    /// handshake's first frame is sent again and again; with them, for
    /// `timeout` seconds, and then another way is chosen.
    pub fn on_pending(&mut self, fb_on: bool, initiate: bool, state: State, timeout: u64, now: u64) -> (r: PendingStep)
        ensures
            r@ == old(self)@.pending_step(fb_on, initiate, state, timeout, now),
            final(self)@ == if r is GiveUp {
                (roam::SchedView { attempt: None, ..old(self)@ })
            } else {
                old(self)@
            },
    {
        if fb_on && state == State::Idle {
            return if initiate {
                PendingStep::ChoosePath
            } else {
                PendingStep::Wait
            };
        }
        if state == State::Established || (!fb_on && state != State::Initiating) {
            return PendingStep::Wait;
        }
        let late = match &self.attempt {
            Some(a) => fb_on && now.saturating_sub(a.started) >= timeout,
            None => {
                return PendingStep::Wait;
            },
        };
        if late {
            self.attempt = None;
            return PendingStep::GiveUp;
        }
        match &self.attempt {
            Some(a) => PendingStep::Resend { frame: vstd::slice::slice_to_vec(a.frame.as_slice()), dest: a.dest },
            None => PendingStep::Wait,
        }
    }

    /// A way was chosen; `entry` is the address of its entry, where that is
    /// one. Plain packets go to the main entry.
    pub fn take_path(&mut self, path: FallbackPath, entry: Option<SockAddr>) -> (r: PathStep)
        ensures
            final(self)@ == old(self)@.with_path(path@, entry),
            r == match path {
                FallbackPath::Tunnel { entry: _ } => PathStep::Handshake(roam::dest_of(final(self).transport)),
                _ => if old(self).plain_reported {
                    PathStep::Nothing
                } else {
                    PathStep::ReportPlain
                },
            },
    {
        self.success_recorded = false;
        self.est_started = None;
        let step = match &path {
            FallbackPath::Tunnel { .. } => {
                let dest = match entry {
                    Some(d) => d,
                    None => self.main,
                };
                self.transport = Transport::Tunnel(dest);
                PathStep::Handshake(dest)
            },
            _ => {
                self.transport = Transport::PlainUdp(self.main);
                if self.plain_reported {
                    PathStep::Nothing
                } else {
                    self.plain_reported = true;
                    PathStep::ReportPlain
                }
            },
        };
        self.current = path;
        step
    }

    /// A handshake was begun.
    pub fn begin(&mut self, frame: Vec<u8>, now: u64, dest: SockAddr)
        ensures
            final(self)@ == (roam::SchedView {
                attempt: Some(roam::AttemptView { frame: frame@, started: now, dest }),
                ..old(self)@
            }),
    {
        self.attempt = Some(Attempt { frame, started: now, dest });
    }

    /// Plain packets were sent.
    pub fn count_sent(&mut self, n: u64)
        requires
            old(self).plain_tx + n <= u64::MAX,
        ensures
            final(self)@ == (roam::SchedView { plain_tx: (old(self).plain_tx + n) as u64, ..old(self)@ }),
    {
        self.plain_tx = self.plain_tx + n;
    }

    /// A plain packet was received.
    pub fn count_received(&mut self)
        requires
            old(self).plain_rx < u64::MAX,
        ensures
            final(self)@ == (roam::SchedView { plain_rx: (old(self).plain_rx + 1) as u64, ..old(self)@ }),
    {
        self.plain_rx = self.plain_rx + 1;
    }
}

/// After the success of a tunnel packets go where the handshake succeeded.
pub proof fn success_locks_the_entry(s: roam::SchedView, sealed: u64, delivered: u64, timeout: u64, now: u64)
    requires
        !s.success_recorded,
        s.attempt is Some,
    ensures
        ({
            let (t, step) = s.established_step(true, sealed, delivered, timeout, now);
            step.record_success && t.transport == Transport::Tunnel(s.attempt->0.dest) && t.attempt is None
        }),
{
}

/// The success of a tunnel is noted once: not again before a failure is noted
/// or another way is chosen.
pub proof fn success_is_noted_once(
    s: roam::SchedView,
    sealed: u64,
    delivered: u64,
    timeout: u64,
    now: u64,
    sealed2: u64,
    delivered2: u64,
    now2: u64,
)
    ensures
        ({
            let (t, step) = s.established_step(true, sealed, delivered, timeout, now);
            let (_, step2) = t.established_step(true, sealed2, delivered2, timeout, now2);
            !step.timed_out ==> !step2.record_success
        }),
{
}

/// A tunnel through which something came back since its success was noted is
/// not given up.
pub proof fn live_tunnel_is_kept(s: roam::SchedView, fb_on: bool, sealed: u64, delivered: u64, timeout: u64, now: u64)
    requires
        s.success_recorded,
        delivered != s.est_delivered,
    ensures
        s.established_step(fb_on, sealed, delivered, timeout, now) == (
            s,
            EstablishedStep { record_success: false, timed_out: false },
        ),
{
}

/// Without other ways to fall back to, the state never changes here.
pub proof fn nothing_changes_without_fallback(
    s: roam::SchedView,
    sealed: u64,
    delivered: u64,
    timeout: u64,
    now: u64,
    initiate: bool,
    state: State,
)
    ensures
        s.established_step(false, sealed, delivered, timeout, now).0 == s,
        !(s.pending_step(false, initiate, state, timeout, now) is GiveUp),
        !(s.pending_step(false, initiate, state, timeout, now) is ChoosePath),
{
}

/// The address of a host.
#[derive(Debug, Clone, Copy, PartialEq, Eq)]
pub enum IpAddr {
    V4([u8; 4]),
    V6([u8; 16]),
}

/// Whether two hosts are the same.
pub fn same_ip(a: &IpAddr, b: &IpAddr) -> (r: bool)
    ensures
        r == (*a == *b),
{
    match (a, b) {
        (IpAddr::V4(x), IpAddr::V4(y)) => {
            let r = crate::wire::same_bytes(x.as_slice(), y.as_slice());
            proof {
                if r {
                    assert(*x =~= *y);
                }
            }
            r
        },
        (IpAddr::V6(x), IpAddr::V6(y)) => {
            let r = crate::wire::same_bytes(x.as_slice(), y.as_slice());
            proof {
                if r {
                    assert(*x =~= *y);
                }
            }
            r
        },
        _ => false,
    }
}

/// The address by which the node last reached its peer.
#[derive(Debug, Clone, Copy, PartialEq, Eq)]
pub struct Migrator {
    pub last_local: Option<IpAddr>,
}

impl Migrator {
    /// The node looked at its own address; says whether it is another than
    /// before, so that the peer is to be knocked at.
    pub fn observe(&mut self, cur: Option<IpAddr>) -> (knock: bool)
        ensures
            knock == (cur is Some && old(self).last_local is Some && cur != old(self).last_local),
            final(self).last_local == if cur is Some {
                cur
            } else {
                old(self).last_local
            },
    {
        match cur {
            None => false,
            Some(c) => {
                let knock = match &self.last_local {
                    Some(p) => !same_ip(p, &c),
                    None => false,
                };
                self.last_local = cur;
                knock
            },
        }
    }
}

/// The first candidate that is an address, as a socket can reach it.
pub fn first_candidate(candidates: &Vec<Option<SockAddr>>, local_v6: bool) -> (r: Option<SockAddr>)
    ensures
        match r {
            Some(a) => exists|i: int|
                0 <= i < candidates@.len() && (#[trigger] candidates@[i]) is Some && a == sock::mapped(
                    candidates@[i]->0,
                    local_v6,
                ) && forall|j: int| 0 <= j < i ==> (#[trigger] candidates@[j]) is None,
            None => forall|j: int| 0 <= j < candidates@.len() ==> (#[trigger] candidates@[j]) is None,
        },
{
    let mut i: usize = 0;
    while i < candidates.len()
        invariant
            i <= candidates.len(),
            forall|j: int| 0 <= j < i ==> (#[trigger] candidates@[j]) is None,
        decreases candidates.len() - i,
    {
        match candidates[i] {
            Some(a) => {
                return Some(sock::map_for_socket(a, local_v6));
            },
            None => {},
        }
        i = i + 1;
    }
    None
}

/// How busily the node looks for packets: it waits only after two rounds in
/// which there was nothing to do.
#[derive(Debug, Clone, Copy, PartialEq, Eq, Structural)]
pub struct Pace {
    /// Whether there was something to do since the node last waited.
    pub busy: bool,
    /// Rounds with nothing to do since.
    pub idle: u32,
}

impl Pace {
    /// A round is over; says whether to wait now.
    pub fn round(&mut self, worked: bool) -> (wait: bool)
        requires
            old(self).idle < 2,
        ensures
            final(self).idle < 2,
            worked ==> !wait && final(self).busy && final(self).idle == 0,
            !worked ==> wait == (!old(self).busy || old(self).idle == 1),
            wait ==> *final(self) == (Pace { busy: false, idle: 0 }),
            !worked && !wait ==> *final(self) == (Pace { busy: true, idle: 1 }),
    {
        if worked {
            self.busy = true;
            self.idle = 0;
            return false;
        }
        if !self.busy || self.idle + 1 >= 2 {
            self.busy = false;
            self.idle = 0;
            return true;
        }
        self.idle = self.idle + 1;
        false
    }
}

/// When a tunnel that stands is given up: with fall back on, where packets were
/// sent and none came since it stands, for as long as the timeout.
pub proof fn when_a_tunnel_is_given_up(
    s: roam::SchedView,
    fb_on: bool,
    sealed: u64,
    delivered: u64,
    timeout: u64,
    now: u64,
    t: u64,
)
    requires
        s.success_recorded,
        s.est_started == Some(t),
        t <= now,
    ensures
        ({
            let (w, step) = s.established_step(fb_on, sealed, delivered, timeout, now);
            &&& step.timed_out <==> fb_on && sealed > 0 && delivered == s.est_delivered && now - t >= timeout
            &&& !step.record_success
            &&& step.timed_out ==> !w.success_recorded && w.est_started is None
            &&& !step.timed_out ==> w == s
            &&& w.transport == s.transport && w.main == s.main && w.alt == s.alt && w.attempt == s.attempt
        }),
{
}

/// What is noted when a tunnel begins to stand: the moment and what was delivered
/// until then.
pub proof fn what_success_notes(s: roam::SchedView, sealed: u64, delivered: u64, timeout: u64, now: u64)
    requires
        !s.success_recorded,
        timeout > 0,
    ensures
        ({
            let (w, step) = s.established_step(true, sealed, delivered, timeout, now);
            &&& step.record_success && !step.timed_out
            &&& w.success_recorded
            &&& w.est_started == Some(now)
            &&& w.est_delivered == delivered
            &&& w.attempt is None
            &&& w.main == s.main && w.alt == s.alt && w.current == s.current
            &&& s.attempt is None ==> w.transport == s.transport
        }),
{
}

/// What is done about a handshake: with fall back, a node that is to begin one
/// chooses a way while nothing is under way; one that is under way is sent again to
/// where it went until the timeout, and then given up.
pub proof fn what_is_done_about_a_handshake(
    s: roam::SchedView,
    initiate: bool,
    state: State,
    timeout: u64,
    now: u64,
)
    requires
        s.attempt matches Some(a) ==> a.started <= now,
    ensures
        ({
            let r = s.pending_step(true, initiate, state, timeout, now);
            let under_way = state == State::Initiating || state == State::Responding;
            &&& r is ChoosePath <==> state == State::Idle && initiate
            &&& r is GiveUp <==> under_way && s.attempt is Some && now - s.attempt->0.started >= timeout
            &&& r is Resend <==> under_way && s.attempt is Some && now - s.attempt->0.started < timeout
            &&& r matches PendingView::Resend { frame, dest } ==> frame == s.attempt->0.frame && dest == s.attempt->0.dest
        }),
        ({
            let r = s.pending_step(false, initiate, state, timeout, now);
            &&& r is Resend <==> state == State::Initiating && s.attempt is Some
            &&& r matches PendingView::Resend { frame, dest } ==> frame == s.attempt->0.frame && dest == s.attempt->0.dest
        }),
{
}

/// The way that was chosen is taken: a tunnel to the entry that was found, or else
/// to the main one; plain packets to the main entry.
pub proof fn way_is_taken(s: roam::SchedView, path: roam::PathView, entry: Option<SockAddr>)
    ensures
        ({
            let w = s.with_path(path, entry);
            &&& w.current == path
            &&& path is Tunnel && entry is Some ==> w.transport == Transport::Tunnel(entry->0)
            &&& path is Tunnel && entry is None ==> w.transport == Transport::Tunnel(s.main)
            &&& path !is Tunnel ==> w.transport == Transport::PlainUdp(s.main) && w.plain_reported
            &&& path is Tunnel ==> w.plain_reported == s.plain_reported
            &&& !w.success_recorded && w.est_started is None
            &&& w.main == s.main && w.alt == s.alt && w.attempt == s.attempt && w.mp == s.mp
            &&& w.last_unauth_roam == s.last_unauth_roam
        }),
{
}

/// Counts of workers add up, each with its own.
pub proof fn counts_add_up(h: ShardHub, cur: ShardStats)
    requires
        h.off.fits(cur),
    ensures
        h.workers == 0 ==> h.total(cur) == h.off,
        h.workers > 0 ==> {
            &&& h.total(cur).sealed == h.off.sealed + cur.sealed
            &&& h.total(cur).delivered == h.off.delivered + cur.delivered
            &&& h.total(cur).dropped == h.off.dropped + cur.dropped
            &&& h.total(cur).fragments_sent == h.off.fragments_sent + cur.fragments_sent
            &&& h.total(cur).fragments_reassembled == h.off.fragments_reassembled + cur.fragments_reassembled
        },
{
}

} // verus!
