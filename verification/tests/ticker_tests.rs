//! What the node does from time to time.

use ipv8plus::node::roam::{Attempt, FallbackPath, RoamKind, Sched, Transport};
use ipv8plus::node::sock::SockAddr;
use ipv8plus::node::ticker::{
    first_candidate, same_ip, shard_step, EstablishedStep, IpAddr, Migrator, Pace, PathStep, PendingStep, ShardHub,
    ShardStats, ShardStep, State,
};

const MAIN: SockAddr = SockAddr::V4 { ip: [192, 0, 2, 7], port: 1 };
const ENTRY: SockAddr = SockAddr::V4 { ip: [192, 0, 2, 8], port: 2 };

fn counts(n: u64) -> ShardStats {
    ShardStats { sealed: n, delivered: 2 * n, dropped: 3 * n, fragments_sent: 4 * n, fragments_reassembled: 5 * n }
}

#[test]
fn workers_come_and_go() {
    assert_eq!(shard_step(1, true, false, false, State::Established), ShardStep::Keep);
    assert_eq!(shard_step(4, false, false, false, State::Established), ShardStep::Keep);
    assert_eq!(shard_step(4, true, false, false, State::Initiating), ShardStep::Keep);
    assert_eq!(shard_step(4, true, false, false, State::Established), ShardStep::Split);
    assert_eq!(shard_step(4, true, true, true, State::Established), ShardStep::Keep);
    assert_eq!(shard_step(4, true, true, false, State::Responding), ShardStep::Retire);
}

#[test]
fn retired_workers_stay_counted() {
    let mut h = ShardHub::default();
    assert_eq!(h.active(), 0);
    assert_eq!(h.reported(&counts(9), &counts(1)), counts(9));
    h.install(4);
    assert_eq!(h.active(), 4);
    assert_eq!(h.reported(&counts(9), &counts(2)), counts(2));
    assert_eq!(h.retire(&counts(2)), 4);
    assert_eq!(h.stats(&counts(7)), counts(2));
    h.install(3);
    assert_eq!(h.stats(&counts(5)), counts(7));
    assert_eq!(counts(1).plus(&counts(2)), counts(3));
}

#[test]
fn success_of_a_handshake_locks_the_entry() {
    let mut s = Sched::new(MAIN, None, false);
    s.begin(vec![1, 2], 100, ENTRY);
    let step = s.on_established(true, 0, 0, 15, 101);
    assert_eq!(step, EstablishedStep { record_success: true, timed_out: false });
    assert_eq!(s.transport, Transport::Tunnel(ENTRY));
    assert_eq!(s.attempt, None);
    let again = s.on_established(true, 5, 0, 15, 102);
    assert_eq!(again, EstablishedStep { record_success: false, timed_out: false });
    let late = s.on_established(true, 5, 0, 15, 116);
    assert_eq!(late, EstablishedStep { record_success: false, timed_out: true });
    assert!(!s.success_recorded);
}

#[test]
fn tunnel_that_answers_is_kept() {
    let mut s = Sched::new(MAIN, None, false);
    s.on_established(true, 0, 0, 15, 0);
    let step = s.on_established(true, 5, 1, 15, 1000);
    assert_eq!(step, EstablishedStep { record_success: false, timed_out: false });
}

#[test]
fn handshake_is_repeated_or_given_up() {
    let mut s = Sched::new(MAIN, None, false);
    assert_eq!(s.on_pending(false, true, State::Initiating, 15, 0), PendingStep::Wait);
    assert_eq!(s.on_pending(true, true, State::Idle, 15, 0), PendingStep::ChoosePath);
    assert_eq!(s.on_pending(true, false, State::Idle, 15, 0), PendingStep::Wait);
    s.begin(vec![7], 10, ENTRY);
    let resend = PendingStep::Resend { frame: vec![7], dest: ENTRY };
    assert_eq!(s.on_pending(false, true, State::Initiating, 15, 1000), resend);
    assert_eq!(s.on_pending(false, true, State::Responding, 15, 1000), PendingStep::Wait);
    assert_eq!(s.on_pending(true, true, State::Initiating, 15, 24), resend);
    assert_eq!(s.on_pending(true, true, State::Established, 15, 1000), PendingStep::Wait);
    assert_eq!(s.on_pending(true, true, State::Initiating, 15, 25), PendingStep::GiveUp);
    assert_eq!(s.attempt, None);
}

#[test]
fn paths_are_taken() {
    let mut s = Sched::new(MAIN, None, false);
    let path = FallbackPath::Tunnel { entry: "e".to_string() };
    assert_eq!(s.take_path(path.clone(), Some(ENTRY)), PathStep::Handshake(ENTRY));
    assert_eq!(s.dest(), ENTRY);
    assert_eq!(s.take_path(path, None), PathStep::Handshake(MAIN));
    assert_eq!(s.take_path(FallbackPath::PlainUdp, None), PathStep::ReportPlain);
    assert_eq!(s.transport, Transport::PlainUdp(MAIN));
    assert_eq!(s.take_path(FallbackPath::PlainTcp, None), PathStep::Nothing);
    assert_eq!(s.current, FallbackPath::PlainTcp);
    s.count_sent(3);
    s.count_received();
    assert_eq!((s.plain_tx, s.plain_rx), (3, 1));
}

#[test]
fn better_address_redirects_a_beginner() {
    let mut s = Sched::new(MAIN, None, false);
    s.begin(vec![7], 10, MAIN);
    s.retarget(ENTRY, true, true);
    assert_eq!(s.dest(), MAIN);
    s.retarget(ENTRY, false, false);
    assert_eq!(s.dest(), MAIN);
    s.retarget(ENTRY, true, false);
    assert_eq!(s.dest(), ENTRY);
    assert_eq!(s.attempt, Some(Attempt { frame: vec![7], started: 10, dest: ENTRY }));
}

#[test]
fn changes_are_reported() {
    assert_eq!(RoamKind::FirstFrame.message("a:1"), "[learn-peer] 入口 → a:1（按合法首帧源地址）");
    assert_eq!(RoamKind::Roam.message("a:1"), "[migration] 漫游现学（限速，未认证帧）：隧道入口 → a:1");
}

#[test]
fn move_of_the_host_is_noticed() {
    let a = IpAddr::V4([10, 0, 0, 1]);
    let b = IpAddr::V6([1; 16]);
    assert!(same_ip(&a, &a) && !same_ip(&a, &b));
    let mut m = Migrator { last_local: None };
    assert!(!m.observe(Some(a)));
    assert!(!m.observe(Some(a)));
    assert!(!m.observe(None));
    assert!(m.observe(Some(b)));
    assert_eq!(m.last_local, Some(b));
}

#[test]
fn first_usable_candidate_is_taken() {
    assert_eq!(first_candidate(&vec![], false), None);
    assert_eq!(first_candidate(&vec![None, Some(ENTRY), Some(MAIN)], false), Some(ENTRY));
    let mut ip6 = [0u8; 16];
    ip6[10..].copy_from_slice(&[0xff, 0xff, 192, 0, 2, 8]);
    let mapped = SockAddr::V6 { ip6, port: 2, flowinfo: 0, scope_id: 0 };
    assert_eq!(first_candidate(&vec![Some(ENTRY)], true), Some(mapped));
}

#[test]
fn idle_rounds_lead_to_waiting() {
    let mut p = Pace { busy: false, idle: 0 };
    assert!(p.round(false));
    assert!(!p.round(true));
    assert!(!p.round(false));
    assert_eq!(p, Pace { busy: true, idle: 1 });
    assert!(p.round(false));
    assert_eq!(p, Pace { busy: false, idle: 0 });
}
