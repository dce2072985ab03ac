//! The resolver.

use ed25519_dalek::Signer;
use ipv8plus::codec::header::IPv8Address;
use ipv8plus::resolver::record::{DEFAULT_MTU, DEFAULT_TTL, MAX_CANDIDATE_LEN, MAX_LOCAL_CANDIDATES, MAX_TTL};
use ipv8plus::resolver::service::{
    register_pop_message, rendezvous_pop_message, RegisterOutcome, RegisterSpec, ResolveError, ResolverService,
};
use ipv8plus::resolver::store::MemStore;

const NOW: u64 = 1_000_000;

fn text(n: u32) -> String {
    IPv8Address::new(0xFB14_0000, n, 1, 0, 1).to_canonical_string()
}

struct Node {
    sk: ed25519_dalek::SigningKey,
}

impl Node {
    fn new(seed: u8) -> Self {
        Self { sk: ed25519_dalek::SigningKey::from_bytes(&[seed; 32]) }
    }
    fn pub_bytes(&self) -> Vec<u8> {
        self.sk.verifying_key().to_bytes().to_vec()
    }
    fn reg_proof(&self, addr_text: &str) -> Vec<u8> {
        self.sk.sign(&register_pop_message(addr_text, &self.pub_bytes())).to_bytes().to_vec()
    }
    fn rz_proof(&self, addr_text: &str, peer_text: &str) -> Vec<u8> {
        self.sk
            .sign(&rendezvous_pop_message(addr_text, peer_text))
            .to_bytes()
            .to_vec()
    }
}

fn at(secs: u64) -> u64 {
    NOW + secs * 1000
}

#[allow(clippy::too_many_arguments)]
fn full(
    s: &mut ResolverService<MemStore>,
    t: &str,
    n: &Node,
    proof: &[u8],
    entry: &str,
    alts: Vec<String>,
    cap: bool,
    mtu: u32,
    ttl: u64,
    now: u64,
) -> Result<RegisterOutcome, ResolveError> {
    let pb = n.pub_bytes();
    s.register(
        &RegisterSpec {
            addr_text: t,
            ed_pub: &pb,
            proof,
            tunnel_entry: entry,
            alt_entries: alts,
            ipv8_capable: cap,
            mtu,
            ttl_secs: ttl,
            observed: None,
        },
        now,
    )
}

fn reg(s: &mut ResolverService<MemStore>, t: &str, n: &Node, ttl: u64, now: u64) -> Result<RegisterOutcome, ResolveError> {
    let proof = n.reg_proof(t);
    full(s, t, n, &proof, "10.0.0.1:45700", vec![], true, 0, ttl, now)
}

#[test]
fn register_then_resolve_atomic_fields() {
    let mut s = ResolverService::new();
    let n = Node::new(0xA1);
    let t = text(1);
    reg(&mut s, &t, &n, 0, NOW).unwrap();
    let r = s.resolve(&t, NOW).unwrap();
    assert_eq!(r.tunnel_entry, "10.0.0.1:45700");
    assert!(r.ipv8_capable);
    assert_eq!(r.mtu, DEFAULT_MTU);
    assert_eq!(r.ttl, DEFAULT_TTL);
    assert_eq!(s.len(), 1);
}

#[test]
fn first_registration_requires_pop() {
    let mut s = ResolverService::new();
    let t = text(1);
    let n = Node::new(0xA1);

    let bad = [0u8; 64];
    assert_eq!(
        full(&mut s, &t, &n, &bad, "1.2.3.4:1", vec![], true, 0, 0, NOW).err(),
        Some(ResolveError::BadProof)
    );
    assert!(s.is_empty());
}

#[test]
fn same_key_re_register_updates_entry_without_pop() {
    let mut s = ResolverService::new();
    let t = text(1);
    let n = Node::new(0xA1);
    reg(&mut s, &t, &n, 0, NOW).unwrap();

    full(&mut s, &t, &n, &[], "10.0.0.9:9999", vec!["10.0.0.8:8".into()], true, 1400, 600, NOW).unwrap();
    let r = s.resolve(&t, NOW).unwrap();
    assert_eq!(r.tunnel_entry, "10.0.0.9:9999");
    assert_eq!(r.alt_entries.to_vec(), vec!["10.0.0.8:8".to_string()]);
    assert_eq!(r.mtu, 1400);
    assert_eq!(r.ttl, 600_000);
}

#[test]
fn key_change_rejected_as_conflict() {
    let mut s = ResolverService::new();
    let t = text(1);
    let (n1, n2) = (Node::new(0xA1), Node::new(0xB2));
    reg(&mut s, &t, &n1, 0, NOW).unwrap();

    assert_eq!(reg(&mut s, &t, &n2, 0, NOW).err(), Some(ResolveError::KeyConflict { addr: IPv8Address::from_canonical_str(&t).unwrap() }));

    assert_eq!(s.resolve(&t, NOW).unwrap().tunnel_entry, "10.0.0.1:45700");
}

#[test]
fn expired_entry_resolves_not_found_and_new_key_can_takeover() {
    let mut s = ResolverService::new();
    let t = text(1);
    let n1 = Node::new(0xA1);
    reg(&mut s, &t, &n1, 100, at(0)).unwrap();
    let n2 = Node::new(0xB2);

    assert_eq!(reg(&mut s, &t, &n2, 0, at(50)).err(), Some(ResolveError::KeyConflict { addr: IPv8Address::from_canonical_str(&t).unwrap() }));

    assert_eq!(s.resolve(&t, at(200)).err(), Some(ResolveError::NotFound));
    let p2 = n2.reg_proof(&t);
    full(&mut s, &t, &n2, &p2, "10.0.0.2:45701", vec![], true, 0, 0, at(200)).unwrap();
    assert_eq!(s.resolve(&t, at(201)).unwrap().tunnel_entry, "10.0.0.2:45701");
}

#[test]
fn bad_address_text_rejected_on_both_paths() {
    let mut s = ResolverService::new();
    assert_eq!(reg(&mut s, "not-hex", &Node::new(1), 0, NOW).err(), Some(ResolveError::BadAddress));
    assert_eq!(s.resolve("zz", NOW).err(), Some(ResolveError::BadAddress));
}

#[test]
fn ttl_clamped_to_server_bounds() {
    let mut s = ResolverService::new();
    let t = text(1);
    let n = Node::new(0xA1);
    let got = full(&mut s, &t, &n, &n.reg_proof(&t), "e:1", vec![], true, 0, 999_999_999, NOW).unwrap();
    assert_eq!(got.ttl, MAX_TTL);
    let t2 = text(2);
    let got2 = full(&mut s, &t2, &n, &n.reg_proof(&t2), "e:1", vec![], true, 0, 0, NOW).unwrap();
    assert_eq!(got2.ttl, DEFAULT_TTL);
}

#[test]
fn sweep_expired_reclaims_only_dead_entries() {
    let mut s = ResolverService::new();
    let (t1, t2) = (text(1), text(2));
    let n = Node::new(0xA1);
    reg(&mut s, &t1, &n, 100, at(0)).unwrap();
    reg(&mut s, &t2, &n, 10_000, at(0)).unwrap();
    assert_eq!(s.sweep_expired(at(200)), 1, "t1 过期清理，t2 保留");
    assert_eq!(s.len(), 1);
    assert!(s.resolve(&t2, at(200)).is_ok());
}

#[test]
fn resolve_is_read_only_no_side_effect() {
    let mut s = ResolverService::new();
    let t = text(1);
    let n = Node::new(0xA1);
    reg(&mut s, &t, &n, 0, NOW).unwrap();
    let before = s.len();
    for _ in 0..5 {
        s.resolve(&t, NOW).unwrap();
    }
    assert_eq!(s.len(), before, "查询不得写库");
}

#[test]
fn proof_domain_separation() {
    let mut s = ResolverService::new();
    let t = text(1);
    let n = Node::new(0xA1);
    let zone_msg = {
        let mut m = Vec::new();
        m.extend_from_slice(b"ipv8plus-register");
        m.extend_from_slice(t.as_bytes());
        m.extend_from_slice(&n.pub_bytes());
        m
    };
    let stolen = n.sk.sign(&zone_msg).to_bytes().to_vec();
    assert_eq!(
        full(&mut s, &t, &n, &stolen, "e:1", vec![], true, 0, 0, NOW).err(),
        Some(ResolveError::BadProof)
    );
}

#[test]
fn multiple_addresses_isolated() {
    let mut s = ResolverService::new();
    let (t1, t2) = (text(1), text(2));
    let n = Node::new(0xA1);
    let p1 = n.reg_proof(&t1);
    let p2 = n.reg_proof(&t2);
    full(&mut s, &t1, &n, &p1, "e1:1", vec![], true, 0, 0, NOW).unwrap();
    full(&mut s, &t2, &n, &p2, "e2:2", vec![], false, 0, 0, NOW).unwrap();
    assert_eq!(s.resolve(&t1, NOW).unwrap().tunnel_entry, "e1:1");
    let r2 = s.resolve(&t2, NOW).unwrap();
    assert!(!r2.ipv8_capable, "能力声明按条目独立");
}

#[test]
fn register_observed_echo_and_refresh() {
    let mut s = ResolverService::new();
    let t = text(1);
    let n = Node::new(0xA1);
    let pb = n.pub_bytes();
    let o1 = s
        .register(
            &RegisterSpec {
                addr_text: &t,
                ed_pub: &pb,
                proof: &n.reg_proof(&t),
                tunnel_entry: "e:1",
                alt_entries: vec![],
                ipv8_capable: true,
                mtu: 0,
                ttl_secs: 0,
                observed: Some("203.0.113.7:40000"),
            },
            NOW,
        )
        .unwrap();
    assert_eq!(o1.observed.as_deref(), Some("203.0.113.7:40000"));

    let o2 = full(&mut s, &t, &n, &n.reg_proof(&t), "e:2", vec![], true, 0, 0, NOW).unwrap();
    assert_eq!(o2.observed.as_deref(), Some("203.0.113.7:40000"), "同身份重登记应保留 observed");

    let o3 = s
        .register(
            &RegisterSpec {
                addr_text: &t,
                ed_pub: &pb,
                proof: &[],
                tunnel_entry: "e:2",
                alt_entries: vec![],
                ipv8_capable: true,
                mtu: 0,
                ttl_secs: 0,
                observed: Some("203.0.113.9:40001"),
            },
            NOW,
        )
        .unwrap();
    assert_eq!(o3.observed.as_deref(), Some("203.0.113.9:40001"));
}

#[test]
fn rendezvous_happy_path_swaps_candidates() {
    let mut s = ResolverService::new();
    let (ta, tb) = (text(1), text(2));
    let (na, nb) = (Node::new(0xA1), Node::new(0xB2));
    reg(&mut s, &ta, &na, 0, NOW).unwrap();
    reg(&mut s, &tb, &nb, 0, NOW).unwrap();

    let ra = s
        .rendezvous(
            &ta,
            &tb,
            &na.rz_proof(&ta, &tb),
            &["10.1.1.1:45700".into()],
            Some("198.51.100.1:5000"),
            NOW,
        )
        .unwrap();
    assert_eq!(ra.self_observed.as_deref(), Some("198.51.100.1:5000"));

    let rb = s
        .rendezvous(&tb, &ta, &nb.rz_proof(&tb, &ta), &[], Some("198.51.100.2:6000"), NOW)
        .unwrap();
    assert_eq!(rb.peer_candidates[0], "198.51.100.1:45700", "组合候选（observed IP+登记端口）应排首位");
    assert!(rb.peer_candidates.contains(&"198.51.100.1:5000".to_string()), "observed 原样应保留兜底");
    assert!(rb.peer_candidates.contains(&"10.1.1.1:45700".to_string()), "自报候选应附带");

    let ra2 = s
        .rendezvous(&ta, &tb, &na.rz_proof(&ta, &tb), &["10.1.1.1:45700".into()], Some("198.51.100.1:5000"), NOW)
        .unwrap();
    assert!(ra2.peer_candidates.contains(&"198.51.100.2:45700".to_string()));
}

#[test]
fn rendezvous_rejects_bad_identity() {
    let mut s = ResolverService::new();
    let (ta, tb) = (text(1), text(2));
    let (na, nb) = (Node::new(0xA1), Node::new(0xB2));
    reg(&mut s, &ta, &na, 0, NOW).unwrap();
    reg(&mut s, &tb, &nb, 0, NOW).unwrap();

    assert_eq!(
        s.rendezvous(&text(404), &ta, &[], &[], Some("x:1"), NOW).err(),
        Some(ResolveError::NotFound)
    );

    let fake = Node::new(0xEE);
    assert_eq!(
        s.rendezvous(&ta, &tb, &fake.rz_proof(&ta, &tb), &[], Some("x:1"), NOW).err(),
        Some(ResolveError::BadProof)
    );

    assert_eq!(
        s.rendezvous(&ta, &tb, &na.reg_proof(&ta), &[], Some("x:1"), NOW).err(),
        Some(ResolveError::BadProof)
    );

    let stolen = na.rz_proof(&ta, &text(3));
    assert_eq!(
        s.rendezvous(&ta, &tb, &stolen, &[], Some("x:1"), NOW).err(),
        Some(ResolveError::BadProof)
    );

    assert_eq!(
        s.rendezvous(&ta, &text(555), &na.rz_proof(&ta, text(555).as_str()), &[], Some("x:1"), NOW).err(),
        Some(ResolveError::NotFound)
    );
}

#[test]
fn rendezvous_stale_observed_excluded() {
    let mut s = ResolverService::new();
    let (ta, tb) = (text(1), text(2));
    let (na, nb) = (Node::new(0xA1), Node::new(0xB2));
    reg(&mut s, &ta, &na, 0, at(0)).unwrap();
    reg(&mut s, &tb, &nb, 0, at(0)).unwrap();

    s.rendezvous(
        &tb,
        &ta,
        &nb.rz_proof(&tb, &ta),
        &["10.2.2.2:45700".into()],
        Some("198.51.100.2:6000"),
        at(0),
    )
    .unwrap();

    let in_win = s
        .rendezvous(&ta, &tb, &na.rz_proof(&ta, &tb), &[], Some("198.51.100.1:5000"), at(80))
        .unwrap();
    assert!(in_win.peer_candidates.contains(&"198.51.100.2:6000".to_string()));

    let late = s
        .rendezvous(&ta, &tb, &na.rz_proof(&ta, &tb), &[], Some("198.51.100.1:5000"), at(200))
        .unwrap();
    assert!(!late.peer_candidates.contains(&"198.51.100.2:6000".to_string()), "过期 observed 不得作候选");
    assert!(late.peer_candidates.contains(&"10.2.2.2:45700".to_string()));
}

#[test]
fn rendezvous_sanitizes_reported_candidates() {
    let mut s = ResolverService::new();
    let (ta, tb) = (text(1), text(2));
    let (na, nb) = (Node::new(0xA1), Node::new(0xB2));
    reg(&mut s, &ta, &na, 0, NOW).unwrap();
    reg(&mut s, &tb, &nb, 0, NOW).unwrap();
    let mut junk: Vec<String> = (0..20).map(|i| format!("10.0.0.{i}:1")).collect();
    junk.push("x".repeat(300));
    junk.push("bad\r\nline".into());
    s.rendezvous(&ta, &tb, &na.rz_proof(&ta, &tb), &junk, Some("o:1"), NOW)
        .unwrap();
    let out = s
        .rendezvous(&tb, &ta, &nb.rz_proof(&tb, &ta), &[], Some("o:2"), NOW)
        .unwrap();

    assert_eq!(out.peer_candidates[0], "o:45700");
    assert!(out.peer_candidates.contains(&"o:1".to_string()));

    assert!(out.peer_candidates.len() <= 2 + MAX_LOCAL_CANDIDATES);
    assert!(out.peer_candidates.iter().all(|c| c.len() <= MAX_CANDIDATE_LEN && !c.contains('\r') && !c.contains('\n')));
}
