//! Requests to the services and what they are answered.

use ed25519_dalek::{Signer, SigningKey};
use ipv8plus::ans::card::{ans_register_pop_message, AgentCard, AnsError, CARD_VERSION};
use ipv8plus::ans::rpc as ans_rpc;
use ipv8plus::ans::rpc::{CardMsg, RegisterAgentMsg, TaskMsg};
use ipv8plus::ans::service::AnsService;
use ipv8plus::ans::store::MemStore as AgentStore;
use ipv8plus::cert::{cert_to_bytes, CertAuthority, TrustAnchor};
use ipv8plus::codec::header::IPv8Address;
use ipv8plus::codec::layouts::agent_card_message;
use ipv8plus::node::punch::{meet_request, register_request};
use ipv8plus::resolver::rpc as resolver_rpc;
use ipv8plus::resolver::rpc::RegisterMsg;
use ipv8plus::resolver::service::{register_pop_message, rendezvous_pop_message, ResolveError, ResolverService};
use ipv8plus::resolver::store::MemStore;
use ipv8plus::rpc::{clamp_level, secs, Code};
use ipv8plus::zone::rpc as zone_rpc;
use ipv8plus::zone::{ZoneError, ZoneServer, DEFAULT_TOKEN_TTL_SECS, DEFAULT_VALIDITY_SECS};

const NOW: u64 = 1_700_000_000;
const FAR: u64 = u64::MAX - 1;

fn key(seed: u8) -> SigningKey {
    SigningKey::from_bytes(&[seed; 32])
}

fn pub_of(sk: &SigningKey) -> Vec<u8> {
    sk.verifying_key().to_bytes().to_vec()
}

fn zone_addr(n: u32) -> String {
    IPv8Address::new(64500, n, 1, 0, 1).to_canonical_string()
}

fn zone_proof(sk: &SigningKey, text: &str) -> Vec<u8> {
    sk.sign(&ZoneServer::register_msg(text, &pub_of(sk))).to_bytes().to_vec()
}

#[test]
fn grpc_register_then_verify_token_roundtrip() {
    let mut z = ZoneServer::from_seeds([0xC4u8; 32], [0x2Au8; 32]);
    let sk = key(0xA1);
    let text = zone_addr(1);
    let reg = zone_rpc::register(&mut z, &text, &pub_of(&sk), &zone_proof(&sk, &text), NOW).unwrap();
    assert_eq!(reg.verify_key.len(), 32);
    assert_eq!(reg.ca_sig.len(), 64);
    assert_eq!(reg.not_after, NOW + DEFAULT_VALIDITY_SECS);
    assert!(!reg.jwt.is_empty());

    let v = zone_rpc::verify_token(&z, &reg.jwt, NOW);
    assert!(v.ok);
    assert_eq!(v.sub, text);
    assert_eq!(v.exp, NOW + DEFAULT_TOKEN_TTL_SECS);
    let bad = zone_rpc::verify_token(&z, "x", NOW);
    assert!(!bad.ok && bad.sub.is_empty() && bad.exp == 0);
}

#[test]
fn grpc_returns_trust_anchor_verifiable_as_client() {
    let z = ZoneServer::from_seeds([0xC4u8; 32], [0x2Au8; 32]);
    assert_eq!(z.trust_anchor().to_vec(), pub_of(&key(0xC4)));
    assert!(TrustAnchor::from_bytes(z.trust_anchor()).is_some());
}

#[test]
fn grpc_bad_proof_is_invalid_argument() {
    let mut z = ZoneServer::from_seeds([0xC4u8; 32], [0x2Au8; 32]);
    let sk = key(0xA1);
    let err = zone_rpc::register(&mut z, &zone_addr(1), &pub_of(&sk), &[0u8; 64], NOW).unwrap_err();
    assert_eq!(err.code, Code::InvalidArgument);
    assert_eq!(err.message, ZoneError::BadProof.message());
}

#[test]
fn zone_key_is_changed_by_request() {
    let mut z = ZoneServer::from_seeds([0xC4u8; 32], [0x2Au8; 32]);
    let (old, new) = (key(0xA1), key(0xB1));
    let text = zone_addr(1);
    let reg = zone_rpc::register(&mut z, &text, &pub_of(&old), &zone_proof(&old, &text), NOW).unwrap();
    let proof = new.sign(&ZoneServer::rotate_msg(&text, &pub_of(&new))).to_bytes();
    let e = zone_rpc::rotate_key(&mut z, "nonsense", &pub_of(&new), &proof, NOW).unwrap_err();
    assert_eq!(e.code, Code::Unauthenticated);
    let late = NOW + DEFAULT_TOKEN_TTL_SECS + 1;
    let e = zone_rpc::rotate_key(&mut z, &reg.jwt, &pub_of(&new), &proof, late).unwrap_err();
    assert_eq!(e.code, Code::Unauthenticated);
    assert_eq!(e.message, ZoneError::TokenExpired { exp: late - 1, now: late }.message());
    let m = zone_rpc::rotate_key(&mut z, &reg.jwt, &pub_of(&new), &proof, late - 1).unwrap();
    assert_eq!(m.verify_key, pub_of(&new));
    assert_eq!(m.jwt, reg.jwt);
    let e = zone_rpc::register(&mut z, &text, &pub_of(&old), &zone_proof(&old, &text), NOW).unwrap_err();
    assert_eq!(e.code, Code::FailedPrecondition);
}

#[test]
fn zone_errors_have_codes() {
    let a = IPv8Address::new(1, 2, 3, 4, 5);
    let code = |e: ZoneError| zone_rpc::zone_err(&e).code;
    assert_eq!(code(ZoneError::BadAddress), Code::InvalidArgument);
    assert_eq!(code(ZoneError::BadKeyLength), Code::InvalidArgument);
    assert_eq!(code(ZoneError::AlreadyRegistered { addr: a }), Code::FailedPrecondition);
    assert_eq!(code(ZoneError::NotRegistered { addr: a }), Code::FailedPrecondition);
    assert_eq!(code(ZoneError::BadToken), Code::Unauthenticated);
    assert_eq!(code(ZoneError::TokenMismatch), Code::Unauthenticated);
}

fn text(n: u32) -> String {
    IPv8Address::new(0xFB14_0000, n, 1, 0, 1).to_canonical_string()
}

fn registration(sk: &SigningKey, t: &str, entry: &str, ttl: u32) -> RegisterMsg {
    RegisterMsg {
        addr_text: t.to_string(),
        ed_pub: pub_of(sk),
        proof: sk.sign(&register_pop_message(t, &pub_of(sk))).to_bytes().to_vec(),
        tunnel_entry: entry.to_string(),
        alt_entries: vec!["198.51.100.7:45700".to_string()],
        mtu: 1400,
        ttl,
        ipv8_capable: true,
    }
}

fn seen(port: u16) -> Option<String> {
    Some(format!("127.0.0.1:{port}"))
}

#[test]
fn grpc_register_then_resolve_roundtrip() {
    let mut s: ResolverService<MemStore> = ResolverService::new();
    let sk = key(0xA1);
    let t = text(1);
    let m = registration(&sk, &t, "192.0.2.10:45700", 120);
    let rr = resolver_rpc::register(&mut s, &m, &seen(40000), 5_000).unwrap();
    assert_eq!(rr.ttl, 120);
    assert!(rr.observed_addr.starts_with("127.0.0.1:"));
    let resp = resolver_rpc::resolve(&mut s, &t, 5_000).unwrap();
    assert_eq!(resp.tunnel_entry_ip, "192.0.2.10:45700");
    assert_eq!(resp.alt_ips, vec!["198.51.100.7:45700".to_string()]);
    assert!(resp.ipv8_capable);
    assert_eq!(resp.mtu, 1400);
    assert_eq!(resp.ttl, 120);
    assert_eq!(resolver_rpc::resolve(&mut s, &t, 124_999).unwrap().ttl, 120);
    assert_eq!(resolver_rpc::resolve(&mut s, &t, 125_000).unwrap_err().code, Code::NotFound);
}

#[test]
fn grpc_status_codes() {
    let mut s: ResolverService<MemStore> = ResolverService::new();
    assert_eq!(resolver_rpc::resolve(&mut s, "zz", 0).unwrap_err().code, Code::InvalidArgument);
    assert_eq!(resolver_rpc::resolve(&mut s, &text(404), 0).unwrap_err().code, Code::NotFound);
    let mut m = registration(&key(0xA1), &text(1), "e:1", 0);
    m.proof = vec![0u8; 64];
    assert_eq!(resolver_rpc::register(&mut s, &m, &None, 0).unwrap_err().code, Code::InvalidArgument);
    let good = registration(&key(0xA1), &text(1), "e:1", 0);
    assert_eq!(resolver_rpc::register(&mut s, &good, &None, 0).unwrap().observed_addr, "");
    let other = registration(&key(0xB1), &text(1), "e:1", 0);
    let e = resolver_rpc::register(&mut s, &other, &None, 0).unwrap_err();
    assert_eq!(e.code, Code::AlreadyExists);
    assert_eq!(resolver_rpc::resolve_err(&ResolveError::BadAddress).code, Code::InvalidArgument);
}

#[test]
fn grpc_rendezvous_swaps_observed_candidates() {
    let mut s: ResolverService<MemStore> = ResolverService::new();
    let (ska, skb) = (key(0xA1), key(0xB2));
    let (ta, tb) = (text(1), text(2));
    resolver_rpc::register(&mut s, &registration(&ska, &ta, "10.0.0.1:45700", 0), &seen(40001), 0).unwrap();
    resolver_rpc::register(&mut s, &registration(&skb, &tb, "10.0.0.1:45700", 0), &seen(40002), 0).unwrap();

    let pa = ska.sign(&rendezvous_pop_message(&ta, &tb)).to_bytes();
    let ra = resolver_rpc::rendezvous(&mut s, &ta, &tb, &pa, &[], &seen(40001), 1).unwrap();
    assert!(ra.self_observed.starts_with("127.0.0.1:"));
    let pb = skb.sign(&rendezvous_pop_message(&tb, &ta)).to_bytes();
    let rb = resolver_rpc::rendezvous(&mut s, &tb, &ta, &pb, &[], &seen(40002), 2).unwrap();
    assert_eq!(rb.peer_candidates.first().map(String::as_str), Some("127.0.0.1:45700"));
    assert!(rb.peer_candidates.contains(&ra.self_observed));
    let ra2 = resolver_rpc::rendezvous(&mut s, &ta, &tb, &pa, &[], &seen(40001), 3).unwrap();
    assert!(ra2.peer_candidates.contains(&rb.self_observed));
}

#[test]
fn grpc_rendezvous_error_codes() {
    let mut s: ResolverService<MemStore> = ResolverService::new();
    let e = resolver_rpc::rendezvous(&mut s, &text(1), &text(2), &[0u8; 64], &[], &None, 0).unwrap_err();
    assert_eq!(e.code, Code::NotFound);
    resolver_rpc::register(&mut s, &registration(&key(0xA1), &text(1), "10.0.0.1:45700", 0), &None, 0).unwrap();
    let e = resolver_rpc::rendezvous(&mut s, &text(1), &text(2), &[0u8; 64], &[], &None, 0).unwrap_err();
    assert_eq!(e.code, Code::InvalidArgument);
}

fn ca() -> CertAuthority {
    CertAuthority::from_seed([0xC4; 32])
}

fn service() -> AnsService<AgentStore> {
    AnsService::new(ca().public_key(), ".ipv8.net".to_string())
}

fn agent(seed: u8, n: u32, name: &str, caps: &[&str], qos: u32) -> RegisterAgentMsg {
    let sk = key(seed);
    let addr = IPv8Address::new(0xFB14_0000, n, 1, 0, 1);
    let pk = sk.verifying_key().to_bytes();
    let card = AgentCard {
        version: CARD_VERSION,
        name: format!("{name}.ipv8.net"),
        addr,
        capabilities: caps.iter().map(|s| s.to_string()).collect(),
        endpoints: vec![format!("10.0.0.{n}:45700")],
        qos_hint: qos as u8,
        not_after: FAR,
        tunnel_entry: format!("192.0.2.{n}:45700"),
    };
    let hash = card.card_hash().unwrap();
    let card_sig = sk.sign(&agent_card_message(CARD_VERSION, &hash, FAR, &pk)).to_bytes().to_vec();
    let pop = sk.sign(&ans_register_pop_message(&card.name, &text(n), &hash)).to_bytes().to_vec();
    RegisterAgentMsg {
        addr_text: text(n),
        cert_wire: cert_to_bytes(&ca().issue(addr, pk, FAR)),
        card: Some(CardMsg {
            version: CARD_VERSION as u32,
            name: card.name,
            addr_text: text(n),
            capabilities: card.capabilities,
            endpoints: card.endpoints,
            qos_hint: qos,
            not_after: FAR,
            tunnel_entry: card.tunnel_entry,
        }),
        card_sig,
        pop,
    }
}

fn task(caps: &[&str], count: u32) -> Option<TaskMsg> {
    Some(TaskMsg {
        required_caps: caps.iter().map(|s| s.to_string()).collect(),
        min_count: count,
        qos_level: 0,
        timeout_ms: 60_000,
    })
}

#[test]
fn grpc_multihop_agent_collaboration_flow() {
    let mut s = service();
    for m in [
        agent(0xA1, 1, "ocrworker", &["ocr", "layout"], 5),
        agent(0xB2, 2, "translator", &["ocr", "translate"], 9),
        agent(0xC3, 3, "summarist", &["summarize"], 7),
    ] {
        assert_eq!(ans_rpc::register_agent(&mut s, &m, NOW).unwrap().len(), 16);
    }
    let v = ans_rpc::resolve_name(&s, "translator.ipv8.net", NOW).unwrap();
    assert_eq!(v.addr_text, text(2));
    assert_eq!(v.summary.agent_pubkey.len(), 32);

    let ocr = vec!["ocr".to_string()];
    let caps = ans_rpc::capability(&s, &ocr, 0, true, NOW);
    assert_eq!(caps.len(), 2);
    assert_eq!(caps[0].name, "translator.ipv8.net");

    let plan = ans_rpc::plan_task(&mut s, &task(&["ocr"], 2), NOW).unwrap();
    assert_eq!(plan.assignments.len(), 2);
    assert_eq!(plan.assignments[1].shard_id, 1);
    assert_eq!(plan.assignments[0].lease_expiry, NOW + 60);
    assert!(ans_rpc::capability(&s, &ocr, 0, true, NOW).is_empty());
    assert!(ans_rpc::report_done(&mut s, plan.plan_id, &plan.assignments[0].addr_text, NOW).unwrap());
    assert_eq!(ans_rpc::capability(&s, &ocr, 0, true, NOW).len(), 1);
}

#[test]
fn grpc_error_mapping() {
    let mut s = service();
    let e = ans_rpc::resolve_name(&s, "ghost.ipv8.net", NOW).unwrap_err();
    assert_eq!(e.code, Code::NotFound);
    ans_rpc::register_agent(&mut s, &agent(0xA1, 1, "solo", &["ocr"], 5), NOW).unwrap();
    let e = ans_rpc::plan_task(&mut s, &task(&["ocr", "missing-cap"], 1), NOW).unwrap_err();
    assert_eq!(e.code, Code::FailedPrecondition);
    let mut bad = agent(0xB2, 2, "b", &["x"], 1);
    bad.pop = vec![0u8; 64];
    assert_eq!(ans_rpc::register_agent(&mut s, &bad, NOW).unwrap_err().code, Code::InvalidArgument);
}

#[test]
fn grpc_name_conflict_is_already_exists() {
    let mut s = service();
    ans_rpc::register_agent(&mut s, &agent(0xA1, 1, "dup", &["a"], 5), NOW).unwrap();
    let e = ans_rpc::register_agent(&mut s, &agent(0xB2, 2, "dup", &["a"], 5), NOW).unwrap_err();
    assert_eq!(e.code, Code::AlreadyExists);
}

#[test]
fn senseless_requests_are_refused() {
    let mut s = service();
    let mut m = agent(0xA1, 1, "a", &["a"], 5);
    m.card_sig.pop();
    assert_eq!(ans_rpc::register_agent(&mut s, &m, NOW).unwrap_err().message, "card_sig 应为 64B");
    let mut m = agent(0xA1, 1, "a", &["a"], 5);
    m.card.as_mut().unwrap().addr_text = "zz".to_string();
    assert_eq!(ans_rpc::register_agent(&mut s, &m, NOW).unwrap_err().message, "card.addr_text 非法");
    m.card = None;
    assert_eq!(ans_rpc::register_agent(&mut s, &m, NOW).unwrap_err().message, "card 缺失");
    let e = ans_rpc::plan_task(&mut s, &None, NOW).unwrap_err();
    assert_eq!((e.code, e.message.as_str()), (Code::InvalidArgument, "task 缺失"));
    assert!(ans_rpc::report_done(&mut s, 1, "zz", NOW).is_err());
    assert_eq!(ans_rpc::ans_err(&AnsError::BadCert).code, Code::Unauthenticated);
    assert_eq!(ans_rpc::ans_err(&AnsError::KeyConflict).code, Code::AlreadyExists);
}

#[test]
fn numbers_are_fitted() {
    assert_eq!((secs(1_999), secs(u64::MAX)), (1, u32::MAX));
    assert_eq!((clamp_level(15), clamp_level(16)), (15, 15));
}

#[test]
fn punching_nodes_meet() {
    let mut s: ResolverService<MemStore> = ResolverService::new();
    let (a, b) = (IPv8Address::new(0xFB14_0000, 1, 1, 0, 1), IPv8Address::new(0xFB14_0000, 2, 1, 0, 1));
    let ra = register_request(&a, &[0xA1; 32], 45700);
    assert_eq!(ra.tunnel_entry, "0.0.0.0:45700");
    assert_eq!((ra.ttl, ra.mtu, ra.ipv8_capable), (120, 0, true));
    resolver_rpc::register(&mut s, &ra, &seen(1111), 0).unwrap();
    resolver_rpc::register(&mut s, &register_request(&b, &[0xB1; 32], 45701), &seen(2222), 0).unwrap();
    let m = meet_request(&a, &b, &[0xA1; 32]);
    let told = resolver_rpc::rendezvous(
        &mut s,
        &m.addr_text,
        &m.peer_addr_text,
        &m.proof,
        &m.local_candidates,
        &seen(1111),
        1,
    )
    .unwrap();
    assert_eq!(told.peer_candidates, vec!["127.0.0.1:45701".to_string(), "127.0.0.1:2222".to_string()]);
}
