//! The agent name service.

use ed25519_dalek::{Signer, SigningKey};
use ipv8plus::ans::card::{ans_register_pop_message, validate_tags, AgentCard, AnsError, CARD_VERSION};
use ipv8plus::ans::search::covers;
use ipv8plus::ans::service::{AnsService, RegisterSpec, TaskDescription, MAX_LEASE_SECS};
use ipv8plus::ans::store::MemStore;
use ipv8plus::codec::header::IPv8Address;
use ipv8plus::codec::layouts::agent_card_message;
use ipv8plus::pop::ANS_REGISTER_DOMAIN;
use sha2::{Digest, Sha256};

const CA_SEED: [u8; 32] = [0xC4u8; 32];
const ROOT: &str = ".ipv8.net";
const NOW: u64 = 2_000_000_000;

const FOREVER: u64 = u64::MAX - 1;

fn addr(n: u32) -> IPv8Address {
    IPv8Address::new(0xFB14_0000, n, 1, 0, 1)
}
fn text(n: u32) -> String {
    addr(n).to_canonical_string()
}

fn anchor() -> [u8; 32] {
    SigningKey::from_bytes(&CA_SEED).verifying_key().to_bytes()
}

fn make_cert_wire(ca: &SigningKey, a: IPv8Address, pubkey: &[u8; 32], not_after: u64) -> Vec<u8> {
    let mut tbs = Vec::with_capacity(56);
    tbs.extend_from_slice(&a.to_bytes());
    tbs.extend_from_slice(pubkey);
    tbs.extend_from_slice(&not_after.to_be_bytes());
    let sig = ca.sign(&tbs).to_bytes();
    let mut w = tbs;
    w.extend_from_slice(&sig);
    w
}

struct Agent {
    sk: SigningKey,
    a: IPv8Address,
    name: String,
    caps: Vec<String>,
    qos: u8,
}

impl Agent {
    fn new(seed: u8, n: u32, name: &str, caps: &[&str], qos: u8) -> Self {
        Self {
            sk: SigningKey::from_bytes(&[seed; 32]),
            a: addr(n),
            name: format!("{name}{ROOT}"),
            caps: caps.iter().map(|s| s.to_string()).collect(),
            qos,
        }
    }
    fn pubkey(&self) -> [u8; 32] {
        self.sk.verifying_key().to_bytes()
    }
    fn card(&self, not_after: u64) -> AgentCard {
        AgentCard {
            version: CARD_VERSION,
            name: self.name.clone(),
            addr: self.a,
            capabilities: self.caps.clone(),
            endpoints: vec![format!("10.0.0.{}:45700", self.a.host_id % 0x1_0000)],
            qos_hint: self.qos,
            not_after,
            tunnel_entry: format!("192.0.2.{}:45700", self.a.host_id % 0x1_0000),
        }
    }
}

struct Kit {
    card: AgentCard,
    cert: Vec<u8>,
    card_sig: [u8; 64],
    pop: Vec<u8>,
    hash: [u8; 16],
}

fn kit(ca: &SigningKey, ag: &Agent, not_after: u64) -> Kit {
    let card = ag.card(not_after);
    let hash = card.card_hash().unwrap();
    let pk = ag.pubkey();
    let cert = make_cert_wire(ca, ag.a, &pk, not_after);
    let card_sig = ag.sk.sign(&agent_card_message(card.version, &hash, not_after, &pk)).to_bytes();
    let pop = ag.sk.sign(&ans_register_pop_message(&card.name, &text_of(ag.a), &hash)).to_bytes().to_vec();
    Kit { card, cert, card_sig, pop, hash }
}
fn text_of(a: IPv8Address) -> String {
    a.to_canonical_string()
}

fn spec_of<'a>(k: &'a Kit, addr_text: &'a str) -> RegisterSpec<'a> {
    RegisterSpec {
        addr_text,
        cert_wire: &k.cert,
        card: &k.card,
        card_sig: &k.card_sig,
        pop: &k.pop,
    }
}

fn svc() -> AnsService<MemStore> {
    AnsService::new(anchor(), ROOT.to_string())
}

#[test]
fn canonical_bytes_are_deterministic_and_field_sensitive() {
    let ag = Agent::new(0xA1, 1, "ocr", &["ocr"], 5);
    let b1 = ag.card(FOREVER).canonical_bytes().unwrap();
    assert_eq!(b1, ag.card(FOREVER).canonical_bytes().unwrap(), "同输入必须同字节");

    let mut c2 = ag.card(FOREVER);
    c2.qos_hint = 6;
    assert_ne!(c2.canonical_bytes().unwrap(), b1);
    let mut c3 = ag.card(FOREVER);
    c3.not_after -= 1;
    assert_ne!(c3.canonical_bytes().unwrap(), b1);
    let mut c4 = ag.card(FOREVER);
    c4.capabilities.push("extra".into());
    assert_ne!(c4.canonical_bytes().unwrap(), b1);
}

#[test]
fn card_hash_is_16_prefix_of_sha256() {
    let ag = Agent::new(0xA1, 1, "ocr", &["ocr"], 5);
    let bytes = ag.card(FOREVER).canonical_bytes().unwrap();
    let digest = Sha256::digest(&bytes);
    let want: [u8; 16] = digest[..16].try_into().unwrap();
    assert_eq!(ag.card(FOREVER).card_hash().unwrap(), want);
}

#[test]
fn summary_matches_card_fields() {
    let ca = SigningKey::from_bytes(&CA_SEED);
    let ag = Agent::new(0xA1, 1, "ocr", &["ocr"], 5);
    let k = kit(&ca, &ag, FOREVER);
    assert_eq!(k.hash, k.card.card_hash().unwrap());
    let s = k.card.summary(ag.pubkey(), k.card_sig).unwrap();
    assert_eq!(s.card_hash, k.hash);
    assert_eq!(s.agent_pubkey, ag.pubkey());
    assert_eq!(s.not_after, FOREVER);
    assert_eq!(s.version, CARD_VERSION);
}

#[test]
fn register_valid_returns_hash() {
    let ca = SigningKey::from_bytes(&CA_SEED);
    let mut s = svc();
    let ag = Agent::new(0xA1, 1, "ocr", &["ocr"], 5);
    let k = kit(&ca, &ag, FOREVER);
    let t = text(1);
    assert_eq!(s.register(&spec_of(&k, &t), NOW).unwrap(), k.hash);
    assert_eq!(s.len(), 1);
}

#[test]
fn register_rejects_expired_cert() {
    let ca = SigningKey::from_bytes(&CA_SEED);
    let mut s = svc();

    let ag = Agent::new(0xA1, 1, "ocr", &["ocr"], 5);
    let card = ag.card(FOREVER);
    let hash = card.card_hash().unwrap();
    let pk = ag.pubkey();
    let cert = make_cert_wire(&ca, ag.a, &pk, NOW - 1);
    let card_sig = ag.sk.sign(&agent_card_message(card.version, &hash, FOREVER, &pk)).to_bytes();
    let pop = ag.sk.sign(&ans_register_pop_message(&card.name, &text(1), &hash)).to_bytes().to_vec();
    let spec = RegisterSpec { addr_text: &text(1), cert_wire: &cert, card: &card, card_sig: &card_sig, pop: &pop };
    assert_eq!(s.register(&spec, NOW).err(), Some(AnsError::BadCert));
}

#[test]
fn register_rejects_rogue_ca() {
    let mut s = svc();
    let ag = Agent::new(0xA1, 1, "ocr", &["ocr"], 5);
    let rogue = SigningKey::from_bytes(&[0x99u8; 32]);
    let card = ag.card(FOREVER);
    let hash = card.card_hash().unwrap();
    let cert = make_cert_wire(&rogue, ag.a, &ag.pubkey(), FOREVER);
    let pk = ag.pubkey();
    let card_sig = ag.sk.sign(&agent_card_message(card.version, &hash, FOREVER, &pk)).to_bytes();
    let pop = ag.sk.sign(&ans_register_pop_message(&card.name, &text(1), &hash)).to_bytes();
    let spec = RegisterSpec { addr_text: &text(1), cert_wire: &cert, card: &card, card_sig: &card_sig, pop: &pop };
    assert_eq!(s.register(&spec, NOW).err(), Some(AnsError::BadCert));
}

#[test]
fn register_rejects_tampered_cardsig() {
    let ca = SigningKey::from_bytes(&CA_SEED);
    let mut s = svc();
    let ag = Agent::new(0xA1, 1, "ocr", &["ocr"], 5);
    let mut k = kit(&ca, &ag, FOREVER);
    k.card_sig[0] ^= 0x01;
    let t = text(1);
    assert_eq!(s.register(&spec_of(&k, &t), NOW).err(), Some(AnsError::BadCard));
}

#[test]
fn register_rejects_card_sig_from_wrong_key() {
    let ca = SigningKey::from_bytes(&CA_SEED);
    let mut s = svc();
    let victim = Agent::new(0xA1, 1, "ocr", &["ocr"], 5);
    let attacker = Agent::new(0xE7, 1, "ocr", &["ocr"], 5);
    let card = victim.card(FOREVER);
    let hash = card.card_hash().unwrap();
    let cert = make_cert_wire(&ca, victim.a, &victim.pubkey(), FOREVER);
    let bad_sig = attacker.sk.sign(&agent_card_message(card.version, &hash, FOREVER, &victim.pubkey()));
    let pop = attacker.sk.sign(&ans_register_pop_message(&card.name, &text(1), &hash));
    let (bs, bp) = (bad_sig.to_bytes(), pop.to_bytes().to_vec());
    let spec = RegisterSpec { addr_text: &text(1), cert_wire: &cert, card: &card, card_sig: &bs, pop: &bp };
    assert_eq!(s.register(&spec, NOW).err(), Some(AnsError::BadCard), "错密钥 CardSig 必须先被拒");
}

#[test]
fn register_rejects_bad_pop() {
    let ca = SigningKey::from_bytes(&CA_SEED);
    let mut s = svc();
    let ag = Agent::new(0xA1, 1, "ocr", &["ocr"], 5);
    let mut k = kit(&ca, &ag, FOREVER);
    k.pop = vec![0u8; 64];
    let t = text(1);
    assert_eq!(s.register(&spec_of(&k, &t), NOW).err(), Some(AnsError::BadProof));
}

#[test]
fn register_rejects_pop_from_other_domain() {
    let ca = SigningKey::from_bytes(&CA_SEED);
    let mut s = svc();
    let ag = Agent::new(0xA1, 1, "ocr", &["ocr"], 5);
    let card = ag.card(FOREVER);
    let hash = card.card_hash().unwrap();
    let mut msg = Vec::new();
    msg.extend_from_slice(b"ipv8plus-register");
    msg.extend_from_slice(card.name.as_bytes());
    msg.extend_from_slice(text(1).as_bytes());
    msg.extend_from_slice(&hash);
    let pop = ag.sk.sign(&msg).to_bytes().to_vec();
    let k = Kit { card, cert: make_cert_wire(&ca, ag.a, &ag.pubkey(), FOREVER), card_sig: ag.sk.sign(&agent_card_message(CARD_VERSION, &hash, FOREVER, &ag.pubkey())).to_bytes(), pop, hash };
    let t = text(1);
    assert_eq!(s.register(&spec_of(&k, &t), NOW).err(), Some(AnsError::BadProof));
}

#[test]
fn register_rejects_bad_card_fields() {
    let ca = SigningKey::from_bytes(&CA_SEED);
    let mut s = svc();

    let ag = Agent::new(0xA1, 1, "ocr", &["ocr"], 5);
    let mut k = kit(&ca, &ag, FOREVER);
    k.card.version = 99;
    let t = text(1);
    assert_eq!(s.register(&spec_of(&k, &t), NOW).err(), Some(AnsError::BadCard));

    let mut k2 = kit(&ca, &ag, FOREVER);
    k2.card.addr = addr(2);
    assert_eq!(s.register(&spec_of(&k2, &t), NOW).err(), Some(AnsError::BadCard));

    let mut k3 = kit(&ca, &ag, NOW);
    k3.card_sig = ag.sk.sign(&agent_card_message(CARD_VERSION, &k3.hash, NOW, &ag.pubkey())).to_bytes();
    let p = ag.sk.sign(&ans_register_pop_message(&ag.name, &text(1), &k3.hash)).to_bytes().to_vec();
    k3.pop = p;
    assert_eq!(s.register(&spec_of(&k3, &t), NOW).err(), Some(AnsError::BadCard));
}

#[test]
fn register_rejects_bad_tags() {
    let ca = SigningKey::from_bytes(&CA_SEED);
    let mut s = svc();
    let ag = Agent::new(0xA1, 1, "ocr", &["OCR-BAD"], 5);
    let card = ag.card(FOREVER);
    let hash = card.card_hash().unwrap();
    let k = Kit {
        card,
        cert: make_cert_wire(&ca, ag.a, &ag.pubkey(), FOREVER),
        card_sig: ag.sk.sign(&agent_card_message(CARD_VERSION, &hash, FOREVER, &ag.pubkey())).to_bytes(),
        pop: ag.sk.sign(&ans_register_pop_message(&ag.name, &text(1), &hash)).to_bytes().to_vec(),
        hash,
    };
    let t = text(1);
    assert_eq!(s.register(&spec_of(&k, &t), NOW).err(), Some(AnsError::BadTags));
}

#[test]
fn register_rejects_bad_name() {
    let ca = SigningKey::from_bytes(&CA_SEED);
    let mut s = svc();
    let ag = Agent::new(0xA1, 1, "ocr", &["ocr"], 5);
    let mut k = kit(&ca, &ag, FOREVER);
    k.card.name = "not-rooted.example".into();

    k.pop = ag.sk.sign(&ans_register_pop_message(&k.card.name, &text(1), &k.hash)).to_bytes().to_vec();
    let t = text(1);
    assert_eq!(s.register(&spec_of(&k, &t), NOW).err(), Some(AnsError::BadName));
}

#[test]
fn register_rejects_bad_address_text() {
    let ca = SigningKey::from_bytes(&CA_SEED);
    let mut s = svc();
    let ag = Agent::new(0xA1, 1, "ocr", &["ocr"], 5);
    let k = kit(&ca, &ag, FOREVER);
    assert_eq!(s.register(&spec_of(&k, "not-hex"), NOW).err(), Some(AnsError::BadAddress));
}

#[test]
fn same_key_re_register_updates_and_keeps_lease() {
    let ca = SigningKey::from_bytes(&CA_SEED);
    let mut s = svc();
    let ag = Agent::new(0xA1, 1, "ocr", &["ocr"], 5);
    let t = text(1);
    s.register(&spec_of(&kit(&ca, &ag, FOREVER), &t), NOW).unwrap();

    let plan = s.plan_task(&task(&["ocr"], 1, 0, 10_000), NOW).unwrap();
    s.register(&spec_of(&kit(&ca, &ag, FOREVER), &t), NOW + 5).unwrap();
    let r = s.resolve_addr(ag.a, NOW + 5).unwrap();

    s.report_done(plan.plan_id, r.addr, NOW + 6).unwrap();
}

#[test]
fn different_key_same_addr_is_conflict() {
    let ca = SigningKey::from_bytes(&CA_SEED);
    let mut s = svc();
    let t = text(1);
    s.register(&spec_of(&kit(&ca, &Agent::new(0xA1, 1, "ocr", &["ocr"], 5), FOREVER), &t), NOW).unwrap();

    let ag2 = Agent::new(0xB2, 1, "ocr2", &["ocr"], 5);
    assert_eq!(s.register(&spec_of(&kit(&ca, &ag2, FOREVER), &t), NOW).err(), Some(AnsError::KeyConflict));
}

#[test]
fn name_conflict_across_live_addrs() {
    let ca = SigningKey::from_bytes(&CA_SEED);
    let mut s = svc();
    let a1 = Agent::new(0xA1, 1, "shared", &["ocr"], 5);
    let a2 = Agent::new(0xB2, 2, "shared", &["ocr"], 5);
    s.register(&spec_of(&kit(&ca, &a1, FOREVER), &text(1)), NOW).unwrap();
    assert_eq!(
        s.register(&spec_of(&kit(&ca, &a2, FOREVER), &text(2)), NOW).err(),
        Some(AnsError::NameConflict)
    );
}

#[test]
fn expired_name_slot_reclaimed_on_rebind() {
    let ca = SigningKey::from_bytes(&CA_SEED);
    let mut s = svc();
    let a1 = Agent::new(0xA1, 1, "shared", &["ocr"], 5);
    s.register(&spec_of(&kit(&ca, &a1, FOREVER), &text(1)), NOW).unwrap();

    let a2 = Agent::new(0xB2, 2, "shared", &["ocr"], 5);
    s.register(&spec_of(&kit(&ca, &a2, FOREVER), &text(2)), NOW).unwrap_err();

    s.register(&spec_of(&kit(&ca, &a1, NOW + 10), &text(1)), NOW).unwrap();

    let _ = s.reap(NOW + 20);
    assert!(s.register(&spec_of(&kit(&ca, &a2, FOREVER), &text(2)), NOW + 20).is_ok());
}

#[test]
fn resolve_name_returns_readmodel() {
    let ca = SigningKey::from_bytes(&CA_SEED);
    let mut s = svc();
    let ag = Agent::new(0xA1, 1, "ocr", &["ocr"], 5);
    s.register(&spec_of(&kit(&ca, &ag, FOREVER), &text(1)), NOW).unwrap();
    let r = s.resolve_name(&ag.name, NOW).unwrap();
    assert_eq!(r.addr, ag.a);
    assert_eq!(r.tunnel_entry, ag.card(FOREVER).tunnel_entry);
    assert_eq!(r.capabilities, vec!["ocr".to_string()]);
    assert_eq!(r.qos_hint, 5);
    assert_eq!(r.summary.agent_pubkey, ag.pubkey());
    assert_eq!(r.summary.card_hash, ag.card(FOREVER).card_hash().unwrap());
}

#[test]
fn resolve_unknown_and_expired_are_indistinguishable() {
    let ca = SigningKey::from_bytes(&CA_SEED);
    let mut s = svc();
    let ag = Agent::new(0xA1, 1, "ocr", &["ocr"], 5);
    s.register(&spec_of(&kit(&ca, &ag, NOW + 100), &text(1)), NOW).unwrap();
    let unknown = s.resolve_name("ghost.ipv8.net", NOW).err();
    let expired = s.resolve_name(&ag.name, NOW + 101).err();
    assert_eq!(unknown, Some(AnsError::NotFound));
    assert_eq!(expired, Some(AnsError::NotFound), "过期与不存在必须不可区分");
}

fn caps(v: &[&str]) -> Vec<String> {
    v.iter().map(|s| s.to_string()).collect()
}
fn task(req: &[&str], min: usize, qos: u8, ms: u64) -> TaskDescription {
    TaskDescription { required_caps: caps(req), min_count: min, qos_level: qos, timeout_ms: ms }
}

#[test]
fn capability_requires_full_cover() {
    let ca = SigningKey::from_bytes(&CA_SEED);
    let mut s = svc();
    s.register(&spec_of(&kit(&ca, &Agent::new(0xA1, 1, "multi", &["ocr", "tts"], 5), FOREVER), &text(1)), NOW).unwrap();

    assert_eq!(s.search_capability(&caps(&["ocr", "tts"]), 0, true, NOW).len(), 1);
    assert_eq!(s.search_capability(&caps(&["ocr", "vision"]), 0, true, NOW).len(), 0);

    assert_eq!(s.search_capability(&caps(&["ocr"]), 0, true, NOW).len(), 1);
}

#[test]
fn capability_qos_floor_filters() {
    let ca = SigningKey::from_bytes(&CA_SEED);
    let mut s = svc();
    s.register(&spec_of(&kit(&ca, &Agent::new(0xA1, 1, "lo", &["ocr"], 2), FOREVER), &text(1)), NOW).unwrap();
    s.register(&spec_of(&kit(&ca, &Agent::new(0xB2, 2, "hi", &["ocr"], 9), FOREVER), &text(2)), NOW).unwrap();
    let all = s.search_capability(&caps(&["ocr"]), 0, true, NOW);
    assert_eq!(all.len(), 2);
    assert_eq!(all[0].qos_hint, 9, "高 qos 先");
    let hi = s.search_capability(&caps(&["ocr"]), 5, true, NOW);
    assert_eq!(hi.len(), 1);
    assert_eq!(hi[0].qos_hint, 9);
}

#[test]
fn capability_orders_by_qos_then_ttl_then_addr() {
    let ca = SigningKey::from_bytes(&CA_SEED);
    let mut s = svc();

    s.register(&spec_of(&kit(&ca, &Agent::new(0xA1, 3, "a", &["x"], 5), NOW + 100), &text(3)), NOW).unwrap();
    s.register(&spec_of(&kit(&ca, &Agent::new(0xB2, 1, "b", &["x"], 5), FOREVER), &text(1)), NOW).unwrap();
    let r = s.search_capability(&caps(&["x"]), 0, true, NOW);
    assert_eq!(r[0].name, "b.ipv8.net", "TTL 更长优先");
}

#[test]
fn capability_excludes_leased_by_default() {
    let ca = SigningKey::from_bytes(&CA_SEED);
    let mut s = svc();
    s.register(&spec_of(&kit(&ca, &Agent::new(0xA1, 1, "a", &["ocr"], 5), FOREVER), &text(1)), NOW).unwrap();
    s.register(&spec_of(&kit(&ca, &Agent::new(0xB2, 2, "b", &["ocr"], 5), FOREVER), &text(2)), NOW).unwrap();
    let plan = s.plan_task(&task(&["ocr"], 1, 0, 10_000), NOW).unwrap();
    assert_eq!(plan.assignments.len(), 1);
    assert_eq!(s.search_capability(&caps(&["ocr"]), 0, true, NOW).len(), 1, "被租者排除");
    assert_eq!(s.search_capability(&caps(&["ocr"]), 0, false, NOW).len(), 2, "发现型不排除");
}

#[test]
fn plan_task_fans_out_and_leases() {
    let ca = SigningKey::from_bytes(&CA_SEED);
    let mut s = svc();
    for (seed, n) in [(0xA1u8, 1u32), (0xB2, 2), (0xC3, 3)] {
        s.register(&spec_of(&kit(&ca, &Agent::new(seed, n, &format!("a{n}"), &["ocr"], 5), FOREVER), &text(n)), NOW).unwrap();
    }
    let p = s.plan_task(&task(&["ocr"], 2, 0, 30_000), NOW).unwrap();
    assert_eq!(p.assignments.len(), 2);
    assert_eq!(p.assignments[0].shard_id, 0);
    assert_eq!(p.assignments[1].shard_id, 1);

    assert_eq!(p.assignments[0].lease_expiry, NOW + 30);

    assert_eq!(s.search_capability(&caps(&["ocr"]), 0, true, NOW).len(), 1);
}

#[test]
fn plan_task_insufficient_keeps_state_untouched() {
    let ca = SigningKey::from_bytes(&CA_SEED);
    let mut s = svc();
    s.register(&spec_of(&kit(&ca, &Agent::new(0xA1, 1, "a", &["ocr"], 5), FOREVER), &text(1)), NOW).unwrap();
    let before = s.search_capability(&caps(&["ocr"]), 0, true, NOW).len();

    let e = s.plan_task(&task(&["ocr"], 2, 0, 30_000), NOW).err();
    assert_eq!(e, Some(AnsError::Insufficient { wanted: 2, got: 1 }));
    assert_eq!(s.search_capability(&caps(&["ocr"]), 0, true, NOW).len(), before);
}

#[test]
fn plan_task_min_count_zero_rejected() {
    let mut s = svc();
    assert_eq!(s.plan_task(&task(&["ocr"], 0, 0, 1000), NOW).err(), Some(AnsError::Insufficient { wanted: 0, got: 0 }));
}

#[test]
fn plan_task_lease_clamped_to_max() {
    let ca = SigningKey::from_bytes(&CA_SEED);
    let mut s = svc();
    s.register(&spec_of(&kit(&ca, &Agent::new(0xA1, 1, "a", &["ocr"], 5), FOREVER), &text(1)), NOW).unwrap();
    let p = s.plan_task(&task(&["ocr"], 1, 0, u64::MAX), NOW).unwrap();
    assert_eq!(p.assignments[0].lease_expiry, NOW + MAX_LEASE_SECS, "timeout 裁剪到 1h");
}

#[test]
fn report_done_releases_lease() {
    let ca = SigningKey::from_bytes(&CA_SEED);
    let mut s = svc();
    let ag = Agent::new(0xA1, 1, "a", &["ocr"], 5);
    s.register(&spec_of(&kit(&ca, &ag, FOREVER), &text(1)), NOW).unwrap();
    let p = s.plan_task(&task(&["ocr"], 1, 0, 30_000), NOW).unwrap();
    assert_eq!(s.search_capability(&caps(&["ocr"]), 0, true, NOW).len(), 0);
    s.report_done(p.plan_id, ag.a, NOW).unwrap();
    assert_eq!(s.search_capability(&caps(&["ocr"]), 0, true, NOW).len(), 1, "回报后重获可用");
}

#[test]
fn report_done_wrong_plan_or_unknown_rejected() {
    let ca = SigningKey::from_bytes(&CA_SEED);
    let mut s = svc();
    let ag = Agent::new(0xA1, 1, "a", &["ocr"], 5);
    s.register(&spec_of(&kit(&ca, &ag, FOREVER), &text(1)), NOW).unwrap();
    let p = s.plan_task(&task(&["ocr"], 1, 0, 30_000), NOW).unwrap();
    assert_eq!(s.report_done(p.plan_id + 999, ag.a, NOW).err(), Some(AnsError::NotFound), "错 plan");
    assert_eq!(s.report_done(p.plan_id, addr(77), NOW).err(), Some(AnsError::NotFound), "未知 addr");

    s.report_done(p.plan_id, ag.a, NOW).unwrap();
    assert_eq!(s.report_done(p.plan_id, ag.a, NOW).err(), Some(AnsError::NotFound));
}

#[test]
fn reap_releases_expired_leases_and_cards() {
    let ca = SigningKey::from_bytes(&CA_SEED);
    let mut s = svc();
    s.register(&spec_of(&kit(&ca, &Agent::new(0xA1, 1, "a", &["ocr"], 5), FOREVER), &text(1)), NOW).unwrap();
    let lease_ag = addr(1);
    s.plan_task(&task(&["ocr"], 1, 0, 5_000), NOW).unwrap();
    s.register(&spec_of(&kit(&ca, &Agent::new(0xB2, 2, "b", &["ocr"], 5), NOW + 100), &text(2)), NOW).unwrap();
    let (rel, exp) = s.reap(NOW + 6);
    assert_eq!(rel, 1, "a 租约 NOW+5 到期被释放");
    assert_eq!(exp, 0, "b 卡片 NOW+100 未过期");
    assert!(s.resolve_addr(lease_ag, NOW + 6).is_ok());
    let (rel2, exp2) = s.reap(NOW + 200);
    assert_eq!(rel2, 0);
    assert_eq!(exp2, 1, "b 卡片过期被摘除");
    assert_eq!(s.resolve_name("b.ipv8.net", NOW + 200).err(), Some(AnsError::NotFound));
}

#[test]
fn covers_predicate_semantics() {
    assert!(covers(&caps(&["a", "b"]), &caps(&["a"])));
    assert!(covers(&caps(&["a", "b"]), &caps(&[])));
    assert!(!covers(&caps(&["a"]), &caps(&["a", "b"])));
    assert!(!covers(&caps(&["a", "b"]), &caps(&["c"])));
}

#[test]
fn validate_tags_gate() {
    assert!(validate_tags(&caps(&["ocr", "image-gen"])).is_ok());
    assert!(validate_tags(&caps(&["OCR"])).is_err());
    assert!(validate_tags(&caps(&[])).is_err(), "空集非法");
}

#[test]
fn ans_register_pop_message_layout() {
    let m = ans_register_pop_message("n.ipv8.net", "deadbeef", &[7u8; 16]);
    assert!(m.starts_with(ANS_REGISTER_DOMAIN.as_bytes()));
    assert!(m.windows(10).any(|w| w == b"n.ipv8.net"));
    assert_eq!(&m[m.len() - 16..], &[7u8; 16]);
}

#[test]
fn empty_service_observations() {
    let s = svc();
    assert!(s.is_empty());
    assert_eq!(s.len(), 0);
    assert_eq!(s.resolve_name("x.ipv8.net", NOW).err(), Some(AnsError::NotFound));
}
