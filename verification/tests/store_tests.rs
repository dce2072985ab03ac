//! Entries, clocks, rows and searches, on concrete values.

use ipv8plus::ans::card::{AgentCard, AnsError, CARD_VERSION};
use ipv8plus::ans::service::{check_name, clamp_lease, vet, AnsService};
use ipv8plus::codec::header::{AddrParseError, IPv8Address};
use ipv8plus::codec::layouts::AgentCardSummary;
use ipv8plus::resolver::cache::{CacheConfig, CachedStore};
use ipv8plus::resolver::clock::{TimeBase, MAX_BACK};
use ipv8plus::resolver::entry::{dead_keys, decode_entry, encode_entry, is_dead, table_key};
use ipv8plus::resolver::json::{decode_json_strings, encode_json_strings};
use ipv8plus::resolver::list::TextList;
use ipv8plus::resolver::record::{Entry, NodeRecord, MAX_TTL};
use ipv8plus::resolver::row::{entry_to_row, load_rows, row_to_entry, RowError};
use ipv8plus::resolver::service::{
    check_registration, combine, grant_ttl, peer_candidates, sanitize_candidates, ResolveError,
};
use ipv8plus::resolver::service::ResolverService;
use ipv8plus::resolver::sqlite::{SqliteStore, Write};
use ipv8plus::resolver::store::{MemStore, Store};
use sha2::{Digest, Sha256};

const NOW: u64 = 10_000_000;
const BASE: TimeBase = TimeBase { instant: NOW, system: 1_700_000_000_000 };

fn addr(n: u32) -> IPv8Address {
    IPv8Address::new(0xfb14_0000, n, 1, 0, 1)
}

fn texts(l: &[&str]) -> Vec<String> {
    l.iter().map(|s| s.to_string()).collect()
}

fn entry(seed: u8, at: u64) -> Entry {
    Entry {
        ed_pub: [seed; 32],
        rec: NodeRecord {
            tunnel_entry: "10.0.0.1:4000".to_string(),
            alt_entries: TextList::new(texts(&["a", "b"])),
            ipv8_capable: true,
            mtu: 1400,
            registered_at: at,
            ttl: 60_000,
            observed: Some(("203.0.113.9:777".to_string(), at)),
            local_candidates: TextList::new(texts(&["192.168.0.5:4000"])),
        },
    }
}

#[test]
fn granted_time_is_bounded() {
    assert_eq!(grant_ttl(0), 300_000);
    assert_eq!(grant_ttl(7), 7_000);
    assert_eq!(grant_ttl(u64::MAX), MAX_TTL);
}

#[test]
fn entries_expire() {
    let e = entry(1, NOW);
    assert!(!e.rec.is_expired(NOW + 59_999));
    assert!(e.rec.is_expired(NOW + 60_000));
    assert_eq!(e.rec.fresh_observed(NOW + 89_999), Some("203.0.113.9:777"));
    assert_eq!(e.rec.fresh_observed(NOW + 90_001), None);
}

#[test]
fn registration_is_decided_by_key_and_proof() {
    let t = addr(1).to_canonical_string();
    let held = Some(std::sync::Arc::new(entry(1, NOW)));
    let key = [1u8; 32];
    let other = [2u8; 32];
    assert_eq!(check_registration("zz", &key, &None, true, true, NOW), Err(ResolveError::BadAddress));
    assert_eq!(check_registration(&t, &key, &None, true, false, NOW), Err(ResolveError::BadProof));
    assert_eq!(check_registration(&t, &key, &None, true, true, NOW), Ok(addr(1)));
    assert_eq!(check_registration(&t, &key, &held, true, false, NOW), Ok(addr(1)));
    let e = check_registration(&t, &other, &held, true, true, NOW);
    assert_eq!(e, Err(ResolveError::KeyConflict { addr: addr(1) }));
    assert_eq!(check_registration(&t, &other, &held, true, true, NOW + 60_000), Ok(addr(1)));
}

#[test]
fn candidates_of_a_peer() {
    let e = entry(1, NOW);
    let want = texts(&["203.0.113.9:4000", "203.0.113.9:777", "192.168.0.5:4000"]);
    assert_eq!(peer_candidates(&e.rec, NOW), want);
    assert_eq!(peer_candidates(&e.rec, NOW + 100_000), texts(&["192.168.0.5:4000"]));
    assert_eq!(combine("203.0.113.9:777", "10.0.0.1:4000"), Some("203.0.113.9:4000".to_string()));
    let reported = texts(&["a b", "", "\u{7}", "中x"]);
    let clean = sanitize_candidates(&reported).to_vec();
    assert!(clean.len() <= 4);
    assert!(clean.iter().all(|c| !c.is_empty() && c.chars().all(|x| x.is_ascii_graphic() || x == ' ')));
    let many: Vec<String> = (0..20).map(|i| format!("c{i}")).collect();
    assert_eq!(sanitize_candidates(&many).to_vec().len(), 8);
    assert_eq!(sanitize_candidates(&vec!["x".repeat(100)]).to_vec()[0].len(), 64);
}

#[test]
fn times_come_back() {
    assert_eq!(TimeBase::now(1_700_000_000_000, NOW), BASE);
    assert_eq!(BASE.to_system(NOW + 5), 1_700_000_000_005);
    assert_eq!(BASE.to_instant(BASE.to_system(NOW - 1_234)), NOW - 1_234);
    assert_eq!(BASE.to_instant(BASE.system - MAX_BACK - 99), NOW - MAX_BACK);
    assert_eq!(BASE.instant_to_system_secs(NOW + 1_500), 1_700_000_001);
    assert_eq!(BASE.system_secs_to_instant(1_700_000_001), Some(NOW + 1_000));
}

#[test]
fn entry_bytes_come_back_in_seconds() {
    let e = entry(7, NOW + 1_500);
    let b = encode_entry(&e, &BASE);
    let d = decode_entry(&b, &BASE).unwrap();
    assert_eq!(d.ed_pub, e.ed_pub);
    assert_eq!(d.rec.registered_at, NOW + 1_000);
    assert_eq!(d.rec.observed, Some(("203.0.113.9:777".to_string(), NOW + 1_000)));
    assert_eq!(d.rec.alt_entries, e.rec.alt_entries);
    assert!(decode_entry(&b[..b.len() - 1], &BASE).is_none());
    assert!(!is_dead(&b, &BASE, NOW + 60_999));
    assert!(is_dead(&b, &BASE, NOW + 61_000));
    let items = vec![(4, b.clone()), (5, vec![0u8; 3]), (6, encode_entry(&entry(8, NOW + 90_000), &BASE))];
    assert_eq!(dead_keys(&items, &BASE, NOW + 60_999), vec![5]);
    assert_eq!(dead_keys(&items, &BASE, NOW + 61_000), vec![4, 5]);
    let mut odd = e.copy();
    odd.rec.tunnel_entry = "中文".to_string();
    assert_eq!(decode_entry(&encode_entry(&odd, &BASE), &BASE).unwrap().rec.tunnel_entry, "中文");
    let mut damaged = encode_entry(&odd, &BASE);
    damaged[34] = 0xff;
    assert!(decode_entry(&damaged, &BASE).unwrap().rec.tunnel_entry.contains('\u{fffd}'));
    assert_ne!(table_key(&addr(1)), table_key(&addr(2)));
}

#[test]
fn rows_come_back_as_they_were() {
    let e = entry(7, NOW - 1_500);
    let row = entry_to_row(&addr(3), &e, &BASE);
    assert_eq!(row.addr_hex, addr(3).to_canonical_string());
    assert_eq!(row.alt_entries, "[\"a\",\"b\"]");
    assert_eq!((row.ipv8_capable, row.mtu, row.ttl), (1, 1400, 60_000));
    assert_eq!(row.registered_at, 1_699_999_998_500);
    let (a, back) = row_to_entry(&row, &BASE).unwrap();
    assert_eq!(a, addr(3));
    assert_eq!(back.rec.registered_at, e.rec.registered_at);
    assert_eq!(back.rec.observed, e.rec.observed);
    let mut bad = row.clone();
    bad.ed_pub.pop();
    assert_eq!(row_to_entry(&bad, &BASE).err(), Some(RowError::BadKeyLength(31)));
    let mut worse = row.clone();
    worse.addr_hex = "zz".to_string();
    assert_eq!(row_to_entry(&worse, &BASE).err(), Some(RowError::BadAddress(AddrParseError::Format)));
    let (store, dropped) = load_rows(&vec![row, bad, worse], &BASE);
    assert_eq!((store.len(), dropped), (1, 2));
}

#[test]
fn json_lists_come_back() {
    let l = texts(&["a\"b", "\\", "\u{1}", "中"]);
    assert_eq!(decode_json_strings(&encode_json_strings(&l)), l);
    assert_eq!(encode_json_strings(&texts(&["a", "b"])), "[\"a\",\"b\"]");
    assert_eq!(decode_json_strings("[\"\\u4e2d\"]"), texts(&["中"]));
    assert!(decode_json_strings("nonsense").is_empty());
}

#[test]
fn cache_keeps_what_was_used() {
    let mut c = CachedStore::new(MemStore::default(), CacheConfig { max_entries: 2, negative_ttl: 1_000 });
    c.insert(addr(1), entry(1, NOW));
    c.insert(addr(2), entry(2, NOW));
    assert_eq!(c.get(&addr(1), NOW).unwrap().ed_pub, [1; 32]);
    c.insert(addr(3), entry(3, NOW));
    assert!(c.cache_contains(&addr(1)) && !c.cache_contains(&addr(2)) && c.cache_contains(&addr(3)));
    assert_eq!(c.cache_len(), 2);
    assert_eq!(c.inner().len(), 3);
    assert!(c.get(&addr(9), NOW).is_none());
    assert!(c.get(&addr(9), NOW + 999).is_none());
    assert_eq!(c.stats().negative_hits, 1);
    assert!(c.get(&addr(9), NOW + 1_000).is_none());
    assert_eq!(c.stats().negative_hits, 1);
    assert_eq!(c.sweep_expired(NOW + 60_000), 5);
    assert_eq!(c.into_inner().len(), 0);
}

fn card(n: u32, name: &str, qos: u8) -> AgentCard {
    AgentCard {
        version: CARD_VERSION,
        name: name.to_string(),
        addr: addr(n),
        capabilities: texts(&["ocr"]),
        endpoints: vec![],
        qos_hint: qos,
        not_after: 1_000,
        tunnel_entry: "e:1".to_string(),
    }
}

fn summary(c: &AgentCard) -> AgentCardSummary {
    c.summary([7; 32], [8; 64]).unwrap()
}

#[test]
fn agents_are_let_in_given_the_checks() {
    let c = card(1, "a.ipv8.net", 3);
    let t = addr(1).to_canonical_string();
    let root = ".ipv8.net";
    let all = |b, s, h, now| vet(root, &t, &c, b, s, h, now);
    assert_eq!(all(true, true, true, 0), Ok(addr(1)));
    assert_eq!(all(false, true, true, 0), Err(AnsError::BadCert));
    assert_eq!(all(true, false, true, 0), Err(AnsError::BadCard));
    assert_eq!(all(true, true, false, 0), Err(AnsError::BadProof));
    assert_eq!(vet(root, "zz", &c, true, true, true, 0), Err(AnsError::BadAddress));
    assert_eq!(check_name("a.ipv8.net", root), Ok(()));
    assert_eq!(check_name("a.other", root), Err(AnsError::BadName));
}

#[test]
fn agents_are_enrolled_found_and_reaped() {
    let mut s = AnsService::new([0; 32], ".ipv8.net".to_string());
    let a = card(1, "a.ipv8.net", 3);
    let b = card(2, "b.ipv8.net", 5);
    s.enrol(addr(1), [7; 32], &a, summary(&a), 0).unwrap();
    s.enrol(addr(2), [7; 32], &b, summary(&b), 0).unwrap();
    assert_eq!(s.resolve_name("a.ipv8.net", 999).unwrap().addr, addr(1));
    assert_eq!(s.resolve_name("a.ipv8.net", 1_000).err(), Some(AnsError::NotFound));
    assert_eq!(s.resolve_addr(addr(2), 0).unwrap().name, "b.ipv8.net");
    let ocr = texts(&["ocr"]);
    let order: Vec<IPv8Address> = s.search_capability(&ocr, 0, true, 0).iter().map(|r| r.addr).collect();
    assert_eq!(order, vec![addr(2), addr(1)]);
    let other = card(3, "a.ipv8.net", 3);
    assert_eq!(s.enrol(addr(3), [9; 32], &other, summary(&other), 0), Err(AnsError::NameConflict));
    assert_eq!(s.enrol(addr(1), [9; 32], &a, summary(&a), 0), Err(AnsError::KeyConflict));
    assert_eq!(s.reap(1_000), (0, 2));
    assert!(s.is_empty());
    s.enrol(addr(3), [9; 32], &other, summary(&other), 0).unwrap();
    assert_eq!(s.len(), 1);
}

#[test]
fn leases_are_bounded() {
    assert_eq!(clamp_lease(0), 1);
    assert_eq!(clamp_lease(1_500), 2);
    assert_eq!(clamp_lease(u64::MAX), 3_600);
}

#[test]
fn card_digest_is_that_of_the_crate() {
    let c = card(1, "a.ipv8.net", 3);
    let bytes = c.canonical_bytes().unwrap();
    assert_eq!(c.card_hash().unwrap()[..], Sha256::digest(&bytes)[..16]);
    let mut d = c.copy();
    d.endpoints = texts(&["x"]);
    assert_ne!(d.canonical_bytes().unwrap(), bytes);
}

#[test]
fn table_is_written_as_memory_changes() {
    let old = entry_to_row(&addr(1), &entry(1, NOW - 60_000), &BASE);
    let live = entry_to_row(&addr(2), &entry(2, NOW - 59_999), &BASE);
    let mut bad = live.clone();
    bad.addr_hex = "zz".to_string();
    let (mut s, damaged) = SqliteStore::open(vec![old, live, bad], BASE);
    assert_eq!((s.len(), damaged), (1, 1));
    assert!(s.take_writes().is_empty());
    s.insert(addr(3), entry(3, NOW));
    assert_eq!(s.sweep_expired(NOW + 1), 1);
    assert_eq!(s.get(&addr(3), NOW).unwrap().ed_pub, [3; 32]);
    let mut r = ResolverService::with_store(s);
    assert_eq!(r.len(), 1);
    let w = r.take_writes();
    assert_eq!(w.len(), 2);
    assert!(matches!(&w[0], Write::Upsert(row) if row.addr_hex == addr(3).to_canonical_string()));
    assert!(matches!(&w[1], Write::Sweep { until } if *until == BASE.system + 1));
    assert!(r.take_writes().is_empty());
}

#[test]
fn times_beyond_the_clock_stay_in_memory() {
    let base = TimeBase { instant: 0, system: u64::MAX };
    let (mut s, _) = SqliteStore::open(vec![], base);
    s.insert(addr(1), entry(1, NOW));
    assert_eq!(s.len(), 1);
    assert!(s.take_writes().is_empty());
}

#[test]
fn short_lists_hold_their_texts() {
    let five = texts(&["a", "b", "c", "d", "e"]);
    let l = TextList::new(five.clone());
    assert_eq!(l.to_vec(), five);
    assert_eq!(l.clone(), l);
    assert_eq!(TextList::new(vec![]).to_vec(), Vec::<String>::new());
}
