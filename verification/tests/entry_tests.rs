//! Entries as bytes and as rows.

use ipv8plus::resolver::clock::TimeBase;
use ipv8plus::resolver::entry::{dead_keys, decode_entry, encode_entry};
use ipv8plus::resolver::json::{decode_json_strings, encode_json_strings};
use ipv8plus::resolver::list::TextList;
use ipv8plus::resolver::record::{Entry, NodeRecord};

const NOW: u64 = 1_000_000;

const BASE: TimeBase = TimeBase { instant: NOW, system: 1_700_000_000_000 };

fn make_entry(seed: u8) -> Entry {
    Entry {
        ed_pub: [seed; 32],
        rec: NodeRecord {
            tunnel_entry: format!("10.0.0.{}:4000", seed),
            alt_entries: TextList::new(vec![format!("192.168.1.{}:4000", seed)]),
            ipv8_capable: true,
            mtu: 1432,
            registered_at: NOW,
            ttl: 300_000,
            observed: Some((
                format!("203.0.113.{}:12345", seed),
                NOW,
            )),
            local_candidates: TextList::new(vec![format!("192.168.0.{}:5000", seed)]),
        },
    }
}

#[test]
fn p2_encode_decode_roundtrip() {
    let e = make_entry(42);
    let data = encode_entry(&e, &BASE);
    let decoded = decode_entry(&data, &BASE).expect("decode failed");
    assert_eq!(decoded.ed_pub, e.ed_pub);
    assert_eq!(decoded.rec.tunnel_entry, e.rec.tunnel_entry);
    assert_eq!(decoded.rec.alt_entries, e.rec.alt_entries);
    assert_eq!(decoded.rec.ipv8_capable, e.rec.ipv8_capable);
    assert_eq!(decoded.rec.mtu, e.rec.mtu);
    assert_eq!(decoded.rec.ttl, e.rec.ttl);
    assert_eq!(decoded.rec.local_candidates, e.rec.local_candidates);
    assert_eq!(
        decoded.rec.observed.as_ref().map(|(a, _)| a.clone()),
        e.rec.observed.as_ref().map(|(a, _)| a.clone())
    );
}

#[test]
fn long_time_to_live_is_cut_to_the_clock() {
    let e = make_entry(7);
    let mut data = encode_entry(&e, &BASE);
    let at = data.windows(8).position(|w| w == 300u64.to_le_bytes()).unwrap();
    data[at..at + 8].copy_from_slice(&(u64::MAX / 2).to_le_bytes());
    let decoded = decode_entry(&data, &BASE).unwrap();
    assert_eq!(decoded.rec.registered_at, NOW);
    assert_eq!(decoded.rec.ttl, u64::MAX - NOW);
    assert!(!decoded.rec.is_expired(u64::MAX - 1));
    assert_eq!(dead_keys(&vec![(3, data)], &BASE, NOW), Vec::<u64>::new());
    assert_eq!(BASE.system_secs_to_instant(u64::MAX), Some(u64::MAX));
    assert_eq!(BASE.system_secs_to_instant(0), None);
}

#[test]
fn json_encoding_decoding_roundtrip() {
    let cases = vec![
        vec![],
        vec!["a".to_string()],
        vec!["a".to_string(), "b".to_string(), "c".to_string()],
        vec!["hello world".to_string(), "with\"quotes\"".to_string()],
        vec!["new\nline".to_string(), "tab\there".to_string()],
        vec!["中文".to_string(), "emoji🚀".to_string()],
    ];
    for case in cases {
        let encoded = encode_json_strings(&case);
        let decoded = decode_json_strings(&encoded);
        assert_eq!(decoded, case, "编码: {encoded}");
    }
}
