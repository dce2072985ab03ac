//! The rules of the firewall.

use ipv8plus::codec::header::IPv8Address;
use ipv8plus::firewall::{Direction, Protocol, Rule, RuleSet};

fn make_addr(region: u64) -> IPv8Address {
    IPv8Address::new(0xFB14_0000 | (region >> 32) as u32, region as u32, 0, 0, 0)
}

#[test]
fn protocol_match() {
    assert!(Protocol::Tcp.matches(6));
    assert!(!Protocol::Tcp.matches(17));
    assert!(Protocol::Udp.matches(17));
    assert!(Protocol::Any.matches(6));
    assert!(Protocol::Any.matches(17));
    assert!(Protocol::Custom(132).matches(132));
    assert!(!Protocol::Custom(132).matches(6));
}

#[test]
fn rule_match_basic() {
    let rs = RuleSet {
        rules: vec![Rule {
            id: "r1".into(),
            name: "Web".into(),
            protocol: Protocol::Tcp,
            port_start: 80,
            port_end: 80,
            source_pattern: String::new(),
            target_addr: String::new(),
            target_port: 0,
            enabled: true,
            direction: Direction::Inbound,
            comment: String::new(),
        }],
    };

    assert!(rs.match_rule(6, 80, &make_addr(1)).is_some());

    assert!(rs.match_rule(17, 80, &make_addr(1)).is_none());

    assert!(rs.match_rule(6, 81, &make_addr(1)).is_none());
}

#[test]
fn rule_match_port_range() {
    let rs = RuleSet {
        rules: vec![Rule {
            id: "r1".into(),
            name: "Passive FTP".into(),
            protocol: Protocol::Tcp,
            port_start: 50000,
            port_end: 50100,
            source_pattern: String::new(),
            target_addr: String::new(),
            target_port: 0,
            enabled: true,
            direction: Direction::Inbound,
            comment: String::new(),
        }],
    };
    assert!(rs.match_rule(6, 50000, &make_addr(1)).is_some());
    assert!(rs.match_rule(6, 50050, &make_addr(1)).is_some());
    assert!(rs.match_rule(6, 50100, &make_addr(1)).is_some());
    assert!(rs.match_rule(6, 49999, &make_addr(1)).is_none());
    assert!(rs.match_rule(6, 50101, &make_addr(1)).is_none());
}

#[test]
fn rule_match_source_pattern() {
    let rs = RuleSet {
        rules: vec![Rule {
            id: "r1".into(),
            name: "Region Only".into(),
            protocol: Protocol::Any,
            port_start: 1,
            port_end: 65535,
            source_pattern: "fb14000000000001".into(),
            target_addr: String::new(),
            target_port: 0,
            enabled: true,
            direction: Direction::Inbound,
            comment: String::new(),
        }],
    };

    let addr1 = make_addr(1);
    assert!(rs.match_rule(6, 80, &addr1).is_some());

    let addr2 = make_addr(2);
    assert!(rs.match_rule(6, 80, &addr2).is_none());
}

#[test]
fn rule_match_forward() {
    let target = make_addr(42);
    let rs = RuleSet {
        rules: vec![Rule {
            id: "r1".into(),
            name: "Forward to 42".into(),
            protocol: Protocol::Tcp,
            port_start: 8080,
            port_end: 8080,
            source_pattern: String::new(),
            target_addr: target.to_canonical_string(),
            target_port: 80,
            enabled: true,
            direction: Direction::Inbound,
            comment: String::new(),
        }],
    };
    let m = rs.match_rule(6, 8080, &make_addr(1)).unwrap();
    assert_eq!(m.target_port, 80);
    assert!(m.target.is_some());
    assert_eq!(m.target.unwrap(), target);
}

#[test]
fn disabled_rule_ignored() {
    let rs = RuleSet {
        rules: vec![Rule {
            id: "r1".into(),
            name: "Disabled".into(),
            protocol: Protocol::Any,
            port_start: 1,
            port_end: 65535,
            source_pattern: String::new(),
            target_addr: String::new(),
            target_port: 0,
            enabled: false,
            direction: Direction::Inbound,
            comment: String::new(),
        }],
    };
    assert!(rs.match_rule(6, 80, &make_addr(1)).is_none());
}

#[test]
fn ruleset_crud() {
    let mut rs = RuleSet::default();
    let r = Rule {
        id: "test".into(),
        name: "Test".into(),
        protocol: Protocol::Tcp,
        port_start: 80,
        port_end: 80,
        source_pattern: String::new(),
        target_addr: String::new(),
        target_port: 0,
        enabled: true,
        direction: Direction::Inbound,
        comment: String::new(),
    };
    rs.add(r.clone());
    assert_eq!(rs.rules.len(), 1);
    rs.add(r.clone());
    assert_eq!(rs.rules.len(), 1);
    assert!(rs.toggle("test"));
    assert!(!rs.rules[0].enabled);
    assert!(rs.remove("test"));
    assert!(rs.rules.is_empty());
}

#[test]
fn protocol_magic_allows_any() {
    let addr = IPv8Address::new(0xFB14_0001, 0x0002_0003, 0, 0, 0);
    let rs = RuleSet {
        rules: vec![Rule {
            id: "r1".into(),
            name: "Any".into(),
            protocol: Protocol::Any,
            port_start: 1,
            port_end: 65535,
            source_pattern: String::new(),
            target_addr: String::new(),
            target_port: 0,
            enabled: true,
            direction: Direction::Inbound,
            comment: String::new(),
        }],
    };
    assert!(rs.match_rule(6, 443, &addr).is_some());
}
