//! Messages that a node signs to prove that it holds a key.
//!
//! Every kind of message begins with a domain of its own.

use vstd::prelude::*;
use crate::codec::layouts;
use crate::wire;

verus! {

/// Domain of the proof for a certificate.
pub const REGISTER_DOMAIN: &'static str = "ipv8plus-register";

/// Domain of the proof for a change of key.
pub const ROTATE_DOMAIN: &'static str = "ipv8plus-rotate";

/// Domain of the proof for an entry of the resolver.
pub const RESOLVE_DOMAIN: &'static str = "ipv8plus-resolve";

/// Domain of the proof for a rendezvous.
pub const RENDEZVOUS_DOMAIN: &'static str = "ipv8plus-rendezvous";

/// Domain of the proof for an agent's name.
pub const ANS_REGISTER_DOMAIN: &'static str = "ipv8plus-ans-register";

/// The bytes of a text.
pub open spec fn utf8(t: Seq<char>) -> Seq<u8> {
    vstd::utf8::encode_utf8(t)
}

/// A domain and two parts.
pub open spec fn message(domain: Seq<char>, a: Seq<u8>, b: Seq<u8>) -> Seq<u8> {
    utf8(domain) + a + b
}

/// A domain and two parts, one after the other.
pub fn join(domain: &str, a: &[u8], b: &[u8]) -> (m: Vec<u8>)
    ensures
        m@ == message(domain@, a@, b@),
{
    let mut m: Vec<u8> = Vec::new();
    wire::put_bytes(&mut m, domain.as_bytes());
    wire::put_bytes(&mut m, a);
    wire::put_bytes(&mut m, b);
    assert(m@ =~= message(domain@, a@, b@));
    m
}

/// The bytes of the domains, as far as they tell them apart.
proof fn domain_bytes()
    ensures
        utf8(REGISTER_DOMAIN@).len() == 17 && utf8(REGISTER_DOMAIN@)[9] == 114 && utf8(REGISTER_DOMAIN@)[10] == 101
            && utf8(REGISTER_DOMAIN@)[11] == 103,
        utf8(ROTATE_DOMAIN@).len() == 15 && utf8(ROTATE_DOMAIN@)[9] == 114 && utf8(ROTATE_DOMAIN@)[10] == 111
            && utf8(ROTATE_DOMAIN@)[11] == 116,
        utf8(RESOLVE_DOMAIN@).len() == 16 && utf8(RESOLVE_DOMAIN@)[9] == 114 && utf8(RESOLVE_DOMAIN@)[10] == 101
            && utf8(RESOLVE_DOMAIN@)[11] == 115,
        utf8(RENDEZVOUS_DOMAIN@).len() == 19 && utf8(RENDEZVOUS_DOMAIN@)[9] == 114 && utf8(RENDEZVOUS_DOMAIN@)[10] == 101
            && utf8(RENDEZVOUS_DOMAIN@)[11] == 110,
        utf8(ANS_REGISTER_DOMAIN@).len() == 21 && utf8(ANS_REGISTER_DOMAIN@)[9] == 97 && utf8(ANS_REGISTER_DOMAIN@)[10]
            == 110,
{
    reveal_strlit("ipv8plus-register");
    reveal_strlit("ipv8plus-rotate");
    reveal_strlit("ipv8plus-resolve");
    reveal_strlit("ipv8plus-rendezvous");
    reveal_strlit("ipv8plus-ans-register");
    vstd::utf8::is_ascii_chars_encode_utf8("ipv8plus-register"@);
    vstd::utf8::is_ascii_chars_encode_utf8("ipv8plus-rotate"@);
    vstd::utf8::is_ascii_chars_encode_utf8("ipv8plus-resolve"@);
    vstd::utf8::is_ascii_chars_encode_utf8("ipv8plus-rendezvous"@);
    vstd::utf8::is_ascii_chars_encode_utf8("ipv8plus-ans-register"@);
}

/// The domains of signatures.
pub ghost enum Domain {
    Register,
    Rotate,
    Resolve,
    Rendezvous,
    AnsRegister,
    RouteTrace,
    AgentCard,
}

/// The bytes that a message of a domain begins with.
pub open spec fn prefix(d: Domain) -> Seq<u8> {
    match d {
        Domain::Register => utf8(REGISTER_DOMAIN@),
        Domain::Rotate => utf8(ROTATE_DOMAIN@),
        Domain::Resolve => utf8(RESOLVE_DOMAIN@),
        Domain::Rendezvous => utf8(RENDEZVOUS_DOMAIN@),
        Domain::AnsRegister => utf8(ANS_REGISTER_DOMAIN@),
        Domain::RouteTrace => layouts::route_trace_domain(),
        Domain::AgentCard => layouts::agent_card_domain(),
    }
}

/// No message of one domain is a message of another, so that a signature for
/// one purpose serves no other.
pub proof fn domains_differ(c: Domain, d: Domain, x: Seq<u8>, y: Seq<u8>)
    requires
        c != d,
    ensures
        prefix(c) + x != prefix(d) + y,
{
    domain_bytes();
    let m = prefix(c) + x;
    let n = prefix(d) + y;
    assert(m[9] == prefix(c)[9] && m[10] == prefix(c)[10] && m[11] == prefix(c)[11]);
    assert(n[9] == prefix(d)[9] && n[10] == prefix(d)[10] && n[11] == prefix(d)[11]);
}

/// A message determines its parts, where the first ones are as long as each
/// other: a signature for one address, peer or key serves no other.
pub proof fn message_binds(domain: Seq<char>, a1: Seq<u8>, b1: Seq<u8>, a2: Seq<u8>, b2: Seq<u8>)
    requires
        a1.len() == a2.len(),
        message(domain, a1, b1) == message(domain, a2, b2),
    ensures
        a1 == a2,
        b1 == b2,
{
    let n = utf8(domain).len() as int;
    let m1 = message(domain, a1, b1);
    let m2 = message(domain, a2, b2);
    assert(m1.subrange(n, n + a1.len()) =~= a1);
    assert(m2.subrange(n, n + a2.len()) =~= a2);
    assert(m1.subrange(n + a1.len(), m1.len() as int) =~= b1);
    assert(m2.subrange(n + a2.len(), m2.len() as int) =~= b2);
}

} // verus!
