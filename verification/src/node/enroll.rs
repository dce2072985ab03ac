//! How the node comes by its certificate.

use vstd::prelude::*;
use crate::cert;
use crate::cert::{Cert, HostIdentity, TrustAnchor};
use crate::codec::header::IPv8Address;
use crate::crypto;
use crate::text;
use crate::wire;
use crate::zone;
use crate::zone::ZoneServer;

verus! {

/// Bytes of a kept certificate.
pub const CACHE_LEN: usize = 157;

/// The version of the form in which a certificate is kept.
pub const CACHE_VERSION: u8 = 1;

/// What a kept certificate starts with.
pub open spec fn cache_head() -> Seq<u8> {
    seq![0x49u8, 0x50u8, 0x38u8, 0x43u8, CACHE_VERSION]
}

/// A certificate as it is kept: mark, version, the authority's key, the
/// certificate.
pub open spec fn cache_wire(ca: Seq<u8>, cert: Seq<u8>) -> Seq<u8> {
    cache_head() + ca + cert
}

/// A certificate as it is kept.
pub fn cache_bytes(ca: &[u8; 32], c: &Cert) -> (b: Vec<u8>)
    ensures
        b@ == cache_wire(ca@, c.wire()),
{
    let mut b: Vec<u8> = Vec::new();
    b.push(0x49);
    b.push(0x50);
    b.push(0x38);
    b.push(0x43);
    b.push(CACHE_VERSION);
    assert(b@ =~= cache_head());
    wire::put_bytes(&mut b, ca.as_slice());
    let w = cert::cert_to_bytes(c);
    wire::put_bytes(&mut b, w.as_slice());
    b
}

/// Whether bytes have the form of a kept certificate.
pub open spec fn is_cache(raw: Seq<u8>) -> bool {
    raw.len() == CACHE_LEN && raw.subrange(0, 5) == cache_head() && cert::is_cert(raw.subrange(37, 157))
}

/// Whether a kept certificate is the node's own and good at time `now`: it has
/// the right form, the authority's key is one, and the certificate binds the
/// node's address to its key.
pub open spec fn usable(raw: Seq<u8>, addr: IPv8Address, ed_seed: Seq<u8>, now: u64) -> bool {
    &&& is_cache(raw)
    &&& crypto::is_public_key(raw.subrange(5, 37))
    &&& cert::binds(raw.subrange(5, 37), raw.subrange(37, 157), addr, crypto::public_key_of(ed_seed), now)
}

/// The authority's key and the certificate in bytes that were kept.
pub fn cached_cert(raw: &[u8]) -> (r: Option<([u8; 32], Cert)>)
    ensures
        match r {
            Some((ca, c)) => is_cache(raw@) && ca@ == raw@.subrange(5, 37) && cert::reads_as(raw@.subrange(37, 157), c),
            None => !is_cache(raw@),
        },
{
    if raw.len() != CACHE_LEN {
        return None;
    }
    let head: [u8; 5] = [0x49, 0x50, 0x38, 0x43, CACHE_VERSION];
    assert(head@ =~= cache_head());
    if !wire::same_bytes(vstd::slice::slice_subrange(raw, 0, 5), head.as_slice()) {
        return None;
    }
    let ca = wire::array32(vstd::slice::slice_subrange(raw, 5, 37));
    match cert::cert_from_bytes(vstd::slice::slice_subrange(raw, 37, 157)) {
        Some(c) => Some((ca, c)),
        None => None,
    }
}

/// The node's identity from a certificate that was kept; `None` where it is
/// damaged, expired, or another node's.
pub fn load_cert_cache(raw: &[u8], self_addr: IPv8Address, ed_seed: [u8; 32], now: u64) -> (r: Option<
    (HostIdentity, TrustAnchor),
>)
    ensures
        r is Some == usable(raw@, self_addr, ed_seed@, now),
        r matches Some((h, t)) ==> {
            &&& h.addr == self_addr
            &&& h.ed_seed == ed_seed
            &&& cert::reads_as(raw@.subrange(37, 157), h.cert)
            &&& h.cert.addr == self_addr
            &&& t@ == raw@.subrange(5, 37)
        },
{
    let (ca, c): ([u8; 32], Cert) = match cached_cert(raw) {
        Some(v) => v,
        None => {
            return None;
        },
    };
    let trust = match TrustAnchor::from_bytes(ca) {
        Some(t) => t,
        None => {
            return None;
        },
    };
    let key = cert::verify_key_from_seed(ed_seed);
    if !cert::cert_binding_ok(&ca, vstd::slice::slice_subrange(raw, 37, 157), &self_addr, &key, now) {
        return None;
    }
    Some((HostIdentity::with_cert(self_addr, ed_seed, c), trust))
}

/// A good certificate of the node that was kept can be used again until it
/// expires.
pub proof fn kept_certificate_is_usable(ca: Seq<u8>, c: Cert, ed_seed: Seq<u8>, now: u64)
    requires
        c.addr.wf(),
        crypto::is_public_key(ca),
        ca.len() == 32,
        c.good(ca, now),
        c.verify_key@ == crypto::public_key_of(ed_seed),
    ensures
        usable(cache_wire(ca, c.wire()), c.addr, ed_seed, now),
{
    let raw = cache_wire(ca, c.wire());
    crate::codec::header::address_wire_len(c.addr);
    assert(raw.subrange(0, 5) =~= cache_head());
    assert(raw.subrange(5, 37) =~= ca);
    assert(raw.subrange(37, 157) =~= c.wire());
    cert::good_cert_binds(ca, c, c.addr, crypto::public_key_of(ed_seed), now);
}

/// A certificate that was kept is used by no other node: neither under another
/// address nor with another key.
pub proof fn kept_certificate_is_of_one_node(
    raw: Seq<u8>,
    a: IPv8Address,
    s: Seq<u8>,
    now: u64,
    b: IPv8Address,
    t: Seq<u8>,
    later: u64,
)
    requires
        usable(raw, a, s, now),
        usable(raw, b, t, later),
    ensures
        a == b,
        crypto::public_key_of(s) == crypto::public_key_of(t),
{
}

/// What the node asks a zone server for.
#[derive(Debug, Clone, PartialEq, Eq)]
pub struct EnrollRequest {
    pub addr_text: String,
    pub ed_pub: [u8; 32],
    pub proof: [u8; 64],
    pub label: String,
}

/// Asks for a certificate: for the node's address and key, with a proof that it
/// holds the key.
pub fn enroll_request(self_addr: &IPv8Address, ed_seed: &[u8; 32]) -> (r: EnrollRequest)
    ensures
        r.addr_text@ == text::hex_text(self_addr.bytes()),
        r.ed_pub@ == crypto::public_key_of(ed_seed@),
        crypto::is_public_key(r.ed_pub@),
        r.proof@ == crypto::signature_of(ed_seed@, zone::register_message(r.addr_text@, r.ed_pub@)),
        r.label@ == "ipv8-node"@,
        crypto::ordinary(r.proof@) ==> crypto::signature_holds(
            r.ed_pub@,
            zone::register_message(r.addr_text@, r.ed_pub@),
            r.proof@,
        ),
{
    let addr_text = self_addr.to_canonical_string();
    let ed_pub = cert::verify_key_from_seed(*ed_seed);
    let m = ZoneServer::register_msg(addr_text.as_str(), ed_pub.as_slice());
    let proof_ = ZoneServer::pop_sign(ed_seed, m.as_slice());
    EnrollRequest { addr_text, ed_pub, proof: proof_, label: "ipv8-node".to_owned() }
}

/// A zone server that has no other key for the node's address lets the node in.
pub proof fn enrolment_is_let_in(keys: Map<IPv8Address, [u8; 32]>, r: EnrollRequest, self_addr: IPv8Address)
    requires
        self_addr.wf(),
        r.addr_text@ == text::hex_text(self_addr.bytes()),
        crypto::is_public_key(r.ed_pub@),
        crypto::signature_holds(r.ed_pub@, zone::register_message(r.addr_text@, r.ed_pub@), r.proof@),
        keys.contains_key(self_addr) ==> keys[self_addr]@ == r.ed_pub@,
    ensures
        zone::admission(
            keys,
            r.addr_text@,
            r.ed_pub@,
            r.proof@.len(),
            zone::key_ok(r.ed_pub@),
            crypto::signature_holds(r.ed_pub@, zone::register_message(r.addr_text@, r.ed_pub@), r.proof@),
        ) == Ok::<IPv8Address, zone::ZoneError>(self_addr),
{
    crate::codec::header::address_text_round_trip(self_addr, r.addr_text@);
}

/// Why what a zone server answered is of no use.
#[derive(Debug, Clone, Copy, PartialEq, Eq, Structural)]
pub enum EnrollError {
    AnchorLength,
    KeyLength,
    SignatureLength,
    /// The authority's key is none.
    BadAnchor,
}

/// Why what a zone server answered is of no use.
pub open spec fn enroll_fault(anchor: Seq<u8>, key: Seq<u8>, sig: Seq<u8>) -> Option<EnrollError> {
    if anchor.len() != 32 {
        Some(EnrollError::AnchorLength)
    } else if key.len() != 32 {
        Some(EnrollError::KeyLength)
    } else if sig.len() != 64 {
        Some(EnrollError::SignatureLength)
    } else if !crypto::is_public_key(anchor) {
        Some(EnrollError::BadAnchor)
    } else {
        None
    }
}

/// What came of an enrolment.
pub struct Enrolled {
    pub host: HostIdentity,
    pub trust: TrustAnchor,
    /// What is kept for the next time.
    pub cache: Vec<u8>,
}

/// Takes what a zone server answered: the authority's key, and the key, the
/// expiry and the signature of a certificate for the node.
pub fn enroll_reply(
    self_addr: IPv8Address,
    ed_seed: [u8; 32],
    anchor: &[u8],
    verify_key: &[u8],
    not_after: u64,
    ca_sig: &[u8],
) -> (r: Result<Enrolled, EnrollError>)
    ensures
        match r {
            Err(e) => enroll_fault(anchor@, verify_key@, ca_sig@) == Some(e),
            Ok(v) => {
                &&& enroll_fault(anchor@, verify_key@, ca_sig@) is None
                &&& v.host.addr == self_addr
                &&& v.host.ed_seed == ed_seed
                &&& v.host.cert.addr == self_addr
                &&& v.host.cert.verify_key@ == verify_key@
                &&& v.host.cert.not_after == not_after
                &&& v.host.cert.ca_sig@ == ca_sig@
                &&& v.trust@ == anchor@
                &&& v.cache@ == cache_wire(anchor@, v.host.cert.wire())
            },
        },
{
    if anchor.len() != 32 {
        return Err(EnrollError::AnchorLength);
    }
    if verify_key.len() != 32 {
        return Err(EnrollError::KeyLength);
    }
    if ca_sig.len() != 64 {
        return Err(EnrollError::SignatureLength);
    }
    let ca = wire::array32(anchor);
    assert(ca@ =~= anchor@);
    let c = Cert { addr: self_addr, verify_key: wire::array32(verify_key), not_after, ca_sig: wire::array64(ca_sig) };
    match TrustAnchor::from_bytes(ca) {
        Some(trust) => {
            let cache = cache_bytes(&ca, &c);
            Ok(Enrolled { host: HostIdentity::with_cert(self_addr, ed_seed, c), trust, cache })
        },
        None => Err(EnrollError::BadAnchor),
    }
}

/// A kept certificate: a mark of four bytes, the version, the key of the authority,
/// and the certificate.
pub proof fn cache_format(ca: Seq<u8>, c: Cert)
    requires
        ca.len() == 32,
    ensures
        ({
            let b = cache_wire(ca, c.wire());
            &&& b.len() == 157
            &&& vstd::utf8::encode_utf8("IP8C"@) == b.subrange(0, 4)
            &&& b[4] == 1
            &&& b.subrange(5, 37) == ca
            &&& b.subrange(37, 157) == c.wire()
        }),
{
    let b = cache_wire(ca, c.wire());
    crate::codec::header::address_wire_len(c.addr);
    assert(b.subrange(5, 37) =~= ca);
    assert(b.subrange(37, 157) =~= c.wire());
    reveal_strlit("IP8C");
    vstd::utf8::is_ascii_chars_encode_utf8("IP8C"@);
    assert(vstd::utf8::encode_utf8("IP8C"@) =~= b.subrange(0, 4));
}

/// When a kept certificate is used: where it is for this address and this key, of
/// the authority that it names, and not over.
pub proof fn used_certificate_is_good(raw: Seq<u8>, addr: IPv8Address, ed_seed: Seq<u8>, now: u64)
    requires
        usable(raw, addr, ed_seed, now),
    ensures
        raw.len() == 157,
        raw[4] == 1,
        crate::codec::header::address_of_wire(raw.subrange(37, 53)) == addr,
        raw.subrange(53, 85) == crypto::public_key_of(ed_seed),
        crypto::signature_holds(raw.subrange(5, 37), raw.subrange(37, 93), raw.subrange(93, 157)),
        now <= crate::codec::formats::eight(raw, 85),
{
    let c = raw.subrange(37, 157);
    assert(c.subrange(0, 16) =~= raw.subrange(37, 53));
    assert(c.subrange(16, 48) =~= raw.subrange(53, 85));
    assert(c.subrange(0, 56) =~= raw.subrange(37, 93));
    assert(c.subrange(56, 120) =~= raw.subrange(93, 157));
    crate::codec::formats::numbers_are_read(c, 48);
    assert(crate::codec::formats::eight(c, 48) == crate::codec::formats::eight(raw, 85));
    assert(raw.subrange(0, 5)[4] == raw[4]);
}

/// Which answers to an enrolment are refused.
pub proof fn refused_answers(anchor: Seq<u8>, key: Seq<u8>, sig: Seq<u8>)
    ensures
        enroll_fault(anchor, key, sig) is None <==> anchor.len() == 32 && key.len() == 32 && sig.len() == 64
            && crypto::is_public_key(anchor),
        enroll_fault(anchor, key, sig) == Some(EnrollError::AnchorLength) <==> anchor.len() != 32,
        enroll_fault(anchor, key, sig) == Some(EnrollError::KeyLength) <==> anchor.len() == 32 && key.len() != 32,
        enroll_fault(anchor, key, sig) == Some(EnrollError::SignatureLength) <==> anchor.len() == 32 && key.len() == 32
            && sig.len() != 64,
{
}

} // verus!
