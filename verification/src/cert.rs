//! Certificates that bind an address to a signing key.

use vstd::prelude::*;
use crate::codec::formats;
use crate::codec::header;
use crate::codec::header::IPv8Address;
use crate::crypto;
use crate::wire;

verus! {

/// Length of a certificate on the wire.
pub const CERT_BODY_LEN: usize = 120;

/// Length of what a certificate's signature is over.
pub const CERT_TBS_LEN: usize = 56;

/// A time of expiry that never comes.
pub const NO_EXPIRY: u64 = u64::MAX;

/// That `addr` belongs to the holder of `verify_key`, until `not_after`, in
/// seconds since the epoch.
#[derive(Debug, Clone, Copy, PartialEq, Eq)]
pub struct Cert {
    pub addr: IPv8Address,
    pub verify_key: [u8; 32],
    pub not_after: u64,
    /// The authority's signature.
    pub ca_sig: [u8; 64],
}

/// What a certificate's signature is over.
pub open spec fn tbs(addr: IPv8Address, key: Seq<u8>, not_after: u64) -> Seq<u8> {
    addr.bytes() + key + wire::be64(not_after)
}

impl Cert {
    /// What the signature is over.
    pub open spec fn body(self) -> Seq<u8> {
        tbs(self.addr, self.verify_key@, self.not_after)
    }

    /// The certificate on the wire.
    pub open spec fn wire(self) -> Seq<u8> {
        self.body() + self.ca_sig@
    }

    /// Whether the authority with key `ca` vouches for the certificate at
    /// time `now`.
    pub open spec fn good(self, ca: Seq<u8>, now: u64) -> bool {
        crypto::signature_holds(ca, self.body(), self.ca_sig@) && now <= self.not_after
    }
}

/// Whether wire bytes are a certificate: 120 bytes with an address whose
/// reserved bytes are zero.
pub open spec fn is_cert(b: Seq<u8>) -> bool {
    b.len() == CERT_BODY_LEN && b.subrange(13, 16) == wire::zeros(3)
}

/// Whether a certificate has the contents of wire bytes.
pub open spec fn reads_as(b: Seq<u8>, c: Cert) -> bool {
    &&& c.addr == header::address_of_wire(b.subrange(0, 16))
    &&& c.verify_key@ == b.subrange(16, 48)
    &&& c.not_after == wire::be64_at(b, 48)
    &&& c.ca_sig@ == b.subrange(56, 120)
}

/// What a certificate's signature is over.
fn tbs_bytes(addr: &IPv8Address, key: &[u8; 32], not_after: u64) -> (b: Vec<u8>)
    ensures
        b@ == tbs(*addr, key@, not_after),
{
    let mut b: Vec<u8> = Vec::new();
    let a = addr.to_bytes();
    wire::put_bytes(&mut b, a.as_slice());
    wire::put_bytes(&mut b, key.as_slice());
    wire::put_be64(&mut b, not_after);
    assert(b@ =~= tbs(*addr, key@, not_after));
    b
}

/// Writes a certificate.
pub fn cert_to_bytes(cert: &Cert) -> (b: Vec<u8>)
    ensures
        b@ == cert.wire(),
{
    let mut b = tbs_bytes(&cert.addr, &cert.verify_key, cert.not_after);
    wire::put_bytes(&mut b, cert.ca_sig.as_slice());
    assert(b@ =~= cert.wire());
    b
}

/// Reads a certificate.
pub fn cert_from_bytes(b: &[u8]) -> (r: Option<Cert>)
    ensures
        match r {
            Some(c) => is_cert(b@) && reads_as(b@, c),
            None => !is_cert(b@),
        },
{
    if b.len() != CERT_BODY_LEN {
        return None;
    }
    if b[13] != 0 || b[14] != 0 || b[15] != 0 {
        proof {
            let t = b@.subrange(13, 16);
            assert(t[0] == b@[13] && t[1] == b@[14] && t[2] == b@[15]);
        }
        return None;
    }
    assert(b@.subrange(13, 16) =~= wire::zeros(3));
    let addr = header::read_address(vstd::slice::slice_subrange(b, 0, 16));
    let verify_key = wire::array32(vstd::slice::slice_subrange(b, 16, 48));
    let not_after: u64 = wire::get_be64(b, 48);
    let ca_sig = wire::array64(vstd::slice::slice_subrange(b, 56, 120));
    assert(verify_key@ =~= b@.subrange(16, 48));
    assert(ca_sig@ =~= b@.subrange(56, 120));
    Some(Cert { addr, verify_key, not_after, ca_sig })
}

/// An authority that issues certificates.
pub struct CertAuthority {
    seed: [u8; 32],
}

impl View for CertAuthority {
    type V = Seq<u8>;

    /// The seed of the authority's key.
    closed spec fn view(&self) -> Seq<u8> {
        self.seed@
    }
}

impl CertAuthority {
    /// The authority with the key of a seed.
    pub fn from_seed(seed: [u8; 32]) -> (ca: Self)
        ensures
            ca@ == seed@,
    {
        CertAuthority { seed }
    }

    /// The key to check certificates with.
    pub fn public_key(&self) -> (key: [u8; 32])
        ensures
            key@ == crypto::public_key_of(self@),
            crypto::is_public_key(key@),
    {
        crypto::public_key(&self.seed)
    }

    /// Issues a certificate. Whoever trusts the authority accepts it until it
    /// expires and not after that, except where its signature starts with the
    /// neutral point.
    pub fn issue(&self, addr: IPv8Address, verify_key: [u8; 32], not_after: u64) -> (c: Cert)
        ensures
            c.addr == addr,
            c.verify_key == verify_key,
            c.not_after == not_after,
            c.ca_sig@ == crypto::signature_of(self@, c.body()),
            crypto::ordinary(c.ca_sig@) ==> forall|now: u64| #[trigger]
                c.good(crypto::public_key_of(self@), now) == (now <= c.not_after),
    {
        let b = tbs_bytes(&addr, &verify_key, not_after);
        let ca_sig = crypto::sign(&self.seed, b.as_slice());
        Cert { addr, verify_key, not_after, ca_sig }
    }
}

/// Why a certificate is turned down.
#[derive(Debug, Clone, Copy, PartialEq, Eq, Structural)]
pub enum CertError {
    /// The authority has not signed it.
    BadSignature,
    /// It has expired.
    Expired,
}

/// What is said of a certificate, given whether its signature holds.
pub open spec fn verdict(signed: bool, not_after: u64, now: u64) -> Result<(), CertError> {
    if !signed {
        Err(CertError::BadSignature)
    } else if now > not_after {
        Err(CertError::Expired)
    } else {
        Ok(())
    }
}

/// What to say of a certificate, given whether its signature holds.
pub fn cert_verdict(signed: bool, not_after: u64, now: u64) -> (r: Result<(), CertError>)
    ensures
        r == verdict(signed, not_after, now),
{
    if !signed {
        Err(CertError::BadSignature)
    } else if now > not_after {
        Err(CertError::Expired)
    } else {
        Ok(())
    }
}

/// The key of an authority that is trusted.
#[derive(Debug, Clone, Copy, PartialEq, Eq)]
pub struct TrustAnchor {
    key: [u8; 32],
}

impl View for TrustAnchor {
    type V = Seq<u8>;

    /// The authority's public key.
    closed spec fn view(&self) -> Seq<u8> {
        self.key@
    }
}

impl TrustAnchor {
    /// Trusts the authority with a public key; `None` where the bytes are no
    /// key.
    pub fn from_bytes(key: [u8; 32]) -> (r: Option<Self>)
        ensures
            r is Some == crypto::is_public_key(key@),
            r is Some ==> r->0@ == key@,
    {
        if crypto::valid_key(&key) {
            Some(TrustAnchor { key })
        } else {
            None
        }
    }

    /// Checks a certificate.
    pub fn verify(&self, cert: &Cert, now: u64) -> (r: Result<(), CertError>)
        ensures
            r == verdict(crypto::signature_holds(self@, cert.body(), cert.ca_sig@), cert.not_after, now),
            r is Ok == cert.good(self@, now),
    {
        let b = tbs_bytes(&cert.addr, &cert.verify_key, cert.not_after);
        cert_verdict(crypto::verify(&self.key, b.as_slice(), &cert.ca_sig), cert.not_after, now)
    }
}

/// A node's address, the seed of its key and its certificate.
#[derive(Debug, Clone, Copy)]
pub struct HostIdentity {
    pub addr: IPv8Address,
    pub ed_seed: [u8; 32],
    pub cert: Cert,
}

impl HostIdentity {
    /// An identity with a certificate that was issued elsewhere.
    pub fn with_cert(addr: IPv8Address, ed_seed: [u8; 32], cert: Cert) -> (h: Self)
        ensures
            h.addr == addr,
            h.ed_seed == ed_seed,
            h.cert == cert,
    {
        HostIdentity { addr, ed_seed, cert }
    }
}

/// The public key of a seed.
pub fn verify_key_from_seed(ed_seed: [u8; 32]) -> (key: [u8; 32])
    ensures
        key@ == crypto::public_key_of(ed_seed@),
        crypto::is_public_key(key@),
{
    crypto::public_key(&ed_seed)
}

/// An identity with a certificate from `ca`.
pub fn provision(ca: &CertAuthority, addr: IPv8Address, ed_seed: [u8; 32], not_after: u64) -> (h: HostIdentity)
    ensures
        h.addr == addr,
        h.ed_seed == ed_seed,
        h.cert.addr == addr,
        h.cert.verify_key@ == crypto::public_key_of(ed_seed@),
        h.cert.not_after == not_after,
        h.cert.ca_sig@ == crypto::signature_of(ca@, h.cert.body()),
        crypto::ordinary(h.cert.ca_sig@) ==> forall|now: u64| #[trigger]
            h.cert.good(crypto::public_key_of(ca@), now) == (now <= not_after),
{
    let cert = ca.issue(addr, verify_key_from_seed(ed_seed), not_after);
    HostIdentity::with_cert(addr, ed_seed, cert)
}

/// Whether a certificate on the wire binds `addr` to `key` at time `now`.
pub open spec fn binds(ca: Seq<u8>, b: Seq<u8>, addr: IPv8Address, key: Seq<u8>, now: u64) -> bool {
    &&& is_cert(b)
    &&& header::address_of_wire(b.subrange(0, 16)) == addr
    &&& b.subrange(16, 48) == key
    &&& crypto::signature_holds(ca, b.subrange(0, 56), b.subrange(56, 120))
    &&& now <= wire::be64_at(b, 48)
}

/// The key in a certificate on the wire.
pub fn cert_pubkey_from_wire(b: &[u8]) -> (r: Option<[u8; 32]>)
    ensures
        match r {
            Some(k) => is_cert(b@) && k@ == b@.subrange(16, 48),
            None => !is_cert(b@),
        },
{
    match cert_from_bytes(b) {
        Some(c) => Some(c.verify_key),
        None => None,
    }
}

/// Whether a certificate on the wire binds `addr` to `key` at time `now`,
/// given whether its signature holds.
pub fn binding_given(signed: bool, b: &[u8], addr: &IPv8Address, key: &[u8; 32], now: u64) -> (r: bool)
    ensures
        r == (is_cert(b@) && header::address_of_wire(b@.subrange(0, 16)) == *addr && b@.subrange(16, 48) == key@
            && signed && now <= wire::be64_at(b@, 48)),
{
    match cert_from_bytes(b) {
        Some(c) => header::same_address(&c.addr, addr) && wire::same_bytes(c.verify_key.as_slice(), key.as_slice())
            && signed && now <= c.not_after,
        None => false,
    }
}

/// Whether a certificate on the wire binds `addr` to `key` at time `now`.
pub fn cert_binding_ok(ca: &[u8; 32], b: &[u8], addr: &IPv8Address, key: &[u8; 32], now: u64) -> (r: bool)
    ensures
        r == binds(ca@, b@, *addr, key@, now),
{
    if b.len() != CERT_BODY_LEN {
        return false;
    }
    let sig = wire::array64(vstd::slice::slice_subrange(b, CERT_TBS_LEN, CERT_BODY_LEN));
    assert(sig@ =~= b@.subrange(56, 120));
    let signed = crypto::verify(ca, vstd::slice::slice_subrange(b, 0, CERT_TBS_LEN), &sig);
    binding_given(signed, b, addr, key, now)
}

/// A certificate that was written is read back as it was.
pub proof fn cert_round_trip(c: Cert, d: Cert)
    requires
        c.addr.wf(),
        reads_as(c.wire(), d),
    ensures
        is_cert(c.wire()),
        d.addr == c.addr,
        d.verify_key@ == c.verify_key@,
        d.not_after == c.not_after,
        d.ca_sig@ == c.ca_sig@,
        d.wire() == c.wire(),
{
    let b = c.wire();
    header::address_wire_len(c.addr);
    header::address_wire_tail(c.addr);
    header::address_wire_round_trip(c.addr);
    assert(b.subrange(0, 16) =~= c.addr.wire());
    assert(b.subrange(13, 16) =~= wire::zeros(3));
    assert(b.subrange(16, 48) =~= c.verify_key@);
    assert(b.subrange(56, 120) =~= c.ca_sig@);
    assert(b.subrange(48, 56) =~= wire::be64(c.not_after));
    wire::be64_round_trip(c.not_after, b, 48);
}

/// A certificate that is accepted binds its own address to its own key, and
/// nothing else.
pub proof fn good_cert_binds(ca: Seq<u8>, c: Cert, addr: IPv8Address, key: Seq<u8>, now: u64)
    requires
        c.addr.wf(),
        key.len() == 32,
    ensures
        binds(ca, c.wire(), addr, key, now) == (c.good(ca, now) && addr == c.addr && key == c.verify_key@),
{
    let b = c.wire();
    header::address_wire_len(c.addr);
    header::address_wire_tail(c.addr);
    header::address_wire_round_trip(c.addr);
    assert(b.subrange(0, 16) =~= c.addr.wire());
    assert(b.subrange(13, 16) =~= wire::zeros(3));
    assert(b.subrange(16, 48) =~= c.verify_key@);
    assert(b.subrange(0, 56) =~= c.body());
    assert(b.subrange(56, 120) =~= c.ca_sig@);
    assert(b.subrange(48, 56) =~= wire::be64(c.not_after));
    wire::be64_round_trip(c.not_after, b, 48);
}

/// A certificate on the wire: the address, the key, the time at which it ends, and
/// the signature of the authority over all that.
pub proof fn cert_format(c: Cert)
    ensures
        ({
            let w = c.wire();
            &&& w.len() == 120
            &&& w.subrange(0, 16) == c.addr.bytes()
            &&& w.subrange(16, 48) == c.verify_key@
            &&& formats::eight(w, 48) == c.not_after
            &&& w.subrange(56, 120) == c.ca_sig@
            &&& w.subrange(0, 56) == c.body()
        }),
{
    header::address_wire_len(c.addr);
    formats::numbers_are_written(0, 0, c.not_after);
    let w = c.wire();
    assert(w.subrange(0, 16) =~= c.addr.bytes());
    assert(w.subrange(16, 48) =~= c.verify_key@);
    assert(w.subrange(56, 120) =~= c.ca_sig@);
    assert(w.subrange(0, 56) =~= c.body());
    assert(forall|k: int| 0 <= k < 8 ==> w[48 + k] == wire::be64(c.not_after)[k]);
}

/// What is a certificate, and what it says: 120 bytes whose address has no
/// reserved bytes.
pub proof fn cert_is_read(b: Seq<u8>, c: Cert)
    ensures
        is_cert(b) <==> b.len() == 120 && b[13] == 0 && b[14] == 0 && b[15] == 0,
        is_cert(b) && reads_as(b, c) ==> {
            &&& c.addr.asn == formats::four(b, 0)
            &&& c.addr.host_id == formats::four(b, 4)
            &&& c.addr.device_id == formats::two(b, 8)
            &&& c.addr.cap_tag == formats::two(b, 10)
            &&& c.addr.sec_level == b[12]
            &&& c.verify_key@ == b.subrange(16, 48)
            &&& c.not_after == formats::eight(b, 48)
            &&& c.ca_sig@ == b.subrange(56, 120)
        },
{
    let t = b.subrange(13, 16);
    if b.len() == 120 {
        assert(t[0] == b[13] && t[1] == b[14] && t[2] == b[15]);
        if b[13] == 0 && b[14] == 0 && b[15] == 0 {
            assert(t =~= wire::zeros(3));
        }
    }
    formats::address_is_read(b.subrange(0, 16));
    formats::numbers_are_read(b, 48);
}

/// When a certificate is refused: where the signature is not that of the
/// authority, and else after its time, but not at that very time.
pub proof fn cert_verdicts(signed: bool, not_after: u64, now: u64)
    ensures
        !signed ==> verdict(signed, not_after, now) == Err::<(), CertError>(CertError::BadSignature),
        signed && now > not_after ==> verdict(signed, not_after, now) == Err::<(), CertError>(CertError::Expired),
        signed && now <= not_after ==> verdict(signed, not_after, now) is Ok,
{
}

/// What binds an address to a key: a certificate for both, signed by the authority,
/// that is not over.
pub proof fn what_binds(ca: Seq<u8>, b: Seq<u8>, addr: IPv8Address, key: Seq<u8>, now: u64)
    ensures
        binds(ca, b, addr, key, now) <==> {
            &&& b.len() == 120
            &&& b[13] == 0 && b[14] == 0 && b[15] == 0
            &&& header::address_of_wire(b.subrange(0, 16)) == addr
            &&& b.subrange(16, 48) == key
            &&& crypto::signature_holds(ca, b.subrange(0, 56), b.subrange(56, 120))
            &&& now <= formats::eight(b, 48)
        },
{
    formats::numbers_are_read(b, 48);
    let t = b.subrange(13, 16);
    if b.len() == 120 {
        assert(t[0] == b[13] && t[1] == b[14] && t[2] == b[15]);
        if b[13] == 0 && b[14] == 0 && b[15] == 0 {
            assert(t =~= wire::zeros(3));
        }
    }
}

} // verus!
