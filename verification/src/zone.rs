//! The zone server: certificates for whoever proves to hold a key, and tokens
//! that let the holder change it.

use vstd::prelude::*;
use vstd::string::StringExecFns;
use crate::cert;
use crate::cert::{Cert, CertAuthority};
use crate::codec::header;
use crate::codec::header::IPv8Address;
use crate::crypto;
use crate::pop;
use crate::table::Table;
use crate::text;
use crate::wire;

pub mod rpc;

verus! {

/// How long certificates hold unless asked otherwise: 90 days, in seconds.
pub const DEFAULT_VALIDITY_SECS: u64 = 7_776_000;

/// How long tokens hold: a day, in seconds.
pub const DEFAULT_TOKEN_TTL_SECS: u64 = 86_400;

/// Why the server refuses.
#[derive(Debug, Clone, PartialEq, Eq)]
pub enum ZoneError {
    /// The text is no address.
    BadAddress,
    /// The key or the signature is not as long as it must be, or the key is
    /// none.
    BadKeyLength,
    /// The proof does not show that the key is held.
    BadProof,
    /// The address is another key's.
    AlreadyRegistered { addr: IPv8Address },
    /// The address is nobody's.
    NotRegistered { addr: IPv8Address },
    /// The token is not the server's, or malformed.
    BadToken,
    /// The token has gone stale.
    TokenExpired { exp: u64, now: u64 },
    /// The token is about another address.
    TokenMismatch,
}

/// What a registration gives.
#[derive(Debug, Clone, PartialEq, Eq)]
pub struct Issued {
    pub cert: Cert,
    pub jwt: String,
}

/// The server's state: seed of its key, key of its tokens, and the key of each
/// address.
pub ghost struct ZoneView {
    pub ca: Seq<u8>,
    pub jwt_key: Seq<u8>,
    pub keys: Map<IPv8Address, [u8; 32]>,
}

/// The zone server.
pub struct ZoneServer {
    ca: CertAuthority,
    jwt_key: [u8; 32],
    records: Table<IPv8Address, [u8; 32]>,
}

impl View for ZoneServer {
    type V = ZoneView;

    closed spec fn view(&self) -> ZoneView {
        ZoneView { ca: self.ca@, jwt_key: self.jwt_key@, keys: self.records@ }
    }
}

/// The message that proves to hold a key for an address.
pub open spec fn register_message(addr: Seq<char>, key: Seq<u8>) -> Seq<u8> {
    pop::message(pop::REGISTER_DOMAIN@, pop::utf8(addr), key)
}

/// The message that proves to hold a new key for an address.
pub open spec fn rotate_message(addr: Seq<char>, key: Seq<u8>) -> Seq<u8> {
    pop::message(pop::ROTATE_DOMAIN@, pop::utf8(addr), key)
}

impl ZoneServer {
    /// The message that proves to hold a key for an address.
    pub fn register_msg(addr_text: &str, ed_pub: &[u8]) -> (m: Vec<u8>)
        ensures
            m@ == register_message(addr_text@, ed_pub@),
    {
        pop::join(pop::REGISTER_DOMAIN, addr_text.as_bytes(), ed_pub)
    }

    /// The message that proves to hold a new key for an address.
    pub fn rotate_msg(addr_text: &str, new_ed_pub: &[u8]) -> (m: Vec<u8>)
        ensures
            m@ == rotate_message(addr_text@, new_ed_pub@),
    {
        pop::join(pop::ROTATE_DOMAIN, addr_text.as_bytes(), new_ed_pub)
    }

    /// Signs a message with the key of a seed.
    pub fn pop_sign(ed_seed: &[u8; 32], msg: &[u8]) -> (sig: [u8; 64])
        ensures
            sig@ == crypto::signature_of(ed_seed@, msg@),
            crypto::ordinary(sig@) ==> crypto::signature_holds(crypto::public_key_of(ed_seed@), msg@, sig@),
    {
        crypto::sign(ed_seed, msg)
    }
}

/// The header of every token.
pub open spec fn token_header() -> Seq<char> {
    "{\"alg\":\"HS256\",\"typ\":\"JWT\"}"@
}

/// The part of a token that is authenticated.
pub open spec fn signing_input(sub: Seq<char>, iat: u64, exp: u64) -> Seq<char> {
    crypto::base64_of(pop::utf8(token_header())) + seq!['.'] + crypto::base64_of(
        pop::utf8(crypto::claims_text(sub, iat, exp)),
    )
}

/// The token for a subject, which is given as a JSON string.
pub open spec fn token_text(key: Seq<u8>, sub: Seq<char>, iat: u64, exp: u64) -> Seq<char> {
    signing_input(sub, iat, exp) + seq!['.'] + crypto::base64_of(
        crypto::hmac_of(key, pop::utf8(signing_input(sub, iat, exp))),
    )
}

/// The sum of two numbers, or the greatest number where it is beyond that.
pub open spec fn saturating(a: u64, b: u64) -> u64 {
    if a + b > u64::MAX {
        u64::MAX
    } else {
        (a + b) as u64
    }
}

/// Where the first dot stands, from `from` on; the length where there is none.
pub open spec fn dot_from(b: Seq<u8>, from: int) -> int
    decreases b.len() - from,
{
    if from >= b.len() || from < 0 {
        b.len() as int
    } else if b[from] == 46 {
        from
    } else {
        dot_from(b, from + 1)
    }
}

/// Whether bytes are three parts with a dot between each two.
pub open spec fn three_parts(b: Seq<u8>) -> bool {
    let d1 = dot_from(b, 0);
    let d2 = dot_from(b, d1 + 1);
    d1 < b.len() && d2 < b.len() && dot_from(b, d2 + 1) == b.len()
}

/// What claims say: whom a token is about and when it goes stale.
pub open spec fn claims_of(exp: Option<u64>, sub: Option<Seq<char>>, now: u64) -> Result<(Seq<char>, u64), ZoneError> {
    match exp {
        None => Err(ZoneError::BadToken),
        Some(e) => if now > e {
            Err(ZoneError::TokenExpired { exp: e, now })
        } else {
            match sub {
                None => Err(ZoneError::BadToken),
                Some(s) => Ok((s, e)),
            }
        },
    }
}

/// What a token says to the server with key `key` at time `now`.
pub open spec fn token_claims(key: Seq<u8>, b: Seq<u8>, now: u64) -> Result<(Seq<char>, u64), ZoneError> {
    let d1 = dot_from(b, 0);
    let d2 = dot_from(b, d1 + 1);
    if !three_parts(b) {
        Err(ZoneError::BadToken)
    } else if b.subrange(d2 + 1, b.len() as int) != pop::utf8(
        crypto::base64_of(crypto::hmac_of(key, b.subrange(0, d2))),
    ) {
        Err(ZoneError::BadToken)
    } else {
        match crypto::bytes_of_base64(b.subrange(d1 + 1, d2)) {
            None => Err(ZoneError::BadToken),
            Some(json) => claims_of(crypto::number_at(json, "exp"@), crypto::string_at(json, "sub"@), now),
        }
    }
}

/// Whether a registration is let in, and for which address, given whether the
/// key is one and the proof holds.
pub open spec fn admission(
    keys: Map<IPv8Address, [u8; 32]>,
    addr: Seq<char>,
    key: Seq<u8>,
    proof_len: nat,
    key_ok: bool,
    proof_ok: bool,
) -> Result<IPv8Address, ZoneError> {
    match header::address_of_text(addr) {
        Err(_) => Err(ZoneError::BadAddress),
        Ok(a) => if key.len() != 32 || !key_ok || proof_len != 64 {
            Err(ZoneError::BadKeyLength)
        } else if !proof_ok {
            Err(ZoneError::BadProof)
        } else if keys.contains_key(a) && keys[a]@ != key {
            Err(ZoneError::AlreadyRegistered { addr: a })
        } else {
            Ok(a)
        },
    }
}

/// Whether a change of key is let in, and for which address, given what the
/// token says, whether the key is one and the proof holds.
pub open spec fn rotation(
    keys: Map<IPv8Address, [u8; 32]>,
    token: Result<(Seq<char>, u64), ZoneError>,
    addr: Seq<char>,
    key: Seq<u8>,
    proof_len: nat,
    key_ok: bool,
    proof_ok: bool,
) -> Result<IPv8Address, ZoneError> {
    match token {
        Err(e) => Err(e),
        Ok((sub, _)) => if sub != addr {
            Err(ZoneError::TokenMismatch)
        } else {
            match header::address_of_text(addr) {
                Err(_) => Err(ZoneError::BadAddress),
                Ok(a) => if key.len() != 32 || !key_ok || proof_len != 64 {
                    Err(ZoneError::BadKeyLength)
                } else if !proof_ok {
                    Err(ZoneError::BadProof)
                } else if !keys.contains_key(a) {
                    Err(ZoneError::NotRegistered { addr: a })
                } else {
                    Ok(a)
                },
            }
        },
    }
}

/// Whether bytes are a key.
pub open spec fn key_ok(key: Seq<u8>) -> bool {
    key.len() == 32 && crypto::is_public_key(key)
}

/// Whether a certificate is what the authority `ca` issues.
pub open spec fn issued_by(ca: Seq<u8>, c: Cert, addr: IPv8Address, key: Seq<u8>, not_after: u64) -> bool {
    &&& c.addr == addr
    &&& c.verify_key@ == key
    &&& c.not_after == not_after
    &&& c.ca_sig@ == crypto::signature_of(ca, c.body())
    &&& crypto::ordinary(c.ca_sig@) ==> forall|t: u64| #[trigger]
        c.good(crypto::public_key_of(ca), t) == (t <= not_after)
}

/// Tells whether bytes are the same, in a time that depends on their number
/// alone.
fn ct_eq(a: &[u8], b: &[u8]) -> (r: bool)
    ensures
        r == (a@ == b@),
{
    if a.len() != b.len() {
        return false;
    }
    let mut diff: u8 = 0;
    let mut i: usize = 0;
    while i < a.len()
        invariant
            i <= a.len(),
            a@.len() == b@.len(),
            (diff == 0) == (forall|j: int| 0 <= j < i ==> #[trigger] a@[j] == b@[j]),
        decreases a.len() - i,
    {
        let x: u8 = a[i];
        let y: u8 = b[i];
        let d: u8 = diff;
        assert((d | (x ^ y)) == 0 <==> d == 0 && x == y) by (bit_vector);
        diff = d | (x ^ y);
        proof {
            if diff == 0 {
                assert forall|j: int| 0 <= j < i + 1 implies #[trigger] a@[j] == b@[j] by {}
            } else if d == 0 {
                assert(a@[i as int] != b@[i as int]);
            }
        }
        i = i + 1;
    }
    proof {
        if diff == 0 {
            assert(a@ =~= b@);
        }
    }
    diff == 0
}

/// Where the first dot stands, from `from` on.
fn find_dot(b: &[u8], from: usize) -> (d: usize)
    requires
        from <= b.len(),
    ensures
        d == dot_from(b@, from as int),
        from <= d <= b.len(),
        d < b.len() ==> b@[d as int] == 46,
{
    let mut i: usize = from;
    while i < b.len()
        invariant
            from <= i <= b.len(),
            dot_from(b@, from as int) == dot_from(b@, i as int),
        decreases b.len() - i,
    {
        if b[i] == 46 {
            return i;
        }
        i = i + 1;
    }
    i
}

/// What claims say.
pub fn check_claims(exp: Option<u64>, sub: Option<String>, now: u64) -> (r: Result<(String, u64), ZoneError>)
    ensures
        ({
            let s = match sub {
                Some(t) => Some(t@),
                None => None::<Seq<char>>,
            };
            match r {
                Ok((t, e)) => claims_of(exp, s, now) == Ok::<(Seq<char>, u64), ZoneError>((t@, e)),
                Err(e) => claims_of(exp, s, now) == Err::<(Seq<char>, u64), ZoneError>(e),
            }
        }),
{
    let e: u64 = match exp {
        Some(e) => e,
        None => {
            return Err(ZoneError::BadToken);
        },
    };
    if now > e {
        return Err(ZoneError::TokenExpired { exp: e, now });
    }
    match sub {
        Some(s) => Ok((s, e)),
        None => Err(ZoneError::BadToken),
    }
}

/// Whether 32 bytes are a key and a message is signed with it.
fn check_proof(key: &[u8], msg: &[u8], proof: &[u8]) -> (r: (bool, bool))
    ensures
        r.0 == key_ok(key@),
        key@.len() == 32 && proof@.len() == 64 ==> r.1 == crypto::signature_holds(key@, msg@, proof@),
{
    if key.len() != 32 {
        return (false, false);
    }
    let k = wire::array32(key);
    assert(k@ =~= key@);
    if proof.len() != 64 {
        return (crypto::valid_key(&k), false);
    }
    let s = wire::array64(proof);
    assert(s@ =~= proof@);
    (crypto::valid_key(&k), crypto::verify(&k, msg, &s))
}

/// The digits of an address need no escapes in JSON.
proof fn hex_is_plain(t: Seq<char>)
    requires
        text::all_hex(t),
    ensures
        crypto::is_plain(t),
{
    assert forall|i: int| 0 <= i < t.len() implies ' ' <= #[trigger] t[i] <= '~' && t[i] != '"' && t[i] != '\\' by {
        assert(text::is_hex(t[i]));
    }
}

/// Where the dots of a token stand.
proof fn token_dots(h: Seq<char>, p: Seq<char>, s: Seq<char>, b: Seq<u8>)
    requires
        forall|i: int| 0 <= i < h.len() ==> crypto::is_base64(#[trigger] h[i]),
        forall|i: int| 0 <= i < p.len() ==> crypto::is_base64(#[trigger] p[i]),
        forall|i: int| 0 <= i < s.len() ==> crypto::is_base64(#[trigger] s[i]),
        b == pop::utf8(h + seq!['.'] + p + seq!['.'] + s),
    ensures
        three_parts(b),
        dot_from(b, 0) == h.len(),
        dot_from(b, (h.len() + 1) as int) == h.len() + 1 + p.len(),
        b.len() == h.len() + p.len() + s.len() + 2,
        b.subrange(0, (h.len() + 1 + p.len()) as int) == pop::utf8(h + seq!['.'] + p),
        b.subrange((h.len() + 1) as int, (h.len() + 1 + p.len()) as int) == pop::utf8(p),
        b.subrange((h.len() + 2 + p.len()) as int, b.len() as int) == pop::utf8(s),
{
    let hp = h + seq!['.'] + p;
    let t = hp + seq!['.'] + s;
    assert(t =~= h + seq!['.'] + p + seq!['.'] + s);
    assert(text::all_ascii(h) && text::all_ascii(p) && text::all_ascii(s) && text::all_ascii(hp) && text::all_ascii(t));
    vstd::utf8::is_ascii_chars_encode_utf8(p);
    vstd::utf8::is_ascii_chars_encode_utf8(s);
    vstd::utf8::is_ascii_chars_encode_utf8(hp);
    vstd::utf8::is_ascii_chars_encode_utf8(t);
    let d1 = h.len() as int;
    let d2 = d1 + 1 + p.len();
    assert forall|i: int| 0 <= i < b.len() implies (#[trigger] b[i] == 46) == (i == d1 || i == d2) by {
        assert(b[i] == t[i] as u8);
        if i < d1 {
            assert(t[i] == h[i]);
        } else if d1 < i < d2 {
            assert(t[i] == p[i - d1 - 1]);
        } else if i > d2 {
            assert(t[i] == s[i - d2 - 1]);
        }
    }
    dot_is(b, 0, d1);
    dot_is(b, d1 + 1, d2);
    dot_is(b, d2 + 1, b.len() as int);
    assert(b.subrange(0, d2) =~= pop::utf8(hp)) by {
        assert forall|i: int| 0 <= i < d2 implies b[i] == pop::utf8(hp)[i] by {
            assert(t[i] == hp[i]);
        }
    }
    assert(b.subrange(d1 + 1, d2) =~= pop::utf8(p)) by {
        assert forall|i: int| 0 <= i < p.len() implies b[i + d1 + 1] == pop::utf8(p)[i] by {
            assert(t[i + d1 + 1] == p[i]);
        }
    }
    assert(b.subrange(d2 + 1, b.len() as int) =~= pop::utf8(s)) by {
        assert forall|i: int| 0 <= i < s.len() implies b[i + d2 + 1] == pop::utf8(s)[i] by {
            assert(t[i + d2 + 1] == s[i]);
        }
    }
}

/// The first dot is where there is none before it.
proof fn dot_is(b: Seq<u8>, from: int, d: int)
    requires
        0 <= from <= d <= b.len(),
        forall|i: int| from <= i < d ==> #[trigger] b[i] != 46,
        d < b.len() ==> b[d] == 46,
    ensures
        dot_from(b, from) == d,
    decreases d - from,
{
    if from < d {
        dot_is(b, from + 1, d);
    }
}

/// What a registration gives and changes.
pub open spec fn registers(
    v: ZoneView,
    addr: Seq<char>,
    key: Seq<u8>,
    proof_bytes: Seq<u8>,
    ttl: u64,
    now: u64,
    r: Result<Issued, ZoneError>,
    w: ZoneView,
) -> bool {
    let d = admission(
        v.keys,
        addr,
        key,
        proof_bytes.len(),
        key_ok(key),
        crypto::signature_holds(key, register_message(addr, key), proof_bytes),
    );
    match r {
        Ok(i) => {
            let exp = saturating(now, DEFAULT_TOKEN_TTL_SECS);
            &&& d is Ok
            &&& issued_by(v.ca, i.cert, d->Ok_0, key, saturating(now, ttl))
            &&& i.jwt@ == token_text(v.jwt_key, crypto::quoted(addr), now, exp)
            &&& forall|t: u64| #[trigger]
                token_claims(v.jwt_key, pop::utf8(i.jwt@), t) == claims_of(
                    Some(exp),
                    Some(addr),
                    t,
                )
            &&& w == (ZoneView {
                keys: v.keys.insert(d->Ok_0, i.cert.verify_key),
                ..v
            })
        },
        Err(e) => d == Err::<IPv8Address, ZoneError>(e) && w == v,
    }
}

/// What a change of key gives and changes.
pub open spec fn rotates(
    v: ZoneView,
    jwt: Seq<char>,
    addr: Seq<char>,
    key: Seq<u8>,
    proof_bytes: Seq<u8>,
    ttl: u64,
    now: u64,
    r: Result<Issued, ZoneError>,
    w: ZoneView,
) -> bool {
    let d = rotation(
        v.keys,
        token_claims(v.jwt_key, pop::utf8(jwt), now),
        addr,
        key,
        proof_bytes.len(),
        key_ok(key),
        crypto::signature_holds(key, rotate_message(addr, key), proof_bytes),
    );
    match r {
        Ok(i) => {
            &&& d is Ok
            &&& issued_by(v.ca, i.cert, d->Ok_0, key, saturating(now, ttl))
            &&& i.jwt@ == jwt
            &&& w == (ZoneView {
                keys: v.keys.insert(d->Ok_0, i.cert.verify_key),
                ..v
            })
        },
        Err(e) => d == Err::<IPv8Address, ZoneError>(e) && w == v,
    }
}

impl ZoneServer {
    /// Whether the records are well formed, as every function here leaves
    /// them.
    pub closed spec fn wf(&self) -> bool {
        self.records.wf()
    }

    /// A server with given secrets and no records.
    pub fn from_seeds(ca_seed: [u8; 32], jwt_key: [u8; 32]) -> (z: Self)
        ensures
            z.wf(),
            z@ == (ZoneView { ca: ca_seed@, jwt_key: jwt_key@, keys: Map::empty() }),
    {
        ZoneServer { ca: CertAuthority::from_seed(ca_seed), jwt_key, records: Table::new() }
    }

    /// A server with secrets from the operating system and no records.
    pub fn generate() -> (z: Self)
        ensures
            z.wf(),
            z@.keys == Map::<IPv8Address, [u8; 32]>::empty(),
    {
        let ca = crypto::random32();
        let jk = crypto::random32();
        Self::from_seeds(ca, jk)
    }

    /// The key that certificates are checked with.
    pub fn trust_anchor(&self) -> (key: [u8; 32])
        ensures
            key@ == crypto::public_key_of(self@.ca),
            crypto::is_public_key(key@),
    {
        self.ca.public_key()
    }

    /// Whether an address has a key.
    pub fn is_registered(&self, addr: IPv8Address) -> (r: bool)
        requires
            self.wf(),
        ensures
            r == self@.keys.contains_key(addr),
    {
        self.records.contains(&addr)
    }

    /// Whether a registration is let in, given whether the key is one and the
    /// proof holds.
    pub fn let_in(&self, addr_text: &str, ed_pub: &[u8], proof_len: usize, key_ok: bool, proof_ok: bool) -> (r: Result<
        IPv8Address,
        ZoneError,
    >)
        requires
            self.wf(),
        ensures
            r == admission(self@.keys, addr_text@, ed_pub@, proof_len as nat, key_ok, proof_ok),
    {
        let addr = match IPv8Address::from_canonical_str(addr_text) {
            Ok(a) => a,
            Err(_) => {
                return Err(ZoneError::BadAddress);
            },
        };
        if ed_pub.len() != 32 || !key_ok || proof_len != 64 {
            return Err(ZoneError::BadKeyLength);
        }
        if !proof_ok {
            return Err(ZoneError::BadProof);
        }
        match self.records.get(&addr) {
            Some(k) => if !wire::same_bytes(k.as_slice(), ed_pub) {
                return Err(ZoneError::AlreadyRegistered { addr });
            },
            None => {},
        }
        Ok(addr)
    }

    /// Whether a change of key is let in, given what the token says, whether
    /// the key is one and the proof holds.
    pub fn let_rotate(
        &self,
        token: Result<(String, u64), ZoneError>,
        addr_text: &str,
        ed_pub: &[u8],
        proof_len: usize,
        key_ok: bool,
        proof_ok: bool,
    ) -> (r: Result<IPv8Address, ZoneError>)
        requires
            self.wf(),
        ensures
            r == rotation(
                self@.keys,
                match token {
                    Ok((s, e)) => Ok((s@, e)),
                    Err(e) => Err(e),
                },
                addr_text@,
                ed_pub@,
                proof_len as nat,
                key_ok,
                proof_ok,
            ),
    {
        let (sub, _exp): (String, u64) = match token {
            Ok(t) => t,
            Err(e) => {
                return Err(e);
            },
        };
        if !text::same_text(sub.as_str(), addr_text) {
            return Err(ZoneError::TokenMismatch);
        }
        let addr = match IPv8Address::from_canonical_str(addr_text) {
            Ok(a) => a,
            Err(_) => {
                return Err(ZoneError::BadAddress);
            },
        };
        if ed_pub.len() != 32 || !key_ok || proof_len != 64 {
            return Err(ZoneError::BadKeyLength);
        }
        if !proof_ok {
            return Err(ZoneError::BadProof);
        }
        if !self.records.contains(&addr) {
            return Err(ZoneError::NotRegistered { addr });
        }
        Ok(addr)
    }

    /// Registers a key for an address: a certificate and a token for whoever
    /// proves to hold the key. Who holds the key already gets them anew.
    pub fn register(&mut self, addr_text: &str, ed_pub: &[u8], proof: &[u8], ttl_secs: u64, now: u64) -> (r: Result<
        Issued,
        ZoneError,
    >)
        requires
            old(self).wf(),
        ensures
            final(self).wf(),
            registers(old(self)@, addr_text@, ed_pub@, proof@, ttl_secs, now, r, final(self)@),
    {
        let msg = ZoneServer::register_msg(addr_text, ed_pub);
        let (k_ok, p_ok): (bool, bool) = check_proof(ed_pub, msg.as_slice(), proof);
        let addr = match self.let_in(addr_text, ed_pub, proof.len(), k_ok, p_ok) {
            Ok(a) => a,
            Err(e) => {
                return Err(e);
            },
        };
        proof {
            hex_is_plain(addr_text@);
        }
        let key = wire::array32(ed_pub);
        assert(key@ =~= ed_pub@);
        let cert = self.ca.issue(addr, key, now.saturating_add(ttl_secs));
        let jwt = match self.issue_jwt(addr_text, now, DEFAULT_TOKEN_TTL_SECS) {
            Ok(j) => j,
            Err(e) => {
                return Err(e);
            },
        };
        self.records.insert(addr, key);
        Ok(Issued { cert, jwt })
    }

    /// Changes the key of an address, for whoever has a token for it and
    /// proves to hold the new key.
    pub fn rotate_key(
        &mut self,
        jwt: &str,
        addr_text: &str,
        new_ed_pub: &[u8],
        proof: &[u8],
        ttl_secs: u64,
        now: u64,
    ) -> (r: Result<Issued, ZoneError>)
        requires
            old(self).wf(),
        ensures
            final(self).wf(),
            rotates(old(self)@, jwt@, addr_text@, new_ed_pub@, proof@, ttl_secs, now, r, final(self)@),
    {
        let token = self.verify_token_claims(jwt, now);
        let msg = ZoneServer::rotate_msg(addr_text, new_ed_pub);
        let (k_ok, p_ok): (bool, bool) = check_proof(new_ed_pub, msg.as_slice(), proof);
        let addr = match self.let_rotate(token, addr_text, new_ed_pub, proof.len(), k_ok, p_ok) {
            Ok(a) => a,
            Err(e) => {
                return Err(e);
            },
        };
        let key = wire::array32(new_ed_pub);
        assert(key@ =~= new_ed_pub@);
        let cert = self.ca.issue(addr, key, now.saturating_add(ttl_secs));
        self.records.insert(addr, key);
        Ok(Issued { cert, jwt: jwt.to_owned() })
    }

    /// Makes a token for an address. The server takes it as its own until it
    /// goes stale, and reads the address and the time of expiry from it.
    pub fn issue_jwt(&self, addr_text: &str, now: u64, ttl_secs: u64) -> (r: Result<String, ZoneError>)
        ensures
            ({
                let exp = saturating(now, ttl_secs);
                match r {
                    Ok(j) => {
                        &&& crypto::json_of(addr_text@) is Some
                        &&& j@ == token_text(self@.jwt_key, crypto::json_of(addr_text@)->0, now, exp)
                        &&& forall|t: u64| #[trigger]
                            token_claims(self@.jwt_key, pop::utf8(j@), t) == claims_of(Some(exp), Some(addr_text@), t)
                    },
                    Err(e) => crypto::json_of(addr_text@) is None && e == ZoneError::BadToken,
                }
            }),
            crypto::is_plain(addr_text@) ==> r is Ok && crypto::json_of(addr_text@) == Some(crypto::quoted(addr_text@)),
    {
        let sub = match crypto::json_string(addr_text) {
            Some(s) => s,
            None => {
                return Err(ZoneError::BadToken);
            },
        };
        let exp: u64 = now.saturating_add(ttl_secs);
        let mut claims = String::new();
        claims.append("{\"sub\":");
        claims.append(sub.as_str());
        claims.append(",\"iat\":");
        text::push_decimal(&mut claims, now);
        claims.append(",\"exp\":");
        text::push_decimal(&mut claims, exp);
        claims.append("}");
        assert(claims@ =~= crypto::claims_text(sub@, now, exp));
        let header = crypto::b64("{\"alg\":\"HS256\",\"typ\":\"JWT\"}".as_bytes());
        let payload = crypto::b64(claims.as_str().as_bytes());
        let mut token = String::new();
        token.append(header.as_str());
        token.append(".");
        token.append(payload.as_str());
        proof {
            reveal_strlit(".");
            assert("."@ =~= seq!['.']);
            assert(token@ =~= signing_input(sub@, now, exp));
        }
        let code = crypto::hmac256(self.jwt_key.as_slice(), token.as_str().as_bytes());
        let sig = crypto::b64(code.as_slice());
        token.append(".");
        token.append(sig.as_str());
        proof {
            assert(token@ =~= token_text(self@.jwt_key, sub@, now, exp));
            assert(token@ =~= header@ + seq!['.'] + payload@ + seq!['.'] + sig@);
            token_dots(header@, payload@, sig@, pop::utf8(token@));
            assert(signing_input(sub@, now, exp) =~= header@ + seq!['.'] + payload@);
        }
        Ok(token)
    }

    /// Whom a token is about.
    pub fn verify_token(&self, jwt: &str, now: u64) -> (r: Result<String, ZoneError>)
        ensures
            match r {
                Ok(s) => token_claims(self@.jwt_key, pop::utf8(jwt@), now) is Ok && token_claims(
                    self@.jwt_key,
                    pop::utf8(jwt@),
                    now,
                )->Ok_0.0 == s@,
                Err(e) => token_claims(self@.jwt_key, pop::utf8(jwt@), now) == Err::<(Seq<char>, u64), ZoneError>(e),
            },
    {
        match self.verify_token_claims(jwt, now) {
            Ok((s, _)) => Ok(s),
            Err(e) => Err(e),
        }
    }

    /// Whom a token is about and when it goes stale.
    pub fn verify_token_claims(&self, jwt: &str, now: u64) -> (r: Result<(String, u64), ZoneError>)
        ensures
            match r {
                Ok((s, e)) => token_claims(self@.jwt_key, pop::utf8(jwt@), now) == Ok::<(Seq<char>, u64), ZoneError>(
                    (s@, e),
                ),
                Err(e) => token_claims(self@.jwt_key, pop::utf8(jwt@), now) == Err::<(Seq<char>, u64), ZoneError>(e),
            },
    {
        let b: &[u8] = jwt.as_bytes();
        let d1: usize = find_dot(b, 0);
        if d1 == b.len() {
            return Err(ZoneError::BadToken);
        }
        let d2: usize = find_dot(b, d1 + 1);
        if d2 == b.len() {
            return Err(ZoneError::BadToken);
        }
        if find_dot(b, d2 + 1) != b.len() {
            return Err(ZoneError::BadToken);
        }
        let code = crypto::hmac256(self.jwt_key.as_slice(), vstd::slice::slice_subrange(b, 0, d2));
        let expect = crypto::b64(code.as_slice());
        if !ct_eq(expect.as_str().as_bytes(), vstd::slice::slice_subrange(b, d2 + 1, b.len())) {
            return Err(ZoneError::BadToken);
        }
        let json = match crypto::unb64(vstd::slice::slice_subrange(b, d1 + 1, d2)) {
            Some(j) => j,
            None => {
                return Err(ZoneError::BadToken);
            },
        };
        check_claims(crypto::json_number(json.as_slice(), "exp"), crypto::json_field(json.as_slice(), "sub"), now)
    }
}

/// A registration replaces no key: the address that it lets in has none yet,
/// or the same.
pub proof fn registration_replaces_no_key(
    keys: Map<IPv8Address, [u8; 32]>,
    addr: Seq<char>,
    key: Seq<u8>,
    proof_len: nat,
    key_ok: bool,
    proof_ok: bool,
)
    requires
        admission(keys, addr, key, proof_len, key_ok, proof_ok) is Ok,
    ensures
        ({
            let a = admission(keys, addr, key, proof_len, key_ok, proof_ok)->Ok_0;
            keys.contains_key(a) ==> keys[a]@ == key
        }),
{
}

/// A change of key takes a token for that very address and a proof of the new
/// key.
pub proof fn rotation_takes_both(
    keys: Map<IPv8Address, [u8; 32]>,
    token: Result<(Seq<char>, u64), ZoneError>,
    addr: Seq<char>,
    key: Seq<u8>,
    proof_len: nat,
    key_ok: bool,
    proof_ok: bool,
)
    requires
        rotation(keys, token, addr, key, proof_len, key_ok, proof_ok) is Ok,
    ensures
        token is Ok && token->Ok_0.0 == addr,
        proof_ok && key_ok,
        keys.contains_key(rotation(keys, token, addr, key, proof_len, key_ok, proof_ok)->Ok_0),
{
}

/// The token of a registration lets its holder change the key as long as it
/// holds, with a proof of the new key.
pub proof fn issued_token_changes_the_key(
    v: ZoneView,
    addr: Seq<char>,
    key: Seq<u8>,
    proof_bytes: Seq<u8>,
    ttl: u64,
    now: u64,
    i: Issued,
    w: ZoneView,
    new_key: Seq<u8>,
    new_proof: Seq<u8>,
    new_ttl: u64,
    later: u64,
    r: Result<Issued, ZoneError>,
    x: ZoneView,
)
    requires
        registers(v, addr, key, proof_bytes, ttl, now, Ok(i), w),
        rotates(w, i.jwt@, addr, new_key, new_proof, new_ttl, later, r, x),
        later <= saturating(now, DEFAULT_TOKEN_TTL_SECS),
        key_ok(new_key),
        new_proof.len() == 64,
        crypto::signature_holds(new_key, rotate_message(addr, new_key), new_proof),
    ensures
        r is Ok,
        header::address_of_text(addr) is Ok,
        x.keys.contains_key(header::address_of_text(addr)->Ok_0),
        x.keys[header::address_of_text(addr)->Ok_0]@ == new_key,
{
    assert(token_claims(v.jwt_key, pop::utf8(i.jwt@), later) == claims_of(
        Some(saturating(now, DEFAULT_TOKEN_TTL_SECS)),
        Some(addr),
        later,
    ));
}

/// After a change of key, a registration of another key for the address is
/// refused, that of the key which was changed included.
pub proof fn changed_key_is_not_taken_back(
    v: ZoneView,
    jwt: Seq<char>,
    addr: Seq<char>,
    key: Seq<u8>,
    proof_bytes: Seq<u8>,
    ttl: u64,
    now: u64,
    i: Issued,
    w: ZoneView,
    other: Seq<u8>,
    other_proof: Seq<u8>,
    other_ttl: u64,
    later: u64,
    r: Result<Issued, ZoneError>,
    x: ZoneView,
)
    requires
        rotates(v, jwt, addr, key, proof_bytes, ttl, now, Ok(i), w),
        registers(w, addr, other, other_proof, other_ttl, later, r, x),
        other != key,
    ensures
        r is Err,
        x == w,
{
}

/// Who is let in: whoever proves a good key of 32 bytes, for an address that has no
/// other key.
pub proof fn who_is_let_in(
    keys: Map<IPv8Address, [u8; 32]>,
    addr: Seq<char>,
    key: Seq<u8>,
    proof_len: nat,
    key_good: bool,
    proof_good: bool,
)
    ensures
        admission(keys, addr, key, proof_len, key_good, proof_good) is Ok <==> {
            &&& header::address_of_text(addr) is Ok
            &&& key.len() == 32 && key_good
            &&& proof_len == 64 && proof_good
            &&& keys.contains_key(header::address_of_text(addr)->Ok_0) ==> keys[header::address_of_text(addr)->Ok_0]@ == key
        },
        admission(keys, addr, key, proof_len, key_good, proof_good) matches Ok(a) ==> header::address_of_text(addr)
            == Ok::<IPv8Address, header::AddrParseError>(a),
{
}

/// Who changes a key: whoever proves a good key of 32 bytes and has a token for the
/// address, which is registered.
pub proof fn who_changes_a_key(
    keys: Map<IPv8Address, [u8; 32]>,
    token: Result<(Seq<char>, u64), ZoneError>,
    addr: Seq<char>,
    key: Seq<u8>,
    proof_len: nat,
    key_good: bool,
    proof_good: bool,
)
    ensures
        rotation(keys, token, addr, key, proof_len, key_good, proof_good) is Ok <==> {
            &&& token is Ok && token->Ok_0.0 == addr
            &&& header::address_of_text(addr) is Ok
            &&& key.len() == 32 && key_good
            &&& proof_len == 64 && proof_good
            &&& keys.contains_key(header::address_of_text(addr)->Ok_0)
        },
        rotation(keys, token, addr, key, proof_len, key_good, proof_good) matches Ok(a) ==> header::address_of_text(addr)
            == Ok::<IPv8Address, header::AddrParseError>(a),
{
}

/// What a registration gives: a certificate for that address and key, to the end of
/// the time asked for, and a token for the address that holds for a day; the key
/// is that of the address from then on, and no other address is touched.
pub proof fn registration_gives(
    v: ZoneView,
    addr: Seq<char>,
    key: Seq<u8>,
    proof_bytes: Seq<u8>,
    ttl: u64,
    now: u64,
    i: Issued,
    w: ZoneView,
    t: u64,
    other: IPv8Address,
)
    requires
        registers(v, addr, key, proof_bytes, ttl, now, Ok(i), w),
        now + ttl <= u64::MAX,
        now + 86_400 <= u64::MAX,
    ensures
        header::address_of_text(addr) == Ok::<IPv8Address, header::AddrParseError>(i.cert.addr),
        i.cert.verify_key@ == key,
        i.cert.not_after == now + ttl,
        i.cert.ca_sig@ == crypto::signature_of(v.ca, i.cert.body()),
        t <= now + 86_400 ==> token_claims(v.jwt_key, pop::utf8(i.jwt@), t) == Ok::<(Seq<char>, u64), ZoneError>(
            (addr, (now + 86_400) as u64),
        ),
        t > now + 86_400 ==> token_claims(v.jwt_key, pop::utf8(i.jwt@), t) == Err::<(Seq<char>, u64), ZoneError>(
            ZoneError::TokenExpired { exp: (now + 86_400) as u64, now: t },
        ),
        w.keys.contains_key(i.cert.addr) && w.keys[i.cert.addr]@ == key,
        other != i.cert.addr ==> w.keys.contains_key(other) == v.keys.contains_key(other) && (v.keys.contains_key(other)
            ==> w.keys[other] == v.keys[other]),
        w.ca == v.ca && w.jwt_key == v.jwt_key,
        crypto::signature_holds(
            key,
            vstd::utf8::encode_utf8("ipv8plus-register"@) + vstd::utf8::encode_utf8(addr) + key,
            proof_bytes,
        ),
{
    assert(token_claims(v.jwt_key, pop::utf8(i.jwt@), t) == claims_of(Some((now + 86_400) as u64), Some(addr), t));
}

/// What a change of key gives: a certificate for the same address and the new key,
/// and the token that it was asked with; no other address is touched.
pub proof fn rotation_gives(
    v: ZoneView,
    jwt: Seq<char>,
    addr: Seq<char>,
    key: Seq<u8>,
    proof_bytes: Seq<u8>,
    ttl: u64,
    now: u64,
    i: Issued,
    w: ZoneView,
    other: IPv8Address,
)
    requires
        rotates(v, jwt, addr, key, proof_bytes, ttl, now, Ok(i), w),
        now + ttl <= u64::MAX,
    ensures
        header::address_of_text(addr) == Ok::<IPv8Address, header::AddrParseError>(i.cert.addr),
        v.keys.contains_key(i.cert.addr),
        i.cert.verify_key@ == key,
        i.cert.not_after == now + ttl,
        i.cert.ca_sig@ == crypto::signature_of(v.ca, i.cert.body()),
        i.jwt@ == jwt,
        w.keys.contains_key(i.cert.addr) && w.keys[i.cert.addr]@ == key,
        other != i.cert.addr ==> w.keys.contains_key(other) == v.keys.contains_key(other) && (v.keys.contains_key(other)
            ==> w.keys[other] == v.keys[other]),
        token_claims(v.jwt_key, pop::utf8(jwt), now) is Ok,
        token_claims(v.jwt_key, pop::utf8(jwt), now)->Ok_0.0 == addr,
        crypto::signature_holds(
            key,
            vstd::utf8::encode_utf8("ipv8plus-rotate"@) + vstd::utf8::encode_utf8(addr) + key,
            proof_bytes,
        ),
{
}

/// A token is believed up to the time at which it ends, and not after; and only
/// with the code that its own key makes of what stands before.
pub proof fn believed_token(key: Seq<u8>, b: Seq<u8>, now: u64)
    requires
        token_claims(key, b, now) is Ok,
    ensures
        now <= token_claims(key, b, now)->Ok_0.1,
        exists|d1: int, d2: int|
            {
                &&& 0 <= d1 < d2 < b.len()
                &&& b[d1] == 46
                &&& b[d2] == 46
                &&& b.subrange(d2 + 1, b.len() as int) == vstd::utf8::encode_utf8(
                    crypto::base64_of(crypto::hmac_of(key, #[trigger] b.subrange(0, d2))),
                )
                &&& crypto::bytes_of_base64(#[trigger] b.subrange(d1 + 1, d2)) is Some
                &&& crypto::number_at(crypto::bytes_of_base64(b.subrange(d1 + 1, d2))->0, "exp"@) == Some(
                    token_claims(key, b, now)->Ok_0.1,
                )
                &&& crypto::string_at(crypto::bytes_of_base64(b.subrange(d1 + 1, d2))->0, "sub"@) == Some(
                    token_claims(key, b, now)->Ok_0.0,
                )
            },
{
    let d1 = dot_from(b, 0);
    let d2 = dot_from(b, d1 + 1);
    dot_stands(b, 0);
    dot_stands(b, d1 + 1);
    let x = b.subrange(0, d2);
    let y = b.subrange(d1 + 1, d2);
    assert(b[d1] == 46 && b[d2] == 46);
}

/// A dot that is found is one, and stands where it was looked for.
proof fn dot_stands(b: Seq<u8>, from: int)
    requires
        0 <= from,
        dot_from(b, from) < b.len(),
    ensures
        from <= dot_from(b, from),
        b[dot_from(b, from)] == 46,
    decreases b.len() - from,
{
    if from < b.len() && b[from] != 46 {
        dot_stands(b, from + 1);
    }
}

/// When a token whose code is right is refused.
pub proof fn claims_verdicts(exp: u64, sub: Seq<char>, now: u64)
    ensures
        now <= exp ==> claims_of(Some(exp), Some(sub), now) == Ok::<(Seq<char>, u64), ZoneError>((sub, exp)),
        now > exp ==> claims_of(Some(exp), Some(sub), now) == Err::<(Seq<char>, u64), ZoneError>(
            ZoneError::TokenExpired { exp, now },
        ),
        claims_of(None, Some(sub), now) == Err::<(Seq<char>, u64), ZoneError>(ZoneError::BadToken),
        now <= exp ==> claims_of(Some(exp), None, now) == Err::<(Seq<char>, u64), ZoneError>(ZoneError::BadToken),
{
}

/// A token: a header, the claims and the code over both, each in base64, with dots
/// between them.
pub proof fn token_format(key: Seq<u8>, sub: Seq<char>, iat: u64, exp: u64)
    ensures
        ({
            let h = crypto::base64_of(vstd::utf8::encode_utf8("{\"alg\":\"HS256\",\"typ\":\"JWT\"}"@));
            let c = crypto::base64_of(
                vstd::utf8::encode_utf8(
                    "{\"sub\":"@ + sub + ",\"iat\":"@ + text::decimal_text(iat as nat) + ",\"exp\":"@
                        + text::decimal_text(exp as nat) + "}"@,
                ),
            );
            let m = h + seq!['.'] + c;
            token_text(key, sub, iat, exp) == m + seq!['.'] + crypto::base64_of(
                crypto::hmac_of(key, vstd::utf8::encode_utf8(m)),
            )
        }),
{
}

/// Why a registration is refused: the first reason is told, with the address where
/// it has another key.
pub proof fn refused_registrations(
    keys: Map<IPv8Address, [u8; 32]>,
    addr: Seq<char>,
    key: Seq<u8>,
    proof_len: nat,
    key_good: bool,
    proof_good: bool,
)
    ensures
        ({
            let r = admission(keys, addr, key, proof_len, key_good, proof_good);
            let named = header::address_of_text(addr);
            let sized = key.len() == 32 && key_good && proof_len == 64;
            &&& named is Err ==> r == Err::<IPv8Address, ZoneError>(ZoneError::BadAddress)
            &&& named is Ok && !sized ==> r == Err::<IPv8Address, ZoneError>(ZoneError::BadKeyLength)
            &&& named is Ok && sized && !proof_good ==> r == Err::<IPv8Address, ZoneError>(ZoneError::BadProof)
            &&& named is Ok && sized && proof_good && r is Err ==> r == Err::<IPv8Address, ZoneError>(
                ZoneError::AlreadyRegistered { addr: named->Ok_0 },
            )
        }),
{
}

/// Why a change of key is refused: the first reason is told.
pub proof fn refused_rotations(
    keys: Map<IPv8Address, [u8; 32]>,
    token: Result<(Seq<char>, u64), ZoneError>,
    addr: Seq<char>,
    key: Seq<u8>,
    proof_len: nat,
    key_good: bool,
    proof_good: bool,
)
    ensures
        ({
            let r = rotation(keys, token, addr, key, proof_len, key_good, proof_good);
            let named = header::address_of_text(addr);
            let ours = token matches Ok((sub, _)) && sub == addr;
            let sized = key.len() == 32 && key_good && proof_len == 64;
            &&& token matches Err(e) ==> r == Err::<IPv8Address, ZoneError>(e)
            &&& token is Ok && !ours ==> r == Err::<IPv8Address, ZoneError>(ZoneError::TokenMismatch)
            &&& ours && named is Err ==> r == Err::<IPv8Address, ZoneError>(ZoneError::BadAddress)
            &&& ours && named is Ok && !sized ==> r == Err::<IPv8Address, ZoneError>(ZoneError::BadKeyLength)
            &&& ours && named is Ok && sized && !proof_good ==> r == Err::<IPv8Address, ZoneError>(ZoneError::BadProof)
            &&& ours && named is Ok && sized && proof_good && r is Err ==> r == Err::<IPv8Address, ZoneError>(
                ZoneError::NotRegistered { addr: named->Ok_0 },
            )
        }),
{
}

} // verus!
