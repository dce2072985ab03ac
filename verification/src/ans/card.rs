//! Agent cards: what an agent says of itself.

use vstd::prelude::*;
use crate::codec::header;
use crate::codec::header::IPv8Address;
use crate::codec::layouts::AgentCardSummary;
use crate::codec::tags;
use crate::codec::tags::SemanticTags;
use crate::crypto;
use crate::pop;
use crate::text;
use crate::wire;

verus! {

/// The format of cards.
pub const CARD_VERSION: u8 = 1;

/// Why the name service refuses.
#[derive(Debug, Clone, Copy, PartialEq, Eq, Structural)]
pub enum AnsError {
    /// The name is empty, too long, or not under the service's root.
    BadName,
    /// The text is no address.
    BadAddress,
    /// The capabilities are no tags.
    BadTags,
    /// The card is malformed, has expired, or is not signed.
    BadCard,
    /// The proof does not show that the key is held.
    BadProof,
    /// The certificate does not bind the address to the key.
    BadCert,
    /// The address is another key's.
    KeyConflict,
    /// The name is another agent's.
    NameConflict,
    /// There is no such agent, or no longer.
    NotFound,
    /// There are not enough agents for a task.
    Insufficient { wanted: usize, got: usize },
}

/// Whether texts are tags that a tag list can hold.
pub open spec fn valid_tags(t: Seq<Seq<char>>) -> bool {
    tags::tags_wire(t) is Ok
}

/// Checks capabilities.
pub fn validate_tags(list: &[String]) -> (r: Result<(), AnsError>)
    ensures
        r == if valid_tags(text::texts(list@)) {
            Ok::<(), AnsError>(())
        } else {
            Err(AnsError::BadTags)
        },
{
    let mut refs: Vec<&str> = Vec::new();
    let mut i: usize = 0;
    while i < list.len()
        invariant
            i <= list.len(),
            refs@.len() == i,
            forall|j: int| 0 <= j < i ==> (#[trigger] refs@[j])@ == list@[j]@,
        decreases list.len() - i,
    {
        refs.push(list[i].as_str());
        i = i + 1;
    }
    assert(refs@.map_values(|s: &str| s@) =~= text::texts(list@));
    match SemanticTags::encode(refs.as_slice()) {
        Ok(_) => Ok(()),
        Err(_) => Err(AnsError::BadTags),
    }
}

/// What an agent says of itself.
#[derive(Debug, Clone, PartialEq, Eq)]
pub struct AgentCard {
    pub version: u8,
    pub name: String,
    pub addr: IPv8Address,
    pub capabilities: Vec<String>,
    pub endpoints: Vec<String>,
    /// 0 to 15.
    pub qos_hint: u8,
    /// When the card expires, in seconds since the epoch.
    pub not_after: u64,
    pub tunnel_entry: String,
}

/// A card as a mathematical value.
pub ghost struct CardView {
    pub version: u8,
    pub name: Seq<char>,
    pub addr: IPv8Address,
    pub capabilities: Seq<Seq<char>>,
    pub endpoints: Seq<Seq<char>>,
    pub qos_hint: u8,
    pub not_after: u64,
    pub tunnel_entry: Seq<char>,
}

impl View for AgentCard {
    type V = CardView;

    open spec fn view(&self) -> CardView {
        CardView {
            version: self.version,
            name: self.name@,
            addr: self.addr,
            capabilities: text::texts(self.capabilities@),
            endpoints: text::texts(self.endpoints@),
            qos_hint: self.qos_hint,
            not_after: self.not_after,
            tunnel_entry: self.tunnel_entry@,
        }
    }
}

/// Whether a text takes no more than 255 bytes.
pub open spec fn short(t: Seq<char>) -> bool {
    pop::utf8(t).len() <= 255
}

/// Whether there are no more than 255 texts of no more than 255 bytes.
pub open spec fn all_short(l: Seq<Seq<char>>) -> bool {
    l.len() <= 255 && forall|i: int| 0 <= i < l.len() ==> short(#[trigger] l[i])
}

/// Whether a card can be written.
pub open spec fn card_ok(c: CardView) -> bool {
    short(c.name) && short(c.tunnel_entry) && c.qos_hint <= 15 && all_short(c.capabilities) && all_short(c.endpoints)
}

/// A text with its length before it.
pub open spec fn text_wire(t: Seq<char>) -> Seq<u8> {
    seq![pop::utf8(t).len() as u8] + pop::utf8(t)
}

/// The first `n` texts of a list.
pub open spec fn list_wire(l: Seq<Seq<char>>, n: nat) -> Seq<u8>
    decreases n,
{
    if n == 0 {
        Seq::empty()
    } else {
        list_wire(l, (n - 1) as nat) + text_wire(l[n - 1])
    }
}

/// A list of texts with its length before it.
pub open spec fn texts_wire(l: Seq<Seq<char>>) -> Seq<u8> {
    seq![l.len() as u8] + list_wire(l, l.len())
}

/// The bytes of a card.
pub open spec fn card_wire(c: CardView) -> Seq<u8> {
    seq![c.version] + c.addr.bytes() + text_wire(c.name) + text_wire(c.tunnel_entry) + seq![c.qos_hint] + wire::be64(
        c.not_after,
    ) + texts_wire(c.capabilities) + texts_wire(c.endpoints)
}

/// The hash of a card: the first 16 bytes of the SHA-256 of its bytes.
pub open spec fn hash_of(c: CardView) -> Seq<u8> {
    crypto::sha256_of(card_wire(c)).subrange(0, 16)
}

/// Writes a text with its length before it.
fn push_u8_str(b: &mut Vec<u8>, s: &str) -> (r: Result<(), AnsError>)
    ensures
        r is Ok == short(s@),
        r is Err ==> r->Err_0 == AnsError::BadCard,
        r is Ok ==> final(b)@ == old(b)@ + text_wire(s@),
{
    let u: &[u8] = s.as_bytes();
    if u.len() > 255 {
        return Err(AnsError::BadCard);
    }
    b.push(u.len() as u8);
    wire::put_bytes(b, u);
    assert(b@ =~= old(b)@ + text_wire(s@));
    Ok(())
}

/// Writes a list of texts with its length before it.
fn push_u8_strs(b: &mut Vec<u8>, v: &Vec<String>) -> (r: Result<(), AnsError>)
    ensures
        r is Ok == all_short(text::texts(v@)),
        r is Err ==> r->Err_0 == AnsError::BadCard,
        r is Ok ==> final(b)@ == old(b)@ + texts_wire(text::texts(v@)),
{
    let ghost l = text::texts(v@);
    if v.len() > 255 {
        return Err(AnsError::BadCard);
    }
    b.push(v.len() as u8);
    let ghost start = b@;
    let mut i: usize = 0;
    assert(start + list_wire(l, 0) =~= start);
    while i < v.len()
        invariant
            i <= v.len() <= 255,
            l == text::texts(v@),
            b@ == start + list_wire(l, i as nat),
            forall|j: int| 0 <= j < i ==> short(#[trigger] l[j]),
        decreases v.len() - i,
    {
        assert(l[i as int] == v@[i as int]@);
        match push_u8_str(b, v[i].as_str()) {
            Ok(_) => {},
            Err(e) => {
                return Err(e);
            },
        }
        i = i + 1;
        assert(b@ =~= start + list_wire(l, i as nat));
    }
    assert(b@ =~= old(b)@ + texts_wire(l));
    Ok(())
}

impl AgentCard {
    /// The bytes of the card: every field in its place, texts and lists with
    /// their lengths before them.
    pub fn canonical_bytes(&self) -> (r: Result<Vec<u8>, AnsError>)
        ensures
            match r {
                Ok(b) => card_ok(self@) && b@ == card_wire(self@),
                Err(e) => !card_ok(self@) && e == AnsError::BadCard,
            },
    {
        let mut b: Vec<u8> = Vec::new();
        b.push(self.version);
        let a = self.addr.to_bytes();
        wire::put_bytes(&mut b, a.as_slice());
        assert(b@ =~= seq![self.version] + self.addr.bytes());
        match push_u8_str(&mut b, self.name.as_str()) {
            Ok(_) => {},
            Err(e) => {
                return Err(e);
            },
        }
        match push_u8_str(&mut b, self.tunnel_entry.as_str()) {
            Ok(_) => {},
            Err(e) => {
                return Err(e);
            },
        }
        if self.qos_hint > 15 {
            return Err(AnsError::BadCard);
        }
        let ghost before = b@;
        b.push(self.qos_hint);
        assert(b@ =~= before + seq![self.qos_hint]);
        wire::put_be64(&mut b, self.not_after);
        match push_u8_strs(&mut b, &self.capabilities) {
            Ok(_) => {},
            Err(e) => {
                return Err(e);
            },
        }
        match push_u8_strs(&mut b, &self.endpoints) {
            Ok(_) => {},
            Err(e) => {
                return Err(e);
            },
        }
        Ok(b)
    }

    /// The hash of the card.
    pub fn card_hash(&self) -> (r: Result<[u8; 16], AnsError>)
        ensures
            match r {
                Ok(h) => card_ok(self@) && h@ == hash_of(self@),
                Err(e) => !card_ok(self@) && e == AnsError::BadCard,
            },
    {
        match self.canonical_bytes() {
            Ok(b) => {
                let d = crypto::sha256(b.as_slice());
                Ok(wire::array16(d.as_slice()))
            },
            Err(e) => Err(e),
        }
    }

    /// What packets carry of the card.
    pub fn summary(&self, agent_pubkey: [u8; 32], card_sig: [u8; 64]) -> (r: Result<AgentCardSummary, AnsError>)
        ensures
            match r {
                Ok(s) => {
                    &&& card_ok(self@)
                    &&& s.version == self.version
                    &&& s.card_hash@ == hash_of(self@)
                    &&& s.not_after == self.not_after
                    &&& s.agent_pubkey == agent_pubkey
                    &&& s.card_sig == card_sig
                },
                Err(e) => !card_ok(self@) && e == AnsError::BadCard,
            },
    {
        match self.card_hash() {
            Ok(card_hash) => Ok(
                AgentCardSummary { version: self.version, card_hash, not_after: self.not_after, agent_pubkey, card_sig },
            ),
            Err(e) => Err(e),
        }
    }

    /// A copy.
    pub fn copy(&self) -> (r: Self)
        ensures
            r@ == self@,
    {
        AgentCard {
            version: self.version,
            name: self.name.clone(),
            addr: self.addr,
            capabilities: text::copy_texts(&self.capabilities),
            endpoints: text::copy_texts(&self.endpoints),
            qos_hint: self.qos_hint,
            not_after: self.not_after,
            tunnel_entry: self.tunnel_entry.clone(),
        }
    }
}

/// The message that proves to hold a key for a name: domain, name, address,
/// hash of the card.
pub open spec fn register_message(name: Seq<char>, addr: Seq<char>, hash: Seq<u8>) -> Seq<u8> {
    pop::message(pop::ANS_REGISTER_DOMAIN@, pop::utf8(name), pop::utf8(addr) + hash)
}

/// The message that proves to hold a key for a name.
pub fn ans_register_pop_message(name: &str, addr_text: &str, card_hash: &[u8; 16]) -> (m: Vec<u8>)
    ensures
        m@ == register_message(name@, addr_text@, card_hash@),
{
    let mut tail: Vec<u8> = Vec::new();
    wire::put_bytes(&mut tail, addr_text.as_bytes());
    wire::put_bytes(&mut tail, card_hash.as_slice());
    assert(tail@ =~= pop::utf8(addr_text@) + card_hash@);
    pop::join(pop::ANS_REGISTER_DOMAIN, name.as_bytes(), tail.as_slice())
}

/// A text with its length before it, and what follows it, are determined by
/// their bytes.
proof fn text_splits(a: Seq<char>, x: Seq<u8>, b: Seq<char>, y: Seq<u8>)
    requires
        short(a) && short(b),
        text_wire(a) + x == text_wire(b) + y,
    ensures
        a == b,
        x == y,
{
    let u = pop::utf8(a);
    let v = pop::utf8(b);
    let l = text_wire(a) + x;
    let r = text_wire(b) + y;
    assert(l[0] == u.len() as u8 && r[0] == v.len() as u8);
    assert(l.subrange(1, 1 + u.len() as int) =~= u);
    assert(r.subrange(1, 1 + v.len() as int) =~= v);
    assert(l.subrange(1 + u.len() as int, l.len() as int) =~= x);
    assert(r.subrange(1 + v.len() as int, r.len() as int) =~= y);
    vstd::utf8::encode_utf8_decode_utf8(a);
    vstd::utf8::encode_utf8_decode_utf8(b);
}

/// The texts of a list from `k` on.
spec fn tail_wire(l: Seq<Seq<char>>, k: int) -> Seq<u8>
    decreases l.len() - k,
{
    if k >= l.len() {
        Seq::empty()
    } else {
        text_wire(l[k]) + tail_wire(l, k + 1)
    }
}

/// The texts of a list up to and from `k`.
proof fn list_and_tail(l: Seq<Seq<char>>, k: nat)
    requires
        k <= l.len(),
    ensures
        list_wire(l, l.len()) == list_wire(l, k) + tail_wire(l, k as int),
    decreases l.len() - k,
{
    if k == l.len() {
        assert(list_wire(l, k) + Seq::<u8>::empty() =~= list_wire(l, k));
    } else {
        list_and_tail(l, k + 1);
        assert(list_wire(l, k) + text_wire(l[k as int]) + tail_wire(l, k as int + 1) =~= list_wire(l, k) + (text_wire(l[k as int])
            + tail_wire(l, k as int + 1)));
    }
}

/// The texts of lists of the same length, and what follows them, are
/// determined by their bytes.
proof fn tails_split(a: Seq<Seq<char>>, x: Seq<u8>, b: Seq<Seq<char>>, y: Seq<u8>, k: int)
    requires
        all_short(a) && all_short(b),
        a.len() == b.len(),
        0 <= k <= a.len(),
        tail_wire(a, k) + x == tail_wire(b, k) + y,
    ensures
        forall|i: int| k <= i < a.len() ==> #[trigger] a[i] == b[i],
        x == y,
    decreases a.len() - k,
{
    if k == a.len() {
        assert(Seq::<u8>::empty() + x =~= x);
        assert(Seq::<u8>::empty() + y =~= y);
    } else {
        assert(text_wire(a[k]) + tail_wire(a, k + 1) + x =~= text_wire(a[k]) + (tail_wire(a, k + 1) + x));
        assert(text_wire(b[k]) + tail_wire(b, k + 1) + y =~= text_wire(b[k]) + (tail_wire(b, k + 1) + y));
        text_splits(a[k], tail_wire(a, k + 1) + x, b[k], tail_wire(b, k + 1) + y);
        tails_split(a, x, b, y, k + 1);
    }
}

/// A list with its length before it, and what follows it, are determined by
/// their bytes.
proof fn texts_split(a: Seq<Seq<char>>, x: Seq<u8>, b: Seq<Seq<char>>, y: Seq<u8>)
    requires
        all_short(a) && all_short(b),
        texts_wire(a) + x == texts_wire(b) + y,
    ensures
        a == b,
        x == y,
{
    let l = texts_wire(a) + x;
    let r = texts_wire(b) + y;
    assert(l[0] == a.len() as u8 && r[0] == b.len() as u8);
    list_and_tail(a, 0);
    list_and_tail(b, 0);
    assert(list_wire(a, a.len()) =~= tail_wire(a, 0));
    assert(list_wire(b, b.len()) =~= tail_wire(b, 0));
    assert(l.subrange(1, l.len() as int) =~= tail_wire(a, 0) + x);
    assert(r.subrange(1, r.len() as int) =~= tail_wire(b, 0) + y);
    tails_split(a, x, b, y, 0);
    assert(a =~= b);
}

/// Different cards have different bytes, so that a hash covers every field.
pub proof fn card_bytes_determine_card(c: CardView, d: CardView)
    requires
        card_ok(c) && card_ok(d),
        c.addr.wf() && d.addr.wf(),
        card_wire(c) == card_wire(d),
    ensures
        c == d,
{
    card_parts(c);
    card_parts(d);
    header::address_wire_len(c.addr);
    header::address_wire_len(d.addr);
    let w = card_wire(c);
    assert(w[0] == c.version && w[0] == d.version);
    assert(w.subrange(1, 17) =~= c.addr.wire());
    assert(w.subrange(1, 17) =~= d.addr.wire());
    header::address_wire_injective(c.addr, d.addr);
    assert(w.subrange(17, w.len() as int) =~= text_wire(c.name) + after_name(c));
    assert(w.subrange(17, w.len() as int) =~= text_wire(d.name) + after_name(d));
    text_splits(c.name, after_name(c), d.name, after_name(d));
    text_splits(c.tunnel_entry, after_entry(c), d.tunnel_entry, after_entry(d));
    let t = after_entry(c);
    assert(t[0] == c.qos_hint && t[0] == d.qos_hint);
    assert(t.subrange(1, 9) =~= wire::be64(c.not_after));
    assert(t.subrange(1, 9) =~= wire::be64(d.not_after));
    wire::be64_round_trip(c.not_after, t, 1);
    wire::be64_round_trip(d.not_after, t, 1);
    assert(t.subrange(9, t.len() as int) =~= texts_wire(c.capabilities) + texts_wire(c.endpoints));
    assert(t.subrange(9, t.len() as int) =~= texts_wire(d.capabilities) + texts_wire(d.endpoints));
    texts_split(c.capabilities, texts_wire(c.endpoints), d.capabilities, texts_wire(d.endpoints));
    assert(texts_wire(c.endpoints) + Seq::<u8>::empty() =~= texts_wire(c.endpoints));
    assert(texts_wire(d.endpoints) + Seq::<u8>::empty() =~= texts_wire(d.endpoints));
    texts_split(c.endpoints, Seq::empty(), d.endpoints, Seq::empty());
}

/// What follows the entry of a card.
spec fn after_entry(c: CardView) -> Seq<u8> {
    seq![c.qos_hint] + wire::be64(c.not_after) + (texts_wire(c.capabilities) + texts_wire(c.endpoints))
}

/// What follows the name of a card.
spec fn after_name(c: CardView) -> Seq<u8> {
    text_wire(c.tunnel_entry) + after_entry(c)
}

/// A card in three parts.
proof fn card_parts(c: CardView)
    ensures
        card_wire(c) == (seq![c.version] + c.addr.bytes()) + (text_wire(c.name) + after_name(c)),
{
    let h = seq![c.version] + c.addr.bytes();
    let n = text_wire(c.name);
    let e = text_wire(c.tunnel_entry);
    let q = seq![c.qos_hint] + wire::be64(c.not_after);
    let t = texts_wire(c.capabilities) + texts_wire(c.endpoints);
    assert(card_wire(c) =~= h + n + e + q + t);
    assert(h + n + e + q + t =~= h + (n + (e + (q + t))));
}

/// A card as bytes: the version, the address, the name and the tunnel entry with
/// their lengths before them, the service class, the time at which the card
/// expires, and the lists of capabilities and of endpoints.
pub proof fn card_bytes_format(c: CardView)
    requires
        card_ok(c),
    ensures
        ({
            let w = card_wire(c);
            let n = vstd::utf8::encode_utf8(c.name);
            let e = vstd::utf8::encode_utf8(c.tunnel_entry);
            let p = 18 + n.len() as int;
            let q = p + 1 + e.len() as int;
            let t = q + 9 + texts_wire(c.capabilities).len() as int;
            &&& w[0] == c.version
            &&& w.subrange(1, 17) == c.addr.bytes()
            &&& w[17] == n.len()
            &&& w.subrange(18, p) == n
            &&& w[p] == e.len()
            &&& w.subrange(p + 1, q) == e
            &&& w[q] == c.qos_hint
            &&& w.subrange(q + 1, q + 9) == wire::be64(c.not_after)
            &&& w.subrange(q + 9, t) == texts_wire(c.capabilities)
            &&& w.subrange(t, w.len() as int) == texts_wire(c.endpoints)
        }),
{
    card_parts(c);
    header::address_wire_len(c.addr);
    let w = card_wire(c);
    let v = seq![c.version];
    let a = c.addr.bytes();
    assert(w.subrange(0, w.len() as int) =~= w);
    assert((v + a) + (text_wire(c.name) + after_name(c)) =~= v + (a + (text_wire(c.name) + after_name(c))));
    stands_before(w, 0, v, a + (text_wire(c.name) + after_name(c)));
    stands_before(w, 1, a, text_wire(c.name) + after_name(c));
    text_stands(w, 17, c.name, after_name(c));
    let p = 18 + vstd::utf8::encode_utf8(c.name).len() as int;
    text_stands(w, p, c.tunnel_entry, after_entry(c));
    let q = p + 1 + vstd::utf8::encode_utf8(c.tunnel_entry).len() as int;
    let l = texts_wire(c.capabilities) + texts_wire(c.endpoints);
    assert(after_entry(c) =~= seq![c.qos_hint] + (wire::be64(c.not_after) + l));
    stands_before(w, q, seq![c.qos_hint], wire::be64(c.not_after) + l);
    stands_before(w, q + 1, wire::be64(c.not_after), l);
    stands_before(w, q + 9, texts_wire(c.capabilities), texts_wire(c.endpoints));
    assert(w.subrange(0, 1)[0] == w[0]);
    assert(w.subrange(q, q + 1)[0] == w[q]);
}

/// One thing stands before another.
proof fn stands_before(w: Seq<u8>, at: int, x: Seq<u8>, y: Seq<u8>)
    requires
        0 <= at <= w.len(),
        w.subrange(at, w.len() as int) == x + y,
    ensures
        at + x.len() <= w.len(),
        w.subrange(at, at + x.len()) == x,
        w.subrange(at + x.len(), w.len() as int) == y,
{
    let s = w.subrange(at, w.len() as int);
    assert(s.len() == x.len() + y.len());
    assert(s.subrange(0, x.len() as int) =~= x);
    assert(s.subrange(x.len() as int, s.len() as int) =~= y);
    assert(w.subrange(at, at + x.len()) =~= s.subrange(0, x.len() as int));
    assert(w.subrange(at + x.len(), w.len() as int) =~= s.subrange(x.len() as int, s.len() as int));
}

/// A text stands before something else.
proof fn text_stands(w: Seq<u8>, at: int, t: Seq<char>, y: Seq<u8>)
    requires
        0 <= at <= w.len(),
        short(t),
        w.subrange(at, w.len() as int) == text_wire(t) + y,
    ensures
        ({
            let u = vstd::utf8::encode_utf8(t);
            &&& at + 1 + u.len() <= w.len()
            &&& w[at] == u.len()
            &&& w.subrange(at + 1, at + 1 + u.len()) == u
            &&& w.subrange(at + 1 + u.len(), w.len() as int) == y
        }),
{
    let u = vstd::utf8::encode_utf8(t);
    let n = seq![u.len() as u8];
    assert(text_wire(t) + y =~= n + (u + y));
    stands_before(w, at, n, u + y);
    stands_before(w, at + 1, u, y);
    assert(w.subrange(at, at + 1)[0] == w[at]);
}

/// A list as bytes: the number of texts, and each text with its length before it.
pub proof fn list_bytes_format(l: Seq<Seq<char>>, n: nat)
    requires
        all_short(l),
        n < l.len(),
    ensures
        texts_wire(l)[0] == l.len(),
        texts_wire(l).subrange(1, texts_wire(l).len() as int) == list_wire(l, l.len()),
        list_wire(l, 0).len() == 0,
        ({
            let u = vstd::utf8::encode_utf8(l[n as int]);
            list_wire(l, n + 1) == list_wire(l, n) + seq![u.len() as u8] + u
        }),
{
    let u = vstd::utf8::encode_utf8(l[n as int]);
    assert(texts_wire(l).subrange(1, texts_wire(l).len() as int) =~= list_wire(l, l.len()));
    assert(list_wire(l, n + 1) =~= list_wire(l, n) + seq![u.len() as u8] + u);
}

/// The hash of a card is the first half of the digest of its bytes, and what its
/// agent signs to register it is the name, the address and that hash, after the
/// domain of such messages.
pub proof fn what_a_card_is_signed_for(c: CardView, addr: Seq<char>)
    ensures
        hash_of(c) == crypto::sha256_of(card_wire(c)).subrange(0, 16),
        register_message(c.name, addr, hash_of(c)) == vstd::utf8::encode_utf8("ipv8plus-ans-register"@)
            + vstd::utf8::encode_utf8(c.name) + (vstd::utf8::encode_utf8(addr) + hash_of(c)),
{
}

/// What is kept of a card is what the card holds.
pub proof fn card_holds(c: AgentCard)
    ensures
        c@.version == c.version,
        c@.name == c.name@,
        c@.addr == c.addr,
        c@.capabilities == text::texts(c.capabilities@),
        c@.endpoints == text::texts(c.endpoints@),
        c@.qos_hint == c.qos_hint,
        c@.not_after == c.not_after,
        c@.tunnel_entry == c.tunnel_entry@,
{
}

} // verus!
