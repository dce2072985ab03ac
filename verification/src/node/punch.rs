//! What the node asks a resolver for, so that it and its peer find each other.

use vstd::prelude::*;
use vstd::string::StringExecFns;
use crate::cert;
use crate::codec::header::IPv8Address;
use crate::crypto;
use crate::resolver::record;
use crate::resolver::rpc::RegisterMsg;
use crate::resolver::service;
use crate::text;
use crate::zone::ZoneServer;

verus! {

/// Seconds for which the node asks its entry to be kept.
pub const PUNCH_TTL_SECS: u32 = 120;

/// Seconds between two rounds.
pub const PUNCH_INTERVAL_SECS: u64 = 20;

/// How often the node knocks at its peer in a round.
pub const KNOCKS: usize = 3;

/// The node's entry: any host, since the resolver sees for itself where the
/// node is, and the port that the node listens on.
pub open spec fn open_entry(port: u16) -> Seq<char> {
    "0.0.0.0:"@ + text::decimal_text(port as nat)
}

/// Registers the node with the resolver, with a proof that it holds its key.
pub fn register_request(self_addr: &IPv8Address, ed_seed: &[u8; 32], udp_port: u16) -> (r: RegisterMsg)
    ensures
        r.addr_text@ == text::hex_text(self_addr.bytes()),
        r.ed_pub@ == crypto::public_key_of(ed_seed@),
        r.ed_pub@.len() == 32,
        crypto::is_public_key(r.ed_pub@),
        r.proof@ == crypto::signature_of(ed_seed@, service::register_message(r.addr_text@, r.ed_pub@)),
        crypto::ordinary(r.proof@) ==> crypto::signature_holds(
            r.ed_pub@,
            service::register_message(r.addr_text@, r.ed_pub@),
            r.proof@,
        ),
        r.tunnel_entry@ == open_entry(udp_port),
        r.alt_entries@.len() == 0,
        r.mtu == 0,
        r.ttl == PUNCH_TTL_SECS,
        r.ipv8_capable,
{
    let addr_text = self_addr.to_canonical_string();
    let ed_pub = cert::verify_key_from_seed(*ed_seed);
    let m = service::register_pop_message(addr_text.as_str(), ed_pub.as_slice());
    let sig = ZoneServer::pop_sign(ed_seed, m.as_slice());
    let mut tunnel_entry = String::new();
    tunnel_entry.append("0.0.0.0:");
    text::push_decimal(&mut tunnel_entry, udp_port as u64);
    assert(tunnel_entry@ =~= open_entry(udp_port));
    RegisterMsg {
        addr_text,
        ed_pub: vstd::slice::slice_to_vec(ed_pub.as_slice()),
        proof: vstd::slice::slice_to_vec(sig.as_slice()),
        tunnel_entry,
        alt_entries: Vec::new(),
        mtu: 0,
        ttl: PUNCH_TTL_SECS,
        ipv8_capable: true,
    }
}

/// A resolver that has no other key for the node's address takes its
/// registration.
pub proof fn registration_is_taken(
    r: RegisterMsg,
    self_addr: IPv8Address,
    existing: Option<record::EntryView>,
    now: u64,
)
    requires
        self_addr.wf(),
        r.addr_text@ == text::hex_text(self_addr.bytes()),
        r.ed_pub@.len() == 32,
        existing matches Some(e) ==> e.ed_pub == r.ed_pub@ || e.rec.expired(now),
    ensures
        service::registration(r.addr_text@, r.ed_pub@, existing, true, true, now) == Ok::<
            IPv8Address,
            service::ResolveError,
        >(self_addr),
{
    crate::codec::header::address_text_round_trip(self_addr, r.addr_text@);
}

/// What the node asks, so that it is told where to try its peer.
#[derive(Debug, Clone, PartialEq, Eq)]
pub struct MeetRequest {
    pub addr_text: String,
    pub proof: [u8; 64],
    pub peer_addr_text: String,
    pub local_candidates: Vec<String>,
}

/// Asks to meet the peer, with a proof that the node holds its key.
pub fn meet_request(self_addr: &IPv8Address, peer_addr: &IPv8Address, ed_seed: &[u8; 32]) -> (r: MeetRequest)
    ensures
        r.addr_text@ == text::hex_text(self_addr.bytes()),
        r.peer_addr_text@ == text::hex_text(peer_addr.bytes()),
        r.proof@ == crypto::signature_of(ed_seed@, service::rendezvous_message(r.addr_text@, r.peer_addr_text@)),
        crypto::ordinary(r.proof@) ==> crypto::signature_holds(
            crypto::public_key_of(ed_seed@),
            service::rendezvous_message(r.addr_text@, r.peer_addr_text@),
            r.proof@,
        ),
        r.local_candidates@.len() == 0,
{
    let addr_text = self_addr.to_canonical_string();
    let peer_addr_text = peer_addr.to_canonical_string();
    let m = service::rendezvous_pop_message(addr_text.as_str(), peer_addr_text.as_str());
    let sig = ZoneServer::pop_sign(ed_seed, m.as_slice());
    MeetRequest { addr_text, proof: sig, peer_addr_text, local_candidates: Vec::new() }
}

/// The entry that a node registers is any address with its own port, for two
/// minutes.
pub proof fn entry_is_open(port: u16)
    ensures
        open_entry(port) == "0.0.0.0:"@ + text::decimal_text(port as nat),
        text::decimal_value(open_entry(port).subrange(8, open_entry(port).len() as int)) == port,
        PUNCH_TTL_SECS == 120,
{
    reveal_strlit("0.0.0.0:");
    assert("0.0.0.0:"@.len() == 8);
    text::decimal_round_trip(port as nat);
    assert(open_entry(port).subrange(8, open_entry(port).len() as int) =~= text::decimal_text(port as nat));
}

} // verus!
