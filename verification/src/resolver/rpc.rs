//! Requests to the resolver.

use vstd::prelude::*;
use crate::resolver::service;
use crate::resolver::service::{
    RegisterOutcome, RegisterSpec, RendezvousOutcome, ResolveError, Resolved, ResolverService,
};
use crate::resolver::store::Store;
use crate::rpc;
use crate::rpc::{Code, Status};
use crate::text;

verus! {

/// The code with which an error is answered.
pub open spec fn code_of(e: ResolveError) -> Code {
    match e {
        ResolveError::BadAddress => Code::InvalidArgument,
        ResolveError::BadProof => Code::InvalidArgument,
        ResolveError::NotFound => Code::NotFound,
        ResolveError::KeyConflict { addr: _ } => Code::AlreadyExists,
    }
}

/// The answer to a request that fails.
pub fn resolve_err(e: &ResolveError) -> (s: Status)
    ensures
        s.says(code_of(*e), e.text()),
{
    let code = match e {
        ResolveError::BadAddress => Code::InvalidArgument,
        ResolveError::BadProof => Code::InvalidArgument,
        ResolveError::NotFound => Code::NotFound,
        ResolveError::KeyConflict { .. } => Code::AlreadyExists,
    };
    Status { code, message: e.message() }
}

/// What is told of an address.
#[derive(Debug, Clone, PartialEq, Eq)]
pub struct ResolveMsg {
    pub tunnel_entry_ip: String,
    pub ipv8_capable: bool,
    pub mtu: u32,
    pub alt_ips: Vec<String>,
    /// In seconds.
    pub ttl: u32,
}

/// Whether a question is answered as the resolver decided.
pub open spec fn resolve_answered(m: Result<ResolveMsg, Status>, r: Result<Resolved, ResolveError>) -> bool {
    match r {
        Ok(x) => {
            &&& m matches Ok(y)
            &&& y.tunnel_entry_ip@ == x.tunnel_entry@
            &&& y.ipv8_capable == x.ipv8_capable
            &&& y.mtu == x.mtu
            &&& text::texts(y.alt_ips@) == x.alt_entries@
            &&& y.ttl == rpc::secs32(x.ttl)
        },
        Err(e) => m matches Err(s) && s.says(code_of(e), e.text()),
    }
}

/// Someone asks for an address.
pub fn resolve<S: Store>(svc: &mut ResolverService<S>, target_addr: &str, now: u64) -> (m: Result<ResolveMsg, Status>)
    requires
        old(svc).wf(),
    ensures
        final(svc).wf(),
        final(svc).contents() == old(svc).contents(),
        exists|r: Result<Resolved, ResolveError>| #[trigger]
            service::resolves(old(svc).contents(), target_addr@, now, r) && resolve_answered(m, r),
{
    let r = svc.resolve(target_addr, now);
    let ghost said = r;
    let m = match r {
        Ok(x) => Ok(
            ResolveMsg {
                tunnel_entry_ip: x.tunnel_entry,
                ipv8_capable: x.ipv8_capable,
                mtu: x.mtu,
                alt_ips: x.alt_entries.to_vec(),
                ttl: rpc::secs(x.ttl),
            },
        ),
        Err(e) => Err(resolve_err(&e)),
    };
    assert(service::resolves(old(svc).contents(), target_addr@, now, said) && resolve_answered(m, said));
    m
}

/// What a node registers.
#[derive(Debug, Clone, PartialEq, Eq)]
pub struct RegisterMsg {
    pub addr_text: String,
    pub ed_pub: Vec<u8>,
    pub proof: Vec<u8>,
    pub tunnel_entry: String,
    pub alt_entries: Vec<String>,
    pub mtu: u32,
    /// In seconds.
    pub ttl: u32,
    pub ipv8_capable: bool,
}

/// Whether a registration is the one that a node asks for, seen at an address.
pub open spec fn is_asked(s: RegisterSpec<'_>, m: RegisterMsg, observed: Option<String>) -> bool {
    &&& s.addr_text@ == m.addr_text@
    &&& s.ed_pub@ == m.ed_pub@
    &&& s.proof@ == m.proof@
    &&& s.tunnel_entry@ == m.tunnel_entry@
    &&& text::texts(s.alt_entries@) == text::texts(m.alt_entries@)
    &&& s.ipv8_capable == m.ipv8_capable
    &&& s.mtu == m.mtu
    &&& s.ttl_secs == m.ttl
    &&& service::maybe_str(s.observed) == service::maybe(observed)
}

/// What a registration is answered with.
#[derive(Debug, Clone, PartialEq, Eq)]
pub struct RegisteredMsg {
    /// In seconds.
    pub ttl: u32,
    /// Where the node was seen; empty where it could not be.
    pub observed_addr: String,
}

/// A text that may be missing; the empty one where it is.
pub open spec fn or_empty(t: Option<Seq<char>>) -> Seq<char> {
    match t {
        Some(s) => s,
        None => Seq::empty(),
    }
}

/// A text that may be missing; the empty one where it is.
fn text_or_empty(t: Option<String>) -> (s: String)
    ensures
        s@ == or_empty(service::maybe(t)),
{
    match t {
        Some(s) => s,
        None => {
            let s = String::new();
            assert(s@ =~= Seq::<char>::empty());
            s
        },
    }
}

/// Whether a registration is answered as the resolver decided.
pub open spec fn register_answered(m: Result<RegisteredMsg, Status>, r: Result<RegisterOutcome, ResolveError>) -> bool {
    match r {
        Ok(x) => m matches Ok(y) && y.ttl == rpc::secs32(x.ttl) && y.observed_addr@ == or_empty(service::maybe(x.observed)),
        Err(e) => m matches Err(s) && s.says(code_of(e), e.text()),
    }
}

/// A node registers; `observed` is where it was seen.
pub fn register<S: Store>(svc: &mut ResolverService<S>, req: &RegisterMsg, observed: &Option<String>, now: u64) -> (m:
    Result<RegisteredMsg, Status>)
    requires
        old(svc).wf(),
    ensures
        final(svc).wf(),
        exists|s: RegisterSpec<'_>, r: Result<RegisterOutcome, ResolveError>| #[trigger]
            service::registers(old(svc).contents(), s, now, r, final(svc).contents()) && is_asked(s, *req, *observed)
                && register_answered(m, r),
{
    let spec_ = RegisterSpec {
        addr_text: req.addr_text.as_str(),
        ed_pub: req.ed_pub.as_slice(),
        proof: req.proof.as_slice(),
        tunnel_entry: req.tunnel_entry.as_str(),
        alt_entries: text::copy_texts(&req.alt_entries),
        ipv8_capable: req.ipv8_capable,
        mtu: req.mtu,
        ttl_secs: req.ttl as u64,
        observed: match observed {
            Some(o) => Some(o.as_str()),
            None => None,
        },
    };
    let r = svc.register(&spec_, now);
    let ghost said = r;
    let m = match r {
        Ok(x) => Ok(RegisteredMsg { ttl: rpc::secs(x.ttl), observed_addr: text_or_empty(x.observed) }),
        Err(e) => Err(resolve_err(&e)),
    };
    assert(is_asked(spec_, *req, *observed));
    assert(service::registers(old(svc).contents(), spec_, now, said, final(svc).contents()) && register_answered(m, said));
    m
}

/// What a node that asks to meet a peer is answered with.
#[derive(Debug, Clone, PartialEq, Eq)]
pub struct RendezvousMsg {
    pub peer_candidates: Vec<String>,
    pub self_observed: String,
    /// In seconds.
    pub ttl: u32,
}

/// Whether a node that asks to meet a peer is answered as the resolver decided.
pub open spec fn rendezvous_answered(m: Result<RendezvousMsg, Status>, r: Result<RendezvousOutcome, ResolveError>) -> bool {
    match r {
        Ok(x) => {
            &&& m matches Ok(y)
            &&& text::texts(y.peer_candidates@) == text::texts(x.peer_candidates@)
            &&& y.self_observed@ == or_empty(service::maybe(x.self_observed))
            &&& y.ttl == rpc::secs32(x.ttl)
        },
        Err(e) => m matches Err(s) && s.says(code_of(e), e.text()),
    }
}

/// A node asks to meet a peer; `observed` is where it was seen.
pub fn rendezvous<S: Store>(
    svc: &mut ResolverService<S>,
    addr_text: &str,
    peer_addr_text: &str,
    proof: &[u8],
    local_candidates: &[String],
    observed: &Option<String>,
    now: u64,
) -> (m: Result<RendezvousMsg, Status>)
    requires
        old(svc).wf(),
    ensures
        final(svc).wf(),
        exists|r: Result<RendezvousOutcome, ResolveError>| #[trigger]
            service::introduces(
                old(svc).contents(),
                addr_text@,
                peer_addr_text@,
                proof@,
                text::texts(local_candidates@),
                service::maybe(*observed),
                now,
                r,
                final(svc).contents(),
            ) && rendezvous_answered(m, r),
{
    let seen = match observed {
        Some(o) => Some(o.as_str()),
        None => None,
    };
    let r = svc.rendezvous(addr_text, peer_addr_text, proof, local_candidates, seen, now);
    let ghost said = r;
    let m = match r {
        Ok(x) => Ok(
            RendezvousMsg {
                peer_candidates: x.peer_candidates,
                self_observed: text_or_empty(x.self_observed),
                ttl: rpc::secs(x.ttl),
            },
        ),
        Err(e) => Err(resolve_err(&e)),
    };
    assert(service::maybe_str(seen) == service::maybe(*observed));
    assert(rendezvous_answered(m, said));
    m
}

/// What is wrong with a request, what is not there and what another holds are told
/// apart.
pub proof fn resolver_codes(e: ResolveError)
    ensures
        code_of(e) == Code::InvalidArgument <==> e is BadAddress || e is BadProof,
        code_of(e) == Code::NotFound <==> e is NotFound,
        code_of(e) == Code::AlreadyExists <==> e is KeyConflict,
{
}

/// The answers have the parts of what was found, with times in whole seconds.
pub proof fn answers_say_what_was_found(m: ResolveMsg, r: Resolved)
    requires
        resolve_answered(Ok(m), Ok(r)),
    ensures
        m.tunnel_entry_ip@ == r.tunnel_entry@,
        m.ipv8_capable == r.ipv8_capable,
        m.mtu == r.mtu,
        text::texts(m.alt_ips@) == r.alt_entries@,
        r.ttl < 1000 * 0x1_0000_0000 ==> m.ttl == r.ttl / 1000,
{
}

/// So do the answers to a registration and to an introduction.
pub proof fn outcomes_are_told(
    m: RegisteredMsg,
    r: RegisterOutcome,
    n: RendezvousMsg,
    o: RendezvousOutcome,
)
    requires
        register_answered(Ok(m), Ok(r)),
        rendezvous_answered(Ok(n), Ok(o)),
    ensures
        r.ttl < 1000 * 0x1_0000_0000 ==> m.ttl == r.ttl / 1000,
        r.observed matches Some(a) ==> m.observed_addr@ == a@,
        r.observed is None ==> m.observed_addr@.len() == 0,
        text::texts(n.peer_candidates@) == text::texts(o.peer_candidates@),
        o.self_observed matches Some(a) ==> n.self_observed@ == a@,
        o.self_observed is None ==> n.self_observed@.len() == 0,
        o.ttl < 1000 * 0x1_0000_0000 ==> n.ttl == o.ttl / 1000,
{
}

/// What a request asks for is what is registered.
pub proof fn request_is_what_it_asks(s: RegisterSpec<'_>, m: RegisterMsg, observed: Option<String>)
    requires
        is_asked(s, m, observed),
    ensures
        s.addr_text@ == m.addr_text@,
        s.ed_pub@ == m.ed_pub@,
        s.proof@ == m.proof@,
        s.tunnel_entry@ == m.tunnel_entry@,
        text::texts(s.alt_entries@) == text::texts(m.alt_entries@),
        s.ipv8_capable == m.ipv8_capable,
        s.mtu == m.mtu,
        s.ttl_secs == m.ttl,
        s.observed is Some == observed is Some,
        s.observed matches Some(o) ==> o@ == observed->0@,
{
}

/// What fails is answered with the code of its error and with its text, and with
/// nothing else.
pub proof fn failures_are_told(
    s: Status,
    e: ResolveError,
    a: Result<Resolved, ResolveError>,
    b: Result<RegisterOutcome, ResolveError>,
    c: Result<RendezvousOutcome, ResolveError>,
)
    ensures
        resolve_answered(Err(s), a) ==> a is Err,
        register_answered(Err(s), b) ==> b is Err,
        rendezvous_answered(Err(s), c) ==> c is Err,
        resolve_answered(Err(s), Err(e)) ==> s.code == code_of(e) && s.message@ == e.text(),
        register_answered(Err(s), Err(e)) ==> s.code == code_of(e) && s.message@ == e.text(),
        rendezvous_answered(Err(s), Err(e)) ==> s.code == code_of(e) && s.message@ == e.text(),
{
}

/// What succeeds is not answered as a failure, nor the other way round.
pub proof fn successes_are_told(m: ResolveMsg, n: RegisteredMsg, o: RendezvousMsg, e: ResolveError)
    ensures
        !resolve_answered(Ok(m), Err(e)),
        !register_answered(Ok(n), Err(e)),
        !rendezvous_answered(Ok(o), Err(e)),
{
}

} // verus!
