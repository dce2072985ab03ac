//! Requests to the agent name service.

use vstd::prelude::*;
use crate::ans::card;
use crate::ans::card::{AgentCard, AnsError};
use crate::ans::search;
use crate::ans::search::ResolvedAgent;
use crate::ans::service;
use crate::ans::service::{AnsService, Plan, RegisterSpec, TaskDescription};
use crate::ans::store::Store;
use crate::codec::header;
use crate::codec::header::IPv8Address;
use crate::rpc;
use crate::rpc::{Code, Status};
use crate::text;
use crate::wire;

verus! {

/// The code with which an error is answered.
pub open spec fn code_of(e: AnsError) -> Code {
    match e {
        AnsError::BadName => Code::InvalidArgument,
        AnsError::BadAddress => Code::InvalidArgument,
        AnsError::BadTags => Code::InvalidArgument,
        AnsError::BadCard => Code::InvalidArgument,
        AnsError::BadProof => Code::InvalidArgument,
        AnsError::BadCert => Code::Unauthenticated,
        AnsError::KeyConflict => Code::AlreadyExists,
        AnsError::NameConflict => Code::AlreadyExists,
        AnsError::NotFound => Code::NotFound,
        AnsError::Insufficient { .. } => Code::FailedPrecondition,
    }
}

/// The answer to a request that fails.
pub fn ans_err(e: &AnsError) -> (s: Status)
    ensures
        s.says(code_of(*e), e.text()),
{
    let code = match e {
        AnsError::BadName => Code::InvalidArgument,
        AnsError::BadAddress => Code::InvalidArgument,
        AnsError::BadTags => Code::InvalidArgument,
        AnsError::BadCard => Code::InvalidArgument,
        AnsError::BadProof => Code::InvalidArgument,
        AnsError::BadCert => Code::Unauthenticated,
        AnsError::KeyConflict => Code::AlreadyExists,
        AnsError::NameConflict => Code::AlreadyExists,
        AnsError::NotFound => Code::NotFound,
        AnsError::Insufficient { .. } => Code::FailedPrecondition,
    };
    Status { code, message: e.message() }
}

/// The answer to a request that makes no sense.
fn invalid(why: &str) -> (s: Status)
    ensures
        s.says(Code::InvalidArgument, why@),
{
    Status { code: Code::InvalidArgument, message: why.to_owned() }
}

/// A card in a request.
#[derive(Debug, Clone, PartialEq, Eq)]
pub struct CardMsg {
    pub version: u32,
    pub name: String,
    pub addr_text: String,
    pub capabilities: Vec<String>,
    pub endpoints: Vec<String>,
    pub qos_hint: u32,
    pub not_after: u64,
    pub tunnel_entry: String,
}

/// The card that a request means.
pub open spec fn card_meant(m: CardMsg, addr: IPv8Address) -> card::CardView {
    card::CardView {
        version: (m.version % 256) as u8,
        name: m.name@,
        addr,
        capabilities: text::texts(m.capabilities@),
        endpoints: text::texts(m.endpoints@),
        qos_hint: rpc::level(m.qos_hint),
        not_after: m.not_after,
        tunnel_entry: m.tunnel_entry@,
    }
}

/// The card that a request means.
pub fn card_of(m: &CardMsg) -> (r: Result<AgentCard, Status>)
    ensures
        match r {
            Ok(c) => header::address_of_text(m.addr_text@) is Ok && c@ == card_meant(
                *m,
                header::address_of_text(m.addr_text@)->Ok_0,
            ),
            Err(s) => header::address_of_text(m.addr_text@) is Err && s.says(
                Code::InvalidArgument,
                "card.addr_text 非法"@,
            ),
        },
{
    let addr = match IPv8Address::from_canonical_str(m.addr_text.as_str()) {
        Ok(a) => a,
        Err(_) => {
            return Err(invalid("card.addr_text 非法"));
        },
    };
    Ok(
        AgentCard {
            version: (m.version % 256) as u8,
            name: m.name.clone(),
            addr,
            capabilities: text::copy_texts(&m.capabilities),
            endpoints: text::copy_texts(&m.endpoints),
            qos_hint: rpc::clamp_level(m.qos_hint),
            not_after: m.not_after,
            tunnel_entry: m.tunnel_entry.clone(),
        },
    )
}

/// What an agent registers.
#[derive(Debug, Clone, PartialEq, Eq)]
pub struct RegisterAgentMsg {
    pub addr_text: String,
    pub cert_wire: Vec<u8>,
    pub card: Option<CardMsg>,
    pub card_sig: Vec<u8>,
    pub pop: Vec<u8>,
}

/// Why a registration makes no sense.
pub open spec fn senseless(m: RegisterAgentMsg) -> Option<Seq<char>> {
    match m.card {
        None => Some("card 缺失"@),
        Some(c) => if m.card_sig@.len() != 64 {
            Some("card_sig 应为 64B"@)
        } else if header::address_of_text(c.addr_text@) is Err {
            Some("card.addr_text 非法"@)
        } else {
            None
        },
    }
}

/// Whether a registration is answered as the service decided.
pub open spec fn register_answered(m: Result<Vec<u8>, Status>, r: Result<[u8; 16], AnsError>) -> bool {
    match r {
        Ok(h) => m matches Ok(x) && x@ == h@,
        Err(e) => m matches Err(s) && s.says(code_of(e), e.text()),
    }
}

/// An agent registers; it is answered with the digest of its card.
pub fn register_agent<S: Store>(svc: &mut AnsService<S>, req: &RegisterAgentMsg, now: u64) -> (m: Result<Vec<u8>, Status>)
    requires
        old(svc).wf(),
    ensures
        final(svc).wf(),
        match senseless(*req) {
            Some(why) => m matches Err(s) && s.says(Code::InvalidArgument, why) && final(svc)@ == old(svc)@,
            None => exists|sig: [u8; 64], r: Result<[u8; 16], AnsError>|
                sig@ == req.card_sig@ && register_answered(m, r) && #[trigger] service::registers(
                    old(svc)@,
                    req.addr_text@,
                    req.cert_wire@,
                    card_meant(req.card->0, header::address_of_text(req.card->0.addr_text@)->Ok_0),
                    sig,
                    req.pop@,
                    now,
                    r,
                    final(svc)@,
                ),
        },
{
    let msg = match &req.card {
        Some(c) => c,
        None => {
            return Err(invalid("card 缺失"));
        },
    };
    if req.card_sig.len() != 64 {
        return Err(invalid("card_sig 应为 64B"));
    }
    let sig = wire::array64(req.card_sig.as_slice());
    assert(sig@ =~= req.card_sig@);
    let c = match card_of(msg) {
        Ok(c) => c,
        Err(s) => {
            return Err(s);
        },
    };
    let spec_ = RegisterSpec {
        addr_text: req.addr_text.as_str(),
        cert_wire: req.cert_wire.as_slice(),
        card: &c,
        card_sig: &sig,
        pop: req.pop.as_slice(),
    };
    let r = svc.register(&spec_, now);
    let m = match r {
        Ok(h) => Ok(vstd::slice::slice_to_vec(h.as_slice())),
        Err(e) => Err(ans_err(&e)),
    };
    assert(register_answered(m, r));
    m
}

/// The digest of a card in an answer.
#[derive(Debug, Clone, PartialEq, Eq)]
pub struct SummaryMsg {
    pub version: u32,
    pub card_hash: Vec<u8>,
    pub not_after: u64,
    pub agent_pubkey: Vec<u8>,
    pub card_sig: Vec<u8>,
}

/// An agent in an answer.
#[derive(Debug, Clone, PartialEq, Eq)]
pub struct AgentMsg {
    pub name: String,
    pub addr_text: String,
    pub tunnel_entry: String,
    pub capabilities: Vec<String>,
    pub endpoints: Vec<String>,
    pub qos_hint: u32,
    pub not_after: u64,
    pub summary: SummaryMsg,
}

/// Whether an answer tells of an agent what the service tells.
pub open spec fn tells(m: AgentMsg, r: search::ResolvedView) -> bool {
    &&& m.name@ == r.name
    &&& m.addr_text@ == text::hex_text(r.addr.bytes())
    &&& m.tunnel_entry@ == r.tunnel_entry
    &&& text::texts(m.capabilities@) == r.capabilities
    &&& text::texts(m.endpoints@) == r.endpoints
    &&& m.qos_hint == r.qos_hint
    &&& m.not_after == r.not_after
    &&& m.summary.version == r.summary.version
    &&& m.summary.card_hash@ == r.summary.card_hash@
    &&& m.summary.not_after == r.summary.not_after
    &&& m.summary.agent_pubkey@ == r.summary.agent_pubkey@
    &&& m.summary.card_sig@ == r.summary.card_sig@
}

/// Tells of an agent.
pub fn view_of(r: &ResolvedAgent) -> (m: AgentMsg)
    ensures
        tells(m, r@),
{
    AgentMsg {
        name: r.name.clone(),
        addr_text: r.addr.to_canonical_string(),
        tunnel_entry: r.tunnel_entry.clone(),
        capabilities: text::copy_texts(&r.capabilities),
        endpoints: text::copy_texts(&r.endpoints),
        qos_hint: r.qos_hint as u32,
        not_after: r.not_after,
        summary: SummaryMsg {
            version: r.summary.version as u32,
            card_hash: vstd::slice::slice_to_vec(r.summary.card_hash.as_slice()),
            not_after: r.summary.not_after,
            agent_pubkey: vstd::slice::slice_to_vec(r.summary.agent_pubkey.as_slice()),
            card_sig: vstd::slice::slice_to_vec(r.summary.card_sig.as_slice()),
        },
    }
}

/// Someone asks for an agent by name.
pub fn resolve_name<S: Store>(svc: &AnsService<S>, name: &str, now: u64) -> (m: Result<AgentMsg, Status>)
    requires
        svc.wf(),
    ensures
        ({
            let v = svc@;
            let a = v.names[name@];
            let there = v.names.contains_key(name@) && v.agents.contains_key(a) && !v.agents[a].expired(now);
            match m {
                Ok(x) => there && tells(x, search::told(v.agents[a])),
                Err(s) => !there && s.says(Code::NotFound, AnsError::NotFound.text()),
            }
        }),
{
    match svc.resolve_name(name, now) {
        Ok(r) => Ok(view_of(&r)),
        Err(e) => Err(ans_err(&e)),
    }
}

/// Someone asks for agents that can do something; they are told best first.
pub fn capability<S: Store>(
    svc: &AnsService<S>,
    required_caps: &[String],
    min_qos: u32,
    exclude_leased: bool,
    now: u64,
) -> (m: Vec<AgentMsg>)
    requires
        svc.wf(),
    ensures
        exists|s: Seq<search::ResolvedView>| #[trigger]
            search::is_answer(
                s,
                svc@.agents,
                text::texts(required_caps@),
                rpc::level(min_qos),
                exclude_leased,
                now,
            ) && s.len() == m@.len() && forall|i: int| 0 <= i < s.len() ==> tells(#[trigger] m@[i], s[i]),
{
    let hits = svc.search_capability(required_caps, rpc::clamp_level(min_qos), exclude_leased, now);
    let ghost s = search::told_all(hits@);
    let mut m: Vec<AgentMsg> = Vec::new();
    let mut i: usize = 0;
    while i < hits.len()
        invariant
            i <= hits.len(),
            m@.len() == i,
            s == search::told_all(hits@),
            forall|j: int| 0 <= j < i ==> tells(#[trigger] m@[j], s[j]),
        decreases hits.len() - i,
    {
        m.push(view_of(&hits[i]));
        i = i + 1;
    }
    m
}

/// What a task needs, in a request.
#[derive(Debug, Clone, PartialEq, Eq)]
pub struct TaskMsg {
    pub required_caps: Vec<String>,
    pub min_count: u32,
    pub qos_level: u32,
    pub timeout_ms: u64,
}

/// An agent's part of a task, in an answer.
#[derive(Debug, Clone, PartialEq, Eq)]
pub struct AssignmentMsg {
    pub addr_text: String,
    pub shard_id: u32,
    pub lease_expiry: u64,
}

/// Which agents do a task, in an answer.
#[derive(Debug, Clone, PartialEq, Eq)]
pub struct PlanMsg {
    pub plan_id: u64,
    pub assignments: Vec<AssignmentMsg>,
    pub created_at: u64,
}

/// Whether an answer tells a plan.
pub open spec fn plan_told(m: PlanMsg, p: Plan) -> bool {
    &&& m.plan_id == p.plan_id
    &&& m.created_at == p.created_at
    &&& m.assignments@.len() == p.assignments@.len()
    &&& forall|i: int|
        0 <= i < p.assignments@.len() ==> {
            &&& (#[trigger] m.assignments@[i]).addr_text@ == text::hex_text(p.assignments@[i].addr.bytes())
            &&& m.assignments@[i].shard_id == p.assignments@[i].shard_id
            &&& m.assignments@[i].lease_expiry == p.assignments@[i].lease_expiry
        }
}

/// Tells a plan.
pub fn plan_of(p: &Plan) -> (m: PlanMsg)
    requires
        forall|i: int| 0 <= i < p.assignments@.len() ==> (#[trigger] p.assignments@[i]).shard_id <= u32::MAX,
    ensures
        plan_told(m, *p),
{
    let mut v: Vec<AssignmentMsg> = Vec::new();
    let mut i: usize = 0;
    while i < p.assignments.len()
        invariant
            i <= p.assignments.len(),
            v@.len() == i,
            forall|j: int| 0 <= j < p.assignments@.len() ==> (#[trigger] p.assignments@[j]).shard_id <= u32::MAX,
            forall|j: int|
                0 <= j < i ==> {
                    &&& (#[trigger] v@[j]).addr_text@ == text::hex_text(p.assignments@[j].addr.bytes())
                    &&& v@[j].shard_id == p.assignments@[j].shard_id
                    &&& v@[j].lease_expiry == p.assignments@[j].lease_expiry
                },
        decreases p.assignments.len() - i,
    {
        let a = p.assignments[i];
        v.push(
            AssignmentMsg {
                addr_text: a.addr.to_canonical_string(),
                shard_id: a.shard_id as u32,
                lease_expiry: a.lease_expiry,
            },
        );
        i = i + 1;
    }
    PlanMsg { plan_id: p.plan_id, assignments: v, created_at: p.created_at }
}

/// Whether a task is answered as the service decided.
pub open spec fn plan_answered(m: Result<PlanMsg, Status>, r: Result<Plan, AnsError>) -> bool {
    match r {
        Ok(p) => m matches Ok(x) && plan_told(x, p),
        Err(e) => m matches Err(s) && s.says(code_of(e), e.text()),
    }
}

/// Someone wants a task planned.
pub fn plan_task<S: Store>(svc: &mut AnsService<S>, task: &Option<TaskMsg>, now: u64) -> (m: Result<PlanMsg, Status>)
    requires
        old(svc).wf(),
        old(svc)@.next_plan < u64::MAX,
    ensures
        final(svc).wf(),
        match *task {
            None => m matches Err(s) && s.says(Code::InvalidArgument, "task 缺失"@) && final(svc)@ == old(svc)@,
            Some(t) => exists|r: Result<Plan, AnsError>| #[trigger]
                service::plans(
                    old(svc)@,
                    text::texts(t.required_caps@),
                    t.min_count as usize,
                    rpc::level(t.qos_level),
                    t.timeout_ms,
                    now,
                    r,
                    final(svc)@,
                ) && plan_answered(m, r),
        },
{
    let t = match task {
        Some(t) => t,
        None => {
            return Err(invalid("task 缺失"));
        },
    };
    let wanted = TaskDescription {
        required_caps: text::copy_texts(&t.required_caps),
        min_count: t.min_count as usize,
        qos_level: rpc::clamp_level(t.qos_level),
        timeout_ms: t.timeout_ms,
    };
    let r = svc.plan_task(&wanted, now);
    let ghost said = r;
    let m = match &r {
        Ok(p) => Ok(plan_of(p)),
        Err(e) => Err(ans_err(e)),
    };
    assert(plan_answered(m, said));
    m
}

/// An agent reports that its part of a task is done; it is told whether it had
/// one.
pub fn report_done<S: Store>(svc: &mut AnsService<S>, plan_id: u64, addr_text: &str, now: u64) -> (m: Result<bool, Status>)
    requires
        old(svc).wf(),
    ensures
        final(svc).wf(),
        match header::address_of_text(addr_text@) {
            Err(_) => m matches Err(s) && s.says(Code::InvalidArgument, "addr_text 非法"@) && final(svc)@ == old(svc)@,
            Ok(a) => {
                let v = old(svc)@;
                let had = v.agents.contains_key(a) && service::leased_to(v.agents[a], plan_id);
                &&& m == Ok::<bool, Status>(had)
                &&& final(svc)@ == if had {
                    service::AnsView {
                        agents: v.agents.insert(a, crate::ans::store::AgentView { lease: None, ..v.agents[a] }),
                        ..v
                    }
                } else {
                    v
                }
            },
        },
{
    match IPv8Address::from_canonical_str(addr_text) {
        Ok(a) => Ok(svc.report_done(plan_id, a, now).is_ok()),
        Err(_) => Err(invalid("addr_text 非法")),
    }
}

/// What is wrong with a request, with a certificate, with what others hold and with
/// what is there are told apart.
pub proof fn ans_codes(e: AnsError)
    ensures
        code_of(e) == Code::InvalidArgument <==> e is BadName || e is BadAddress || e is BadTags || e is BadCard
            || e is BadProof,
        code_of(e) == Code::Unauthenticated <==> e is BadCert,
        code_of(e) == Code::AlreadyExists <==> e is KeyConflict || e is NameConflict,
        code_of(e) == Code::NotFound <==> e is NotFound,
        code_of(e) == Code::FailedPrecondition <==> e is Insufficient,
{
}

/// A card in a request means the card with the same fields; a service class above
/// 15 is 15.
pub proof fn card_means_what_it_says(m: CardMsg, addr: IPv8Address)
    ensures
        ({
            let c = card_meant(m, addr);
            &&& m.version <= 255 ==> c.version == m.version
            &&& c.name == m.name@
            &&& c.addr == addr
            &&& c.capabilities == text::texts(m.capabilities@)
            &&& c.endpoints == text::texts(m.endpoints@)
            &&& m.qos_hint <= 15 ==> c.qos_hint == m.qos_hint
            &&& m.qos_hint > 15 ==> c.qos_hint == 15
            &&& c.not_after == m.not_after
            &&& c.tunnel_entry == m.tunnel_entry@
        }),
{
}

/// An agent in an answer has the fields of the agent that was found.
pub proof fn agent_is_told(m: AgentMsg, r: search::ResolvedView)
    requires
        tells(m, r),
    ensures
        m.name@ == r.name,
        m.addr_text@ == text::hex_text(r.addr.bytes()),
        m.tunnel_entry@ == r.tunnel_entry,
        text::texts(m.capabilities@) == r.capabilities,
        text::texts(m.endpoints@) == r.endpoints,
        m.qos_hint == r.qos_hint,
        m.not_after == r.not_after,
        m.summary.version == r.summary.version,
        m.summary.card_hash@ == r.summary.card_hash@,
        m.summary.not_after == r.summary.not_after,
        m.summary.agent_pubkey@ == r.summary.agent_pubkey@,
        m.summary.card_sig@ == r.summary.card_sig@,
{
}

/// A plan in an answer has the assignments of the plan that was made.
pub proof fn plan_is_told(m: PlanMsg, p: Plan, i: int)
    requires
        plan_told(m, p),
        0 <= i < p.assignments@.len(),
    ensures
        m.plan_id == p.plan_id,
        m.created_at == p.created_at,
        m.assignments@.len() == p.assignments@.len(),
        m.assignments@[i].addr_text@ == text::hex_text(p.assignments@[i].addr.bytes()),
        m.assignments@[i].shard_id == p.assignments@[i].shard_id,
        m.assignments@[i].lease_expiry == p.assignments@[i].lease_expiry,
{
}

/// Which requests make no sense: those without a card, with a signature that has
/// not 64 bytes, or with a card for no address.
pub proof fn requests_without_sense(m: RegisterAgentMsg)
    ensures
        senseless(m) is None <==> m.card is Some && m.card_sig@.len() == 64 && header::address_of_text(
            m.card->0.addr_text@,
        ) is Ok,
{
}

/// What fails is answered with the code of its error and with its text; what
/// succeeds is not answered as a failure.
pub proof fn failures_are_told(s: Status, e: AnsError, h: [u8; 16], v: Vec<u8>, p: Plan, m: PlanMsg)
    ensures
        register_answered(Err(s), Err(e)) ==> s.code == code_of(e) && s.message@ == e.text(),
        plan_answered(Err(s), Err(e)) ==> s.code == code_of(e) && s.message@ == e.text(),
        register_answered(Ok(v), Ok(h)) ==> v@ == h@,
        !register_answered(Err(s), Ok(h)),
        !register_answered(Ok(v), Err(e)),
        !plan_answered(Err(s), Ok(p)),
        !plan_answered(Ok(m), Err(e)),
        plan_answered(Ok(m), Ok(p)) ==> plan_told(m, p),
{
}

} // verus!
