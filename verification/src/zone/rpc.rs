//! Requests to the zone server.

use vstd::prelude::*;
use crate::pop;
use crate::rpc::{Code, Status};
use crate::zone;
use crate::zone::{Issued, ZoneError, ZoneServer, DEFAULT_VALIDITY_SECS};

verus! {

/// The code with which an error is answered.
pub open spec fn code_of(e: ZoneError) -> Code {
    match e {
        ZoneError::BadAddress => Code::InvalidArgument,
        ZoneError::BadKeyLength => Code::InvalidArgument,
        ZoneError::BadProof => Code::InvalidArgument,
        ZoneError::BadToken => Code::Unauthenticated,
        ZoneError::TokenExpired { .. } => Code::Unauthenticated,
        ZoneError::TokenMismatch => Code::Unauthenticated,
        _ => Code::FailedPrecondition,
    }
}

/// The answer to a request that fails.
pub fn zone_err(e: &ZoneError) -> (s: Status)
    ensures
        s.says(code_of(*e), e.text()),
{
    let code = match e {
        ZoneError::BadAddress => Code::InvalidArgument,
        ZoneError::BadKeyLength => Code::InvalidArgument,
        ZoneError::BadProof => Code::InvalidArgument,
        ZoneError::BadToken => Code::Unauthenticated,
        ZoneError::TokenExpired { .. } => Code::Unauthenticated,
        ZoneError::TokenMismatch => Code::Unauthenticated,
        _ => Code::FailedPrecondition,
    };
    Status { code, message: e.message() }
}

/// What an issued certificate is answered with.
#[derive(Debug, Clone, PartialEq, Eq)]
pub struct IssuedMsg {
    pub verify_key: Vec<u8>,
    pub not_after: u64,
    pub ca_sig: Vec<u8>,
    pub jwt: String,
}

/// Whether an answer tells what was issued.
pub open spec fn tells(m: IssuedMsg, i: Issued) -> bool {
    m.verify_key@ == i.cert.verify_key@ && m.not_after == i.cert.not_after && m.ca_sig@ == i.cert.ca_sig@ && m.jwt@
        == i.jwt@
}

/// Tells what was issued.
pub fn issued_to_resp(i: &Issued) -> (m: IssuedMsg)
    ensures
        tells(m, *i),
{
    IssuedMsg {
        verify_key: vstd::slice::slice_to_vec(i.cert.verify_key.as_slice()),
        not_after: i.cert.not_after,
        ca_sig: vstd::slice::slice_to_vec(i.cert.ca_sig.as_slice()),
        jwt: i.jwt.clone(),
    }
}

/// Whether a request is answered as the server decided.
pub open spec fn answered(m: Result<IssuedMsg, Status>, r: Result<Issued, ZoneError>) -> bool {
    match r {
        Ok(i) => m matches Ok(x) && tells(x, i),
        Err(e) => m matches Err(s) && s.says(code_of(e), e.text()),
    }
}

/// Answers what the server decided.
fn answer(r: &Result<Issued, ZoneError>) -> (m: Result<IssuedMsg, Status>)
    ensures
        answered(m, *r),
{
    match r {
        Ok(i) => Ok(issued_to_resp(i)),
        Err(e) => Err(zone_err(e)),
    }
}

/// A node registers.
pub fn register(z: &mut ZoneServer, addr_text: &str, ed_pub: &[u8], proof: &[u8], now: u64) -> (m: Result<
    IssuedMsg,
    Status,
>)
    requires
        old(z).wf(),
    ensures
        final(z).wf(),
        exists|r: Result<Issued, ZoneError>| #[trigger]
            zone::registers(old(z)@, addr_text@, ed_pub@, proof@, DEFAULT_VALIDITY_SECS, now, r, final(z)@) && answered(
                m,
                r,
            ),
{
    let r = z.register(addr_text, ed_pub, proof, DEFAULT_VALIDITY_SECS, now);
    answer(&r)
}

/// A node changes its key. The address is the one that its token is about.
pub fn rotate_key(z: &mut ZoneServer, jwt: &str, new_ed_pub: &[u8], proof: &[u8], now: u64) -> (m: Result<
    IssuedMsg,
    Status,
>)
    requires
        old(z).wf(),
    ensures
        final(z).wf(),
        match zone::token_claims(old(z)@.jwt_key, pop::utf8(jwt@), now) {
            Err(e) => m matches Err(s) && s.says(code_of(e), e.text()) && final(z)@ == old(z)@,
            Ok((sub, _)) => exists|r: Result<Issued, ZoneError>| #[trigger]
                zone::rotates(old(z)@, jwt@, sub, new_ed_pub@, proof@, DEFAULT_VALIDITY_SECS, now, r, final(z)@)
                    && answered(m, r),
        },
{
    let sub = match z.verify_token(jwt, now) {
        Ok(s) => s,
        Err(e) => {
            return Err(zone_err(&e));
        },
    };
    let r = z.rotate_key(jwt, sub.as_str(), new_ed_pub, proof, DEFAULT_VALIDITY_SECS, now);
    answer(&r)
}

/// What is told of a token.
#[derive(Debug, Clone, PartialEq, Eq)]
pub struct TokenMsg {
    pub ok: bool,
    pub sub: String,
    pub exp: u64,
}

/// Tells whom a token is about, if it is good.
pub fn verify_token(z: &ZoneServer, jwt: &str, now: u64) -> (m: TokenMsg)
    ensures
        match zone::token_claims(z@.jwt_key, pop::utf8(jwt@), now) {
            Ok((sub, exp)) => m.ok && m.sub@ == sub && m.exp == exp,
            Err(_) => !m.ok && m.sub@.len() == 0 && m.exp == 0,
        },
{
    match z.verify_token_claims(jwt, now) {
        Ok((sub, exp)) => TokenMsg { ok: true, sub, exp },
        Err(_) => TokenMsg { ok: false, sub: String::new(), exp: 0 },
    }
}

/// What is wrong with a request is told apart from what is wrong with a token, and
/// both from what does not fit what is registered.
pub proof fn zone_codes(e: ZoneError)
    ensures
        code_of(e) == Code::InvalidArgument <==> e is BadAddress || e is BadKeyLength || e is BadProof,
        code_of(e) == Code::Unauthenticated <==> e is BadToken || e is TokenExpired || e is TokenMismatch,
        code_of(e) == Code::FailedPrecondition <==> e is AlreadyRegistered || e is NotRegistered,
{
}

/// The answer to a request has the parts of what was issued.
pub proof fn issued_is_told(m: IssuedMsg, i: Issued)
    requires
        answered(Ok(m), Ok(i)),
    ensures
        m.verify_key@ == i.cert.verify_key@,
        m.not_after == i.cert.not_after,
        m.ca_sig@ == i.cert.ca_sig@,
        m.jwt@ == i.jwt@,
        DEFAULT_VALIDITY_SECS == 90 * 24 * 3600,
{
}

/// What fails is answered with the code of its error and with its text; what
/// succeeds is not answered as a failure.
pub proof fn failures_are_told(s: Status, e: ZoneError, i: Issued, m: IssuedMsg)
    ensures
        answered(Err(s), Err(e)) ==> s.code == code_of(e) && s.message@ == e.text(),
        !answered(Err(s), Ok(i)),
        !answered(Ok(m), Err(e)),
{
}

} // verus!
