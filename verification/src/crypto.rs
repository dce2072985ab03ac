//! Signatures, digests, text encodings and randomness, from the crates that
//! provide them.
//!
//! Every function marked `external_body` here calls one function of such a
//! crate; its contract is believed, not proved.

use vstd::prelude::*;
use base64::Engine;
use ed25519_dalek::{Signature, Signer, SigningKey, VerifyingKey};
use hmac::{Hmac, Mac};
use rand_core::{OsRng, RngCore};
use sha2::{Digest, Sha256};
use crate::text;

verus! {

/// Whether 32 bytes are an Ed25519 public key.
pub uninterp spec fn is_public_key(key: Seq<u8>) -> bool;

/// Whether `sig` is accepted as a signature of `msg` under `key`.
pub uninterp spec fn signature_holds(key: Seq<u8>, msg: Seq<u8>, sig: Seq<u8>) -> bool;

/// The Ed25519 public key of a seed.
pub uninterp spec fn public_key_of(seed: Seq<u8>) -> Seq<u8>;

/// The Ed25519 signature of `msg` under the key of `seed`.
pub uninterp spec fn signature_of(seed: Seq<u8>, msg: Seq<u8>) -> Seq<u8>;

/// The SHA-256 digest.
pub uninterp spec fn sha256_of(msg: Seq<u8>) -> Seq<u8>;

/// The HMAC-SHA256 code of `msg` under `key`.
pub uninterp spec fn hmac_of(key: Seq<u8>, msg: Seq<u8>) -> Seq<u8>;

/// The URL-safe base64 text of bytes, without padding.
pub uninterp spec fn base64_of(b: Seq<u8>) -> Seq<char>;

/// The bytes of a URL-safe base64 text without padding.
pub uninterp spec fn bytes_of_base64(t: Seq<u8>) -> Option<Seq<u8>>;

/// A text as a JSON string.
pub uninterp spec fn json_of(t: Seq<char>) -> Option<Seq<char>>;

/// The number that a JSON object has under a key.
pub uninterp spec fn number_at(json: Seq<u8>, key: Seq<char>) -> Option<u64>;

/// The string that a JSON object has under a key.
pub uninterp spec fn string_at(json: Seq<u8>, key: Seq<char>) -> Option<Seq<char>>;

/// The encoding of the neutral point of the curve.
pub open spec fn neutral_point() -> Seq<u8> {
    seq![1u8] + crate::wire::zeros(31)
}

/// Whether the first half of a signature is a point that verification does
/// not turn down.
pub open spec fn ordinary(sig: Seq<u8>) -> bool {
    sig.subrange(0, 32) != neutral_point()
}

/// Whether a character stands in URL-safe base64 text.
pub open spec fn is_base64(c: char) -> bool {
    ('A' <= c <= 'Z') || ('a' <= c <= 'z') || ('0' <= c <= '9') || c == '-' || c == '_'
}

/// Whether JSON writes a text between quotation marks as it is.
pub open spec fn is_plain(t: Seq<char>) -> bool {
    forall|i: int| 0 <= i < t.len() ==> ' ' <= #[trigger] t[i] <= '~' && t[i] != '"' && t[i] != '\\'
}

/// The JSON object of a token: whom it is about, when it was made and when it
/// goes stale.
pub open spec fn claims_text(sub: Seq<char>, iat: u64, exp: u64) -> Seq<char> {
    "{\"sub\":"@ + sub + ",\"iat\":"@ + text::decimal_text(iat as nat) + ",\"exp\":"@ + text::decimal_text(exp as nat)
        + "}"@
}

/// A text between quotation marks.
pub open spec fn quoted(t: Seq<char>) -> Seq<char> {
    seq!['"'] + t + seq!['"']
}

/// `ed25519_dalek::VerifyingKey::from_bytes`: whether the bytes are a point
/// of the curve.
#[verifier::external_body]
pub(crate) fn valid_key(key: &[u8; 32]) -> (r: bool)
    ensures
        r == is_public_key(key@),
{
    VerifyingKey::from_bytes(key).is_ok()
}

/// `ed25519_dalek::VerifyingKey::verify_strict`: whether the signature is
/// accepted. Bytes that are no key accept nothing.
#[verifier::external_body]
pub(crate) fn verify(key: &[u8; 32], msg: &[u8], sig: &[u8; 64]) -> (r: bool)
    ensures
        r == signature_holds(key@, msg@, sig@),
        r ==> is_public_key(key@),
{
    match VerifyingKey::from_bytes(key) {
        Ok(k) => k.verify_strict(msg, &Signature::from_bytes(sig)).is_ok(),
        Err(_) => false,
    }
}

/// `ed25519_dalek::SigningKey::verifying_key`: the public key of a seed.
#[verifier::external_body]
pub(crate) fn public_key(seed: &[u8; 32]) -> (key: [u8; 32])
    ensures
        key@ == public_key_of(seed@),
        is_public_key(key@),
{
    SigningKey::from_bytes(seed).verifying_key().to_bytes()
}

/// `ed25519_dalek::SigningKey::sign`: the signature of a message. Strict
/// verification with the key of the same seed accepts it, except where its
/// first half is the neutral point, which strict verification turns down.
#[verifier::external_body]
pub(crate) fn sign(seed: &[u8; 32], msg: &[u8]) -> (sig: [u8; 64])
    ensures
        sig@ == signature_of(seed@, msg@),
        ordinary(sig@) ==> signature_holds(public_key_of(seed@), msg@, sig@),
{
    SigningKey::from_bytes(seed).sign(msg).to_bytes()
}

/// `sha2::Sha256::digest`: the digest of a message.
#[verifier::external_body]
pub(crate) fn sha256(msg: &[u8]) -> (d: [u8; 32])
    ensures
        d@ == sha256_of(msg@),
{
    Sha256::digest(msg).into()
}

/// `hmac::Hmac<Sha256>`: the authentication code of a message. Any length of
/// key is taken.
#[verifier::external_body]
pub(crate) fn hmac256(key: &[u8], msg: &[u8]) -> (c: [u8; 32])
    ensures
        c@ == hmac_of(key@, msg@),
{
    let mut mac = <Hmac<Sha256> as Mac>::new_from_slice(key).expect("HMAC accepts any key length");
    mac.update(msg);
    mac.finalize().into_bytes().into()
}

/// `base64`'s `URL_SAFE_NO_PAD.encode`: text over the URL-safe alphabet, from
/// which `decode` gives back the bytes.
#[verifier::external_body]
pub(crate) fn b64(data: &[u8]) -> (s: String)
    ensures
        s@ == base64_of(data@),
        forall|i: int| 0 <= i < s@.len() ==> is_base64(#[trigger] s@[i]),
        bytes_of_base64(vstd::utf8::encode_utf8(s@)) == Some(data@),
{
    base64::engine::general_purpose::URL_SAFE_NO_PAD.encode(data)
}

/// `base64`'s `URL_SAFE_NO_PAD.decode`: the bytes of a text, where it is
/// base64.
#[verifier::external_body]
pub(crate) fn unb64(t: &[u8]) -> (r: Option<Vec<u8>>)
    ensures
        match r {
            Some(b) => bytes_of_base64(t@) == Some(b@),
            None => bytes_of_base64(t@) is None,
        },
{
    base64::engine::general_purpose::URL_SAFE_NO_PAD.decode(t).ok()
}

/// `serde_json::to_string` on a text: the JSON string. A text of printable
/// ASCII without quotation marks and backslashes stands there as it is. In the
/// claims of a token, `serde_json::from_slice` reads it back as it was, and
/// the time of expiry too.
#[verifier::external_body]
pub(crate) fn json_string(s: &str) -> (r: Option<String>)
    ensures
        match r {
            Some(t) => json_of(s@) == Some(t@),
            None => json_of(s@) is None,
        },
        is_plain(s@) ==> r is Some && r->0@ == quoted(s@),
        r is Some ==> forall|iat: u64, exp: u64|
            {
                let json = vstd::utf8::encode_utf8(#[trigger] claims_text(r->0@, iat, exp));
                string_at(json, "sub"@) == Some(s@) && number_at(json, "exp"@) == Some(exp)
            },
{
    serde_json::to_string(s).ok()
}

/// `serde_json::from_slice`, then `Value::get` and `Value::as_u64`: the number
/// under a key; `None` where the bytes are no JSON object with an unsigned
/// number there.
#[verifier::external_body]
pub(crate) fn json_number(json: &[u8], key: &str) -> (r: Option<u64>)
    ensures
        r == number_at(json@, key@),
{
    let v: serde_json::Value = serde_json::from_slice(json).ok()?;
    v.get(key).and_then(|x| x.as_u64())
}

/// `serde_json::from_slice`, then `Value::get` and `Value::as_str`: the string
/// under a key; `None` where the bytes are no JSON object with a string there.
#[verifier::external_body]
pub(crate) fn json_field(json: &[u8], key: &str) -> (r: Option<String>)
    ensures
        match r {
            Some(t) => string_at(json@, key@) == Some(t@),
            None => string_at(json@, key@) is None,
        },
{
    let v: serde_json::Value = serde_json::from_slice(json).ok()?;
    v.get(key).and_then(|x| x.as_str()).map(|x| x.to_string())
}

/// `rand_core::OsRng`: 32 bytes from the operating system. Nothing is known of
/// them.
#[verifier::external_body]
pub(crate) fn random32() -> (b: [u8; 32])
{
    let mut b = [0u8; 32];
    OsRng.fill_bytes(&mut b);
    b
}

} // verus!
