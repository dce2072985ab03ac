//! The zone server.

use base64::Engine;
use ed25519_dalek::{Signer, SigningKey};
use ipv8plus::cert::TrustAnchor;
use ipv8plus::codec::header::IPv8Address;
use ipv8plus::zone::{ZoneError, ZoneServer, DEFAULT_TOKEN_TTL_SECS, DEFAULT_VALIDITY_SECS};

const NOW: u64 = 1_700_000_000;
fn seed(n: u8) -> [u8; 32] {
    [n; 32]
}
fn addr_text(n: u32) -> String {
    IPv8Address::new(64500, n, 1, 0, 1).to_canonical_string()
}

fn reg_pop(sk: &SigningKey, text: &str) -> ([u8; 32], [u8; 64]) {
    let msg = ZoneServer::register_msg(text, &sk.verifying_key().to_bytes());
    (sk.verifying_key().to_bytes(), sk.sign(&msg).to_bytes())
}

#[test]
fn register_issues_cert_verifiable_by_trust_anchor() {
    let mut z = ZoneServer::from_seeds(seed(0xC4), seed(0x2A));
    let sk = SigningKey::from_bytes(&seed(0xA1));
    let text = addr_text(1);
    let (ed, proof) = reg_pop(&sk, &text);
    let issued = z.register(&text, &ed, &proof, DEFAULT_VALIDITY_SECS, NOW).unwrap();

    let anchor = TrustAnchor::from_bytes(z.trust_anchor()).unwrap();
    assert!(anchor.verify(&issued.cert, NOW).is_ok());
    assert_eq!(issued.cert.addr.to_canonical_string(), text);
    assert_eq!(issued.cert.verify_key, ed);

    assert_eq!(z.verify_token(&issued.jwt, NOW + 60).unwrap(), text);
}

#[test]
fn bad_pop_rejected() {
    let mut z = ZoneServer::from_seeds(seed(0xC4), seed(0x2A));
    let sk = SigningKey::from_bytes(&seed(0xA1));
    let text = addr_text(1);
    let (ed, _proof) = reg_pop(&sk, &text);

    let attacker = SigningKey::from_bytes(&seed(0x66));
    let bad = attacker.sign(&ZoneServer::register_msg(&text, &ed)).to_bytes();
    assert_eq!(z.register(&text, &ed, &bad[..], 900, NOW).err(), Some(ZoneError::BadProof));

    let (ed2, proof2) = reg_pop(&sk, &text);
    z.register(&text, &ed2, &proof2, 900, NOW).unwrap();
    let rot_msg = ZoneServer::rotate_msg(&text, &ed2);
    let misuse = sk.sign(&rot_msg).to_bytes();
    assert_eq!(
        z.register(&addr_text(2), &ed2, &misuse[..], 900, NOW).err(),
        Some(ZoneError::BadProof)
    );
}

#[test]
fn duplicate_register_rejected() {
    let mut z = ZoneServer::from_seeds(seed(0xC4), seed(0x2A));
    let sk = SigningKey::from_bytes(&seed(0xA1));
    let text = addr_text(1);
    let (ed, proof) = reg_pop(&sk, &text);
    z.register(&text, &ed, &proof, 900, NOW).unwrap();

    let sk2 = SigningKey::from_bytes(&seed(0xDD));
    let (ed2, proof2) = reg_pop(&sk2, &text);
    assert_eq!(
        z.register(&text, &ed2, &proof2, 900, NOW + 1).err(),
        Some(ZoneError::AlreadyRegistered { addr: IPv8Address::from_canonical_str(&text).unwrap() })
    );
}

#[test]
fn same_key_reregister_renews_cert() {
    let mut z = ZoneServer::from_seeds(seed(0xC4), seed(0x2A));
    let sk = SigningKey::from_bytes(&seed(0xA1));
    let text = addr_text(1);
    let (ed, proof) = reg_pop(&sk, &text);
    let old = z.register(&text, &ed, &proof, 900, NOW).unwrap();
    let later = NOW + 901;
    let fresh = z.register(&text, &ed, &proof, 900, later).unwrap();
    assert_eq!(fresh.cert.verify_key, old.cert.verify_key);
    assert!(fresh.cert.not_after > old.cert.not_after);
    let anchor = TrustAnchor::from_bytes(z.trust_anchor()).unwrap();
    assert!(anchor.verify(&fresh.cert, later).is_ok());
    assert!(anchor.verify(&old.cert, later).is_err(), "旧证书过期后须不可用");
}

#[test]
fn rotate_requires_valid_token_and_new_pop() {
    let mut z = ZoneServer::from_seeds(seed(0xC4), seed(0x2A));
    let sk = SigningKey::from_bytes(&seed(0xA1));
    let text = addr_text(1);
    let (ed, proof) = reg_pop(&sk, &text);
    let issued = z.register(&text, &ed, &proof, 900, NOW).unwrap();

    assert_eq!(z.verify_token("garbage", NOW).err(), Some(ZoneError::BadToken));

    assert!(matches!(
        z.verify_token(&issued.jwt, NOW + DEFAULT_TOKEN_TTL_SECS + 1).err(),
        Some(ZoneError::TokenExpired { .. })
    ));

    let sk2 = SigningKey::from_bytes(&seed(0xB2));
    let (ed2, proof2) = {
        let msg = ZoneServer::rotate_msg(&text, &sk2.verifying_key().to_bytes());
        (sk2.verifying_key().to_bytes(), sk2.sign(&msg).to_bytes())
    };
    let r2 = z
        .rotate_key(&issued.jwt, &text, &ed2, &proof2, 900, NOW + 10)
        .unwrap();
    assert_eq!(r2.cert.verify_key, ed2);

    let (ed3, proof3) = {
        let attacker_sk = SigningKey::from_bytes(&seed(0x99));
        let msg = ZoneServer::rotate_msg(&text, &sk.verifying_key().to_bytes());
        (sk.verifying_key().to_bytes(), attacker_sk.sign(&msg).to_bytes())
    };
    assert_eq!(
        z.rotate_key(&issued.jwt, &text, &ed3, &proof3, 900, NOW + 20).err(),
        Some(ZoneError::BadProof)
    );

    let b_text = addr_text(2);
    let b_sk = SigningKey::from_bytes(&seed(0xBB));
    let (b_ed, b_proof) = reg_pop(&b_sk, &b_text);
    z.register(&b_text, &b_ed, &b_proof, 900, NOW).unwrap();
    let (x_ed, x_proof) = {
        let msg = ZoneServer::rotate_msg(&b_text, &b_sk.verifying_key().to_bytes());
        (b_sk.verifying_key().to_bytes(), b_sk.sign(&msg).to_bytes())
    };
    assert_eq!(
        z.rotate_key(&issued.jwt, &b_text, &x_ed, &x_proof, 900, NOW + 5).err(),
        Some(ZoneError::TokenMismatch)
    );
}

#[test]
fn tampered_jwt_rejected() {
    let mut z = ZoneServer::from_seeds(seed(0xC4), seed(0x2A));
    let sk = SigningKey::from_bytes(&seed(0xA1));
    let text = addr_text(1);
    let (ed, proof) = reg_pop(&sk, &text);
    let issued = z.register(&text, &ed, &proof, 900, NOW).unwrap();

    let parts: Vec<&str> = issued.jwt.split('.').collect();
    let evil_claims = format!(r#"{{"sub":"{}","iat":{},"exp":{}}}"#, addr_text(42), NOW, NOW + 9999);
    let evil_payload =
        base64::engine::general_purpose::URL_SAFE_NO_PAD.encode(evil_claims.as_bytes());
    let forged = format!("{}.{}.{}", parts[0], evil_payload, parts[2]);
    assert_eq!(z.verify_token(&forged, NOW).err(), Some(ZoneError::BadToken));
}

#[test]
fn bad_address_text_rejected() {
    let mut z = ZoneServer::from_seeds(seed(0xC4), seed(0x2A));
    let sk = SigningKey::from_bytes(&seed(0xA1));
    let (ed, proof) = {
        let msg = ZoneServer::register_msg("nothex", &sk.verifying_key().to_bytes());
        (sk.verifying_key().to_bytes(), sk.sign(&msg).to_bytes())
    };
    assert_eq!(z.register("nothex", &ed, &proof, 900, NOW).err(), Some(ZoneError::BadAddress));
}

#[test]
fn wrong_key_length_rejected() {
    let mut z = ZoneServer::from_seeds(seed(0xC4), seed(0x2A));
    let text = addr_text(1);
    assert_eq!(
        z.register(&text, &[0u8; 31], &[0u8; 64], 900, NOW).err(),
        Some(ZoneError::BadKeyLength)
    );
    let sk = SigningKey::from_bytes(&seed(0xA1));
    let ed = sk.verifying_key().to_bytes();
    assert_eq!(
        z.register(&text, &ed, &[0u8; 63], 900, NOW).err(),
        Some(ZoneError::BadKeyLength)
    );
}
