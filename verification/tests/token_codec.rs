//! The token codec against the real HMAC backend.

use authgate::claims::build_claims_at;
use authgate::token::{decode_token, encode_token, verify_token_at, TokenError};

fn sample_claims(now: u64, ttl: u64) -> authgate::claims::Claims {
    build_claims_at(
        "alice".to_string(),
        ttl,
        vec!["user".to_string(), "editor".to_string()],
        vec!["read".to_string(), "write".to_string()],
        now,
    )
}

#[test]
fn sign_then_verify_returns_the_claims() {
    let now = 1_700_000_000u64;
    let claims = sample_claims(now, 3600);
    let token = encode_token(&claims, "secret-1").unwrap();
    let out = verify_token_at(&token, "secret-1", now + 1).unwrap();
    assert_eq!(out.sub, "alice");
    assert_eq!(out.exp, now + 3600);
    assert_eq!(out.roles, vec!["user".to_string(), "editor".to_string()]);
    assert_eq!(out.policies, vec!["read".to_string(), "write".to_string()]);
}

#[test]
fn verify_with_other_secret_fails_with_invalid_signature() {
    let now = 1_700_000_000u64;
    let claims = sample_claims(now, 3600);
    let token = encode_token(&claims, "secret-1").unwrap();
    let out = verify_token_at(&token, "secret-2", now + 1);
    assert!(matches!(out, Err(TokenError::InvalidSignature)));
}

#[test]
fn verify_at_expiry_fails_and_just_before_succeeds() {
    let issued_at = 1_700_000_000u64;
    let ttl = 60u64;
    let claims = sample_claims(issued_at, ttl);
    let token = encode_token(&claims, "s").unwrap();
    assert!(matches!(
        verify_token_at(&token, "s", issued_at + ttl),
        Err(TokenError::Expired)
    ));
    assert!(matches!(
        verify_token_at(&token, "s", issued_at + ttl + 50),
        Err(TokenError::Expired)
    ));
    assert!(verify_token_at(&token, "s", issued_at + ttl - 1).is_ok());
}

#[test]
fn tampered_payload_is_rejected() {
    let now = 1_700_000_000u64;
    let claims = sample_claims(now, 3600);
    let token = encode_token(&claims, "secret-1").unwrap();
    // flip one character of the subject inside the payload
    let tampered = token.replacen("alice", "alicf", 1);
    assert_ne!(token, tampered);
    let out = verify_token_at(&tampered, "secret-1", now + 1);
    assert!(matches!(out, Err(TokenError::InvalidSignature)));
}

#[test]
fn truncated_token_is_malformed() {
    let out = verify_token_at("no separator here", "s", 0);
    assert!(matches!(out, Err(TokenError::Malformed)));
}

#[test]
fn garbage_payload_with_valid_signature_is_malformed() {
    // sign an arbitrary payload directly with the same backend, so the
    // signature matches but the payload has no claims shape
    let payload = "not a claims payload";
    let sig = jsonwebtoken::crypto::sign(
        payload.as_bytes(),
        &jsonwebtoken::EncodingKey::from_secret("s".as_bytes()),
        jsonwebtoken::Algorithm::HS256,
    )
    .unwrap();
    let mut token = payload.to_string();
    token.push('.');
    token.push_str(&sig);
    let out = verify_token_at(&token, "s", 0);
    assert!(matches!(out, Err(TokenError::Malformed)));
}

#[test]
fn signature_agrees_with_backend_verify() {
    let now = 1_700_000_000u64;
    let claims = sample_claims(now, 3600);
    let token = encode_token(&claims, "secret-1").unwrap();
    let dot = token.find('.').unwrap();
    let (payload, sig) = token.split_at(dot);
    let sig = &sig[1..];
    let ok = jsonwebtoken::crypto::verify(
        sig,
        payload.as_bytes(),
        &jsonwebtoken::DecodingKey::from_secret("secret-1".as_bytes()),
        jsonwebtoken::Algorithm::HS256,
    )
    .unwrap();
    assert!(ok);
    let bad = jsonwebtoken::crypto::verify(
        sig,
        payload.as_bytes(),
        &jsonwebtoken::DecodingKey::from_secret("secret-2".as_bytes()),
        jsonwebtoken::Algorithm::HS256,
    )
    .unwrap();
    assert!(!bad);
}

#[test]
fn non_alphanumeric_subject_round_trips() {
    let now = 1_700_000_000u64;
    let claims = build_claims_at(
        "weird; subject=étoile.~".to_string(),
        100,
        vec!["rôle spécial".to_string()],
        vec![],
        now,
    );
    let token = encode_token(&claims, "s").unwrap();
    // the payload never contains characters that break cookie transport
    let payload = &token[..token.find('.').unwrap()];
    assert!(payload
        .chars()
        .all(|c| c.is_ascii_alphanumeric() || c == '~' || c == '_' || c == ':'));
    let out = verify_token_at(&token, "s", now).unwrap();
    assert_eq!(out.sub, "weird; subject=étoile.~");
    assert_eq!(out.roles, vec!["rôle spécial".to_string()]);
    assert!(out.policies.is_empty());
}

#[test]
fn decode_token_accepts_a_fresh_token() {
    // a token far from expiry verifies under the live clock too
    let now = 4_000_000_000u64;
    let claims = sample_claims(now, 3600);
    let token = encode_token(&claims, "k").unwrap();
    let out = decode_token(&token, "k").unwrap();
    assert_eq!(out.sub, "alice");
}

#[test]
fn empty_fields_round_trip() {
    let now = 10u64;
    let claims = build_claims_at(String::new(), 5, vec![], vec![String::new()], now);
    let token = encode_token(&claims, "").unwrap();
    let out = verify_token_at(&token, "", now + 4).unwrap();
    assert_eq!(out.sub, "");
    assert!(out.roles.is_empty());
    assert_eq!(out.policies, vec![String::new()]);
}

#[test]
fn expiry_saturates_at_the_top_of_the_range() {
    let claims = build_claims_at("s".to_string(), u64::MAX, vec![], vec![], 10);
    assert_eq!(claims.exp, u64::MAX);
}
