//! Signing claims into tokens and verifying tokens back into claims.
//!
//! A token is the canonical payload of its claims, a `.` separator, and
//! an HMAC-SHA256 signature over the payload computed by the
//! `jsonwebtoken` crate. Verification recomputes the signature before
//! trusting any field, then parses the payload, then checks expiry
//! against a single clock reading.

use vstd::prelude::*;

verus! {

use crate::claims::{Claims, ClaimsView};
use crate::numerals::{chars_to_string, push_char, str_to_chars};
use crate::payload::{
    bounded_claims, enc_claims, encode_claims_chars, lemma_enc_claims_payload,
    lemma_sp_claims_of_enc, parse_claims, sp_claims,
};

/// Why a token failed to sign or verify. Middleware deliberately collapses
/// all verification failures into one outward response; the fine grain
/// exists for internal logging only.
#[derive(Clone, Copy, Debug, PartialEq, Eq, Structural)]
pub enum TokenError {
    /// The token could not be split or parsed into the expected shape.
    Malformed,
    /// The signature does not match the payload under the given secret.
    InvalidSignature,
    /// The token is valid but its expiry instant has passed.
    Expired,
    /// Signing failed inside the signature backend.
    SigningFailure,
}

/// The signature that `jsonwebtoken` computes over a message with a
/// secret under HMAC-SHA256, as base64url text. It is a function of the
/// message and secret characters alone.
pub uninterp spec fn hs256_signature(message: Seq<char>, secret: Seq<char>) -> Seq<char>;

#[verifier::external_type_specification]
#[verifier::external_body]
pub struct ExJwtError(jsonwebtoken::errors::Error);

/// Relies on `jsonwebtoken::crypto::sign` with `Algorithm::HS256`: the
/// result is a deterministic function of the message and secret bytes
/// alone, and the HMAC branch never returns an error.
#[verifier::external_body]
fn hs256_sign(message: &str, secret: &str) -> (r: Result<String, jsonwebtoken::errors::Error>)
    ensures
        r matches Ok(s) ==> s@ == hs256_signature(message@, secret@),
        r is Ok,
{
    jsonwebtoken::crypto::sign(
        message.as_bytes(),
        &jsonwebtoken::EncodingKey::from_secret(secret.as_bytes()),
        jsonwebtoken::Algorithm::HS256,
    )
}

/// The token that signing a claims record produces.
pub open spec fn spec_token(cv: ClaimsView, secret: Seq<char>) -> Seq<char> {
    enc_claims(cv) + seq!['.'] + hs256_signature(enc_claims(cv), secret)
}

/// The position of the first `.` at or after `i`, or `-1`.
pub open spec fn find_dot(s: Seq<char>, i: int) -> int
    decreases s.len() - i,
{
    if i < 0 || i >= s.len() {
        -1
    } else if s[i] == '.' {
        i
    } else {
        find_dot(s, i + 1)
    }
}

/// What verifying a token at instant `now` yields: the embedded claims,
/// or the first failure in the order separator, signature, shape,
/// expiry.
pub open spec fn spec_verify(t: Seq<char>, secret: Seq<char>, now: u64) -> Result<
    ClaimsView,
    TokenError,
> {
    let d = find_dot(t, 0);
    if d < 0 {
        Err(TokenError::Malformed)
    } else {
        let payload = t.subrange(0, d);
        let sig = t.subrange(d + 1, t.len() as int);
        if sig != hs256_signature(payload, secret) {
            Err(TokenError::InvalidSignature)
        } else {
            match sp_claims(payload) {
                Some(cv) => if now >= cv.exp {
                    Err(TokenError::Expired)
                } else {
                    Ok(cv)
                },
                None => Err(TokenError::Malformed),
            }
        }
    }
}

/// The mathematical value of a verification result.
pub open spec fn verify_view(r: Result<Claims, TokenError>) -> Result<ClaimsView, TokenError> {
    match r {
        Ok(c) => Ok(c@),
        Err(e) => Err(e),
    }
}

/// Serializes and signs a claims record into a token.
pub fn encode_token(claims: &Claims, secret: &str) -> (r: Result<String, TokenError>)
    ensures
        r matches Ok(t) ==> t@ == spec_token(claims@, secret@),
        r is Ok,
{
    let payload_chars = encode_claims_chars(claims);
    let payload = chars_to_string(&payload_chars);
    match hs256_sign(payload.as_str(), secret) {
        Ok(sig) => {
            let mut token = payload;
            push_char(&mut token, '.');
            token.append(sig.as_str());
            proof {
                assert(token@ =~= enc_claims(claims@) + seq!['.'] + hs256_signature(
                    enc_claims(claims@),
                    secret@,
                ));
            }
            Ok(token)
        },
        Err(_) => Err(TokenError::SigningFailure),
    }
}

proof fn lemma_find_dot_at(s: Seq<char>, i: int, d: int)
    requires
        0 <= i <= d <= s.len(),
        d < s.len() ==> s[d] == '.',
        d == s.len() ==> true,
        forall|k: int| i <= k < d ==> s[k] != '.',
    ensures
        d < s.len() ==> find_dot(s, i) == d,
        d == s.len() && (forall|k: int| i <= k < s.len() ==> s[k] != '.') ==> find_dot(s, i)
            == -1,
    decreases d - i,
{
    if i < d {
        lemma_find_dot_at(s, i + 1, d);
    } else if i == d && d == s.len() {
        lemma_find_dot_none(s, i);
    }
}

proof fn lemma_find_dot_none(s: Seq<char>, i: int)
    requires
        0 <= i <= s.len(),
        forall|k: int| i <= k < s.len() ==> s[k] != '.',
    ensures
        find_dot(s, i) == -1,
    decreases s.len() - i,
{
    if i < s.len() {
        lemma_find_dot_none(s, i + 1);
    }
}

/// Verifies a token against a secret at the given instant.
pub fn verify_token_at(token: &str, secret: &str, now: u64) -> (r: Result<Claims, TokenError>)
    ensures
        verify_view(r) == spec_verify(token@, secret@, now),
{
    let chars = str_to_chars(token);
    // locate the payload/signature separator
    let mut d: usize = 0;
    let mut found = false;
    while d < chars.len()
        invariant
            0 <= d <= chars.len(),
            found ==> d < chars.len() && chars@[d as int] == '.',
            forall|k: int| 0 <= k < d ==> chars@[k] != '.',
        ensures
            found ==> d < chars.len() && chars@[d as int] == '.',
            forall|k: int| 0 <= k < d ==> chars@[k] != '.',
            !found ==> d == chars.len(),
        decreases chars.len() - d,
    {
        if chars[d] == '.' {
            found = true;
            break;
        }
        d = d + 1;
    }
    if !found {
        proof {
            lemma_find_dot_none(chars@, 0);
        }
        return Err(TokenError::Malformed);
    }
    proof {
        lemma_find_dot_at(chars@, 0, d as int);
    }
    // split out the payload and presented signature
    let mut payload_chars: Vec<char> = Vec::new();
    let mut k: usize = 0;
    while k < d
        invariant
            k <= d <= chars.len(),
            payload_chars@ =~= chars@.subrange(0, k as int),
        decreases d - k,
    {
        payload_chars.push(chars[k]);
        proof {
            assert(chars@.subrange(0, k + 1) =~= chars@.subrange(0, k as int) + seq![
                chars@[k as int],
            ]);
        }
        k = k + 1;
    }
    let mut sig_chars: Vec<char> = Vec::new();
    let mut m: usize = d + 1;
    while m < chars.len()
        invariant
            d + 1 <= m <= chars.len(),
            sig_chars@ =~= chars@.subrange(d + 1, m as int),
        decreases chars.len() - m,
    {
        sig_chars.push(chars[m]);
        proof {
            assert(chars@.subrange(d + 1, m + 1) =~= chars@.subrange(d + 1, m as int) + seq![
                chars@[m as int],
            ]);
        }
        m = m + 1;
    }
    let payload = chars_to_string(&payload_chars);
    let presented_sig = chars_to_string(&sig_chars);
    // recompute the signature before trusting any field of the payload
    let expected_sig = match hs256_sign(payload.as_str(), secret) {
        Ok(s) => s,
        Err(_) => {
            return Err(TokenError::Malformed);
        },
    };
    if !(presented_sig == expected_sig) {
        return Err(TokenError::InvalidSignature);
    }
    // the signature is established; now read the claims
    let claims = match parse_claims(&payload_chars) {
        Some(c) => c,
        None => {
            return Err(TokenError::Malformed);
        },
    };
    if now >= claims.exp {
        return Err(TokenError::Expired);
    }
    Ok(claims)
}

/// Relies on nothing outside; decodes with the current clock reading.
/// The result is exactly the verification outcome at some instant.
pub fn decode_token(token: &str, secret: &str) -> (r: Result<Claims, TokenError>)
    ensures
        exists|now: u64| verify_view(r) == spec_verify(token@, secret@, now),
{
    let now = crate::claims::now_unix_seconds();
    let r = verify_token_at(token, secret, now);
    proof {
        assert(verify_view(r) == spec_verify(token@, secret@, now));
    }
    r
}

// ---------------------------------------------------------------------
// The codec laws.
// ---------------------------------------------------------------------

/// Round trip: a token signed with a secret, verified with the same
/// secret strictly before its expiry instant, yields exactly the claims
/// that were signed.
pub proof fn lemma_verify_of_sign(cv: ClaimsView, secret: Seq<char>, now: u64)
    requires
        now < cv.exp,
        bounded_claims(cv),
    ensures
        spec_verify(spec_token(cv, secret), secret, now) == Ok::<ClaimsView, TokenError>(cv),
{
    lemma_token_shape(cv, secret);
    lemma_sp_claims_of_enc(cv);
}

/// A token signed with one secret is rejected with `InvalidSignature`
/// under another secret, at any instant, whenever the two secrets give
/// the payload different signatures. (That distinct secrets give
/// distinct HMAC-SHA256 tags is a cryptographic property the library
/// cannot state, so it appears here as a hypothesis.)
pub proof fn lemma_verify_wrong_secret(
    cv: ClaimsView,
    signing: Seq<char>,
    verifying: Seq<char>,
    now: u64,
)
    requires
        hs256_signature(enc_claims(cv), signing) != hs256_signature(enc_claims(cv), verifying),
    ensures
        spec_verify(spec_token(cv, signing), verifying, now) == Err::<ClaimsView, TokenError>(
            TokenError::InvalidSignature,
        ),
{
    lemma_token_shape(cv, signing);
}

/// Expiry boundary: a signed token verifies at every instant strictly
/// before its expiry and is rejected as expired at the expiry instant
/// and at every later one.
pub proof fn lemma_verify_expiry(cv: ClaimsView, secret: Seq<char>, now: u64)
    requires
        bounded_claims(cv),
    ensures
        now >= cv.exp ==> spec_verify(spec_token(cv, secret), secret, now) == Err::<
            ClaimsView,
            TokenError,
        >(TokenError::Expired),
        now < cv.exp ==> spec_verify(spec_token(cv, secret), secret, now) == Ok::<
            ClaimsView,
            TokenError,
        >(cv),
{
    lemma_token_shape(cv, secret);
    lemma_sp_claims_of_enc(cv);
}

/// The separator of a signed token sits exactly after the payload, so
/// verification recovers the payload and signature that signing wrote.
proof fn lemma_token_shape(cv: ClaimsView, secret: Seq<char>)
    ensures
        find_dot(spec_token(cv, secret), 0) == enc_claims(cv).len(),
        spec_token(cv, secret).subrange(0, enc_claims(cv).len() as int) =~= enc_claims(cv),
        spec_token(cv, secret).subrange(
            enc_claims(cv).len() + 1 as int,
            spec_token(cv, secret).len() as int,
        ) =~= hs256_signature(enc_claims(cv), secret),
{
    let p = enc_claims(cv);
    let sig = hs256_signature(p, secret);
    let t = spec_token(cv, secret);
    lemma_enc_claims_payload(cv);
    assert(t.len() == p.len() + 1 + sig.len());
    assert(t[p.len() as int] == '.');
    assert(forall|k: int| 0 <= k < p.len() ==> t[k] == #[trigger] p[k]);
    assert(forall|k: int| 0 <= k < p.len() ==> t[k] != '.');
    lemma_find_dot_at(t, 0, p.len() as int);
}

} // verus!
