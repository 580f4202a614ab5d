//! The issuance services: signing and decoding on behalf of handlers.
//!
//! Both services hold only immutable configuration, so one instance is
//! safely shared across concurrent requests. The trait is the seam by
//! which handlers depend on issuance without naming the concrete
//! implementation.

use vstd::prelude::*;

verus! {

use crate::claims::{Claims, spec_build_claims};
use crate::token::{TokenError, encode_token, decode_token, spec_token, spec_verify, verify_view};

/// Why signing failed.
#[derive(Clone, Copy, Debug, PartialEq, Eq, Structural)]
pub enum JWTServiceError {
    SignFailed,
}

/// A service that signs claims into tokens.
pub trait JWTService: Sized {
    /// The secret the service signs with.
    spec fn secret_view(&self) -> Seq<char>;

    /// Builds claims for `subject` expiring `ttl_seconds` from now and
    /// signs them.
    fn sign_token(
        &self,
        subject: String,
        ttl_seconds: u64,
        roles: Vec<String>,
        policies: Vec<String>,
    ) -> (r: Result<String, JWTServiceError>)
        ensures
            r matches Ok(t) ==> exists|now: u64|
                t@ == spec_token(
                    spec_build_claims(
                        subject@,
                        ttl_seconds,
                        roles.deep_view(),
                        policies.deep_view(),
                        now,
                    ),
                    self.secret_view(),
                ),
    ;
}

/// The production signing service: holds the shared secret.
pub struct JWTServiceImpl {
    pub secret: String,
}

impl JWTServiceImpl {
    pub fn new(secret: String) -> (r: Self)
        ensures
            r.secret == secret,
    {
        JWTServiceImpl { secret }
    }
}

impl JWTService for JWTServiceImpl {
    open spec fn secret_view(&self) -> Seq<char> {
        self.secret@
    }

    fn sign_token(
        &self,
        subject: String,
        ttl_seconds: u64,
        roles: Vec<String>,
        policies: Vec<String>,
    ) -> (r: Result<String, JWTServiceError>)
        ensures
            r is Ok,
    {
        let claims = crate::claims::build_claims(subject, ttl_seconds, roles, policies);
        match encode_token(&claims, self.secret.as_str()) {
            Ok(t) => Ok(t),
            Err(_) => Err(JWTServiceError::SignFailed),
        }
    }
}

/// The request-side auth service: issues, decodes, and exposes the
/// issuance configuration.
pub trait AuthServiceTrait: Sized {
    spec fn secret_view(&self) -> Seq<char>;

    spec fn ttl_view(&self) -> u64;

    spec fn environment_view(&self) -> Seq<char>;

    /// Issues a token for `sub` with the configured time-to-live.
    fn issue_token(
        &self,
        sub: &str,
        roles: Vec<String>,
        policies: Vec<String>,
    ) -> (r: Result<String, String>)
        ensures
            r matches Ok(t) ==> exists|now: u64|
                t@ == spec_token(
                    spec_build_claims(
                        sub@,
                        self.ttl_view(),
                        roles.deep_view(),
                        policies.deep_view(),
                        now,
                    ),
                    self.secret_view(),
                ),
    ;

    /// Verifies a token with the configured secret at the current
    /// instant.
    fn decode_token(&self, token: &str) -> (r: Result<Claims, String>)
        ensures
            r matches Ok(c) ==> exists|now: u64|
                spec_verify(token@, self.secret_view(), now) == Ok::<_, TokenError>(c@),
            r is Err ==> exists|now: u64| spec_verify(token@, self.secret_view(), now) is Err,
    ;

    fn jwt_ttl(&self) -> (r: u64)
        ensures
            r == self.ttl_view(),
    ;

    fn environment(&self) -> (r: &str)
        ensures
            r@ == self.environment_view(),
    ;
}

/// The production auth service.
pub struct AuthServiceImpl {
    pub jwt_secret: String,
    pub jwt_ttl: u64,
    pub environment: String,
}

impl AuthServiceImpl {
    pub fn new(jwt_secret: String, jwt_ttl: u64, environment: String) -> (r: Self)
        ensures
            r.jwt_secret@ == jwt_secret@,
            r.jwt_ttl == jwt_ttl,
            r.environment@ == environment@,
    {
        AuthServiceImpl { jwt_secret, jwt_ttl, environment }
    }
}

impl AuthServiceTrait for AuthServiceImpl {
    open spec fn secret_view(&self) -> Seq<char> {
        self.jwt_secret@
    }

    open spec fn ttl_view(&self) -> u64 {
        self.jwt_ttl
    }

    open spec fn environment_view(&self) -> Seq<char> {
        self.environment@
    }

    fn issue_token(
        &self,
        sub: &str,
        roles: Vec<String>,
        policies: Vec<String>,
    ) -> (r: Result<String, String>)
        ensures
            r is Ok,
    {
        let subject = sub.to_owned();
        let ghost rv = roles.deep_view();
        let ghost pv = policies.deep_view();
        let claims = crate::claims::build_claims(subject, self.jwt_ttl, roles, policies);
        let ghost n = choose|n: u64| claims@ == spec_build_claims(sub@, self.jwt_ttl, rv, pv, n);
        proof {
            assert(claims@ == spec_build_claims(sub@, self.jwt_ttl, rv, pv, n));
        }
        match encode_token(&claims, self.jwt_secret.as_str()) {
            Ok(t) => {
                proof {
                    assert(t@ == spec_token(
                        spec_build_claims(sub@, self.ttl_view(), rv, pv, n),
                        self.secret_view(),
                    ));
                }
                Ok(t)
            },
            Err(_) => Err(String::from_str("failed to create jwt token")),
        }
    }

    fn decode_token(&self, token: &str) -> (r: Result<Claims, String>)
    {
        let inner = decode_token(token, self.jwt_secret.as_str());
        proof {
            let n = choose|n: u64|
                verify_view(inner) == spec_verify(token@, self.jwt_secret@, n);
            assert(verify_view(inner) == spec_verify(token@, self.jwt_secret@, n));
            match inner {
                Ok(ref c) => {
                    assert(spec_verify(token@, self.secret_view(), n) == Ok::<
                        _,
                        TokenError,
                    >(c@));
                },
                Err(_) => {
                    assert(spec_verify(token@, self.secret_view(), n) is Err);
                },
            }
        }
        match inner {
            Ok(c) => Ok(c),
            Err(_) => Err(String::from_str("invalid token")),
        }
    }

    fn jwt_ttl(&self) -> (r: u64)
    {
        self.jwt_ttl
    }

    fn environment(&self) -> (r: &str)
    {
        self.environment.as_str()
    }
}

} // verus!
