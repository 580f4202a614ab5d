//! The login handlers' decision logic, shared by both transports.

use vstd::prelude::*;

verus! {

use crate::claims::{Claims, spec_build_claims};
use crate::config::Config;
use crate::respond::ensure_credentials;
use crate::service::{JWTService, JWTServiceImpl};
use crate::token::spec_token;

/// The body a login request carries.
pub struct LoginRequest {
    pub username: String,
    pub password: String,
}

/// The body a bearer-token login answers with.
pub struct LoginJwtResponse {
    pub status: String,
    pub token: String,
}

/// The body a cookie login answers with.
pub struct LoginResponse {
    pub status: String,
}

/// The body a logout answers with.
pub struct LogoutResponse {
    pub status: String,
}

/// How a login attempt fails: bad credentials, or a signing fault.
#[derive(Clone, Copy, Debug, PartialEq, Eq, Structural)]
pub enum LoginError {
    InvalidCredentials,
    SigningFailed,
}

/// The fixed grants a freshly authenticated subject receives.
pub fn default_grants() -> (r: (Vec<String>, Vec<String>))
    ensures
        r.0.deep_view() =~= seq!["user"@],
        r.1.deep_view() =~= seq!["protected.read"@],
{
    let mut roles: Vec<String> = Vec::new();
    roles.push(String::from_str("user"));
    let mut policies: Vec<String> = Vec::new();
    policies.push(String::from_str("protected.read"));
    proof {
        assert(roles.deep_view() =~= seq!["user"@]);
        assert(policies.deep_view() =~= seq!["protected.read"@]);
    }
    (roles, policies)
}

/// Signs a token for `username` with the default grants and the
/// configured time-to-live.
pub fn sign_token(
    jwt_service: &JWTServiceImpl,
    config: &Config,
    username: &str,
) -> (r: Result<String, ()>)
    ensures
        r is Ok,
        r matches Ok(t) ==> exists|now: u64|
            t@ == spec_token(
                spec_build_claims(
                    username@,
                    config.jwt_ttl,
                    seq!["user"@],
                    seq!["protected.read"@],
                    now,
                ),
                jwt_service.secret@,
            ),
{
    let (roles, policies) = default_grants();
    let subject = username.to_owned();
    match jwt_service.sign_token(subject, config.jwt_ttl, roles, policies) {
        Ok(t) => Ok(t),
        Err(_) => Err(()),
    }
}

pub fn login_jwt_response(token: String) -> (r: LoginJwtResponse)
    ensures
        r.status@ == "ok"@,
        r.token == token,
{
    LoginJwtResponse { status: String::from_str("ok"), token }
}

pub fn login_response() -> (r: LoginResponse)
    ensures
        r.status@ == "ok"@,
{
    LoginResponse { status: String::from_str("ok") }
}

pub fn logout_response() -> (r: LogoutResponse)
    ensures
        r.status@ == "ok"@,
{
    LogoutResponse { status: String::from_str("ok") }
}

/// The login service: checks credentials and issues tokens. One value
/// serves both the HTTP routes and the RPC methods.
pub struct AuthController {
    pub config: Config,
    pub jwt_service: JWTServiceImpl,
}

impl AuthController {
    pub fn new(config: Config, jwt_service: JWTServiceImpl) -> (r: Self)
        ensures
            r.config == config,
            r.jwt_service == jwt_service,
    {
        AuthController { config, jwt_service }
    }

    /// Authenticates and answers with a bearer token. Fails with
    /// `InvalidCredentials` exactly on wrong credentials.
    pub fn login_jwt(&self, username: &str, password: &str) -> (r: Result<
        LoginJwtResponse,
        LoginError,
    >)
        ensures
            r is Ok <==> (username@ == "admin"@ && password@ == "admin"@),
            !(username@ == "admin"@ && password@ == "admin"@) <==> r == Err::<
                LoginJwtResponse,
                _,
            >(LoginError::InvalidCredentials),
            r matches Ok(resp) ==> resp.status@ == "ok"@ && exists|now: u64|
                resp.token@ == spec_token(
                    spec_build_claims(
                        username@,
                        self.config.jwt_ttl,
                        seq!["user"@],
                        seq!["protected.read"@],
                        now,
                    ),
                    self.jwt_service.secret@,
                ),
    {
        if ensure_credentials(username, password).is_err() {
            return Err(LoginError::InvalidCredentials);
        }
        match sign_token(&self.jwt_service, &self.config, username) {
            Ok(t) => Ok(login_jwt_response(t)),
            Err(_) => Err(LoginError::SigningFailed),
        }
    }

    /// Authenticates and answers with a session cookie carrying the
    /// token, living the configured time-to-live.
    pub fn login_cookie(&self, username: &str, password: &str) -> (r: Result<
        (crate::respond::CookieResponse, LoginResponse),
        LoginError,
    >)
        ensures
            r is Ok <==> (username@ == "admin"@ && password@ == "admin"@),
            !(username@ == "admin"@ && password@ == "admin"@) <==> r == Err::<
                (crate::respond::CookieResponse, LoginResponse),
                _,
            >(LoginError::InvalidCredentials),
            r matches Ok((cookie, resp)) ==> resp.status@ == "ok"@ && exists|now: u64|
                cookie.set_cookie@ == crate::respond::spec_auth_cookie(
                    spec_token(
                        spec_build_claims(
                            username@,
                            self.config.jwt_ttl,
                            seq!["user"@],
                            seq!["protected.read"@],
                            now,
                        ),
                        self.jwt_service.secret@,
                    ),
                    self.config.jwt_ttl,
                ),
    {
        if ensure_credentials(username, password).is_err() {
            return Err(LoginError::InvalidCredentials);
        }
        match sign_token(&self.jwt_service, &self.config, username) {
            Ok(t) => {
                let ghost n = choose|n: u64|
                    t@ == spec_token(
                        spec_build_claims(
                            username@,
                            self.config.jwt_ttl,
                            seq!["user"@],
                            seq!["protected.read"@],
                            n,
                        ),
                        self.jwt_service.secret@,
                    );
                let cookie = crate::respond::AuthController::cookie_response(
                    t.as_str(),
                    self.config.jwt_ttl,
                    "Authenticate successfully",
                );
                Ok((cookie, login_response()))
            },
            Err(_) => Err(LoginError::SigningFailed),
        }
    }

    /// Answers a logout with the clearing cookie.
    pub fn logout(&self) -> (r: (crate::respond::CookieResponse, LogoutResponse))
        ensures
            r.0.set_cookie@ == crate::respond::spec_auth_cookie(Seq::empty(), 0),
            r.1.status@ == "ok"@,
    {
        let cookie = crate::respond::CookieResponse {
            set_cookie: crate::respond::clear_auth_cookie(),
            body: crate::respond::StandardResponse {
                message: String::from_str("Logout successfully"),
            },
        };
        (cookie, logout_response())
    }
}

/// The health service.
pub struct HeathController;

impl HeathController {
    pub fn new() -> (r: Self) {
        HeathController
    }
}

/// The body a health check answers with.
pub struct HeathResponse {
    pub status: String,
    pub service: String,
}

/// The health answer: the service is up, under its published name.
pub fn heath_response() -> (r: HeathResponse)
    ensures
        r.status@ == "ok"@,
        r.service@ == "rust-api-server"@,
{
    HeathResponse {
        status: String::from_str("ok"),
        service: String::from_str("rust-api-server"),
    }
}

/// The identity-echo service behind authentication.
pub struct ProtectedController;

/// The body the identity echo answers with: the claims middleware
/// attached, verbatim.
pub struct ProtectedResponse {
    pub sub: String,
    pub roles: Vec<String>,
    pub policies: Vec<String>,
}

impl ProtectedController {
    /// Echoes the authenticated identity out of the request's claims.
    pub fn me(claims: &Claims) -> (r: ProtectedResponse)
        ensures
            r.sub@ == claims@.sub,
            r.roles.deep_view() == claims@.roles,
            r.policies.deep_view() == claims@.policies,
    {
        let c = claims.clone();
        proof {
            assert(c.roles.deep_view() =~= claims@.roles);
            assert(c.policies.deep_view() =~= claims@.policies);
        }
        ProtectedResponse { sub: c.sub, roles: c.roles, policies: c.policies }
    }
}

} // verus!
