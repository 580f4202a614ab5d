//! The auth endpoints' decision logic, transport-free.
//!
//! Every handler body that decides something lives here over plain
//! values: the debug issuance paths and their production guard, login,
//! logout and its cookie-only rule, refresh, and the identity echo.
//! Transport adapters only move header values and response bodies.

use vstd::prelude::*;

verus! {

use crate::claims::{Claims, spec_build_claims};
use crate::extract::{opt_view, spec_bearer_token, bearer_token, spec_cookie_token};
use crate::numerals::{chars_to_string, dec_digits, push_decimal};
use crate::respond::{
    AuthController, CookieResponse, SingleResponse, StandardResponse, spec_auth_cookie,
    spec_validate_sign_in, validate_sign_in,
};
use crate::service::{AuthServiceImpl, AuthServiceTrait};
use crate::token::{TokenError, spec_token, spec_verify, verify_token_at};
use vstd::string::StrSliceExecFns;

/// How an endpoint refuses a request, mirrored onto each transport's
/// status codes by the adapters.
#[derive(Debug)]
pub enum ApiError {
    /// The route does not exist for this caller; also the answer for
    /// debug issuance in production, so the path is not discoverable.
    NotFound,
    /// No usable credential accompanied the request.
    Unauthenticated,
    /// The request body failed validation.
    InvalidArgument(String),
    /// The operation is not meaningful for this caller.
    PermissionDenied(String),
    /// An internal fault that should not surface in detail.
    Internal,
}

/// The body the identity endpoint answers with.
pub struct AuthorizeResponse {
    pub user_id: String,
}

/// An HTTP sign-in body.
pub struct SignInRequest {
    pub email: String,
    pub password: String,
}

/// The query parameters of the debug issuance routes.
pub struct DebugQuery {
    pub role: Option<String>,
    pub user_policy: Option<String>,
}

/// The decimal rendering of a signed identifier.
pub open spec fn spec_i64_dec(id: i64) -> Seq<char> {
    if id >= 0 {
        dec_digits(id as nat)
    } else {
        seq!['-'] + dec_digits((-(id as int)) as nat)
    }
}

/// Renders a signed identifier in decimal.
pub fn i64_to_string(id: i64) -> (r: String)
    ensures
        r@ == spec_i64_dec(id),
{
    let mut out: Vec<char> = Vec::new();
    if id >= 0 {
        push_decimal(&mut out, id as u64);
    } else {
        out.push('-');
        let mag: u64 = ((-(id + 1)) as u64) + 1;
        push_decimal(&mut out, mag);
    }
    chars_to_string(&out)
}

/// The role a debug request issues: the given one, or `user`.
pub open spec fn spec_debug_role(role: Option<Seq<char>>) -> Seq<char> {
    match role {
        Some(r) => if r.len() == 0 {
            "user"@
        } else {
            r
        },
        None => "user"@,
    }
}

/// The policies a debug request issues: the given one alone, or none.
pub open spec fn spec_debug_policies(policy: Option<Seq<char>>) -> Seq<Seq<char>> {
    match policy {
        Some(p) => if p.len() == 0 {
            Seq::empty()
        } else {
            seq![p]
        },
        None => Seq::empty(),
    }
}

fn debug_grants(role: Option<&str>, user_policy: Option<&str>) -> (r: (Vec<String>, Vec<String>))
    ensures
        r.0.deep_view() =~= seq![spec_debug_role(opt_view(role))],
        r.1.deep_view() =~= spec_debug_policies(opt_view(user_policy)),
{
    let role_value = match role {
        Some(s) => {
            if s.unicode_len() == 0 {
                String::from_str("user")
            } else {
                s.to_owned()
            }
        },
        None => String::from_str("user"),
    };
    let mut roles: Vec<String> = Vec::new();
    roles.push(role_value);
    let mut policies: Vec<String> = Vec::new();
    match user_policy {
        Some(p) => {
            if p.unicode_len() > 0 {
                policies.push(p.to_owned());
            }
        },
        None => {},
    }
    proof {
        assert(roles.deep_view() =~= seq![spec_debug_role(opt_view(role))]);
        assert(policies.deep_view() =~= spec_debug_policies(opt_view(user_policy)));
    }
    (roles, policies)
}

/// The auth endpoints' shared state: the issuance service.
pub struct AuthEndpoint {
    pub service: AuthServiceImpl,
}

impl AuthEndpoint {
    pub fn new(service: AuthServiceImpl) -> (r: Self)
        ensures
            r.service == service,
    {
        AuthEndpoint { service }
    }

    /// Issues a token for `sub` under the configured secret and
    /// time-to-live.
    pub fn issue_token(
        &self,
        sub: &str,
        roles: Vec<String>,
        policies: Vec<String>,
    ) -> (r: Result<String, ApiError>)
        ensures
            r is Ok,
            r matches Ok(t) ==> exists|now: u64|
                t@ == spec_token(
                    spec_build_claims(
                        sub@,
                        self.service.jwt_ttl,
                        roles.deep_view(),
                        policies.deep_view(),
                        now,
                    ),
                    self.service.jwt_secret@,
                ),
    {
        match self.service.issue_token(sub, roles, policies) {
            Ok(t) => Ok(t),
            Err(_) => Err(ApiError::Internal),
        }
    }

    /// Reads and verifies the bearer credential of a request at the
    /// given instant: only the `authorization` slot is consulted here,
    /// and any verification failure is reported as unauthenticated.
    pub fn extract_claims_at(&self, authorization: Option<&str>, now: u64) -> (r: Result<
        Claims,
        ApiError,
    >)
        ensures
            (match opt_view(authorization) {
                Some(a) => spec_bearer_token(a) is None,
                None => true,
            }) ==> r is Err,
            r matches Ok(c) ==> {
                &&& opt_view(authorization) is Some
                &&& spec_bearer_token(opt_view(authorization)->Some_0) is Some
                &&& spec_verify(
                    spec_bearer_token(opt_view(authorization)->Some_0)->Some_0,
                    self.service.jwt_secret@,
                    now,
                ) == Ok::<_, TokenError>(c@)
            },
            r is Err ==> (match opt_view(authorization) {
                Some(a) => match spec_bearer_token(a) {
                    Some(t) => spec_verify(t, self.service.jwt_secret@, now) is Err,
                    None => true,
                },
                None => true,
            }),
            (match opt_view(authorization) {
                Some(a) => match spec_bearer_token(a) {
                    Some(t) => spec_verify(t, self.service.jwt_secret@, now) is Ok,
                    None => false,
                },
                None => false,
            }) ==> r is Ok,
    {
        let token = match authorization {
            Some(a) => match bearer_token(a) {
                Some(t) => t,
                None => {
                    return Err(ApiError::Unauthenticated);
                },
            },
            None => {
                return Err(ApiError::Unauthenticated);
            },
        };
        match verify_token_at(token.as_str(), self.service.jwt_secret.as_str(), now) {
            Ok(c) => Ok(c),
            Err(_) => Err(ApiError::Unauthenticated),
        }
    }

    /// Debug issuance as a cookie. In production the route answers as
    /// if it did not exist, whatever role or policy was asked for.
    pub fn debug_cookie(&self, id: i64, role: Option<&str>, user_policy: Option<&str>) -> (r:
        Result<CookieResponse, ApiError>)
        ensures
            self.service.environment@ == "production"@ <==> (r matches Err(e) && e is NotFound),
            self.service.environment@ != "production"@ ==> r is Ok,
            r matches Ok(resp) ==> {
                &&& self.service.environment@ != "production"@
                &&& exists|now: u64|
                    resp.set_cookie@ == spec_auth_cookie(
                        spec_token(
                            spec_build_claims(
                                spec_i64_dec(id),
                                self.service.jwt_ttl,
                                seq![spec_debug_role(opt_view(role))],
                                spec_debug_policies(opt_view(user_policy)),
                                now,
                            ),
                            self.service.jwt_secret@,
                        ),
                        self.service.jwt_ttl,
                    )
                &&& resp.body.message@ == "Authenticate successfully"@
            },
    {
        let production = String::from_str("production");
        if self.service.environment.eq(&production) {
            return Err(ApiError::NotFound);
        }
        let (roles, policies) = debug_grants(role, user_policy);
        let subject = i64_to_string(id);
        match self.issue_token(subject.as_str(), roles, policies) {
            Ok(t) => Ok(AuthController::cookie_response(
                t.as_str(),
                self.service.jwt_ttl,
                "Authenticate successfully",
            )),
            Err(_) => Err(ApiError::Internal),
        }
    }

    /// Debug issuance as a bearer token, under the same production
    /// guard.
    pub fn debug_jwt(&self, id: i64, role: Option<&str>, user_policy: Option<&str>) -> (r:
        Result<SingleResponse, ApiError>)
        ensures
            self.service.environment@ == "production"@ <==> (r matches Err(e) && e is NotFound),
            self.service.environment@ != "production"@ ==> r is Ok,
            r matches Ok(resp) ==> {
                &&& self.service.environment@ != "production"@
                &&& resp.data is Some
                &&& exists|now: u64|
                    resp.data->Some_0@ == spec_token(
                        spec_build_claims(
                            spec_i64_dec(id),
                            self.service.jwt_ttl,
                            seq![spec_debug_role(opt_view(role))],
                            spec_debug_policies(opt_view(user_policy)),
                            now,
                        ),
                        self.service.jwt_secret@,
                    )
                &&& resp.message@ == "Authenticate successfully"@
            },
    {
        let production = String::from_str("production");
        if self.service.environment.eq(&production) {
            return Err(ApiError::NotFound);
        }
        let (roles, policies) = debug_grants(role, user_policy);
        let subject = i64_to_string(id);
        match self.issue_token(subject.as_str(), roles, policies) {
            Ok(t) => Ok(AuthController::token_response(t.as_str(), "Authenticate successfully")),
            Err(_) => Err(ApiError::Internal),
        }
    }

    /// Sign-in delivered as a cookie: validation first, then issuance
    /// with the standard seat-reading grants.
    pub fn login_cookie(&self, email: &str, password: &str) -> (r: Result<
        CookieResponse,
        ApiError,
    >)
        ensures
            r is Ok <==> spec_validate_sign_in(email@, password@) is None,
            (spec_validate_sign_in(email@, password@) is Some) <==> (r matches Err(e)
                && e is InvalidArgument),
            r matches Err(e) ==> (e matches ApiError::InvalidArgument(msg)
                ==> spec_validate_sign_in(email@, password@) == Some(msg@)),
            r matches Ok(resp) ==> exists|now: u64|
                resp.set_cookie@ == spec_auth_cookie(
                    spec_token(
                        spec_build_claims(
                            email@,
                            self.service.jwt_ttl,
                            seq!["user"@],
                            seq!["read:seats"@],
                            now,
                        ),
                        self.service.jwt_secret@,
                    ),
                    self.service.jwt_ttl,
                ),
    {
        if let Err(m) = validate_sign_in(email, password) {
            return Err(ApiError::InvalidArgument(m));
        }
        let (roles, policies) = seat_grants();
        match self.issue_token(email, roles, policies) {
            Ok(t) => Ok(AuthController::cookie_response(
                t.as_str(),
                self.service.jwt_ttl,
                "Authenticate successfully",
            )),
            Err(_) => Err(ApiError::Internal),
        }
    }

    /// Sign-in delivered as a bearer token in the body.
    pub fn login_token(&self, email: &str, password: &str) -> (r: Result<
        SingleResponse,
        ApiError,
    >)
        ensures
            r is Ok <==> spec_validate_sign_in(email@, password@) is None,
            (spec_validate_sign_in(email@, password@) is Some) <==> (r matches Err(e)
                && e is InvalidArgument),
            r matches Err(e) ==> (e matches ApiError::InvalidArgument(msg)
                ==> spec_validate_sign_in(email@, password@) == Some(msg@)),
            r matches Ok(resp) ==> resp.data is Some && exists|now: u64|
                resp.data->Some_0@ == spec_token(
                    spec_build_claims(
                        email@,
                        self.service.jwt_ttl,
                        seq!["user"@],
                        seq!["read:seats"@],
                        now,
                    ),
                    self.service.jwt_secret@,
                ),
    {
        if let Err(m) = validate_sign_in(email, password) {
            return Err(ApiError::InvalidArgument(m));
        }
        let (roles, policies) = seat_grants();
        match self.issue_token(email, roles, policies) {
            Ok(t) => Ok(AuthController::token_response(t.as_str(), "Authenticate successfully")),
            Err(_) => Err(ApiError::Internal),
        }
    }

    /// The validation-only probe: accepts exactly what sign-in accepts.
    pub fn test(&self, email: &str, password: &str) -> (r: Result<StandardResponse, ApiError>)
        ensures
            r is Ok <==> spec_validate_sign_in(email@, password@) is None,
            r is Ok <==> spec_validate_sign_in(email@, password@) is None,
            (spec_validate_sign_in(email@, password@) is Some) <==> (r matches Err(e)
                && e is InvalidArgument),
            r matches Err(e) ==> (e matches ApiError::InvalidArgument(msg)
                ==> spec_validate_sign_in(email@, password@) == Some(msg@)),
    {
        match validate_sign_in(email, password) {
            Ok(()) => Ok(StandardResponse { message: String::new() }),
            Err(m) => Err(ApiError::InvalidArgument(m)),
        }
    }

    /// Logout over a bearer transport is never meaningful: the server
    /// holds no cookie to clear for such a credential, so the request
    /// is always refused rather than silently accepted.
    pub fn logout(&self) -> (r: Result<StandardResponse, ApiError>)
        ensures
            r matches Err(e) && e matches ApiError::PermissionDenied(m) && m@
                == "only cookie-based authentication can be logged out"@,
    {
        Err(ApiError::PermissionDenied(String::from_str(
            "only cookie-based authentication can be logged out",
        )))
    }

    /// Re-issues a token from the request's verified claims: subject,
    /// roles and policies are taken from the verified record alone,
    /// never from caller input.
    pub fn refresh(&self, authorization: Option<&str>, now: u64) -> (r: Result<
        SingleResponse,
        ApiError,
    >)
        ensures
            r matches Ok(resp) ==> {
                &&& opt_view(authorization) is Some
                &&& spec_bearer_token(opt_view(authorization)->Some_0) is Some
                &&& spec_verify(
                    spec_bearer_token(opt_view(authorization)->Some_0)->Some_0,
                    self.service.jwt_secret@,
                    now,
                ) is Ok
                &&& resp.data is Some
                &&& exists|later: u64|
                    resp.data->Some_0@ == spec_token(
                        spec_build_claims(
                            spec_verify(
                                spec_bearer_token(opt_view(authorization)->Some_0)->Some_0,
                                self.service.jwt_secret@,
                                now,
                            )->Ok_0.sub,
                            self.service.jwt_ttl,
                            spec_verify(
                                spec_bearer_token(opt_view(authorization)->Some_0)->Some_0,
                                self.service.jwt_secret@,
                                now,
                            )->Ok_0.roles,
                            spec_verify(
                                spec_bearer_token(opt_view(authorization)->Some_0)->Some_0,
                                self.service.jwt_secret@,
                                now,
                            )->Ok_0.policies,
                            later,
                        ),
                        self.service.jwt_secret@,
                    )
            },
            (match opt_view(authorization) {
                Some(a) => spec_bearer_token(a) is None,
                None => true,
            }) ==> r is Err,
            (match opt_view(authorization) {
                Some(a) => match spec_bearer_token(a) {
                    Some(t) => spec_verify(t, self.service.jwt_secret@, now) is Ok,
                    None => false,
                },
                None => false,
            }) ==> r is Ok,
    {
        let claims = match self.extract_claims_at(authorization, now) {
            Ok(c) => c,
            Err(e) => {
                return Err(e);
            },
        };
        let c = claims.clone();
        let ghost rv = c.roles.deep_view();
        let ghost pv = c.policies.deep_view();
        proof {
            assert(rv =~= claims@.roles);
            assert(pv =~= claims@.policies);
        }
        match self.issue_token(c.sub.as_str(), c.roles, c.policies) {
            Ok(t) => {
                let ghost cv = spec_verify(
                    spec_bearer_token(opt_view(authorization)->Some_0)->Some_0,
                    self.service.jwt_secret@,
                    now,
                )->Ok_0;
                let ghost n2 = choose|n: u64|
                    t@ == spec_token(
                        spec_build_claims(claims@.sub, self.service.jwt_ttl, rv, pv, n),
                        self.service.jwt_secret@,
                    );
                proof {
                    assert(cv == claims@);
                    assert(t@ == spec_token(
                        spec_build_claims(cv.sub, self.service.jwt_ttl, cv.roles, cv.policies, n2),
                        self.service.jwt_secret@,
                    ));
                }
                let resp = AuthController::token_response(t.as_str(), "Refresh successfully");
                proof {
                    assert(resp.data->Some_0@ == spec_token(
                        spec_build_claims(cv.sub, self.service.jwt_ttl, cv.roles, cv.policies, n2),
                        self.service.jwt_secret@,
                    ));
                }
                Ok(resp)
            },
            Err(_) => Err(ApiError::Internal),
        }
    }

    /// Echoes the verified principal's identifier.
    pub fn authorize(&self, authorization: Option<&str>, now: u64) -> (r: Result<
        AuthorizeResponse,
        ApiError,
    >)
        ensures
            r matches Ok(resp) ==> {
                &&& opt_view(authorization) is Some
                &&& spec_bearer_token(opt_view(authorization)->Some_0) is Some
                &&& spec_verify(
                    spec_bearer_token(opt_view(authorization)->Some_0)->Some_0,
                    self.service.jwt_secret@,
                    now,
                ) is Ok
                &&& resp.user_id@ == spec_verify(
                    spec_bearer_token(opt_view(authorization)->Some_0)->Some_0,
                    self.service.jwt_secret@,
                    now,
                )->Ok_0.sub
            },
            (match opt_view(authorization) {
                Some(a) => spec_bearer_token(a) is None,
                None => true,
            }) ==> r is Err,
            (match opt_view(authorization) {
                Some(a) => match spec_bearer_token(a) {
                    Some(t) => spec_verify(t, self.service.jwt_secret@, now) is Ok,
                    None => false,
                },
                None => false,
            }) ==> r is Ok,
    {
        match self.extract_claims_at(authorization, now) {
            Ok(c) => Ok(AuthorizeResponse { user_id: c.sub }),
            Err(e) => Err(e),
        }
    }
}

/// The grants a regular sign-in hands out on this surface.
fn seat_grants() -> (r: (Vec<String>, Vec<String>))
    ensures
        r.0.deep_view() =~= seq!["user"@],
        r.1.deep_view() =~= seq!["read:seats"@],
{
    let mut roles: Vec<String> = Vec::new();
    roles.push(String::from_str("user"));
    let mut policies: Vec<String> = Vec::new();
    policies.push(String::from_str("read:seats"));
    proof {
        assert(roles.deep_view() =~= seq!["user"@]);
        assert(policies.deep_view() =~= seq!["read:seats"@]);
    }
    (roles, policies)
}

/// Whether the request authenticated through the cookie rather than a
/// bearer header: no bearer-shaped `Authorization` value, and an
/// `auth_token` pair in the cookie header.
pub fn is_cookie_auth(auth: Option<&str>, cookie: Option<&str>) -> (r: bool)
    ensures
        r == ((match opt_view(auth) {
            Some(a) => spec_bearer_token(a) is None,
            None => true,
        }) && (match opt_view(cookie) {
            Some(c) => spec_cookie_token(c) is Some,
            None => false,
        })),
{
    let bearer = crate::extract::has_bearer_value(auth);
    if bearer {
        return false;
    }
    match cookie {
        Some(c) => crate::extract::cookie_token(c).is_some(),
        None => false,
    }
}

/// The logout rule: only a cookie-authenticated request may log out.
/// A credential that arrived as a bearer header, or no cookie
/// credential at all, is refused rather than silently accepted.
pub fn logout_for_request(auth: Option<&str>, cookie: Option<&str>) -> (r: Result<
    CookieResponse,
    ApiError,
>)
    ensures
        (opt_view(auth) matches Some(a) && spec_bearer_token(a) is Some) ==> r is Err,
        r is Ok <==> ((match opt_view(auth) {
            Some(a) => spec_bearer_token(a) is None,
            None => true,
        }) && (match opt_view(cookie) {
            Some(c) => spec_cookie_token(c) is Some,
            None => false,
        })),
        r matches Ok(resp) ==> resp.set_cookie@ == spec_auth_cookie(Seq::empty(), 0),
{
    if !is_cookie_auth(auth, cookie) {
        return Err(ApiError::PermissionDenied(String::from_str(
            "Only cookie-based authentication can be logged out",
        )));
    }
    Ok(CookieResponse {
        set_cookie: crate::respond::clear_auth_cookie(),
        body: StandardResponse { message: String::from_str("Logout successfully") },
    })
}

} // verus!
