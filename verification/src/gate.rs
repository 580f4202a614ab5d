//! The per-request authentication gate.
//!
//! One gate configuration serves every transport: it extracts a
//! candidate token from the two header slots, verifies it, evaluates
//! the route's rule, and either hands back the claims for the request
//! context or rejects. Extraction and verification failures collapse
//! into one `Unauthenticated` rejection so callers cannot distinguish
//! why a credential was refused; only authorization failures surface as
//! `Forbidden`.

use vstd::prelude::*;

verus! {

use crate::claims::{Claims, ClaimsView};
use crate::extract::{opt_view, spec_extract, extract_token};
use crate::policy::{AuthRule, Decision, RuleView, spec_evaluate, evaluate};
use crate::token::{spec_verify, verify_token_at};

/// How a gate turns a request away.
#[derive(Clone, Copy, Debug, PartialEq, Eq, Structural)]
pub enum Rejection {
    /// No credential was found, or the one found did not verify.
    Unauthenticated,
    /// The credential verified but the route's rule denied it.
    Forbidden,
}

/// The decision made on a request, over mathematical values.
pub open spec fn spec_gate(
    secret: Seq<char>,
    rule: RuleView,
    auth: Option<Seq<char>>,
    cookie: Option<Seq<char>>,
    now: u64,
) -> Result<ClaimsView, Rejection> {
    match spec_extract(auth, cookie) {
        None => Err(Rejection::Unauthenticated),
        Some(tok) => match spec_verify(tok, secret, now) {
            Err(_) => Err(Rejection::Unauthenticated),
            Ok(cv) => if spec_evaluate(cv, rule) == Decision::Allow {
                Ok(cv)
            } else {
                Err(Rejection::Forbidden)
            },
        },
    }
}

/// The mathematical value of a gate outcome.
pub open spec fn gate_view(r: Result<Claims, Rejection>) -> Result<ClaimsView, Rejection> {
    match r {
        Ok(c) => Ok(c@),
        Err(e) => Err(e),
    }
}

/// Copies a list of borrowed names into owned strings.
pub fn own_names(names: Vec<&str>) -> (r: Vec<String>)
    ensures
        r.deep_view() =~= names.deep_view(),
{
    let mut r: Vec<String> = Vec::new();
    let mut i: usize = 0;
    while i < names.len()
        invariant
            i <= names.len(),
            r.deep_view() =~= names.deep_view().subrange(0, i as int),
        decreases names.len() - i,
    {
        let ghost before = r.deep_view();
        r.push(String::from_str(names[i]));
        proof {
            assert(r.deep_view() =~= before.push(r@[r@.len() - 1]@));
            assert(names.deep_view()[i as int] == names@[i as int]@);
            assert(names.deep_view().subrange(0, i + 1) =~= names.deep_view().subrange(
                0,
                i as int,
            ).push(names.deep_view()[i as int]));
        }
        i = i + 1;
    }
    proof {
        assert(names.deep_view().subrange(0, names.deep_view().len() as int)
            =~= names.deep_view());
    }
    r
}

/// A gate configuration: the verification secret and the route's rule.
pub struct JwtAuth {
    pub secret: String,
    pub rule: AuthRule,
}

impl JwtAuth {
    /// Authentication only: any valid token passes.
    pub fn new(secret: String) -> (r: Self)
        ensures
            r.secret@ == secret@,
            r.rule@.required_roles is None,
            r.rule@.required_policies is None,
    {
        JwtAuth {
            secret,
            rule: AuthRule { required_roles: None, required_policies: None },
        }
    }

    /// Authentication plus an ANY-match role requirement.
    pub fn with_roles(secret: String, roles: Vec<&str>) -> (r: Self)
        ensures
            r.secret@ == secret@,
            r.rule@.required_roles == Some(roles.deep_view()),
            r.rule@.required_policies is None,
    {
        let owned = own_names(roles);
        JwtAuth {
            secret,
            rule: AuthRule { required_roles: Some(owned), required_policies: None },
        }
    }

    /// Authentication plus an ALL-match policy requirement.
    pub fn with_policies(secret: String, policies: Vec<&str>) -> (r: Self)
        ensures
            r.secret@ == secret@,
            r.rule@.required_roles is None,
            r.rule@.required_policies == Some(policies.deep_view()),
    {
        let owned = own_names(policies);
        JwtAuth {
            secret,
            rule: AuthRule { required_roles: None, required_policies: Some(owned) },
        }
    }

    /// Authentication plus both requirements.
    pub fn with_rules(secret: String, roles: Vec<&str>, policies: Vec<&str>) -> (r: Self)
        ensures
            r.secret@ == secret@,
            r.rule@.required_roles == Some(roles.deep_view()),
            r.rule@.required_policies == Some(policies.deep_view()),
    {
        let owned_roles = own_names(roles);
        let owned_policies = own_names(policies);
        JwtAuth {
            secret,
            rule: AuthRule {
                required_roles: Some(owned_roles),
                required_policies: Some(owned_policies),
            },
        }
    }

    /// Runs the whole gate on the two header slots of a request at the
    /// given instant: extract, verify, evaluate.
    pub fn authorize_request(
        &self,
        auth: Option<&str>,
        cookie: Option<&str>,
        now: u64,
    ) -> (r: Result<Claims, Rejection>)
        ensures
            gate_view(r) == spec_gate(self.secret@, self.rule@, opt_view(auth), opt_view(cookie), now),
    {
        let token = match extract_token(auth, cookie) {
            Some(t) => t,
            None => {
                return Err(Rejection::Unauthenticated);
            },
        };
        let claims = match verify_token_at(token.as_str(), self.secret.as_str(), now) {
            Ok(c) => c,
            Err(_) => {
                return Err(Rejection::Unauthenticated);
            },
        };
        match evaluate(&claims, &self.rule) {
            Decision::Allow => Ok(claims),
            Decision::Deny(_) => Err(Rejection::Forbidden),
        }
    }

    /// Runs the whole check with the current clock reading.
    pub fn authorize_request_now(
        &self,
        auth: Option<&str>,
        cookie: Option<&str>,
    ) -> (r: Result<Claims, Rejection>)
        ensures
            exists|now: u64|
                gate_view(r) == spec_gate(
                    self.secret@,
                    self.rule@,
                    opt_view(auth),
                    opt_view(cookie),
                    now,
                ),
    {
        let now = crate::claims::now_unix_seconds();
        let r = self.authorize_request(auth, cookie, now);
        proof {
            assert(gate_view(r) == spec_gate(
                self.secret@,
                self.rule@,
                opt_view(auth),
                opt_view(cookie),
                now,
            ));
        }
        r
    }
}

/// The RPC-side gate: the same configuration and rule, reading the
/// request's `authorization` and `cookie` metadata entries.
pub struct JwtAuthInterceptor {
    pub secret: String,
    pub rule: AuthRule,
}

impl JwtAuthInterceptor {
    /// Authentication only: any valid token passes.
    pub fn new(secret: String) -> (r: Self)
        ensures
            r.secret@ == secret@,
            r.rule@.required_roles is None,
            r.rule@.required_policies is None,
    {
        JwtAuthInterceptor {
            secret,
            rule: AuthRule { required_roles: None, required_policies: None },
        }
    }

    /// Authentication plus an ANY-match role requirement.
    pub fn with_roles(secret: String, roles: Vec<&str>) -> (r: Self)
        ensures
            r.secret@ == secret@,
            r.rule@.required_roles == Some(roles.deep_view()),
            r.rule@.required_policies is None,
    {
        let owned = own_names(roles);
        JwtAuthInterceptor {
            secret,
            rule: AuthRule { required_roles: Some(owned), required_policies: None },
        }
    }

    /// Authentication plus an ALL-match policy requirement.
    pub fn with_policies(secret: String, policies: Vec<&str>) -> (r: Self)
        ensures
            r.secret@ == secret@,
            r.rule@.required_roles is None,
            r.rule@.required_policies == Some(policies.deep_view()),
    {
        let owned = own_names(policies);
        JwtAuthInterceptor {
            secret,
            rule: AuthRule { required_roles: None, required_policies: Some(owned) },
        }
    }

    /// Authentication plus both requirements.
    pub fn with_rules(secret: String, roles: Vec<&str>, policies: Vec<&str>) -> (r: Self)
        ensures
            r.secret@ == secret@,
            r.rule@.required_roles == Some(roles.deep_view()),
            r.rule@.required_policies == Some(policies.deep_view()),
    {
        let owned_roles = own_names(roles);
        let owned_policies = own_names(policies);
        JwtAuthInterceptor {
            secret,
            rule: AuthRule {
                required_roles: Some(owned_roles),
                required_policies: Some(owned_policies),
            },
        }
    }

    /// Runs the whole check on the two metadata entries of an RPC request at
    /// the given instant; the decision is the same the HTTP gate makes
    /// on equal header values.
    pub fn intercept(
        &self,
        authorization: Option<&str>,
        cookie: Option<&str>,
        now: u64,
    ) -> (r: Result<Claims, Rejection>)
        ensures
            gate_view(r) == spec_gate(
                self.secret@,
                self.rule@,
                opt_view(authorization),
                opt_view(cookie),
                now,
            ),
    {
        let token = match extract_token(authorization, cookie) {
            Some(t) => t,
            None => {
                return Err(Rejection::Unauthenticated);
            },
        };
        let claims = match verify_token_at(token.as_str(), self.secret.as_str(), now) {
            Ok(c) => c,
            Err(_) => {
                return Err(Rejection::Unauthenticated);
            },
        };
        match evaluate(&claims, &self.rule) {
            Decision::Allow => Ok(claims),
            Decision::Deny(_) => Err(Rejection::Forbidden),
        }
    }
}

} // verus!
