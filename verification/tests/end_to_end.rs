//! End-to-end flows: issuance, the request check, logout, debug paths.

use authgate::claims::build_claims_at;
use authgate::endpoint::{logout_for_request, ApiError, AuthEndpoint};
use authgate::gate::{JwtAuth, JwtAuthInterceptor, Rejection};
use authgate::service::{AuthServiceImpl, AuthServiceTrait};
use authgate::token::encode_token;

const SECRET: &str = "shared-secret";

fn issue_alice(now: u64) -> String {
    let claims = build_claims_at(
        "alice".to_string(),
        3600,
        vec!["user".to_string()],
        vec!["read:seats".to_string()],
        now,
    );
    encode_token(&claims, SECRET).unwrap()
}

#[test]
fn bearer_request_passes_policy_route_and_reaches_handler() {
    let now = 1_700_000_000u64;
    let token = issue_alice(now);
    let auth_header = format!("Bearer {}", token);
    let route = JwtAuth::with_policies(SECRET.to_string(), vec!["read:seats"]);
    let claims = route
        .authorize_request(Some(&auth_header), None, now + 10)
        .unwrap();
    assert_eq!(claims.sub, "alice");
}

#[test]
fn cookie_request_is_extracted_identically() {
    let now = 1_700_000_000u64;
    let token = issue_alice(now);
    let cookie = format!("auth_token={}; other=1", token);
    let route = JwtAuth::with_policies(SECRET.to_string(), vec!["read:seats"]);
    let via_cookie = route
        .authorize_request(None, Some(&cookie), now + 10)
        .unwrap();
    let auth_header = format!("Bearer {}", token);
    let via_bearer = route
        .authorize_request(Some(&auth_header), None, now + 10)
        .unwrap();
    assert_eq!(via_cookie.sub, via_bearer.sub);
    assert_eq!(via_cookie.roles, via_bearer.roles);
    assert_eq!(via_cookie.policies, via_bearer.policies);
}

#[test]
fn missing_and_invalid_credentials_are_unauthenticated() {
    let route = JwtAuth::new(SECRET.to_string());
    assert!(matches!(
        route.authorize_request(None, None, 0),
        Err(Rejection::Unauthenticated)
    ));
    assert!(matches!(
        route.authorize_request(Some("Bearer junk"), None, 0),
        Err(Rejection::Unauthenticated)
    ));
    // an expired token is refused with the same outward answer
    let token = issue_alice(100);
    let header = format!("Bearer {}", token);
    assert!(matches!(
        route.authorize_request(Some(&header), None, 100 + 3600),
        Err(Rejection::Unauthenticated)
    ));
}

#[test]
fn wrong_role_is_forbidden_not_unauthenticated() {
    let now = 1_700_000_000u64;
    let token = issue_alice(now);
    let header = format!("Bearer {}", token);
    let route = JwtAuth::with_roles(SECRET.to_string(), vec!["admin"]);
    assert!(matches!(
        route.authorize_request(Some(&header), None, now + 1),
        Err(Rejection::Forbidden)
    ));
}

#[test]
fn interceptor_gives_the_same_decision_as_the_http_side() {
    let now = 1_700_000_000u64;
    let token = issue_alice(now);
    let header = format!("Bearer {}", token);
    let http = JwtAuth::with_rules(SECRET.to_string(), vec!["user"], vec!["read:seats"]);
    let rpc =
        JwtAuthInterceptor::with_rules(SECRET.to_string(), vec!["user"], vec!["read:seats"]);
    let a = http.authorize_request(Some(&header), None, now + 1).unwrap();
    let b = rpc.intercept(Some(&header), None, now + 1).unwrap();
    assert_eq!(a.sub, b.sub);
    assert_eq!(a.exp, b.exp);
}

#[test]
fn logout_with_bearer_credential_is_rejected() {
    let out = logout_for_request(Some("Bearer tok"), Some("auth_token=tok"));
    assert!(matches!(out, Err(ApiError::PermissionDenied(_))));
    let out2 = logout_for_request(Some("Bearer tok"), None);
    assert!(out2.is_err());
}

#[test]
fn logout_with_cookie_credential_clears_the_cookie() {
    let out = logout_for_request(None, Some("auth_token=tok; x=1")).unwrap();
    assert_eq!(
        out.set_cookie,
        "auth_token=; Path=/; HttpOnly; SameSite=Lax; Max-Age=0"
    );
}

#[test]
fn debug_issuance_in_production_answers_not_found() {
    let svc = AuthServiceImpl::new(SECRET.to_string(), 3600, "production".to_string());
    let ep = AuthEndpoint::new(svc);
    assert!(matches!(
        ep.debug_cookie(7, Some("admin"), Some("everything")),
        Err(ApiError::NotFound)
    ));
    assert!(matches!(
        ep.debug_jwt(7, None, None),
        Err(ApiError::NotFound)
    ));
}

#[test]
fn debug_issuance_outside_production_issues_a_usable_token() {
    let svc = AuthServiceImpl::new(SECRET.to_string(), 3600, "development".to_string());
    let ep = AuthEndpoint::new(svc);
    let resp = ep.debug_jwt(42, Some("tester"), Some("read:seats")).unwrap();
    let token = resp.data.unwrap();
    let now = authgate::claims::now_unix_seconds();
    let claims = authgate::token::verify_token_at(&token, SECRET, now).unwrap();
    assert_eq!(claims.sub, "42");
    assert_eq!(claims.roles, vec!["tester".to_string()]);
    assert_eq!(claims.policies, vec!["read:seats".to_string()]);
}

#[test]
fn debug_issuance_defaults_role_to_user_and_policies_to_none() {
    let svc = AuthServiceImpl::new(SECRET.to_string(), 3600, "development".to_string());
    let ep = AuthEndpoint::new(svc);
    let resp = ep.debug_jwt(-3, Some(""), Some("")).unwrap();
    let token = resp.data.unwrap();
    let now = authgate::claims::now_unix_seconds();
    let claims = authgate::token::verify_token_at(&token, SECRET, now).unwrap();
    assert_eq!(claims.sub, "-3");
    assert_eq!(claims.roles, vec!["user".to_string()]);
    assert!(claims.policies.is_empty());
}

#[test]
fn refresh_reissues_from_the_verified_claims_only() {
    let svc = AuthServiceImpl::new(SECRET.to_string(), 3600, "development".to_string());
    let ep = AuthEndpoint::new(svc);
    let now = authgate::claims::now_unix_seconds();
    let claims = build_claims_at(
        "bob".to_string(),
        600,
        vec!["user".to_string()],
        vec!["read:seats".to_string()],
        now,
    );
    let token = encode_token(&claims, SECRET).unwrap();
    let header = format!("Bearer {}", token);
    let resp = ep.refresh(Some(&header), now + 1).unwrap();
    let fresh = resp.data.unwrap();
    let out = authgate::token::verify_token_at(&fresh, SECRET, now + 1).unwrap();
    assert_eq!(out.sub, "bob");
    assert_eq!(out.roles, vec!["user".to_string()]);
    assert_eq!(out.policies, vec!["read:seats".to_string()]);
}

#[test]
fn authorize_echoes_the_subject() {
    let svc = AuthServiceImpl::new(SECRET.to_string(), 3600, "development".to_string());
    let ep = AuthEndpoint::new(svc);
    let now = 1_700_000_000u64;
    let token = issue_alice(now);
    let header = format!("Bearer {}", token);
    let resp = ep.authorize(Some(&header), now + 1).unwrap();
    assert_eq!(resp.user_id, "alice");
    assert!(ep.authorize(None, now).is_err());
}

#[test]
fn grpc_logout_is_always_refused() {
    let svc = AuthServiceImpl::new(SECRET.to_string(), 3600, "development".to_string());
    let ep = AuthEndpoint::new(svc);
    assert!(matches!(ep.logout(), Err(ApiError::PermissionDenied(_))));
}

#[test]
fn service_issue_and_decode_round_trip() {
    let svc = AuthServiceImpl::new(SECRET.to_string(), 3600, "development".to_string());
    let token = svc
        .issue_token(
            "carol",
            vec!["user".to_string()],
            vec!["read:seats".to_string()],
        )
        .unwrap();
    let claims = svc.decode_token(&token).unwrap();
    assert_eq!(claims.sub, "carol");
}
