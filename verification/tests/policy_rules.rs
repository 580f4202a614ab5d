//! Role and policy evaluation.

use authgate::claims::build_claims_at;
use authgate::policy::{evaluate, AuthRule, Decision, DenyReason};

fn claims_with(roles: Vec<&str>, policies: Vec<&str>) -> authgate::claims::Claims {
    build_claims_at(
        "u".to_string(),
        100,
        roles.into_iter().map(String::from).collect(),
        policies.into_iter().map(String::from).collect(),
        0,
    )
}

fn rule(roles: Option<Vec<&str>>, policies: Option<Vec<&str>>) -> AuthRule {
    AuthRule {
        required_roles: roles.map(|v| v.into_iter().map(String::from).collect()),
        required_policies: policies.map(|v| v.into_iter().map(String::from).collect()),
    }
}

#[test]
fn role_check_is_any_match() {
    let c = claims_with(vec!["user", "editor"], vec![]);
    let r = rule(Some(vec!["editor", "admin"]), None);
    assert_eq!(evaluate(&c, &r), Decision::Allow);

    let c2 = claims_with(vec!["user"], vec![]);
    assert_eq!(
        evaluate(&c2, &r),
        Decision::Deny(DenyReason::RoleMismatch)
    );
}

#[test]
fn policy_check_is_all_match() {
    let c = claims_with(vec![], vec!["read", "write"]);
    let ok = rule(None, Some(vec!["read", "write"]));
    assert_eq!(evaluate(&c, &ok), Decision::Allow);

    let missing = rule(None, Some(vec!["read", "delete"]));
    assert_eq!(
        evaluate(&c, &missing),
        Decision::Deny(DenyReason::PolicyMismatch)
    );
}

#[test]
fn role_failure_is_reported_before_policy_failure() {
    let c = claims_with(vec!["user"], vec!["read"]);
    let r = rule(Some(vec!["admin"]), Some(vec!["delete"]));
    assert_eq!(evaluate(&c, &r), Decision::Deny(DenyReason::RoleMismatch));
}

#[test]
fn absent_constraints_are_vacuously_satisfied() {
    let c = claims_with(vec![], vec![]);
    assert_eq!(evaluate(&c, &rule(None, None)), Decision::Allow);
}
