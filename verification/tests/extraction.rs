//! Credential extraction from the two header slots.

use authgate::extract::{bearer_token, cookie_token, extract_token, has_bearer_value};

#[test]
fn bearer_header_yields_its_token() {
    assert_eq!(
        extract_token(Some("Bearer abc.def"), None),
        Some("abc.def".to_string())
    );
}

#[test]
fn bearer_takes_precedence_over_cookie() {
    let out = extract_token(
        Some("Bearer from-header"),
        Some("auth_token=from-cookie; other=1"),
    );
    assert_eq!(out, Some("from-header".to_string()));
}

#[test]
fn cookie_is_used_when_no_bearer_shape() {
    let out = extract_token(Some("Basic dXNlcg=="), Some("auth_token=tok123"));
    assert_eq!(out, Some("tok123".to_string()));
}

#[test]
fn cookie_pairs_are_trimmed_and_searched_in_order() {
    let out = extract_token(None, Some("other=1;  auth_token=tok ; auth_token=second"));
    assert_eq!(out, Some("tok".to_string()));
}

#[test]
fn absent_headers_yield_nothing() {
    assert_eq!(extract_token(None, None), None);
    assert_eq!(extract_token(Some("Bearer"), Some("session=1")), None);
}

#[test]
fn bearer_prefix_must_match_exactly() {
    assert_eq!(bearer_token("bearer lowercase"), None);
    assert_eq!(bearer_token("Bearer "), Some(String::new()));
    assert_eq!(bearer_token("Bearer  two"), Some(" two".to_string()));
}

#[test]
fn cookie_value_keeps_inner_equals_signs() {
    let out = cookie_token("auth_token=a=b=c");
    assert_eq!(out, Some("a=b=c".to_string()));
}

#[test]
fn has_bearer_value_checks_shape_only() {
    assert!(has_bearer_value(Some("Bearer x")));
    assert!(!has_bearer_value(Some("Token x")));
    assert!(!has_bearer_value(None));
}
