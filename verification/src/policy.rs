//! Role and policy enforcement over a verified claims record.

use vstd::prelude::*;

verus! {

use crate::claims::Claims;

/// The requirement attached to a protected route. An absent set means
/// no constraint of that category.
pub struct AuthRule {
    pub required_roles: Option<Vec<String>>,
    pub required_policies: Option<Vec<String>>,
}

/// The mathematical shape of an [`AuthRule`].
pub struct RuleView {
    pub required_roles: Option<Seq<Seq<char>>>,
    pub required_policies: Option<Seq<Seq<char>>>,
}

impl View for AuthRule {
    type V = RuleView;

    open spec fn view(&self) -> RuleView {
        RuleView {
            required_roles: match self.required_roles {
                Some(ref v) => Some(v.deep_view()),
                None => None,
            },
            required_policies: match self.required_policies {
                Some(ref v) => Some(v.deep_view()),
                None => None,
            },
        }
    }
}

/// Why a rule denied a claims record; role failure is reported first.
#[derive(Clone, Copy, Debug, PartialEq, Eq, Structural)]
pub enum DenyReason {
    RoleMismatch,
    PolicyMismatch,
}

/// The outcome of evaluating a rule against a claims record.
#[derive(Clone, Copy, Debug, PartialEq, Eq, Structural)]
pub enum Decision {
    Allow,
    Deny(DenyReason),
}

/// Whether the list of names contains the given name.
pub open spec fn name_in(names: Seq<Seq<char>>, x: Seq<char>) -> bool {
    exists|i: int| 0 <= i < names.len() && names[i] == x
}

/// Role satisfaction is ANY-match: some role of the claims appears in
/// the required set; an absent set is vacuously satisfied.
pub open spec fn roles_satisfied(held: Seq<Seq<char>>, required: Option<Seq<Seq<char>>>) -> bool {
    match required {
        None => true,
        Some(req) => exists|i: int| 0 <= i < held.len() && name_in(req, #[trigger] held[i]),
    }
}

/// Policy satisfaction is ALL-match: every required policy appears in
/// the claims' set; an absent set is vacuously satisfied.
pub open spec fn policies_satisfied(
    held: Seq<Seq<char>>,
    required: Option<Seq<Seq<char>>>,
) -> bool {
    match required {
        None => true,
        Some(req) => forall|i: int| 0 <= i < req.len() ==> name_in(held, #[trigger] req[i]),
    }
}

/// The decision a rule gives on a claims record: the role check runs
/// first, then the policy check, and both must hold to allow.
pub open spec fn spec_evaluate(c: crate::claims::ClaimsView, r: RuleView) -> Decision {
    if !roles_satisfied(c.roles, r.required_roles) {
        Decision::Deny(DenyReason::RoleMismatch)
    } else if !policies_satisfied(c.policies, r.required_policies) {
        Decision::Deny(DenyReason::PolicyMismatch)
    } else {
        Decision::Allow
    }
}

/// Whether `names` holds the string `x`.
pub fn contains_name(names: &Vec<String>, x: &String) -> (r: bool)
    ensures
        r == name_in(names.deep_view(), x@),
{
    let mut i: usize = 0;
    while i < names.len()
        invariant
            i <= names.len(),
            forall|k: int| 0 <= k < i ==> names.deep_view()[k] != x@,
        decreases names.len() - i,
    {
        if names[i].eq(x) {
            proof {
                assert(names.deep_view()[i as int] == x@);
            }
            return true;
        }
        proof {
            assert(names.deep_view()[i as int] == names@[i as int]@);
        }
        i = i + 1;
    }
    false
}

fn any_in(held: &Vec<String>, required: &Vec<String>) -> (r: bool)
    ensures
        r == exists|i: int|
            0 <= i < held.deep_view().len() && name_in(
                required.deep_view(),
                #[trigger] held.deep_view()[i],
            ),
{
    let mut i: usize = 0;
    while i < held.len()
        invariant
            i <= held.len(),
            forall|k: int|
                0 <= k < i ==> !name_in(required.deep_view(), #[trigger] held.deep_view()[k]),
        decreases held.len() - i,
    {
        if contains_name(required, &held[i]) {
            proof {
                assert(held.deep_view()[i as int] == held@[i as int]@);
            }
            return true;
        }
        proof {
            assert(held.deep_view()[i as int] == held@[i as int]@);
        }
        i = i + 1;
    }
    false
}

fn all_in(required: &Vec<String>, held: &Vec<String>) -> (r: bool)
    ensures
        r == forall|i: int|
            0 <= i < required.deep_view().len() ==> name_in(
                held.deep_view(),
                #[trigger] required.deep_view()[i],
            ),
{
    let mut i: usize = 0;
    while i < required.len()
        invariant
            i <= required.len(),
            forall|k: int|
                0 <= k < i ==> name_in(held.deep_view(), #[trigger] required.deep_view()[k]),
        decreases required.len() - i,
    {
        if !contains_name(held, &required[i]) {
            proof {
                assert(required.deep_view()[i as int] == required@[i as int]@);
            }
            return false;
        }
        proof {
            assert(required.deep_view()[i as int] == required@[i as int]@);
        }
        i = i + 1;
    }
    true
}

/// Evaluates a rule against a claims record: ANY-match on roles, then
/// ALL-match on policies, denial reported in that order.
pub fn evaluate(claims: &Claims, rule: &AuthRule) -> (d: Decision)
    ensures
        d == spec_evaluate(claims@, rule@),
        d == Decision::Allow <==> roles_satisfied(claims@.roles, rule@.required_roles)
            && policies_satisfied(claims@.policies, rule@.required_policies),
{
    let role_ok = match &rule.required_roles {
        Some(req) => any_in(&claims.roles, req),
        None => true,
    };
    if !role_ok {
        return Decision::Deny(DenyReason::RoleMismatch);
    }
    let policy_ok = match &rule.required_policies {
        Some(req) => all_in(req, &claims.policies),
        None => true,
    };
    if !policy_ok {
        return Decision::Deny(DenyReason::PolicyMismatch);
    }
    Decision::Allow
}

} // verus!
