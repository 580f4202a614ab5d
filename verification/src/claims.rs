//! The authenticated-identity record embedded in every token.

use vstd::prelude::*;

verus! {

/// The claims carried by a signed token: the principal, the absolute
/// expiry instant (seconds since the Unix epoch), and the role and
/// policy names granted to the principal.
pub struct Claims {
    pub sub: String,
    pub exp: u64,
    pub roles: Vec<String>,
    pub policies: Vec<String>,
}

/// The mathematical shape of a [`Claims`] value.
pub struct ClaimsView {
    pub sub: Seq<char>,
    pub exp: u64,
    pub roles: Seq<Seq<char>>,
    pub policies: Seq<Seq<char>>,
}

impl View for Claims {
    type V = ClaimsView;

    open spec fn view(&self) -> ClaimsView {
        ClaimsView {
            sub: self.sub@,
            exp: self.exp,
            roles: self.roles.deep_view(),
            policies: self.policies.deep_view(),
        }
    }
}

impl Clone for Claims {
    fn clone(&self) -> (res: Self)
        ensures
            res@ == self@,
    {
        let res = Claims {
            sub: self.sub.clone(),
            exp: self.exp,
            roles: clone_strings(&self.roles),
            policies: clone_strings(&self.policies),
        };
        proof {
            assert(res@.roles =~= self@.roles);
            assert(res@.policies =~= self@.policies);
        }
        res
    }
}

/// Copies a list of names element by element.
pub fn clone_strings(v: &Vec<String>) -> (r: Vec<String>)
    ensures
        r@ =~= v@,
{
    let mut r: Vec<String> = Vec::new();
    let mut k: usize = 0;
    while k < v.len()
        invariant
            k <= v.len(),
            r@ =~= v@.subrange(0, k as int),
        decreases v.len() - k,
    {
        r.push(v[k].clone());
        proof {
            assert(v@.subrange(0, k + 1) =~= v@.subrange(0, k as int) + seq![v@[k as int]]);
        }
        k = k + 1;
    }
    proof {
        assert(v@.subrange(0, v@.len() as int) =~= v@);
    }
    r
}

/// The expiry instant for a token issued at `now` with the given
/// time-to-live; the sum saturates at the top of the clock range.
pub open spec fn expiry_of(now: u64, ttl_seconds: u64) -> u64 {
    if now + ttl_seconds <= u64::MAX {
        (now + ttl_seconds) as u64
    } else {
        u64::MAX
    }
}

/// The claims issued at instant `now`.
pub open spec fn spec_build_claims(
    sub: Seq<char>,
    ttl_seconds: u64,
    roles: Seq<Seq<char>>,
    policies: Seq<Seq<char>>,
    now: u64,
) -> ClaimsView {
    ClaimsView { sub, exp: expiry_of(now, ttl_seconds), roles, policies }
}

/// Builds the claims for a token issued at the given instant.
pub fn build_claims_at(
    sub: String,
    ttl_seconds: u64,
    roles: Vec<String>,
    policies: Vec<String>,
    now: u64,
) -> (c: Claims)
    ensures
        c@ == spec_build_claims(sub@, ttl_seconds, roles.deep_view(), policies.deep_view(), now),
{
    let exp = match now.checked_add(ttl_seconds) {
        Some(e) => e,
        None => u64::MAX,
    };
    Claims { sub, exp, roles, policies }
}

/// Relies on `std::time::SystemTime::now`, read once and converted to
/// whole seconds since the Unix epoch (zero if the clock reads earlier
/// than the epoch). Nothing can be promised of a clock reading.
#[verifier::external_body]
pub fn now_unix_seconds() -> u64 {
    std::time::SystemTime::now()
        .duration_since(std::time::UNIX_EPOCH)
        .unwrap_or_default()
        .as_secs()
}

/// Builds the claims for a token issued now, expiring `ttl_seconds`
/// from the current instant.
pub fn build_claims(
    sub: String,
    ttl_seconds: u64,
    roles: Vec<String>,
    policies: Vec<String>,
) -> (c: Claims)
    ensures
        exists|now: u64|
            c@ == spec_build_claims(
                sub@,
                ttl_seconds,
                roles.deep_view(),
                policies.deep_view(),
                now,
            ),
{
    let now = now_unix_seconds();
    let c = build_claims_at(sub, ttl_seconds, roles, policies, now);
    proof {
        assert(c@ == spec_build_claims(c@.sub, ttl_seconds, c@.roles, c@.policies, now));
    }
    c
}

/// The claims re-issued from a verified record: the identity fields are
/// copied verbatim and only the expiry is renewed.
pub open spec fn spec_refresh_claims(previous: ClaimsView, ttl_seconds: u64, now: u64) -> ClaimsView {
    ClaimsView {
        sub: previous.sub,
        exp: expiry_of(now, ttl_seconds),
        roles: previous.roles,
        policies: previous.policies,
    }
}

/// Re-issues claims from a previously verified record, keeping subject,
/// roles and policies verbatim with a fresh expiry.
pub fn refresh_claims_at(previous: &Claims, ttl_seconds: u64, now: u64) -> (c: Claims)
    ensures
        c@ == spec_refresh_claims(previous@, ttl_seconds, now),
{
    let copied = previous.clone();
    build_claims_at(copied.sub, ttl_seconds, copied.roles, copied.policies, now)
}

} // verus!
