//! Response shapes and cookie delivery for the auth endpoints.
//!
//! The cookie a login sets and the cookie a logout clears are built
//! here, character for character, together with the simple response
//! bodies shared by both transports.

use vstd::prelude::*;

verus! {

use crate::extract::spec_trim;
use crate::numerals::{chars_to_string, dec_digits, push_decimal, str_to_chars};
use vstd::string::StrSliceExecFns;

/// A message-only response body.
pub struct StandardResponse {
    pub message: String,
}

/// A response body carrying one datum.
pub struct SingleResponse {
    pub message: String,
    pub data: Option<String>,
}

/// A response together with a `Set-Cookie` value to emit.
pub struct CookieResponse {
    pub set_cookie: String,
    pub body: StandardResponse,
}

/// The `Set-Cookie` value that delivers a token: path `/`, HTTP-only,
/// `SameSite=Lax`, living `ttl` seconds.
pub open spec fn spec_auth_cookie(token: Seq<char>, ttl: u64) -> Seq<char> {
    "auth_token="@ + token + "; Path=/; HttpOnly; SameSite=Lax; Max-Age="@ + dec_digits(
        ttl as nat,
    )
}

/// Builds the cookie value delivering `token` for `ttl` seconds.
pub fn build_auth_cookie(token: &str, ttl: u64) -> (r: String)
    ensures
        r@ == spec_auth_cookie(token@, ttl),
{
    let mut s = String::from_str("auth_token=");
    s.append(token);
    s.append("; Path=/; HttpOnly; SameSite=Lax; Max-Age=");
    let mut digits: Vec<char> = Vec::new();
    push_decimal(&mut digits, ttl);
    let rendered = chars_to_string(&digits);
    s.append(rendered.as_str());
    s
}

/// Builds the cookie value that logs a session out: the same attributes
/// with an empty token and a zero lifetime, so the browser drops it.
pub fn clear_auth_cookie() -> (r: String)
    ensures
        r@ == spec_auth_cookie(Seq::empty(), 0),
{
    let r = build_auth_cookie("", 0);
    proof {
        reveal_strlit("");
        assert(""@ =~= Seq::<char>::empty());
        assert(spec_auth_cookie(""@, 0) =~= spec_auth_cookie(Seq::empty(), 0));
    }
    r
}

/// Builders for the transport-facing auth responses.
pub struct AuthController;

impl AuthController {
    /// A successful login delivered as a cookie.
    pub fn cookie_response(token: &str, ttl: u64, message: &str) -> (r: CookieResponse)
        ensures
            r.set_cookie@ == spec_auth_cookie(token@, ttl),
            r.body.message@ == message@,
    {
        CookieResponse {
            set_cookie: build_auth_cookie(token, ttl),
            body: StandardResponse { message: message.to_owned() },
        }
    }

    /// A successful login delivered as a bearer token in the body.
    pub fn token_response(token: &str, message: &str) -> (r: SingleResponse)
        ensures
            r.message@ == message@,
            r.data matches Some(d) && d@ == token@,
    {
        SingleResponse { message: message.to_owned(), data: Some(token.to_owned()) }
    }

    /// A logout response: clears the cookie.
    pub fn logout_response() -> (r: CookieResponse)
        ensures
            r.set_cookie@ == spec_auth_cookie(Seq::empty(), 0),
            r.body.message@ == "Logout successfully"@,
    {
        CookieResponse {
            set_cookie: clear_auth_cookie(),
            body: StandardResponse { message: String::from_str("Logout successfully") },
        }
    }
}

/// The sign-in fields rejected and the message used for each, in the
/// order the checks run: missing fields, email length, email shape,
/// password length.
pub open spec fn spec_validate_sign_in(email: Seq<char>, password: Seq<char>) -> Option<
    Seq<char>,
> {
    let e = spec_trim(email);
    let p = spec_trim(password);
    if e.len() == 0 || p.len() == 0 {
        Some("Email and password are required"@)
    } else if e.len() < 6 || e.len() > 128 {
        Some("Email must be between 6 and 128 characters"@)
    } else if !(exists|i: int| 0 <= i < e.len() && e[i] == '@') {
        Some("Invalid email address"@)
    } else if p.len() < 8 || p.len() > 2048 {
        Some("Password must be between 8 and 2048 characters"@)
    } else {
        None
    }
}

/// Trims a string slice to a fresh string.
pub fn trim_str(s: &str) -> (r: String)
    ensures
        r@ == spec_trim(s@),
{
    let chars = str_to_chars(s);
    let (a, b) = crate::extract::trim_range(&chars, 0, chars.len());
    let mut out: Vec<char> = Vec::new();
    let mut k: usize = a;
    while k < b
        invariant
            a <= k <= b <= chars.len(),
            out@ =~= chars@.subrange(a as int, k as int),
        decreases b - k,
    {
        out.push(chars[k]);
        proof {
            assert(chars@.subrange(a as int, k + 1) =~= chars@.subrange(a as int, k as int)
                + seq![chars@[k as int]]);
        }
        k = k + 1;
    }
    proof {
        assert(chars@.subrange(0, chars@.len() as int) =~= chars@);
    }
    chars_to_string(&out)
}

/// Validates a sign-in request: both fields present after trimming, the
/// email 6 to 128 characters and containing `@`, the password 8 to 2048
/// characters.
pub fn validate_sign_in(email: &str, password: &str) -> (r: Result<(), String>)
    ensures
        match r {
            Ok(()) => spec_validate_sign_in(email@, password@) is None,
            Err(m) => spec_validate_sign_in(email@, password@) == Some(m@),
        },
{
    let e = trim_str(email);
    let p = trim_str(password);
    let e_chars = str_to_chars(e.as_str());
    let p_len = p.as_str().unicode_len();
    let e_len = e_chars.len();
    if e_len == 0 || p_len == 0 {
        return Err(String::from_str("Email and password are required"));
    }
    if e_len < 6 || e_len > 128 {
        return Err(String::from_str("Email must be between 6 and 128 characters"));
    }
    let mut has_at = false;
    let mut i: usize = 0;
    while i < e_chars.len()
        invariant
            i <= e_chars.len(),
            has_at ==> exists|k: int| 0 <= k < e_chars@.len() && e_chars@[k] == '@',
            !has_at ==> forall|k: int| 0 <= k < i ==> e_chars@[k] != '@',
        decreases e_chars.len() - i,
    {
        if e_chars[i] == '@' {
            has_at = true;
        }
        i = i + 1;
    }
    if !has_at {
        return Err(String::from_str("Invalid email address"));
    }
    if p_len < 8 || p_len > 2048 {
        return Err(String::from_str("Password must be between 8 and 2048 characters"));
    }
    Ok(())
}

/// The one account the development build accepts.
pub fn is_valid_user(username: &str, password: &str) -> (r: bool)
    ensures
        r == (username@ == "admin"@ && password@ == "admin"@),
{
    let u = username.to_owned();
    let p = password.to_owned();
    let admin = String::from_str("admin");
    u.eq(&admin) && p.eq(&admin)
}

/// Accepts exactly the valid development credentials.
pub fn ensure_credentials(username: &str, password: &str) -> (r: Result<(), ()>)
    ensures
        r is Ok <==> (username@ == "admin"@ && password@ == "admin"@),
{
    if is_valid_user(username, password) {
        Ok(())
    } else {
        Err(())
    }
}

} // verus!
