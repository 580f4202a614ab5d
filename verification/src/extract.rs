//! Locating a candidate token in a request's headers.
//!
//! A credential travels in exactly two places: an `Authorization`
//! header whose value starts with `Bearer `, or an `auth_token` pair in
//! a `cookie` header of semicolon-separated `key=value` pairs. The
//! bearer form takes precedence. The same rule serves every transport;
//! callers hand in the two header values as plain optional strings.

use vstd::prelude::*;

verus! {

use crate::numerals::{chars_to_string, str_to_chars};

pub open spec fn is_space(c: char) -> bool {
    c == ' ' || c == '\t' || c == '\r' || c == '\n'
}

/// A header value without its leading whitespace.
pub open spec fn trim_front(s: Seq<char>) -> Seq<char>
    decreases s.len(),
{
    if s.len() > 0 && is_space(s[0]) {
        trim_front(s.drop_first())
    } else {
        s
    }
}

/// A header value without its trailing whitespace.
pub open spec fn trim_back(s: Seq<char>) -> Seq<char>
    decreases s.len(),
{
    if s.len() > 0 && is_space(s.last()) {
        trim_back(s.drop_last())
    } else {
        s
    }
}

/// A header value without surrounding whitespace.
pub open spec fn spec_trim(s: Seq<char>) -> Seq<char> {
    trim_back(trim_front(s))
}

/// The characters of the literal `Bearer ` prefix.
pub open spec fn bearer_prefix() -> Seq<char> {
    seq!['B', 'e', 'a', 'r', 'e', 'r', ' ']
}

/// The characters of the literal `auth_token=` cookie key.
pub open spec fn cookie_key_prefix() -> Seq<char> {
    seq!['a', 'u', 't', 'h', '_', 't', 'o', 'k', 'e', 'n', '=']
}

/// The token an `Authorization` value carries: everything after the
/// `Bearer ` prefix, if the value starts with it.
pub open spec fn spec_bearer_token(auth: Seq<char>) -> Option<Seq<char>> {
    if auth.len() >= 7 && auth.subrange(0, 7) == bearer_prefix() {
        Some(auth.subrange(7, auth.len() as int))
    } else {
        None
    }
}

/// The token one trimmed cookie pair carries: everything after the
/// `auth_token=` key, if the pair starts with it.
pub open spec fn spec_pair_token(part: Seq<char>) -> Option<Seq<char>> {
    let p = spec_trim(part);
    if p.len() >= 11 && p.subrange(0, 11) == cookie_key_prefix() {
        Some(p.subrange(11, p.len() as int))
    } else {
        None
    }
}

/// The position of the first `;` at or after `i`, or `-1`.
pub open spec fn find_semi(s: Seq<char>, i: int) -> int
    decreases s.len() - i,
{
    if i < 0 || i >= s.len() {
        -1
    } else if s[i] == ';' {
        i
    } else {
        find_semi(s, i + 1)
    }
}

/// The token a whole `cookie` header carries: the value of the first
/// semicolon-separated pair whose key is `auth_token`.
pub open spec fn spec_cookie_token(s: Seq<char>) -> Option<Seq<char>>
    decreases s.len(),
{
    let d = find_semi(s, 0);
    if d < 0 || d >= s.len() {
        spec_pair_token(s)
    } else {
        match spec_pair_token(s.subrange(0, d)) {
            Some(t) => Some(t),
            None => spec_cookie_token(s.subrange(d + 1, s.len() as int)),
        }
    }
}

/// Where a request's candidate token comes from, if anywhere: the
/// bearer header takes precedence, then the cookie, else nothing.
pub open spec fn spec_extract(auth: Option<Seq<char>>, cookie: Option<Seq<char>>) -> Option<
    Seq<char>,
> {
    let bearer = match auth {
        Some(a) => spec_bearer_token(a),
        None => None,
    };
    match bearer {
        Some(t) => Some(t),
        None => match cookie {
            Some(c) => spec_cookie_token(c),
            None => None,
        },
    }
}

/// The view of an optional header value.
pub open spec fn opt_view(o: Option<&str>) -> Option<Seq<char>> {
    match o {
        Some(s) => Some(s@),
        None => None,
    }
}

/// Bearer precedence: whenever the `Authorization` value has the bearer
/// shape, extraction returns its token, whatever the cookie holds.
pub proof fn lemma_bearer_precedence(auth: Seq<char>, cookie: Seq<char>)
    requires
        spec_bearer_token(auth) is Some,
    ensures
        spec_extract(Some(auth), Some(cookie)) == spec_bearer_token(auth),
{
}

fn is_space_exec(c: char) -> (r: bool)
    ensures
        r == is_space(c),
{
    c == ' ' || c == '\t' || c == '\r' || c == '\n'
}

proof fn lemma_trim_front_skip(s: Seq<char>, k: int)
    requires
        0 <= k <= s.len(),
        forall|i: int| 0 <= i < k ==> is_space(#[trigger] s[i]),
        k < s.len() ==> !is_space(s[k]),
    ensures
        trim_front(s) =~= s.subrange(k, s.len() as int),
    decreases k,
{
    if k == 0 {
        if s.len() > 0 {
            assert(!is_space(s[0]));
        }
        assert(s.subrange(0, s.len() as int) =~= s);
    } else {
        assert(is_space(s[0]));
        let rest = s.drop_first();
        lemma_trim_front_skip(rest, k - 1);
        assert(rest.subrange(k - 1, rest.len() as int) =~= s.subrange(k, s.len() as int));
    }
}

proof fn lemma_trim_back_take(s: Seq<char>, k: int)
    requires
        0 <= k <= s.len(),
        forall|i: int| k <= i < s.len() ==> is_space(#[trigger] s[i]),
        k > 0 ==> !is_space(s[k - 1]),
    ensures
        trim_back(s) =~= s.subrange(0, k),
    decreases s.len() - k,
{
    if k == s.len() {
        if s.len() > 0 {
            assert(!is_space(s.last()));
        }
        assert(s.subrange(0, s.len() as int) =~= s);
    } else {
        assert(is_space(s.last()));
        let rest = s.drop_last();
        lemma_trim_back_take(rest, k);
        assert(rest.subrange(0, k) =~= s.subrange(0, k));
    }
}

/// Trims the slice `[lo, hi)` of `chars`; yields the trimmed bounds.
pub fn trim_range(chars: &Vec<char>, lo: usize, hi: usize) -> (r: (usize, usize))
    requires
        lo <= hi <= chars.len(),
    ensures
        lo <= r.0 <= r.1 <= hi,
        chars@.subrange(r.0 as int, r.1 as int) =~= spec_trim(
            chars@.subrange(lo as int, hi as int),
        ),
{
    let ghost orig = chars@.subrange(lo as int, hi as int);
    let mut a = lo;
    while a < hi && is_space_exec(chars[a])
        invariant
            lo <= a <= hi <= chars.len(),
            forall|i: int| lo <= i < a ==> is_space(#[trigger] chars@[i]),
        decreases hi - a,
    {
        a = a + 1;
    }
    proof {
        assert forall|i: int| 0 <= i < a - lo implies is_space(#[trigger] orig[i]) by {
            assert(orig[i] == chars@[lo + i]);
        }
        if a < hi {
            assert(!is_space(orig[a - lo]));
        }
        lemma_trim_front_skip(orig, a - lo);
    }
    let ghost fronted = trim_front(orig);
    let mut b = hi;
    while b > a && is_space_exec(chars[b - 1])
        invariant
            a <= b <= hi <= chars.len(),
            forall|i: int| b <= i < hi ==> is_space(#[trigger] chars@[i]),
        decreases b,
    {
        b = b - 1;
    }
    proof {
        assert(fronted =~= chars@.subrange(a as int, hi as int));
        assert forall|i: int| b - a <= i < fronted.len() implies is_space(
            #[trigger] fronted[i],
        ) by {
            assert(fronted[i] == chars@[a + i]);
        }
        if b > a {
            assert(!is_space(fronted[b - a - 1]));
        }
        lemma_trim_back_take(fronted, b - a);
        assert(trim_back(fronted) =~= chars@.subrange(a as int, b as int));
    }
    (a, b)
}

/// Whether `chars[lo..hi)` starts with the literal `auth_token=`.
fn has_cookie_key(chars: &Vec<char>, lo: usize, hi: usize) -> (r: bool)
    requires
        lo <= hi <= chars.len(),
    ensures
        r == {
            let p = chars@.subrange(lo as int, hi as int);
            p.len() >= 11 && p.subrange(0, 11) == cookie_key_prefix()
        },
{
    let ghost p = chars@.subrange(lo as int, hi as int);
    if hi - lo < 11 {
        return false;
    }
    let r = chars[lo] == 'a' && chars[lo + 1] == 'u' && chars[lo + 2] == 't' && chars[lo + 3]
        == 'h' && chars[lo + 4] == '_' && chars[lo + 5] == 't' && chars[lo + 6] == 'o'
        && chars[lo + 7] == 'k' && chars[lo + 8] == 'e' && chars[lo + 9] == 'n' && chars[lo
        + 10] == '=';
    proof {
        assert forall|i: int| 0 <= i < 11 implies p[i] == chars@[lo + i] by {}
        if r {
            assert(p.subrange(0, 11) =~= cookie_key_prefix());
        } else {
            assert(p.subrange(0, 11) != cookie_key_prefix()) by {
                if p.subrange(0, 11) =~= cookie_key_prefix() {
                    assert(forall|i: int|
                        0 <= i < 11 ==> p[i] == #[trigger] cookie_key_prefix()[i]);
                }
            }
        }
    }
    r
}

/// Reads the token out of one cookie pair, if its key is `auth_token`.
fn pair_token(chars: &Vec<char>, lo: usize, hi: usize) -> (r: Option<String>)
    requires
        lo <= hi <= chars.len(),
    ensures
        match r {
            Some(t) => spec_pair_token(chars@.subrange(lo as int, hi as int)) == Some(t@),
            None => spec_pair_token(chars@.subrange(lo as int, hi as int)) is None,
        },
{
    let (a, b) = trim_range(chars, lo, hi);
    let ghost p = spec_trim(chars@.subrange(lo as int, hi as int));
    if has_cookie_key(chars, a, b) {
        let mut out: Vec<char> = Vec::new();
        let mut k: usize = a + 11;
        while k < b
            invariant
                a + 11 <= k <= b <= chars.len(),
                out@ =~= chars@.subrange(a + 11, k as int),
            decreases b - k,
        {
            out.push(chars[k]);
            proof {
                assert(chars@.subrange(a + 11, k + 1) =~= chars@.subrange(a + 11, k as int)
                    + seq![chars@[k as int]]);
            }
            k = k + 1;
        }
        proof {
            assert(p =~= chars@.subrange(a as int, b as int));
            assert(p.subrange(11, p.len() as int) =~= chars@.subrange(a + 11, b as int));
        }
        Some(chars_to_string(&out))
    } else {
        proof {
            assert(p =~= chars@.subrange(a as int, b as int));
        }
        None
    }
}

/// Reads the `auth_token` value out of a whole `cookie` header.
pub fn cookie_token(cookie: &str) -> (r: Option<String>)
    ensures
        match r {
            Some(t) => spec_cookie_token(cookie@) == Some(t@),
            None => spec_cookie_token(cookie@) is None,
        },
{
    let chars = str_to_chars(cookie);
    proof {
        assert(chars@.subrange(0, chars@.len() as int) =~= chars@);
        assert(chars@ == cookie@);
    }
    let mut lo: usize = 0;
    loop
        invariant
            lo <= chars.len(),
            chars@ =~= cookie@,
            forall|t: Seq<char>|
                spec_cookie_token(chars@.subrange(lo as int, chars@.len() as int)) == Some(t)
                    ==> spec_cookie_token(cookie@) == Some(t),
            spec_cookie_token(chars@.subrange(lo as int, chars@.len() as int)) is None
                ==> spec_cookie_token(cookie@) is None,
        decreases chars.len() - lo,
    {
        let ghost seg = chars@.subrange(lo as int, chars@.len() as int);
        // find the end of the current pair
        let mut d: usize = lo;
        let mut found = false;
        while d < chars.len()
            invariant
                lo <= d <= chars.len(),
                found ==> d < chars.len() && chars@[d as int] == ';',
                forall|k: int| lo <= k < d ==> chars@[k] != ';',
            ensures
                found ==> d < chars.len() && chars@[d as int] == ';',
                forall|k: int| lo <= k < d ==> chars@[k] != ';',
                !found ==> d == chars.len(),
            decreases chars.len() - d,
        {
            if chars[d] == ';' {
                found = true;
                break;
            }
            d = d + 1;
        }
        proof {
            assert forall|k: int| 0 <= k < d - lo implies seg[k] != ';' by {
                assert(seg[k] == chars@[lo + k]);
            }
            if found {
                assert(seg[d - lo] == ';');
                lemma_find_semi_at(seg, 0, d - lo);
            } else {
                lemma_find_semi_none(seg, 0);
            }
        }
        match pair_token(&chars, lo, d) {
            Some(t) => {
                proof {
                    if found {
                        assert(seg.subrange(0, d - lo) =~= chars@.subrange(lo as int, d as int));
                    } else {
                        assert(seg =~= chars@.subrange(lo as int, d as int));
                    }
                }
                return Some(t);
            },
            None => {
                proof {
                    if found {
                        assert(seg.subrange(0, d - lo) =~= chars@.subrange(lo as int, d as int));
                    } else {
                        assert(seg =~= chars@.subrange(lo as int, d as int));
                    }
                }
                if found {
                    proof {
                        assert(seg.subrange(d - lo + 1, seg.len() as int) =~= chars@.subrange(
                            d + 1,
                            chars@.len() as int,
                        ));
                    }
                    lo = d + 1;
                } else {
                    return None;
                }
            },
        }
    }
}

proof fn lemma_find_semi_at(s: Seq<char>, i: int, d: int)
    requires
        0 <= i <= d < s.len(),
        s[d] == ';',
        forall|k: int| i <= k < d ==> s[k] != ';',
    ensures
        find_semi(s, i) == d,
    decreases d - i,
{
    if i < d {
        lemma_find_semi_at(s, i + 1, d);
    }
}

proof fn lemma_find_semi_none(s: Seq<char>, i: int)
    requires
        0 <= i <= s.len(),
        forall|k: int| i <= k < s.len() ==> s[k] != ';',
    ensures
        find_semi(s, i) == -1,
    decreases s.len() - i,
{
    if i < s.len() {
        lemma_find_semi_none(s, i + 1);
    }
}

/// Reads the token out of an `Authorization` value with the `Bearer `
/// prefix.
pub fn bearer_token(auth: &str) -> (r: Option<String>)
    ensures
        match r {
            Some(t) => spec_bearer_token(auth@) == Some(t@),
            None => spec_bearer_token(auth@) is None,
        },
{
    let chars = str_to_chars(auth);
    if chars.len() < 7 {
        return None;
    }
    let ok = chars[0] == 'B' && chars[1] == 'e' && chars[2] == 'a' && chars[3] == 'r' && chars[4]
        == 'e' && chars[5] == 'r' && chars[6] == ' ';
    proof {
        if ok {
            assert(chars@.subrange(0, 7) =~= bearer_prefix());
        } else {
            if chars@.subrange(0, 7) =~= bearer_prefix() {
                assert(forall|i: int|
                    0 <= i < 7 ==> chars@.subrange(0, 7)[i] == #[trigger] bearer_prefix()[i]);
                assert(false);
            }
        }
    }
    if !ok {
        return None;
    }
    let mut out: Vec<char> = Vec::new();
    let mut k: usize = 7;
    while k < chars.len()
        invariant
            7 <= k <= chars.len(),
            out@ =~= chars@.subrange(7, k as int),
        decreases chars.len() - k,
    {
        out.push(chars[k]);
        proof {
            assert(chars@.subrange(7, k + 1) =~= chars@.subrange(7, k as int) + seq![
                chars@[k as int],
            ]);
        }
        k = k + 1;
    }
    Some(chars_to_string(&out))
}

/// Whether an `Authorization` value has the bearer shape.
pub fn has_bearer_value(auth: Option<&str>) -> (r: bool)
    ensures
        r == match opt_view(auth) {
            Some(a) => spec_bearer_token(a) is Some,
            None => false,
        },
{
    match auth {
        Some(a) => bearer_token(a).is_some(),
        None => false,
    }
}

/// Locates the candidate token of a request from its two header slots:
/// the bearer header takes precedence, then the `auth_token` cookie.
pub fn extract_token(auth: Option<&str>, cookie: Option<&str>) -> (r: Option<String>)
    ensures
        match r {
            Some(t) => spec_extract(opt_view(auth), opt_view(cookie)) == Some(t@),
            None => spec_extract(opt_view(auth), opt_view(cookie)) is None,
        },
{
    if let Some(a) = auth {
        if let Some(t) = bearer_token(a) {
            return Some(t);
        }
    }
    match cookie {
        Some(c) => cookie_token(c),
        None => None,
    }
}

} // verus!
