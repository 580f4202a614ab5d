//! Process configuration, resolved from optional raw values.
//!
//! Reading the environment is the caller's business; this module owns
//! the defaults and the numeric parsing, so the resolution of raw
//! strings into a configuration is checked.

use vstd::prelude::*;

verus! {

use crate::extract::spec_trim;
use crate::numerals::{chars_to_string, str_to_chars};
use crate::payload::sp_num;

/// The process configuration.
pub struct Config {
    pub host: String,
    pub port: u16,
    pub jwt_secret: String,
    pub jwt_ttl: u64,
    pub cors_origin: String,
    pub rust_log: String,
    pub environment: String,
}

/// Why configuration resolution failed.
#[derive(Clone, Copy, Debug, PartialEq, Eq, Structural)]
pub enum ConfigError {
    InvalidPort,
    InvalidJwtTtl,
}

impl ConfigError {
    /// A human-readable description of the failure.
    pub fn message(&self) -> (r: String)
        ensures
            *self == ConfigError::InvalidPort ==> r@ == "invalid PORT"@,
            *self == ConfigError::InvalidJwtTtl ==> r@ == "invalid JWT_TTL"@,
    {
        match self {
            ConfigError::InvalidPort => String::from_str("invalid PORT"),
            ConfigError::InvalidJwtTtl => String::from_str("invalid JWT_TTL"),
        }
    }
}

/// A raw value parses as a port when it is one canonical numeral that
/// fits in sixteen bits.
pub open spec fn spec_parse_port(s: Seq<char>) -> Option<u16> {
    match sp_num(s, 0) {
        Some((v, j)) => if j == s.len() && v <= 65535 {
            Some(v as u16)
        } else {
            None
        },
        None => None,
    }
}

/// A raw value parses as a time-to-live when it is one canonical
/// numeral.
pub open spec fn spec_parse_ttl(s: Seq<char>) -> Option<u64> {
    match sp_num(s, 0) {
        Some((v, j)) => if j == s.len() {
            Some(v)
        } else {
            None
        },
        None => None,
    }
}

/// Parses a whole string as a canonical decimal numeral.
fn parse_whole_number(s: &str) -> (r: Option<u64>)
    ensures
        r == spec_parse_ttl(s@),
{
    let chars = str_to_chars(s);
    match crate::payload::parse_number(&chars, 0) {
        Some((v, j)) => {
            if j == chars.len() {
                Some(v)
            } else {
                None
            }
        },
        None => None,
    }
}

impl Config {
    /// Resolves a configuration from raw optional values, applying the
    /// documented default for each absent one. Fails exactly when a
    /// present `port` or `jwt_ttl` value does not parse.
    pub fn resolve(
        host: Option<String>,
        port: Option<String>,
        jwt_secret: Option<String>,
        jwt_ttl: Option<String>,
        cors_origin: Option<String>,
        rust_log: Option<String>,
        environment: Option<String>,
    ) -> (r: Result<Config, ConfigError>)
        ensures
            r matches Ok(c) ==> {
                &&& c.host@ == match host {
                    Some(h) => h@,
                    None => "0.0.0.0"@,
                }
                &&& match port {
                    Some(p) => spec_parse_port(p@) == Some(c.port),
                    None => c.port == 8080,
                }
                &&& c.jwt_secret@ == match jwt_secret {
                    Some(s) => s@,
                    None => "key"@,
                }
                &&& match jwt_ttl {
                    Some(t) => spec_parse_ttl(t@) == Some(c.jwt_ttl),
                    None => c.jwt_ttl == 3600,
                }
                &&& c.cors_origin@ == match cors_origin {
                    Some(o) => o@,
                    None => "http://localhost:3000"@,
                }
                &&& c.rust_log@ == match rust_log {
                    Some(l) => l@,
                    None => "info,rust_api_server=debug"@,
                }
                &&& c.environment@ == match environment {
                    Some(e) => e@,
                    None => "development"@,
                }
            },
            r == Err::<Config, _>(ConfigError::InvalidPort) <==> ((port matches Some(p)
                && spec_parse_port(p@) is None)),
            r == Err::<Config, _>(ConfigError::InvalidJwtTtl) <==> (!((port matches Some(p)
                && spec_parse_port(p@) is None)) && ((jwt_ttl matches Some(t) && spec_parse_ttl(
                t@,
            ) is None))),
    {
        let port_value: u16 = match port {
            Some(p) => {
                match parse_whole_number(p.as_str()) {
                    Some(v) if v <= 65535 => v as u16,
                    _ => {
                        return Err(ConfigError::InvalidPort);
                    },
                }
            },
            None => 8080,
        };
        let ttl_value: u64 = match jwt_ttl {
            Some(t) => {
                match parse_whole_number(t.as_str()) {
                    Some(v) => v,
                    None => {
                        return Err(ConfigError::InvalidJwtTtl);
                    },
                }
            },
            None => 3600,
        };
        let host_value = match host {
            Some(h) => h,
            None => String::from_str("0.0.0.0"),
        };
        let secret_value = match jwt_secret {
            Some(s) => s,
            None => String::from_str("key"),
        };
        let cors_value = match cors_origin {
            Some(o) => o,
            None => String::from_str("http://localhost:3000"),
        };
        let log_value = match rust_log {
            Some(l) => l,
            None => String::from_str("info,rust_api_server=debug"),
        };
        let env_value = match environment {
            Some(e) => e,
            None => String::from_str("development"),
        };
        Ok(Config {
            host: host_value,
            port: port_value,
            jwt_secret: secret_value,
            jwt_ttl: ttl_value,
            cors_origin: cors_value,
            rust_log: log_value,
            environment: env_value,
        })
    }
}

/// Splits a comma-separated origin list into its trimmed, non-empty
/// entries, in order.
pub open spec fn spec_split_origins(s: Seq<char>) -> Seq<Seq<char>>
    decreases s.len(),
{
    let d = find_comma(s, 0);
    if d < 0 || d >= s.len() {
        let p = spec_trim(s);
        if p.len() == 0 {
            Seq::empty()
        } else {
            seq![p]
        }
    } else {
        let p = spec_trim(s.subrange(0, d));
        let rest = spec_split_origins(s.subrange(d + 1, s.len() as int));
        if p.len() == 0 {
            rest
        } else {
            seq![p] + rest
        }
    }
}

/// The position of the first `,` at or after `i`, or `-1`.
pub open spec fn find_comma(s: Seq<char>, i: int) -> int
    decreases s.len() - i,
{
    if i < 0 || i >= s.len() {
        -1
    } else if s[i] == ',' {
        i
    } else {
        find_comma(s, i + 1)
    }
}

proof fn lemma_find_comma_at(s: Seq<char>, i: int, d: int)
    requires
        0 <= i <= d < s.len(),
        s[d] == ',',
        forall|k: int| i <= k < d ==> s[k] != ',',
    ensures
        find_comma(s, i) == d,
    decreases d - i,
{
    if i < d {
        lemma_find_comma_at(s, i + 1, d);
    }
}

proof fn lemma_find_comma_none(s: Seq<char>, i: int)
    requires
        0 <= i <= s.len(),
        forall|k: int| i <= k < s.len() ==> s[k] != ',',
    ensures
        find_comma(s, i) == -1,
    decreases s.len() - i,
{
    if i < s.len() {
        lemma_find_comma_none(s, i + 1);
    }
}

/// Splits the configured origin list for the CORS layer.
pub fn split_origins(s: &str) -> (r: Vec<String>)
    ensures
        r.deep_view() == spec_split_origins(s@),
{
    let chars = str_to_chars(s);
    let mut out: Vec<String> = Vec::new();
    let mut lo: usize = 0;
    proof {
        assert(chars@.subrange(0, chars@.len() as int) =~= chars@);
        assert(chars@ == s@);
    }
    loop
        invariant
            lo <= chars.len(),
            chars@ =~= s@,
            out.deep_view() + spec_split_origins(chars@.subrange(lo as int, chars@.len() as int))
                =~= spec_split_origins(s@),
        ensures
            out.deep_view() =~= spec_split_origins(s@),
        decreases chars.len() - lo,
    {
        let ghost seg = chars@.subrange(lo as int, chars@.len() as int);
        let mut d: usize = lo;
        let mut found = false;
        while d < chars.len()
            invariant
                lo <= d <= chars.len(),
                found ==> d < chars.len() && chars@[d as int] == ',',
                forall|k: int| lo <= k < d ==> chars@[k] != ',',
            ensures
                found ==> d < chars.len() && chars@[d as int] == ',',
                forall|k: int| lo <= k < d ==> chars@[k] != ',',
                !found ==> d == chars.len(),
            decreases chars.len() - d,
        {
            if chars[d] == ',' {
                found = true;
                break;
            }
            d = d + 1;
        }
        proof {
            assert forall|k: int| 0 <= k < d - lo implies seg[k] != ',' by {
                assert(seg[k] == chars@[lo + k]);
            }
            if found {
                assert(seg[d - lo] == ',');
                lemma_find_comma_at(seg, 0, d - lo);
                assert(seg.subrange(0, d - lo) =~= chars@.subrange(lo as int, d as int));
                assert(seg.subrange(d - lo + 1, seg.len() as int) =~= chars@.subrange(
                    d + 1,
                    chars@.len() as int,
                ));
            } else {
                lemma_find_comma_none(seg, 0);
                assert(seg =~= chars@.subrange(lo as int, d as int));
            }
        }
        let (a, b) = crate::extract::trim_range(&chars, lo, d);
        let ghost trimmed = spec_trim(chars@.subrange(lo as int, d as int));
        if a < b {
            let mut part: Vec<char> = Vec::new();
            let mut k: usize = a;
            while k < b
                invariant
                    a <= k <= b <= chars.len(),
                    part@ =~= chars@.subrange(a as int, k as int),
                decreases b - k,
            {
                part.push(chars[k]);
                proof {
                    assert(chars@.subrange(a as int, k + 1) =~= chars@.subrange(
                        a as int,
                        k as int,
                    ) + seq![chars@[k as int]]);
                }
                k = k + 1;
            }
            let ghost before = out.deep_view();
            out.push(chars_to_string(&part));
            proof {
                assert(out.deep_view() =~= before.push(trimmed));
                assert(before.push(trimmed) =~= before + seq![trimmed]);
            }
        } else {
            proof {
                assert(trimmed.len() == 0);
            }
        }
        if found {
            lo = d + 1;
        } else {
            proof {
                assert(spec_split_origins(seg) =~= if trimmed.len() == 0 {
                    Seq::<Seq<char>>::empty()
                } else {
                    seq![trimmed]
                });
                assert(out.deep_view() + Seq::<Seq<char>>::empty() =~= out.deep_view());
            }
            return out;
        }
    }
}

} // verus!
