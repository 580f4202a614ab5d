//! The canonical text encoding of a claims record.
//!
//! A signed token carries its claims as a readable, transport-safe
//! payload: alphanumeric characters stand for themselves, every other
//! character is written as `~` followed by its decimal code point and a
//! closing `~`, and strings and lists are length-prefixed, so the
//! encoding is self-delimiting. The module defines the encoder and a
//! deterministic parser at the specification level, proves that the
//! parser inverts the encoder, and provides executable versions proved
//! equal to the specification ones.

use vstd::prelude::*;

verus! {

use crate::claims::{Claims, ClaimsView};
use crate::numerals::{
    dec_digits, decimal_at, digit_val, is_digit, lemma_canonical_digits_unique,
    lemma_dec_digits_canonical, parse_decimal, push_decimal, val_of_digits,
};

broadcast use vstd::utf8::char_is_scalar, vstd::utf8::char_u32_cast;

/// Characters that stand for themselves in a payload.
pub open spec fn is_plain(c: char) -> bool {
    ||| 48 <= c as u32 <= 57
    ||| 65 <= c as u32 <= 90
    ||| 97 <= c as u32 <= 122
}

/// The encoding of one character: itself when alphanumeric, otherwise
/// its decimal code point between two `~` marks.
pub open spec fn esc_char(c: char) -> Seq<char> {
    if is_plain(c) {
        seq![c]
    } else {
        seq!['~'] + dec_digits(c as u32 as nat) + seq!['~']
    }
}

/// The encoding of a string body, character by character.
pub open spec fn esc_str(t: Seq<char>) -> Seq<char>
    decreases t.len(),
{
    if t.len() == 0 {
        Seq::empty()
    } else {
        esc_char(t[0]) + esc_str(t.drop_first())
    }
}

/// A length-prefixed string: the character count, `_`, then the body.
pub open spec fn enc_str(t: Seq<char>) -> Seq<char> {
    dec_digits(t.len()) + seq!['_'] + esc_str(t)
}

/// The items of a list, each introduced by `:`.
pub open spec fn enc_items(v: Seq<Seq<char>>) -> Seq<char>
    decreases v.len(),
{
    if v.len() == 0 {
        Seq::empty()
    } else {
        seq![':'] + enc_str(v[0]) + enc_items(v.drop_first())
    }
}

/// A count-prefixed list of strings.
pub open spec fn enc_list(v: Seq<Seq<char>>) -> Seq<char> {
    dec_digits(v.len()) + enc_items(v)
}

/// The payload of a claims record: expiry, subject, roles, policies.
pub open spec fn enc_claims(cv: ClaimsView) -> Seq<char> {
    dec_digits(cv.exp as nat) + seq![':'] + enc_str(cv.sub) + seq![':'] + enc_list(cv.roles)
        + seq![':'] + enc_list(cv.policies)
}

// ---------------------------------------------------------------------
// The specification-level parser.
// ---------------------------------------------------------------------

/// The end of the digit run starting at `i`.
pub open spec fn digit_run_end(s: Seq<char>, i: int) -> int
    decreases s.len() - i,
{
    if i < 0 || i >= s.len() || !is_digit(s[i]) {
        i
    } else {
        digit_run_end(s, i + 1)
    }
}

/// Reads a canonical decimal numeral: the whole digit run, rejected if
/// empty, redundantly zero-padded, or too large for `u64`.
pub open spec fn sp_num(s: Seq<char>, i: int) -> Option<(u64, int)> {
    let j = digit_run_end(s, i);
    if j == i {
        None
    } else if j > i + 1 && digit_val(s[i]) == 0 {
        None
    } else if val_of_digits(s.subrange(i, j)) > u64::MAX {
        None
    } else {
        Some((val_of_digits(s.subrange(i, j)) as u64, j))
    }
}

/// A code point value that survives the round trip through `char`.
pub open spec fn scalar_char_ok(v: u32) -> bool {
    (v as char) as u32 == v
}

/// Reads one character unit: a plain character, or a `~`-delimited
/// decimal code point that must denote a non-plain character.
pub open spec fn sp_unit(s: Seq<char>, i: int) -> Option<(char, int)> {
    if !(0 <= i < s.len()) {
        None
    } else if is_plain(s[i]) {
        Some((s[i], i + 1))
    } else if s[i] == '~' {
        match sp_num(s, i + 1) {
            Some((v, j)) => {
                if j < s.len() && s[j] == '~' && v <= u32::MAX && scalar_char_ok(v as u32)
                    && !is_plain(v as u32 as char) {
                    Some((v as u32 as char, j + 1))
                } else {
                    None
                }
            },
            None => None,
        }
    } else {
        None
    }
}

/// Reads exactly `n` character units.
pub open spec fn sp_units(s: Seq<char>, i: int, n: nat) -> Option<(Seq<char>, int)>
    decreases n,
{
    if n == 0 {
        Some((Seq::empty(), i))
    } else {
        match sp_unit(s, i) {
            Some((c, j)) => match sp_units(s, j, (n - 1) as nat) {
                Some((t, k)) => Some((seq![c] + t, k)),
                None => None,
            },
            None => None,
        }
    }
}

/// Reads a length-prefixed string.
pub open spec fn sp_str(s: Seq<char>, i: int) -> Option<(Seq<char>, int)> {
    match sp_num(s, i) {
        Some((n, j)) => {
            if j < s.len() && s[j] == '_' {
                sp_units(s, j + 1, n as nat)
            } else {
                None
            }
        },
        None => None,
    }
}

/// Reads exactly `m` list items, each introduced by `:`.
pub open spec fn sp_items(s: Seq<char>, i: int, m: nat) -> Option<(Seq<Seq<char>>, int)>
    decreases m,
{
    if m == 0 {
        Some((Seq::empty(), i))
    } else if 0 <= i < s.len() && s[i] == ':' {
        match sp_str(s, i + 1) {
            Some((t, j)) => match sp_items(s, j, (m - 1) as nat) {
                Some((v, k)) => Some((seq![t] + v, k)),
                None => None,
            },
            None => None,
        }
    } else {
        None
    }
}

/// Reads a count-prefixed list of strings.
pub open spec fn sp_list(s: Seq<char>, i: int) -> Option<(Seq<Seq<char>>, int)> {
    match sp_num(s, i) {
        Some((m, j)) => sp_items(s, j, m as nat),
        None => None,
    }
}

/// Parses a whole payload; the input must be consumed exactly.
pub open spec fn sp_claims(s: Seq<char>) -> Option<ClaimsView> {
    match sp_num(s, 0) {
        Some((exp, i1)) => {
            if i1 < s.len() && s[i1] == ':' {
                match sp_str(s, i1 + 1) {
                    Some((sub, i2)) => {
                        if i2 < s.len() && s[i2] == ':' {
                            match sp_list(s, i2 + 1) {
                                Some((roles, i3)) => {
                                    if i3 < s.len() && s[i3] == ':' {
                                        match sp_list(s, i3 + 1) {
                                            Some((policies, i4)) => {
                                                if i4 == s.len() {
                                                    Some(ClaimsView { sub, exp, roles, policies })
                                                } else {
                                                    None
                                                }
                                            },
                                            None => None,
                                        }
                                    } else {
                                        None
                                    }
                                },
                                None => None,
                            }
                        } else {
                            None
                        }
                    },
                    None => None,
                }
            } else {
                None
            }
        },
        None => None,
    }
}

// ---------------------------------------------------------------------
// The parser inverts the encoder.
// ---------------------------------------------------------------------

proof fn lemma_digit_run_end_of(s: Seq<char>, i: int, l: int)
    requires
        0 <= i,
        i + l <= s.len(),
        0 <= l,
        forall|k: int| i <= k < i + l ==> is_digit(#[trigger] s[k]),
        i + l < s.len() ==> !is_digit(s[i + l]),
    ensures
        digit_run_end(s, i) == i + l,
    decreases l,
{
    if l == 0 {
    } else {
        lemma_digit_run_end_of(s, i + 1, l - 1);
    }
}

/// Where a canonical numeral sits, the specification parser reads
/// exactly that numeral.
pub proof fn lemma_sp_num_at(s: Seq<char>, i: int, v: u64)
    requires
        decimal_at(s, i, v),
    ensures
        sp_num(s, i) == Some((v, i + dec_digits(v as nat).len())),
{
    let ds = dec_digits(v as nat);
    lemma_dec_digits_canonical(v as nat);
    assert forall|k: int| i <= k < i + ds.len() implies is_digit(#[trigger] s[k]) by {
        assert(s[k] == s.subrange(i, i + ds.len() as int)[k - i]);
    }
    lemma_digit_run_end_of(s, i, ds.len() as int);
    assert(s.subrange(i, i + ds.len() as int) =~= ds);
    assert(val_of_digits(ds) == v);
    if ds.len() > 1 {
        assert(s[i] == ds[0]);
        assert(digit_val(ds[0]) >= 1);
    }
}

/// What the specification parser reads is a canonical numeral with a
/// non-digit boundary.
pub proof fn lemma_sp_num_sound(s: Seq<char>, i: int, v: u64, j: int)
    requires
        sp_num(s, i) == Some((v, j)),
        0 <= i <= s.len(),
    ensures
        i < j <= s.len(),
        s.subrange(i, j) =~= dec_digits(v as nat),
        j < s.len() ==> !is_digit(s[j]),
        decimal_at(s, i, v),
{
    lemma_digit_run_bounds(s, i);
    let j0 = digit_run_end(s, i);
    lemma_digit_run_digits(s, i);
    let ds = s.subrange(i, j0);
    assert(ds.len() > 0);
    assert(forall|k: int| 0 <= k < ds.len() ==> is_digit(#[trigger] ds[k]));
    assert(ds.len() > 1 ==> digit_val(ds[0]) >= 1) by {
        assert(ds[0] == s[i]);
    }
    lemma_canonical_digits_unique(ds);
    assert(dec_digits(v as nat) =~= ds);
}

proof fn lemma_digit_run_bounds(s: Seq<char>, i: int)
    requires
        0 <= i <= s.len(),
    ensures
        i <= digit_run_end(s, i) <= s.len(),
        digit_run_end(s, i) < s.len() ==> !is_digit(s[digit_run_end(s, i)]),
        digit_run_end(s, i) > i ==> is_digit(s[i]),
    decreases s.len() - i,
{
    if i < s.len() && is_digit(s[i]) {
        lemma_digit_run_bounds(s, i + 1);
    }
}

proof fn lemma_digit_run_digits(s: Seq<char>, i: int)
    requires
        0 <= i <= s.len(),
    ensures
        forall|k: int| i <= k < digit_run_end(s, i) ==> is_digit(#[trigger] s[k]),
    decreases s.len() - i,
{
    if i < s.len() && is_digit(s[i]) {
        lemma_digit_run_digits(s, i + 1);
    }
}

/// Where the encoding of one character sits, the unit parser reads
/// exactly that character.
pub proof fn lemma_sp_unit_at(s: Seq<char>, i: int, c: char)
    requires
        0 <= i,
        i + esc_char(c).len() <= s.len(),
        s.subrange(i, i + esc_char(c).len()) =~= esc_char(c),
    ensures
        sp_unit(s, i) == Some((c, i + esc_char(c).len())),
{
    let e = esc_char(c);
    if is_plain(c) {
        assert(s[i] == e[0]);
    } else {
        let cu = c as u32;
        let ds = dec_digits(cu as nat);
        lemma_dec_digits_canonical(cu as nat);
        assert(e.len() == ds.len() + 2);
        assert(s[i] == e[0]);
        assert(e[0] == '~');
        assert(!is_plain('~'));
        // the numeral of the code point sits right after the opening mark
        assert(s.subrange(i + 1, i + 1 + ds.len() as int) =~= ds) by {
            assert forall|k: int| 0 <= k < ds.len() implies s.subrange(
                i + 1,
                i + 1 + ds.len() as int,
            )[k] == ds[k] by {
                assert(s[i + 1 + k] == e[1 + k]);
                assert(e[1 + k] == ds[k]);
            }
        }
        assert(s[i + 1 + ds.len()] == e[1 + ds.len() as int]);
        assert(e[1 + ds.len() as int] == '~');
        assert(!is_digit('~'));
        assert(decimal_at(s, i + 1, cu as u64)) by {
            assert(val_of_digits(ds) == cu as nat);
        }
        lemma_sp_num_at(s, i + 1, cu as u64);
        assert(scalar_char_ok(cu));
        assert((cu as char) == c);
    }
}

/// What the unit parser reads is the encoding of the returned character.
pub proof fn lemma_sp_unit_sound(s: Seq<char>, i: int, c: char, j: int)
    requires
        sp_unit(s, i) == Some((c, j)),
        0 <= i <= s.len(),
    ensures
        i < j <= s.len(),
        s.subrange(i, j) =~= esc_char(c),
{
    if is_plain(s[i]) {
    } else {
        let (v, jn) = sp_num(s, i + 1).unwrap();
        lemma_sp_num_sound(s, i + 1, v, jn);
        let ds = dec_digits(v as nat);
        assert(c == v as u32 as char);
        assert(c as u32 == v as u32);
        assert(esc_char(c) =~= seq!['~'] + dec_digits(c as u32 as nat) + seq!['~']);
        assert(v as nat == c as u32 as nat);
        assert(s.subrange(i, j) =~= seq!['~'] + ds + seq!['~']) by {
            assert(s[i] == '~');
            assert(s[jn] == '~');
            assert(s.subrange(i + 1, jn) =~= ds);
        }
    }
}

/// Splitting the encoding of a string around its first character.
proof fn lemma_esc_str_first(t: Seq<char>)
    requires
        t.len() > 0,
    ensures
        esc_str(t) =~= esc_char(t[0]) + esc_str(t.drop_first()),
{
}

/// Where the encoding of `n` characters sits, the unit-sequence parser
/// reads exactly those characters.
pub proof fn lemma_sp_units_at(s: Seq<char>, i: int, t: Seq<char>)
    requires
        0 <= i,
        i + esc_str(t).len() <= s.len(),
        s.subrange(i, i + esc_str(t).len()) =~= esc_str(t),
    ensures
        sp_units(s, i, t.len()) == Some((t, i + esc_str(t).len())),
    decreases t.len(),
{
    if t.len() == 0 {
        assert(sp_units(s, i, 0) == Some((Seq::<char>::empty(), i)));
        assert(t =~= Seq::<char>::empty());
    } else {
        let e0 = esc_char(t[0]);
        let rest = esc_str(t.drop_first());
        assert(esc_str(t) =~= e0 + rest);
        assert(s.subrange(i, i + e0.len()) =~= e0) by {
            assert forall|k: int| 0 <= k < e0.len() implies s.subrange(i, i + e0.len())[k]
                == e0[k] by {
                assert(s[i + k] == s.subrange(i, i + esc_str(t).len() as int)[k]);
            }
        }
        lemma_sp_unit_at(s, i, t[0]);
        let j = i + e0.len();
        assert(s.subrange(j, j + rest.len()) =~= rest) by {
            assert forall|k: int| 0 <= k < rest.len() implies s.subrange(j, j + rest.len())[k]
                == rest[k] by {
                assert(s[j + k] == s.subrange(i, i + esc_str(t).len() as int)[e0.len() + k]);
                assert((e0 + rest)[e0.len() + k] == rest[k]);
            }
        }
        lemma_sp_units_at(s, j, t.drop_first());
        assert(seq![t[0]] + t.drop_first() =~= t);
    }
}

/// What the unit-sequence parser reads is the encoding of the returned
/// characters.
pub proof fn lemma_sp_units_sound(s: Seq<char>, i: int, n: nat, t: Seq<char>, j: int)
    requires
        sp_units(s, i, n) == Some((t, j)),
        0 <= i <= s.len(),
    ensures
        i <= j <= s.len(),
        t.len() == n,
        s.subrange(i, j) =~= esc_str(t),
    decreases n,
{
    if n == 0 {
        assert(s.subrange(i, i) =~= Seq::<char>::empty());
        assert(esc_str(t) =~= Seq::<char>::empty());
    } else {
        let (c, j1) = sp_unit(s, i).unwrap();
        lemma_sp_unit_sound(s, i, c, j1);
        let (t1, _) = sp_units(s, j1, (n - 1) as nat).unwrap();
        lemma_sp_units_sound(s, j1, (n - 1) as nat, t1, j);
        assert(t =~= seq![c] + t1);
        assert(t.drop_first() =~= t1);
        assert(t[0] == c);
        assert(esc_str(t) =~= esc_char(c) + esc_str(t1));
        assert(s.subrange(i, j) =~= s.subrange(i, j1) + s.subrange(j1, j));
    }
}

/// Where the encoding of a string sits, the string parser reads exactly
/// that string.
pub proof fn lemma_sp_str_at(s: Seq<char>, i: int, t: Seq<char>)
    requires
        0 <= i,
        i + enc_str(t).len() <= s.len(),
        s.subrange(i, i + enc_str(t).len()) =~= enc_str(t),
        t.len() <= u64::MAX,
    ensures
        sp_str(s, i) == Some((t, i + enc_str(t).len())),
{
    let ds = dec_digits(t.len());
    let es = esc_str(t);
    lemma_dec_digits_canonical(t.len());
    assert(enc_str(t) =~= ds + seq!['_'] + es);
    assert forall|k: int| 0 <= k < enc_str(t).len() implies s[i + k] == enc_str(t)[k] by {
        assert(s.subrange(i, i + enc_str(t).len() as int)[k] == enc_str(t)[k]);
    }
    assert(s.subrange(i, i + ds.len() as int) =~= ds);
    assert(s[i + ds.len()] == '_') by {
        assert(s[i + ds.len()] == s.subrange(i, i + enc_str(t).len() as int)[ds.len() as int]);
        assert(enc_str(t)[ds.len() as int] == '_');
    }
    assert(!is_digit('_'));
    assert(decimal_at(s, i, t.len() as u64)) by {
        assert(val_of_digits(ds) == t.len());
    }
    lemma_sp_num_at(s, i, t.len() as u64);
    let j = i + ds.len();
    assert(s.subrange(j + 1, j + 1 + es.len() as int) =~= es) by {
        assert forall|k: int| 0 <= k < es.len() implies s[j + 1 + k] == es[k] by {
            assert(enc_str(t)[ds.len() + 1 + k] == es[k]);
        }
    }
    lemma_sp_units_at(s, j + 1, t);
}

/// What the string parser reads is the encoding of the returned string.
pub proof fn lemma_sp_str_sound(s: Seq<char>, i: int, t: Seq<char>, j: int)
    requires
        sp_str(s, i) == Some((t, j)),
        0 <= i <= s.len(),
    ensures
        i < j <= s.len(),
        s.subrange(i, j) =~= enc_str(t),
{
    let (n, j1) = sp_num(s, i).unwrap();
    lemma_sp_num_sound(s, i, n, j1);
    lemma_sp_units_sound(s, j1 + 1, n as nat, t, j);
    assert(s[j1] == '_');
    assert(s.subrange(i, j) =~= s.subrange(i, j1) + seq![s[j1]] + s.subrange(j1 + 1, j));
    assert(enc_str(t) =~= dec_digits(t.len()) + seq!['_'] + esc_str(t));
}

/// Where the items of a list sit, the item parser reads exactly those
/// items.
pub proof fn lemma_sp_items_at(s: Seq<char>, i: int, v: Seq<Seq<char>>)
    requires
        0 <= i,
        i + enc_items(v).len() <= s.len(),
        s.subrange(i, i + enc_items(v).len()) =~= enc_items(v),
        forall|k: int| 0 <= k < v.len() ==> (#[trigger] v[k]).len() <= u64::MAX,
    ensures
        sp_items(s, i, v.len()) == Some((v, i + enc_items(v).len())),
    decreases v.len(),
{
    if v.len() == 0 {
        assert(v =~= Seq::<Seq<char>>::empty());
    } else {
        let e0 = enc_str(v[0]);
        let rest = enc_items(v.drop_first());
        assert(enc_items(v) =~= seq![':'] + e0 + rest);
        assert forall|k: int| 0 <= k < enc_items(v).len() implies s[i + k] == enc_items(v)[k] by {
            assert(s.subrange(i, i + enc_items(v).len() as int)[k] == enc_items(v)[k]);
        }
        assert(s[i] == ':') by {
            assert(s[i] == s.subrange(i, i + enc_items(v).len() as int)[0]);
            assert(enc_items(v)[0] == ':');
        }
        assert(s.subrange(i + 1, i + 1 + e0.len() as int) =~= e0) by {
            assert forall|k: int| 0 <= k < e0.len() implies s[i + 1 + k] == e0[k] by {
                assert(enc_items(v)[1 + k] == e0[k]);
            }
        }
        lemma_sp_str_at(s, i + 1, v[0]);
        let j = i + 1 + e0.len();
        assert(s.subrange(j, j + rest.len() as int) =~= rest) by {
            assert forall|k: int| 0 <= k < rest.len() implies s[j + k] == rest[k] by {
                assert(enc_items(v)[1 + e0.len() + k] == rest[k]);
            }
        }
        lemma_sp_items_at(s, j, v.drop_first());
        assert(seq![v[0]] + v.drop_first() =~= v);
    }
}

/// What the item parser reads is the encoding of the returned items.
pub proof fn lemma_sp_items_sound(s: Seq<char>, i: int, m: nat, v: Seq<Seq<char>>, j: int)
    requires
        sp_items(s, i, m) == Some((v, j)),
        0 <= i <= s.len(),
    ensures
        i <= j <= s.len(),
        v.len() == m,
        s.subrange(i, j) =~= enc_items(v),
    decreases m,
{
    if m == 0 {
        assert(s.subrange(i, i) =~= Seq::<char>::empty());
        assert(enc_items(v) =~= Seq::<char>::empty());
    } else {
        let (t, j1) = sp_str(s, i + 1).unwrap();
        lemma_sp_str_sound(s, i + 1, t, j1);
        let (v1, _) = sp_items(s, j1, (m - 1) as nat).unwrap();
        lemma_sp_items_sound(s, j1, (m - 1) as nat, v1, j);
        assert(v =~= seq![t] + v1);
        assert(v.drop_first() =~= v1);
        assert(v[0] == t);
        assert(enc_items(v) =~= seq![':'] + enc_str(t) + enc_items(v1));
        assert(s.subrange(i, j) =~= seq![s[i]] + s.subrange(i + 1, j1) + s.subrange(j1, j));
    }
}

/// Where the encoding of a list sits with a non-digit boundary, the
/// list parser reads exactly that list.
pub proof fn lemma_sp_list_at(s: Seq<char>, i: int, v: Seq<Seq<char>>)
    requires
        0 <= i,
        i + enc_list(v).len() <= s.len(),
        s.subrange(i, i + enc_list(v).len()) =~= enc_list(v),
        i + enc_list(v).len() < s.len() ==> !is_digit(s[i + enc_list(v).len()]),
        v.len() <= u64::MAX,
        forall|k: int| 0 <= k < v.len() ==> (#[trigger] v[k]).len() <= u64::MAX,
    ensures
        sp_list(s, i) == Some((v, i + enc_list(v).len())),
{
    let ds = dec_digits(v.len());
    let items = enc_items(v);
    lemma_dec_digits_canonical(v.len());
    assert(enc_list(v) =~= ds + items);
    assert forall|k: int| 0 <= k < enc_list(v).len() implies s[i + k] == enc_list(v)[k] by {
        assert(s.subrange(i, i + enc_list(v).len() as int)[k] == enc_list(v)[k]);
    }
    assert(s.subrange(i, i + ds.len() as int) =~= ds);
    // the character after the count is either a ':' introducing the first
    // item, or the external boundary, neither of which is a digit
    if v.len() > 0 {
        assert(enc_items(v) =~= seq![':'] + enc_str(v[0]) + enc_items(v.drop_first()));
        assert(s[i + ds.len()] == ':') by {
            assert(s[i + ds.len()] == s.subrange(i, i + enc_list(v).len() as int)[ds.len() as int]);
            assert(enc_list(v)[ds.len() as int] == ':');
        }
        assert(!is_digit(':'));
    }
    assert(decimal_at(s, i, v.len() as u64)) by {
        assert(val_of_digits(ds) == v.len());
    }
    lemma_sp_num_at(s, i, v.len() as u64);
    let j = i + ds.len();
    assert(s.subrange(j, j + items.len() as int) =~= items) by {
        assert forall|k: int| 0 <= k < items.len() implies s[j + k] == items[k] by {
            assert(enc_list(v)[ds.len() + k] == items[k]);
        }
    }
    lemma_sp_items_at(s, j, v);
}

/// What the list parser reads is the encoding of the returned list.
pub proof fn lemma_sp_list_sound(s: Seq<char>, i: int, v: Seq<Seq<char>>, j: int)
    requires
        sp_list(s, i) == Some((v, j)),
        0 <= i <= s.len(),
    ensures
        i < j <= s.len(),
        s.subrange(i, j) =~= enc_list(v),
    decreases s.len() - i,
{
    let (m, j1) = sp_num(s, i).unwrap();
    lemma_sp_num_sound(s, i, m, j1);
    lemma_sp_items_sound(s, j1, m as nat, v, j);
    assert(s.subrange(i, j) =~= s.subrange(i, j1) + s.subrange(j1, j));
    assert(enc_list(v) =~= dec_digits(v.len()) + enc_items(v));
}

/// Bounded field sizes: every length that the encoding writes fits in
/// the numeral parser's range.
pub open spec fn bounded_claims(cv: ClaimsView) -> bool {
    &&& cv.sub.len() <= u64::MAX
    &&& cv.roles.len() <= u64::MAX
    &&& cv.policies.len() <= u64::MAX
    &&& forall|k: int| 0 <= k < cv.roles.len() ==> (#[trigger] cv.roles[k]).len() <= u64::MAX
    &&& forall|k: int|
        0 <= k < cv.policies.len() ==> (#[trigger] cv.policies[k]).len() <= u64::MAX
}

/// Round trip: parsing the encoding of a claims record yields exactly
/// that record.
pub proof fn lemma_sp_claims_of_enc(cv: ClaimsView)
    requires
        bounded_claims(cv),
    ensures
        sp_claims(enc_claims(cv)) == Some(cv),
{
    let s = enc_claims(cv);
    let de = dec_digits(cv.exp as nat);
    let es = enc_str(cv.sub);
    let lr = enc_list(cv.roles);
    let lp = enc_list(cv.policies);
    lemma_dec_digits_canonical(cv.exp as nat);
    assert(s =~= de + seq![':'] + es + seq![':'] + lr + seq![':'] + lp);
    let i1 = de.len() as int;
    let i2 = i1 + 1 + es.len();
    let i3 = i2 + 1 + lr.len();
    assert(s.len() == i3 + 1 + lp.len());
    assert(s.subrange(0, i1) =~= de);
    assert(s[i1] == ':');
    assert(!is_digit(':'));
    assert(decimal_at(s, 0, cv.exp)) by {
        assert(val_of_digits(de) == cv.exp as nat);
    }
    lemma_sp_num_at(s, 0, cv.exp);
    assert(s.subrange(i1 + 1, i1 + 1 + es.len() as int) =~= es);
    lemma_sp_str_at(s, i1 + 1, cv.sub);
    assert(s[i2] == ':');
    assert(s.subrange(i2 + 1, i2 + 1 + lr.len() as int) =~= lr);
    assert(s[i2 + 1 + lr.len()] == ':');
    lemma_sp_list_at(s, i2 + 1, cv.roles);
    assert(s[i3] == ':');
    assert(s.subrange(i3 + 1, i3 + 1 + lp.len() as int) =~= lp);
    lemma_sp_list_at(s, i3 + 1, cv.policies);
    assert(sp_claims(s) == Some(ClaimsView { sub: cv.sub, exp: cv.exp, roles: cv.roles, policies: cv.policies }));
    assert(ClaimsView { sub: cv.sub, exp: cv.exp, roles: cv.roles, policies: cv.policies } == cv);
}

/// Soundness: a payload the parser accepts is the encoding of the
/// record it returns.
pub proof fn lemma_sp_claims_sound(s: Seq<char>, cv: ClaimsView)
    requires
        sp_claims(s) == Some(cv),
    ensures
        s =~= enc_claims(cv),
        bounded_claims(cv),
{
    let (exp, i1) = sp_num(s, 0).unwrap();
    lemma_sp_num_sound(s, 0, exp, i1);
    let (sub, i2) = sp_str(s, i1 + 1).unwrap();
    lemma_sp_str_sound(s, i1 + 1, sub, i2);
    let (roles, i3) = sp_list(s, i2 + 1).unwrap();
    lemma_sp_list_sound(s, i2 + 1, roles, i3);
    let (policies, i4) = sp_list(s, i3 + 1).unwrap();
    lemma_sp_list_sound(s, i3 + 1, policies, i4);
    assert(s =~= s.subrange(0, i1) + seq![s[i1]] + s.subrange(i1 + 1, i2) + seq![s[i2]]
        + s.subrange(i2 + 1, i3) + seq![s[i3]] + s.subrange(i3 + 1, i4));
    // list and string lengths come out of parsed numerals, so they fit
    lemma_sp_claims_bounded(s, cv);
}

/// The sizes of a parsed record fit the numeral range.
proof fn lemma_sp_claims_bounded(s: Seq<char>, cv: ClaimsView)
    requires
        sp_claims(s) == Some(cv),
    ensures
        bounded_claims(cv),
{
    let (exp, i1) = sp_num(s, 0).unwrap();
    let (sub, i2) = sp_str(s, i1 + 1).unwrap();
    lemma_sp_num_sound(s, 0, exp, i1);
    lemma_sp_str_len(s, i1 + 1);
    let (roles, i3) = sp_list(s, i2 + 1).unwrap();
    lemma_sp_list_lens(s, i2 + 1);
    let (policies, i4) = sp_list(s, i3 + 1).unwrap();
    lemma_sp_list_lens(s, i3 + 1);
}

/// A parsed string has at most `u64::MAX` characters.
proof fn lemma_sp_str_len(s: Seq<char>, i: int)
    requires
        sp_str(s, i) is Some,
    ensures
        sp_str(s, i).unwrap().0.len() <= u64::MAX,
{
    let (n, j) = sp_num(s, i).unwrap();
    let (t, k) = sp_units(s, j + 1, n as nat).unwrap();
    lemma_sp_units_len(s, j + 1, n as nat);
}

proof fn lemma_sp_units_len(s: Seq<char>, i: int, n: nat)
    requires
        sp_units(s, i, n) is Some,
    ensures
        sp_units(s, i, n).unwrap().0.len() == n,
    decreases n,
{
    if n > 0 {
        let (c, j) = sp_unit(s, i).unwrap();
        lemma_sp_units_len(s, j, (n - 1) as nat);
    }
}

/// Every string of a parsed list has at most `u64::MAX` characters, and
/// so does the list itself.
proof fn lemma_sp_list_lens(s: Seq<char>, i: int)
    requires
        sp_list(s, i) is Some,
    ensures
        sp_list(s, i).unwrap().0.len() <= u64::MAX,
        forall|k: int|
            0 <= k < sp_list(s, i).unwrap().0.len() ==> (#[trigger] sp_list(
                s,
                i,
            ).unwrap().0[k]).len() <= u64::MAX,
{
    let (m, j) = sp_num(s, i).unwrap();
    lemma_sp_items_lens(s, j, m as nat);
}

/// The encoder distributes over concatenation.
proof fn lemma_esc_str_concat(a: Seq<char>, b: Seq<char>)
    ensures
        esc_str(a + b) =~= esc_str(a) + esc_str(b),
    decreases a.len(),
{
    if a.len() == 0 {
        assert(a + b =~= b);
    } else {
        assert((a + b).drop_first() =~= a.drop_first() + b);
        lemma_esc_str_concat(a.drop_first(), b);
        assert((a + b)[0] == a[0]);
    }
}

proof fn lemma_esc_str_snoc(t: Seq<char>, k: int)
    requires
        0 <= k < t.len(),
    ensures
        esc_str(t.subrange(0, k + 1)) =~= esc_str(t.subrange(0, k)) + esc_char(t[k]),
{
    assert(t.subrange(0, k + 1) =~= t.subrange(0, k) + seq![t[k]]);
    lemma_esc_str_concat(t.subrange(0, k), seq![t[k]]);
    assert(esc_str(seq![t[k]]) =~= esc_char(t[k])) by {
        let u = seq![t[k]];
        assert(u[0] == t[k]);
        assert(u.drop_first() =~= Seq::<char>::empty());
        assert(esc_str(Seq::<char>::empty()) =~= Seq::<char>::empty());
        assert(esc_str(u) =~= esc_char(u[0]) + esc_str(u.drop_first()));
    }
}

proof fn lemma_enc_items_concat(a: Seq<Seq<char>>, b: Seq<Seq<char>>)
    ensures
        enc_items(a + b) =~= enc_items(a) + enc_items(b),
    decreases a.len(),
{
    if a.len() == 0 {
        assert(a + b =~= b);
    } else {
        assert((a + b).drop_first() =~= a.drop_first() + b);
        lemma_enc_items_concat(a.drop_first(), b);
        assert((a + b)[0] == a[0]);
    }
}

proof fn lemma_enc_items_snoc(v: Seq<Seq<char>>, k: int)
    requires
        0 <= k < v.len(),
    ensures
        enc_items(v.subrange(0, k + 1)) =~= enc_items(v.subrange(0, k)) + seq![':'] + enc_str(
            v[k],
        ),
{
    assert(v.subrange(0, k + 1) =~= v.subrange(0, k) + seq![v[k]]);
    lemma_enc_items_concat(v.subrange(0, k), seq![v[k]]);
    assert(enc_items(seq![v[k]]) =~= seq![':'] + enc_str(v[k])) by {
        let u = seq![v[k]];
        assert(u[0] == v[k]);
        assert(u.drop_first() =~= Seq::<Seq<char>>::empty());
        assert(enc_items(Seq::<Seq<char>>::empty()) =~= Seq::<char>::empty());
        assert(enc_items(u) =~= seq![':'] + enc_str(u[0]) + enc_items(u.drop_first()));
    }
}

// ---------------------------------------------------------------------
// The characters a payload can contain.
// ---------------------------------------------------------------------

/// Every character of an encoded payload is alphanumeric or one of the
/// three structural marks.
pub open spec fn payload_char(c: char) -> bool {
    is_plain(c) || c == '~' || c == '_' || c == ':'
}

pub open spec fn all_payload_chars(s: Seq<char>) -> bool {
    forall|k: int| 0 <= k < s.len() ==> payload_char(#[trigger] s[k])
}

proof fn lemma_concat_payload(a: Seq<char>, b: Seq<char>)
    requires
        all_payload_chars(a),
        all_payload_chars(b),
    ensures
        all_payload_chars(a + b),
{
    assert forall|k: int| 0 <= k < (a + b).len() implies payload_char(#[trigger] (a + b)[k]) by {
        if k < a.len() {
            assert((a + b)[k] == a[k]);
        } else {
            assert((a + b)[k] == b[k - a.len()]);
        }
    }
}

proof fn lemma_dec_digits_payload(n: nat)
    ensures
        all_payload_chars(dec_digits(n)),
{
    lemma_dec_digits_canonical(n);
    assert forall|k: int| 0 <= k < dec_digits(n).len() implies payload_char(
        #[trigger] dec_digits(n)[k],
    ) by {
        assert(is_digit(dec_digits(n)[k]));
    }
}

proof fn lemma_esc_char_payload(c: char)
    ensures
        all_payload_chars(esc_char(c)),
{
    if is_plain(c) {
        assert(esc_char(c)[0] == c);
    } else {
        lemma_dec_digits_payload(c as u32 as nat);
        lemma_concat_payload(seq!['~'], dec_digits(c as u32 as nat));
        lemma_concat_payload(seq!['~'] + dec_digits(c as u32 as nat), seq!['~']);
        assert(all_payload_chars(seq!['~'])) by {
            assert(seq!['~'][0] == '~');
        }
    }
}

proof fn lemma_esc_str_payload(t: Seq<char>)
    ensures
        all_payload_chars(esc_str(t)),
    decreases t.len(),
{
    if t.len() == 0 {
    } else {
        lemma_esc_char_payload(t[0]);
        lemma_esc_str_payload(t.drop_first());
        lemma_concat_payload(esc_char(t[0]), esc_str(t.drop_first()));
    }
}

proof fn lemma_single_payload(c: char)
    requires
        payload_char(c),
    ensures
        all_payload_chars(seq![c]),
{
    assert(seq![c][0] == c);
}

proof fn lemma_enc_str_payload(t: Seq<char>)
    ensures
        all_payload_chars(enc_str(t)),
{
    lemma_dec_digits_payload(t.len());
    lemma_esc_str_payload(t);
    lemma_single_payload('_');
    lemma_concat_payload(dec_digits(t.len()), seq!['_']);
    lemma_concat_payload(dec_digits(t.len()) + seq!['_'], esc_str(t));
}

proof fn lemma_enc_items_payload(v: Seq<Seq<char>>)
    ensures
        all_payload_chars(enc_items(v)),
    decreases v.len(),
{
    if v.len() == 0 {
    } else {
        lemma_single_payload(':');
        lemma_enc_str_payload(v[0]);
        lemma_enc_items_payload(v.drop_first());
        lemma_concat_payload(seq![':'], enc_str(v[0]));
        lemma_concat_payload(seq![':'] + enc_str(v[0]), enc_items(v.drop_first()));
    }
}

proof fn lemma_enc_list_payload(v: Seq<Seq<char>>)
    ensures
        all_payload_chars(enc_list(v)),
{
    lemma_dec_digits_payload(v.len());
    lemma_enc_items_payload(v);
    lemma_concat_payload(dec_digits(v.len()), enc_items(v));
}

/// The payload of a claims record never contains a `.`, so the token's
/// payload/signature separator is unambiguous.
pub proof fn lemma_enc_claims_payload(cv: ClaimsView)
    ensures
        all_payload_chars(enc_claims(cv)),
        forall|k: int| 0 <= k < enc_claims(cv).len() ==> #[trigger] enc_claims(cv)[k] != '.',
{
    lemma_dec_digits_payload(cv.exp as nat);
    lemma_single_payload(':');
    lemma_enc_str_payload(cv.sub);
    lemma_enc_list_payload(cv.roles);
    lemma_enc_list_payload(cv.policies);
    let a1 = dec_digits(cv.exp as nat);
    let a2 = a1 + seq![':'];
    let a3 = a2 + enc_str(cv.sub);
    let a4 = a3 + seq![':'];
    let a5 = a4 + enc_list(cv.roles);
    let a6 = a5 + seq![':'];
    lemma_concat_payload(a1, seq![':']);
    lemma_concat_payload(a2, enc_str(cv.sub));
    lemma_concat_payload(a3, seq![':']);
    lemma_concat_payload(a4, enc_list(cv.roles));
    lemma_concat_payload(a5, seq![':']);
    lemma_concat_payload(a6, enc_list(cv.policies));
    assert(enc_claims(cv) =~= a6 + enc_list(cv.policies));
    assert forall|k: int| 0 <= k < enc_claims(cv).len() implies #[trigger] enc_claims(cv)[k]
        != '.' by {
        assert(payload_char(enc_claims(cv)[k]));
        assert('.' as u32 == 46);
    }
}

// ---------------------------------------------------------------------
// The executable encoder.
// ---------------------------------------------------------------------

pub fn is_plain_exec(c: char) -> (r: bool)
    ensures
        r == is_plain(c),
{
    let u = c as u32;
    (48 <= u && u <= 57) || (65 <= u && u <= 90) || (97 <= u && u <= 122)
}

fn push_esc_char(out: &mut Vec<char>, c: char)
    ensures
        final(out)@ =~= old(out)@ + esc_char(c),
{
    if is_plain_exec(c) {
        out.push(c);
    } else {
        out.push('~');
        push_decimal(out, c as u32 as u64);
        out.push('~');
    }
}

fn push_esc_str(out: &mut Vec<char>, t: &Vec<char>)
    ensures
        final(out)@ =~= old(out)@ + esc_str(t@),
{
    let ghost base = out@;
    let mut k: usize = 0;
    while k < t.len()
        invariant
            k <= t.len(),
            out@ =~= base + esc_str(t@.subrange(0, k as int)),
        decreases t.len() - k,
    {
        push_esc_char(out, t[k]);
        proof {
            lemma_esc_str_snoc(t@, k as int);
        }
        k = k + 1;
    }
    proof {
        assert(t@.subrange(0, t@.len() as int) =~= t@);
    }
}

fn push_enc_str(out: &mut Vec<char>, t: &str)
    ensures
        final(out)@ =~= old(out)@ + enc_str(t@),
{
    let chars = crate::numerals::str_to_chars(t);
    push_decimal(out, chars.len() as u64);
    out.push('_');
    push_esc_str(out, &chars);
}

fn push_enc_list(out: &mut Vec<char>, v: &Vec<String>)
    ensures
        final(out)@ =~= old(out)@ + enc_list(v.deep_view()),
{
    push_decimal(out, v.len() as u64);
    let ghost base = out@;
    let mut k: usize = 0;
    while k < v.len()
        invariant
            k <= v.len(),
            out@ =~= base + enc_items(v.deep_view().subrange(0, k as int)),
        decreases v.len() - k,
    {
        out.push(':');
        push_enc_str(out, v[k].as_str());
        proof {
            lemma_enc_items_snoc(v.deep_view(), k as int);
            assert(v.deep_view()[k as int] == v[k as int]@);
        }
        k = k + 1;
    }
    proof {
        assert(v.deep_view().subrange(0, v.deep_view().len() as int) =~= v.deep_view());
        assert(v.deep_view().len() == v@.len());
    }
}

/// Renders the payload of a claims record.
pub fn encode_claims_chars(c: &Claims) -> (out: Vec<char>)
    ensures
        out@ =~= enc_claims(c@),
{
    let mut out: Vec<char> = Vec::new();
    push_decimal(&mut out, c.exp);
    out.push(':');
    push_enc_str(&mut out, c.sub.as_str());
    out.push(':');
    push_enc_list(&mut out, &c.roles);
    out.push(':');
    push_enc_list(&mut out, &c.policies);
    out
}

// ---------------------------------------------------------------------
// The executable parser.
// ---------------------------------------------------------------------

/// Relies on `char::from_u32`: yields the character with the given code
/// point exactly when the value is a Unicode scalar value, i.e. at most
/// 0x10FFFF and not a surrogate.
#[verifier::external_body]
fn char_from_u32(v: u32) -> (r: Option<char>)
    ensures
        r matches Some(c) ==> c as u32 == v,
        r is Some <==> vstd::utf8::is_scalar(v),
{
    char::from_u32(v)
}

proof fn lemma_sp_num_of_no_decimal(s: Seq<char>, i: int)
    requires
        0 <= i <= s.len(),
        forall|v: u64| !decimal_at(s, i, v),
    ensures
        sp_num(s, i) is None,
{
    if sp_num(s, i) is Some {
        let (v, j) = sp_num(s, i).unwrap();
        lemma_sp_num_sound(s, i, v, j);
    }
}

/// Reads a canonical numeral; agrees with [`sp_num`].
pub fn parse_number(s: &Vec<char>, i: usize) -> (r: Option<(u64, usize)>)
    requires
        i <= s.len(),
    ensures
        match r {
            Some((v, j)) => sp_num(s@, i as int) == Some((v, j as int)) && i < j <= s.len(),
            None => sp_num(s@, i as int) is None,
        },
{
    let r = parse_decimal(s, i);
    proof {
        match r {
            Some((v, j)) => {
                assert(decimal_at(s@, i as int, v));
                lemma_sp_num_at(s@, i as int, v);
            },
            None => {
                assert forall|v: u64| !decimal_at(s@, i as int, v) by {
                    if decimal_at(s@, i as int, v) {
                        assert(r == Some((v, (i + dec_digits(v as nat).len()) as usize)));
                    }
                }
                lemma_sp_num_of_no_decimal(s@, i as int);
            },
        }
    }
    r
}

/// Reads one character unit; agrees with [`sp_unit`].
fn parse_unit(s: &Vec<char>, i: usize) -> (r: Option<(char, usize)>)
    requires
        i <= s.len(),
    ensures
        match r {
            Some((c, j)) => sp_unit(s@, i as int) == Some((c, j as int)) && i < j <= s.len(),
            None => sp_unit(s@, i as int) is None,
        },
{
    if i >= s.len() {
        return None;
    }
    let c0 = s[i];
    if is_plain_exec(c0) {
        return Some((c0, i + 1));
    }
    if c0 != '~' {
        return None;
    }
    match parse_number(s, i + 1) {
        Some((v, j)) => {
            proof {
                lemma_sp_num_sound(s@, i + 1, v, j as int);
            }
            if j < s.len() && s[j] == '~' && v <= u32::MAX as u64 {
                match char_from_u32(v as u32) {
                    Some(c) => {
                        proof {
                            vstd::utf8::char_u32_cast(c, v as u32);
                            assert(scalar_char_ok(v as u32));
                        }
                        if is_plain_exec(c) {
                            None
                        } else {
                            proof {
                                vstd::utf8::char_u32_cast(c, v as u32);
                                assert((v as u32) as char == c);
                            }
                            Some((c, j + 1))
                        }
                    },
                    None => {
                        proof {
                            if scalar_char_ok(v as u32) {
                                let c = (v as u32) as char;
                                assert(vstd::utf8::is_scalar(c as u32));
                            }
                        }
                        None
                    },
                }
            } else {
                None
            }
        },
        None => None,
    }
}

/// Reads exactly `n` character units; agrees with [`sp_units`].
fn parse_units(s: &Vec<char>, i: usize, n: u64) -> (r: Option<(Vec<char>, usize)>)
    requires
        i <= s.len(),
    ensures
        match r {
            Some((cs, j)) => sp_units(s@, i as int, n as nat) == Some((cs@, j as int)) && i <= j
                <= s.len(),
            None => sp_units(s@, i as int, n as nat) is None,
        },
{
    let mut cs: Vec<char> = Vec::new();
    let mut pos: usize = i;
    let mut k: u64 = 0;
    while k < n
        invariant
            i <= pos <= s.len(),
            k <= n,
            cs@.len() == k,
            forall|t: Seq<char>, j: int|
                sp_units(s@, pos as int, (n - k) as nat) == Some((t, j)) ==> sp_units(
                    s@,
                    i as int,
                    n as nat,
                ) == Some((cs@ + t, j)),
            sp_units(s@, pos as int, (n - k) as nat) is None ==> sp_units(
                s@,
                i as int,
                n as nat,
            ) is None,
        decreases n - k,
    {
        match parse_unit(s, pos) {
            Some((c, j)) => {
                proof {
                    let ghost rest = (n - k - 1) as nat;
                    assert forall|t: Seq<char>, jj: int|
                        sp_units(s@, j as int, rest) == Some((t, jj)) implies sp_units(
                        s@,
                        i as int,
                        n as nat,
                    ) == Some((cs@.push(c) + t, jj)) by {
                        assert(sp_units(s@, pos as int, (n - k) as nat) == Some(
                            (seq![c] + t, jj),
                        ));
                        assert(cs@ + (seq![c] + t) =~= cs@.push(c) + t);
                    }
                    if sp_units(s@, j as int, rest) is None {
                        assert(sp_units(s@, pos as int, (n - k) as nat) is None);
                    }
                }
                cs.push(c);
                pos = j;
                k = k + 1;
            },
            None => {
                proof {
                    assert(sp_units(s@, pos as int, (n - k) as nat) is None);
                }
                return None;
            },
        }
    }
    proof {
        assert(sp_units(s@, pos as int, 0) == Some((Seq::<char>::empty(), pos as int)));
        assert(cs@ + Seq::<char>::empty() =~= cs@);
    }
    Some((cs, pos))
}

/// Reads a length-prefixed string; agrees with [`sp_str`].
fn parse_str_chars(s: &Vec<char>, i: usize) -> (r: Option<(Vec<char>, usize)>)
    requires
        i <= s.len(),
    ensures
        match r {
            Some((cs, j)) => sp_str(s@, i as int) == Some((cs@, j as int)) && i < j <= s.len(),
            None => sp_str(s@, i as int) is None,
        },
{
    match parse_number(s, i) {
        Some((n, j)) => {
            proof {
                lemma_sp_num_sound(s@, i as int, n, j as int);
            }
            if j < s.len() && s[j] == '_' {
                parse_units(s, j + 1, n)
            } else {
                None
            }
        },
        None => None,
    }
}

/// Reads exactly `m` list items; agrees with [`sp_items`].
fn parse_items(s: &Vec<char>, i: usize, m: u64) -> (r: Option<(Vec<String>, usize)>)
    requires
        i <= s.len(),
    ensures
        match r {
            Some((v, j)) => sp_items(s@, i as int, m as nat) == Some((v.deep_view(), j as int))
                && i <= j <= s.len(),
            None => sp_items(s@, i as int, m as nat) is None,
        },
{
    let mut v: Vec<String> = Vec::new();
    let mut pos: usize = i;
    let mut k: u64 = 0;
    while k < m
        invariant
            i <= pos <= s.len(),
            k <= m,
            forall|t: Seq<Seq<char>>, j: int|
                sp_items(s@, pos as int, (m - k) as nat) == Some((t, j)) ==> sp_items(
                    s@,
                    i as int,
                    m as nat,
                ) == Some((v.deep_view() + t, j)),
            sp_items(s@, pos as int, (m - k) as nat) is None ==> sp_items(
                s@,
                i as int,
                m as nat,
            ) is None,
        decreases m - k,
    {
        if pos < s.len() && s[pos] == ':' {
            match parse_str_chars(s, pos + 1) {
                Some((cs, j)) => {
                    let item = crate::numerals::chars_to_string(&cs);
                    proof {
                        let ghost rest = (m - k - 1) as nat;
                        let ghost dv = v.deep_view();
                        assert forall|t: Seq<Seq<char>>, jj: int|
                            sp_items(s@, j as int, rest) == Some((t, jj)) implies sp_items(
                            s@,
                            i as int,
                            m as nat,
                        ) == Some((dv.push(item@) + t, jj)) by {
                            assert(sp_items(s@, pos as int, (m - k) as nat) == Some(
                                (seq![cs@] + t, jj),
                            ));
                            assert(dv + (seq![cs@] + t) =~= dv.push(item@) + t);
                        }
                        if sp_items(s@, j as int, rest) is None {
                            assert(sp_items(s@, pos as int, (m - k) as nat) is None);
                        }
                    }
                    let ghost old_v = v.deep_view();
                    v.push(item);
                    proof {
                        assert(v.deep_view() =~= old_v.push(v[v.len() - 1]@));
                    }
                    pos = j;
                    k = k + 1;
                },
                None => {
                    proof {
                        assert(sp_items(s@, pos as int, (m - k) as nat) is None);
                    }
                    return None;
                },
            }
        } else {
            proof {
                assert(sp_items(s@, pos as int, (m - k) as nat) is None);
            }
            return None;
        }
    }
    proof {
        assert(sp_items(s@, pos as int, 0) == Some((Seq::<Seq<char>>::empty(), pos as int)));
        assert(v.deep_view() + Seq::<Seq<char>>::empty() =~= v.deep_view());
    }
    Some((v, pos))
}

/// Reads a count-prefixed list; agrees with [`sp_list`].
fn parse_list(s: &Vec<char>, i: usize) -> (r: Option<(Vec<String>, usize)>)
    requires
        i <= s.len(),
    ensures
        match r {
            Some((v, j)) => sp_list(s@, i as int) == Some((v.deep_view(), j as int)) && i < j
                <= s.len(),
            None => sp_list(s@, i as int) is None,
        },
{
    match parse_number(s, i) {
        Some((m, j)) => {
            proof {
                lemma_sp_num_sound(s@, i as int, m, j as int);
            }
            parse_items(s, j, m)
        },
        None => None,
    }
}

/// Parses a whole payload into a claims record; agrees with
/// [`sp_claims`].
pub fn parse_claims(s: &Vec<char>) -> (r: Option<Claims>)
    ensures
        match r {
            Some(c) => sp_claims(s@) == Some(c@),
            None => sp_claims(s@) is None,
        },
{
    let (exp, i1) = match parse_number(s, 0) {
        Some(p) => p,
        None => {
            return None;
        },
    };
    if !(i1 < s.len() && s[i1] == ':') {
        return None;
    }
    let (sub_chars, i2) = match parse_str_chars(s, i1 + 1) {
        Some(p) => p,
        None => {
            return None;
        },
    };
    if !(i2 < s.len() && s[i2] == ':') {
        return None;
    }
    let (roles, i3) = match parse_list(s, i2 + 1) {
        Some(p) => p,
        None => {
            return None;
        },
    };
    if !(i3 < s.len() && s[i3] == ':') {
        return None;
    }
    let (policies, i4) = match parse_list(s, i3 + 1) {
        Some(p) => p,
        None => {
            return None;
        },
    };
    if i4 != s.len() {
        return None;
    }
    let sub = crate::numerals::chars_to_string(&sub_chars);
    let c = Claims { sub, exp, roles, policies };
    proof {
        assert(c@ == ClaimsView {
            sub: sub_chars@,
            exp,
            roles: c.roles.deep_view(),
            policies: c.policies.deep_view(),
        });
    }
    Some(c)
}

proof fn lemma_sp_items_lens(s: Seq<char>, i: int, m: nat)
    requires
        sp_items(s, i, m) is Some,
    ensures
        sp_items(s, i, m).unwrap().0.len() == m,
        forall|k: int|
            0 <= k < m ==> (#[trigger] sp_items(s, i, m).unwrap().0[k]).len() <= u64::MAX,
    decreases m,
{
    if m > 0 {
        let (t, j1) = sp_str(s, i + 1).unwrap();
        lemma_sp_str_len(s, i + 1);
        lemma_sp_items_lens(s, j1, (m - 1) as nat);
        let v = sp_items(s, i, m).unwrap().0;
        let v1 = sp_items(s, j1, (m - 1) as nat).unwrap().0;
        assert(v =~= seq![t] + v1);
        assert forall|k: int| 0 <= k < m implies (#[trigger] v[k]).len() <= u64::MAX by {
            if k > 0 {
                assert(v[k] == v1[k - 1]);
            }
        }
    }
}

} // verus!
