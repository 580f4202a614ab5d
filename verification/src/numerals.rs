//! Canonical decimal numerals over character sequences.
//!
//! The token payload, cookie attributes and status messages all embed
//! unsigned integers in decimal. This module fixes one canonical form
//! (no leading zeros, `"0"` for zero) and proves that rendering and
//! parsing invert each other.

use vstd::prelude::*;

verus! {

use vstd::std_specs::iter::IteratorSpec;

/// The character for a single decimal digit value.
pub open spec fn digit_char(d: nat) -> char {
    if d == 0 {
        '0'
    } else if d == 1 {
        '1'
    } else if d == 2 {
        '2'
    } else if d == 3 {
        '3'
    } else if d == 4 {
        '4'
    } else if d == 5 {
        '5'
    } else if d == 6 {
        '6'
    } else if d == 7 {
        '7'
    } else if d == 8 {
        '8'
    } else {
        '9'
    }
}

pub open spec fn is_digit(c: char) -> bool {
    48 <= c as u32 <= 57
}

pub open spec fn digit_val(c: char) -> nat {
    (c as u32 - 48) as nat
}

/// Canonical decimal numeral of `n`: most significant digit first,
/// no leading zeros.
pub open spec fn dec_digits(n: nat) -> Seq<char>
    decreases n,
{
    if n < 10 {
        seq![digit_char(n)]
    } else {
        dec_digits(n / 10) + seq![digit_char(n % 10)]
    }
}

/// Value of a digit string, most significant digit first.
pub open spec fn val_of_digits(ds: Seq<char>) -> nat
    decreases ds.len(),
{
    if ds.len() == 0 {
        0
    } else {
        val_of_digits(ds.drop_last()) * 10 + digit_val(ds.last())
    }
}

proof fn lemma_digit_char_val(d: nat)
    requires
        d < 10,
    ensures
        is_digit(digit_char(d)),
        digit_val(digit_char(d)) == d,
{
}

proof fn lemma_char_digit_roundtrip(c: char)
    requires
        is_digit(c),
    ensures
        digit_char(digit_val(c)) == c,
{
    let cu = c as u32;
    if cu == 48 {
        assert(c == '0');
    } else if cu == 49 {
        assert(c == '1');
    } else if cu == 50 {
        assert(c == '2');
    } else if cu == 51 {
        assert(c == '3');
    } else if cu == 52 {
        assert(c == '4');
    } else if cu == 53 {
        assert(c == '5');
    } else if cu == 54 {
        assert(c == '6');
    } else if cu == 55 {
        assert(c == '7');
    } else if cu == 56 {
        assert(c == '8');
    } else {
        assert(c == '9');
    }
}

proof fn lemma_val_singleton(c: char)
    ensures
        val_of_digits(seq![c]) == digit_val(c),
{
    reveal_with_fuel(val_of_digits, 2);
    let s = seq![c];
    assert(s.last() == c);
    assert(s.drop_last() =~= Seq::<char>::empty());
}

pub proof fn lemma_dec_digits_canonical(n: nat)
    ensures
        dec_digits(n).len() > 0,
        forall|i: int| 0 <= i < dec_digits(n).len() ==> is_digit(#[trigger] dec_digits(n)[i]),
        val_of_digits(dec_digits(n)) == n,
        n < 10 <==> dec_digits(n).len() == 1,
        n >= 1 ==> digit_val(dec_digits(n)[0]) >= 1,
    decreases n,
{
    if n < 10 {
        lemma_digit_char_val(n);
        lemma_val_singleton(digit_char(n));
        assert(dec_digits(n) =~= seq![digit_char(n)]);
    } else {
        lemma_dec_digits_canonical(n / 10);
        lemma_digit_char_val(n % 10);
        let pre = dec_digits(n / 10);
        let whole = dec_digits(n);
        assert(whole =~= pre + seq![digit_char(n % 10)]);
        assert(whole.drop_last() =~= pre);
        assert(whole.last() == digit_char(n % 10));
        assert(val_of_digits(whole) == val_of_digits(pre) * 10 + n % 10);
        assert(val_of_digits(whole) == (n / 10) * 10 + n % 10);
        assert((n / 10) * 10 + n % 10 == n) by (nonlinear_arith);
        assert(whole[0] == pre[0]);
        assert(forall|i: int| 0 <= i < whole.len() ==> is_digit(#[trigger] whole[i]));
    }
}

/// A digit string with value `v`, nonzero leading digit unless it is a
/// single digit, is exactly the canonical numeral of `v`.
pub proof fn lemma_canonical_digits_unique(ds: Seq<char>)
    requires
        ds.len() > 0,
        forall|i: int| 0 <= i < ds.len() ==> is_digit(#[trigger] ds[i]),
        ds.len() > 1 ==> digit_val(ds[0]) >= 1,
    ensures
        dec_digits(val_of_digits(ds)) =~= ds,
    decreases ds.len(),
{
    if ds.len() == 1 {
        reveal_with_fuel(val_of_digits, 2);
        assert(ds.drop_last() =~= Seq::<char>::empty());
        let d = digit_val(ds[0]);
        assert(ds.last() == ds[0]);
        assert(val_of_digits(ds) == d);
        assert(is_digit(ds[0]));
        assert(d < 10);
        lemma_char_digit_roundtrip(ds[0]);
        assert(dec_digits(d) =~= seq![ds[0]]);
    } else {
        let pre = ds.drop_last();
        assert(pre[0] == ds[0]);
        assert(forall|i: int| 0 <= i < pre.len() ==> is_digit(#[trigger] pre[i]));
        lemma_canonical_digits_unique(pre);
        let v = val_of_digits(ds);
        let pv = val_of_digits(pre);
        assert(v == pv * 10 + digit_val(ds.last()));
        assert(pv >= 1) by {
            lemma_val_lower_bound(pre);
        }
        assert(v >= 10) by (nonlinear_arith)
            requires
                v == pv * 10 + digit_val(ds.last()),
                pv >= 1,
        ;
        assert(is_digit(ds.last()));
        assert(v / 10 == pv && v % 10 == digit_val(ds.last())) by (nonlinear_arith)
            requires
                v == pv * 10 + digit_val(ds.last()),
                digit_val(ds.last()) < 10,
        ;
        assert(dec_digits(v) =~= dec_digits(pv) + seq![digit_char(v % 10)]);
        lemma_char_digit_roundtrip(ds.last());
        assert(dec_digits(v) =~= pre + seq![ds.last()]);
        assert(pre + seq![ds.last()] =~= ds);
    }
}

/// A digit string with a nonzero leading digit has a nonzero value.
proof fn lemma_val_lower_bound(ds: Seq<char>)
    requires
        ds.len() >= 1,
        forall|i: int| 0 <= i < ds.len() ==> is_digit(#[trigger] ds[i]),
        digit_val(ds[0]) >= 1,
    ensures
        val_of_digits(ds) >= 1,
    decreases ds.len(),
{
    if ds.len() == 1 {
        reveal_with_fuel(val_of_digits, 2);
        assert(ds.drop_last() =~= Seq::<char>::empty());
        assert(ds.last() == ds[0]);
    } else {
        let pre = ds.drop_last();
        assert(pre[0] == ds[0]);
        lemma_val_lower_bound(pre);
        assert(val_of_digits(ds) == val_of_digits(pre) * 10 + digit_val(ds.last()));
        assert(val_of_digits(pre) * 10 >= 10) by (nonlinear_arith)
            requires
                val_of_digits(pre) >= 1,
        ;
    }
}

fn digit_to_char(d: u64) -> (c: char)
    requires
        d < 10,
    ensures
        c == digit_char(d as nat),
{
    if d == 0 {
        '0'
    } else if d == 1 {
        '1'
    } else if d == 2 {
        '2'
    } else if d == 3 {
        '3'
    } else if d == 4 {
        '4'
    } else if d == 5 {
        '5'
    } else if d == 6 {
        '6'
    } else if d == 7 {
        '7'
    } else if d == 8 {
        '8'
    } else {
        '9'
    }
}

/// Appends the canonical decimal numeral of `n` to `out`.
pub fn push_decimal(out: &mut Vec<char>, n: u64)
    ensures
        final(out)@ =~= old(out)@ + dec_digits(n as nat),
    decreases n,
{
    if n < 10 {
        out.push(digit_to_char(n));
    } else {
        push_decimal(out, n / 10);
        out.push(digit_to_char(n % 10));
    }
}

/// The canonical numeral of `v` sits at position `i` of `s`, delimited
/// by the end of `s` or a non-digit.
pub open spec fn decimal_at(s: Seq<char>, i: int, v: u64) -> bool {
    let ds = dec_digits(v as nat);
    &&& 0 <= i
    &&& i + ds.len() <= s.len()
    &&& s.subrange(i, i + ds.len()) =~= ds
    &&& (i + ds.len() < s.len() ==> !is_digit(s[i + ds.len()]))
}

/// Reads a canonical decimal numeral starting at `i`, stopping at the
/// first non-digit. Fails on an empty digit run, a redundant leading
/// zero, or a value that does not fit in `u64`.
pub fn parse_decimal(s: &Vec<char>, i: usize) -> (r: Option<(u64, usize)>)
    requires
        i <= s.len(),
    ensures
        r matches Some((v, j)) ==> {
            &&& i < j <= s.len()
            &&& s@.subrange(i as int, j as int) =~= dec_digits(v as nat)
            &&& (j < s.len() ==> !is_digit(s@[j as int]))
        },
        forall|v: u64| decimal_at(s@, i as int, v) ==> r == Some(
            (v, (i + dec_digits(v as nat).len()) as usize),
        ),
{
    if i == s.len() || !is_digit_exec(s[i]) {
        proof {
            assert forall|v: u64| !decimal_at(s@, i as int, v) by {
                if decimal_at(s@, i as int, v) {
                    lemma_dec_digits_canonical(v as nat);
                    assert(s@[i as int] == dec_digits(v as nat)[0]);
                }
            }
        }
        return None;
    }
    if s[i] as u32 == 48 && i + 1 < s.len() && is_digit_exec(s[i + 1]) {
        // a leading zero followed by more digits is never canonical
        proof {
            assert forall|v: u64| !decimal_at(s@, i as int, v) by {
                if decimal_at(s@, i as int, v) {
                    lemma_dec_digits_canonical(v as nat);
                    let ds = dec_digits(v as nat);
                    assert(s@[i as int] == ds[0]);
                    if ds.len() == 1 {
                        assert(!is_digit(s@[i + 1]));
                    } else {
                        assert(digit_val(ds[0]) >= 1);
                    }
                }
            }
        }
        return None;
    }
    let mut j: usize = i;
    let mut acc: u64 = 0;
    while j < s.len() && is_digit_exec(s[j])
        invariant
            i <= j <= s.len(),
            i < s.len(),
            is_digit(s@[i as int]),
            s@[i as int] as u32 == 48 ==> (i + 1 == s.len() || !is_digit(s@[i + 1])),
            forall|k: int| i <= k < j ==> is_digit(#[trigger] s@[k]),
            j > i ==> s@.subrange(i as int, j as int) =~= dec_digits(acc as nat),
            j == i ==> acc == 0,
        decreases s.len() - j,
    {
        let d: u64 = (s[j] as u32 as u64) - 48;
        proof {
            if j > i && j < s.len() && is_digit(s@[j as int]) {
                // the run extends past the first digit, so it cannot have
                // started with a zero
                assert(j == i + 1 ==> s@[i as int] as u32 != 48);
                if s@[i as int] as u32 == 48 {
                    assert(j >= i + 1);
                    assert(is_digit(s@[i + 1]));
                    assert(false);
                }
            }
        }
        let next = match acc.checked_mul(10) {
            Some(m) => m.checked_add(d),
            None => None,
        };
        match next {
            Some(v) => {
                proof {
                    let run = s@.subrange(i as int, j + 1);
                    assert(run.drop_last() =~= s@.subrange(i as int, j as int));
                    assert(run.last() == s@[j as int]);
                    if j == i {
                        lemma_val_singleton(s@[i as int]);
                        assert(run =~= seq![s@[i as int]]);
                        lemma_char_digit_roundtrip(s@[i as int]);
                        assert(dec_digits(v as nat) =~= seq![digit_char(v as nat)]);
                        assert(run =~= dec_digits(v as nat));
                    } else {
                        assert(digit_val(s@[i as int]) >= 1) by {
                            assert(s@[i as int] as u32 != 48);
                        }
                        assert(dec_digits(acc as nat)[0] == s@[i as int]);
                        assert(acc >= 1) by {
                            lemma_dec_digits_canonical(acc as nat);
                            if acc == 0 {
                                assert(dec_digits(0nat) =~= seq![digit_char(0nat)]);
                                assert(digit_val(s@[i as int]) == 0);
                            }
                        }
                        assert(v >= 10) by (nonlinear_arith)
                            requires
                                v == acc * 10 + d,
                                acc >= 1,
                        ;
                        assert(v as nat / 10 == acc as nat && v as nat % 10 == d) by (nonlinear_arith)
                            requires
                                v == acc * 10 + d,
                                d < 10,
                        ;
                        assert(dec_digits(v as nat) =~= dec_digits(acc as nat) + seq![
                            digit_char(d as nat),
                        ]);
                        lemma_char_digit_roundtrip(s@[j as int]);
                        assert(run =~= dec_digits(v as nat));
                    }
                }
                acc = next.unwrap();
                j = j + 1;
            },
            None => {
                proof {
                    assert(acc as nat * 10 + d > u64::MAX);
                    assert(acc >= 1) by (nonlinear_arith)
                        requires
                            acc as nat * 10 + d > u64::MAX,
                            d < 10,
                    ;
                    assert(j > i) by {
                        if j == i {
                            assert(acc == 0);
                        }
                    }
                    lemma_no_fit(s@, i as int, j as int, acc, digit_val(s@[j as int]));
                }
                return None;
            },
        }
    }
    proof {
        assert forall|v: u64| decimal_at(s@, i as int, v) implies Some((acc, j)) == Some(
            (v, (i + dec_digits(v as nat).len()) as usize),
        ) by {
            lemma_decimal_at_unique(s@, i as int, v, acc, j as int);
        }
    }
    Some((acc, j))
}

proof fn lemma_decimal_at_unique(s: Seq<char>, i: int, v: u64, acc: u64, j: int)
    requires
        decimal_at(s, i, v),
        i < j <= s.len(),
        s.subrange(i, j) =~= dec_digits(acc as nat),
        j < s.len() ==> !is_digit(s[j]),
        forall|k: int| i <= k < j ==> is_digit(#[trigger] s[k]),
    ensures
        acc == v,
        j == i + dec_digits(v as nat).len(),
{
    let dv = dec_digits(v as nat);
    let da = dec_digits(acc as nat);
    lemma_dec_digits_canonical(v as nat);
    lemma_dec_digits_canonical(acc as nat);
    // both runs are maximal digit runs starting at i, so they end at the
    // same index
    if i + dv.len() < j {
        assert(is_digit(s[i + dv.len()]));
        assert(false);
    }
    if j < i + dv.len() {
        assert(is_digit(dv[j - i]));
        assert(s[j] == s.subrange(i, i + dv.len())[j - i]);
        assert(false);
    }
    assert(j == i + dv.len());
    assert(da =~= dv);
    assert(val_of_digits(da) == val_of_digits(dv));
}

/// If the digits already read cannot be extended within `u64`, no `u64`
/// numeral can sit at this position.
proof fn lemma_no_fit(s: Seq<char>, i: int, j: int, acc: u64, d: nat)
    requires
        0 <= i < j < s.len(),
        is_digit(s[j]),
        d == digit_val(s[j]),
        forall|k: int| i <= k < j ==> is_digit(#[trigger] s[k]),
        s.subrange(i, j) =~= dec_digits(acc as nat),
        acc as nat * 10 + d > u64::MAX,
    ensures
        forall|v: u64| !decimal_at(s, i, v),
{
    assert forall|v: u64| !decimal_at(s, i, v) by {
        if decimal_at(s, i, v) {
            let dv = dec_digits(v as nat);
            lemma_dec_digits_canonical(v as nat);
            lemma_dec_digits_canonical(acc as nat);
            // the numeral of v is a maximal digit run from i, and the run
            // continues through j, so it covers at least j+1 characters
            if i + dv.len() <= j {
                assert(is_digit(s[i + dv.len()]));
                assert(false);
            }
            // so the digits up to and including j form a prefix of dv
            let pre = s.subrange(i, j + 1);
            assert(pre =~= dv.subrange(0, j + 1 - i)) by {
                assert(s.subrange(i, i + dv.len()) =~= dv);
                assert forall|k: int| 0 <= k < j + 1 - i implies pre[k] == dv[k] by {
                    assert(dv[k] == s.subrange(i, i + dv.len())[k]);
                }
            }
            lemma_prefix_value(dv, j + 1 - i);
            assert(val_of_digits(pre) <= v as nat);
            assert(pre.drop_last() =~= s.subrange(i, j));
            assert(pre.last() == s[j]);
            assert(val_of_digits(pre) == acc as nat * 10 + d);
            assert(false);
        }
    }
}

/// The value of a prefix of a digit string is at most the whole value.
proof fn lemma_prefix_value(ds: Seq<char>, k: int)
    requires
        0 <= k <= ds.len(),
        forall|i: int| 0 <= i < ds.len() ==> is_digit(#[trigger] ds[i]),
    ensures
        val_of_digits(ds.subrange(0, k)) <= val_of_digits(ds),
    decreases ds.len() - k,
{
    if k == ds.len() {
        assert(ds.subrange(0, k) =~= ds);
    } else {
        lemma_prefix_value(ds, k + 1);
        let longer = ds.subrange(0, k + 1);
        assert(longer.drop_last() =~= ds.subrange(0, k));
        assert(val_of_digits(longer) == val_of_digits(ds.subrange(0, k)) * 10 + digit_val(
            longer.last(),
        ));
        assert(val_of_digits(ds.subrange(0, k)) <= val_of_digits(ds.subrange(0, k)) * 10)
            by (nonlinear_arith);
    }
}

pub fn is_digit_exec(c: char) -> (r: bool)
    ensures
        r == is_digit(c),
{
    48 <= c as u32 && c as u32 <= 57
}

/// Renders `n` as its canonical decimal string.
pub fn u64_to_string(n: u64) -> (s: String)
    ensures
        s@ =~= dec_digits(n as nat),
{
    let mut chars: Vec<char> = Vec::new();
    push_decimal(&mut chars, n);
    chars_to_string(&chars)
}

/// Builds a `String` from a character vector.
pub fn chars_to_string(chars: &Vec<char>) -> (s: String)
    ensures
        s@ =~= chars@,
{
    let mut s = String::new();
    let mut k: usize = 0;
    while k < chars.len()
        invariant
            k <= chars.len(),
            s@ =~= chars@.subrange(0, k as int),
        decreases chars.len() - k,
    {
        push_char(&mut s, chars[k]);
        proof {
            assert(chars@.subrange(0, k + 1) =~= chars@.subrange(0, k as int) + seq![
                chars@[k as int],
            ]);
        }
        k = k + 1;
    }
    proof {
        assert(chars@.subrange(0, chars@.len() as int) =~= chars@);
    }
    s
}

/// Relies on `String::push`: appends one character to the string.
#[verifier::external_body]
pub fn push_char(s: &mut String, c: char)
    ensures
        final(s)@ == old(s)@.push(c),
{
    s.push(c);
}

/// Collects the characters of a string slice.
pub fn str_to_chars(s: &str) -> (v: Vec<char>)
    ensures
        v@ =~= s@,
{
    broadcast use vstd::string::next_postcondition, vstd::string::axiom_spec_iter;

    let mut it = s.chars();
    let mut v: Vec<char> = Vec::new();
    let ghost all = it.remaining();
    loop
        invariant
            it.obeys_prophetic_iter_laws(),
            it.decrease() is Some,
            v@ + it.remaining() =~= all,
            all =~= s@,
        ensures
            v@ =~= s@,
        decreases it.decrease()->0,
    {
        match it.next() {
            Some(c) => {
                v.push(c);
            },
            None => {
                proof {
                    assert(it.remaining().len() == 0);
                    assert(v@ + it.remaining() =~= v@);
                }
                break;
            },
        }
    }
    v
}

} // verus!
