//! Reading exact rationals from text: `n/d` (or `n//d`) with optional sign
//! and spaces, or an integer or decimal such as `-3`, `1.5` or `.25`.

use vstd::prelude::*;
use crate::error::Error;
use crate::rational::{fits, lowest_terms, Ratio};
use crate::text::{
    all_digits, chars_of, digits_to_i64, digits_value, lemma_run_bounds, run, run_end, CharClass,
};

verus! {

pub open spec fn pow10(k: nat) -> int
    decreases k,
{
    if k == 0 {
        1
    } else {
        10 * pow10((k - 1) as nat)
    }
}

/// `s` as a fraction: spaces, an optional sign, spaces, digits, spaces, one
/// or two slashes, spaces, digits, spaces. Gives whether it is negative and
/// the two runs of digits.
pub open spec fn fraction_form(s: Seq<char>) -> Option<(bool, Seq<char>, Seq<char>)> {
    let a = run(s, 0, CharClass::Space);
    let signed = a < s.len() && (s[a] == '-' || s[a] == '+');
    let b = if signed {
        a + 1
    } else {
        a
    };
    let c = run(s, b, CharClass::Space);
    let e = run(s, c, CharClass::Digit);
    let f = run(s, e, CharClass::Space);
    let g = run(s, f, CharClass::Slash);
    let h = run(s, g, CharClass::Space);
    let k = run(s, h, CharClass::Digit);
    if e > c && (g == f + 1 || g == f + 2) && k > h && run(s, k, CharClass::Space) == s.len() {
        Some((signed && s[a] == '-', s.subrange(c, e), s.subrange(h, k)))
    } else {
        None
    }
}

/// `s` as a decimal: an optional sign, digits, and optionally a point and
/// more digits, with at least one digit in all. Gives whether it is negative
/// and the digits before and after the point.
pub open spec fn decimal_form(s: Seq<char>) -> Option<(bool, Seq<char>, Seq<char>)> {
    let signed = s.len() > 0 && (s[0] == '-' || s[0] == '+');
    let b: int = if signed {
        1
    } else {
        0
    };
    let e = run(s, b, CharClass::Digit);
    let neg = signed && s[0] == '-';
    if e == s.len() && e > b {
        Some((neg, s.subrange(b, e), Seq::empty()))
    } else if e < s.len() && s[e] == '.' && run(s, e + 1, CharClass::Digit) == s.len() && (e > b
        || s.len() > e + 1) {
        Some((neg, s.subrange(b, e), s.subrange(e + 1, s.len() as int)))
    } else {
        None
    }
}

pub open spec fn signed_value(neg: bool, v: int) -> int {
    if neg {
        -v
    } else {
        v
    }
}

/// The fraction that `s` writes, before reduction: a fraction's parts must
/// each fit in an `i64` and its denominator must not be zero; a decimal's
/// digits, read without the point, must fit in an `i64`, with at most 18 of
/// them after the point.
pub open spec fn rational_text_value(s: Seq<char>) -> Option<(int, int)> {
    match fraction_form(s) {
        Some((neg, n, d)) => if digits_value(n) <= i64::MAX && digits_value(d) <= i64::MAX
            && digits_value(d) != 0 {
            Some((signed_value(neg, digits_value(n)), digits_value(d)))
        } else {
            None
        },
        None => match decimal_form(s) {
            Some((neg, ip, fp)) => if digits_value(ip + fp) <= i64::MAX && fp.len() <= 18 {
                Some((signed_value(neg, digits_value(ip + fp)), pow10(fp.len())))
            } else {
                None
            },
            None => None,
        },
    }
}

/// The rational that `s` writes, in lowest terms, where it writes one.
pub open spec fn text_rational(s: Seq<char>) -> (int, int) {
    let v = rational_text_value(s)->Some_0;
    lowest_terms(v.0, v.1)
}

proof fn lemma_pow10_monotone(i: nat, j: nat)
    requires
        i <= j,
    ensures
        1 <= pow10(i) <= pow10(j),
    decreases j,
{
    if j > i {
        lemma_pow10_monotone(i, (j - 1) as nat);
    } else if i > 0 {
        lemma_pow10_monotone((i - 1) as nat, (i - 1) as nat);
    }
}

/// `10^k`, for `k` up to 18.
fn power_of_ten(k: usize) -> (r: i64)
    requires
        k <= 18,
    ensures
        r == pow10(k as nat),
{
    proof {
        reveal_with_fuel(pow10, 19);
        assert(pow10(17) == 100000000000000000);
    }
    let mut p: i64 = 1;
    let mut i: usize = 0;
    while i < k
        invariant
            pow10(17) == 100000000000000000,
            i <= k <= 18,
            p == pow10(i as nat),
        decreases k - i,
    {
        proof {
            lemma_pow10_monotone(i as nat, 17);
            assert(p <= 100000000000000000);
        }
        p = p * 10;
        i = i + 1;
    }
    p
}

/// The rational that `cs` writes as a fraction, if it has the fraction's form.
fn read_fraction(cs: &Vec<char>) -> (r: Option<Option<Ratio>>)
    ensures
        r is None <==> fraction_form(cs@) is None,
        r matches Some(x) ==> (x is Some <==> rational_text_value(cs@) is Some && fits(
            text_rational(cs@),
        )),
        r matches Some(x) ==> (x matches Some(q) ==> q@ == text_rational(cs@)),
{
    let n = cs.len();
    proof {
        lemma_run_bounds(cs@, 0, CharClass::Space);
    }
    let a = run_end(cs, 0, CharClass::Space);
    let signed = a < n && (cs[a] == '-' || cs[a] == '+');
    let b = if signed {
        a + 1
    } else {
        a
    };
    let c = run_end(cs, b, CharClass::Space);
    let e = run_end(cs, c, CharClass::Digit);
    let f = run_end(cs, e, CharClass::Space);
    let g = run_end(cs, f, CharClass::Slash);
    let h = run_end(cs, g, CharClass::Space);
    let k = run_end(cs, h, CharClass::Digit);
    let m = run_end(cs, k, CharClass::Space);
    if !(e > c && g > f && g - f <= 2 && k > h && m == n) {
        return None;
    }
    proof {
        lemma_run_bounds(cs@, c as int, CharClass::Digit);
        lemma_run_bounds(cs@, h as int, CharClass::Digit);
    }
    let numer = match digits_to_i64(cs, c, e) {
        Some(v) => v,
        None => return Some(None),
    };
    let denom = match digits_to_i64(cs, h, k) {
        Some(v) => v,
        None => return Some(None),
    };
    if denom == 0 {
        return Some(None);
    }
    let numer = if signed && cs[a] == '-' {
        -numer
    } else {
        numer
    };
    Some(Ratio::new(numer, denom))
}

/// The rational that `cs` writes as a decimal, where it is no fraction.
fn read_decimal(cs: &Vec<char>) -> (r: Option<Ratio>)
    requires
        fraction_form(cs@) is None,
    ensures
        r is Some <==> rational_text_value(cs@) is Some && fits(text_rational(cs@)),
        r matches Some(q) ==> q@ == text_rational(cs@),
{
    let n = cs.len();
    let sign_first = n > 0 && (cs[0] == '-' || cs[0] == '+');
    let b2: usize = if sign_first {
        1
    } else {
        0
    };
    let neg = sign_first && cs[0] == '-';
    let e2 = run_end(cs, b2, CharClass::Digit);
    proof {
        lemma_run_bounds(cs@, b2 as int, CharClass::Digit);
    }
    let mut digits: Vec<char> = Vec::new();
    let mut i: usize = b2;
    while i < e2
        invariant
            b2 <= i <= e2 <= n,
            n == cs@.len(),
            digits@ == cs@.subrange(b2 as int, i as int),
        decreases e2 - i,
    {
        digits.push(cs[i]);
        assert(cs@.subrange(b2 as int, i + 1) == cs@.subrange(b2 as int, i as int).push(cs@[i as int]));
        i = i + 1;
    }
    let places: usize;
    if e2 == n && e2 > b2 {
        places = 0;
        assert(cs@.subrange(b2 as int, e2 as int) + Seq::<char>::empty() == digits@);
    } else if e2 < n && cs[e2] == '.' {
        let k2 = run_end(cs, e2 + 1, CharClass::Digit);
        if !(k2 == n && (e2 > b2 || n > e2 + 1)) {
            return None;
        }
        proof {
            lemma_run_bounds(cs@, e2 + 1, CharClass::Digit);
        }
        let mut j: usize = e2 + 1;
        while j < n
            invariant
                b2 <= e2,
                e2 + 1 <= j <= n,
                n == cs@.len(),
                digits@ == cs@.subrange(b2 as int, e2 as int) + cs@.subrange(e2 + 1, j as int),
            decreases n - j,
        {
            digits.push(cs[j]);
            assert(cs@.subrange(e2 + 1, j + 1) == cs@.subrange(e2 + 1, j as int).push(cs@[j as int]));
            j = j + 1;
        }
        places = n - e2 - 1;
    } else {
        return None;
    }
    if places > 18 {
        return None;
    }
    assert(all_digits(digits@));
    assert(digits@.subrange(0, digits@.len() as int) == digits@);
    let value = match digits_to_i64(&digits, 0, digits.len()) {
        Some(v) => v,
        None => return None,
    };
    let numer = if neg {
        -value
    } else {
        value
    };
    let denom = power_of_ten(places);
    proof {
        lemma_pow10_monotone(0, places as nat);
    }
    Ratio::new(numer, denom)
}

/// The rational that `s` writes, in lowest terms; `None` where `s` writes
/// none or it does not fit.
pub fn tryreadrational(s: &str) -> (r: Option<Ratio>)
    ensures
        r is Some <==> rational_text_value(s@) is Some && fits(text_rational(s@)),
        r matches Some(x) ==> x@ == text_rational(s@),
{
    let cs = chars_of(s);
    match read_fraction(&cs) {
        Some(x) => x,
        None => read_decimal(&cs),
    }
}

/// The rational that `s` writes; fails where `s` writes none or it does not fit.
pub fn readrational(s: &str) -> (r: Result<Ratio, Error>)
    ensures
        r is Ok <==> rational_text_value(s@) is Some && fits(text_rational(s@)),
        r matches Ok(x) ==> x@ == text_rational(s@),
        r matches Err(e) ==> (e matches Error::MalformedQuantity(t) && t@ == s@),
{
    match tryreadrational(s) {
        Some(x) => Ok(x),
        None => Err(Error::MalformedQuantity(s.to_owned())),
    }
}

} // verus!
