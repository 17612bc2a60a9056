//! Exact rationals with `i64` numerator and denominator, always kept in lowest
//! terms with a positive denominator.

use vstd::arithmetic::div_mod::{lemma_fundamental_div_mod, lemma_fundamental_div_mod_converse};
use vstd::prelude::*;

verus! {

/// Greatest common divisor, by Euclid's algorithm.
pub open spec fn gcd(a: nat, b: nat) -> nat
    decreases b,
{
    if b == 0 {
        a
    } else {
        gcd(b, a % b)
    }
}

pub open spec fn abs(x: int) -> nat {
    if x < 0 {
        (-x) as nat
    } else {
        x as nat
    }
}

/// The fraction `n / d` divided through by the gcd of its parts, with the
/// sign carried by the numerator.
pub open spec fn lowest_terms(n: int, d: int) -> (int, int) {
    let g = gcd(abs(n), abs(d)) as int;
    if d < 0 {
        (-(n / g), -(d / g))
    } else {
        (n / g, d / g)
    }
}

/// Numerator and denominator have no common factor but 1.
pub open spec fn in_lowest_terms(q: (int, int)) -> bool {
    gcd(abs(q.0), abs(q.1)) == 1
}

/// A fraction that a `Ratio` can hold.
pub open spec fn fits(q: (int, int)) -> bool {
    &&& -i64::MAX <= q.0 <= i64::MAX
    &&& 1 <= q.1 <= i64::MAX
}

pub open spec fn q_zero() -> (int, int) {
    (0, 1)
}

pub open spec fn q_int(n: int) -> (int, int) {
    (n, 1)
}

pub open spec fn q_neg(a: (int, int)) -> (int, int) {
    (-a.0, a.1)
}

/// Sum of two fractions; adding zero leaves the other one as it is.
pub open spec fn q_add(a: (int, int), b: (int, int)) -> (int, int) {
    if a.0 == 0 {
        b
    } else if b.0 == 0 {
        a
    } else {
        lowest_terms(a.0 * b.1 + b.0 * a.1, a.1 * b.1)
    }
}

pub open spec fn q_sub(a: (int, int), b: (int, int)) -> (int, int) {
    q_add(a, q_neg(b))
}

pub open spec fn q_mul(a: (int, int), b: (int, int)) -> (int, int) {
    lowest_terms(a.0 * b.0, a.1 * b.1)
}

/// Quotient of two fractions; meaningful where `b` is not zero.
pub open spec fn q_div(a: (int, int), b: (int, int)) -> (int, int) {
    lowest_terms(a.0 * b.1, a.1 * b.0)
}

pub open spec fn q_is_positive(a: (int, int)) -> bool {
    a.0 > 0
}

pub open spec fn q_is_negative(a: (int, int)) -> bool {
    a.0 < 0
}

/// Relies on num's `Ratio::<i128>::new`, which divides numerator and
/// denominator by their gcd and then makes the denominator positive.
#[verifier::external_body]
fn reduce(n: i128, d: i128) -> (r: (i128, i128))
    requires
        d != 0,
        n > i128::MIN,
        d > i128::MIN,
    ensures
        r.0 == lowest_terms(n as int, d as int).0,
        r.1 == lowest_terms(n as int, d as int).1,
{
    num::rational::Ratio::<i128>::new(n, d).into_raw()
}

proof fn lemma_gcd_zero(m: nat)
    requires
        m > 0,
    ensures
        gcd(0, m) == m,
{
    assert(0nat % m == 0) by (nonlinear_arith)
        requires
            m > 0,
    ;
    reveal_with_fuel(gcd, 2);
}

/// A zero numerator always comes out as `0/1`.
pub proof fn lemma_lowest_terms_zero(d: int)
    requires
        d != 0,
    ensures
        lowest_terms(0, d) == q_zero(),
{
    lemma_gcd_zero(abs(d));
    let g = abs(d) as int;
    assert(0int / g == 0) by (nonlinear_arith)
        requires
            g > 0,
    ;
    assert(d / g == if d < 0 { -1int } else { 1int }) by (nonlinear_arith)
        requires
            g > 0,
            g == if d < 0 { -d } else { d },
    ;
}

/// The gcd of a positive `b` with anything lies between 1 and `b`, and
/// below `a` where `a` is positive too.
pub proof fn lemma_gcd_bounds(a: nat, b: nat)
    requires
        b > 0,
    ensures
        0 < gcd(a, b) <= b,
        a > 0 ==> gcd(a, b) <= a,
    decreases b,
{
    reveal_with_fuel(gcd, 2);
    assert(a % b < b && a % b <= a && (a > 0 && a % b == 0 ==> b <= a)) by (nonlinear_arith)
        requires
            b > 0,
    ;
    if a % b != 0 {
        lemma_gcd_bounds(b, a % b);
    }
}

/// The gcd divides both of its arguments.
pub proof fn lemma_gcd_divides(a: nat, b: nat)
    requires
        a > 0 || b > 0,
    ensures
        gcd(a, b) > 0,
        a % gcd(a, b) == 0,
        b % gcd(a, b) == 0,
    decreases b,
{
    if b == 0 {
        lemma_fundamental_div_mod_converse(a as int, a as int, 1, 0);
        lemma_fundamental_div_mod_converse(0, a as int, 0, 0);
    } else {
        let r = a % b;
        lemma_gcd_divides(b, r);
        let g = gcd(b, r) as int;
        assert(gcd(a, b) == g);
        lemma_fundamental_div_mod(b as int, g);
        lemma_fundamental_div_mod(r as int, g);
        lemma_fundamental_div_mod(a as int, b as int);
        let bb = b as int / g;
        let rr = r as int / g;
        let q = a as int / b as int;
        assert(a as int == (bb * q + rr) * g) by (nonlinear_arith)
            requires
                b as int == g * bb,
                r as int == g * rr,
                a as int == b as int * q + r as int,
        ;
        lemma_fundamental_div_mod_converse(a as int, g, bb * q + rr, 0);
    }
}

/// Scaling both arguments scales the gcd.
pub proof fn lemma_gcd_scale(k: nat, a: nat, b: nat)
    requires
        k > 0,
    ensures
        gcd(k * a, k * b) == k * gcd(a, b),
    decreases b,
{
    if b == 0 {
        assert(k * b == 0);
    } else {
        lemma_fundamental_div_mod(a as int, b as int);
        let q = a as int / b as int;
        let r = a as int % b as int;
        assert(k * a == q * (k * b) + k * r && 0 <= k * r < k * b) by (nonlinear_arith)
            requires
                a as int == b * q + r,
                0 <= r < b,
                k > 0,
        ;
        lemma_fundamental_div_mod_converse((k * a) as int, (k * b) as int, q, k * r);
        assert(k * b > 0) by (nonlinear_arith)
            requires
                k > 0,
                b > 0,
        ;
        lemma_gcd_scale(k, b, (a % b) as nat);
        assert(gcd(k * a, k * b) == gcd(k * b, (k * a) % (k * b)));
    }
}

/// The gcd does not depend on the order of its arguments.
pub proof fn lemma_gcd_symmetric(a: nat, b: nat)
    ensures
        gcd(a, b) == gcd(b, a),
{
    reveal_with_fuel(gcd, 2);
    if a > 0 && b > 0 && a != b {
        assert(a < b ==> a % b == a) by (nonlinear_arith);
        assert(b < a ==> b % a == b) by (nonlinear_arith);
    } else if a == 0 && b > 0 {
        assert(0nat % b == 0) by (nonlinear_arith)
            requires
                b > 0,
        ;
    } else if b == 0 && a > 0 {
        assert(0nat % a == 0) by (nonlinear_arith)
            requires
                a > 0,
        ;
    }
}

proof fn lemma_gcd_with_one(a: nat)
    ensures
        gcd(a, 1) == 1,
{
    reveal_with_fuel(gcd, 3);
    assert(a % 1 == 0) by (nonlinear_arith);
}

/// Lowest terms leave no common factor but 1.
pub proof fn lemma_lowest_terms_reduced(n: int, d: int)
    requires
        d != 0,
    ensures
        in_lowest_terms(lowest_terms(n, d)),
{
    let a = abs(n);
    let b = abs(d);
    lemma_gcd_divides(a, b);
    let g = gcd(a, b) as int;
    lemma_fundamental_div_mod(a as int, g);
    lemma_fundamental_div_mod(b as int, g);
    let x = a as int / g;
    let y = b as int / g;
    assert(x >= 0 && y >= 0) by (nonlinear_arith)
        requires
            g > 0,
            a >= 0,
            b >= 0,
            x == a as int / g,
            y == b as int / g,
    ;
    lemma_gcd_scale(g as nat, x as nat, y as nat);
    assert(g * x == a && g * y == b);
    assert(gcd(x as nat, y as nat) == 1) by (nonlinear_arith)
        requires
            g > 0,
            g == g * gcd(x as nat, y as nat),
    ;
    if n < 0 {
        assert(n == (-x) * g + 0) by (nonlinear_arith)
            requires
                n == -(a as int),
                g * x == a,
        ;
        lemma_fundamental_div_mod_converse(n, g, -x, 0);
    } else {
        assert(n == x * g + 0) by (nonlinear_arith)
            requires
                n == a as int,
                g * x == a,
        ;
        lemma_fundamental_div_mod_converse(n, g, x, 0);
    }
    if d < 0 {
        assert(d == (-y) * g + 0) by (nonlinear_arith)
            requires
                d == -(b as int),
                g * y == b,
        ;
        lemma_fundamental_div_mod_converse(d, g, -y, 0);
    } else {
        assert(d == y * g + 0) by (nonlinear_arith)
            requires
                d == b as int,
                g * y == b,
        ;
        lemma_fundamental_div_mod_converse(d, g, y, 0);
    }
    let q = lowest_terms(n, d);
    assert(abs(q.0) == x && abs(q.1) == y);
}

/// Taking the reciprocal of a nonzero fraction in lowest terms twice gives
/// it back, and the first reciprocal swaps numerator and denominator.
pub proof fn lemma_reciprocal_round_trip(q: (int, int))
    requires
        q.0 != 0,
        q.1 > 0,
        in_lowest_terms(q),
    ensures
        q_div(q_int(1), q) == (if q.0 < 0 {
            (-q.1, -q.0)
        } else {
            (q.1, q.0)
        }),
        q_div(q_int(1), q_div(q_int(1), q)) == q,
{
    lemma_gcd_symmetric(abs(q.0), abs(q.1));
    assert(1 * q.1 == q.1 && 1 * q.0 == q.0);
    assert(q.1 / 1 == q.1 && q.0 / 1 == q.0);
    let r = q_div(q_int(1), q);
    assert(1 * r.1 == r.1 && 1 * r.0 == r.0);
    assert(r.1 / 1 == r.1 && r.0 / 1 == r.0);
}

/// Lowest terms keep a nonzero denominator positive.
pub proof fn lemma_lowest_terms_denominator(n: int, d: int)
    requires
        d != 0,
    ensures
        lowest_terms(n, d).1 >= 1,
{
    lemma_gcd_bounds(abs(n), abs(d));
    let g = gcd(abs(n), abs(d)) as int;
    if d > 0 {
        assert(d / g >= 1) by (nonlinear_arith)
            requires
                0 < g <= d,
        ;
    } else {
        assert(-(d / g) >= 1) by (nonlinear_arith)
            requires
                0 < g <= -d,
        ;
    }
}

/// Lowest terms with a positive denominator keep the numerator's sign.
pub proof fn lemma_lowest_terms_sign(n: int, d: int)
    requires
        d > 0,
    ensures
        lowest_terms(n, d).0 > 0 <==> n > 0,
{
    if n > 0 {
        lemma_lowest_terms_positive(n, d);
    } else {
        lemma_gcd_bounds(abs(n), d as nat);
        let g = gcd(abs(n), abs(d)) as int;
        assert(n / g <= 0) by (nonlinear_arith)
            requires
                g > 0,
                n <= 0,
        ;
    }
}

/// A fraction of two positive numbers stays positive in lowest terms.
pub proof fn lemma_lowest_terms_positive(n: int, d: int)
    requires
        n > 0,
        d > 0,
    ensures
        lowest_terms(n, d).0 > 0,
        lowest_terms(n, d).1 > 0,
{
    lemma_gcd_bounds(n as nat, d as nat);
    let g = gcd(n as nat, d as nat) as int;
    assert(n / g >= 1 && d / g >= 1) by (nonlinear_arith)
        requires
            0 < g <= n,
            g <= d,
    ;
}

/// The product of two positive ratios is positive.
pub proof fn lemma_mul_positive(a: (int, int), b: (int, int))
    requires
        a.0 > 0,
        b.0 > 0,
        a.1 > 0,
        b.1 > 0,
    ensures
        q_is_positive(q_mul(a, b)),
{
    assert(a.0 * b.0 > 0 && a.1 * b.1 > 0) by (nonlinear_arith)
        requires
            a.0 > 0,
            b.0 > 0,
            a.1 > 0,
            b.1 > 0,
    ;
    lemma_lowest_terms_positive(a.0 * b.0, a.1 * b.1);
}

/// The quotient of two positive ratios is positive.
pub proof fn lemma_div_positive(a: (int, int), b: (int, int))
    requires
        a.0 > 0,
        b.0 > 0,
        a.1 > 0,
        b.1 > 0,
    ensures
        q_is_positive(q_div(a, b)),
{
    assert(a.0 * b.1 > 0 && a.1 * b.0 > 0) by (nonlinear_arith)
        requires
            a.0 > 0,
            b.0 > 0,
            a.1 > 0,
            b.1 > 0,
    ;
    lemma_lowest_terms_positive(a.0 * b.1, a.1 * b.0);
}

/// An exact rational number.
#[derive(Clone, Copy, Debug, PartialEq, Eq, Structural, Hash)]
pub struct Ratio {
    numer: i64,
    denom: i64,
}

impl View for Ratio {
    type V = (int, int);

    closed spec fn view(&self) -> (int, int) {
        (self.numer as int, self.denom as int)
    }
}

impl Ratio {
    #[verifier::type_invariant]
    closed spec fn inv(self) -> bool {
        fits(self@) && in_lowest_terms(self@)
    }

    /// Builds a ratio from a reduced pair, if it fits.
    fn from_reduced(n: i128, d: i128, Ghost(q): Ghost<(int, int)>) -> (r: Option<Ratio>)
        requires
            q == (n as int, d as int),
            in_lowest_terms(q),
        ensures
            r is Some <==> fits(q),
            r matches Some(x) ==> x@ == q,
    {
        if -(i64::MAX as i128) <= n && n <= i64::MAX as i128 && 1 <= d && d <= i64::MAX as i128 {
            Some(Ratio { numer: n as i64, denom: d as i64 })
        } else {
            None
        }
    }

    /// `numer / denom` in lowest terms; `None` where that does not fit.
    pub fn new(numer: i64, denom: i64) -> (r: Option<Ratio>)
        requires
            denom != 0,
        ensures
            r is Some <==> fits(lowest_terms(numer as int, denom as int)),
            r matches Some(x) ==> x@ == lowest_terms(numer as int, denom as int),
    {
        let (n, d) = reduce(numer as i128, denom as i128);
        proof {
            lemma_lowest_terms_reduced(numer as int, denom as int);
        }
        Ratio::from_reduced(n, d, Ghost(lowest_terms(numer as int, denom as int)))
    }

    /// The integer `n`, which must not be `i64::MIN`.
    pub fn from_integer(n: i64) -> (r: Ratio)
        requires
            n > i64::MIN,
        ensures
            r@ == q_int(n as int),
    {
        proof {
            lemma_gcd_with_one(abs(n as int));
        }
        Ratio { numer: n, denom: 1 }
    }

    pub fn zero() -> (r: Ratio)
        ensures
            r@ == q_zero(),
    {
        proof {
            lemma_gcd_with_one(0);
        }
        Ratio { numer: 0, denom: 1 }
    }

    pub fn one() -> (r: Ratio)
        ensures
            r@ == q_int(1),
    {
        proof {
            lemma_gcd_with_one(1);
        }
        Ratio { numer: 1, denom: 1 }
    }

    pub fn numer(&self) -> (r: i64)
        ensures
            r == self@.0,
    {
        self.numer
    }

    pub fn denom(&self) -> (r: i64)
        ensures
            r == self@.1,
    {
        self.denom
    }

    /// The bounds that every ratio keeps.
    pub fn check_valid(&self)
        ensures
            fits(self@),
            in_lowest_terms(self@),
    {
        proof {
            use_type_invariant(self);
        }
    }

    /// Whether the two ratios are equal.
    pub fn equals(&self, other: &Ratio) -> (r: bool)
        ensures
            r == (self@ == other@),
    {
        self.numer == other.numer && self.denom == other.denom
    }

    pub fn is_zero(&self) -> (r: bool)
        ensures
            r == (self@.0 == 0),
    {
        self.numer == 0
    }

    pub fn is_positive(&self) -> (r: bool)
        ensures
            r == q_is_positive(self@),
    {
        self.numer > 0
    }

    pub fn is_negative(&self) -> (r: bool)
        ensures
            r == q_is_negative(self@),
    {
        self.numer < 0
    }

    pub fn is_integer(&self) -> (r: bool)
        ensures
            r == (self@.1 == 1),
    {
        self.denom == 1
    }

    pub fn neg(&self) -> (r: Ratio)
        ensures
            r@ == q_neg(self@),
    {
        proof {
            use_type_invariant(self);
        }
        Ratio { numer: -self.numer, denom: self.denom }
    }

    /// `self + other`; `None` where the sum does not fit.
    pub fn checked_add(&self, other: &Ratio) -> (r: Option<Ratio>)
        ensures
            r is Some <==> fits(q_add(self@, other@)),
            r matches Some(x) ==> x@ == q_add(self@, other@),
    {
        proof {
            use_type_invariant(self);
            use_type_invariant(other);
        }
        if self.numer == 0 {
            return Some(*other);
        }
        if other.numer == 0 {
            return Some(*self);
        }
        let a = self.numer as i128;
        let b = self.denom as i128;
        let c = other.numer as i128;
        let d = other.denom as i128;
        assert(-0x3fff_ffff_ffff_ffff_0000_0000_0000_0001 <= a * d <= 0x3fff_ffff_ffff_ffff_0000_0000_0000_0001)
            by (nonlinear_arith)
            requires
                -0x7fff_ffff_ffff_ffff <= a <= 0x7fff_ffff_ffff_ffff,
                1 <= d <= 0x7fff_ffff_ffff_ffff,
        ;
        assert(-0x3fff_ffff_ffff_ffff_0000_0000_0000_0001 <= c * b <= 0x3fff_ffff_ffff_ffff_0000_0000_0000_0001)
            by (nonlinear_arith)
            requires
                -0x7fff_ffff_ffff_ffff <= c <= 0x7fff_ffff_ffff_ffff,
                1 <= b <= 0x7fff_ffff_ffff_ffff,
        ;
        assert(1 <= b * d <= 0x3fff_ffff_ffff_ffff_0000_0000_0000_0001) by (nonlinear_arith)
            requires
                1 <= b <= 0x7fff_ffff_ffff_ffff,
                1 <= d <= 0x7fff_ffff_ffff_ffff,
        ;
        let n = a * d + c * b;
        let m = b * d;
        let (rn, rd) = reduce(n, m);
        proof {
            lemma_lowest_terms_reduced(n as int, m as int);
        }
        Ratio::from_reduced(rn, rd, Ghost(q_add(self@, other@)))
    }

    /// Whether `self + other` is positive, decided without the sum having to fit.
    pub fn sum_is_positive(&self, other: &Ratio) -> (r: bool)
        ensures
            r == q_is_positive(q_add(self@, other@)),
    {
        proof {
            use_type_invariant(self);
            use_type_invariant(other);
        }
        if self.numer == 0 {
            return other.numer > 0;
        }
        if other.numer == 0 {
            return self.numer > 0;
        }
        let a = self.numer as i128;
        let b = self.denom as i128;
        let c = other.numer as i128;
        let d = other.denom as i128;
        assert(-0x3fff_ffff_ffff_ffff_0000_0000_0000_0001 <= a * d <= 0x3fff_ffff_ffff_ffff_0000_0000_0000_0001)
            by (nonlinear_arith)
            requires
                -0x7fff_ffff_ffff_ffff <= a <= 0x7fff_ffff_ffff_ffff,
                1 <= d <= 0x7fff_ffff_ffff_ffff,
        ;
        assert(-0x3fff_ffff_ffff_ffff_0000_0000_0000_0001 <= c * b <= 0x3fff_ffff_ffff_ffff_0000_0000_0000_0001)
            by (nonlinear_arith)
            requires
                -0x7fff_ffff_ffff_ffff <= c <= 0x7fff_ffff_ffff_ffff,
                1 <= b <= 0x7fff_ffff_ffff_ffff,
        ;
        assert(b * d >= 1) by (nonlinear_arith)
            requires
                1 <= b,
                1 <= d,
        ;
        let n = a * d + c * b;
        proof {
            lemma_lowest_terms_sign(n as int, (b * d) as int);
        }
        n > 0
    }

    /// `self - other`; `None` where the difference does not fit.
    pub fn checked_sub(&self, other: &Ratio) -> (r: Option<Ratio>)
        ensures
            r is Some <==> fits(q_sub(self@, other@)),
            r matches Some(x) ==> x@ == q_sub(self@, other@),
    {
        self.checked_add(&other.neg())
    }

    /// `self * other`; `None` where the product does not fit.
    pub fn checked_mul(&self, other: &Ratio) -> (r: Option<Ratio>)
        ensures
            r is Some <==> fits(q_mul(self@, other@)),
            r matches Some(x) ==> x@ == q_mul(self@, other@),
    {
        proof {
            use_type_invariant(self);
            use_type_invariant(other);
        }
        let a = self.numer as i128;
        let b = self.denom as i128;
        let c = other.numer as i128;
        let d = other.denom as i128;
        assert(-0x3fff_ffff_ffff_ffff_0000_0000_0000_0001 <= a * c <= 0x3fff_ffff_ffff_ffff_0000_0000_0000_0001)
            by (nonlinear_arith)
            requires
                -0x7fff_ffff_ffff_ffff <= a <= 0x7fff_ffff_ffff_ffff,
                -0x7fff_ffff_ffff_ffff <= c <= 0x7fff_ffff_ffff_ffff,
        ;
        assert(1 <= b * d <= 0x3fff_ffff_ffff_ffff_0000_0000_0000_0001) by (nonlinear_arith)
            requires
                1 <= b <= 0x7fff_ffff_ffff_ffff,
                1 <= d <= 0x7fff_ffff_ffff_ffff,
        ;
        let n = a * c;
        let m = b * d;
        let (rn, rd) = reduce(n, m);
        proof {
            lemma_lowest_terms_reduced(n as int, m as int);
        }
        Ratio::from_reduced(rn, rd, Ghost(q_mul(self@, other@)))
    }

    /// `self / other` for a nonzero `other`; `None` where the quotient does
    /// not fit.
    pub fn checked_div(&self, other: &Ratio) -> (r: Option<Ratio>)
        requires
            other@.0 != 0,
        ensures
            r is Some <==> fits(q_div(self@, other@)),
            r matches Some(x) ==> x@ == q_div(self@, other@),
    {
        proof {
            use_type_invariant(self);
            use_type_invariant(other);
        }
        let a = self.numer as i128;
        let b = self.denom as i128;
        let c = other.numer as i128;
        let d = other.denom as i128;
        assert(-0x3fff_ffff_ffff_ffff_0000_0000_0000_0001 <= a * d <= 0x3fff_ffff_ffff_ffff_0000_0000_0000_0001)
            by (nonlinear_arith)
            requires
                -0x7fff_ffff_ffff_ffff <= a <= 0x7fff_ffff_ffff_ffff,
                1 <= d <= 0x7fff_ffff_ffff_ffff,
        ;
        assert(-0x3fff_ffff_ffff_ffff_0000_0000_0000_0001 <= b * c <= 0x3fff_ffff_ffff_ffff_0000_0000_0000_0001
            && b * c != 0) by (nonlinear_arith)
            requires
                -0x7fff_ffff_ffff_ffff <= c <= 0x7fff_ffff_ffff_ffff,
                c != 0,
                1 <= b <= 0x7fff_ffff_ffff_ffff,
        ;
        let n = a * d;
        let m = b * c;
        let (rn, rd) = reduce(n, m);
        proof {
            lemma_lowest_terms_reduced(n as int, m as int);
        }
        Ratio::from_reduced(rn, rd, Ghost(q_div(self@, other@)))
    }

    /// The reciprocal of a nonzero ratio.
    pub fn recip(&self) -> (r: Option<Ratio>)
        requires
            self@.0 != 0,
        ensures
            r is Some <==> fits(q_div(q_int(1), self@)),
            r matches Some(x) ==> x@ == q_div(q_int(1), self@),
    {
        Ratio::one().checked_div(self)
    }
}

} // verus!
