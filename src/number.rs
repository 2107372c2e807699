//! Exact numbers of the language: rationals held as a numerator over a
//! positive denominator, each within `i64`.
use vstd::prelude::*;
use vstd::arithmetic::div_mod::lemma_fundamental_div_mod;
use crate::text::{decimal_digits, digit_char, push_char, push_decimal, digit_to_char};

verus! {

/// How many digits after the decimal point the text of a number shows at most.
pub const FRACTION_DIGITS: u64 = 16;

/// A rational number `numer / denom` with `denom > 0`.
#[derive(Clone, Copy, Debug)]
pub struct Number {
    num: i64,
    den: i64,
}

/// Whether an integer fits in `i64`.
pub open spec fn fits(x: int) -> bool {
    i64::MIN <= x <= i64::MAX
}

proof fn lemma_product_bound(a: int, b: int)
    requires
        -0x8000_0000_0000_0000 <= a <= 0x7fff_ffff_ffff_ffff,
        -0x8000_0000_0000_0000 <= b <= 0x7fff_ffff_ffff_ffff,
    ensures
        -0x4000_0000_0000_0000_0000_0000_0000_0000 <= a * b <= 0x4000_0000_0000_0000_0000_0000_0000_0000,
{
    assert(-0x4000_0000_0000_0000_0000_0000_0000_0000 <= a * b <= 0x4000_0000_0000_0000_0000_0000_0000_0000)
        by (nonlinear_arith)
        requires
            -0x8000_0000_0000_0000 <= a <= 0x7fff_ffff_ffff_ffff,
            -0x8000_0000_0000_0000 <= b <= 0x7fff_ffff_ffff_ffff;
}

/// The digits after the decimal point of `r / d` (with `r < d`), at most `k` of
/// them, stopping early when the expansion ends.
pub open spec fn fraction_digits(r: nat, d: nat, k: nat) -> Seq<char>
    decreases k,
{
    if k == 0 || r == 0 || d == 0 {
        Seq::empty()
    } else {
        seq![digit_char((r * 10) / d)] + fraction_digits((r * 10) % d, d, (k - 1) as nat)
    }
}

proof fn lemma_cross_bound(a: int, b: int)
    requires
        -0x8000_0000_0000_0000 <= a <= 0x7fff_ffff_ffff_ffff,
        0 <= b <= 0x7fff_ffff_ffff_ffff,
    ensures
        -0x4000_0000_0000_0000_0000_0000_0000_0000 < a * b < 0x4000_0000_0000_0000_0000_0000_0000_0000,
{
    assert(-0x4000_0000_0000_0000_0000_0000_0000_0000 < a * b < 0x4000_0000_0000_0000_0000_0000_0000_0000)
        by (nonlinear_arith)
        requires
            -0x8000_0000_0000_0000 <= a <= 0x7fff_ffff_ffff_ffff,
            0 <= b <= 0x7fff_ffff_ffff_ffff;
}

/// The exact sum, where numerator and denominator fit.
pub open spec fn num_add(a: Number, b: Number) -> Option<Number> {
    make_spec(a.numer() * b.denom() + b.numer() * a.denom(), a.denom() * b.denom())
}

/// The exact difference, where numerator and denominator fit.
pub open spec fn num_sub(a: Number, b: Number) -> Option<Number> {
    make_spec(a.numer() * b.denom() - b.numer() * a.denom(), a.denom() * b.denom())
}

/// The exact product, where numerator and denominator fit.
pub open spec fn num_mul(a: Number, b: Number) -> Option<Number> {
    make_spec(a.numer() * b.numer(), a.denom() * b.denom())
}

/// The exact quotient by a nonzero `b`, the sign moved to the numerator, where
/// numerator and denominator fit.
pub open spec fn num_div(a: Number, b: Number) -> Option<Number> {
    if b.numer() < 0 {
        make_spec(-(a.numer() * b.denom()), -(a.denom() * b.numer()))
    } else {
        make_spec(a.numer() * b.denom(), a.denom() * b.numer())
    }
}

/// The negation, where it fits.
pub open spec fn num_neg(a: Number) -> Option<Number> {
    make_spec(-a.numer(), a.denom())
}

/// `a < b` in value.
pub open spec fn num_less(a: Number, b: Number) -> bool {
    a.numer() * b.denom() < b.numer() * a.denom()
}

/// `a == b` in value.
pub open spec fn num_eq(a: Number, b: Number) -> bool {
    a.numer() * b.denom() == b.numer() * a.denom()
}

/// The greatest common divisor, by Euclid's algorithm.
pub open spec fn gcd(a: nat, b: nat) -> nat
    decreases b,
{
    if b == 0 { a } else { gcd(b, a % b) }
}

pub open spec fn abs(x: int) -> nat {
    if x < 0 { (-x) as nat } else { x as nat }
}

/// The number `n / d` (for `d > 0`) in lowest terms, where both of its parts fit.
pub open spec fn make_spec(n: int, d: int) -> Option<Number> {
    let g = gcd(abs(n), d as nat);
    let q = abs(n) / g;
    let num = if n < 0 { -q } else { q as int };
    let den = (d as nat / g) as int;
    if fits(num) && fits(den) { Some(Number::from_parts(num, den)) } else { None }
}

/// The greatest common divisor of two naturals, not both zero, is positive and
/// divides both.
pub proof fn lemma_gcd_divides(a: nat, b: nat)
    requires
        a > 0 || b > 0,
    ensures
        gcd(a, b) > 0,
        a % gcd(a, b) == 0,
        b % gcd(a, b) == 0,
    decreases b,
{
    if b == 0 {
        assert(a % a == 0) by (nonlinear_arith) requires a > 0;
        assert(0nat % a == 0) by (nonlinear_arith) requires a > 0;
    } else {
        let r = a % b;
        lemma_gcd_divides(b, r);
        let g = gcd(b, r);
        lemma_fundamental_div_mod(a as int, b as int);
        lemma_fundamental_div_mod(b as int, g as int);
        lemma_fundamental_div_mod(r as int, g as int);
        let k1 = b / g;
        let k2 = r / g;
        let q = a / b;
        assert(a == g * (k1 * q + k2)) by (nonlinear_arith)
            requires a == b * q + r, b == g * k1, r == g * k2;
        assert(a % g == 0) by (nonlinear_arith)
            requires a == g * (k1 * q + k2), g > 0, k1 * q + k2 >= 0;
    }
}

/// The lowest terms of `n / d` stand for the same rational, with a positive
/// denominator.
pub proof fn lemma_make_exact(n: int, d: int)
    requires
        d > 0,
    ensures
        make_spec(n, d) matches Some(r) ==> r.numer() * d == n * r.denom() && r.denom() > 0,
{
    let g = gcd(abs(n), d as nat);
    lemma_gcd_divides(abs(n), d as nat);
    let q = abs(n) / g;
    let e = d as nat / g;
    lemma_fundamental_div_mod(abs(n) as int, g as int);
    lemma_fundamental_div_mod(d, g as int);
    assert(q * d == abs(n) * e) by (nonlinear_arith)
        requires abs(n) == g * q, d == g * e;
    assert(e > 0) by (nonlinear_arith) requires d == g * e, d > 0, g > 0;
    let num = if n < 0 { -q } else { q as int };
    if fits(num) && fits(e as int) {
        Number::lemma_from_parts(num, e as int);
        if n < 0 {
            assert(num * d == n * e) by (nonlinear_arith)
                requires num == -q, q * d == abs(n) * e, abs(n) == -n;
        }
    }
}

/// Lowest terms of parts that fit fit too.
pub proof fn lemma_make_fits(n: int, d: int)
    requires
        d > 0,
        fits(n),
        fits(d),
    ensures
        make_spec(n, d) is Some,
{
    let g = gcd(abs(n), d as nat);
    lemma_gcd_divides(abs(n), d as nat);
    assert(abs(n) / g <= abs(n)) by (nonlinear_arith) requires g > 0;
    assert(d as nat / g <= d) by (nonlinear_arith) requires g > 0, d > 0;
}

fn gcd_of(a: u128, b: u128) -> (r: u128)
    ensures
        r == gcd(a as nat, b as nat),
{
    let mut x = a;
    let mut y = b;
    while y != 0
        invariant
            gcd(x as nat, y as nat) == gcd(a as nat, b as nat),
        decreases y,
    {
        let t = x % y;
        x = y;
        y = t;
    }
    x
}

impl Number {
    #[verifier::type_invariant]
    spec fn inv(self) -> bool {
        self.den > 0
    }

    /// The numerator.
    pub closed spec fn numer(self) -> int {
        self.num as int
    }

    /// The denominator, always positive.
    pub closed spec fn denom(self) -> int {
        self.den as int
    }

    /// The text of this number: an optional sign, the integer part, and, when the
    /// value is not whole, a point and at most sixteen digits of the fraction.
    pub open spec fn text(self) -> Seq<char> {
        let a = if self.numer() < 0 { -self.numer() } else { self.numer() };
        let ip = (a / self.denom()) as nat;
        let r = (a % self.denom()) as nat;
        let sign = if self.numer() < 0 { seq!['-'] } else { Seq::empty() };
        let frac = if r == 0 {
            Seq::empty()
        } else {
            seq!['.'] + fraction_digits(r, self.denom() as nat, FRACTION_DIGITS as nat)
        };
        sign + decimal_digits(ip) + frac
    }

    /// The whole number `n`.
    pub fn from_int(n: i64) -> (r: Number)
        ensures
            r.numer() == n,
            r.denom() == 1,
    {
        Number { num: n, den: 1 }
    }

    /// The number `n / d` in lowest terms, or `None` when `d` is zero.
    pub fn ratio(n: i64, d: i64) -> (r: Option<Number>)
        ensures
            d > 0 ==> r == make_spec(n as int, d as int),
            d < 0 ==> r == make_spec(-n, -d),
            d == 0 ==> r is None,
            d > 0 ==> r is Some,
    {
        if d == 0 {
            return None;
        }
        proof {
            if d > 0 {
                lemma_make_fits(n as int, d as int);
            }
        }
        if d > 0 {
            Number::make(n as i128, d as i128)
        } else {
            Number::make(-(n as i128), -(d as i128))
        }
    }

    /// The number with the given numerator and denominator, both within `i64`.
    pub closed spec fn from_parts(n: int, d: int) -> Number {
        Number { num: n as i64, den: d as i64 }
    }

    /// A number built from parts that fit has those parts.
    pub broadcast proof fn lemma_from_parts(n: int, d: int)
        requires
            fits(n),
            fits(d),
        ensures
            #[trigger] Number::from_parts(n, d).numer() == n,
            Number::from_parts(n, d).denom() == d,
    {
    }

    /// The numerator.
    pub fn numerator(&self) -> (r: i64)
        ensures
            r == self.numer(),
    {
        self.num
    }

    /// The denominator, always positive.
    pub fn denominator(&self) -> (r: i64)
        ensures
            r == self.denom(),
            r > 0,
    {
        proof {
            use_type_invariant(self);
        }
        self.den
    }

    pub fn is_zero(&self) -> (r: bool)
        ensures
            r == (self.numer() == 0),
    {
        self.num == 0
    }

    fn cross(&self, other: &Number) -> (r: (i128, i128))
        ensures
            r.0 == self.numer() * other.denom(),
            r.1 == other.numer() * self.denom(),
    {
        proof {
            lemma_product_bound(self.num as int, other.den as int);
            lemma_product_bound(other.num as int, self.den as int);
        }
        (self.num as i128 * other.den as i128, other.num as i128 * self.den as i128)
    }

    /// Whether this number is less than `other`.
    pub fn less(&self, other: &Number) -> (r: bool)
        ensures
            r == num_less(*self, *other),
    {
        let (a, b) = self.cross(other);
        a < b
    }

    /// Whether this number equals `other` in value.
    pub fn equals(&self, other: &Number) -> (r: bool)
        ensures
            r == num_eq(*self, *other),
    {
        let (a, b) = self.cross(other);
        a == b
    }

    /// `n / d` in lowest terms, where it fits.
    fn make(n: i128, d: i128) -> (r: Option<Number>)
        requires
            d > 0,
            n > i128::MIN,
        ensures
            r == make_spec(n as int, d as int),
    {
        let a: u128 = if n < 0 { (-n) as u128 } else { n as u128 };
        let g = gcd_of(a, d as u128);
        proof {
            lemma_gcd_divides(a as nat, d as nat);
            lemma_fundamental_div_mod(d as int, g as int);
            let di = d as int;
            let gi = g as int;
            assert(di / gi > 0) by (nonlinear_arith)
                requires di == gi * (di / gi) + di % gi, di % gi == 0, di > 0, gi > 0;
        }
        let q = a / g;
        let e = (d as u128) / g;
        if e > i64::MAX as u128 {
            return None;
        }
        if n < 0 {
            if q > 0x8000_0000_0000_0000u128 {
                None
            } else {
                Some(Number { num: (-(q as i128)) as i64, den: e as i64 })
            }
        } else if q > i64::MAX as u128 {
            None
        } else {
            Some(Number { num: q as i64, den: e as i64 })
        }
    }

    /// `self + other`, or `None` when the exact result does not fit.
    pub fn add(&self, other: &Number) -> (r: Option<Number>)
        ensures
            r == num_add(*self, *other),
    {
        proof {
            use_type_invariant(self);
            use_type_invariant(other);
            lemma_cross_bound(self.num as int, other.den as int);
            lemma_cross_bound(other.num as int, self.den as int);
            lemma_product_bound(self.den as int, other.den as int);
            assert(self.den as int * other.den as int > 0) by (nonlinear_arith)
                requires self.den > 0, other.den > 0;
        }
        let n = self.num as i128 * other.den as i128 + other.num as i128 * self.den as i128;
        let d = self.den as i128 * other.den as i128;
        Number::make(n, d)
    }

    /// `self - other`, or `None` when the exact result does not fit.
    pub fn sub(&self, other: &Number) -> (r: Option<Number>)
        ensures
            r == num_sub(*self, *other),
    {
        proof {
            use_type_invariant(self);
            use_type_invariant(other);
            lemma_cross_bound(self.num as int, other.den as int);
            lemma_cross_bound(other.num as int, self.den as int);
            lemma_product_bound(self.den as int, other.den as int);
            assert(self.den as int * other.den as int > 0) by (nonlinear_arith)
                requires self.den > 0, other.den > 0;
        }
        let n = self.num as i128 * other.den as i128 - other.num as i128 * self.den as i128;
        let d = self.den as i128 * other.den as i128;
        Number::make(n, d)
    }

    /// `self * other`, or `None` when the exact result does not fit.
    pub fn mul(&self, other: &Number) -> (r: Option<Number>)
        ensures
            r == num_mul(*self, *other),
    {
        proof {
            use_type_invariant(self);
            use_type_invariant(other);
            lemma_product_bound(self.num as int, other.num as int);
            lemma_product_bound(self.den as int, other.den as int);
            assert(self.den as int * other.den as int > 0) by (nonlinear_arith)
                requires self.den > 0, other.den > 0;
        }
        let n = self.num as i128 * other.num as i128;
        let d = self.den as i128 * other.den as i128;
        Number::make(n, d)
    }

    /// `self / other` for a nonzero `other`, or `None` when the exact result does
    /// not fit. The sign of the quotient moves to its numerator.
    pub fn div(&self, other: &Number) -> (r: Option<Number>)
        requires
            other.numer() != 0,
        ensures
            r == num_div(*self, *other),
    {
        proof {
            use_type_invariant(self);
            use_type_invariant(other);
            lemma_product_bound(self.num as int, other.den as int);
            lemma_product_bound(self.den as int, other.num as int);
            if other.num > 0 {
                assert(self.den as int * other.num as int > 0) by (nonlinear_arith)
                    requires self.den > 0, other.num > 0;
            } else {
                assert((self.den as int) * (other.num as int) < 0) by (nonlinear_arith)
                    requires self.den > 0, other.num < 0;
            }
        }
        let n = self.num as i128 * other.den as i128;
        let d = self.den as i128 * other.num as i128;
        if other.num < 0 {
            Number::make(-n, -d)
        } else {
            Number::make(n, d)
        }
    }

    /// `-self`, or `None` when the numerator is `i64::MIN`.
    pub fn neg(&self) -> (r: Option<Number>)
        ensures
            r == num_neg(*self),
    {
        proof {
            use_type_invariant(self);
        }
        Number::make(-(self.num as i128), self.den as i128)
    }

    /// Appends the text of this number to `s`.
    pub fn push_text(&self, s: &mut String)
        ensures
            final(s)@ == old(s)@ + self.text(),
    {
        proof {
            use_type_invariant(self);
        }
        let a: u64 = if self.num < 0 { (-(self.num as i128)) as u64 } else { self.num as u64 };
        let d: u64 = self.den as u64;
        let ghost sign: Seq<char> = if self.numer() < 0 { seq!['-'] } else { Seq::empty() };
        if self.num < 0 {
            push_char(s, '-');
        }
        assert(s@ == old(s)@ + sign);
        push_decimal(s, a / d);
        let mut r: u64 = a % d;
        if r != 0 {
            push_char(s, '.');
            let ghost start = s@;
            let mut k: u64 = FRACTION_DIGITS;
            while k > 0 && r != 0
                invariant
                    r < d,
                    d == self.den,
                    start + fraction_digits((a % d) as nat, d as nat, FRACTION_DIGITS as nat)
                        == s@ + fraction_digits(r as nat, d as nat, k as nat),
                decreases k,
            {
                let ghost s0 = s@;
                let ghost r0 = r;
                let ghost k0 = k;
                let r10: u128 = r as u128 * 10;
                assert(r10 / (d as u128) < 10) by (nonlinear_arith)
                    requires r10 == r * 10, r < d, d > 0;
                let q: u64 = (r10 / d as u128) as u64;
                let c = digit_to_char(q);
                push_char(s, c);
                r = (r10 % d as u128) as u64;
                k = k - 1;
                proof {
                    assert(q as nat == (r0 as nat * 10) / d as nat);
                    assert(r as nat == (r0 as nat * 10) % d as nat);
                    assert(fraction_digits(r0 as nat, d as nat, k0 as nat) == seq![c]
                        + fraction_digits(r as nat, d as nat, k as nat));
                    assert(s@ + fraction_digits(r as nat, d as nat, k as nat)
                        =~= s0 + fraction_digits(r0 as nat, d as nat, k0 as nat));
                }
            }
        }
        assert(s@ =~= old(s)@ + self.text());
    }
}

} // verus!
