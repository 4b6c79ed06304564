//! Exact rational numbers with checked 64-bit arithmetic.
//!
//! A `Rat` is a fraction of two `i64`s, kept in lowest terms with a
//! positive denominator. Its mathematical value is the `Ratio` of unbounded
//! integers given by its view. Arithmetic is exact: each operation divides
//! the result by its greatest common divisor and either returns that
//! reduced fraction or reports, by returning `None`, that even the reduced
//! form does not fit the representation.

use vstd::prelude::*;
use vstd::arithmetic::div_mod::lemma_fundamental_div_mod;
use vstd::arithmetic::div_mod::lemma_div_multiples_vanish;
use vstd::arithmetic::div_mod::lemma_mod_multiples_basic;

verus! {

/// Mathematical value of a rational number: a numerator and a positive
/// denominator, both unbounded integers. Two `Ratio`s denote the same
/// rational number when `ratio_eqv` holds of them.
pub ghost struct Ratio {
    pub num: int,
    pub den: int,
}

/// Well-formedness of a mathematical rational: a positive denominator.
pub open spec fn ratio_wf(r: Ratio) -> bool {
    r.den > 0
}

/// The rational number zero.
pub open spec fn zero_ratio() -> Ratio {
    Ratio { num: 0, den: 1 }
}

/// Sum of two rationals, as fractions: a/b + c/d = (a*d + c*b)/(b*d).
pub open spec fn add_v(a: Ratio, b: Ratio) -> Ratio {
    Ratio { num: a.num * b.den + b.num * a.den, den: a.den * b.den }
}

/// Difference of two rationals: a/b - c/d = (a*d - c*b)/(b*d).
pub open spec fn sub_v(a: Ratio, b: Ratio) -> Ratio {
    Ratio { num: a.num * b.den - b.num * a.den, den: a.den * b.den }
}

/// Product of two rationals: (a/b) * (c/d) = (a*c)/(b*d).
pub open spec fn mul_v(a: Ratio, b: Ratio) -> Ratio {
    Ratio { num: a.num * b.num, den: a.den * b.den }
}

/// Quotient of two rationals: (a/b) / (c/d) = (a*d)/(b*c), with the sign
/// moved into the numerator so that the denominator stays positive.
pub open spec fn div_v(a: Ratio, b: Ratio) -> Ratio {
    if b.num >= 0 {
        Ratio { num: a.num * b.den, den: a.den * b.num }
    } else {
        Ratio { num: -(a.num * b.den), den: a.den * (-b.num) }
    }
}

/// Equality of the rational numbers two fractions denote: a/b = c/d exactly
/// when a*d = c*b (for positive denominators).
pub open spec fn ratio_eqv(a: Ratio, b: Ratio) -> bool {
    a.num * b.den == b.num * a.den
}

/// Whether an unbounded integer fits in an `i64`.
pub open spec fn in_i64(x: int) -> bool {
    i64::MIN <= x <= i64::MAX
}

/// Absolute value of an unbounded integer.
pub open spec fn iabs(x: int) -> int {
    if x < 0 {
        -x
    } else {
        x
    }
}

/// Greatest common divisor, by Euclid's rule.
pub open spec fn gcd_n(a: nat, b: nat) -> nat
    decreases b,
{
    if b == 0 {
        a
    } else {
        gcd_n(b, a % b)
    }
}

/// The greatest common divisor of a fraction's components.
pub open spec fn gcd_i(x: Ratio) -> int {
    gcd_n(iabs(x.num) as nat, x.den as nat) as int
}

/// The fraction in lowest terms: both components divided by their greatest
/// common divisor.
pub open spec fn reduce(x: Ratio) -> Ratio {
    let g = gcd_i(x);
    Ratio { num: x.num / g, den: x.den / g }
}

/// The checked embedding of a mathematical rational into the machine
/// representation: the fraction in lowest terms when both reduced
/// components fit in `i64`, and `None` only then not.
pub open spec fn chk(r: Ratio) -> Option<Ratio> {
    let rr = reduce(r);
    if in_i64(rr.num) && in_i64(rr.den) {
        Some(rr)
    } else {
        None
    }
}

/// What `Rat::new` makes of a fraction: `None` for a zero denominator,
/// otherwise the sign-normalised fraction in lowest terms, when it fits.
pub open spec fn rat_of(num: int, den: int) -> Option<Ratio> {
    if den == 0 {
        None
    } else if den < 0 {
        chk(Ratio { num: -num, den: -den })
    } else {
        chk(Ratio { num, den })
    }
}

/// Checked sum: defined only when both operands are defined and the
/// reduced result fits the machine representation.
pub open spec fn oadd(a: Option<Ratio>, b: Option<Ratio>) -> Option<Ratio> {
    match (a, b) {
        (Some(x), Some(y)) => chk(add_v(x, y)),
        _ => None,
    }
}

/// Checked difference.
pub open spec fn osub(a: Option<Ratio>, b: Option<Ratio>) -> Option<Ratio> {
    match (a, b) {
        (Some(x), Some(y)) => chk(sub_v(x, y)),
        _ => None,
    }
}

/// Checked product.
pub open spec fn omul(a: Option<Ratio>, b: Option<Ratio>) -> Option<Ratio> {
    match (a, b) {
        (Some(x), Some(y)) => chk(mul_v(x, y)),
        _ => None,
    }
}

/// Checked quotient: also undefined when the divisor is zero.
pub open spec fn odiv(a: Option<Ratio>, b: Option<Ratio>) -> Option<Ratio> {
    match (a, b) {
        (Some(x), Some(y)) => if y.num == 0 {
            None
        } else {
            chk(div_v(x, y))
        },
        _ => None,
    }
}

/// An exact rational number held as an `i64` fraction in lowest terms with
/// a positive denominator.
#[derive(Clone, Copy, Debug)]
pub struct Rat {
    pub num: i64,
    pub den: i64,
}

impl View for Rat {
    type V = Ratio;

    open spec fn view(&self) -> Ratio {
        Ratio { num: self.num as int, den: self.den as int }
    }
}

/// The mathematical value of an optional machine rational.
pub open spec fn opt_val(o: Option<Rat>) -> Option<Ratio> {
    match o {
        Some(r) => Some(r@),
        None => None,
    }
}

/// Whether an optional machine rational is well formed when present.
pub open spec fn opt_wf(o: Option<Rat>) -> bool {
    match o {
        Some(r) => r.wf(),
        None => true,
    }
}

// ------------------------------------------------------------------
// Facts about the greatest common divisor and reduction.
// ------------------------------------------------------------------

/// The greatest common divisor of two numbers, not both zero, is positive
/// and divides both.
proof fn lemma_gcd_divides(a: nat, b: nat)
    requires
        a > 0 || b > 0,
    ensures
        gcd_n(a, b) > 0,
        a % gcd_n(a, b) == 0,
        b % gcd_n(a, b) == 0,
    decreases b,
{
    if b == 0 {
        assert(a % a == 0) by (nonlinear_arith)
            requires
                a > 0,
        ;
        assert(0nat % a == 0) by (nonlinear_arith)
            requires
                a > 0,
        ;
    } else {
        lemma_gcd_divides(b, a % b);
        let g = gcd_n(a, b) as int;
        let ai = a as int;
        let bi = b as int;
        let r0 = ai % bi;
        lemma_fundamental_div_mod(ai, bi);
        lemma_fundamental_div_mod(bi, g);
        lemma_fundamental_div_mod(r0, g);
        let q = ai / bi;
        let s = bi / g;
        let t = r0 / g;
        assert(bi == g * s);
        assert(r0 == g * t);
        assert(ai == (s * q + t) * g) by (nonlinear_arith)
            requires
                ai == bi * q + r0,
                bi == g * s,
                r0 == g * t,
        ;
        lemma_mod_multiples_basic(s * q + t, g);
    }
}

/// Reducing a fraction with a positive denominator divides out a positive
/// common factor exactly, keeps the denominator positive, and keeps the
/// rational value.
pub proof fn lemma_reduce_props(x: Ratio)
    requires
        x.den > 0,
    ensures
        gcd_i(x) > 0,
        x.num == gcd_i(x) * reduce(x).num,
        x.den == gcd_i(x) * reduce(x).den,
        reduce(x).den > 0,
        ratio_eqv(reduce(x), x),
{
    let a = iabs(x.num);
    lemma_gcd_divides(a as nat, x.den as nat);
    let g = gcd_i(x);
    lemma_fundamental_div_mod(a, g);
    let qa = a / g;
    assert(a == g * qa);
    if x.num < 0 {
        assert(x.num == g * (-qa)) by (nonlinear_arith)
            requires
                a == g * qa,
                x.num == -a,
        ;
        lemma_div_multiples_vanish(-qa, g);
        assert(x.num / g == -qa);
    } else {
        lemma_div_multiples_vanish(qa, g);
        assert(x.num / g == qa);
    }
    let qn = x.num / g;
    assert(x.num == g * qn);
    lemma_fundamental_div_mod(x.den, g);
    let qd = x.den / g;
    assert(x.den == g * qd);
    assert(qd > 0) by (nonlinear_arith)
        requires
            x.den == g * qd,
            x.den > 0,
            g > 0,
    ;
    assert(qn * x.den == x.num * qd) by (nonlinear_arith)
        requires
            x.num == g * qn,
            x.den == g * qd,
    ;
}

/// A checked result is a well-formed fraction with the value of its input.
pub proof fn lemma_chk_eqv(x: Ratio)
    requires
        x.den > 0,
    ensures
        chk(x) matches Some(v) ==> v.den > 0 && ratio_eqv(v, x),
{
    lemma_reduce_props(x);
}

/// Rational equality is transitive when the middle fraction has a nonzero
/// denominator.
pub proof fn lemma_eqv_trans(a: Ratio, b: Ratio, c: Ratio)
    requires
        ratio_eqv(a, b),
        ratio_eqv(b, c),
        b.den != 0,
    ensures
        ratio_eqv(a, c),
{
    assert(a.num * c.den * b.den == c.num * a.den * b.den) by (nonlinear_arith)
        requires
            a.num * b.den == b.num * a.den,
            b.num * c.den == c.num * b.den,
    ;
    assert(a.num * c.den == c.num * a.den) by (nonlinear_arith)
        requires
            a.num * c.den * b.den == c.num * a.den * b.den,
            b.den != 0,
    ;
}

/// Sums of equivalent fractions are equivalent.
pub proof fn lemma_add_eqv(a: Ratio, a2: Ratio, b: Ratio, b2: Ratio)
    requires
        ratio_eqv(a, a2),
        ratio_eqv(b, b2),
    ensures
        ratio_eqv(add_v(a, b), add_v(a2, b2)),
{
    let l1 = a.num * b.den;
    let l2 = b.num * a.den;
    let r1 = a2.num * b2.den;
    let r2 = b2.num * a2.den;
    let dl = a.den * b.den;
    let dr = a2.den * b2.den;
    assert(l1 * dr == r1 * dl) by (nonlinear_arith)
        requires
            a.num * a2.den == a2.num * a.den,
            l1 == a.num * b.den,
            r1 == a2.num * b2.den,
            dl == a.den * b.den,
            dr == a2.den * b2.den,
    ;
    assert(l2 * dr == r2 * dl) by (nonlinear_arith)
        requires
            b.num * b2.den == b2.num * b.den,
            l2 == b.num * a.den,
            r2 == b2.num * a2.den,
            dl == a.den * b.den,
            dr == a2.den * b2.den,
    ;
    assert((l1 + l2) * dr == l1 * dr + l2 * dr) by (nonlinear_arith);
    assert((r1 + r2) * dl == r1 * dl + r2 * dl) by (nonlinear_arith);
}

/// Products of equivalent fractions are equivalent.
pub proof fn lemma_mul_eqv(a: Ratio, a2: Ratio, b: Ratio, b2: Ratio)
    requires
        ratio_eqv(a, a2),
        ratio_eqv(b, b2),
    ensures
        ratio_eqv(mul_v(a, b), mul_v(a2, b2)),
{
    assert((a.num * b.num) * (a2.den * b2.den) == (a2.num * b2.num) * (a.den * b.den))
        by (nonlinear_arith)
        requires
            a.num * a2.den == a2.num * a.den,
            b.num * b2.den == b2.num * b.den,
    ;
}

// ------------------------------------------------------------------
// Machine-range bounds for the intermediate 128-bit arithmetic.
// ------------------------------------------------------------------

/// A product of two `i64`-range factors stays well inside the `i128` range.
proof fn lemma_prod_in_i128(a: int, b: int)
    by (nonlinear_arith)
    requires
        -0x8000_0000_0000_0000 <= a <= 0x8000_0000_0000_0000,
        -0x8000_0000_0000_0000 <= b <= 0x8000_0000_0000_0000,
    ensures
        -0x4000_0000_0000_0000_0000_0000_0000_0000 <= a * b
            <= 0x4000_0000_0000_0000_0000_0000_0000_0000,
{
}

/// A numerator times a positive denominator is bounded so that the sum of
/// two such products still fits in an `i128`.
proof fn lemma_num_den_prod(n: int, d: int)
    by (nonlinear_arith)
    requires
        -0x8000_0000_0000_0000 <= n <= 0x7fff_ffff_ffff_ffff,
        1 <= d <= 0x7fff_ffff_ffff_ffff,
    ensures
        -0x3fff_ffff_ffff_ffff_8000_0000_0000_0000 <= n * d
            <= 0x3fff_ffff_ffff_ffff_8000_0000_0000_0000,
{
}

/// A product of two positive `i64`s is positive and fits in an `i128`.
proof fn lemma_pos_prod(a: int, b: int)
    by (nonlinear_arith)
    requires
        1 <= a <= 0x7fff_ffff_ffff_ffff,
        1 <= b <= 0x8000_0000_0000_0000,
    ensures
        1 <= a * b <= 0x4000_0000_0000_0000_0000_0000_0000_0000,
{
}

// ------------------------------------------------------------------
// Executable reduction.
// ------------------------------------------------------------------

/// Euclid's algorithm on unsigned 128-bit integers.
fn gcd_u128(a: u128, b: u128) -> (g: u128)
    ensures
        g as nat == gcd_n(a as nat, b as nat),
{
    let mut x = a;
    let mut y = b;
    while y != 0
        invariant
            gcd_n(x as nat, y as nat) == gcd_n(a as nat, b as nat),
        decreases y,
    {
        let r = x % y;
        x = y;
        y = r;
    }
    x
}

/// Packs the exact fraction n/d (d positive) into a `Rat` after dividing
/// out the greatest common divisor; `None` exactly when even the fraction
/// in lowest terms leaves the `i64` range.
fn pack(n: i128, d: i128) -> (r: Option<Rat>)
    requires
        0 < d,
        -0x7fff_ffff_ffff_ffff_0000_0000_0000_0000 <= n
            <= 0x7fff_ffff_ffff_ffff_0000_0000_0000_0000,
    ensures
        opt_val(r) == chk(Ratio { num: n as int, den: d as int }),
        opt_wf(r),
{
    let ghost x = Ratio { num: n as int, den: d as int };
    let neg = n < 0;
    let n_abs: u128 = if neg {
        (-n) as u128
    } else {
        n as u128
    };
    let d_u: u128 = d as u128;
    proof {
        assert(n_abs as int == iabs(x.num));
        assert(d_u as int == x.den);
    }
    let g = gcd_u128(n_abs, d_u);
    proof {
        lemma_gcd_divides(n_abs as nat, d_u as nat);
        lemma_reduce_props(x);
        assert(g as int == gcd_i(x));
    }
    let ghost rx = reduce(x);
    let nr = n_abs / g;
    let dr = d_u / g;
    proof {
        lemma_div_multiples_vanish(rx.den, g as int);
        assert(dr as int == rx.den);
        assert(iabs(x.num) == (g as int) * iabs(rx.num)) by (nonlinear_arith)
            requires
                x.num == (g as int) * rx.num,
                g as int > 0,
        ;
        lemma_div_multiples_vanish(iabs(rx.num), g as int);
        assert(nr as int == iabs(rx.num));
        assert(nr as int <= iabs(x.num)) by (nonlinear_arith)
            requires
                iabs(x.num) == (g as int) * (nr as int),
                g as int >= 1,
                nr as int >= 0,
        ;
        if neg {
            assert(rx.num < 0) by (nonlinear_arith)
                requires
                    x.num == (g as int) * rx.num,
                    g as int > 0,
                    x.num < 0,
            ;
        } else {
            assert(rx.num >= 0) by (nonlinear_arith)
                requires
                    x.num == (g as int) * rx.num,
                    g as int > 0,
                    x.num >= 0,
            ;
        }
    }
    let rn: i128 = if neg {
        -(nr as i128)
    } else {
        nr as i128
    };
    proof {
        assert(rn as int == rx.num);
    }
    if rn < (i64::MIN as i128) || rn > (i64::MAX as i128) || dr > (i64::MAX as u128) {
        None
    } else {
        Some(Rat { num: rn as i64, den: dr as i64 })
    }
}

impl Rat {
    /// Well-formedness: the denominator is positive.
    pub open spec fn wf(self) -> bool {
        ratio_wf(self@)
    }

    /// Builds the fraction num/den in lowest terms, normalising the sign
    /// into the numerator. Returns `None` when the denominator is zero or
    /// the reduced fraction does not fit.
    pub fn new(num: i64, den: i64) -> (r: Option<Rat>)
        ensures
            opt_val(r) == rat_of(num as int, den as int),
            opt_wf(r),
            r matches Some(v) ==> ratio_eqv(v@, Ratio { num: num as int, den: den as int }),
    {
        if den == 0 {
            return None;
        }
        let n: i128 = num as i128;
        let d: i128 = den as i128;
        let r = if den < 0 {
            pack(-n, -d)
        } else {
            pack(n, d)
        };
        proof {
            let orig = Ratio { num: num as int, den: den as int };
            if den < 0 {
                let norm = Ratio { num: -(num as int), den: -(den as int) };
                lemma_chk_eqv(norm);
                assert((-(num as int)) * (den as int) == (num as int) * (-(den as int)))
                    by (nonlinear_arith);
                if r is Some {
                    lemma_eqv_trans(r.unwrap()@, norm, orig);
                }
            } else {
                lemma_chk_eqv(orig);
            }
        }
        r
    }

    /// The rational with the given integer value.
    pub fn from_int(n: i64) -> (r: Rat)
        ensures
            r.wf(),
            r@ == (Ratio { num: n as int, den: 1 }),
    {
        Rat { num: n, den: 1 }
    }

    /// The rational zero.
    pub fn zero() -> (r: Rat)
        ensures
            r.wf(),
            r@ == zero_ratio(),
    {
        Rat { num: 0, den: 1 }
    }

    /// Whether this fraction denotes the rational number zero.
    pub fn is_zero(self) -> (r: bool)
        ensures
            r == (self@.num == 0),
    {
        self.num == 0
    }

    /// Whether two fractions denote the same rational number.
    pub fn equiv(self, other: Rat) -> (r: bool)
        ensures
            r == ratio_eqv(self@, other@),
    {
        proof {
            lemma_prod_in_i128(self.num as int, other.den as int);
            lemma_prod_in_i128(other.num as int, self.den as int);
        }
        (self.num as i128) * (other.den as i128) == (other.num as i128) * (self.den as i128)
    }

    /// Checked addition: the exact sum in lowest terms, or `None` when
    /// even the reduced sum does not fit.
    pub fn checked_add(self, other: Rat) -> (r: Option<Rat>)
        requires
            self.wf(),
            other.wf(),
        ensures
            opt_val(r) == chk(add_v(self@, other@)),
            opt_wf(r),
    {
        proof {
            lemma_num_den_prod(self.num as int, other.den as int);
            lemma_num_den_prod(other.num as int, self.den as int);
            lemma_pos_prod(self.den as int, other.den as int);
        }
        let n: i128 = (self.num as i128) * (other.den as i128) + (other.num as i128) * (self.den
            as i128);
        let d: i128 = (self.den as i128) * (other.den as i128);
        pack(n, d)
    }

    /// Checked subtraction.
    pub fn checked_sub(self, other: Rat) -> (r: Option<Rat>)
        requires
            self.wf(),
            other.wf(),
        ensures
            opt_val(r) == chk(sub_v(self@, other@)),
            opt_wf(r),
    {
        proof {
            lemma_num_den_prod(self.num as int, other.den as int);
            lemma_num_den_prod(other.num as int, self.den as int);
            lemma_pos_prod(self.den as int, other.den as int);
        }
        let n: i128 = (self.num as i128) * (other.den as i128) - (other.num as i128) * (self.den
            as i128);
        let d: i128 = (self.den as i128) * (other.den as i128);
        pack(n, d)
    }

    /// Checked multiplication.
    pub fn checked_mul(self, other: Rat) -> (r: Option<Rat>)
        requires
            self.wf(),
            other.wf(),
        ensures
            opt_val(r) == chk(mul_v(self@, other@)),
            opt_wf(r),
    {
        proof {
            lemma_prod_in_i128(self.num as int, other.num as int);
            lemma_pos_prod(self.den as int, other.den as int);
        }
        let n: i128 = (self.num as i128) * (other.num as i128);
        let d: i128 = (self.den as i128) * (other.den as i128);
        pack(n, d)
    }

    /// Checked division: `None` when the divisor is zero or the reduced
    /// quotient does not fit.
    pub fn checked_div(self, other: Rat) -> (r: Option<Rat>)
        requires
            self.wf(),
            other.wf(),
        ensures
            opt_val(r) == odiv(Some(self@), Some(other@)),
            opt_wf(r),
    {
        if other.num == 0 {
            return None;
        }
        proof {
            lemma_num_den_prod(self.num as int, other.den as int);
        }
        let n0: i128 = (self.num as i128) * (other.den as i128);
        let (n, d): (i128, i128) = if other.num > 0 {
            proof {
                lemma_pos_prod(self.den as int, other.num as int);
            }
            (n0, (self.den as i128) * (other.num as i128))
        } else {
            proof {
                lemma_pos_prod(self.den as int, -(other.num as int));
            }
            (-n0, (self.den as i128) * (-(other.num as i128)))
        };
        pack(n, d)
    }
}

} // verus!
