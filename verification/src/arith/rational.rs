//! Exact rational numbers: an integer numerator over a positive natural
//! denominator, without reduction to lowest terms.
//!
//! Specifications speak about the ghost fraction [`Qv`] and the exact
//! spec-level operations on it; equality of rational values is the
//! cross-multiplication relation [`qeq`].

use vstd::prelude::*;
use vstd::arithmetic::power::pow;
use crate::arith::natural::Natural;
use crate::arith::natural::Ord3;
use crate::arith::integer::Integer;

verus! {

/// A ghost fraction: numerator and denominator as mathematical integers.
pub struct Qv {
    pub n: int,
    pub d: int,
}

/// Well-formed fractions have a positive denominator.
pub open spec fn qwf(q: Qv) -> bool {
    q.d > 0
}

/// The fraction zero.
pub open spec fn qzero() -> Qv {
    Qv { n: 0, d: 1 }
}

/// The fraction one.
pub open spec fn qone() -> Qv {
    Qv { n: 1, d: 1 }
}

/// A fraction from an integer.
pub open spec fn q_int(i: int) -> Qv {
    Qv { n: i, d: 1 }
}

/// Value equality of fractions, by cross-multiplication.
pub open spec fn qeq(a: Qv, b: Qv) -> bool {
    a.n * b.d == b.n * a.d
}

/// Strict order on fractions with positive denominators.
pub open spec fn qlt(a: Qv, b: Qv) -> bool {
    a.n * b.d < b.n * a.d
}

/// Non-strict order on fractions with positive denominators.
pub open spec fn qle(a: Qv, b: Qv) -> bool {
    a.n * b.d <= b.n * a.d
}

/// Exact sum.
pub open spec fn qadd(a: Qv, b: Qv) -> Qv {
    Qv { n: a.n * b.d + b.n * a.d, d: a.d * b.d }
}

/// Exact difference.
pub open spec fn qsub(a: Qv, b: Qv) -> Qv {
    Qv { n: a.n * b.d - b.n * a.d, d: a.d * b.d }
}

/// Exact product.
pub open spec fn qmul(a: Qv, b: Qv) -> Qv {
    Qv { n: a.n * b.n, d: a.d * b.d }
}

/// Exact quotient; meaningful only for a non-zero divisor.
pub open spec fn qdiv(a: Qv, b: Qv) -> Qv {
    if b.n < 0 {
        Qv { n: -(a.n * b.d), d: a.d * -b.n }
    } else {
        Qv { n: a.n * b.d, d: a.d * b.n }
    }
}

/// Exact negation.
pub open spec fn qneg(a: Qv) -> Qv {
    Qv { n: -a.n, d: a.d }
}

/// Exact absolute value.
pub open spec fn qabs(a: Qv) -> Qv {
    if a.n < 0 {
        Qv { n: -a.n, d: a.d }
    } else {
        a
    }
}

/// The smaller of two fractions.
pub open spec fn qmin(a: Qv, b: Qv) -> Qv {
    if qle(a, b) {
        a
    } else {
        b
    }
}

/// A square of a mathematical integer.
pub open spec fn sq(k: int) -> int {
    k * k
}

/// The value denoted by a decimal in scientific notation.
pub open spec fn sci(negative: bool, mantissa: u64, exponent: int) -> Qv {
    let m: int = if negative {
        -(mantissa as int)
    } else {
        mantissa as int
    };
    if exponent >= 0 {
        Qv { n: m * pow(10, exponent as nat), d: 1 }
    } else {
        Qv { n: m, d: pow(10, (-exponent) as nat) }
    }
}

/// An exact rational number.
pub struct Rational {
    pub num: Integer,
    pub den: Natural,
}

impl View for Rational {
    type V = Qv;

    open spec fn view(&self) -> Qv {
        Qv { n: self.num.val(), d: self.den.val() }
    }
}

impl Clone for Rational {
    fn clone(&self) -> (r: Self)
        ensures
            r.wf() == self.wf(),
            r@ == self@,
    {
        Rational { num: self.num.clone(), den: self.den.clone() }
    }
}

impl Rational {
    /// The representation invariant: a positive denominator.
    pub open spec fn wf(&self) -> bool {
        self.num.wf() && self.den.wf() && self.den.val() > 0
    }

    /// Zero.
    pub fn zero() -> (r: Rational)
        ensures
            r.wf(),
            r@ == qzero(),
    {
        let r = Rational { num: Integer::zero(), den: Natural::from_u64(1) };
        r
    }

    /// One.
    pub fn one() -> (r: Rational)
        ensures
            r.wf(),
            r@ == qone(),
    {
        Rational { num: Integer::from_u64(1), den: Natural::from_u64(1) }
    }

    /// The rational denoted by a machine word.
    pub fn from_u64(x: u64) -> (r: Rational)
        ensures
            r.wf(),
            r@ == q_int(x as int),
    {
        Rational { num: Integer::from_u64(x), den: Natural::from_u64(1) }
    }

    /// The exact value of a decimal in scientific notation:
    /// `mantissa * 10^exponent`, negated when `negative` is set.
    pub fn from_scientific(negative: bool, mantissa: u64, exponent: i32) -> (r: Rational)
        requires
            exponent != i32::MIN,
        ensures
            r.wf(),
            r@ == sci(negative, mantissa, exponent as int),
    {
        let m = Natural::from_u64(mantissa);
        proof {
            m.lemma_val_nonneg();
        }
        let num_mag = if exponent >= 0 {
            m.mul(&Natural::pow10(exponent as usize))
        } else {
            m
        };
        let num = Integer::from_sign_magnitude(negative, num_mag);
        let den = if exponent >= 0 {
            Natural::from_u64(1)
        } else {
            Natural::pow10((-exponent) as usize)
        };
        proof {
            if exponent < 0 {
                vstd::arithmetic::power::lemma_pow_positive(10, (-exponent) as nat);
            } else {
                let p = pow(10, (exponent as int) as nat);
                assert((-(mantissa as int)) * p == -((mantissa as int) * p)) by (nonlinear_arith);
            }
        }
        Rational { num, den }
    }

    /// Whether the value is zero.
    pub fn is_zero(&self) -> (r: bool)
        requires
            self.wf(),
        ensures
            r <==> self@.n == 0,
    {
        self.num.is_zero()
    }

    /// Exact sum.
    pub fn add(&self, other: &Rational) -> (r: Rational)
        requires
            self.wf(),
            other.wf(),
        ensures
            r.wf(),
            r@ == qadd(self@, other@),
    {
        let ad = Integer::from_natural(&self.den);
        let bd = Integer::from_natural(&other.den);
        let num = self.num.mul(&bd).add(&other.num.mul(&ad));
        let den = self.den.mul(&other.den);
        proof {
            lemma_pos_mul_pos(self.den.val(), other.den.val());
        }
        Rational { num, den }
    }

    /// Exact difference.
    pub fn sub(&self, other: &Rational) -> (r: Rational)
        requires
            self.wf(),
            other.wf(),
        ensures
            r.wf(),
            r@ == qsub(self@, other@),
    {
        let ad = Integer::from_natural(&self.den);
        let bd = Integer::from_natural(&other.den);
        let num = self.num.mul(&bd).sub(&other.num.mul(&ad));
        let den = self.den.mul(&other.den);
        proof {
            lemma_pos_mul_pos(self.den.val(), other.den.val());
        }
        Rational { num, den }
    }

    /// Exact product.
    pub fn mul(&self, other: &Rational) -> (r: Rational)
        requires
            self.wf(),
            other.wf(),
        ensures
            r.wf(),
            r@ == qmul(self@, other@),
    {
        let num = self.num.mul(&other.num);
        let den = self.den.mul(&other.den);
        proof {
            lemma_pos_mul_pos(self.den.val(), other.den.val());
        }
        Rational { num, den }
    }

    /// Exact quotient; the divisor must be non-zero.
    pub fn div(&self, other: &Rational) -> (r: Rational)
        requires
            self.wf(),
            other.wf(),
            other@.n != 0,
        ensures
            r.wf(),
            r@ == qdiv(self@, other@),
    {
        let bd = Integer::from_natural(&other.den);
        let num_signed = self.num.mul(&bd);
        proof {
            other.num.magnitude.lemma_val_nonneg();
        }
        let num = if other.num.negative {
            num_signed.neg()
        } else {
            num_signed
        };
        let den = self.den.mul(&other.num.magnitude);
        proof {
            lemma_pos_mul_pos(self.den.val(), other.num.magnitude.val());
        }
        Rational { num, den }
    }

    /// Exact negation.
    pub fn neg(&self) -> (r: Rational)
        requires
            self.wf(),
        ensures
            r.wf(),
            r@ == qneg(self@),
    {
        Rational { num: self.num.neg(), den: self.den.clone() }
    }

    /// Exact absolute value.
    pub fn abs(&self) -> (r: Rational)
        requires
            self.wf(),
        ensures
            r.wf(),
            r@ == qabs(self@),
    {
        proof {
            self.num.magnitude.lemma_val_nonneg();
        }
        if self.num.negative {
            self.neg()
        } else {
            self.clone()
        }
    }

    /// Three-way comparison of values.
    pub fn cmp(&self, other: &Rational) -> (r: Ord3)
        requires
            self.wf(),
            other.wf(),
        ensures
            r == Ord3::Less <==> qlt(self@, other@),
            r == Ord3::Equal <==> qeq(self@, other@),
            r == Ord3::Greater <==> qlt(other@, self@),
    {
        let ad = Integer::from_natural(&self.den);
        let bd = Integer::from_natural(&other.den);
        let lhs = self.num.mul(&bd);
        let rhs = other.num.mul(&ad);
        let r = lhs.cmp(&rhs);
        r
    }

    /// Value equality.
    pub fn eq_value(&self, other: &Rational) -> (r: bool)
        requires
            self.wf(),
            other.wf(),
        ensures
            r <==> qeq(self@, other@),
    {
        matches!(self.cmp(other), Ord3::Equal)
    }

    /// Exact square root: `Some` exactly when the square of a rational
    /// reproduces the value, which for the unreduced fraction `n / d`
    /// happens exactly when `n * d` is a perfect square.
    pub fn sqrt(&self) -> (r: Option<Rational>)
        requires
            self.wf(),
        ensures
            match r {
                Some(s) => s.wf() && s@.n >= 0 && qeq(qmul(s@, s@), self@) && (exists|k: int| k
                    >= 0 && #[trigger] sq(k) == self@.n * self@.d),
                None => self@.n < 0 || !(exists|k: int| k >= 0 && #[trigger] sq(k) == self@.n
                    * self@.d),
            },
    {
        proof {
            self.num.magnitude.lemma_val_nonneg();
        }
        if self.num.negative {
            return None;
        }
        let t = self.num.magnitude.mul(&self.den);
        let s = t.isqrt();
        proof {
            s.lemma_val_nonneg();
            t.lemma_val_nonneg();
        }
        let s2 = s.mul(&s);
        match s2.cmp(&t) {
            Ord3::Equal => {
                let root = Rational { num: Integer::from_natural(&s), den: self.den.clone() };
                proof {
                    let sv = s.val();
                    let n = self@.n;
                    let d = self@.d;
                    assert(sv * sv == n * d);
                    assert((sv * sv) * (d * d) == (n * d) * (d * d)) by (nonlinear_arith)
                        requires
                            sv * sv == n * d,
                    ;
                    assert((n * d) * (d * d) == n * (d * (d * d))) by (nonlinear_arith);
                    assert((sv * sv) * d * d == (sv * sv) * (d * d)) by (nonlinear_arith);
                    assert(qeq(qmul(root@, root@), self@)) by (nonlinear_arith)
                        requires
                            sv * sv == n * d,
                            root@ == (Qv { n: sv, d: d }),
                            self@ == (Qv { n: n, d: d }),
                            d > 0,
                    ;
                    assert(sq(sv) == n * d);
                }
                Some(root)
            },
            _ => {
                proof {
                    let tv = t.val();
                    let sv = s.val();
                    if exists|k: int| k >= 0 && #[trigger] sq(k) == self@.n * self@.d {
                        let k = choose|k: int| k >= 0 && #[trigger] sq(k) == self@.n * self@.d;
                        assert(sq(k) == tv);
                        if k <= sv {
                            assert(k * k <= sv * sv) by (nonlinear_arith)
                                requires
                                    0 <= k <= sv,
                            ;
                            assert(false);
                        } else {
                            assert(k * k >= (sv + 1) * (sv + 1)) by (nonlinear_arith)
                                requires
                                    k >= sv + 1,
                                    sv >= 0,
                            ;
                            assert(false);
                        }
                    }
                }
                None
            },
        }
    }
}

/// Value equality is transitive; the middle denominator must be positive.
pub proof fn lemma_qeq_trans(a: Qv, b: Qv, c: Qv)
    requires
        b.d > 0,
        qeq(a, b),
        qeq(b, c),
    ensures
        qeq(a, c),
{
    assert(a.n * c.d == c.n * a.d) by (nonlinear_arith)
        requires
            a.n * b.d == b.n * a.d,
            b.n * c.d == c.n * b.d,
            b.d > 0,
    ;
}

/// Rearranging a product of two products, inner factors exchanged.
pub proof fn lemma_mul_exchange(p: int, q: int, r: int, s: int)
    ensures
        (p * q) * (r * s) == (p * r) * (q * s),
{
    assert((p * q) * (r * s) == (p * r) * (q * s)) by (nonlinear_arith);
}

/// Rearranging a product of two products, outer factors exchanged.
pub proof fn lemma_mul_exchange_outer(p: int, q: int, r: int, s: int)
    ensures
        (p * q) * (r * s) == (p * s) * (q * r),
{
    assert((p * q) * (r * s) == (p * s) * (q * r)) by (nonlinear_arith);
}

/// Sums of equal values are equal.
pub proof fn lemma_qadd_congruence(a: Qv, b: Qv, x: Qv, y: Qv)
    requires
        a.d > 0,
        b.d > 0,
        x.d > 0,
        y.d > 0,
        qeq(a, x),
        qeq(b, y),
    ensures
        qeq(qadd(a, b), qadd(x, y)),
{
    vstd::arithmetic::mul::lemma_mul_is_distributive_add_other_way(
        x.d * y.d,
        a.n * b.d,
        b.n * a.d,
    );
    lemma_mul_exchange(a.n, b.d, x.d, y.d);
    lemma_mul_exchange_outer(b.n, a.d, x.d, y.d);
    lemma_mul_exchange_outer(x.n, a.d, b.d, y.d);
    lemma_mul_exchange_outer(y.n, b.d, a.d, x.d);
    vstd::arithmetic::mul::lemma_mul_is_commutative(b.d, a.d);
    vstd::arithmetic::mul::lemma_mul_is_distributive_add_other_way(
        a.d * b.d,
        x.n * y.d,
        y.n * x.d,
    );
}

/// Differences of equal values are equal.
pub proof fn lemma_qsub_congruence(a: Qv, b: Qv, x: Qv, y: Qv)
    requires
        a.d > 0,
        b.d > 0,
        x.d > 0,
        y.d > 0,
        qeq(a, x),
        qeq(b, y),
    ensures
        qeq(qsub(a, b), qsub(x, y)),
{
    vstd::arithmetic::mul::lemma_mul_is_distributive_sub_other_way(
        x.d * y.d,
        a.n * b.d,
        b.n * a.d,
    );
    lemma_mul_exchange(a.n, b.d, x.d, y.d);
    lemma_mul_exchange_outer(b.n, a.d, x.d, y.d);
    lemma_mul_exchange_outer(x.n, a.d, b.d, y.d);
    lemma_mul_exchange_outer(y.n, b.d, a.d, x.d);
    vstd::arithmetic::mul::lemma_mul_is_commutative(b.d, a.d);
    vstd::arithmetic::mul::lemma_mul_is_distributive_sub_other_way(
        a.d * b.d,
        x.n * y.d,
        y.n * x.d,
    );
}

/// Products of equal values are equal.
pub proof fn lemma_qmul_congruence(a: Qv, b: Qv, x: Qv, y: Qv)
    requires
        a.d > 0,
        b.d > 0,
        x.d > 0,
        y.d > 0,
        qeq(a, x),
        qeq(b, y),
    ensures
        qeq(qmul(a, b), qmul(x, y)),
{
    assert((a.n * b.n) * (x.d * y.d) == (x.n * y.n) * (a.d * b.d)) by (nonlinear_arith)
        requires
            a.n * x.d == x.n * a.d,
            b.n * y.d == y.n * b.d,
    ;
}

/// The order relation respects value equality.
pub proof fn lemma_qle_congruence(a: Qv, b: Qv, x: Qv, y: Qv)
    requires
        a.d > 0,
        b.d > 0,
        x.d > 0,
        y.d > 0,
        qeq(a, x),
        qeq(b, y),
    ensures
        qle(a, b) <==> qle(x, y),
        qlt(a, b) <==> qlt(x, y),
{
    assert((a.n * b.d <= b.n * a.d <==> x.n * y.d <= y.n * x.d) && (a.n * b.d < b.n * a.d <==> x.n
        * y.d < y.n * x.d)) by (nonlinear_arith)
        requires
            a.n * x.d == x.n * a.d,
            b.n * y.d == y.n * b.d,
            a.d > 0,
            b.d > 0,
            x.d > 0,
            y.d > 0,
    ;
}

/// A non-strict bound followed by a strict one stays strict.
pub proof fn lemma_qle_qlt_trans(a: Qv, b: Qv, c: Qv)
    requires
        a.d > 0,
        b.d > 0,
        c.d > 0,
        qle(a, b),
        qlt(b, c),
    ensures
        qlt(a, c),
{
    assert(a.n * c.d < c.n * a.d) by (nonlinear_arith)
        requires
            a.n * b.d <= b.n * a.d,
            b.n * c.d < c.n * b.d,
            a.d > 0,
            b.d > 0,
            c.d > 0,
    ;
}

/// A strict bound followed by a non-strict one stays strict.
pub proof fn lemma_qlt_qle_trans(a: Qv, b: Qv, c: Qv)
    requires
        a.d > 0,
        b.d > 0,
        c.d > 0,
        qlt(a, b),
        qle(b, c),
    ensures
        qlt(a, c),
{
    assert(a.n * c.d < c.n * a.d) by (nonlinear_arith)
        requires
            a.n * b.d < b.n * a.d,
            b.n * c.d <= c.n * b.d,
            a.d > 0,
            b.d > 0,
            c.d > 0,
    ;
}

/// The order is transitive; the middle denominator must be positive.
pub proof fn lemma_qle_trans(a: Qv, b: Qv, c: Qv)
    requires
        a.d > 0,
        b.d > 0,
        c.d > 0,
        qle(a, b),
        qle(b, c),
    ensures
        qle(a, c),
{
    assert(a.n * c.d <= c.n * a.d) by (nonlinear_arith)
        requires
            a.n * b.d <= b.n * a.d,
            b.n * c.d <= c.n * b.d,
            a.d > 0,
            b.d > 0,
            c.d > 0,
    ;
}

/// Subtracting in the other order negates the value.
pub proof fn lemma_qsub_antisym(a: Qv, b: Qv)
    requires
        a.d > 0,
        b.d > 0,
    ensures
        qeq(qsub(a, b), qneg(qsub(b, a))),
{
    assert((a.n * b.d - b.n * a.d) * (b.d * a.d) == -(b.n * a.d - a.n * b.d) * (a.d * b.d))
        by (nonlinear_arith);
}

/// Squares of values equal up to sign are equal.
pub proof fn lemma_square_of_neg(a: Qv, b: Qv)
    requires
        a.d > 0,
        b.d > 0,
        qeq(a, qneg(b)),
    ensures
        qeq(qmul(a, a), qmul(b, b)),
{
    assert((a.n * a.n) * (b.d * b.d) == (b.n * b.n) * (a.d * a.d)) by (nonlinear_arith)
        requires
            a.n * b.d == -b.n * a.d,
    ;
}

/// Adding an exact zero does not change the value.
pub proof fn lemma_qadd_zero(a: Qv, z: Qv)
    requires
        a.d > 0,
        z.d > 0,
        qeq(z, qzero()),
    ensures
        qeq(qadd(a, z), a),
{
    assert((a.n * z.d + z.n * a.d) * a.d == a.n * (a.d * z.d)) by (nonlinear_arith)
        requires
            z.n == 0,
    ;
    assert(z.n * 1 == 0 * z.d ==> z.n == 0) by (nonlinear_arith);
}

/// A product with an exact zero is an exact zero.
pub proof fn lemma_qmul_zero(a: Qv, z: Qv)
    requires
        a.d > 0,
        z.d > 0,
        qeq(z, qzero()),
    ensures
        qeq(qmul(a, z), qzero()),
{
    assert(z.n * 1 == 0 * z.d ==> z.n == 0) by (nonlinear_arith);
    assert((a.n * z.n) * 1 == 0 * (a.d * z.d)) by (nonlinear_arith)
        requires
            z.n == 0,
    ;
}

/// Well-formedness of the spec-level operations.
pub proof fn lemma_q_ops_wf(a: Qv, b: Qv)
    requires
        a.d > 0,
        b.d > 0,
    ensures
        qadd(a, b).d > 0,
        qsub(a, b).d > 0,
        qmul(a, b).d > 0,
        qneg(a).d > 0,
        qabs(a).d > 0,
{
    lemma_pos_mul_pos(a.d, b.d);
}

/// The product of two positive integers is positive.
pub proof fn lemma_pos_mul_pos(a: int, b: int)
    requires
        a > 0,
        b > 0,
    ensures
        a * b > 0,
{
    assert(a * b > 0) by (nonlinear_arith)
        requires
            a > 0,
            b > 0,
    ;
}

} // verus!
