//! Arbitrary-precision signed integers: a sign and a natural magnitude.

use vstd::prelude::*;
use crate::arith::natural::Natural;
use crate::arith::natural::Ord3;

verus! {

/// An arbitrary-precision signed integer.
///
/// Canonical form: zero is never negative.
pub struct Integer {
    pub negative: bool,
    pub magnitude: Natural,
}

impl Clone for Integer {
    fn clone(&self) -> (r: Self)
        ensures
            r.wf() == self.wf(),
            r.val() == self.val(),
    {
        Integer { negative: self.negative, magnitude: self.magnitude.clone() }
    }
}

impl Integer {
    /// The representation invariant.
    pub open spec fn wf(&self) -> bool {
        self.magnitude.wf() && (self.magnitude.val() == 0 ==> !self.negative)
    }

    /// The mathematical value.
    pub open spec fn val(&self) -> int {
        if self.negative {
            -self.magnitude.val()
        } else {
            self.magnitude.val()
        }
    }

    /// Zero.
    pub fn zero() -> (r: Integer)
        ensures
            r.wf(),
            r.val() == 0,
    {
        Integer { negative: false, magnitude: Natural::zero() }
    }

    /// A nonnegative integer from a machine word.
    pub fn from_u64(x: u64) -> (r: Integer)
        ensures
            r.wf(),
            r.val() == x,
    {
        Integer { negative: false, magnitude: Natural::from_u64(x) }
    }

    /// A nonnegative integer from a natural.
    pub fn from_natural(n: &Natural) -> (r: Integer)
        requires
            n.wf(),
        ensures
            r.wf(),
            r.val() == n.val(),
    {
        proof {
            n.lemma_val_nonneg();
        }
        Integer { negative: false, magnitude: n.clone() }
    }

    /// Restore the canonical form: zero is not negative.
    pub fn from_sign_magnitude(negative: bool, magnitude: Natural) -> (r: Integer)
        requires
            magnitude.wf(),
        ensures
            r.wf(),
            r.val() == if negative {
                -magnitude.val()
            } else {
                magnitude.val()
            },
    {
        if magnitude.is_zero() {
            Integer { negative: false, magnitude }
        } else {
            Integer { negative, magnitude }
        }
    }

    /// Whether this integer is zero.
    pub fn is_zero(&self) -> (r: bool)
        requires
            self.wf(),
        ensures
            r <==> self.val() == 0,
    {
        self.magnitude.is_zero()
    }

    /// Negation.
    pub fn neg(&self) -> (r: Integer)
        requires
            self.wf(),
        ensures
            r.wf(),
            r.val() == -self.val(),
    {
        Integer::from_sign_magnitude(!self.negative, self.magnitude.clone())
    }

    /// Addition.
    pub fn add(&self, other: &Integer) -> (r: Integer)
        requires
            self.wf(),
            other.wf(),
        ensures
            r.wf(),
            r.val() == self.val() + other.val(),
    {
        proof {
            self.magnitude.lemma_val_nonneg();
            other.magnitude.lemma_val_nonneg();
        }
        if self.negative == other.negative {
            let magnitude = self.magnitude.add(&other.magnitude);
            Integer::from_sign_magnitude(self.negative, magnitude)
        } else {
            match self.magnitude.cmp(&other.magnitude) {
                Ord3::Less => {
                    let magnitude = other.magnitude.sub(&self.magnitude);
                    Integer::from_sign_magnitude(other.negative, magnitude)
                },
                Ord3::Equal => Integer::zero(),
                Ord3::Greater => {
                    let magnitude = self.magnitude.sub(&other.magnitude);
                    Integer::from_sign_magnitude(self.negative, magnitude)
                },
            }
        }
    }

    /// Subtraction.
    pub fn sub(&self, other: &Integer) -> (r: Integer)
        requires
            self.wf(),
            other.wf(),
        ensures
            r.wf(),
            r.val() == self.val() - other.val(),
    {
        self.add(&other.neg())
    }

    /// Multiplication.
    pub fn mul(&self, other: &Integer) -> (r: Integer)
        requires
            self.wf(),
            other.wf(),
        ensures
            r.wf(),
            r.val() == self.val() * other.val(),
    {
        let magnitude = self.magnitude.mul(&other.magnitude);
        let negative = self.negative != other.negative;
        proof {
            let ma = self.magnitude.val();
            let mb = other.magnitude.val();
            assert((-ma) * mb == -(ma * mb) && ma * (-mb) == -(ma * mb) && (-ma) * (-mb) == ma * mb)
                by (nonlinear_arith);
        }
        Integer::from_sign_magnitude(negative, magnitude)
    }

    /// Three-way comparison.
    pub fn cmp(&self, other: &Integer) -> (r: Ord3)
        requires
            self.wf(),
            other.wf(),
        ensures
            r == Ord3::Less <==> self.val() < other.val(),
            r == Ord3::Equal <==> self.val() == other.val(),
            r == Ord3::Greater <==> self.val() > other.val(),
    {
        proof {
            self.magnitude.lemma_val_nonneg();
            other.magnitude.lemma_val_nonneg();
        }
        if !self.negative && !other.negative {
            self.magnitude.cmp(&other.magnitude)
        } else if self.negative && other.negative {
            other.magnitude.cmp(&self.magnitude)
        } else if self.negative {
            Ord3::Less
        } else {
            Ord3::Greater
        }
    }
}

} // verus!
