//! A vector in three dimensions whose components are dimensioned
//! quantities of one common dimension.

use vstd::prelude::*;
use crate::arith::rational::Rational;
use crate::arith::rational::Qv;
use crate::arith::rational::qadd;
use crate::arith::rational::qsub;
use crate::arith::rational::qmul;
use crate::arith::rational::qdiv;
use crate::arith::rational::qneg;
use crate::arith::rational::qeq;
use crate::arith::rational::sq;
use crate::units::Dim;
use crate::units::Quantity;
use crate::units::dim_sum;
use crate::units::dim_sum_ok;
use crate::units::dim_half;
use crate::units::dim_even;

verus! {

/// Index enum for accessing a vector's components by name.
pub enum VecIdx {
    X,
    Y,
    Z,
}

/// The ghost value of a vector: a common dimension and three exact
/// component magnitudes.
pub struct V3 {
    pub dim: Dim,
    pub x: Qv,
    pub y: Qv,
    pub z: Qv,
}

/// A vector in 3 dimensions.
///
/// All three components carry the same physical dimension; the
/// well-formedness predicate pins that down.
pub struct Vec3D {
    pub x: Quantity,
    pub y: Quantity,
    pub z: Quantity,
}

impl View for Vec3D {
    type V = V3;

    open spec fn view(&self) -> V3 {
        V3 { dim: self.x.dim, x: self.x.value@, y: self.y.value@, z: self.z.value@ }
    }
}

impl Clone for Vec3D {
    fn clone(&self) -> (r: Self)
        ensures
            r.wf() == self.wf(),
            r@ == self@,
    {
        Vec3D { x: self.x.clone(), y: self.y.clone(), z: self.z.clone() }
    }
}

/// The exact squared norm of a ghost vector.
pub open spec fn norm2_val(v: V3) -> Qv {
    qadd(qadd(qmul(v.x, v.x), qmul(v.y, v.y)), qmul(v.z, v.z))
}

impl Vec3D {
    /// The representation invariant: well-formed components of one
    /// common dimension.
    pub open spec fn wf(&self) -> bool {
        &&& self.x.wf()
        &&& self.y.wf()
        &&& self.z.wf()
        &&& self.x.dim == self.y.dim
        &&& self.x.dim == self.z.dim
    }

    /// The common dimension of the components.
    pub open spec fn dim(&self) -> Dim {
        self.x.dim
    }

    /// A vector from three quantities of one dimension.
    pub fn new(x: Quantity, y: Quantity, z: Quantity) -> (r: Vec3D)
        requires
            x.wf(),
            y.wf(),
            z.wf(),
            x.dim == y.dim,
            x.dim == z.dim,
        ensures
            r.wf(),
            r@ == (V3 { dim: x.dim, x: x.value@, y: y.value@, z: z.value@ }),
    {
        Vec3D { x, y, z }
    }

    /// A vector of one dimension from three raw magnitudes.
    pub fn from(dim: Dim, x: Rational, y: Rational, z: Rational) -> (r: Vec3D)
        requires
            x.wf(),
            y.wf(),
            z.wf(),
        ensures
            r.wf(),
            r@ == (V3 { dim: dim, x: x@, y: y@, z: z@ }),
    {
        Vec3D {
            x: Quantity::new(dim, x),
            y: Quantity::new(dim, y),
            z: Quantity::new(dim, z),
        }
    }

    /// The zero vector of a dimension.
    pub fn zero(dim: Dim) -> (r: Vec3D)
        ensures
            r.wf(),
            r@.dim == dim,
            r@.x == crate::arith::rational::qzero(),
            r@.y == crate::arith::rational::qzero(),
            r@.z == crate::arith::rational::qzero(),
    {
        Vec3D { x: Quantity::zero(dim), y: Quantity::zero(dim), z: Quantity::zero(dim) }
    }

    /// The component selected by a [`VecIdx`].
    pub fn get(&self, index: VecIdx) -> (r: &Quantity)
        ensures
            r == match index {
                VecIdx::X => &self.x,
                VecIdx::Y => &self.y,
                VecIdx::Z => &self.z,
            },
    {
        match index {
            VecIdx::X => &self.x,
            VecIdx::Y => &self.y,
            VecIdx::Z => &self.z,
        }
    }

    /// Componentwise addition of vectors of one dimension.
    pub fn add(&self, other: &Vec3D) -> (r: Vec3D)
        requires
            self.wf(),
            other.wf(),
            self@.dim == other@.dim,
        ensures
            r.wf(),
            r@ == (V3 {
                dim: self@.dim,
                x: qadd(self@.x, other@.x),
                y: qadd(self@.y, other@.y),
                z: qadd(self@.z, other@.z),
            }),
    {
        Vec3D { x: self.x.add(&other.x), y: self.y.add(&other.y), z: self.z.add(&other.z) }
    }

    /// Componentwise subtraction of vectors of one dimension.
    pub fn sub(&self, other: &Vec3D) -> (r: Vec3D)
        requires
            self.wf(),
            other.wf(),
            self@.dim == other@.dim,
        ensures
            r.wf(),
            r@ == (V3 {
                dim: self@.dim,
                x: qsub(self@.x, other@.x),
                y: qsub(self@.y, other@.y),
                z: qsub(self@.z, other@.z),
            }),
    {
        Vec3D { x: self.x.sub(&other.x), y: self.y.sub(&other.y), z: self.z.sub(&other.z) }
    }

    /// Componentwise negation.
    pub fn neg(&self) -> (r: Vec3D)
        requires
            self.wf(),
        ensures
            r.wf(),
            r@ == (V3 {
                dim: self@.dim,
                x: qneg(self@.x),
                y: qneg(self@.y),
                z: qneg(self@.z),
            }),
    {
        Vec3D { x: self.x.neg(), y: self.y.neg(), z: self.z.neg() }
    }

    /// Scaling by a dimensionless factor.
    pub fn scale(&self, factor: &Rational) -> (r: Vec3D)
        requires
            self.wf(),
            factor.wf(),
        ensures
            r.wf(),
            r@ == (V3 {
                dim: self@.dim,
                x: qmul(self@.x, factor@),
                y: qmul(self@.y, factor@),
                z: qmul(self@.z, factor@),
            }),
    {
        Vec3D {
            x: self.x.scale(factor),
            y: self.y.scale(factor),
            z: self.z.scale(factor),
        }
    }

    /// Multiplication by a scalar quantity; the dimensions compose.
    pub fn mul(&self, other: &Quantity) -> (r: Vec3D)
        requires
            self.wf(),
            other.wf(),
            dim_sum_ok(self@.dim, other.dim),
        ensures
            r.wf(),
            r@ == (V3 {
                dim: dim_sum(self@.dim, other.dim),
                x: qmul(self@.x, other.value@),
                y: qmul(self@.y, other.value@),
                z: qmul(self@.z, other.value@),
            }),
    {
        Vec3D { x: self.x.mul(other), y: self.y.mul(other), z: self.z.mul(other) }
    }

    /// Division by a scalar quantity; the dimensions compose.
    pub fn div(&self, other: &Quantity) -> (r: Vec3D)
        requires
            self.wf(),
            other.wf(),
            other.value@.n != 0,
            crate::units::dim_diff_ok(self@.dim, other.dim),
        ensures
            r.wf(),
            r@ == (V3 {
                dim: crate::units::dim_diff(self@.dim, other.dim),
                x: qdiv(self@.x, other.value@),
                y: qdiv(self@.y, other.value@),
                z: qdiv(self@.z, other.value@),
            }),
    {
        Vec3D { x: self.x.div(other), y: self.y.div(other), z: self.z.div(other) }
    }

    /// Dot product; the dimensions compose.
    pub fn dot(&self, other: &Vec3D) -> (r: Quantity)
        requires
            self.wf(),
            other.wf(),
            dim_sum_ok(self@.dim, other@.dim),
        ensures
            r.wf(),
            r.dim == dim_sum(self@.dim, other@.dim),
            r.value@ == qadd(
                qadd(qmul(self@.x, other@.x), qmul(self@.y, other@.y)),
                qmul(self@.z, other@.z),
            ),
    {
        self.x.mul(&other.x).add(&self.y.mul(&other.y)).add(&self.z.mul(&other.z))
    }

    /// Cross product; the dimensions compose.
    pub fn cross(&self, other: &Vec3D) -> (r: Vec3D)
        requires
            self.wf(),
            other.wf(),
            dim_sum_ok(self@.dim, other@.dim),
        ensures
            r.wf(),
            r@ == (V3 {
                dim: dim_sum(self@.dim, other@.dim),
                x: qsub(qmul(self@.y, other@.z), qmul(self@.z, other@.y)),
                y: qsub(qmul(self@.z, other@.x), qmul(self@.x, other@.z)),
                z: qsub(qmul(self@.x, other@.y), qmul(self@.y, other@.x)),
            }),
    {
        Vec3D {
            x: self.y.mul(&other.z).sub(&self.z.mul(&other.y)),
            y: self.z.mul(&other.x).sub(&self.x.mul(&other.z)),
            z: self.x.mul(&other.y).sub(&self.y.mul(&other.x)),
        }
    }

    /// The exact squared cartesian norm.
    pub fn norm2(&self) -> (r: Quantity)
        requires
            self.wf(),
            dim_sum_ok(self@.dim, self@.dim),
        ensures
            r.wf(),
            r.dim == dim_sum(self@.dim, self@.dim),
            r.value@ == norm2_val(self@),
    {
        self.x.mul(&self.x).add(&self.y.mul(&self.y)).add(&self.z.mul(&self.z))
    }

    /// The cartesian norm, where it is an exact rational.
    pub fn norm(&self) -> (r: Option<Quantity>)
        requires
            self.wf(),
            dim_sum_ok(self@.dim, self@.dim),
            dim_even(dim_sum(self@.dim, self@.dim)),
        ensures
            match r {
                Some(s) => s.wf() && s.dim == dim_half(dim_sum(self@.dim, self@.dim))
                    && s.value@.n >= 0 && qeq(qmul(s.value@, s.value@), norm2_val(self@)) && (
                exists|k: int| k >= 0 && #[trigger] sq(k) == norm2_val(self@).n * norm2_val(
                    self@,
                ).d),
                None => !(exists|k: int| k >= 0 && #[trigger] sq(k) == norm2_val(self@).n
                    * norm2_val(self@).d),
            },
    {
        let n2 = self.norm2();
        let r = n2.sqrt();
        proof {
            if r is None {
                let q = norm2_val(self@);
                crate::arith::rational::lemma_pos_mul_pos(q.d, q.d);
                lemma_norm2_nonneg(self@);
                assert(q.n * q.d >= 0) by (nonlinear_arith)
                    requires
                        q.n >= 0,
                        q.d > 0,
                ;
                if q.n < 0 {
                    assert(false);
                }
            }
        }
        r
    }

    /// Normalise in place, dividing each component by the norm's
    /// magnitude: the result keeps the vector's dimension and has norm
    /// one in the vector's own unit.  Fails, leaving the vector
    /// untouched, when the vector is zero or its norm is irrational.
    pub fn normalize(&mut self) -> (ok: bool)
        requires
            old(self).wf(),
            dim_sum_ok(old(self)@.dim, old(self)@.dim),
            dim_even(dim_sum(old(self)@.dim, old(self)@.dim)),
        ensures
            final(self).wf(),
            final(self)@.dim == old(self)@.dim,
            ok <==> norm2_val(old(self)@).n != 0 && (exists|k: int| k >= 0 && #[trigger] sq(k)
                == norm2_val(old(self)@).n * norm2_val(old(self)@).d),
            ok ==> exists|s: Qv|
                {
                    &&& s.d > 0
                    &&& s.n > 0
                    &&& qeq(qmul(s, s), norm2_val(old(self)@))
                    &&& final(self)@.x == qdiv(old(self)@.x, s)
                    &&& final(self)@.y == qdiv(old(self)@.y, s)
                    &&& final(self)@.z == #[trigger] qdiv(old(self)@.z, s)
                },
            !ok ==> final(self)@ == old(self)@,
    {
        proof {
            lemma_norm2_nonneg(self@);
        }
        match self.norm() {
            Some(n) => {
                if n.value.is_zero() {
                    proof {
                        let s = n.value@;
                        let q = norm2_val(self@);
                        assert(q.n * (s.d * s.d) == (s.n * s.n) * q.d && s.n == 0 ==> q.n * (s.d
                            * s.d) == 0) by (nonlinear_arith);
                        assert(q.n * (s.d * s.d) == 0 ==> q.n == 0) by (nonlinear_arith)
                            requires
                                s.d > 0,
                        ;
                    }
                    false
                } else {
                    let ghost s = n.value@;
                    proof {
                        let q = norm2_val(self@);
                        assert((s.n * s.n) * q.d == q.n * (s.d * s.d));
                        assert(s.n != 0 && s.d > 0 && q.d > 0 ==> (s.n * s.n) * q.d != 0)
                            by (nonlinear_arith);
                        assert(q.n * (s.d * s.d) != 0 ==> q.n != 0) by (nonlinear_arith);
                    }
                    self.x = Quantity::new(self.x.dim, self.x.value.div(&n.value));
                    self.y = Quantity::new(self.y.dim, self.y.value.div(&n.value));
                    self.z = Quantity::new(self.z.dim, self.z.value.div(&n.value));
                    proof {
                        assert(s.n > 0 && s.d > 0 && qeq(qmul(s, s), norm2_val(old(self)@))
                            && final(self)@.x == qdiv(old(self)@.x, s) && final(self)@.y == qdiv(
                            old(self)@.y,
                            s,
                        ) && final(self)@.z == qdiv(old(self)@.z, s));
                    }
                    true
                }
            },
            None => false,
        }
    }

    /// Normalise after taking ownership.
    pub fn normalize_into(self) -> (r: Option<Vec3D>)
        requires
            self.wf(),
            dim_sum_ok(self@.dim, self@.dim),
            dim_even(dim_sum(self@.dim, self@.dim)),
        ensures
            r is Some <==> norm2_val(self@).n != 0 && (exists|k: int| k >= 0 && #[trigger] sq(k)
                == norm2_val(self@).n * norm2_val(self@).d),
            match r {
                Some(v) => v.wf() && v@.dim == self@.dim && exists|s: Qv|
                    {
                        &&& s.d > 0
                        &&& s.n > 0
                        &&& qeq(qmul(s, s), norm2_val(self@))
                        &&& v@.x == qdiv(self@.x, s)
                        &&& v@.y == qdiv(self@.y, s)
                        &&& v@.z == #[trigger] qdiv(self@.z, s)
                    },
                None => true,
            },
    {
        let mut v = self;
        if v.normalize() {
            Some(v)
        } else {
            None
        }
    }

    /// A new, normalised vector.
    pub fn normalized(&self) -> (r: Option<Vec3D>)
        requires
            self.wf(),
            dim_sum_ok(self@.dim, self@.dim),
            dim_even(dim_sum(self@.dim, self@.dim)),
        ensures
            r is Some <==> norm2_val(self@).n != 0 && (exists|k: int| k >= 0 && #[trigger] sq(k)
                == norm2_val(self@).n * norm2_val(self@).d),
            match r {
                Some(v) => v.wf() && v@.dim == self@.dim && exists|s: Qv|
                    {
                        &&& s.d > 0
                        &&& s.n > 0
                        &&& qeq(qmul(s, s), norm2_val(self@))
                        &&& v@.x == qdiv(self@.x, s)
                        &&& v@.y == qdiv(self@.y, s)
                        &&& v@.z == #[trigger] qdiv(self@.z, s)
                    },
                None => true,
            },
    {
        self.clone().normalize_into()
    }
}

/// A squared norm is never negative.
pub proof fn lemma_norm2_nonneg(v: V3)
    requires
        v.x.d > 0,
        v.y.d > 0,
        v.z.d > 0,
    ensures
        norm2_val(v).n >= 0,
        norm2_val(v).d > 0,
{
    let q = norm2_val(v);
    assert(q.n == (v.x.n * v.x.n) * (v.y.d * v.y.d) * (v.z.d * v.z.d) + (v.y.n * v.y.n) * (v.x.d
        * v.x.d) * (v.z.d * v.z.d) + (v.z.n * v.z.n) * ((v.x.d * v.x.d) * (v.y.d * v.y.d)) && q.n
        >= 0 && q.d > 0) by (nonlinear_arith)
        requires
            v.x.d > 0,
            v.y.d > 0,
            v.z.d > 0,
            q == norm2_val(v),
    ;
}

} // verus!
