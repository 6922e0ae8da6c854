//! Boundary conditions of a simulation: squared distances under open
//! space or periodic triclinic boxes, and the consistency check that
//! justifies the minimum image convention before a neighbourlist build.

use vstd::prelude::*;
use crate::arith::natural::Ord3;
use crate::arith::rational::Rational;
use crate::arith::rational::Qv;
use crate::arith::rational::qzero;
use crate::arith::rational::q_int;
use crate::arith::rational::qadd;
use crate::arith::rational::qsub;
use crate::arith::rational::qmul;
use crate::arith::rational::qneg;
use crate::arith::rational::qeq;
use crate::arith::rational::qlt;
use crate::arith::rational::qle;
use crate::arith::rational::qmin;
use crate::arith::rational::sq;
use crate::arith::rational::lemma_qeq_trans;
use crate::arith::rational::lemma_qadd_congruence;
use crate::arith::rational::lemma_qmul_congruence;
use crate::arith::rational::lemma_qle_congruence;
use crate::arith::rational::lemma_qle_trans;
use crate::arith::rational::lemma_qsub_antisym;
use crate::arith::rational::lemma_square_of_neg;
use crate::arith::rational::lemma_qadd_zero;
use crate::arith::rational::lemma_q_ops_wf;
use crate::units::Quantity;
use crate::units::dim_length;
use crate::units::dim_area;
use crate::geom::vec3d::Vec3D;
use crate::geom::vec3d::V3;
use crate::geom::vec3d::norm2_val;
use crate::geom::vec3d::lemma_norm2_nonneg;
use crate::result::Error;
use crate::result::Result;

verus! {

broadcast use vstd::arithmetic::mul::group_mul_basics;

/// An optional cutoff length.
pub type Cutoff = Option<Quantity>;

/// The ghost value of an optional cutoff.
pub open spec fn cutoff_view(c: Option<Quantity>) -> Option<Qv> {
    match c {
        None => None,
        Some(q) => Some(q.value@),
    }
}

/// Whether an optional cutoff is a well-formed length.
pub open spec fn cutoff_wf(c: Option<Quantity>) -> bool {
    match c {
        None => true,
        Some(q) => q.wf() && q.dim == dim_length(),
    }
}

/// Whether all components of a ghost vector have positive denominators.
pub open spec fn v3_wf(v: V3) -> bool {
    v.x.d > 0 && v.y.d > 0 && v.z.d > 0
}

/// The open-space separation vector from `a` to `b`.
pub open spec fn open_delta(a: V3, b: V3) -> V3 {
    V3 { dim: b.dim, x: qsub(b.x, a.x), y: qsub(b.y, a.y), z: qsub(b.z, a.z) }
}

/// The open-space squared distance.
pub open spec fn open_d2(a: V3, b: V3) -> Qv {
    norm2_val(open_delta(a, b))
}

/// Boundary conditions of a simulation.
///
/// Implementations give the squared distance between two points and the
/// check that the minimum image convention is justified for a cutoff.
pub trait BoundaryConditions: Sized {
    /// Whether the boundary description itself is well-formed.
    spec fn wf(&self) -> bool;

    /// The ghost squared distance between two points.
    spec fn dist2_spec(&self, a: V3, b: V3) -> Qv;

    /// Whether the minimum image convention is justified for a cutoff.
    spec fn mic_ok(&self, cutoff: Option<Qv>) -> bool;

    /// Compute the squared distance between two points.
    fn dist2(&self, a: &Vec3D, b: &Vec3D) -> (r: Quantity)
        requires
            self.wf(),
            a.wf(),
            b.wf(),
            a@.dim == dim_length(),
            b@.dim == dim_length(),
        ensures
            r.wf(),
            r.dim == dim_area(),
            r.value@ == self.dist2_spec(a@, b@),
    ;

    /// Compute the distance between two points, where it is an exact
    /// rational: the square root of the squared distance.  Fails exactly
    /// when that root is irrational.
    fn dist(&self, a: &Vec3D, b: &Vec3D) -> (r: Option<Quantity>)
        requires
            self.wf(),
            a.wf(),
            b.wf(),
            a@.dim == dim_length(),
            b@.dim == dim_length(),
        ensures
            match r {
                Some(s) => s.wf() && s.dim == dim_length() && s.value@.n >= 0 && qeq(
                    qmul(s.value@, s.value@),
                    self.dist2_spec(a@, b@),
                ),
                None => !(exists|k: int| k >= 0 && #[trigger] sq(k) == self.dist2_spec(a@, b@).n
                    * self.dist2_spec(a@, b@).d),
            },
    ;

    /// The consistency check run before a neighbourlist build: succeeds
    /// exactly when the minimum image convention is justified for the
    /// cutoff.
    fn pairlist_checks(&self, cutoff: &Cutoff) -> (r: Result<()>)
        requires
            self.wf(),
            cutoff_wf(*cutoff),
        ensures
            r is Ok <==> self.mic_ok(cutoff_view(*cutoff)),
            r is Err ==> r->Err_0 is MinimumImageConventionNotJustified,
    ;
}

/// No boundary conditions: particles are in an infinite box.
pub struct NoBounds;

impl BoundaryConditions for NoBounds {
    open spec fn wf(&self) -> bool {
        true
    }

    open spec fn dist2_spec(&self, a: V3, b: V3) -> Qv {
        open_d2(a, b)
    }

    /// Unbounded space justifies the minimum image convention always.
    open spec fn mic_ok(&self, cutoff: Option<Qv>) -> bool {
        true
    }

    fn dist2(&self, a: &Vec3D, b: &Vec3D) -> (r: Quantity) {
        b.sub(a).norm2()
    }

    fn dist(&self, a: &Vec3D, b: &Vec3D) -> (r: Option<Quantity>) {
        let r = self.dist2(a, b).sqrt();
        proof {
            if r is None {
                lemma_dist2_open_properties(a@, b@);
            }
        }
        r
    }

    fn pairlist_checks(&self, cutoff: &Cutoff) -> (r: Result<()>) {
        Ok(())
    }
}

/// Periodic boundary conditions.
///
/// Particles are in a triclinic box that neighbours itself ad infinitum.
/// Distances follow the minimum image convention over the 27 images
/// reachable by at most one box vector per axis; boxes are stored as box
/// vectors.
///
/// Only boxes with exactly representable vectors can be built here:
/// rhombic dodecahedral boxes need irrational components (square roots
/// of two, three and six), which exact rational magnitudes cannot hold,
/// so no constructor offers them.
pub struct Pbc(pub Vec3D, pub Vec3D, pub Vec3D);

/// The image of a separation vector shifted by `i`, `j` and `k` copies
/// of the three box vectors.
pub open spec fn image_delta(d: V3, v1: V3, v2: V3, v3: V3, i: int, j: int, k: int) -> V3 {
    V3 {
        dim: d.dim,
        x: qadd(
            qadd(qadd(d.x, qmul(v1.x, q_int(i))), qmul(v2.x, q_int(j))),
            qmul(v3.x, q_int(k)),
        ),
        y: qadd(
            qadd(qadd(d.y, qmul(v1.y, q_int(i))), qmul(v2.y, q_int(j))),
            qmul(v3.y, q_int(k)),
        ),
        z: qadd(
            qadd(qadd(d.z, qmul(v1.z, q_int(i))), qmul(v2.z, q_int(j))),
            qmul(v3.z, q_int(k)),
        ),
    }
}

/// The squared length of image number `n`, with the three offsets read
/// from the base-3 digits of `n`.
pub open spec fn image_d2(d: V3, v1: V3, v2: V3, v3: V3, n: int) -> Qv {
    norm2_val(image_delta(d, v1, v2, v3, n / 9 - 1, (n % 9) / 3 - 1, n % 3 - 1))
}

/// The minimum squared image length over images `0 ..= n`.
pub open spec fn min_image_d2(d: V3, v1: V3, v2: V3, v3: V3, n: int) -> Qv
    decreases n,
{
    if n <= 0 {
        image_d2(d, v1, v2, v3, 0)
    } else {
        qmin(min_image_d2(d, v1, v2, v3, n - 1), image_d2(d, v1, v2, v3, n))
    }
}

/// The squared norms of the three box vectors, and their minimum: the
/// squared smallest box height approximation used by the cutoff check.
pub open spec fn min_height2(v1: V3, v2: V3, v3: V3) -> Qv {
    qmin(qmin(norm2_val(v1), norm2_val(v2)), norm2_val(v3))
}

impl Pbc {
    /// Well-formed boxes: three length vectors.
    pub open spec fn box_wf(&self) -> bool {
        &&& self.0.wf()
        &&& self.1.wf()
        &&& self.2.wf()
        &&& self.0@.dim == dim_length()
        &&& self.1@.dim == dim_length()
        &&& self.2@.dim == dim_length()
    }

    /// A cubic box with side length `d`.
    pub fn cubic(d: Quantity) -> (r: Pbc)
        requires
            d.wf(),
            d.dim == dim_length(),
        ensures
            r.box_wf(),
            r.0@.x == d.value@ && r.0@.y == qzero() && r.0@.z == qzero(),
            r.1@.x == qzero() && r.1@.y == d.value@ && r.1@.z == qzero(),
            r.2@.x == qzero() && r.2@.y == qzero() && r.2@.z == d.value@,
    {
        let zero1 = Quantity::zero(d.dim);
        let zero2 = Quantity::zero(d.dim);
        let zero3 = Quantity::zero(d.dim);
        let zero4 = Quantity::zero(d.dim);
        let zero5 = Quantity::zero(d.dim);
        let zero6 = Quantity::zero(d.dim);
        let d2 = d.clone();
        let d3 = d.clone();
        Pbc(
            Vec3D::new(d, zero1, zero2),
            Vec3D::new(zero3, d2, zero4),
            Vec3D::new(zero5, zero6, d3),
        )
    }

    /// A rectangular box with side lengths `l`, `w` and `h`.
    pub fn rectangular(l: Quantity, w: Quantity, h: Quantity) -> (r: Pbc)
        requires
            l.wf(),
            w.wf(),
            h.wf(),
            l.dim == dim_length(),
            w.dim == dim_length(),
            h.dim == dim_length(),
        ensures
            r.box_wf(),
            r.0@.x == l.value@ && r.0@.y == qzero() && r.0@.z == qzero(),
            r.1@.x == qzero() && r.1@.y == w.value@ && r.1@.z == qzero(),
            r.2@.x == qzero() && r.2@.y == qzero() && r.2@.z == h.value@,
    {
        let zero1 = Quantity::zero(l.dim);
        let zero2 = Quantity::zero(l.dim);
        let zero3 = Quantity::zero(l.dim);
        let zero4 = Quantity::zero(l.dim);
        let zero5 = Quantity::zero(l.dim);
        let zero6 = Quantity::zero(l.dim);
        Pbc(
            Vec3D::new(l, zero1, zero2),
            Vec3D::new(zero3, w, zero4),
            Vec3D::new(zero5, zero6, h),
        )
    }
}

/// The dimensionless offset factor for one base-3 digit: `t - 1`.
fn unit_offset(t: u64) -> (r: Rational)
    requires
        t < 3,
    ensures
        r.wf(),
        r@ == q_int(t as int - 1),
{
    if t == 0 {
        Rational::one().neg()
    } else if t == 1 {
        Rational::zero()
    } else {
        Rational::one()
    }
}

impl BoundaryConditions for Pbc {
    open spec fn wf(&self) -> bool {
        self.box_wf()
    }

    open spec fn dist2_spec(&self, a: V3, b: V3) -> Qv {
        min_image_d2(open_delta(a, b), self.0@, self.1@, self.2@, 26)
    }

    /// The minimum image convention is justified when there is no
    /// cutoff, or the cutoff is negative, or the squared cutoff is
    /// smaller than the squared smallest box height.
    open spec fn mic_ok(&self, cutoff: Option<Qv>) -> bool {
        match cutoff {
            None => true,
            Some(c) => qlt(c, qzero()) || qlt(qmul(c, c), min_height2(self.0@, self.1@, self.2@)),
        }
    }

    /// The squared minimum-image distance: the least squared length over
    /// the 27 images of the separation shifted by `-1`, `0` or `+1` of
    /// each box vector.
    fn dist2(&self, a: &Vec3D, b: &Vec3D) -> (r: Quantity) {
        let d = b.sub(a);
        let mut acc = d.norm2();
        let ghost gd = d@;
        let mut acc_set = false;
        let mut t: u64 = 0;
        while t < 27
            invariant
                t <= 27,
                self.box_wf(),
                d.wf(),
                d@ == gd,
                gd.dim == dim_length(),
                acc.wf(),
                acc.dim == dim_area(),
                acc_set ==> acc.value@ == min_image_d2(gd, self.0@, self.1@, self.2@, t as int
                    - 1),
                !acc_set ==> t == 0,
            decreases 27 - t,
        {
            let fi = unit_offset(t / 9);
            let fj = unit_offset((t % 9) / 3);
            let fk = unit_offset(t % 3);
            let img = d.add(&self.0.scale(&fi)).add(&self.1.scale(&fj)).add(&self.2.scale(&fk));
            let m = img.norm2();
            proof {
                assert(m.value@ == image_d2(gd, self.0@, self.1@, self.2@, t as int));
            }
            if !acc_set {
                acc = m;
                acc_set = true;
            } else {
                match m.cmp(&acc) {
                    Ord3::Less => {
                        acc = m;
                    },
                    _ => {},
                }
            }
            t = t + 1;
        }
        acc
    }

    fn dist(&self, a: &Vec3D, b: &Vec3D) -> (r: Option<Quantity>) {
        let r = self.dist2(a, b).sqrt();
        proof {
            if r is None {
                lemma_dist2_pbc_le_open(*self, a@, b@);
            }
        }
        r
    }

    fn pairlist_checks(&self, cutoff: &Cutoff) -> (r: Result<()>) {
        let c = match cutoff {
            None => {
                return Ok(());
            },
            Some(c) => c,
        };
        let zero = Quantity::zero(c.dim);
        if matches!(c.cmp(&zero), Ord3::Less) {
            return Ok(());
        }
        let m1 = self.0.norm2();
        let m2 = self.1.norm2();
        let m3 = self.2.norm2();
        let m12 = match m1.cmp(&m2) {
            Ord3::Less | Ord3::Equal => m1,
            Ord3::Greater => m2,
        };
        let m = match m12.cmp(&m3) {
            Ord3::Less | Ord3::Equal => m12,
            Ord3::Greater => m3,
        };
        let c2 = c.mul(c);
        if matches!(c2.cmp(&m), Ord3::Less) {
            Ok(())
        } else {
            Err(Error::MinimumImageConventionNotJustified)
        }
    }
}

/// Image number 13 has all three offsets zero: its squared length is the
/// open-space squared separation.
pub proof fn lemma_image_zero_offsets(d: V3, v1: V3, v2: V3, v3: V3)
    requires
        v3_wf(d),
        v3_wf(v1),
        v3_wf(v2),
        v3_wf(v3),
    ensures
        qeq(image_d2(d, v1, v2, v3, 13), norm2_val(d)),
{
    let img = image_delta(d, v1, v2, v3, 0, 0, 0);
    assert(13int / 9 - 1 == 0 && (13int % 9) / 3 - 1 == 0 && 13int % 3 - 1 == 0);
    lemma_zero_offset_component(d.x, v1.x, v2.x, v3.x);
    lemma_zero_offset_component(d.y, v1.y, v2.y, v3.y);
    lemma_zero_offset_component(d.z, v1.z, v2.z, v3.z);
    lemma_norm2_val_congruence(img, d);
}

/// Adding three zero offsets to a component leaves its value unchanged.
proof fn lemma_zero_offset_component(x: Qv, w1: Qv, w2: Qv, w3: Qv)
    requires
        x.d > 0,
        w1.d > 0,
        w2.d > 0,
        w3.d > 0,
    ensures
        qeq(qadd(qadd(qadd(x, qmul(w1, q_int(0))), qmul(w2, q_int(0))), qmul(w3, q_int(0))), x),
        qadd(qadd(qadd(x, qmul(w1, q_int(0))), qmul(w2, q_int(0))), qmul(w3, q_int(0))).d > 0,
{
    let z1 = qmul(w1, q_int(0));
    let z2 = qmul(w2, q_int(0));
    let z3 = qmul(w3, q_int(0));
    let s1 = qadd(x, z1);
    let s2 = qadd(s1, z2);
    assert(qeq(z1, qzero()) && qeq(z2, qzero()) && qeq(z3, qzero()));
    lemma_q_ops_wf(x, z1);
    lemma_q_ops_wf(s1, z2);
    lemma_q_ops_wf(s2, z3);
    lemma_qadd_zero(x, z1);
    lemma_qadd_zero(s1, z2);
    lemma_qadd_zero(s2, z3);
    lemma_qeq_trans(qadd(s2, z3), s2, s1);
    lemma_qeq_trans(qadd(s2, z3), s1, x);
}

/// Open-space squared distances are symmetric and never negative.
pub proof fn lemma_dist2_open_properties(a: V3, b: V3)
    requires
        v3_wf(a),
        v3_wf(b),
    ensures
        open_d2(a, b).d > 0,
        open_d2(a, b).n >= 0,
        qeq(open_d2(a, b), open_d2(b, a)),
{
    let d = open_delta(a, b);
    let e = open_delta(b, a);
    lemma_q_ops_wf(b.x, a.x);
    lemma_q_ops_wf(b.y, a.y);
    lemma_q_ops_wf(b.z, a.z);
    lemma_q_ops_wf(a.x, b.x);
    lemma_q_ops_wf(a.y, b.y);
    lemma_q_ops_wf(a.z, b.z);
    lemma_norm2_nonneg(d);
    lemma_qsub_antisym(a.x, b.x);
    lemma_qsub_antisym(a.y, b.y);
    lemma_qsub_antisym(a.z, b.z);
    lemma_norm2_neg_congruence(e, d);
}

/// Ghost vectors with componentwise opposite values have value-equal
/// squared norms.
pub proof fn lemma_norm2_neg_congruence(u: V3, v: V3)
    requires
        v3_wf(u),
        v3_wf(v),
        qeq(u.x, qneg(v.x)),
        qeq(u.y, qneg(v.y)),
        qeq(u.z, qneg(v.z)),
    ensures
        qeq(norm2_val(u), norm2_val(v)),
{
    lemma_square_of_neg(u.x, v.x);
    lemma_square_of_neg(u.y, v.y);
    lemma_square_of_neg(u.z, v.z);
    lemma_q_ops_wf(u.x, u.x);
    lemma_q_ops_wf(u.y, u.y);
    lemma_q_ops_wf(u.z, u.z);
    lemma_q_ops_wf(v.x, v.x);
    lemma_q_ops_wf(v.y, v.y);
    lemma_q_ops_wf(v.z, v.z);
    lemma_qadd_congruence(qmul(u.x, u.x), qmul(u.y, u.y), qmul(v.x, v.x), qmul(v.y, v.y));
    lemma_q_ops_wf(qmul(u.x, u.x), qmul(u.y, u.y));
    lemma_q_ops_wf(qmul(v.x, v.x), qmul(v.y, v.y));
    lemma_qadd_congruence(
        qadd(qmul(u.x, u.x), qmul(u.y, u.y)),
        qmul(u.z, u.z),
        qadd(qmul(v.x, v.x), qmul(v.y, v.y)),
        qmul(v.z, v.z),
    );
}

/// Every image separation has positive denominators in all components.
proof fn lemma_image_wf(d: V3, v1: V3, v2: V3, v3: V3, i: int, j: int, k: int)
    requires
        v3_wf(d),
        v3_wf(v1),
        v3_wf(v2),
        v3_wf(v3),
    ensures
        v3_wf(image_delta(d, v1, v2, v3, i, j, k)),
        norm2_val(image_delta(d, v1, v2, v3, i, j, k)).d > 0,
        norm2_val(image_delta(d, v1, v2, v3, i, j, k)).n >= 0,
{
    lemma_q_ops_wf(v1.x, q_int(i));
    lemma_q_ops_wf(v2.x, q_int(j));
    lemma_q_ops_wf(v3.x, q_int(k));
    lemma_q_ops_wf(v1.y, q_int(i));
    lemma_q_ops_wf(v2.y, q_int(j));
    lemma_q_ops_wf(v3.y, q_int(k));
    lemma_q_ops_wf(v1.z, q_int(i));
    lemma_q_ops_wf(v2.z, q_int(j));
    lemma_q_ops_wf(v3.z, q_int(k));
    let im = image_delta(d, v1, v2, v3, i, j, k);
    assert(im.x.d > 0 && im.y.d > 0 && im.z.d > 0) by (nonlinear_arith)
        requires
            d.x.d > 0,
            d.y.d > 0,
            d.z.d > 0,
            v1.x.d > 0,
            v2.x.d > 0,
            v3.x.d > 0,
            v1.y.d > 0,
            v2.y.d > 0,
            v3.y.d > 0,
            v1.z.d > 0,
            v2.z.d > 0,
            v3.z.d > 0,
            im == image_delta(d, v1, v2, v3, i, j, k),
    ;
    lemma_norm2_nonneg(im);
}

/// The running minimum over images is a lower bound for each image.
proof fn lemma_min_image_le(d: V3, v1: V3, v2: V3, v3: V3, n: int, m: int)
    requires
        v3_wf(d),
        v3_wf(v1),
        v3_wf(v2),
        v3_wf(v3),
        0 <= m <= n,
    ensures
        min_image_d2(d, v1, v2, v3, n).d > 0,
        min_image_d2(d, v1, v2, v3, n).n >= 0,
        qle(min_image_d2(d, v1, v2, v3, n), image_d2(d, v1, v2, v3, m)),
    decreases n,
{
    let cur = image_d2(d, v1, v2, v3, n);
    lemma_image_wf(d, v1, v2, v3, n / 9 - 1, (n % 9) / 3 - 1, n % 3 - 1);
    if n <= 0 {
    } else {
        let prev = min_image_d2(d, v1, v2, v3, n - 1);
        lemma_min_image_le(d, v1, v2, v3, n - 1, if m < n { m } else { 0 });
        if m < n {
            if !qle(prev, cur) {
                lemma_qle_trans(min_image_d2(d, v1, v2, v3, n), prev, image_d2(d, v1, v2, v3, m));
            }
        }
    }
}

/// The running minimum over images is attained by some image.
proof fn lemma_min_image_attained(d: V3, v1: V3, v2: V3, v3: V3, n: int)
    requires
        n >= 0,
    ensures
        exists|m: int| 0 <= m <= n && min_image_d2(d, v1, v2, v3, n) == #[trigger] image_d2(
            d,
            v1,
            v2,
            v3,
            m,
        ),
    decreases n,
{
    if n <= 0 {
        assert(min_image_d2(d, v1, v2, v3, 0) == image_d2(d, v1, v2, v3, 0));
    } else {
        let prev = min_image_d2(d, v1, v2, v3, n - 1);
        let cur = image_d2(d, v1, v2, v3, n);
        if qle(prev, cur) {
            lemma_min_image_attained(d, v1, v2, v3, n - 1);
        } else {
            assert(min_image_d2(d, v1, v2, v3, n) == image_d2(d, v1, v2, v3, n));
        }
    }
}

/// The minimum-image squared distance never exceeds the open-space one.
pub proof fn lemma_dist2_pbc_le_open(p: Pbc, a: V3, b: V3)
    requires
        p.box_wf(),
        v3_wf(a),
        v3_wf(b),
    ensures
        p.dist2_spec(a, b).d > 0,
        p.dist2_spec(a, b).n >= 0,
        qle(p.dist2_spec(a, b), open_d2(a, b)),
{
    let d = open_delta(a, b);
    lemma_q_ops_wf(b.x, a.x);
    lemma_q_ops_wf(b.y, a.y);
    lemma_q_ops_wf(b.z, a.z);
    lemma_min_image_le(d, p.0@, p.1@, p.2@, 26, 13);
    lemma_image_zero_offsets(d, p.0@, p.1@, p.2@);
    lemma_image_wf(d, p.0@, p.1@, p.2@, 0, 0, 0);
    lemma_norm2_nonneg(d);
    lemma_qle_congruence(
        min_image_d2(d, p.0@, p.1@, p.2@, 26),
        image_d2(d, p.0@, p.1@, p.2@, 13),
        min_image_d2(d, p.0@, p.1@, p.2@, 26),
        open_d2(a, b),
    );
}

/// The value of a product with an integer offset, negated offset.
proof fn lemma_qmul_int_neg(v: Qv, i: int)
    requires
        v.d > 0,
    ensures
        qeq(qmul(v, q_int(-i)), qneg(qmul(v, q_int(i)))),
        qmul(v, q_int(-i)).d > 0,
        qmul(v, q_int(i)).d > 0,
{
    assert((v.n * (-i)) * (v.d * 1) == (-(v.n * i)) * (v.d * 1)) by (nonlinear_arith);
    assert(v.d * 1 > 0) by (nonlinear_arith)
        requires
            v.d > 0,
    ;
}

/// Negation distributes over an exact sum, up to value equality.
proof fn lemma_qadd_neg(p: Qv, q: Qv, pm: Qv, qm: Qv)
    requires
        p.d > 0,
        q.d > 0,
        pm.d > 0,
        qm.d > 0,
        qeq(pm, qneg(p)),
        qeq(qm, qneg(q)),
    ensures
        qeq(qadd(pm, qm), qneg(qadd(p, q))),
        qadd(pm, qm).d > 0,
        qadd(p, q).d > 0,
{
    lemma_q_ops_wf(pm, qm);
    lemma_q_ops_wf(p, q);
    lemma_qadd_congruence(pm, qm, qneg(p), qneg(q));
    assert(qeq(qadd(qneg(p), qneg(q)), qneg(qadd(p, q)))) by (nonlinear_arith)
        requires
            p.d > 0,
            q.d > 0,
    ;
    lemma_q_ops_wf(qneg(p), qneg(q));
    lemma_qeq_trans(qadd(pm, qm), qadd(qneg(p), qneg(q)), qneg(qadd(p, q)));
}

/// One component of a mirrored image is the negation of the original
/// image's component.
proof fn lemma_image_component_mirror(dx: Qv, dmx: Qv, w1: Qv, w2: Qv, w3: Qv, i: int, j: int, k: int)
    requires
        dx.d > 0,
        dmx.d > 0,
        w1.d > 0,
        w2.d > 0,
        w3.d > 0,
        qeq(dmx, qneg(dx)),
    ensures
        ({
            let orig = qadd(qadd(qadd(dx, qmul(w1, q_int(i))), qmul(w2, q_int(j))), qmul(w3, q_int(k)));
            let mirr = qadd(
                qadd(qadd(dmx, qmul(w1, q_int(-i))), qmul(w2, q_int(-j))),
                qmul(w3, q_int(-k)),
            );
            qeq(mirr, qneg(orig)) && mirr.d > 0 && orig.d > 0
        }),
{
    lemma_qmul_int_neg(w1, i);
    lemma_qmul_int_neg(w2, j);
    lemma_qmul_int_neg(w3, k);
    lemma_qadd_neg(dx, qmul(w1, q_int(i)), dmx, qmul(w1, q_int(-i)));
    lemma_qadd_neg(
        qadd(dx, qmul(w1, q_int(i))),
        qmul(w2, q_int(j)),
        qadd(dmx, qmul(w1, q_int(-i))),
        qmul(w2, q_int(-j)),
    );
    lemma_qadd_neg(
        qadd(qadd(dx, qmul(w1, q_int(i))), qmul(w2, q_int(j))),
        qmul(w3, q_int(k)),
        qadd(qadd(dmx, qmul(w1, q_int(-i))), qmul(w2, q_int(-j))),
        qmul(w3, q_int(-k)),
    );
}

/// The squared length of image `26 - n` of the reversed separation
/// equals the squared length of image `n` of the separation.
proof fn lemma_image_mirror(d: V3, dm: V3, v1: V3, v2: V3, v3: V3, n: int)
    requires
        v3_wf(d),
        v3_wf(dm),
        v3_wf(v1),
        v3_wf(v2),
        v3_wf(v3),
        0 <= n < 27,
        qeq(dm.x, qneg(d.x)),
        qeq(dm.y, qneg(d.y)),
        qeq(dm.z, qneg(d.z)),
    ensures
        qeq(image_d2(dm, v1, v2, v3, 26 - n), image_d2(d, v1, v2, v3, n)),
{
    let i = n / 9 - 1;
    let j = (n % 9) / 3 - 1;
    let k = n % 3 - 1;
    assert((26 - n) / 9 - 1 == -i && ((26 - n) % 9) / 3 - 1 == -j && (26 - n) % 3 - 1 == -k);
    lemma_image_component_mirror(d.x, dm.x, v1.x, v2.x, v3.x, i, j, k);
    lemma_image_component_mirror(d.y, dm.y, v1.y, v2.y, v3.y, i, j, k);
    lemma_image_component_mirror(d.z, dm.z, v1.z, v2.z, v3.z, i, j, k);
    lemma_norm2_neg_congruence(
        image_delta(dm, v1, v2, v3, -i, -j, -k),
        image_delta(d, v1, v2, v3, i, j, k),
    );
}

/// Minimum-image squared distances are symmetric in their arguments.
pub proof fn lemma_dist2_pbc_symmetric(p: Pbc, a: V3, b: V3)
    requires
        p.box_wf(),
        v3_wf(a),
        v3_wf(b),
    ensures
        qeq(p.dist2_spec(a, b), p.dist2_spec(b, a)),
{
    lemma_dist2_pbc_le_one_way(p, a, b);
    lemma_dist2_pbc_le_one_way(p, b, a);
}

/// One direction of the symmetry argument: the minimum over the images
/// of `b - a` is at most the minimum over the images of `a - b`.
proof fn lemma_dist2_pbc_le_one_way(p: Pbc, a: V3, b: V3)
    requires
        p.box_wf(),
        v3_wf(a),
        v3_wf(b),
    ensures
        qle(p.dist2_spec(b, a), p.dist2_spec(a, b)),
{
    let d = open_delta(a, b);
    let dm = open_delta(b, a);
    lemma_q_ops_wf(b.x, a.x);
    lemma_q_ops_wf(b.y, a.y);
    lemma_q_ops_wf(b.z, a.z);
    lemma_q_ops_wf(a.x, b.x);
    lemma_q_ops_wf(a.y, b.y);
    lemma_q_ops_wf(a.z, b.z);
    lemma_qsub_antisym(a.x, b.x);
    lemma_qsub_antisym(a.y, b.y);
    lemma_qsub_antisym(a.z, b.z);
    lemma_min_image_attained(d, p.0@, p.1@, p.2@, 26);
    let m = choose|m: int| 0 <= m <= 26 && min_image_d2(d, p.0@, p.1@, p.2@, 26)
        == #[trigger] image_d2(d, p.0@, p.1@, p.2@, m);
    lemma_image_mirror(d, dm, p.0@, p.1@, p.2@, m);
    lemma_min_image_le(dm, p.0@, p.1@, p.2@, 26, 26 - m);
    lemma_image_wf(dm, p.0@, p.1@, p.2@, (26 - m) / 9 - 1, ((26 - m) % 9) / 3 - 1, (26 - m) % 3
        - 1);
    lemma_image_wf(d, p.0@, p.1@, p.2@, m / 9 - 1, (m % 9) / 3 - 1, m % 3 - 1);
    lemma_qle_congruence(
        min_image_d2(dm, p.0@, p.1@, p.2@, 26),
        image_d2(dm, p.0@, p.1@, p.2@, 26 - m),
        min_image_d2(dm, p.0@, p.1@, p.2@, 26),
        image_d2(d, p.0@, p.1@, p.2@, m),
    );
}

/// Ghost vectors with value-equal components have value-equal squared
/// norms.
pub proof fn lemma_norm2_val_congruence(u: V3, v: V3)
    requires
        v3_wf(u),
        v3_wf(v),
        qeq(u.x, v.x),
        qeq(u.y, v.y),
        qeq(u.z, v.z),
    ensures
        qeq(norm2_val(u), norm2_val(v)),
{
    lemma_qmul_congruence(u.x, u.x, v.x, v.x);
    lemma_qmul_congruence(u.y, u.y, v.y, v.y);
    lemma_qmul_congruence(u.z, u.z, v.z, v.z);
    lemma_q_ops_wf(u.x, u.x);
    lemma_q_ops_wf(u.y, u.y);
    lemma_q_ops_wf(u.z, u.z);
    lemma_q_ops_wf(v.x, v.x);
    lemma_q_ops_wf(v.y, v.y);
    lemma_q_ops_wf(v.z, v.z);
    lemma_qadd_congruence(qmul(u.x, u.x), qmul(u.y, u.y), qmul(v.x, v.x), qmul(v.y, v.y));
    lemma_q_ops_wf(qmul(u.x, u.x), qmul(u.y, u.y));
    lemma_q_ops_wf(qmul(v.x, v.x), qmul(v.y, v.y));
    lemma_qadd_congruence(
        qadd(qmul(u.x, u.x), qmul(u.y, u.y)),
        qmul(u.z, u.z),
        qadd(qmul(v.x, v.x), qmul(v.y, v.y)),
        qmul(v.z, v.z),
    );
}

} // verus!
