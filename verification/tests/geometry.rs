//! Vector algebra and exact-arithmetic checks.

use noether::arith::natural::Natural;
use noether::arith::natural::Ord3;
use noether::arith::rational::Rational;
use noether::geom::vec3d::Vec3D;
use noether::geom::vec3d::VecIdx;
use noether::result::Error;
use noether::result::FriendlyResult;
use noether::units::nanometer;
use noether::units::Quantity;

fn nm(m: u64, e: i32) -> Quantity {
    nanometer(&Rational::from_scientific(false, m, e))
}

fn nm_neg(m: u64, e: i32) -> Quantity {
    nanometer(&Rational::from_scientific(true, m, e))
}

#[test]
fn vector_norms() {
    let point = Vec3D::new(nm(2, 0), nm(1, 0), nm(0, 0));
    let five = nm(1, 0).mul(&nm(5, 0));
    assert!(point.norm2().eq_value(&five));

    let point = Vec3D::new(nm(2, 0), nm_neg(1, 0), nm(2, 0));
    let nine = nm(3, 0).mul(&nm(3, 0));
    assert!(point.norm2().eq_value(&nine));
    let norm = point.norm().unwrap();
    assert!(norm.eq_value(&nm(3, 0)));
}

#[test]
fn vector_normalize() {
    let mut push = Vec3D::new(nm(2, 0), nm_neg(1, 0), nm(2, 0));
    assert!(push.normalize());
    let norm = push.norm().unwrap();
    assert!(norm.eq_value(&nm(1, 0)));

    let of_two = Vec3D::new(nm(1, 0), nm(1, 0), nm(0, 0));
    assert!(of_two.normalized().is_none());

    let mut zero = Vec3D::zero(nm(1, 0).dim);
    assert!(!zero.normalize());
}

#[test]
fn vector_products() {
    let a = Vec3D::new(nm(3, 0), nm_neg(3, 0), nm(1, 0));
    let b = Vec3D::new(nm(4, 0), nm(9, 0), nm(2, 0));
    let minus13 = nm(1, 0).mul(&nm_neg(13, 0));
    assert!(a.dot(&b).eq_value(&minus13));

    let cross = a.cross(&b);
    assert!(cross.x.eq_value(&nm(1, 0).mul(&nm_neg(15, 0))));
    assert!(cross.y.eq_value(&nm(1, 0).mul(&nm_neg(2, 0))));
    assert!(cross.z.eq_value(&nm(1, 0).mul(&nm(39, 0))));

    let sum = a.add(&b);
    assert!(sum.get(VecIdx::X).eq_value(&nm(7, 0)));
    assert!(sum.get(VecIdx::Y).eq_value(&nm(6, 0)));
    assert!(sum.get(VecIdx::Z).eq_value(&nm(3, 0)));
}

#[test]
fn dimension_composition() {
    let area = nm(2, 0).mul(&nm(3, 0));
    assert_eq!(area.dim.length, 2);
    assert_eq!(area.dim.mass, 0);
    let back = area.div(&nm(3, 0));
    assert_eq!(back.dim.length, 1);
    assert!(back.eq_value(&nm(2, 0)));
}

#[test]
fn exact_square_roots() {
    let nine_fourths = Rational::from_u64(9).div(&Rational::from_u64(4));
    let root = nine_fourths.sqrt().unwrap();
    let three_halves = Rational::from_u64(3).div(&Rational::from_u64(2));
    assert!(root.eq_value(&three_halves));
    assert!(Rational::from_u64(2).sqrt().is_none());
    let negative = Rational::from_scientific(true, 4, 0);
    assert!(negative.sqrt().is_none());
}

#[test]
fn natural_arithmetic() {
    let big = Natural::pow10(30);
    let one = Natural::from_u64(1);
    let bigger = big.add(&one);
    assert!(matches!(big.cmp(&bigger), Ord3::Less));
    assert!(matches!(bigger.sub(&one).cmp(&big), Ord3::Equal));
    let product = big.mul(&big);
    assert!(matches!(product.cmp(&Natural::pow10(60)), Ord3::Equal));
    assert!(matches!(product.isqrt().cmp(&big), Ord3::Equal));
    assert!(matches!(Natural::from_u64(10).half().cmp(&Natural::from_u64(5)), Ord3::Equal));
}

#[test]
fn friendly_results() {
    let ok: noether::result::Result<u64> = Ok(7);
    assert_eq!(ok.unwrap_nicely(), 7);
    let err: noether::result::Result<u64> = Err(Error::IllegalTopology);
    assert!(err.is_err());
}
