//! The dimensional quantity kernel.
//!
//! A [`Quantity`] carries its physical dimension — five integer exponents
//! over length, mass, time, charge and temperature — next to an exact
//! rational magnitude stored in the canonical units nanometre, dalton,
//! picosecond, elementary charge and kelvin.  Operations state their
//! dimension rules as contracts: adding, comparing or equating quantities
//! of different dimensions is rejected when the caller is verified, and
//! multiplication and division compose dimensions exactly.  No public
//! operation ever yields a magnitude in anything but the canonical unit.

use vstd::prelude::*;
use vstd::arithmetic::power::pow;
use crate::arith::natural::Natural;
use crate::arith::natural::Ord3;
use crate::arith::integer::Integer;
use crate::arith::rational::Rational;
use crate::arith::rational::Qv;
use crate::arith::rational::qzero;
use crate::arith::rational::qone;
use crate::arith::rational::qadd;
use crate::arith::rational::qsub;
use crate::arith::rational::qmul;
use crate::arith::rational::qdiv;
use crate::arith::rational::qneg;
use crate::arith::rational::qabs;
use crate::arith::rational::qeq;
use crate::arith::rational::qlt;
use crate::arith::rational::sq;
use crate::arith::rational::sci;

verus! {

/// A physical dimension: integer exponents over the five base dimensions.
#[derive(Clone, Copy, PartialEq, Eq, Structural, Debug)]
pub struct Dim {
    pub length: i16,
    pub mass: i16,
    pub time: i16,
    pub charge: i16,
    pub temperature: i16,
}

/// The dimension of dimensionless scalars.
pub open spec fn dim_none() -> Dim {
    Dim { length: 0, mass: 0, time: 0, charge: 0, temperature: 0 }
}

/// The dimension of lengths.
pub open spec fn dim_length() -> Dim {
    Dim { length: 1, mass: 0, time: 0, charge: 0, temperature: 0 }
}

/// The dimension of areas and squared distances.
pub open spec fn dim_area() -> Dim {
    Dim { length: 2, mass: 0, time: 0, charge: 0, temperature: 0 }
}

/// The dimension of masses.
pub open spec fn dim_mass() -> Dim {
    Dim { length: 0, mass: 1, time: 0, charge: 0, temperature: 0 }
}

/// The dimension of times.
pub open spec fn dim_time() -> Dim {
    Dim { length: 0, mass: 0, time: 1, charge: 0, temperature: 0 }
}

/// The dimension of charges.
pub open spec fn dim_charge() -> Dim {
    Dim { length: 0, mass: 0, time: 0, charge: 1, temperature: 0 }
}

/// The dimension of temperatures.
pub open spec fn dim_temperature() -> Dim {
    Dim { length: 0, mass: 0, time: 0, charge: 0, temperature: 1 }
}

/// The dimension of energies.
pub open spec fn dim_energy() -> Dim {
    Dim { length: 2, mass: 1, time: -2i16, charge: 0, temperature: 0 }
}

/// The dimension of forces.
pub open spec fn dim_force() -> Dim {
    Dim { length: 1, mass: 1, time: -2i16, charge: 0, temperature: 0 }
}

/// The dimension of entropies: energy over temperature.
pub open spec fn dim_entropy() -> Dim {
    Dim { length: 2, mass: 1, time: -2i16, charge: 0, temperature: -1i16 }
}

/// The dimension of velocities.
pub open spec fn dim_velocity() -> Dim {
    Dim { length: 1, mass: 0, time: -1i16, charge: 0, temperature: 0 }
}

/// Whether the componentwise sum of two dimensions stays in range.
pub open spec fn dim_sum_ok(a: Dim, b: Dim) -> bool {
    &&& i16::MIN <= a.length + b.length <= i16::MAX
    &&& i16::MIN <= a.mass + b.mass <= i16::MAX
    &&& i16::MIN <= a.time + b.time <= i16::MAX
    &&& i16::MIN <= a.charge + b.charge <= i16::MAX
    &&& i16::MIN <= a.temperature + b.temperature <= i16::MAX
}

/// The componentwise sum of two dimensions.
pub open spec fn dim_sum(a: Dim, b: Dim) -> Dim {
    Dim {
        length: (a.length + b.length) as i16,
        mass: (a.mass + b.mass) as i16,
        time: (a.time + b.time) as i16,
        charge: (a.charge + b.charge) as i16,
        temperature: (a.temperature + b.temperature) as i16,
    }
}

/// Whether the componentwise difference of two dimensions stays in range.
pub open spec fn dim_diff_ok(a: Dim, b: Dim) -> bool {
    &&& i16::MIN <= a.length - b.length <= i16::MAX
    &&& i16::MIN <= a.mass - b.mass <= i16::MAX
    &&& i16::MIN <= a.time - b.time <= i16::MAX
    &&& i16::MIN <= a.charge - b.charge <= i16::MAX
    &&& i16::MIN <= a.temperature - b.temperature <= i16::MAX
}

/// The componentwise difference of two dimensions.
pub open spec fn dim_diff(a: Dim, b: Dim) -> Dim {
    Dim {
        length: (a.length - b.length) as i16,
        mass: (a.mass - b.mass) as i16,
        time: (a.time - b.time) as i16,
        charge: (a.charge - b.charge) as i16,
        temperature: (a.temperature - b.temperature) as i16,
    }
}

/// Whether every exponent of a dimension is even, as a square root needs.
pub open spec fn dim_even(a: Dim) -> bool {
    &&& a.length % 2 == 0
    &&& a.mass % 2 == 0
    &&& a.time % 2 == 0
    &&& a.charge % 2 == 0
    &&& a.temperature % 2 == 0
}

/// The dimension with every exponent halved.
pub open spec fn dim_half(a: Dim) -> Dim {
    Dim {
        length: (a.length / 2) as i16,
        mass: (a.mass / 2) as i16,
        time: (a.time / 2) as i16,
        charge: (a.charge / 2) as i16,
        temperature: (a.temperature / 2) as i16,
    }
}

/// A dimensioned quantity: an exact rational magnitude in canonical
/// units, tagged with its dimension.
pub struct Quantity {
    pub dim: Dim,
    pub value: Rational,
}

impl Clone for Quantity {
    fn clone(&self) -> (r: Self)
        ensures
            r.wf() == self.wf(),
            r.dim == self.dim,
            r.value@ == self.value@,
    {
        Quantity { dim: self.dim, value: self.value.clone() }
    }
}

impl Quantity {
    /// The representation invariant.
    pub open spec fn wf(&self) -> bool {
        self.value.wf()
    }

    /// A quantity from a dimension and an exact magnitude.
    pub fn new(dim: Dim, value: Rational) -> (r: Quantity)
        requires
            value.wf(),
        ensures
            r.wf(),
            r.dim == dim,
            r.value@ == value@,
    {
        Quantity { dim, value }
    }

    /// The zero of a given dimension.
    pub fn zero(dim: Dim) -> (r: Quantity)
        ensures
            r.wf(),
            r.dim == dim,
            r.value@ == qzero(),
    {
        Quantity { dim, value: Rational::zero() }
    }

    /// Addition; defined only between equal dimensions.
    pub fn add(&self, other: &Quantity) -> (r: Quantity)
        requires
            self.wf(),
            other.wf(),
            self.dim == other.dim,
        ensures
            r.wf(),
            r.dim == self.dim,
            r.value@ == qadd(self.value@, other.value@),
    {
        Quantity { dim: self.dim, value: self.value.add(&other.value) }
    }

    /// Subtraction; defined only between equal dimensions.
    pub fn sub(&self, other: &Quantity) -> (r: Quantity)
        requires
            self.wf(),
            other.wf(),
            self.dim == other.dim,
        ensures
            r.wf(),
            r.dim == self.dim,
            r.value@ == qsub(self.value@, other.value@),
    {
        Quantity { dim: self.dim, value: self.value.sub(&other.value) }
    }

    /// Negation.
    pub fn neg(&self) -> (r: Quantity)
        requires
            self.wf(),
        ensures
            r.wf(),
            r.dim == self.dim,
            r.value@ == qneg(self.value@),
    {
        Quantity { dim: self.dim, value: self.value.neg() }
    }

    /// Multiplication: magnitudes multiply, dimensions add.
    pub fn mul(&self, other: &Quantity) -> (r: Quantity)
        requires
            self.wf(),
            other.wf(),
            dim_sum_ok(self.dim, other.dim),
        ensures
            r.wf(),
            r.dim == dim_sum(self.dim, other.dim),
            r.value@ == qmul(self.value@, other.value@),
    {
        let dim = Dim {
            length: self.dim.length + other.dim.length,
            mass: self.dim.mass + other.dim.mass,
            time: self.dim.time + other.dim.time,
            charge: self.dim.charge + other.dim.charge,
            temperature: self.dim.temperature + other.dim.temperature,
        };
        Quantity { dim, value: self.value.mul(&other.value) }
    }

    /// Division: magnitudes divide, dimensions subtract.
    pub fn div(&self, other: &Quantity) -> (r: Quantity)
        requires
            self.wf(),
            other.wf(),
            other.value@.n != 0,
            dim_diff_ok(self.dim, other.dim),
        ensures
            r.wf(),
            r.dim == dim_diff(self.dim, other.dim),
            r.value@ == qdiv(self.value@, other.value@),
    {
        let dim = Dim {
            length: self.dim.length - other.dim.length,
            mass: self.dim.mass - other.dim.mass,
            time: self.dim.time - other.dim.time,
            charge: self.dim.charge - other.dim.charge,
            temperature: self.dim.temperature - other.dim.temperature,
        };
        Quantity { dim, value: self.value.div(&other.value) }
    }

    /// Scaling by a dimensionless factor leaves the dimension unchanged.
    pub fn scale(&self, factor: &Rational) -> (r: Quantity)
        requires
            self.wf(),
            factor.wf(),
        ensures
            r.wf(),
            r.dim == self.dim,
            r.value@ == qmul(self.value@, factor@),
    {
        Quantity { dim: self.dim, value: self.value.mul(factor) }
    }

    /// Exact square root: every exponent must be even, and the magnitude
    /// must be the square of a rational.
    pub fn sqrt(&self) -> (r: Option<Quantity>)
        requires
            self.wf(),
            dim_even(self.dim),
        ensures
            match r {
                Some(s) => s.wf() && s.dim == dim_half(self.dim) && s.value@.n >= 0 && qeq(
                    qmul(s.value@, s.value@),
                    self.value@,
                ) && (exists|k: int| k >= 0 && #[trigger] sq(k) == self.value@.n
                    * self.value@.d),
                None => self.value@.n < 0 || !(exists|k: int| k >= 0 && #[trigger] sq(k)
                    == self.value@.n * self.value@.d),
            },
    {
        let dim = Dim {
            length: self.dim.length / 2,
            mass: self.dim.mass / 2,
            time: self.dim.time / 2,
            charge: self.dim.charge / 2,
            temperature: self.dim.temperature / 2,
        };
        match self.value.sqrt() {
            Some(root) => Some(Quantity { dim, value: root }),
            None => None,
        }
    }

    /// Exact absolute value.
    pub fn abs(&self) -> (r: Quantity)
        requires
            self.wf(),
        ensures
            r.wf(),
            r.dim == self.dim,
            r.value@ == qabs(self.value@),
    {
        Quantity { dim: self.dim, value: self.value.abs() }
    }

    /// Three-way comparison; defined only between equal dimensions.
    pub fn cmp(&self, other: &Quantity) -> (r: Ord3)
        requires
            self.wf(),
            other.wf(),
            self.dim == other.dim,
        ensures
            r == Ord3::Less <==> qlt(self.value@, other.value@),
            r == Ord3::Equal <==> qeq(self.value@, other.value@),
            r == Ord3::Greater <==> qlt(other.value@, self.value@),
    {
        self.value.cmp(&other.value)
    }

    /// Value equality; defined only between equal dimensions.
    pub fn eq_value(&self, other: &Quantity) -> (r: bool)
        requires
            self.wf(),
            other.wf(),
            self.dim == other.dim,
        ensures
            r <==> qeq(self.value@, other.value@),
    {
        self.value.eq_value(&other.value)
    }

    /// Whether the magnitude is zero.
    pub fn is_zero(&self) -> (r: bool)
        requires
            self.wf(),
        ensures
            r <==> self.value@.n == 0,
    {
        self.value.is_zero()
    }
}

/// A quantity that is `x` times a unit of dimension `dim`, where the
/// unit is worth `num / den` canonical units.
fn unit(x: &Rational, dim: Dim, num: Rational) -> (r: Quantity)
    requires
        x.wf(),
        num.wf(),
    ensures
        r.wf(),
        r.dim == dim,
        r.value@ == qmul(x@, num@),
    {
    Quantity { dim, value: x.mul(&num) }
}

/// One nanometre: the canonical length unit.
pub fn nanometer(x: &Rational) -> (r: Quantity)
    requires
        x.wf(),
    ensures
        r.wf(),
        r.dim == dim_length(),
        r.value@ == qmul(x@, qone()),
{
    unit(x, Dim { length: 1, mass: 0, time: 0, charge: 0, temperature: 0 }, Rational::one())
}

/// One ångström is a tenth of a nanometre.
pub fn angstrom(x: &Rational) -> (r: Quantity)
    requires
        x.wf(),
    ensures
        r.wf(),
        r.dim == dim_length(),
        r.value@ == qmul(x@, (Qv { n: 1, d: 10 })),
{
    let f = Rational { num: Integer::from_u64(1), den: Natural::from_u64(10) };
    unit(x, Dim { length: 1, mass: 0, time: 0, charge: 0, temperature: 0 }, f)
}

/// One metre is `10^9` nanometres.
pub fn meter(x: &Rational) -> (r: Quantity)
    requires
        x.wf(),
    ensures
        r.wf(),
        r.dim == dim_length(),
        r.value@ == qmul(x@, (Qv { n: pow(10, 9), d: 1 })),
{
    let f = Rational::from_scientific(false, 1, 9);
    unit(x, Dim { length: 1, mass: 0, time: 0, charge: 0, temperature: 0 }, f)
}

/// One dalton: the canonical mass unit.
pub fn dalton(x: &Rational) -> (r: Quantity)
    requires
        x.wf(),
    ensures
        r.wf(),
        r.dim == dim_mass(),
        r.value@ == qmul(x@, qone()),
{
    unit(x, Dim { length: 0, mass: 1, time: 0, charge: 0, temperature: 0 }, Rational::one())
}

/// One unified atomic mass unit equals one dalton.
pub fn amu(x: &Rational) -> (r: Quantity)
    requires
        x.wf(),
    ensures
        r.wf(),
        r.dim == dim_mass(),
        r.value@ == qmul(x@, qone()),
{
    unit(x, Dim { length: 0, mass: 1, time: 0, charge: 0, temperature: 0 }, Rational::one())
}

/// One gram is Avogadro's number of daltons.
pub fn gram(x: &Rational) -> (r: Quantity)
    requires
        x.wf(),
    ensures
        r.wf(),
        r.dim == dim_mass(),
        r.value@ == qmul(x@, sci(false, 602214076, 15)),
{
    let f = Rational::from_scientific(false, 602214076, 15);
    unit(x, Dim { length: 0, mass: 1, time: 0, charge: 0, temperature: 0 }, f)
}

/// One kilogram is `10^3` grams.
pub fn kilogram(x: &Rational) -> (r: Quantity)
    requires
        x.wf(),
    ensures
        r.wf(),
        r.dim == dim_mass(),
        r.value@ == qmul(x@, sci(false, 602214076, 18)),
{
    let f = Rational::from_scientific(false, 602214076, 18);
    unit(x, Dim { length: 0, mass: 1, time: 0, charge: 0, temperature: 0 }, f)
}

/// One picosecond: the canonical time unit.
pub fn picosecond(x: &Rational) -> (r: Quantity)
    requires
        x.wf(),
    ensures
        r.wf(),
        r.dim == dim_time(),
        r.value@ == qmul(x@, qone()),
{
    unit(x, Dim { length: 0, mass: 0, time: 1, charge: 0, temperature: 0 }, Rational::one())
}

/// One second is `10^12` picoseconds.
pub fn second(x: &Rational) -> (r: Quantity)
    requires
        x.wf(),
    ensures
        r.wf(),
        r.dim == dim_time(),
        r.value@ == qmul(x@, sci(false, 1, 12)),
{
    let f = Rational::from_scientific(false, 1, 12);
    unit(x, Dim { length: 0, mass: 0, time: 1, charge: 0, temperature: 0 }, f)
}

/// One minute is sixty seconds.
pub fn minute(x: &Rational) -> (r: Quantity)
    requires
        x.wf(),
    ensures
        r.wf(),
        r.dim == dim_time(),
        r.value@ == qmul(x@, sci(false, 6, 13)),
{
    let f = Rational::from_scientific(false, 6, 13);
    unit(x, Dim { length: 0, mass: 0, time: 1, charge: 0, temperature: 0 }, f)
}

/// One hour is sixty minutes.
pub fn hour(x: &Rational) -> (r: Quantity)
    requires
        x.wf(),
    ensures
        r.wf(),
        r.dim == dim_time(),
        r.value@ == qmul(x@, sci(false, 36, 14)),
{
    let f = Rational::from_scientific(false, 36, 14);
    unit(x, Dim { length: 0, mass: 0, time: 1, charge: 0, temperature: 0 }, f)
}

/// One day is twenty-four hours.
pub fn day(x: &Rational) -> (r: Quantity)
    requires
        x.wf(),
    ensures
        r.wf(),
        r.dim == dim_time(),
        r.value@ == qmul(x@, sci(false, 864, 14)),
{
    let f = Rational::from_scientific(false, 864, 14);
    unit(x, Dim { length: 0, mass: 0, time: 1, charge: 0, temperature: 0 }, f)
}

/// One year is 365 days.
pub fn year(x: &Rational) -> (r: Quantity)
    requires
        x.wf(),
    ensures
        r.wf(),
        r.dim == dim_time(),
        r.value@ == qmul(x@, sci(false, 31536, 15)),
{
    let f = Rational::from_scientific(false, 31536, 15);
    unit(x, Dim { length: 0, mass: 0, time: 1, charge: 0, temperature: 0 }, f)
}

/// One elementary charge: the canonical charge unit.
pub fn elementary_charge(x: &Rational) -> (r: Quantity)
    requires
        x.wf(),
    ensures
        r.wf(),
        r.dim == dim_charge(),
        r.value@ == qmul(x@, qone()),
{
    unit(x, Dim { length: 0, mass: 0, time: 0, charge: 1, temperature: 0 }, Rational::one())
}

/// One coulomb is `1 / 1.60217662e-19` elementary charges.
pub fn coulomb(x: &Rational) -> (r: Quantity)
    requires
        x.wf(),
    ensures
        r.wf(),
        r.dim == dim_charge(),
        r.value@ == qmul(x@, (Qv { n: pow(10, 27), d: 160217662 })),
{
    let f = Rational {
        num: Integer::from_natural(&Natural::pow10(27)),
        den: Natural::from_u64(160217662),
    };
    unit(x, Dim { length: 0, mass: 0, time: 0, charge: 1, temperature: 0 }, f)
}

/// One kelvin: the canonical temperature unit.
pub fn kelvin(x: &Rational) -> (r: Quantity)
    requires
        x.wf(),
    ensures
        r.wf(),
        r.dim == dim_temperature(),
        r.value@ == qmul(x@, qone()),
{
    unit(x, Dim { length: 0, mass: 0, time: 0, charge: 0, temperature: 1 }, Rational::one())
}

/// One microkelvin is `10^-6` kelvin.
pub fn microkelvin(x: &Rational) -> (r: Quantity)
    requires
        x.wf(),
    ensures
        r.wf(),
        r.dim == dim_temperature(),
        r.value@ == qmul(x@, sci(false, 1, -6)),
{
    let f = Rational::from_scientific(false, 1, -6);
    unit(x, Dim { length: 0, mass: 0, time: 0, charge: 0, temperature: 1 }, f)
}

/// One kilojoule per mole: the canonical energy unit.
pub fn kilojoule_per_mole(x: &Rational) -> (r: Quantity)
    requires
        x.wf(),
    ensures
        r.wf(),
        r.dim == dim_energy(),
        r.value@ == qmul(x@, qone()),
{
    unit(x, Dim { length: 2, mass: 1, time: -2i16, charge: 0, temperature: 0 }, Rational::one())
}

/// One joule per mole is `10^-3` kilojoules per mole.
pub fn joule_per_mole(x: &Rational) -> (r: Quantity)
    requires
        x.wf(),
    ensures
        r.wf(),
        r.dim == dim_energy(),
        r.value@ == qmul(x@, sci(false, 1, -3)),
{
    let f = Rational::from_scientific(false, 1, -3);
    unit(x, Dim { length: 2, mass: 1, time: -2i16, charge: 0, temperature: 0 }, f)
}

/// One kilojoule is Avogadro's number of kilojoules per mole.
pub fn kilojoule(x: &Rational) -> (r: Quantity)
    requires
        x.wf(),
    ensures
        r.wf(),
        r.dim == dim_energy(),
        r.value@ == qmul(x@, sci(false, 602214076, 15)),
{
    let f = Rational::from_scientific(false, 602214076, 15);
    unit(x, Dim { length: 2, mass: 1, time: -2i16, charge: 0, temperature: 0 }, f)
}

/// One kilocalorie per mole is 4184 kilojoules per mole, following the
/// thermochemical calorie scaled by the SI kilo prefix.
pub fn kilocalorie_per_mole(x: &Rational) -> (r: Quantity)
    requires
        x.wf(),
    ensures
        r.wf(),
        r.dim == dim_energy(),
        r.value@ == qmul(x@, sci(false, 4184, 0)),
{
    let f = Rational::from_scientific(false, 4184, 0);
    unit(x, Dim { length: 2, mass: 1, time: -2i16, charge: 0, temperature: 0 }, f)
}

/// One kilonewton per mole: the canonical force unit.
pub fn kilonewton_per_mole(x: &Rational) -> (r: Quantity)
    requires
        x.wf(),
    ensures
        r.wf(),
        r.dim == dim_force(),
        r.value@ == qmul(x@, qone()),
{
    unit(x, Dim { length: 1, mass: 1, time: -2i16, charge: 0, temperature: 0 }, Rational::one())
}

/// One newton per mole is `10^-3` kilonewtons per mole.
pub fn newton_per_mole(x: &Rational) -> (r: Quantity)
    requires
        x.wf(),
    ensures
        r.wf(),
        r.dim == dim_force(),
        r.value@ == qmul(x@, sci(false, 1, -3)),
{
    let f = Rational::from_scientific(false, 1, -3);
    unit(x, Dim { length: 1, mass: 1, time: -2i16, charge: 0, temperature: 0 }, f)
}

/// One kilonewton is Avogadro's number of kilonewtons per mole.
pub fn kilonewton(x: &Rational) -> (r: Quantity)
    requires
        x.wf(),
    ensures
        r.wf(),
        r.dim == dim_force(),
        r.value@ == qmul(x@, sci(false, 602214076, 15)),
{
    let f = Rational::from_scientific(false, 602214076, 15);
    unit(x, Dim { length: 1, mass: 1, time: -2i16, charge: 0, temperature: 0 }, f)
}

/// Avogadro's number, dimensionless.
pub fn avogadros_number() -> (r: Rational)
    ensures
        r.wf(),
        r@ == sci(false, 602214076, 15),
{
    Rational::from_scientific(false, 602214076, 15)
}

/// The Boltzmann constant, `8.3144621e-3` canonical entropy units.
pub fn boltzmann_constant() -> (r: Quantity)
    ensures
        r.wf(),
        r.dim == dim_entropy(),
        r.value@ == sci(false, 83144621, -10),
{
    Quantity {
        dim: Dim { length: 2, mass: 1, time: -2i16, charge: 0, temperature: -1i16 },
        value: Rational::from_scientific(false, 83144621, -10),
    }
}

} // verus!
