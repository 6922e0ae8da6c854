//! Unit conversion ratio checks over the exact quantity kernel.

use noether::arith::natural::Ord3;
use noether::arith::rational::Rational;
use noether::units::Quantity;
use noether::units::angstrom;
use noether::units::amu;
use noether::units::avogadros_number;
use noether::units::coulomb;
use noether::units::dalton;
use noether::units::day;
use noether::units::elementary_charge;
use noether::units::gram;
use noether::units::hour;
use noether::units::joule_per_mole;
use noether::units::kelvin;
use noether::units::kilocalorie_per_mole;
use noether::units::kilogram;
use noether::units::kilojoule;
use noether::units::kilojoule_per_mole;
use noether::units::kilonewton;
use noether::units::kilonewton_per_mole;
use noether::units::meter;
use noether::units::microkelvin;
use noether::units::minute;
use noether::units::nanometer;
use noether::units::newton_per_mole;
use noether::units::picosecond;
use noether::units::second;
use noether::units::year;

fn one() -> Rational {
    Rational::one()
}

fn tiny(exp: i32) -> Rational {
    Rational::from_scientific(false, 1, exp)
}

/// `|a - b| < tol * unit`, with `tol` a power of ten.
fn close(a: &Quantity, b: &Quantity, unit: &Quantity, exp: i32) -> bool {
    let diff = a.sub(b).abs();
    let bound = unit.scale(&tiny(exp));
    matches!(diff.cmp(&bound), Ord3::Less)
}

#[test]
fn units_check_length_ratios() {
    let nm = nanometer(&one());
    assert!(close(&nm, &nanometer(&one()), &nm, -200));
    assert!(close(&nm, &angstrom(&Rational::from_u64(10)), &nm, -15));
    assert!(close(&nm, &meter(&tiny(-9)), &nm, -15));
}

#[test]
fn units_check_mass_ratios() {
    let da = dalton(&one());
    assert!(close(&da, &dalton(&one()), &da, -200));
    assert!(close(&da, &amu(&one()), &da, -200));
    let gram_per_avogadro = gram(&one()).scale(&one().div(&avogadros_number()));
    assert!(close(&da, &gram_per_avogadro, &da, -200));
    let kg = kilogram(&Rational::from_scientific(false, 166053906660, -38));
    assert!(close(&da, &kg, &da, -9));
}

#[test]
fn units_check_time_ratios() {
    let ps = picosecond(&one());
    assert!(close(&ps, &picosecond(&one()), &ps, -200));
    assert!(close(&ps, &second(&tiny(-12)), &ps, -15));
    assert!(close(&second(&Rational::from_u64(60)), &minute(&one()), &ps, -15));
    assert!(close(&minute(&Rational::from_u64(60)), &hour(&one()), &ps, -15));
    assert!(close(&hour(&Rational::from_u64(24)), &day(&one()), &ps, -15));
    assert!(close(&day(&Rational::from_u64(365)), &year(&one()), &ps, -15));
}

#[test]
fn units_check_charge_ratios() {
    let e = elementary_charge(&one());
    assert!(close(&e, &elementary_charge(&one()), &e, -200));
    assert!(close(&e, &coulomb(&Rational::from_scientific(false, 160217662, -27)), &e, -200));
}

#[test]
fn units_check_temperature_ratios() {
    let k = kelvin(&one());
    assert!(close(&k, &kelvin(&one()), &k, -200));
    assert!(close(&k, &microkelvin(&Rational::from_scientific(false, 1, 6)), &k, -200));
}

#[test]
fn units_check_energy_ratios() {
    let kjpermol = kilojoule_per_mole(&one());
    assert!(close(&kjpermol, &kilojoule_per_mole(&one()), &kjpermol, -200));
    let avogadro_kjpermol = kilojoule_per_mole(&avogadros_number());
    assert!(close(&avogadro_kjpermol, &kilojoule(&one()), &kjpermol, -200));
    assert!(close(&kjpermol, &joule_per_mole(&Rational::from_u64(1000)), &kjpermol, -200));
    let kcal = kilocalorie_per_mole(&one());
    assert!(close(&kilojoule_per_mole(&Rational::from_u64(4184)), &kcal, &kjpermol, -200));
}

#[test]
fn units_check_force_ratios() {
    let knpermol = kilonewton_per_mole(&one());
    assert!(close(&knpermol, &kilonewton_per_mole(&one()), &knpermol, -200));
    let avogadro_knpermol = kilonewton_per_mole(&avogadros_number());
    assert!(close(&avogadro_knpermol, &kilonewton(&one()), &knpermol, -200));
    assert!(close(&knpermol, &newton_per_mole(&Rational::from_u64(1000)), &knpermol, -200));
}

#[test]
fn mod_check_length_ratios() {
    let nm = nanometer(&one());
    assert!(close(&nm, &nanometer(&one()), &nm, -200));
    assert!(close(&nm, &angstrom(&Rational::from_u64(10)), &nm, -15));
    assert!(close(&nm, &meter(&tiny(-9)), &nm, -15));
}

#[test]
fn mod_check_mass_ratios() {
    let da = dalton(&one());
    assert!(close(&da, &dalton(&one()), &da, -200));
    assert!(close(&da, &amu(&one()), &da, -200));
    let gram_per_avogadro = gram(&one()).scale(&one().div(&avogadros_number()));
    assert!(close(&da, &gram_per_avogadro, &da, -200));
    let kg = kilogram(&Rational::from_scientific(false, 166053906660, -38));
    assert!(close(&da, &kg, &da, -9));
}

#[test]
fn mod_check_time_ratios() {
    let ps = picosecond(&one());
    assert!(close(&ps, &picosecond(&one()), &ps, -200));
    assert!(close(&ps, &second(&tiny(-12)), &ps, -15));
    assert!(close(&second(&Rational::from_u64(60)), &minute(&one()), &ps, -15));
    assert!(close(&minute(&Rational::from_u64(60)), &hour(&one()), &ps, -15));
    assert!(close(&hour(&Rational::from_u64(24)), &day(&one()), &ps, -15));
    assert!(close(&day(&Rational::from_u64(365)), &year(&one()), &ps, -15));
}

#[test]
fn mod_check_charge_ratios() {
    let e = elementary_charge(&one());
    assert!(close(&e, &elementary_charge(&one()), &e, -200));
    assert!(close(&e, &coulomb(&Rational::from_scientific(false, 160217662, -27)), &e, -200));
}

#[test]
fn mod_check_temperature_ratios() {
    let k = kelvin(&one());
    assert!(close(&k, &kelvin(&one()), &k, -200));
    assert!(close(&k, &microkelvin(&Rational::from_scientific(false, 1, 6)), &k, -200));
}

#[test]
fn mod_check_energy_ratios() {
    let kjpermol = kilojoule_per_mole(&one());
    assert!(close(&kjpermol, &kilojoule_per_mole(&one()), &kjpermol, -200));
    let avogadro_kjpermol = kilojoule_per_mole(&avogadros_number());
    assert!(close(&avogadro_kjpermol, &kilojoule(&one()), &kjpermol, -200));
    assert!(close(&kjpermol, &joule_per_mole(&Rational::from_u64(1000)), &kjpermol, -200));
    let kcal = kilocalorie_per_mole(&one());
    assert!(close(&kilojoule_per_mole(&Rational::from_u64(4184)), &kcal, &kjpermol, -200));
}

#[test]
fn mod_check_force_ratios() {
    let knpermol = kilonewton_per_mole(&one());
    assert!(close(&knpermol, &kilonewton_per_mole(&one()), &knpermol, -200));
    let avogadro_knpermol = kilonewton_per_mole(&avogadros_number());
    assert!(close(&avogadro_knpermol, &kilonewton(&one()), &knpermol, -200));
    assert!(close(&knpermol, &newton_per_mole(&Rational::from_u64(1000)), &knpermol, -200));
}
