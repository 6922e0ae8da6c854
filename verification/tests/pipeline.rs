//! End-to-end scenarios: the Lennard-Jones pipeline over exact
//! arithmetic, boundary conditions, and the error taxonomy.

use noether::arith::natural::Ord3;
use noether::arith::rational::Rational;
use noether::boundaries::BoundaryConditions;
use noether::boundaries::NoBounds;
use noether::boundaries::Pbc;
use noether::geom::vec3d::Vec3D;
use noether::neighbourlist::SimplePairlist;
use noether::pot_from_positions;
use noether::result::Error;
use noether::topology::lj::LjPotential;
use noether::topology::Potential;
use noether::topology::Topology;
use noether::units::kilojoule_per_mole;
use noether::units::nanometer;
use noether::units::Quantity;

fn one() -> Rational {
    Rational::one()
}

fn nm_val(mantissa: u64, exponent: i32) -> Quantity {
    nanometer(&Rational::from_scientific(false, mantissa, exponent))
}

fn pos(x: Quantity, y: Quantity, z: Quantity) -> Vec3D {
    Vec3D::new(x, y, z)
}

fn zero_nm() -> Quantity {
    nm_val(0, 0)
}

fn two_atom_frame(r_mantissa: u64, r_exponent: i32) -> Vec<Vec3D> {
    vec![
        pos(zero_nm(), zero_nm(), zero_nm()),
        pos(nm_val(r_mantissa, r_exponent), zero_nm(), zero_nm()),
    ]
}

/// `|a - b| < 10^exp` in the canonical energy unit.
fn close_energy(a: &Quantity, mantissa: u64, negative: bool, exponent: i32, tol: i32) -> bool {
    let expected = kilojoule_per_mole(&Rational::from_scientific(negative, mantissa, exponent));
    let bound = kilojoule_per_mole(&Rational::from_scientific(false, 1, tol));
    matches!(a.sub(&expected).abs().cmp(&bound), Ord3::Less)
}

fn lj_fluid_topology(num_atoms: usize, sigma_mantissa: u64, cutoff_mantissa: u64, cutoff_exp: i32)
    -> Topology {
    Topology::lj_fluid(
        "Me".to_string(),
        num_atoms,
        nm_val(sigma_mantissa, -4),
        kilojoule_per_mole(&one()),
        nm_val(cutoff_mantissa, cutoff_exp),
    )
    .unwrap()
}

#[test]
fn check_update_regenerate() {
    let mut pairlist = SimplePairlist::new(Some(nm_val(12, -1))).unwrap();
    let boundaries = NoBounds;
    let positions = vec![
        pos(zero_nm(), zero_nm(), zero_nm()),
        pos(nm_val(1, 0), zero_nm(), zero_nm()),
        pos(zero_nm(), nm_val(1, 0), zero_nm()),
        pos(zero_nm(), zero_nm(), nm_val(1, 0)),
        pos(nm_val(2, 0), zero_nm(), zero_nm()),
    ];
    pairlist.regenerate(&positions, &boundaries).unwrap();
    let one_nm2 = nm_val(1, 0).mul(&nm_val(1, 0));
    {
        let pairs = pairlist.iter();
        assert_eq!(pairs.len(), 4);
        let expected = [(0, 1), (0, 2), (0, 3), (1, 4)];
        for (k, (i, j)) in expected.iter().enumerate() {
            assert_eq!(pairs[k].i, *i);
            assert_eq!(pairs[k].j, *j);
            assert!(pairs[k].r_squared.eq_value(&one_nm2));
        }
    }
    let moved = vec![
        pos(zero_nm(), zero_nm(), zero_nm()),
        pos(nm_val(1, 0), zero_nm(), zero_nm()),
        pos(zero_nm(), nm_val(15, -1), zero_nm()),
        pos(zero_nm(), zero_nm(), nm_val(1, 0)),
        pos(nm_val(1, 0), zero_nm(), zero_nm()),
    ];
    pairlist.update(&moved, &boundaries).unwrap();
    let nm225 = nm_val(15, -1).mul(&nm_val(15, -1));
    {
        let pairs = pairlist.iter();
        assert_eq!(pairs.len(), 4);
        assert!(pairs[0].r_squared.eq_value(&one_nm2));
        assert!(pairs[1].r_squared.eq_value(&nm225));
        assert!(pairs[2].r_squared.eq_value(&one_nm2));
        assert!(pairs[3].r_squared.is_zero());
    }
    pairlist.regenerate(&moved, &boundaries).unwrap();
    {
        let pairs = pairlist.iter();
        assert_eq!(pairs.len(), 4);
        let expected = [(0, 1), (0, 3), (0, 4), (1, 4)];
        for (k, (i, j)) in expected.iter().enumerate() {
            assert_eq!(pairs[k].i, *i);
            assert_eq!(pairs[k].j, *j);
        }
        assert!(pairs[0].r_squared.eq_value(&one_nm2));
        assert!(pairs[1].r_squared.eq_value(&one_nm2));
        assert!(pairs[2].r_squared.eq_value(&one_nm2));
        assert!(pairs[3].r_squared.is_zero());
    }
}

#[test]
fn regenerate_is_idempotent() {
    let mut first = SimplePairlist::new(Some(nm_val(12, -1))).unwrap();
    let mut second = SimplePairlist::new(Some(nm_val(12, -1))).unwrap();
    let positions = vec![
        pos(zero_nm(), zero_nm(), zero_nm()),
        pos(nm_val(1, 0), zero_nm(), zero_nm()),
        pos(zero_nm(), nm_val(1, 0), zero_nm()),
    ];
    first.regenerate(&positions, &NoBounds).unwrap();
    second.regenerate(&positions, &NoBounds).unwrap();
    let a = first.iter();
    let b = second.iter();
    assert_eq!(a.len(), b.len());
    for k in 0..a.len() {
        assert_eq!(a[k].i, b[k].i);
        assert_eq!(a[k].j, b[k].j);
        assert!(a[k].r_squared.eq_value(&b[k].r_squared));
    }
}

#[test]
fn two_atom_open_space_scan() {
    let topol = lj_fluid_topology(2, 3405, 12, -1);
    let frames = vec![
        two_atom_frame(30, -2),
        two_atom_frame(3405, -4),
        two_atom_frame(50, -2),
        two_atom_frame(80, -2),
        two_atom_frame(11999, -4),
        two_atom_frame(12001, -4),
    ];
    let energies = pot_from_positions(&frames, &topol, &NoBounds).unwrap();
    assert_eq!(energies.len(), 6);
    assert!(close_energy(&energies[0], 9732164204805601, false, -15, -12));
    assert!(close_energy(&energies[1], 2086644574671748, false, -18, -12));
    assert!(close_energy(&energies[2], 35709087139869633, true, -17, -12));
    assert!(close_energy(&energies[3], 21552573968359898, true, -18, -12));
    assert!(close_energy(&energies[4], 10430813965090626, true, -22, -12));
    assert!(energies[5].is_zero());
}

#[test]
fn equal_radius_scaling() {
    let doubled_sigma = Topology::lj_fluid(
        "Me".to_string(),
        2,
        nm_val(6810, -4),
        kilojoule_per_mole(&one()),
        nm_val(12, -1),
    )
    .unwrap();
    let halved_distance = Topology::lj_fluid(
        "Me".to_string(),
        2,
        nm_val(3405, -4),
        kilojoule_per_mole(&one()),
        nm_val(6, -1),
    )
    .unwrap();
    let e1 = pot_from_positions(&vec![two_atom_frame(50, -2)], &doubled_sigma, &NoBounds)
        .unwrap();
    let e2 = pot_from_positions(&vec![two_atom_frame(25, -2)], &halved_distance, &NoBounds)
        .unwrap();
    assert!(e1[0].eq_value(&e2[0]));
    assert!(!e1[0].is_zero());
}

#[test]
fn mic_boundary_unit() {
    let pbc = Pbc::cubic(nm_val(2, 0));
    let a = pos(nm_val(1, -1), zero_nm(), zero_nm());
    let b = pos(nm_val(19, -1), zero_nm(), zero_nm());
    let d2 = pbc.dist2(&a, &b);
    let expected = nm_val(2, -1).mul(&nm_val(2, -1));
    let open = nm_val(18, -1).mul(&nm_val(18, -1));
    assert!(d2.eq_value(&expected));
    assert!(!d2.eq_value(&open));
    let d2_rev = pbc.dist2(&b, &a);
    assert!(d2.eq_value(&d2_rev));
}

#[test]
fn mic_lattice_translation() {
    let pbc = Pbc::cubic(nm_val(2, 0));
    let a = pos(nm_val(1, -1), zero_nm(), zero_nm());
    let a_shifted = pos(nm_val(21, -1), zero_nm(), zero_nm());
    let b = pos(nm_val(19, -1), zero_nm(), zero_nm());
    let d2 = pbc.dist2(&a, &b);
    let d2_shifted = pbc.dist2(&a_shifted, &b);
    assert!(d2.eq_value(&d2_shifted));
}

#[test]
fn consistency_check_rejection() {
    let topol = lj_fluid_topology(2, 3405, 25, -1);
    let frames = vec![two_atom_frame(5, -1)];
    let result = pot_from_positions(&frames, &topol, &Pbc::cubic(nm_val(2, 0)));
    assert!(matches!(result, Err(Error::MinimumImageConventionNotJustified)));
}

#[test]
fn consistency_check_acceptance() {
    let pbc = Pbc::cubic(nm_val(2, 0));
    let fitting = SimplePairlist::new(Some(nm_val(19, -1))).unwrap();
    assert!(pbc.pairlist_checks(&fitting.cutoff()).is_ok());
    let oversized = SimplePairlist::new(Some(nm_val(25, -1))).unwrap();
    assert!(matches!(
        pbc.pairlist_checks(&oversized.cutoff()),
        Err(Error::MinimumImageConventionNotJustified)
    ));
    assert!(NoBounds.pairlist_checks(&oversized.cutoff()).is_ok());
    assert!(pbc.pairlist_checks(&None).is_ok());
}

#[test]
fn illegal_topology() {
    let potential = LjPotential::lj_fluid(
        99,
        nm_val(3405, -4),
        kilojoule_per_mole(&one()),
        nm_val(12, -1),
    )
    .unwrap();
    let names: Vec<String> = (0..100).map(|_| "Me".to_string()).collect();
    let result = Topology::new(names, vec![Potential::LennardJones(potential)]);
    assert!(matches!(result, Err(Error::IllegalTopology)));
}

#[test]
fn cutoff_required() {
    assert!(matches!(SimplePairlist::new(None), Err(Error::CutoffRequired)));
}

#[test]
fn neighbourlist_not_compatible() {
    let potential = Potential::LennardJones(
        LjPotential::lj_fluid(2, nm_val(3405, -4), kilojoule_per_mole(&one()), nm_val(12, -1))
            .unwrap(),
    );
    let list = SimplePairlist::new(Some(nm_val(1, 0))).unwrap();
    assert!(matches!(
        potential.compute_potential(&list),
        Err(Error::NeighbourlistNotCompatible)
    ));
}

#[test]
fn position_topology_mismatch() {
    let topol = lj_fluid_topology(2, 3405, 12, -1);
    let frames = vec![vec![pos(zero_nm(), zero_nm(), zero_nm())]];
    let result = pot_from_positions(&frames, &topol, &NoBounds);
    assert!(matches!(result, Err(Error::PositionTopologyMismatch)));
}

#[test]
fn overlapping_atoms_rejected() {
    let topol = lj_fluid_topology(2, 3405, 12, -1);
    let frames = vec![two_atom_frame(0, 0)];
    let result = pot_from_positions(&frames, &topol, &NoBounds);
    assert!(matches!(result, Err(Error::ValueError(_))));
}

#[test]
fn shift_zero_at_cutoff() {
    let potential = LjPotential::lj_fluid(
        2,
        nm_val(3405, -4),
        kilojoule_per_mole(&one()),
        nm_val(12, -1),
    )
    .unwrap();
    let rcut2 = nm_val(12, -1).mul(&nm_val(12, -1));
    let term = potential.potential(0, 1, &rcut2);
    assert!(term.is_zero());
}

#[test]
fn verlet_cell_list_pairs() {
    let mut list = noether::neighbourlist::verlet::VerletPairlist::with_buffer(nm_val(12, -1), nm_val(3, -1), 4);
    let positions = vec![
        pos(zero_nm(), zero_nm(), zero_nm()),
        pos(nm_val(1, 0), zero_nm(), zero_nm()),
        pos(zero_nm(), nm_val(1, 0), zero_nm()),
        pos(zero_nm(), zero_nm(), nm_val(1, 0)),
        pos(nm_val(2, 0), zero_nm(), zero_nm()),
    ];
    list.regenerate(&positions, &NoBounds).unwrap();
    let one_nm2 = nm_val(1, 0).mul(&nm_val(1, 0));
    let pairs = list.iter();
    assert_eq!(pairs.len(), 4);
    let expected = [(0, 1), (0, 2), (0, 3), (1, 4)];
    for (i, j) in expected.iter() {
        assert!(pairs.iter().any(|p| p.i == *i && p.j == *j));
    }
    for p in pairs.iter() {
        assert!(p.i < p.j);
        assert!(p.r_squared.eq_value(&one_nm2));
    }
}

#[test]
fn xvg_column_selection() {
    let rows: Vec<Vec<String>> = vec![
        vec!["#".to_string(), "comment".to_string()],
        vec!["@".to_string(), "legend".to_string()],
        vec!["0.0".to_string(), "9.7".to_string()],
        vec![],
        vec!["1.0".to_string(), "-0.3".to_string()],
    ];
    let column = noether::io::xvg_column(&rows, 1).unwrap();
    assert_eq!(column, vec!["9.7".to_string(), "-0.3".to_string()]);
    let too_narrow: Vec<Vec<String>> = vec![vec!["0.0".to_string()]];
    assert!(matches!(
        noether::io::xvg_column(&too_narrow, 1),
        Err(Error::ValueError(_))
    ));
}

#[test]
fn error_descriptions() {
    assert_eq!(Error::IllegalTopology.get_variant_str(), "IllegalTopology");
    assert_eq!(
        Error::CutoffRequired.get_description_str(),
        "Cutoff required but not found".to_string()
    );
    assert_eq!(
        Error::ValueError("why").get_description_str(),
        "Illegal combination of arguments: why".to_string()
    );
    assert_eq!(
        Error::MinimumImageConventionNotJustified.get_variant_str(),
        "MinimumImageConventionNotJustified"
    );
}
