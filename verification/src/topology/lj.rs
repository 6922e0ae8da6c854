//! The Lennard-Jones potential: per-atom parameter rows, the
//! precomputed mixed pair table, and the shifted pair term.

use vstd::prelude::*;
use crate::arith::rational::Rational;
use crate::arith::rational::Qv;
use crate::arith::rational::qzero;
use crate::arith::rational::q_int;
use crate::arith::rational::qadd;
use crate::arith::rational::qsub;
use crate::arith::rational::qmul;
use crate::arith::rational::qdiv;
use crate::arith::rational::qeq;
use crate::arith::rational::sq;
use crate::units::Quantity;
use crate::units::Dim;
use crate::units::dim_length;
use crate::units::dim_area;
use crate::units::dim_energy;
use crate::neighbourlist::NeighbourlistParams;
use crate::neighbourlist::SimplePairlist;
use crate::neighbourlist::PairV;
use crate::neighbourlist::pair_views;
use crate::neighbourlist::pairs_wf;
use crate::result::Error;
use crate::result::Result;

verus! {

/// The shifted Lennard-Jones pair energy:
/// `4 eps ((s2/r2)^6 - (s2/r2)^3) - shift`, written over the exact
/// rational values.
pub open spec fn lj_val(r2: Qv, sigma2: Qv, epsilon: Qv, shift: Qv) -> Qv {
    let ratio = qdiv(sigma2, r2);
    let six = qmul(qmul(ratio, ratio), ratio);
    let twelve = qmul(six, six);
    qsub(qmul(qmul(epsilon, q_int(4)), qsub(twelve, six)), shift)
}

/// Compute the Lennard-Jones energy of a pair of atoms.
///
/// The squared distance must be non-zero: with exact arithmetic there is
/// no infinity to absorb an overlapping pair.
pub fn lennard_jones(r_squared: &Quantity, sigma_squared: &Quantity, epsilon: &Quantity, shift:
    &Quantity) -> (r: Quantity)
    requires
        r_squared.wf(),
        sigma_squared.wf(),
        epsilon.wf(),
        shift.wf(),
        r_squared.dim == dim_area(),
        sigma_squared.dim == dim_area(),
        epsilon.dim == dim_energy(),
        shift.dim == dim_energy(),
        r_squared.value@.n != 0,
    ensures
        r.wf(),
        r.dim == dim_energy(),
        r.value@ == lj_val(r_squared.value@, sigma_squared.value@, epsilon.value@, shift.value@),
{
    let ratio = sigma_squared.div(r_squared);
    let six = ratio.mul(&ratio).mul(&ratio);
    let twelve = six.mul(&six);
    epsilon.scale(&Rational::from_u64(4)).mul(&twelve.sub(&six)).sub(shift)
}

/// A row of Lennard-Jones parameters.
pub struct LjParams {
    pub sigma: Quantity,
    pub epsilon: Quantity,
}

impl LjParams {
    /// Well-formed rows: a length and an energy.
    pub open spec fn wf(&self) -> bool {
        &&& self.sigma.wf()
        &&& self.epsilon.wf()
        &&& self.sigma.dim == dim_length()
        &&& self.epsilon.dim == dim_energy()
    }
}

/// Mixed Lennard-Jones parameters for a pair of rows.
pub struct LjParamsPair {
    pub sigma_squared: Quantity,
    pub epsilon: Quantity,
    pub shift: Quantity,
}

/// Whether the product of two epsilons is the square of a rational, so
/// that geometric mixing is exact.
pub open spec fn mixable(ea: Qv, eb: Qv) -> bool {
    exists|k: int| k >= 0 && #[trigger] sq(k) == qmul(ea, eb).n * qmul(ea, eb).d
}

impl LjParamsPair {
    /// Well-formed mixed parameters: a squared length and two energies.
    pub open spec fn wf(&self) -> bool {
        &&& self.sigma_squared.wf()
        &&& self.epsilon.wf()
        &&& self.shift.wf()
        &&& self.sigma_squared.dim == dim_area()
        &&& self.epsilon.dim == dim_energy()
        &&& self.shift.dim == dim_energy()
    }

    /// Whether this entry is the exact geometric mixture of two rows at
    /// a cutoff: the mixed `sigma^2` is the product of the sigmas, the
    /// mixed epsilon squares to the product of the epsilons, and the
    /// shift is the unshifted pair term at the squared cutoff.
    pub open spec fn mixes(&self, a: LjParams, b: LjParams, cutoff: Quantity) -> bool {
        &&& self.sigma_squared.value@ == qmul(a.sigma.value@, b.sigma.value@)
        &&& qeq(
            qmul(self.epsilon.value@, self.epsilon.value@),
            qmul(a.epsilon.value@, b.epsilon.value@),
        )
        &&& self.epsilon.value@.n >= 0
        &&& self.shift.value@ == lj_val(
            qmul(cutoff.value@, cutoff.value@),
            self.sigma_squared.value@,
            self.epsilon.value@,
            qzero(),
        )
    }

    /// Mix two parameter rows with geometric averages for epsilon and
    /// sigma, precomputing the shift that makes the pair term vanish at
    /// the cutoff.  Fails when the epsilon product has no exact square
    /// root.
    pub fn new(a: &LjParams, b: &LjParams, cutoff: &Quantity) -> (r: Result<LjParamsPair>)
        requires
            a.wf(),
            b.wf(),
            cutoff.wf(),
            cutoff.dim == dim_length(),
            cutoff.value@.n != 0,
        ensures
            match r {
                Ok(p) => p.wf() && p.mixes(*a, *b, *cutoff) && mixable(
                    a.epsilon.value@,
                    b.epsilon.value@,
                ),
                Err(e) => e is ValueError && !mixable(a.epsilon.value@, b.epsilon.value@),
            },
    {
        let sigma_squared = a.sigma.mul(&b.sigma);
        let eps_product = a.epsilon.mul(&b.epsilon);
        let epsilon = match eps_product.sqrt() {
            Some(e) => e,
            None => {
                proof {
                    let pv = eps_product.value@;
                    if pv.n < 0 {
                        if exists|k: int| k >= 0 && #[trigger] sq(k) == pv.n * pv.d {
                            let k = choose|k: int| k >= 0 && #[trigger] sq(k) == pv.n * pv.d;
                            assert(k * k >= 0 && pv.n * pv.d < 0) by (nonlinear_arith)
                                requires
                                    pv.n < 0,
                                    pv.d > 0,
                            ;
                        }
                    }
                }
                return Err(Error::ValueError("epsilon product has no exact square root"));
            },
        };
        let cutoff_squared = cutoff.mul(cutoff);
        let ghost cs = cutoff_squared.value@;
        proof {
            crate::arith::rational::lemma_pos_mul_pos(cutoff.value@.d, cutoff.value@.d);
            assert(cs.n != 0) by (nonlinear_arith)
                requires
                    cs.n == cutoff.value@.n * cutoff.value@.n,
                    cutoff.value@.n != 0,
            ;
        }
        let zero_energy = Quantity::zero(epsilon.dim);
        let shift = lennard_jones(&cutoff_squared, &sigma_squared, &epsilon, &zero_energy);
        Ok(LjParamsPair { sigma_squared, epsilon, shift })
    }
}

/// The Lennard-Jones potential over a columnar topology: per-atom
/// parameter indices into rows, and the dense precomputed pair table.
pub struct LjPotential {
    atoms: Vec<u16>,
    lj_params: Vec<LjParams>,
    lj_params_pairs: Vec<Vec<LjParamsPair>>,
    lj_cutoff: Quantity,
}

impl LjPotential {
    /// The representation invariant: every atom's parameter index
    /// resolves to a row, and the pair table holds the exact geometric
    /// mixture of every pair of rows, shifted to vanish at the cutoff.
    pub closed spec fn wf(&self) -> bool {
        &&& self.lj_cutoff.wf()
        &&& self.lj_cutoff.dim == dim_length()
        &&& self.lj_cutoff.value@.n != 0
        &&& forall|k: int| 0 <= k < self.atoms@.len() ==> (#[trigger] self.atoms@[k]) < self
            .lj_params@.len()
        &&& forall|k: int| 0 <= k < self.lj_params@.len() ==> (#[trigger] self.lj_params@[k]).wf()
        &&& self.lj_params_pairs@.len() == self.lj_params@.len()
        &&& forall|r: int| 0 <= r < self.lj_params_pairs@.len() ==> (
        #[trigger] self.lj_params_pairs@[r])@.len() == self.lj_params@.len()
        &&& forall|r: int, c: int| 0 <= r < self.lj_params@.len() && 0 <= c < self.lj_params@.len()
            ==> (#[trigger] self.lj_params_pairs@[r]@[c]).wf() && self.lj_params_pairs@[r]@[c].mixes(
            self.lj_params@[r],
            self.lj_params@[c],
            self.lj_cutoff,
        )
    }

    /// The number of atoms the potential covers.
    pub closed spec fn num_atoms_spec(&self) -> int {
        self.atoms@.len() as int
    }

    /// The ghost cutoff value.
    pub closed spec fn cutoff_spec(&self) -> Qv {
        self.lj_cutoff.value@
    }

    /// The ghost parameter index of an atom.
    pub closed spec fn atom_index(&self, i: int) -> int {
        self.atoms@[i] as int
    }

    /// The mixed squared sigma for a pair of atoms.
    pub closed spec fn sigma2_of(&self, i: int, j: int) -> Qv {
        self.lj_params_pairs@[self.atom_index(i)]@[self.atom_index(j)].sigma_squared.value@
    }

    /// The mixed epsilon for a pair of atoms.
    pub closed spec fn epsilon_of(&self, i: int, j: int) -> Qv {
        self.lj_params_pairs@[self.atom_index(i)]@[self.atom_index(j)].epsilon.value@
    }

    /// The precomputed shift for a pair of atoms.
    pub closed spec fn shift_of(&self, i: int, j: int) -> Qv {
        self.lj_params_pairs@[self.atom_index(i)]@[self.atom_index(j)].shift.value@
    }

    /// The pair term of two atoms at a squared distance.
    pub open spec fn pair_term(&self, i: int, j: int, r2: Qv) -> Qv {
        lj_val(r2, self.sigma2_of(i, j), self.epsilon_of(i, j), self.shift_of(i, j))
    }

    /// The parameter rows backing the potential.
    pub closed spec fn rows(&self) -> Seq<LjParams> {
        self.lj_params@
    }

    /// The precomputed mixed parameters are the exact geometric
    /// mixture of the atoms' own rows: the mixed squared sigma is the
    /// product of the sigmas and the mixed epsilon squares to the
    /// product of the epsilons.
    pub proof fn lemma_mixing_consistency(&self, i: int, j: int)
        requires
            self.wf(),
            0 <= i < self.num_atoms_spec(),
            0 <= j < self.num_atoms_spec(),
        ensures
            self.sigma2_of(i, j) == qmul(
                self.rows()[self.atom_index(i)].sigma.value@,
                self.rows()[self.atom_index(j)].sigma.value@,
            ),
            qeq(
                qmul(self.epsilon_of(i, j), self.epsilon_of(i, j)),
                qmul(
                    self.rows()[self.atom_index(i)].epsilon.value@,
                    self.rows()[self.atom_index(j)].epsilon.value@,
                ),
            ),
    {
    }

    /// Build a potential from per-atom indices, parameter rows and a
    /// cutoff, precomputing the whole mixed pair table.  An atom whose
    /// index resolves to no row is an illegal topology.
    pub fn new(atoms: Vec<u16>, lj_params: Vec<LjParams>, lj_cutoff: Quantity) -> (r: Result<
        LjPotential,
    >)
        requires
            lj_cutoff.wf(),
            lj_cutoff.dim == dim_length(),
            lj_cutoff.value@.n != 0,
            forall|k: int| 0 <= k < lj_params@.len() ==> (#[trigger] lj_params@[k]).wf(),
        ensures
            match r {
                Ok(p) => {
                    &&& p.wf()
                    &&& p.num_atoms_spec() == atoms@.len()
                    &&& p.cutoff_spec() == lj_cutoff.value@
                    &&& p.rows() == lj_params@
                    &&& forall|k: int| 0 <= k < atoms@.len() ==> #[trigger] p.atom_index(k)
                        == atoms@[k] as int
                    &&& forall|k: int| 0 <= k < atoms@.len() ==> (#[trigger] atoms@[k]) < lj_params@.len()
                },
                Err(e) => {
                    &&& (e is IllegalTopology || e is ValueError)
                    &&& e is IllegalTopology <==> exists|k: int| 0 <= k < atoms@.len() && (
                    #[trigger] atoms@[k]) >= lj_params@.len()
                    &&& e is ValueError <==> (forall|k: int| 0 <= k < atoms@.len() ==> (
                    #[trigger] atoms@[k]) < lj_params@.len()) && exists|a: int, b: int| 0 <= a
                        < lj_params@.len() && 0 <= b < lj_params@.len() && !mixable(
                        (#[trigger] lj_params@[a]).epsilon.value@,
                        (#[trigger] lj_params@[b]).epsilon.value@,
                    )
                },
            },
    {
        let n = atoms.len();
        let mut k: usize = 0;
        while k < n
            invariant
                k <= n,
                n == atoms@.len(),
                forall|m: int| 0 <= m < k ==> (#[trigger] atoms@[m]) < lj_params@.len(),
            decreases n - k,
        {
            if atoms[k] as usize >= lj_params.len() {
                return Err(Error::IllegalTopology);
            }
            k = k + 1;
        }
        let rows = lj_params.len();
        let mut lj_params_pairs: Vec<Vec<LjParamsPair>> = Vec::new();
        let mut a: usize = 0;
        while a < rows
            invariant
                a <= rows,
                rows == lj_params@.len(),
                forall|m: int| 0 <= m < atoms@.len() ==> (#[trigger] atoms@[m]) < lj_params@.len(),
                lj_cutoff.wf(),
                lj_cutoff.dim == dim_length(),
                lj_cutoff.value@.n != 0,
                forall|m: int| 0 <= m < rows ==> (#[trigger] lj_params@[m]).wf(),
                lj_params_pairs@.len() == a,
                forall|m: int| 0 <= m < a ==> (#[trigger] lj_params_pairs@[m])@.len() == rows,
                forall|m: int, c: int| 0 <= m < a && 0 <= c < rows ==> (
                #[trigger] lj_params_pairs@[m]@[c]).wf() && lj_params_pairs@[m]@[c].mixes(
                    lj_params@[m],
                    lj_params@[c],
                    lj_cutoff,
                ),
            decreases rows - a,
        {
            let mut row: Vec<LjParamsPair> = Vec::new();
            let mut b: usize = 0;
            while b < rows
                invariant
                    b <= rows,
                    a < rows,
                    rows == lj_params@.len(),
                    forall|m: int| 0 <= m < atoms@.len() ==> (#[trigger] atoms@[m]) < lj_params@.len(),
                    lj_cutoff.wf(),
                    lj_cutoff.dim == dim_length(),
                    lj_cutoff.value@.n != 0,
                    forall|m: int| 0 <= m < rows ==> (#[trigger] lj_params@[m]).wf(),
                    row@.len() == b,
                    forall|c: int| 0 <= c < b ==> (#[trigger] row@[c]).wf() && row@[c].mixes(
                        lj_params@[a as int],
                        lj_params@[c],
                        lj_cutoff,
                    ),
                decreases rows - b,
            {
                match LjParamsPair::new(&lj_params[a], &lj_params[b], &lj_cutoff) {
                    Ok(p) => {
                        row.push(p);
                    },
                    Err(e) => {
                        return Err(e);
                    },
                }
                b = b + 1;
            }
            lj_params_pairs.push(row);
            a = a + 1;
        }
        Ok(LjPotential { atoms, lj_params, lj_params_pairs, lj_cutoff })
    }

    /// A potential for a homogeneous Lennard-Jones fluid: one parameter
    /// row shared by every atom.
    pub fn lj_fluid(num_atoms: usize, sigma: Quantity, epsilon: Quantity, cutoff: Quantity) -> (r:
        Result<LjPotential>)
        requires
            sigma.wf(),
            epsilon.wf(),
            cutoff.wf(),
            sigma.dim == dim_length(),
            epsilon.dim == dim_energy(),
            cutoff.dim == dim_length(),
            cutoff.value@.n != 0,
        ensures
            r is Ok,
            r->Ok_0.wf(),
            r->Ok_0.num_atoms_spec() == num_atoms,
            r->Ok_0.cutoff_spec() == cutoff.value@,
            r->Ok_0.rows().len() == 1,
            r->Ok_0.rows()[0].sigma.value@ == sigma.value@,
            r->Ok_0.rows()[0].epsilon.value@ == epsilon.value@,
    {
        let lj_param = LjParams { sigma, epsilon };
        let mut atoms: Vec<u16> = Vec::new();
        let mut k: usize = 0;
        while k < num_atoms
            invariant
                k <= num_atoms,
                atoms@.len() == k,
                forall|m: int| 0 <= m < k ==> (#[trigger] atoms@[m]) == 0u16,
            decreases num_atoms - k,
        {
            atoms.push(0);
            k = k + 1;
        }
        let mut lj_params: Vec<LjParams> = Vec::new();
        proof {
            let ev = lj_param.epsilon.value@;
            let a = qmul(ev, ev).n;
            let b = qmul(ev, ev).d;
            assert(a == ev.n * ev.n && b == ev.d * ev.d);
            if ev.n >= 0 {
                let w = ev.n * ev.d;
                assert(w >= 0 && w * w == a * b) by (nonlinear_arith)
                    requires
                        w == ev.n * ev.d,
                        a == ev.n * ev.n,
                        b == ev.d * ev.d,
                        ev.n >= 0,
                        ev.d > 0,
                ;
                assert(sq(w) == a * b);
            } else {
                let w = -(ev.n * ev.d);
                assert(w >= 0 && w * w == a * b) by (nonlinear_arith)
                    requires
                        w == -(ev.n * ev.d),
                        a == ev.n * ev.n,
                        b == ev.d * ev.d,
                        ev.n < 0,
                        ev.d > 0,
                ;
                assert(sq(w) == a * b);
            }
            assert(mixable(ev, ev));
        }
        lj_params.push(lj_param);
        let r = LjPotential::new(atoms, lj_params, cutoff);
        match r {
            Ok(p) => Ok(p),
            Err(_) => vstd::pervasive::unreached(),
        }
    }

    /// The number of atoms in the potential.
    pub fn num_atoms(&self) -> (r: usize)
        ensures
            r == self.num_atoms_spec(),
    {
        self.atoms.len()
    }

    /// The neighbourlist parameters required to evaluate the potential.
    pub fn neighbourlist_params(&self) -> (r: NeighbourlistParams)
        requires
            self.wf(),
        ensures
            r.wf(),
            r.cutoff_spec() == self.cutoff_spec(),
    {
        NeighbourlistParams::NonbondedCutoff(self.lj_cutoff.clone())
    }

    /// The mixed Lennard-Jones parameters of atom `i` with atom `j`.
    fn get_lj_pair(&self, i: usize, j: usize) -> (r: &LjParamsPair)
        requires
            self.wf(),
            i < self.num_atoms_spec(),
            j < self.num_atoms_spec(),
        ensures
            r.wf(),
            r.sigma_squared.value@ == self.sigma2_of(i as int, j as int),
            r.epsilon.value@ == self.epsilon_of(i as int, j as int),
            r.shift.value@ == self.shift_of(i as int, j as int),
    {
        let a = self.atoms[i] as usize;
        let b = self.atoms[j] as usize;
        &self.lj_params_pairs[a][b]
    }

    /// The Lennard-Jones energy of one pair of atoms at a non-zero
    /// squared distance.
    pub fn potential(&self, i: usize, j: usize, r_squared: &Quantity) -> (r: Quantity)
        requires
            self.wf(),
            i < self.num_atoms_spec(),
            j < self.num_atoms_spec(),
            r_squared.wf(),
            r_squared.dim == dim_area(),
            r_squared.value@.n != 0,
        ensures
            r.wf(),
            r.dim == dim_energy(),
            r.value@ == self.pair_term(i as int, j as int, r_squared.value@),
    {
        let pair = self.get_lj_pair(i, j);
        lennard_jones(r_squared, &pair.sigma_squared, &pair.epsilon, &pair.shift)
    }

    /// The sum of the pair terms over the first `n` stored pairs.
    pub open spec fn sum_terms(&self, pairs: Seq<PairV>, n: int) -> Qv
        decreases n,
    {
        if n <= 0 {
            qzero()
        } else {
            qadd(self.sum_terms(pairs, n - 1), self.pair_term(pairs[n - 1].i, pairs[n - 1].j,
                pairs[n - 1].r2))
        }
    }

    /// Compute the potential over an entire neighbourlist.  The list's
    /// parameters must match the potential's; every stored pair must
    /// resolve to atoms of the potential at a non-zero separation.
    pub fn compute_potential(&self, neighbourlist: &SimplePairlist) -> (r: Result<Quantity>)
        requires
            self.wf(),
            neighbourlist.wf(),
            forall|k: int| 0 <= k < neighbourlist.pairs_view().len() ==> 0 <= (
            #[trigger] neighbourlist.pairs_view()[k]).i < neighbourlist.pairs_view()[k].j < self
                .num_atoms_spec() && neighbourlist.pairs_view()[k].r2.n != 0,
        ensures
            match r {
                Ok(e) => e.wf() && e.dim == dim_energy() && qeq(
                    self.cutoff_spec(),
                    neighbourlist.cutoff_view(),
                ) && e.value@ == self.sum_terms(
                    neighbourlist.pairs_view(),
                    neighbourlist.pairs_view().len() as int,
                ),
                Err(e) => e is NeighbourlistNotCompatible && !qeq(
                    self.cutoff_spec(),
                    neighbourlist.cutoff_view(),
                ),
            },
    {
        let own_params = self.neighbourlist_params();
        let list_params = neighbourlist.neighbourlist_params();
        if !own_params.matches_params(&list_params) {
            return Err(Error::NeighbourlistNotCompatible);
        }
        let pairs = neighbourlist.iter();
        let n = pairs.len();
        let mut energy = Quantity::zero(Dim { length: 2, mass: 1, time: -2, charge: 0,
            temperature: 0 });
        let mut k: usize = 0;
        while k < n
            invariant
                k <= n,
                n == pairs@.len(),
                self.wf(),
                pairs_wf(pairs@),
                pair_views(pairs@) == neighbourlist.pairs_view(),
                forall|m: int| 0 <= m < n ==> 0 <= (#[trigger] pair_views(pairs@)[m]).i
                    < pair_views(pairs@)[m].j < self.num_atoms_spec() && pair_views(
                    pairs@,
                )[m].r2.n != 0,
                energy.wf(),
                energy.dim == dim_energy(),
                energy.value@ == self.sum_terms(pair_views(pairs@), k as int),
            decreases n - k,
        {
            proof {
                assert(pair_views(pairs@)[k as int] == crate::neighbourlist::pair_view(
                    pairs@[k as int],
                ));
            }
            let term = self.potential(pairs[k].i, pairs[k].j, &pairs[k].r_squared);
            energy = energy.add(&term);
            k = k + 1;
        }
        Ok(energy)
    }

    /// The pair term vanishes exactly at the squared cutoff.
    pub proof fn lemma_shift_zero_at_cutoff(&self, i: int, j: int)
        requires
            self.wf(),
            0 <= i < self.num_atoms_spec(),
            0 <= j < self.num_atoms_spec(),
        ensures
            qeq(
                self.pair_term(i, j, qmul(self.cutoff_spec(), self.cutoff_spec())),
                qzero(),
            ),
    {
        let c2 = qmul(self.cutoff_spec(), self.cutoff_spec());
        let s2 = self.sigma2_of(i, j);
        let e = self.epsilon_of(i, j);
        let sh = self.shift_of(i, j);
        let ratio = qdiv(s2, c2);
        let six = qmul(qmul(ratio, ratio), ratio);
        let twelve = qmul(six, six);
        let a = qmul(qmul(e, q_int(4)), qsub(twelve, six));
        assert(sh == qsub(a, qzero()));
        assert(sh.n == a.n * 1 - 0 * a.d && sh.d == a.d * 1);
        assert(qsub(a, sh).n == a.n * sh.d - sh.n * a.d && qsub(a, sh).d == a.d * sh.d);
        assert(a.n * (a.d * 1) - (a.n * 1 - 0 * a.d) * a.d == 0) by (nonlinear_arith);
        assert(qsub(a, sh).n * 1 == 0 * qsub(a, sh).d) by (nonlinear_arith)
            requires
                qsub(a, sh).n == 0,
        ;
    }
}

} // verus!
