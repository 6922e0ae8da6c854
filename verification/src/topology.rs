//! The topology of a simulation: atom names, parameters-as-columns
//! potentials, and whole-system potential evaluation.

pub mod lj;

use vstd::prelude::*;
use crate::arith::rational::Qv;
use crate::arith::rational::qzero;
use crate::arith::rational::qadd;
use crate::arith::rational::qeq;
use crate::units::Quantity;
use crate::units::Dim;
use crate::units::dim_length;
use crate::units::dim_energy;
use crate::neighbourlist::NeighbourlistParams;
use crate::neighbourlist::SimplePairlist;
use crate::neighbourlist::PairV;
use crate::topology::lj::LjPotential;
use crate::result::Error;
use crate::result::Result;

verus! {

/// A potential of the topology, as a tagged variant.
pub enum Potential {
    LennardJones(LjPotential),
}

impl Potential {
    /// Whether the potential is well-formed.
    pub open spec fn wf(&self) -> bool {
        match self {
            Potential::LennardJones(p) => p.wf(),
        }
    }

    /// The number of atoms the potential covers.
    pub open spec fn num_atoms_spec(&self) -> int {
        match self {
            Potential::LennardJones(p) => p.num_atoms_spec(),
        }
    }

    /// The ghost cutoff of the potential.
    pub open spec fn cutoff_spec(&self) -> Qv {
        match self {
            Potential::LennardJones(p) => p.cutoff_spec(),
        }
    }

    /// The potential's energy over a stored pair sequence.
    pub open spec fn sum_spec(&self, pairs: Seq<PairV>) -> Qv {
        match self {
            Potential::LennardJones(p) => p.sum_terms(pairs, pairs.len() as int),
        }
    }

    /// The number of atoms the potential covers.
    pub fn num_atoms(&self) -> (r: usize)
        ensures
            r == self.num_atoms_spec(),
    {
        match self {
            Potential::LennardJones(p) => p.num_atoms(),
        }
    }

    /// The neighbourlist parameters the potential needs.
    pub fn neighbourlist_params(&self) -> (r: NeighbourlistParams)
        requires
            self.wf(),
        ensures
            r.wf(),
            r.cutoff_spec() == self.cutoff_spec(),
    {
        match self {
            Potential::LennardJones(p) => p.neighbourlist_params(),
        }
    }

    /// The potential's energy over an entire neighbourlist.
    pub fn compute_potential(&self, neighbourlist: &SimplePairlist) -> (r: Result<Quantity>)
        requires
            self.wf(),
            neighbourlist.wf(),
            forall|k: int| 0 <= k < neighbourlist.pairs_view().len() ==> 0 <= (
            #[trigger] neighbourlist.pairs_view()[k]).i < neighbourlist.pairs_view()[k].j < self
                .num_atoms_spec() && neighbourlist.pairs_view()[k].r2.n != 0,
        ensures
            match r {
                Ok(e) => e.wf() && e.dim == dim_energy() && qeq(
                    self.cutoff_spec(),
                    neighbourlist.cutoff_view(),
                ) && e.value@ == self.sum_spec(neighbourlist.pairs_view()),
                Err(e) => e is NeighbourlistNotCompatible && !qeq(
                    self.cutoff_spec(),
                    neighbourlist.cutoff_view(),
                ),
            },
    {
        match self {
            Potential::LennardJones(p) => p.compute_potential(neighbourlist),
        }
    }
}

/// The energy of the first `n` potentials, each over its own pair
/// sequence.
pub open spec fn potentials_sum(potentials: Seq<Potential>, pair_seqs: Seq<Seq<PairV>>, n: int) -> Qv
    decreases n,
{
    if n <= 0 {
        qzero()
    } else {
        qadd(
            potentials_sum(potentials, pair_seqs, n - 1),
            potentials[n - 1].sum_spec(pair_seqs[n - 1]),
        )
    }
}

/// Stores the parameters of all atoms as columns.
///
/// Parameters live in their own vectors inside each potential, and atoms
/// point at them by small indices; the `atom_names` field is the master
/// list whose indices are universal atom indices.
pub struct Topology {
    atom_names: Vec<String>,
    potentials: Vec<Potential>,
}

impl Topology {
    /// The representation invariant: every potential is well-formed and
    /// covers exactly the topology's atoms.
    pub closed spec fn wf(&self) -> bool {
        forall|k: int| 0 <= k < self.potentials@.len() ==> (#[trigger] self.potentials@[k]).wf()
            && self.potentials@[k].num_atoms_spec() == self.atom_names@.len()
    }

    /// The number of atoms.
    pub closed spec fn len_spec(&self) -> int {
        self.atom_names@.len() as int
    }

    /// The atom names.
    pub closed spec fn names_view(&self) -> Seq<String> {
        self.atom_names@
    }

    /// The potentials.
    pub closed spec fn potentials_view(&self) -> Seq<Potential> {
        self.potentials@
    }

    /// Build a topology, validating that every potential covers exactly
    /// the named atoms and that all declared cutoffs agree.
    pub fn new(atom_names: Vec<String>, potentials: Vec<Potential>) -> (r: Result<Topology>)
        requires
            forall|k: int| 0 <= k < potentials@.len() ==> (#[trigger] potentials@[k]).wf(),
        ensures
            match r {
                Ok(t) => {
                    &&& t.wf()
                    &&& t.names_view() == atom_names@
                    &&& t.potentials_view() == potentials@
                    &&& t.len_spec() == atom_names@.len()
                    &&& forall|k: int| 0 <= k < potentials@.len() ==> (
                    #[trigger] potentials@[k]).num_atoms_spec() == atom_names@.len()
                    &&& forall|k: int| 0 <= k < potentials@.len() ==> qeq(
                        (#[trigger] potentials@[k]).cutoff_spec(),
                        potentials@[0].cutoff_spec(),
                    )
                },
                Err(e) => e is IllegalTopology && !({
                    &&& forall|k: int| 0 <= k < potentials@.len() ==> (
                    #[trigger] potentials@[k]).num_atoms_spec() == atom_names@.len()
                    &&& forall|k: int| 0 <= k < potentials@.len() ==> qeq(
                        (#[trigger] potentials@[k]).cutoff_spec(),
                        potentials@[0].cutoff_spec(),
                    )
                }),
            },
    {
        let n = potentials.len();
        let mut k: usize = 0;
        while k < n
            invariant
                k <= n,
                n == potentials@.len(),
                forall|m: int| 0 <= m < n ==> (#[trigger] potentials@[m]).wf(),
                forall|m: int| 0 <= m < k ==> (#[trigger] potentials@[m]).num_atoms_spec()
                    == atom_names@.len(),
            decreases n - k,
        {
            if potentials[k].num_atoms() != atom_names.len() {
                return Err(Error::IllegalTopology);
            }
            k = k + 1;
        }
        let mut k: usize = 0;
        while k < n
            invariant
                k <= n,
                n == potentials@.len(),
                forall|m: int| 0 <= m < n ==> (#[trigger] potentials@[m]).wf(),
                forall|m: int| 0 <= m < k ==> qeq(
                    (#[trigger] potentials@[m]).cutoff_spec(),
                    potentials@[0].cutoff_spec(),
                ),
            decreases n - k,
        {
            let first = potentials[0].neighbourlist_params();
            let cur = potentials[k].neighbourlist_params();
            if !cur.matches_params(&first) {
                return Err(Error::IllegalTopology);
            }
            k = k + 1;
        }
        Ok(Topology { atom_names, potentials })
    }

    /// A topology for a homogeneous Lennard-Jones fluid.
    pub fn lj_fluid(
        name: String,
        num_atoms: usize,
        sigma: Quantity,
        epsilon: Quantity,
        cutoff: Quantity,
    ) -> (r: Result<Topology>)
        requires
            sigma.wf(),
            epsilon.wf(),
            cutoff.wf(),
            sigma.dim == dim_length(),
            epsilon.dim == dim_energy(),
            cutoff.dim == dim_length(),
            cutoff.value@.n != 0,
        ensures
            r is Ok,
            r->Ok_0.wf(),
            r->Ok_0.len_spec() == num_atoms,
            forall|k: int| 0 <= k < num_atoms ==> (#[trigger] r->Ok_0.names_view()[k])@ == name@,
            r->Ok_0.potentials_view().len() == 1,
            r->Ok_0.potentials_view()[0].cutoff_spec() == cutoff.value@,
            r->Ok_0.potentials_view()[0] matches Potential::LennardJones(p) && p.rows().len() == 1
                && p.rows()[0].sigma.value@ == sigma.value@ && p.rows()[0].epsilon.value@
                == epsilon.value@,
    {
        let lj_potential = match LjPotential::lj_fluid(num_atoms, sigma, epsilon, cutoff) {
            Ok(p) => p,
            Err(_) => vstd::pervasive::unreached(),
        };
        let mut atom_names: Vec<String> = Vec::new();
        let mut k: usize = 0;
        while k < num_atoms
            invariant
                k <= num_atoms,
                atom_names@.len() == k,
                forall|m: int| 0 <= m < k ==> (#[trigger] atom_names@[m])@ == name@,
            decreases num_atoms - k,
        {
            atom_names.push(name.clone());
            k = k + 1;
        }
        let mut potentials: Vec<Potential> = Vec::new();
        potentials.push(Potential::LennardJones(lj_potential));
        match Topology::new(atom_names, potentials) {
            Ok(t) => Ok(t),
            Err(_) => vstd::pervasive::unreached(),
        }
    }

    /// The name of atom `index`, if there is one.
    pub fn get_atom_name(&self, index: usize) -> (r: Option<&String>)
        ensures
            match r {
                Some(s) => index < self.names_view().len() && s@ == self.names_view()[
                    index as int
                ]@,
                None => index >= self.names_view().len(),
            },
    {
        if index < self.atom_names.len() {
            Some(&self.atom_names[index])
        } else {
            None
        }
    }

    /// The atom names, in universal index order.
    pub fn iter_atom_names(&self) -> (r: &Vec<String>)
        ensures
            r@ == self.names_view(),
    {
        &self.atom_names
    }

    /// The neighbourlist parameters of the potentials, in order.
    pub fn iter_neighbourlists(&self) -> (r: Vec<NeighbourlistParams>)
        requires
            self.wf(),
        ensures
            r@.len() == self.potentials_view().len(),
            forall|k: int| 0 <= k < r@.len() ==> (#[trigger] r@[k]).wf() && r@[k].cutoff_spec()
                == self.potentials_view()[k].cutoff_spec(),
    {
        let n = self.potentials.len();
        let mut out: Vec<NeighbourlistParams> = Vec::new();
        let mut k: usize = 0;
        while k < n
            invariant
                k <= n,
                n == self.potentials@.len(),
                self.wf(),
                out@.len() == k,
                forall|m: int| 0 <= m < k ==> (#[trigger] out@[m]).wf() && out@[m].cutoff_spec()
                    == self.potentials@[m].cutoff_spec(),
            decreases n - k,
        {
            out.push(self.potentials[k].neighbourlist_params());
            k = k + 1;
        }
        out
    }

    /// The number of atoms in the topology.
    pub fn len(&self) -> (r: usize)
        ensures
            r == self.len_spec(),
    {
        self.atom_names.len()
    }

    /// The total potential of the topology over one neighbourlist per
    /// potential, aligned by position.  A mismatched pairing is a
    /// programming error and is excluded by the precondition.
    pub fn compute_potential(&self, neighbourlists: &Vec<SimplePairlist>) -> (r: Quantity)
        requires
            self.wf(),
            neighbourlists@.len() == self.potentials_view().len(),
            forall|p: int| 0 <= p < neighbourlists@.len() ==> (#[trigger] neighbourlists@[p]).wf()
                && qeq(
                self.potentials_view()[p].cutoff_spec(),
                neighbourlists@[p].cutoff_view(),
            ),
            forall|p: int, k: int| 0 <= p < neighbourlists@.len() && 0 <= k
                < neighbourlists@[p].pairs_view().len() ==> 0 <= (
            #[trigger] neighbourlists@[p].pairs_view()[k]).i < neighbourlists@[p].pairs_view()[k].j
                < self.len_spec() && neighbourlists@[p].pairs_view()[k].r2.n != 0,
        ensures
            r.wf(),
            r.dim == dim_energy(),
            r.value@ == potentials_sum(
                self.potentials_view(),
                Seq::new(neighbourlists@.len() as nat, |p: int| neighbourlists@[p].pairs_view()),
                self.potentials_view().len() as int,
            ),
    {
        let ghost pair_seqs = Seq::new(
            neighbourlists@.len() as nat,
            |p: int| neighbourlists@[p].pairs_view(),
        );
        let n = self.potentials.len();
        let mut acc = Quantity::zero(Dim { length: 2, mass: 1, time: -2, charge: 0,
            temperature: 0 });
        let mut k: usize = 0;
        while k < n
            invariant
                k <= n,
                n == self.potentials@.len(),
                self.wf(),
                neighbourlists@.len() == n,
                pair_seqs == Seq::new(
                    neighbourlists@.len() as nat,
                    |p: int| neighbourlists@[p].pairs_view(),
                ),
                forall|p: int| 0 <= p < n ==> (#[trigger] neighbourlists@[p]).wf() && qeq(
                    self.potentials@[p].cutoff_spec(),
                    neighbourlists@[p].cutoff_view(),
                ),
                forall|p: int, m: int| 0 <= p < n && 0 <= m
                    < neighbourlists@[p].pairs_view().len() ==> 0 <= (
                #[trigger] neighbourlists@[p].pairs_view()[m]).i < neighbourlists@[
                    p
                ].pairs_view()[m].j < self.atom_names@.len()
                    && neighbourlists@[p].pairs_view()[m].r2.n != 0,
                acc.wf(),
                acc.dim == dim_energy(),
                acc.value@ == potentials_sum(self.potentials@, pair_seqs, k as int),
            decreases n - k,
        {
            let e = match self.potentials[k].compute_potential(&neighbourlists[k]) {
                Ok(e) => e,
                Err(_) => vstd::pervasive::unreached(),
            };
            acc = acc.add(&e);
            k = k + 1;
        }
        acc
    }
}

} // verus!
