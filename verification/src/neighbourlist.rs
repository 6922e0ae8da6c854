//! Neighbour lists: the within-cutoff pair streams that potentials
//! consume, with their squared separations.

pub mod verlet;

use vstd::prelude::*;
use crate::arith::natural::Ord3;
use crate::arith::rational::Qv;
use crate::arith::rational::qmul;
use crate::arith::rational::qeq;
use crate::arith::rational::qlt;
use crate::units::Quantity;
use crate::units::dim_length;
use crate::units::dim_area;
use crate::boundaries::BoundaryConditions;
use crate::boundaries::Cutoff;
use crate::geom::vec3d::Vec3D;
use crate::geom::vec3d::V3;
use crate::result::Error;
use crate::result::Result;

verus! {

/// A pair of atom indices and the squared distance between them.
pub struct AtomPair {
    pub i: usize,
    pub j: usize,
    pub r_squared: Quantity,
}

/// The ghost value of an atom pair.
pub struct PairV {
    pub i: int,
    pub j: int,
    pub r2: Qv,
}

/// The ghost value of one pair.
pub open spec fn pair_view(p: AtomPair) -> PairV {
    PairV { i: p.i as int, j: p.j as int, r2: p.r_squared.value@ }
}

/// The ghost values of a pair list.
pub open spec fn pair_views(s: Seq<AtomPair>) -> Seq<PairV> {
    s.map_values(|p: AtomPair| pair_view(p))
}

/// The ghost values of a position list.
pub open spec fn pos_views(s: Seq<Vec3D>) -> Seq<V3> {
    s.map_values(|v: Vec3D| v@)
}

/// Whether every position is a well-formed length vector.
pub open spec fn positions_wf(s: Seq<Vec3D>) -> bool {
    forall|k: int| 0 <= k < s.len() ==> (#[trigger] s[k]).wf() && s[k]@.dim == dim_length()
}

/// Whether every stored pair is a well-formed squared distance.
pub open spec fn pairs_wf(s: Seq<AtomPair>) -> bool {
    forall|k: int| 0 <= k < s.len() ==> (#[trigger] s[k]).r_squared.wf() && s[k].r_squared.dim
        == dim_area()
}

/// The ordered sequence of in-range pairs from lexicographic position
/// `(i, j)` onward: exactly the pairs `(a, b)` with `a < b`, both in
/// range, whose squared distance is below the squared cutoff.
pub open spec fn pairs_from<B: BoundaryConditions>(
    pos: Seq<V3>,
    bounds: B,
    cutoff2: Qv,
    i: int,
    j: int,
) -> Seq<PairV>
    decreases pos.len() - i, pos.len() - j,
{
    if i < 0 || j < i + 1 || i >= pos.len() {
        Seq::empty()
    } else if j >= pos.len() {
        pairs_from(pos, bounds, cutoff2, i + 1, i + 2)
    } else {
        let rest = pairs_from(pos, bounds, cutoff2, i, j + 1);
        if qlt(bounds.dist2_spec(pos[i], pos[j]), cutoff2) {
            seq![PairV { i: i, j: j, r2: bounds.dist2_spec(pos[i], pos[j]) }] + rest
        } else {
            rest
        }
    }
}

/// The full ordered in-range pair sequence of a configuration.
pub open spec fn all_pairs<B: BoundaryConditions>(pos: Seq<V3>, bounds: B, cutoff2: Qv) -> Seq<
    PairV,
> {
    pairs_from(pos, bounds, cutoff2, 0, 1)
}

/// Every pair listed by `pairs_from` is a true in-range pair with
/// `i < j`, carries the exact squared distance, and sits at or after the
/// starting position.
pub proof fn lemma_pairs_from_sound<B: BoundaryConditions>(
    pos: Seq<V3>,
    bounds: B,
    cutoff2: Qv,
    i: int,
    j: int,
    k: int,
)
    requires
        0 <= i,
        i + 1 <= j,
        0 <= k < pairs_from(pos, bounds, cutoff2, i, j).len(),
    ensures
        ({
            let p = pairs_from(pos, bounds, cutoff2, i, j)[k];
            &&& 0 <= p.i < p.j < pos.len()
            &&& p.r2 == bounds.dist2_spec(pos[p.i], pos[p.j])
            &&& qlt(p.r2, cutoff2)
            &&& p.i > i || (p.i == i && p.j >= j)
        }),
    decreases pos.len() - i, pos.len() - j,
{
    if i >= pos.len() {
    } else if j >= pos.len() {
        lemma_pairs_from_sound(pos, bounds, cutoff2, i + 1, i + 2, k);
    } else {
        let rest = pairs_from(pos, bounds, cutoff2, i, j + 1);
        if qlt(bounds.dist2_spec(pos[i], pos[j]), cutoff2) {
            if k > 0 {
                lemma_pairs_from_sound(pos, bounds, cutoff2, i, j + 1, k - 1);
            }
        } else {
            lemma_pairs_from_sound(pos, bounds, cutoff2, i, j + 1, k);
        }
    }
}

/// Every true in-range pair at or after the starting position is listed
/// by `pairs_from`.
pub proof fn lemma_pairs_from_complete<B: BoundaryConditions>(
    pos: Seq<V3>,
    bounds: B,
    cutoff2: Qv,
    i: int,
    j: int,
    a: int,
    b: int,
)
    requires
        0 <= i,
        i + 1 <= j,
        a + 1 <= b < pos.len(),
        a > i || (a == i && b >= j),
        a >= i,
        qlt(bounds.dist2_spec(pos[a], pos[b]), cutoff2),
    ensures
        exists|k: int| 0 <= k < pairs_from(pos, bounds, cutoff2, i, j).len() && pairs_from(
            pos,
            bounds,
            cutoff2,
            i,
            j,
        )[k] == (PairV { i: a, j: b, r2: bounds.dist2_spec(pos[a], pos[b]) }),
    decreases pos.len() - i, pos.len() - j,
{
    let target = PairV { i: a, j: b, r2: bounds.dist2_spec(pos[a], pos[b]) };
    if j >= pos.len() {
        lemma_pairs_from_complete(pos, bounds, cutoff2, i + 1, i + 2, a, b);
        let rest = pairs_from(pos, bounds, cutoff2, i + 1, i + 2);
        let k = choose|k: int| 0 <= k < rest.len() && rest[k] == target;
        assert(pairs_from(pos, bounds, cutoff2, i, j)[k] == target);
    } else if a == i && b == j {
        assert(pairs_from(pos, bounds, cutoff2, i, j)[0] == target);
    } else {
        lemma_pairs_from_complete(pos, bounds, cutoff2, i, j + 1, a, b);
        let rest = pairs_from(pos, bounds, cutoff2, i, j + 1);
        let k = choose|k: int| 0 <= k < rest.len() && rest[k] == target;
        if qlt(bounds.dist2_spec(pos[i], pos[j]), cutoff2) {
            assert(pairs_from(pos, bounds, cutoff2, i, j)[k + 1] == target);
        } else {
            assert(pairs_from(pos, bounds, cutoff2, i, j)[k] == target);
        }
    }
}

/// The listed pairs are strictly increasing in lexicographic index
/// order, so no pair appears twice.
pub proof fn lemma_pairs_from_ordered<B: BoundaryConditions>(
    pos: Seq<V3>,
    bounds: B,
    cutoff2: Qv,
    i: int,
    j: int,
    k1: int,
    k2: int,
)
    requires
        0 <= i,
        i + 1 <= j,
        0 <= k1 < k2 < pairs_from(pos, bounds, cutoff2, i, j).len(),
    ensures
        ({
            let p1 = pairs_from(pos, bounds, cutoff2, i, j)[k1];
            let p2 = pairs_from(pos, bounds, cutoff2, i, j)[k2];
            p1.i < p2.i || (p1.i == p2.i && p1.j < p2.j)
        }),
    decreases pos.len() - i, pos.len() - j,
{
    if i >= pos.len() {
    } else if j >= pos.len() {
        lemma_pairs_from_ordered(pos, bounds, cutoff2, i + 1, i + 2, k1, k2);
    } else {
        if qlt(bounds.dist2_spec(pos[i], pos[j]), cutoff2) {
            if k1 == 0 {
                lemma_pairs_from_sound(pos, bounds, cutoff2, i, j + 1, k2 - 1);
            } else {
                lemma_pairs_from_ordered(pos, bounds, cutoff2, i, j + 1, k1 - 1, k2 - 1);
            }
        } else {
            lemma_pairs_from_ordered(pos, bounds, cutoff2, i, j + 1, k1, k2);
            assert(pairs_from(pos, bounds, cutoff2, i, j) == pairs_from(
                pos,
                bounds,
                cutoff2,
                i,
                j + 1,
            ));
        }
    }
}

/// Regenerating from the same positions, boundaries and cutoff yields
/// the identical pair sequence: the enumeration is a function of its
/// inputs alone.
pub proof fn lemma_regenerate_idempotent<B: BoundaryConditions>(
    pos: Seq<V3>,
    bounds: B,
    cutoff2: Qv,
    first: Seq<PairV>,
    second: Seq<PairV>,
)
    requires
        first == all_pairs(pos, bounds, cutoff2),
        second == all_pairs(pos, bounds, cutoff2),
    ensures
        first == second,
        first.to_multiset() == second.to_multiset(),
{
}

/// The parameters a neighbourlist is built with.
pub enum NeighbourlistParams {
    NonbondedCutoff(Quantity),
}

impl Clone for NeighbourlistParams {
    fn clone(&self) -> (r: Self)
        ensures
            r == *self || ({
                &&& r matches NeighbourlistParams::NonbondedCutoff(c)
                &&& *self matches NeighbourlistParams::NonbondedCutoff(d)
                &&& c.dim == d.dim
                &&& c.value@ == d.value@
                &&& c.wf() == d.wf()
            }),
    {
        match self {
            NeighbourlistParams::NonbondedCutoff(c) => NeighbourlistParams::NonbondedCutoff(
                c.clone(),
            ),
        }
    }
}

impl NeighbourlistParams {
    /// The cutoff length carried by the parameters.
    pub open spec fn cutoff_spec(&self) -> Qv {
        match self {
            NeighbourlistParams::NonbondedCutoff(c) => c.value@,
        }
    }

    /// Whether the parameters are well-formed.
    pub open spec fn wf(&self) -> bool {
        match self {
            NeighbourlistParams::NonbondedCutoff(c) => c.wf() && c.dim == dim_length(),
        }
    }

    /// Whether two parameter sets agree in value.
    pub fn matches_params(&self, other: &NeighbourlistParams) -> (r: bool)
        requires
            self.wf(),
            other.wf(),
        ensures
            r <==> qeq(self.cutoff_spec(), other.cutoff_spec()),
    {
        match (self, other) {
            (
                NeighbourlistParams::NonbondedCutoff(a),
                NeighbourlistParams::NonbondedCutoff(b),
            ) => a.eq_value(b),
        }
    }
}

/// The dense all-pairs neighbourlist.
///
/// `regenerate` recomputes the entire pair list from scratch in
/// quadratic time; `update` refreshes the stored distances assuming the
/// pair set is unchanged.
pub struct SimplePairlist {
    pairs: Vec<AtomPair>,
    cutoff: Quantity,
}

impl SimplePairlist {
    /// The representation invariant.
    pub closed spec fn wf(&self) -> bool {
        self.cutoff.wf() && self.cutoff.dim == dim_length() && pairs_wf(self.pairs@)
    }

    /// The ghost pair sequence.
    pub closed spec fn pairs_view(&self) -> Seq<PairV> {
        pair_views(self.pairs@)
    }

    /// The ghost cutoff.
    pub closed spec fn cutoff_view(&self) -> Qv {
        self.cutoff.value@
    }

    /// A new, empty pairlist; a cutoff is required.
    pub fn new(cutoff: Cutoff) -> (r: Result<SimplePairlist>)
        requires
            crate::boundaries::cutoff_wf(cutoff),
        ensures
            match r {
                Ok(p) => p.wf() && cutoff is Some && p.cutoff_view()
                    == cutoff->0.value@ && p.pairs_view() == Seq::<PairV>::empty(),
                Err(e) => cutoff is None && e is CutoffRequired,
            },
    {
        match cutoff {
            Some(c) => {
                let r = SimplePairlist { pairs: Vec::new(), cutoff: c };
                proof {
                    assert(r.pairs_view() =~= Seq::<PairV>::empty());
                }
                Ok(r)
            },
            None => Err(Error::CutoffRequired),
        }
    }

    /// The stored pairs, in enumeration order.
    pub fn iter(&self) -> (r: &Vec<AtomPair>)
        requires
            self.wf(),
        ensures
            pair_views(r@) == self.pairs_view(),
            pairs_wf(r@),
    {
        &self.pairs
    }

    /// The parameters of the pairlist.
    pub fn neighbourlist_params(&self) -> (r: NeighbourlistParams)
        requires
            self.wf(),
        ensures
            r.wf(),
            r.cutoff_spec() == self.cutoff_view(),
    {
        NeighbourlistParams::NonbondedCutoff(self.cutoff.clone())
    }

    /// The cutoff of the pairlist.
    pub fn cutoff(&self) -> (r: Cutoff)
        requires
            self.wf(),
        ensures
            r is Some,
            r->0.wf(),
            r->0.dim == dim_length(),
            r->0.value@ == self.cutoff_view(),
    {
        Some(self.cutoff.clone())
    }

    /// Rebuild the pair list from scratch: afterwards the stored pairs
    /// are exactly the pairs `(i, j)` with `i < j` whose squared
    /// distance under the boundary conditions is below the squared
    /// cutoff, in lexicographic order, each with its exact squared
    /// distance.
    pub fn regenerate<B: BoundaryConditions>(
        &mut self,
        positions: &Vec<Vec3D>,
        boundaries: &B,
    ) -> (r: Result<()>)
        requires
            old(self).wf(),
            boundaries.wf(),
            positions_wf(positions@),
        ensures
            final(self).wf(),
            final(self).cutoff_view() == old(self).cutoff_view(),
            r is Ok,
            final(self).pairs_view() == all_pairs(
                pos_views(positions@),
                *boundaries,
                qmul(old(self).cutoff_view(), old(self).cutoff_view()),
            ),
    {
        let ghost gpos = pos_views(positions@);
        let ghost gcut = self.cutoff.value@;
        let ghost c2 = qmul(self.cutoff.value@, self.cutoff.value@);
        let cutoff_squared = self.cutoff.mul(&self.cutoff);
        self.pairs = Vec::new();
        let n = positions.len();
        let mut i: usize = 0;
        proof {
            assert(pair_views(self.pairs@) =~= Seq::<PairV>::empty());
            assert(pair_views(self.pairs@) + pairs_from(gpos, *boundaries, c2, 0, 1) == pairs_from(
                gpos,
                *boundaries,
                c2,
                0,
                1,
            )) by {
                assert(pair_views(self.pairs@) + pairs_from(gpos, *boundaries, c2, 0, 1)
                    =~= pairs_from(gpos, *boundaries, c2, 0, 1));
            }
        }
        while i < n
            invariant
                i <= n,
                n == positions@.len(),
                gpos == pos_views(positions@),
                positions_wf(positions@),
                boundaries.wf(),
                cutoff_squared.wf(),
                cutoff_squared.dim == dim_area(),
                cutoff_squared.value@ == c2,
                self.cutoff.wf(),
                self.cutoff.dim == dim_length(),
                self.cutoff.value@ == gcut,
                pairs_wf(self.pairs@),
                pair_views(self.pairs@) + pairs_from(gpos, *boundaries, c2, i as int, i as int + 1)
                    == all_pairs(gpos, *boundaries, c2),
            decreases n - i,
        {
            let mut j: usize = i + 1;
            while j < n
                invariant
                    i < j <= n || (j == i + 1 && j >= n),
                    i < n,
                    j >= i + 1,
                    j <= n || j == i + 1,
                    n == positions@.len(),
                    gpos == pos_views(positions@),
                    positions_wf(positions@),
                    boundaries.wf(),
                    cutoff_squared.wf(),
                    cutoff_squared.dim == dim_area(),
                    cutoff_squared.value@ == c2,
                    self.cutoff.wf(),
                    self.cutoff.dim == dim_length(),
                    self.cutoff.value@ == gcut,
                    pairs_wf(self.pairs@),
                    pair_views(self.pairs@) + pairs_from(gpos, *boundaries, c2, i as int, j as int)
                        == all_pairs(gpos, *boundaries, c2),
                decreases n - j,
            {
                let r_squared = boundaries.dist2(&positions[i], &positions[j]);
                let ghost old_pairs = self.pairs@;
                match r_squared.cmp(&cutoff_squared) {
                    Ord3::Less => {
                        proof {
                            let cur = PairV {
                                i: i as int,
                                j: j as int,
                                r2: boundaries.dist2_spec(gpos[i as int], gpos[j as int]),
                            };
                            assert(pairs_from(gpos, *boundaries, c2, i as int, j as int) == seq![
                                cur,
                            ] + pairs_from(gpos, *boundaries, c2, i as int, j as int + 1));
                        }
                        self.pairs.push(AtomPair { i, j, r_squared });
                        proof {
                            let cur = PairV {
                                i: i as int,
                                j: j as int,
                                r2: boundaries.dist2_spec(gpos[i as int], gpos[j as int]),
                            };
                            assert(pair_views(self.pairs@) =~= pair_views(old_pairs).push(cur));
                            assert(pair_views(old_pairs).push(cur) + pairs_from(
                                gpos,
                                *boundaries,
                                c2,
                                i as int,
                                j as int + 1,
                            ) =~= pair_views(old_pairs) + (seq![cur] + pairs_from(
                                gpos,
                                *boundaries,
                                c2,
                                i as int,
                                j as int + 1,
                            )));
                        }
                    },
                    _ => {
                        proof {
                            assert(pairs_from(gpos, *boundaries, c2, i as int, j as int)
                                == pairs_from(gpos, *boundaries, c2, i as int, j as int + 1));
                        }
                    },
                }
                j = j + 1;
            }
            proof {
                if (i as int) < gpos.len() {
                    assert(pairs_from(gpos, *boundaries, c2, i as int, n as int) == pairs_from(
                        gpos,
                        *boundaries,
                        c2,
                        i as int + 1,
                        i as int + 2,
                    ));
                }
            }
            i = i + 1;
        }
        proof {
            assert(pairs_from(gpos, *boundaries, c2, n as int, n as int + 1)
                =~= Seq::<PairV>::empty());
            assert(pair_views(self.pairs@) + Seq::<PairV>::empty() =~= pair_views(self.pairs@));
        }
        Ok(())
    }

    /// Refresh the stored squared distances, assuming the set of
    /// in-range pairs has not changed: each stored pair keeps its
    /// indices and receives the exact squared distance of the current
    /// positions.
    pub fn update<B: BoundaryConditions>(
        &mut self,
        positions: &Vec<Vec3D>,
        boundaries: &B,
    ) -> (r: Result<()>)
        requires
            old(self).wf(),
            boundaries.wf(),
            positions_wf(positions@),
            forall|k: int| 0 <= k < old(self).pairs_view().len() ==> 0 <= (
            #[trigger] old(self).pairs_view()[k]).i < old(self).pairs_view()[k].j < positions@.len(),
        ensures
            final(self).wf(),
            final(self).cutoff_view() == old(self).cutoff_view(),
            r is Ok,
            final(self).pairs_view().len() == old(self).pairs_view().len(),
            forall|k: int| 0 <= k < old(self).pairs_view().len() ==> (
            #[trigger] final(self).pairs_view()[k]) == (PairV {
                i: old(self).pairs_view()[k].i,
                j: old(self).pairs_view()[k].j,
                r2: boundaries.dist2_spec(
                    pos_views(positions@)[old(self).pairs_view()[k].i],
                    pos_views(positions@)[old(self).pairs_view()[k].j],
                ),
            }),
    {
        let ghost gpos = pos_views(positions@);
        let ghost old_views = pair_views(self.pairs@);
        let n = self.pairs.len();
        let mut updated: Vec<AtomPair> = Vec::new();
        let mut k: usize = 0;
        proof {
            assert forall|m: int| 0 <= m < n implies 0 <= (#[trigger] pair_views(
                self.pairs@,
            )[m]).i < pair_views(self.pairs@)[m].j < positions@.len() by {
                assert(old(self).pairs_view()[m] == pair_views(self.pairs@)[m]);
            }
        }
        while k < n
            invariant
                k <= n,
                n == self.pairs@.len(),
                gpos == pos_views(positions@),
                old_views == pair_views(self.pairs@),
                positions_wf(positions@),
                boundaries.wf(),
                pairs_wf(self.pairs@),
                forall|m: int| 0 <= m < n ==> 0 <= (#[trigger] pair_views(self.pairs@)[m]).i
                    < pair_views(self.pairs@)[m].j < positions@.len(),
                updated@.len() == k,
                pairs_wf(updated@),
                forall|m: int| 0 <= m < k ==> (#[trigger] pair_views(updated@)[m]) == (PairV {
                    i: old_views[m].i,
                    j: old_views[m].j,
                    r2: boundaries.dist2_spec(gpos[old_views[m].i], gpos[old_views[m].j]),
                }),
            decreases n - k,
        {
            let pi = self.pairs[k].i;
            let pj = self.pairs[k].j;
            proof {
                assert(pair_views(self.pairs@)[k as int] == pair_view(self.pairs@[k as int]));
            }
            let r_squared = boundaries.dist2(&positions[pi], &positions[pj]);
            let ghost prev_updated = updated@;
            updated.push(AtomPair { i: pi, j: pj, r_squared });
            proof {
                assert(pair_views(updated@) =~= pair_views(prev_updated).push(
                    pair_view(updated@[k as int]),
                ));
                assert(gpos[pi as int] == positions@[pi as int]@);
                assert(gpos[pj as int] == positions@[pj as int]@);
            }
            k = k + 1;
        }
        self.pairs = updated;
        Ok(())
    }
}

} // verus!
