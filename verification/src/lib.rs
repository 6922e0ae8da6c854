//! Exact-arithmetic computation of potential energies for classical
//! molecular systems of point particles interacting through short-range
//! pair potentials.
//!
//! Every physical value is a dimensioned quantity: an exact rational
//! magnitude in canonical units (nanometre, dalton, picosecond,
//! elementary charge, kelvin) together with its dimension exponents.
//! Arithmetic that would mix incompatible dimensions is rejected when the
//! caller is verified.

use vstd::prelude::*;
use crate::arith::rational::Qv;
use crate::arith::rational::qmul;
use crate::units::Quantity;
use crate::units::dim_energy;
use crate::boundaries::BoundaryConditions;
use crate::neighbourlist::NeighbourlistParams;
use crate::neighbourlist::SimplePairlist;
use crate::neighbourlist::PairV;
use crate::neighbourlist::all_pairs;
use crate::neighbourlist::pos_views;
use crate::neighbourlist::positions_wf;
use crate::neighbourlist::lemma_pairs_from_sound;
use crate::geom::vec3d::Vec3D;
use crate::topology::Topology;
use crate::topology::potentials_sum;
use crate::result::Error;
use crate::result::Result;

/// Exact arbitrary-precision arithmetic: naturals, integers, rationals.
pub mod arith;

/// The dimensional quantity kernel.
pub mod units;

/// Three-component vectors of dimensioned quantities.
pub mod geom;

/// Error handling for this crate.
pub mod result;

/// Boundary conditions and minimum-image distance computations.
pub mod boundaries;

/// Neighbour lists: within-cutoff pair streams.
pub mod neighbourlist;

/// The topology of a simulation and its potentials.
pub mod topology;

/// Tabular reference input handling.
pub mod io;

verus! {

/// Whether every frame consists of well-formed length vectors.
pub open spec fn frames_wf(frames: Seq<Vec<Vec3D>>) -> bool {
    forall|k: int| 0 <= k < frames.len() ==> positions_wf((#[trigger] frames[k])@)
}

/// Whether the minimum image convention is justified for every
/// potential's cutoff under the given boundaries.
pub open spec fn mic_all<B: BoundaryConditions>(top: Topology, bounds: B) -> bool {
    forall|p: int| 0 <= p < top.potentials_view().len() ==> bounds.mic_ok(
        Some((#[trigger] top.potentials_view()[p]).cutoff_spec()),
    )
}

/// The in-range pair sequence a potential sees for one frame.
pub open spec fn frame_pairs<B: BoundaryConditions>(
    top: Topology,
    bounds: B,
    pos: Seq<crate::geom::vec3d::V3>,
    p: int,
) -> Seq<PairV> {
    all_pairs(
        pos,
        bounds,
        qmul(top.potentials_view()[p].cutoff_spec(), top.potentials_view()[p].cutoff_spec()),
    )
}

/// Whether no in-range pair of a frame sits at an exactly zero
/// separation, for any of the potentials.
pub open spec fn frame_nonzero<B: BoundaryConditions>(
    top: Topology,
    bounds: B,
    pos: Seq<crate::geom::vec3d::V3>,
) -> bool {
    forall|p: int, k: int| 0 <= p < top.potentials_view().len() && 0 <= k < frame_pairs(
        top,
        bounds,
        pos,
        p,
    ).len() ==> (#[trigger] frame_pairs(top, bounds, pos, p)[k]).r2.n != 0
}

/// The exact potential energy of one frame: each potential summed over
/// its own in-range pair stream.
pub open spec fn frame_energy<B: BoundaryConditions>(
    top: Topology,
    bounds: B,
    pos: Seq<crate::geom::vec3d::V3>,
) -> Qv {
    potentials_sum(
        top.potentials_view(),
        Seq::new(top.potentials_view().len(), |p: int| frame_pairs(top, bounds, pos, p)),
        top.potentials_view().len() as int,
    )
}

/// Whether one frame passes every per-frame check.
pub open spec fn frame_ok<B: BoundaryConditions>(
    top: Topology,
    bounds: B,
    frame: Vec<Vec3D>,
) -> bool {
    &&& frame@.len() == top.len_spec()
    &&& mic_all(top, bounds)
    &&& frame_nonzero(top, bounds, pos_views(frame@))
}

/// Compute the potential energy of uncorrelated frames of the system
/// described by `top` under `boundaries`.
///
/// The pairlists are regenerated for every frame.  Each frame must
/// match the topology's atom count, the minimum image convention must be
/// justified for every cutoff, and no in-range pair may sit at an
/// exactly zero separation; the result then carries one exact per-frame
/// energy for each frame.
pub fn pot_from_positions<B: BoundaryConditions>(
    frames: &Vec<Vec<Vec3D>>,
    top: &Topology,
    boundaries: &B,
) -> (r: Result<Vec<Quantity>>)
    requires
        top.wf(),
        boundaries.wf(),
        frames_wf(frames@),
    ensures
        r is Ok <==> (forall|k: int| 0 <= k < frames@.len() ==> frame_ok(
            *top,
            *boundaries,
            #[trigger] frames@[k],
        )),
        r matches Ok(es) ==> es@.len() == frames@.len() && (forall|k: int| 0 <= k < frames@.len()
            ==> (#[trigger] es@[k]).wf() && es@[k].dim == dim_energy() && es@[k].value@
            == frame_energy(*top, *boundaries, pos_views(frames@[k]@))),
        r matches Err(e) ==> exists|k: int|
            #![auto]
            {
                &&& 0 <= k < frames@.len()
                &&& forall|j: int| 0 <= j < k ==> frame_ok(*top, *boundaries, #[trigger] frames@[j])
                &&& !frame_ok(*top, *boundaries, frames@[k])
                &&& e is PositionTopologyMismatch <==> frames@[k]@.len() != top.len_spec()
                &&& e is MinimumImageConventionNotJustified <==> frames@[k]@.len()
                    == top.len_spec() && !mic_all(*top, *boundaries)
                &&& e is ValueError <==> frames@[k]@.len() == top.len_spec() && mic_all(
                    *top,
                    *boundaries,
                ) && !frame_nonzero(*top, *boundaries, pos_views(frames@[k]@))
            },
{
    let params = top.iter_neighbourlists();
    let npots = params.len();
    let mut energies: Vec<Quantity> = Vec::new();
    let nframes = frames.len();
    let mut f: usize = 0;
    while f < nframes
        invariant
            f <= nframes,
            nframes == frames@.len(),
            top.wf(),
            boundaries.wf(),
            frames_wf(frames@),
            npots == top.potentials_view().len(),
            params@.len() == npots,
            forall|p: int| 0 <= p < npots ==> (#[trigger] params@[p]).wf() && params@[
                p
            ].cutoff_spec() == top.potentials_view()[p].cutoff_spec(),
            energies@.len() == f,
            forall|k: int| 0 <= k < f ==> frame_ok(*top, *boundaries, #[trigger] frames@[k]),
            forall|k: int| 0 <= k < f ==> (#[trigger] energies@[k]).wf() && energies@[k].dim
                == dim_energy() && energies@[k].value@ == frame_energy(
                *top,
                *boundaries,
                pos_views(frames@[k]@),
            ),
        decreases nframes - f,
    {
        let frame = &frames[f];
        if frame.len() != top.len() {
            proof {
                assert(!frame_ok(*top, *boundaries, frames@[f as int]));
            }
            return Err(Error::PositionTopologyMismatch);
        }
        let mut p: usize = 0;
        while p < npots
            invariant
                p <= npots,
                npots == top.potentials_view().len(),
                params@.len() == npots,
                top.wf(),
                boundaries.wf(),
                frames_wf(frames@),
                f < nframes,
                nframes == frames@.len(),
                frame == &frames@[f as int],
                frame@.len() == top.len_spec(),
                forall|j: int| 0 <= j < f ==> frame_ok(*top, *boundaries, #[trigger] frames@[j]),
                forall|q: int| 0 <= q < npots ==> (#[trigger] params@[q]).wf() && params@[
                    q
                ].cutoff_spec() == top.potentials_view()[q].cutoff_spec(),
                forall|q: int| 0 <= q < p ==> boundaries.mic_ok(
                    Some((#[trigger] top.potentials_view()[q]).cutoff_spec()),
                ),
            decreases npots - p,
        {
            let cutoff = match &params[p] {
                NeighbourlistParams::NonbondedCutoff(c) => c.clone(),
            };
            let gate: crate::boundaries::Cutoff = Some(cutoff);
            match boundaries.pairlist_checks(&gate) {
                Ok(()) => {},
                Err(e) => {
                    proof {
                        assert(!mic_all(*top, *boundaries));
                        assert(!frame_ok(*top, *boundaries, frames@[f as int]));
                    }
                    return Err(e);
                },
            }
            p = p + 1;
        }
        proof {
            assert(mic_all(*top, *boundaries));
        }
        let mut lists: Vec<SimplePairlist> = Vec::new();
        let mut p: usize = 0;
        while p < npots
            invariant
                p <= npots,
                npots == top.potentials_view().len(),
                params@.len() == npots,
                top.wf(),
                boundaries.wf(),
                frames_wf(frames@),
                f < nframes,
                nframes == frames@.len(),
                frame == &frames@[f as int],
                frame@.len() == top.len_spec(),
                forall|q: int| 0 <= q < npots ==> (#[trigger] params@[q]).wf() && params@[
                    q
                ].cutoff_spec() == top.potentials_view()[q].cutoff_spec(),
                lists@.len() == p,
                forall|q: int| 0 <= q < p ==> (#[trigger] lists@[q]).wf() && lists@[
                    q
                ].cutoff_view() == top.potentials_view()[q].cutoff_spec() && lists@[q].pairs_view()
                    == frame_pairs(*top, *boundaries, pos_views(frame@), q),
                mic_all(*top, *boundaries),
                forall|j: int| 0 <= j < f ==> frame_ok(*top, *boundaries, #[trigger] frames@[j]),
                forall|q: int, m: int| 0 <= q < p && 0 <= m < lists@[q].pairs_view().len() ==> (
                #[trigger] lists@[q].pairs_view()[m]).r2.n != 0,
            decreases npots - p,
        {
            let cutoff = match &params[p] {
                NeighbourlistParams::NonbondedCutoff(c) => c.clone(),
            };
            let mut list = match SimplePairlist::new(Some(cutoff)) {
                Ok(l) => l,
                Err(_) => vstd::pervasive::unreached(),
            };
            match list.regenerate(frame, boundaries) {
                Ok(()) => {},
                Err(_) => vstd::pervasive::unreached(),
            }
            let pairs = list.iter();
            let npairs = pairs.len();
            let mut m: usize = 0;
            while m < npairs
                invariant
                    m <= npairs,
                    npairs == pairs@.len(),
                    p < npots,
                    npots == top.potentials_view().len(),
                    f < nframes,
                    nframes == frames@.len(),
                    frame == &frames@[f as int],
                    frame@.len() == top.len_spec(),
                    mic_all(*top, *boundaries),
                    forall|j: int| 0 <= j < f ==> frame_ok(*top, *boundaries, #[trigger] frames@[j]),
                    crate::neighbourlist::pairs_wf(pairs@),
                    crate::neighbourlist::pair_views(pairs@) == list.pairs_view(),
                    list.pairs_view() == frame_pairs(
                        *top,
                        *boundaries,
                        pos_views(frame@),
                        p as int,
                    ),
                    forall|t: int| 0 <= t < m ==> (#[trigger] crate::neighbourlist::pair_views(
                        pairs@,
                    )[t]).r2.n != 0,
                decreases npairs - m,
            {
                proof {
                    assert(crate::neighbourlist::pair_views(pairs@)[m as int]
                        == crate::neighbourlist::pair_view(pairs@[m as int]));
                }
                if pairs[m].r_squared.is_zero() {
                    proof {
                        assert(frame_pairs(*top, *boundaries, pos_views(frame@), p as int)[
                            m as int
                        ].r2.n == 0);
                        assert(!frame_nonzero(*top, *boundaries, pos_views(frame@)));
                        assert(!frame_ok(*top, *boundaries, frames@[f as int]));
                    }
                    return Err(Error::ValueError(
                        "a pair of atoms within the cutoff has zero separation",
                    ));
                }
                m = m + 1;
            }
            lists.push(list);
            p = p + 1;
        }
        proof {
            assert forall|q: int, k: int| 0 <= q < top.potentials_view().len() && 0 <= k
                < frame_pairs(*top, *boundaries, pos_views(frame@), q).len() implies (
            #[trigger] frame_pairs(*top, *boundaries, pos_views(frame@), q)[k]).r2.n != 0 by {
                assert(lists@[q].pairs_view()[k].r2.n != 0);
            }
            assert(frame_nonzero(*top, *boundaries, pos_views(frame@)));
            assert(mic_all(*top, *boundaries));
            assert(frame_ok(*top, *boundaries, frames@[f as int]));
            assert forall|q: int, k: int| 0 <= q < npots && 0 <= k
                < lists@[q].pairs_view().len() implies 0 <= (
            #[trigger] lists@[q].pairs_view()[k]).i < lists@[q].pairs_view()[k].j
                < top.len_spec() && lists@[q].pairs_view()[k].r2.n != 0 by {
                lemma_pairs_from_sound(
                    pos_views(frame@),
                    *boundaries,
                    qmul(
                        top.potentials_view()[q].cutoff_spec(),
                        top.potentials_view()[q].cutoff_spec(),
                    ),
                    0,
                    1,
                    k,
                );
            }
        }
        let energy = top.compute_potential(&lists);
        proof {
            let gl = Seq::new(lists@.len() as nat, |q: int| lists@[q].pairs_view());
            let gf = Seq::new(
                top.potentials_view().len(),
                |q: int| frame_pairs(*top, *boundaries, pos_views(frame@), q),
            );
            assert(gl =~= gf);
        }
        energies.push(energy);
        f = f + 1;
    }
    Ok(energies)
}

} // verus!
