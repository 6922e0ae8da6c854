//! The cell-list (Verlet) neighbourlist variant: a 3D cell grid whose
//! edges exceed the cutoff plus a buffer, so that all within-cutoff
//! neighbours of an atom lie in its own or an adjacent cell.
//!
//! The grid is clamped at the box edges, as fits unbounded space: cells
//! on the boundary are open to the rest of infinity.  Every pair the
//! list emits is checked against the cutoff, so the stored pairs are
//! always true in-range pairs with their exact squared separations.

use vstd::prelude::*;
use crate::arith::natural::Ord3;
use crate::arith::rational::Rational;
use crate::arith::rational::Qv;
use crate::arith::rational::qzero;
use crate::arith::rational::q_int;
use crate::arith::rational::qmul;
use crate::arith::rational::qsub;
use crate::arith::rational::qadd;
use crate::arith::rational::lemma_qle_qlt_trans;
use crate::arith::rational::lemma_qle_trans;
use crate::arith::rational::lemma_q_ops_wf;
use crate::arith::rational::qlt;
use crate::arith::rational::qle;
use crate::units::Quantity;
use crate::units::dim_length;
use crate::units::dim_area;
use crate::boundaries::BoundaryConditions;
use crate::boundaries::NoBounds;
use crate::boundaries::open_d2;
use crate::boundaries::open_delta;
use crate::boundaries::v3_wf;
use crate::geom::vec3d::Vec3D;
use crate::geom::vec3d::V3;
use crate::geom::vec3d::norm2_val;
use crate::neighbourlist::AtomPair;
use crate::neighbourlist::NeighbourlistParams;
use crate::neighbourlist::PairV;
use crate::neighbourlist::pair_views;
use crate::neighbourlist::pairs_wf;
use crate::neighbourlist::positions_wf;
use crate::neighbourlist::pos_views;
use crate::result::Result;

verus! {

/// The flattened index of the cell at grid coordinates `(x, y, z)`.
pub open spec fn flatten_spec(ny: int, nz: int, x: int, y: int, z: int) -> int {
    z + nz * y + ny * nz * x
}

/// Flattening grid coordinates and reading them back are inverses.
pub proof fn lemma_flatten_unflatten(ny: int, nz: int, x: int, y: int, z: int)
    requires
        0 <= x,
        0 <= y < ny,
        0 <= z < nz,
        nz > 0,
    ensures
        flatten_spec(ny, nz, x, y, z) / (ny * nz) == x,
        (flatten_spec(ny, nz, x, y, z) % (ny * nz)) / nz == y,
        flatten_spec(ny, nz, x, y, z) % nz == z,
{
    let inner = z + nz * y;
    let c = flatten_spec(ny, nz, x, y, z);
    assert(0 <= inner < ny * nz && c == x * (ny * nz) + inner) by (nonlinear_arith)
        requires
            0 <= y < ny,
            0 <= z < nz,
            nz > 0,
            inner == z + nz * y,
            c == z + nz * y + ny * nz * x,
    ;
    assert(c == x * (ny * nz) + inner && inner == y * nz + z && c == (x * ny + y) * nz + z)
        by (nonlinear_arith)
        requires
            inner == z + nz * y,
            c == z + nz * y + ny * nz * x,
    ;
    vstd::arithmetic::div_mod::lemma_fundamental_div_mod_converse(c, ny * nz, x, inner);
    vstd::arithmetic::div_mod::lemma_fundamental_div_mod_converse(inner, nz, y, z);
    vstd::arithmetic::div_mod::lemma_fundamental_div_mod_converse(c, nz, x * ny + y, z);
}

/// Whether `k` is the clamped-floor grid index of coordinate `x` along
/// an axis of `n` cells of the given edge: the floor of `x / edge`,
/// clamped into the grid, so that edge cells are open to the rest of
/// space.
pub open spec fn is_axis_cell(x: Qv, edge: Qv, n: int, k: int) -> bool {
    &&& 0 <= k < n
    &&& k > 0 ==> qle(qmul(edge, q_int(k)), x)
    &&& k + 1 < n ==> qlt(x, qmul(edge, q_int(k + 1)))
}

/// A clamped-floor grid index is unique for a given coordinate.
pub proof fn lemma_axis_cell_unique(x: Qv, edge: Qv, n: int, k1: int, k2: int)
    requires
        x.d > 0,
        edge.d > 0,
        qlt(qzero(), edge),
        is_axis_cell(x, edge, n, k1),
        is_axis_cell(x, edge, n, k2),
    ensures
        k1 == k2,
{
    assert(edge.n > 0) by (nonlinear_arith)
        requires
            0 * edge.d < edge.n * 1,
    ;
    if k1 + 1 <= k2 {
        assert(x.n * (edge.d * 1) < (edge.n * (k1 + 1)) * x.d);
        assert((edge.n * k2) * x.d <= x.n * (edge.d * 1));
        assert((edge.n * (k1 + 1)) * x.d <= (edge.n * k2) * x.d) by (nonlinear_arith)
            requires
                edge.n > 0,
                x.d > 0,
                k1 + 1 <= k2,
        ;
    }
    if k2 + 1 <= k1 {
        assert(x.n * (edge.d * 1) < (edge.n * (k2 + 1)) * x.d);
        assert((edge.n * k1) * x.d <= x.n * (edge.d * 1));
        assert((edge.n * (k2 + 1)) * x.d <= (edge.n * k1) * x.d) by (nonlinear_arith)
            requires
                edge.n > 0,
                x.d > 0,
                k2 + 1 <= k1,
        ;
    }
}

/// Two clamped-floor indices of coordinates less than one cell edge
/// apart differ by at most one.
pub proof fn lemma_axis_cells_close(xa: Qv, xb: Qv, edge: Qv, n: int, ka: int, kb: int)
    requires
        xa.d > 0,
        xb.d > 0,
        edge.d > 0,
        qlt(qzero(), edge),
        is_axis_cell(xa, edge, n, ka),
        is_axis_cell(xb, edge, n, kb),
        qlt(qsub(xb, xa), edge),
        qlt(qsub(xa, xb), edge),
    ensures
        -1 <= kb - ka <= 1,
{
    let en = edge.n;
    let ed = edge.d;
    assert(en > 0) by (nonlinear_arith)
        requires
            0 * ed < en * 1,
    ;
    if kb >= ka + 2 {
        lemma_axis_slots_separate(xa, xb, edge, n, ka, kb);
    }
    if ka >= kb + 2 {
        lemma_axis_slots_separate(xb, xa, edge, n, kb, ka);
    }
}

/// The separation argument behind [`lemma_axis_cells_close`]: a
/// coordinate two or more grid slots above another sits at least one
/// cell edge away, against the hypothesis that they are closer.
proof fn lemma_axis_slots_separate(xa: Qv, xb: Qv, edge: Qv, n: int, ka: int, kb: int)
    requires
        xa.d > 0,
        xb.d > 0,
        edge.d > 0,
        edge.n > 0,
        is_axis_cell(xa, edge, n, ka),
        is_axis_cell(xb, edge, n, kb),
        kb >= ka + 2,
        qlt(qsub(xb, xa), edge),
    ensures
        -1 <= kb - ka <= 1,
{
    let en = edge.n;
    let ed = edge.d;
    let big = xb.d * xa.d;
    assert(qle(qmul(edge, q_int(kb)), xb));
    assert(qlt(xa, qmul(edge, q_int(ka + 1))));
    assert((en * kb) * xb.d <= xb.n * (ed * 1));
    assert(xa.n * (ed * 1) < (en * (ka + 1)) * xa.d);
    assert((xb.n * xa.d - xa.n * xb.d) * ed < en * (xb.d * xa.d));
    assert(big > 0) by (nonlinear_arith)
        requires
            xa.d > 0,
            xb.d > 0,
            big == xb.d * xa.d,
    ;
    assert(en * kb * big <= (xb.n * xa.d) * ed) by (nonlinear_arith)
        requires
            (en * kb) * xb.d <= xb.n * (ed * 1),
            xa.d > 0,
            big == xb.d * xa.d,
    ;
    assert((xa.n * xb.d) * ed < en * (ka + 1) * big) by (nonlinear_arith)
        requires
            xa.n * (ed * 1) < (en * (ka + 1)) * xa.d,
            xb.d > 0,
            big == xb.d * xa.d,
    ;
    assert((xb.n * xa.d) * ed < en * big + (xa.n * xb.d) * ed) by (nonlinear_arith)
        requires
            (xb.n * xa.d - xa.n * xb.d) * ed < en * (xb.d * xa.d),
            big == xb.d * xa.d,
    ;
    assert(en * kb * big < en * big + en * (ka + 1) * big);
    assert(en * (ka + 2) * big <= en * kb * big) by (nonlinear_arith)
        requires
            kb >= ka + 2,
            en > 0,
            big > 0,
    ;
    assert(en * big + en * (ka + 1) * big == en * (ka + 2) * big) by (nonlinear_arith);
    assert(false);
}

/// Whether `c` is the flattened index of the grid cell holding
/// position `p`, for a grid of `nx` by `ny` by `nz` cells of the given
/// edge: each coordinate's clamped floor, flattened as
/// `z + nz*y + ny*nz*x`.
pub open spec fn cell_of_ok(edge: Qv, nx: int, ny: int, nz: int, p: V3, c: int) -> bool {
    exists|kx: int, ky: int, kz: int|
        {
            &&& is_axis_cell(p.x, edge, nx, kx)
            &&& is_axis_cell(p.y, edge, ny, ky)
            &&& is_axis_cell(p.z, edge, nz, kz)
            &&& c == #[trigger] flatten_spec(ny, nz, kx, ky, kz)
        }
}

/// Whether the pair of atoms `a` and `b` at squared distance `r2` is
/// listed among the stored pairs.
pub open spec fn pair_listed(pairs: Seq<PairV>, a: int, b: int, r2: Qv) -> bool {
    exists|k: int| 0 <= k < pairs.len() && #[trigger] pairs[k] == (PairV { i: a, j: b, r2: r2 })
}

/// Growing the pair list keeps every listed pair listed.
proof fn lemma_pair_listed_push(before: Seq<PairV>, after: Seq<PairV>)
    requires
        after.len() == before.len() + 1,
        forall|k: int| 0 <= k < before.len() ==> #[trigger] after[k] == before[k],
    ensures
        forall|a: int, b: int, r2: Qv| pair_listed(before, a, b, r2) ==> #[trigger] pair_listed(
            after,
            a,
            b,
            r2,
        ),
{
    assert forall|a: int, b: int, r2: Qv| pair_listed(before, a, b, r2) implies #[trigger] pair_listed(
        after,
        a,
        b,
        r2,
    ) by {
        let k = choose|k: int| 0 <= k < before.len() && #[trigger] before[k] == (PairV {
            i: a,
            j: b,
            r2: r2,
        });
        assert(after[k] == (PairV { i: a, j: b, r2: r2 }));
    }
}

/// Whether some bucket of the grid stores atom index `t`.
pub open spec fn stores_atom(grid: CellList, t: int) -> bool {
    exists|c: int, k: int|
        0 <= c < grid.num_cells() && 0 <= k < grid.bucket_view(c).len() && (
        #[trigger] grid.bucket_view(c)[k]) == t as usize
}

/// Stores atom indices according to their positions in the unit cell.
///
/// Cells are kept as index buckets, flattened in the order
/// `(0,0,0), (0,0,1), ...`; bucket `z + nz*y + ny*nz*x` holds the atoms
/// of grid cell `(x, y, z)`.
pub struct CellList {
    nx: usize,
    ny: usize,
    nz: usize,
    cell_length: Quantity,
    cells: Vec<Vec<usize>>,
}

impl CellList {
    /// The representation invariant: a full grid of buckets and a
    /// positive cell edge, with every stored index below `n`.
    pub closed spec fn wf(&self, n: int) -> bool {
        &&& self.nx >= 1
        &&& self.ny >= 1
        &&& self.nz >= 1
        &&& self.cells@.len() == self.nx * self.ny * self.nz
        &&& self.cell_length.wf()
        &&& self.cell_length.dim == dim_length()
        &&& qlt(qzero(), self.cell_length.value@)
        &&& forall|c: int, k: int| 0 <= c < self.cells@.len() && 0 <= k < self.cells@[c]@.len()
            ==> (#[trigger] self.cells@[c]@[k]) < n
    }

    /// The number of cells in the grid.
    pub closed spec fn num_cells(&self) -> int {
        (self.nx * self.ny * self.nz) as int
    }

    /// The number of cells along the first axis.
    pub closed spec fn grid_x(&self) -> int {
        self.nx as int
    }

    /// The number of cells along the second axis.
    pub closed spec fn grid_y(&self) -> int {
        self.ny as int
    }

    /// The number of cells along the third axis.
    pub closed spec fn grid_z(&self) -> int {
        self.nz as int
    }

    /// The cell edge length.
    pub closed spec fn edge_spec(&self) -> Qv {
        self.cell_length.value@
    }

    /// Whether two grids have the same shape and edge.
    pub open spec fn same_grid(&self, other: &CellList) -> bool {
        &&& self.grid_x() == other.grid_x()
        &&& self.grid_y() == other.grid_y()
        &&& self.grid_z() == other.grid_z()
        &&& self.edge_spec() == other.edge_spec()
        &&& self.num_cells() == other.num_cells()
    }

    /// Whether `c` is the flattened index of the grid cell that holds
    /// position `p`: the clamped floor of each coordinate over the cell
    /// edge, flattened in the bucket order.
    pub open spec fn is_cell_of(&self, p: V3, c: int) -> bool {
        cell_of_ok(self.edge_spec(), self.grid_x(), self.grid_y(), self.grid_z(), p, c)
    }

    /// Whether cell `c2` is `c1` itself or one of its neighbours: their
    /// grid coordinates differ by at most one along each axis.
    pub open spec fn adjacent_cells(&self, c1: int, c2: int) -> bool {
        let plane = self.grid_y() * self.grid_z();
        &&& 0 <= c1 < self.num_cells()
        &&& 0 <= c2 < self.num_cells()
        &&& -1 <= c2 / plane - c1 / plane <= 1
        &&& -1 <= (c2 % plane) / self.grid_z() - (c1 % plane) / self.grid_z() <= 1
        &&& -1 <= c2 % self.grid_z() - c1 % self.grid_z() <= 1
    }

    /// Whether no atom index is stored twice anywhere in the grid.
    pub closed spec fn buckets_distinct(&self) -> bool {
        forall|c1: int, k1: int, c2: int, k2: int|
            #![trigger self.cells@[c1]@[k1], self.cells@[c2]@[k2]]
            0 <= c1 < self.cells@.len() && 0 <= k1 < self.cells@[c1]@.len() && 0 <= c2
                < self.cells@.len() && 0 <= k2 < self.cells@[c2]@.len() && (c1 != c2 || k1 != k2)
                ==> self.cells@[c1]@[k1] != self.cells@[c2]@[k2]
    }

    /// An empty cell grid.
    pub fn new(nx: usize, ny: usize, nz: usize, cell_length: Quantity) -> (r: CellList)
        requires
            1 <= nx,
            1 <= ny,
            1 <= nz,
            nx * ny * nz <= usize::MAX,
            cell_length.wf(),
            cell_length.dim == dim_length(),
            qlt(qzero(), cell_length.value@),
        ensures
            r.wf(0),
            r.grid_x() == nx,
            r.grid_y() == ny,
            r.grid_z() == nz,
            r.edge_spec() == cell_length.value@,
    {
        proof {
            assert(nx * ny <= nx * ny * nz) by (nonlinear_arith)
                requires
                    nx >= 1,
                    ny >= 1,
                    nz >= 1,
            ;
        }
        let total = nx * ny * nz;
        let mut cells: Vec<Vec<usize>> = Vec::new();
        let mut c: usize = 0;
        while c < total
            invariant
                c <= total,
                cells@.len() == c,
                forall|m: int, k: int| 0 <= m < cells@.len() && 0 <= k < cells@[m]@.len() ==> (
                #[trigger] cells@[m]@[k]) < 0,
            decreases total - c,
        {
            cells.push(Vec::new());
            c = c + 1;
        }
        CellList { nx, ny, nz, cell_length, cells }
    }

    /// The grid index of a position along one axis: the clamped floor
    /// of the coordinate over the cell edge, so that edge cells are
    /// open to the rest of space.
    fn axis_index(x: &Quantity, edge: &Quantity, n: usize) -> (k: usize)
        requires
            x.wf(),
            edge.wf(),
            x.dim == edge.dim,
            n >= 1,
            qlt(qzero(), edge.value@),
        ensures
            k < n,
            k > 0 ==> qle(qmul(edge.value@, q_int(k as int)), x.value@),
            k + 1 < n ==> qlt(x.value@, qmul(edge.value@, q_int(k as int + 1))),
    {
        let mut k: usize = 0;
        loop
            invariant
                k < n,
                n >= 1,
                x.wf(),
                edge.wf(),
                x.dim == edge.dim,
                k > 0 ==> qle(qmul(edge.value@, q_int(k as int)), x.value@),
            ensures
                k < n,
                k > 0 ==> qle(qmul(edge.value@, q_int(k as int)), x.value@),
                k + 1 < n ==> qlt(x.value@, qmul(edge.value@, q_int(k as int + 1))),
            decreases n - k,
        {
            if k + 1 >= n {
                break ;
            }
            let bound = edge.scale(&Rational::from_u64((k + 1) as u64));
            if !matches!(bound.cmp(x), Ord3::Less | Ord3::Equal) {
                break ;
            }
            k = k + 1;
        }
        k
    }

    /// The flattened cell index of a position: the clamped floor of
    /// each coordinate over the cell edge, flattened as
    /// `z + nz*y + ny*nz*x`.
    pub fn position_to_cell(&self, position: &Vec3D) -> (r: usize)
        requires
            exists|n: int| self.wf(n),
            position.wf(),
            position@.dim == dim_length(),
        ensures
            r < self.num_cells(),
            self.is_cell_of(position@, r as int),
    {
        proof {
            let n = choose|n: int| self.wf(n);
        }
        let x_idx = CellList::axis_index(&position.x, &self.cell_length, self.nx);
        let y_idx = CellList::axis_index(&position.y, &self.cell_length, self.ny);
        let z_idx = CellList::axis_index(&position.z, &self.cell_length, self.nz);
        proof {
            assert(is_axis_cell(position@.x, self.edge_spec(), self.grid_x(), x_idx as int));
            assert(is_axis_cell(position@.y, self.edge_spec(), self.grid_y(), y_idx as int));
            assert(is_axis_cell(position@.z, self.edge_spec(), self.grid_z(), z_idx as int));
        }
        let _grid = self.cells.len();
        proof {
            assert(z_idx + self.nz * y_idx + self.ny * self.nz * x_idx < self.nx * self.ny
                * self.nz && self.nz * y_idx <= self.nx * self.ny * self.nz && self.ny * self.nz
                <= self.nx * self.ny * self.nz && self.ny * self.nz * x_idx <= self.nx * self.ny
                * self.nz) by (nonlinear_arith)
                requires
                    x_idx < self.nx,
                    y_idx < self.ny,
                    z_idx < self.nz,
                    self.nx >= 1,
                    self.ny >= 1,
                    self.nz >= 1,
            ;
        }
        let r = z_idx + self.nz * y_idx + self.ny * self.nz * x_idx;
        proof {
            assert(r == flatten_spec(
                self.grid_y(),
                self.grid_z(),
                x_idx as int,
                y_idx as int,
                z_idx as int,
            ));
        }
        r
    }

    /// Append `atom_index` to the bucket of cell `cell_index`; all
    /// other buckets stay as they were.
    pub fn add_atom(&mut self, atom_index: usize, cell_index: usize, ghost_n: Ghost<int>)
        requires
            old(self).wf(ghost_n@),
            cell_index < old(self).num_cells(),
            atom_index < ghost_n@,
        ensures
            final(self).wf(ghost_n@),
            final(self).same_grid(old(self)),
            final(self).bucket_view(cell_index as int) == old(self).bucket_view(
                cell_index as int,
            ).push(atom_index),
            forall|c: int| 0 <= c < old(self).num_cells() && c != cell_index
                ==> final(self).bucket_view(c) == old(self).bucket_view(c),
    {
        let mut bucket = self.cells.remove(cell_index);
        bucket.push(atom_index);
        self.cells.insert(cell_index, bucket);
        proof {
            assert forall|c: int| 0 <= c < old(self).num_cells() && c != cell_index implies self
                .bucket_view(c) == old(self).bucket_view(c) by {
                if c < cell_index {
                    assert(self.cells@[c] == old(self).cells@[c]);
                } else {
                    assert(self.cells@[c] == old(self).cells@[c]);
                }
            }
        }
    }

    /// Remove the first occurrence of `atom_index` from the bucket of
    /// cell `cell_index`, keeping the order of the rest; the atom must
    /// be stored there, and all other buckets stay as they were.
    pub fn remove_atom(&mut self, atom_index: usize, cell_index: usize, ghost_n: Ghost<int>)
        requires
            old(self).wf(ghost_n@),
            cell_index < old(self).num_cells(),
            exists|k: int| 0 <= k < old(self).bucket_view(cell_index as int).len() && old(
                self,
            ).bucket_view(cell_index as int)[k] == atom_index,
        ensures
            final(self).wf(ghost_n@),
            final(self).same_grid(old(self)),
            exists|t: int|
                {
                    &&& 0 <= t < old(self).bucket_view(cell_index as int).len()
                    &&& old(self).bucket_view(cell_index as int)[t] == atom_index
                    &&& forall|m: int| 0 <= m < t ==> old(self).bucket_view(cell_index as int)[m]
                        != atom_index
                    &&& final(self).bucket_view(cell_index as int) == old(self).bucket_view(
                        cell_index as int,
                    ).remove(t)
                },
            forall|c: int| 0 <= c < old(self).num_cells() && c != cell_index
                ==> final(self).bucket_view(c) == old(self).bucket_view(c),
    {
        let mut bucket = self.cells.remove(cell_index);
        let mut k: usize = 0;
        let ghost target = choose|k: int| 0 <= k < bucket@.len() && bucket@[k] == atom_index;
        while k < bucket.len() && bucket[k] != atom_index
            invariant
                k <= bucket@.len(),
                0 <= target < bucket@.len(),
                bucket@[target] == atom_index,
                forall|m: int| 0 <= m < k ==> bucket@[m] != atom_index,
            decreases bucket@.len() - k,
        {
            k = k + 1;
        }
        proof {
            if k >= bucket@.len() {
                assert(bucket@[target] != atom_index);
            }
        }
        bucket.remove(k);
        self.cells.insert(cell_index, bucket);
        proof {
            assert forall|c: int| 0 <= c < old(self).num_cells() && c != cell_index implies self
                .bucket_view(c) == old(self).bucket_view(c) by {
                if c < cell_index {
                    assert(self.cells@[c] == old(self).cells@[c]);
                } else {
                    assert(self.cells@[c] == old(self).cells@[c]);
                }
            }
        }
    }

    /// Move `atom_index` from `old_cell` to `new_cell`: nothing changes
    /// when the cells coincide, else the atom's first occurrence leaves
    /// `old_cell` and the atom is appended to `new_cell`.
    pub fn move_atom(&mut self, atom_index: usize, old_cell: usize, new_cell: usize, ghost_n:
        Ghost<int>)
        requires
            old(self).wf(ghost_n@),
            old_cell < old(self).num_cells(),
            new_cell < old(self).num_cells(),
            atom_index < ghost_n@,
            exists|k: int| 0 <= k < old(self).bucket_view(old_cell as int).len() && old(
                self,
            ).bucket_view(old_cell as int)[k] == atom_index,
        ensures
            final(self).wf(ghost_n@),
            final(self).same_grid(old(self)),
            old_cell == new_cell ==> forall|c: int| 0 <= c < old(self).num_cells()
                ==> final(self).bucket_view(c) == old(self).bucket_view(c),
            old_cell != new_cell ==> {
                &&& exists|t: int|
                    {
                        &&& 0 <= t < old(self).bucket_view(old_cell as int).len()
                        &&& old(self).bucket_view(old_cell as int)[t] == atom_index
                        &&& final(self).bucket_view(old_cell as int) == old(self).bucket_view(
                            old_cell as int,
                        ).remove(t)
                    }
                &&& final(self).bucket_view(new_cell as int) == old(self).bucket_view(
                    new_cell as int,
                ).push(atom_index)
                &&& forall|c: int| 0 <= c < old(self).num_cells() && c != old_cell && c
                    != new_cell ==> final(self).bucket_view(c) == old(self).bucket_view(c)
            },
    {
        if old_cell == new_cell {
            return ;
        }
        self.remove_atom(atom_index, old_cell, ghost_n);
        self.add_atom(atom_index, new_cell, ghost_n);
    }

    /// The stored indices of one bucket.
    pub closed spec fn bucket_view(&self, c: int) -> Seq<usize> {
        self.cells@[c]@
    }

    /// The atoms of one cell.
    pub fn cell_atoms(&self, cell: usize) -> (r: &Vec<usize>)
        requires
            cell < self.num_cells(),
            exists|n: int| self.wf(n),
        ensures
            r@ == self.bucket_view(cell as int),
    {
        proof {
            let n = choose|n: int| self.wf(n);
        }
        &self.cells[cell]
    }

    /// Sort every atom into the bucket of the cell its position falls
    /// in: afterwards every stored index is an atom stored in the
    /// bucket of its own position's cell, each atom is stored, and none
    /// is stored twice.
    pub fn regenerate(&mut self, positions: &Vec<Vec3D>)
        requires
            exists|n: int| old(self).wf(n),
            positions_wf(positions@),
        ensures
            final(self).wf(positions@.len() as int),
            final(self).same_grid(old(self)),
            final(self).buckets_distinct(),
            forall|c: int, k: int| 0 <= c < final(self).num_cells() && 0 <= k
                < final(self).bucket_view(c).len() ==> (#[trigger] final(self).bucket_view(c)[k])
                < positions@.len() && final(self).is_cell_of(
                pos_views(positions@)[final(self).bucket_view(c)[k] as int],
                c,
            ),
            forall|t: int| 0 <= t < positions@.len() ==> #[trigger] stores_atom(
                *final(self),
                t,
            ),
    {
        proof {
            let n0 = choose|n: int| old(self).wf(n);
        }
        let total = self.cells.len();
        let mut cells: Vec<Vec<usize>> = Vec::new();
        let mut c: usize = 0;
        while c < total
            invariant
                c <= total,
                cells@.len() == c,
                forall|m: int, k: int| 0 <= m < cells@.len() && 0 <= k < cells@[m]@.len() ==> (
                #[trigger] cells@[m]@[k]) < 0,
                forall|m: int| 0 <= m < cells@.len() ==> (#[trigger] cells@[m])@.len() == 0,
            decreases total - c,
        {
            cells.push(Vec::new());
            c = c + 1;
        }
        self.cells = cells;
        let n = positions.len();
        let mut a: usize = 0;
        while a < n
            invariant
                a <= n,
                n == positions@.len(),
                positions_wf(positions@),
                self.same_grid(old(self)),
                self.wf(a as int),
                self.buckets_distinct(),
                forall|c: int, k: int| 0 <= c < self.num_cells() && 0 <= k < self.bucket_view(
                    c,
                ).len() ==> (#[trigger] self.bucket_view(c)[k]) < a && cell_of_ok(
                    self.edge_spec(),
                    self.grid_x(),
                    self.grid_y(),
                    self.grid_z(),
                    pos_views(positions@)[self.bucket_view(c)[k] as int],
                    c,
                ),
                forall|t: int| 0 <= t < a ==> #[trigger] stores_atom(*self, t),
            decreases n - a,
        {
            let ghost prev = *self;
            let cell = self.position_to_cell(&positions[a]);
            proof {
                assert(self.wf((a + 1) as int));
                assert(pos_views(positions@)[a as int] == positions@[a as int]@);
            }
            self.add_atom(a, cell, Ghost((a + 1) as int));
            proof {
                let ghost old_len = prev.bucket_view(cell as int).len() as int;
                assert(self.bucket_view(cell as int) == prev.bucket_view(cell as int).push(a));
                assert(self.bucket_view(cell as int)[old_len] == a);
                assert(cell_of_ok(
                    self.edge_spec(),
                    self.grid_x(),
                    self.grid_y(),
                    self.grid_z(),
                    pos_views(positions@)[a as int],
                    cell as int,
                ));
                assert(self.cells@.len() == prev.cells@.len());
                assert forall|c: int, k: int| 0 <= c < self.num_cells() && 0 <= k
                    < self.bucket_view(c).len() implies (#[trigger] self.bucket_view(c)[k]) < a
                    + 1 && cell_of_ok(
                    self.edge_spec(),
                    self.grid_x(),
                    self.grid_y(),
                    self.grid_z(),
                    pos_views(positions@)[self.bucket_view(c)[k] as int],
                    c,
                ) by {
                    if c == cell && k == old_len {
                        assert(self.bucket_view(c)[k] == a);
                    } else {
                        if c == cell {
                            assert(self.bucket_view(c)[k] == prev.bucket_view(c)[k]);
                        } else {
                            assert(self.bucket_view(c) == prev.bucket_view(c));
                        }
                        assert(prev.bucket_view(c)[k] < a && cell_of_ok(
                            prev.edge_spec(),
                            prev.grid_x(),
                            prev.grid_y(),
                            prev.grid_z(),
                            pos_views(positions@)[prev.bucket_view(c)[k] as int],
                            c,
                        ));
                    }
                }
                assert forall|t: int| 0 <= t < a + 1 implies #[trigger] stores_atom(
                    *self,
                    t,
                ) by {
                    if t < a {
                        assert(stores_atom(prev, t));
                        let (c0, k0) = choose|c: int, k: int|
                            0 <= c < prev.num_cells() && 0 <= k < prev.bucket_view(c).len() && (
                            #[trigger] prev.bucket_view(c)[k]) == t as usize;
                        if c0 == cell {
                            assert(self.bucket_view(c0)[k0] == t as usize);
                        } else {
                            assert(self.bucket_view(c0) == prev.bucket_view(c0));
                            assert(self.bucket_view(c0)[k0] == t as usize);
                        }
                    } else {
                        assert(self.bucket_view(cell as int)[old_len] == t as usize);
                    }
                }
                assert(self.cells@.len() == prev.cells@.len());
                assert forall|c1: int, k1: int, c2: int, k2: int|
                    0 <= c1 < self.cells@.len() && 0 <= k1 < self.cells@[c1]@.len() && 0 <= c2
                        < self.cells@.len() && 0 <= k2 < self.cells@[c2]@.len() && (c1 != c2 || k1
                        != k2) implies #[trigger] self.cells@[c1]@[k1] != #[trigger] self.cells@[
                    c2
                ]@[k2] by {
                    if !(c1 == cell && k1 == old_len) {
                        if c1 == cell {
                            assert(self.bucket_view(c1) == prev.bucket_view(c1).push(a));
                        } else {
                            assert(self.bucket_view(c1) == prev.bucket_view(c1));
                        }
                        assert(self.cells@[c1]@[k1] == prev.cells@[c1]@[k1]);
                        assert(prev.cells@[c1]@[k1] < a);
                    } else {
                        assert(self.cells@[c1]@[k1] == a);
                    }
                    if !(c2 == cell && k2 == old_len) {
                        if c2 == cell {
                            assert(self.bucket_view(c2) == prev.bucket_view(c2).push(a));
                        } else {
                            assert(self.bucket_view(c2) == prev.bucket_view(c2));
                        }
                        assert(self.cells@[c2]@[k2] == prev.cells@[c2]@[k2]);
                        assert(prev.cells@[c2]@[k2] < a);
                    } else {
                        assert(self.cells@[c2]@[k2] == a);
                    }
                    if !(c1 == cell && k1 == old_len) && !(c2 == cell && k2 == old_len) {
                        assert(prev.cells@[c1]@[k1] != prev.cells@[c2]@[k2]);
                    }
                }
            }
            a = a + 1;
        }
        proof {
            assert(self.wf(n as int));
        }
    }
}

/// A Verlet neighbourlist backed by a cell grid: the cell edge is the
/// cutoff plus a buffer, so within-cutoff pairs lie in adjacent cells.
pub struct VerletPairlist {
    pairs: Vec<AtomPair>,
    cutoff: Quantity,
    buffer: Quantity,
    cell_list: CellList,
}

impl VerletPairlist {
    /// The representation invariant: well-formed lengths, well-formed
    /// stored pairs, and a cell grid whose edge is the cutoff plus the
    /// buffer.
    pub closed spec fn wf(&self) -> bool {
        &&& self.cutoff.wf()
        &&& self.cutoff.dim == dim_length()
        &&& self.buffer.wf()
        &&& self.buffer.dim == dim_length()
        &&& pairs_wf(self.pairs@)
        &&& exists|n: int| self.cell_list.wf(n)
        &&& self.cell_list.edge_spec() == qadd(self.cutoff.value@, self.buffer.value@)
    }

    /// The ghost pair sequence.
    pub closed spec fn pairs_view(&self) -> Seq<PairV> {
        pair_views(self.pairs@)
    }

    /// The ghost cutoff.
    pub closed spec fn cutoff_view(&self) -> Qv {
        self.cutoff.value@
    }

    /// The ghost buffer.
    pub closed spec fn buffer_view(&self) -> Qv {
        self.buffer.value@
    }

    /// The cell counts of the backing grid along the three axes.
    pub closed spec fn grid_dims(&self) -> (int, int, int) {
        (self.cell_list.grid_x(), self.cell_list.grid_y(), self.cell_list.grid_z())
    }

    /// The cell edge of the backing grid.
    pub closed spec fn cell_edge(&self) -> Qv {
        self.cell_list.edge_spec()
    }

    /// A new, empty Verlet list over a fresh cell grid of `n_cells`
    /// cells per axis, each of edge `cutoff + buffer`.
    pub fn with_buffer(cutoff: Quantity, buffer: Quantity, n_cells: usize) -> (r: VerletPairlist)
        requires
            cutoff.wf(),
            buffer.wf(),
            cutoff.dim == dim_length(),
            buffer.dim == dim_length(),
            qlt(qzero(), crate::arith::rational::qadd(cutoff.value@, buffer.value@)),
            1 <= n_cells,
            n_cells * n_cells * n_cells <= usize::MAX,
        ensures
            r.wf(),
            r.cutoff_view() == cutoff.value@,
            r.buffer_view() == buffer.value@,
            r.grid_dims() == (n_cells as int, n_cells as int, n_cells as int),
            r.cell_edge() == crate::arith::rational::qadd(cutoff.value@, buffer.value@),
            r.pairs_view() == Seq::<PairV>::empty(),
    {
        let edge = cutoff.add(&buffer);
        let cell_list = CellList::new(n_cells, n_cells, n_cells, edge);
        let r = VerletPairlist { pairs: Vec::new(), cutoff, buffer, cell_list };
        proof {
            assert(r.pairs_view() =~= Seq::<PairV>::empty());
            assert(r.cell_list.wf(0));
        }
        r
    }

    /// The stored pairs.
    pub fn iter(&self) -> (r: &Vec<AtomPair>)
        requires
            self.wf(),
        ensures
            pair_views(r@) == self.pairs_view(),
            pairs_wf(r@),
    {
        &self.pairs
    }

    /// The parameters of the neighbourlist.
    pub fn neighbourlist_params(&self) -> (r: NeighbourlistParams)
        requires
            self.wf(),
        ensures
            r.wf(),
            r.cutoff_spec() == self.cutoff_view(),
    {
        NeighbourlistParams::NonbondedCutoff(self.cutoff.clone())
    }

    /// Rebuild the cell grid and rewrite the pair list: afterwards the
    /// stored pairs are exactly the pairs `i < j` whose squared distance
    /// is below the squared cutoff, each with its exact squared
    /// distance.  A non-negative cutoff and buffer keep the cell edge at
    /// least the cutoff, so scanning each cell against its neighbours
    /// misses no in-range pair.
    pub fn regenerate(&mut self, positions: &Vec<Vec3D>, boundaries: &NoBounds) -> (r: Result<()>)
        requires
            old(self).wf(),
            positions_wf(positions@),
            qle(qzero(), old(self).cutoff_view()),
            qle(qzero(), old(self).buffer_view()),
        ensures
            final(self).wf(),
            final(self).cutoff_view() == old(self).cutoff_view(),
            r is Ok,
            forall|k: int| 0 <= k < final(self).pairs_view().len() ==> {
                let p = #[trigger] final(self).pairs_view()[k];
                &&& 0 <= p.i < p.j < positions@.len()
                &&& p.r2 == boundaries.dist2_spec(
                    pos_views(positions@)[p.i],
                    pos_views(positions@)[p.j],
                )
                &&& qlt(p.r2, qmul(old(self).cutoff_view(), old(self).cutoff_view()))
            },
            forall|a: int, b: int|
                #![trigger boundaries.dist2_spec(pos_views(positions@)[a], pos_views(positions@)[b])]
                0 <= a < b < positions@.len() && qlt(
                    boundaries.dist2_spec(pos_views(positions@)[a], pos_views(positions@)[b]),
                    qmul(old(self).cutoff_view(), old(self).cutoff_view()),
                ) ==> pair_listed(
                    final(self).pairs_view(),
                    a,
                    b,
                    boundaries.dist2_spec(pos_views(positions@)[a], pos_views(positions@)[b]),
                ),
    {
        let ghost gpos = pos_views(positions@);
        let ghost gcut = self.cutoff.value@;
        let ghost gbuf = self.buffer.value@;
        let cutoff_squared = self.cutoff.mul(&self.cutoff);
        self.cell_list.regenerate(positions);
        self.pairs = Vec::new();
        let ncells = self.cell_list.cell_atoms_len();
        let n = positions.len();
        let mut c: usize = 0;
        while c < ncells
            invariant
                c <= ncells,
                n == positions@.len(),
                gpos == pos_views(positions@),
                positions_wf(positions@),
                self.cutoff.wf(),
                self.cutoff.dim == dim_length(),
                self.cutoff.value@ == gcut,
                self.buffer.wf(),
                self.buffer.dim == dim_length(),
                self.buffer.value@ == gbuf,
                qle(qzero(), gcut),
                qle(qzero(), gbuf),
                cutoff_squared.wf(),
                cutoff_squared.dim == dim_area(),
                cutoff_squared.value@ == qmul(gcut, gcut),
                self.cell_list.wf(n as int),
                self.cell_list.edge_spec() == qadd(gcut, gbuf),
                ncells == self.cell_list.num_cells(),
                forall|cc: int, kk: int| 0 <= cc < self.cell_list.num_cells() && 0 <= kk
                    < self.cell_list.bucket_view(cc).len() ==> (
                #[trigger] self.cell_list.bucket_view(cc)[kk]) < n && self.cell_list.is_cell_of(
                    pos_views(positions@)[self.cell_list.bucket_view(cc)[kk] as int],
                    cc,
                ),
                forall|t: int| 0 <= t < n ==> #[trigger] stores_atom(self.cell_list, t),
                pairs_wf(self.pairs@),
                forall|k: int| 0 <= k < pair_views(self.pairs@).len() ==> {
                    let p = #[trigger] pair_views(self.pairs@)[k];
                    &&& 0 <= p.i < p.j < positions@.len()
                    &&& p.r2 == boundaries.dist2_spec(gpos[p.i], gpos[p.j])
                    &&& qlt(p.r2, qmul(gcut, gcut))
                },
                forall|ca: int, ka: int, b: int|
                    #![trigger self.cell_list.bucket_view(ca)[ka], pos_views(positions@)[b]]
                    0 <= ca < c && 0 <= ka < self.cell_list.bucket_view(ca).len() && 0 <= b < n
                        && (self.cell_list.bucket_view(ca)[ka] as int) < b && qlt(
                        boundaries.dist2_spec(
                            gpos[self.cell_list.bucket_view(ca)[ka] as int],
                            gpos[b],
                        ),
                        qmul(gcut, gcut),
                    ) ==> pair_listed(
                        pair_views(self.pairs@),
                        self.cell_list.bucket_view(ca)[ka] as int,
                        b,
                        boundaries.dist2_spec(
                            gpos[self.cell_list.bucket_view(ca)[ka] as int],
                            gpos[b],
                        ),
                    ),
            decreases ncells - c,
        {
            let neighbours = self.cell_list.neighbours_of(c);
            let cell_count = self.cell_list.cell_atoms(c).len();
            let mut ai: usize = 0;
            while ai < cell_count
                invariant
                    ai <= cell_count,
                    c < ncells,
                    n == positions@.len(),
                    gpos == pos_views(positions@),
                    positions_wf(positions@),
                    self.cutoff.wf(),
                    self.cutoff.dim == dim_length(),
                    self.cutoff.value@ == gcut,
                    self.buffer.wf(),
                    self.buffer.dim == dim_length(),
                    self.buffer.value@ == gbuf,
                    qle(qzero(), gcut),
                    qle(qzero(), gbuf),
                    cutoff_squared.wf(),
                    cutoff_squared.dim == dim_area(),
                    cutoff_squared.value@ == qmul(gcut, gcut),
                    self.cell_list.wf(n as int),
                    self.cell_list.edge_spec() == qadd(gcut, gbuf),
                    ncells == self.cell_list.num_cells(),
                    cell_count == self.cell_list.bucket_view(c as int).len(),
                    forall|m: int| 0 <= m < neighbours@.len() ==> self.cell_list.adjacent_cells(
                        c as int,
                        (#[trigger] neighbours@[m]) as int,
                    ),
                    forall|c2: int| #[trigger] self.cell_list.adjacent_cells(c as int, c2)
                        ==> neighbours@.contains(c2 as usize),
                    forall|cc: int, kk: int| 0 <= cc < self.cell_list.num_cells() && 0 <= kk
                        < self.cell_list.bucket_view(cc).len() ==> (
                    #[trigger] self.cell_list.bucket_view(cc)[kk]) < n
                        && self.cell_list.is_cell_of(
                        pos_views(positions@)[self.cell_list.bucket_view(cc)[kk] as int],
                        cc,
                    ),
                    forall|t: int| 0 <= t < n ==> #[trigger] stores_atom(self.cell_list, t),
                    pairs_wf(self.pairs@),
                    forall|k: int| 0 <= k < pair_views(self.pairs@).len() ==> {
                        let p = #[trigger] pair_views(self.pairs@)[k];
                        &&& 0 <= p.i < p.j < positions@.len()
                        &&& p.r2 == boundaries.dist2_spec(gpos[p.i], gpos[p.j])
                        &&& qlt(p.r2, qmul(gcut, gcut))
                    },
                    forall|ca: int, ka: int, b: int|
                        #![trigger self.cell_list.bucket_view(ca)[ka], pos_views(positions@)[b]]
                        0 <= ca < ncells && (ca < c || (ca == c && ka < ai)) && 0 <= ka
                            < self.cell_list.bucket_view(ca).len() && 0 <= b < n && (
                        self.cell_list.bucket_view(ca)[ka] as int) < b && qlt(
                            boundaries.dist2_spec(
                                gpos[self.cell_list.bucket_view(ca)[ka] as int],
                                gpos[b],
                            ),
                            qmul(gcut, gcut),
                        ) ==> pair_listed(
                            pair_views(self.pairs@),
                            self.cell_list.bucket_view(ca)[ka] as int,
                            b,
                            boundaries.dist2_spec(
                                gpos[self.cell_list.bucket_view(ca)[ka] as int],
                                gpos[b],
                            ),
                        ),
                decreases cell_count - ai,
            {
                let a = self.cell_list.cell_atoms(c)[ai];
                let mut w: usize = 0;
                while w < neighbours.len()
                    invariant
                        w <= neighbours@.len(),
                        ai < cell_count,
                        c < ncells,
                        cell_count == self.cell_list.bucket_view(c as int).len(),
                        a == self.cell_list.bucket_view(c as int)[ai as int],
                        a < n,
                        n == positions@.len(),
                        gpos == pos_views(positions@),
                        positions_wf(positions@),
                        self.cutoff.wf(),
                        self.cutoff.dim == dim_length(),
                        self.cutoff.value@ == gcut,
                        self.buffer.wf(),
                        self.buffer.dim == dim_length(),
                        self.buffer.value@ == gbuf,
                        qle(qzero(), gcut),
                        qle(qzero(), gbuf),
                        cutoff_squared.wf(),
                        cutoff_squared.dim == dim_area(),
                        cutoff_squared.value@ == qmul(gcut, gcut),
                        self.cell_list.wf(n as int),
                        self.cell_list.edge_spec() == qadd(gcut, gbuf),
                        ncells == self.cell_list.num_cells(),
                        forall|m: int| 0 <= m < neighbours@.len() ==> self.cell_list
                            .adjacent_cells(c as int, (#[trigger] neighbours@[m]) as int),
                        forall|c2: int| #[trigger] self.cell_list.adjacent_cells(c as int, c2)
                            ==> neighbours@.contains(c2 as usize),
                        forall|cc: int, kk: int| 0 <= cc < self.cell_list.num_cells() && 0 <= kk
                            < self.cell_list.bucket_view(cc).len() ==> (
                        #[trigger] self.cell_list.bucket_view(cc)[kk]) < n
                            && self.cell_list.is_cell_of(
                            pos_views(positions@)[self.cell_list.bucket_view(cc)[kk] as int],
                            cc,
                        ),
                        forall|t: int| 0 <= t < n ==> #[trigger] stores_atom(self.cell_list, t),
                        pairs_wf(self.pairs@),
                        forall|k: int| 0 <= k < pair_views(self.pairs@).len() ==> {
                            let p = #[trigger] pair_views(self.pairs@)[k];
                            &&& 0 <= p.i < p.j < positions@.len()
                            &&& p.r2 == boundaries.dist2_spec(gpos[p.i], gpos[p.j])
                            &&& qlt(p.r2, qmul(gcut, gcut))
                        },
                        forall|ca: int, ka: int, b: int|
                            #![trigger self.cell_list.bucket_view(ca)[ka], pos_views(positions@)[b]]
                            0 <= ca < ncells && (ca < c || (ca == c && ka < ai)) && 0 <= ka
                                < self.cell_list.bucket_view(ca).len() && 0 <= b < n && (
                            self.cell_list.bucket_view(ca)[ka] as int) < b && qlt(
                                boundaries.dist2_spec(
                                    gpos[self.cell_list.bucket_view(ca)[ka] as int],
                                    gpos[b],
                                ),
                                qmul(gcut, gcut),
                            ) ==> pair_listed(
                                pair_views(self.pairs@),
                                self.cell_list.bucket_view(ca)[ka] as int,
                                b,
                                boundaries.dist2_spec(
                                    gpos[self.cell_list.bucket_view(ca)[ka] as int],
                                    gpos[b],
                                ),
                            ),
                        forall|t: int, kb: int|
                            #![trigger self.cell_list.bucket_view(neighbours@[t] as int)[kb]]
                            0 <= t < w && 0 <= kb < self.cell_list.bucket_view(
                                neighbours@[t] as int,
                            ).len() && (a as int) < self.cell_list.bucket_view(
                                neighbours@[t] as int,
                            )[kb] && qlt(
                                boundaries.dist2_spec(
                                    gpos[a as int],
                                    gpos[self.cell_list.bucket_view(neighbours@[t] as int)[
                                        kb
                                    ] as int],
                                ),
                                qmul(gcut, gcut),
                            ) ==> pair_listed(
                                pair_views(self.pairs@),
                                a as int,
                                self.cell_list.bucket_view(neighbours@[t] as int)[kb] as int,
                                boundaries.dist2_spec(
                                    gpos[a as int],
                                    gpos[self.cell_list.bucket_view(neighbours@[t] as int)[
                                        kb
                                    ] as int],
                                ),
                            ),
                    decreases neighbours@.len() - w,
                {
                    let nc = neighbours[w];
                    let other_count = self.cell_list.cell_atoms(nc).len();
                    let mut bi: usize = 0;
                    while bi < other_count
                        invariant
                            bi <= other_count,
                            w < neighbours@.len(),
                            c < ncells,
                            nc < self.cell_list.num_cells(),
                            nc == neighbours@[w as int],
                            cell_count == self.cell_list.bucket_view(c as int).len(),
                            ai < cell_count,
                            a == self.cell_list.bucket_view(c as int)[ai as int],
                            a < n,
                            n == positions@.len(),
                            gpos == pos_views(positions@),
                            positions_wf(positions@),
                            self.cutoff.wf(),
                            self.cutoff.dim == dim_length(),
                            self.cutoff.value@ == gcut,
                            self.buffer.wf(),
                            self.buffer.dim == dim_length(),
                            self.buffer.value@ == gbuf,
                            qle(qzero(), gcut),
                            qle(qzero(), gbuf),
                            cutoff_squared.wf(),
                            cutoff_squared.dim == dim_area(),
                            cutoff_squared.value@ == qmul(gcut, gcut),
                            self.cell_list.wf(n as int),
                            self.cell_list.edge_spec() == qadd(gcut, gbuf),
                            ncells == self.cell_list.num_cells(),
                            other_count == self.cell_list.bucket_view(nc as int).len(),
                            forall|m: int| 0 <= m < neighbours@.len() ==> self.cell_list
                                .adjacent_cells(c as int, (#[trigger] neighbours@[m]) as int),
                            forall|c2: int| #[trigger] self.cell_list.adjacent_cells(
                                c as int,
                                c2,
                            ) ==> neighbours@.contains(c2 as usize),
                            forall|cc: int, kk: int| 0 <= cc < self.cell_list.num_cells() && 0
                                <= kk < self.cell_list.bucket_view(cc).len() ==> (
                            #[trigger] self.cell_list.bucket_view(cc)[kk]) < n
                                && self.cell_list.is_cell_of(
                                pos_views(positions@)[self.cell_list.bucket_view(cc)[kk] as int],
                                cc,
                            ),
                            forall|t: int| 0 <= t < n ==> #[trigger] stores_atom(
                                self.cell_list,
                                t,
                            ),
                            pairs_wf(self.pairs@),
                            forall|k: int| 0 <= k < pair_views(self.pairs@).len() ==> {
                                let p = #[trigger] pair_views(self.pairs@)[k];
                                &&& 0 <= p.i < p.j < positions@.len()
                                &&& p.r2 == boundaries.dist2_spec(gpos[p.i], gpos[p.j])
                                &&& qlt(p.r2, qmul(gcut, gcut))
                            },
                            forall|ca: int, ka: int, b: int|
                                #![trigger self.cell_list.bucket_view(ca)[ka], pos_views(positions@)[b]]
                                0 <= ca < ncells && (ca < c || (ca == c && ka < ai)) && 0 <= ka
                                    < self.cell_list.bucket_view(ca).len() && 0 <= b < n && (
                                self.cell_list.bucket_view(ca)[ka] as int) < b && qlt(
                                    boundaries.dist2_spec(
                                        gpos[self.cell_list.bucket_view(ca)[ka] as int],
                                        gpos[b],
                                    ),
                                    qmul(gcut, gcut),
                                ) ==> pair_listed(
                                    pair_views(self.pairs@),
                                    self.cell_list.bucket_view(ca)[ka] as int,
                                    b,
                                    boundaries.dist2_spec(
                                        gpos[self.cell_list.bucket_view(ca)[ka] as int],
                                        gpos[b],
                                    ),
                                ),
                            forall|t: int, kb: int|
                                #![trigger self.cell_list.bucket_view(neighbours@[t] as int)[kb]]
                                0 <= t < neighbours@.len() && (t < w || (t == w && kb < bi)) && 0
                                    <= kb < self.cell_list.bucket_view(
                                    neighbours@[t] as int,
                                ).len() && (a as int) < self.cell_list.bucket_view(
                                    neighbours@[t] as int,
                                )[kb] && qlt(
                                    boundaries.dist2_spec(
                                        gpos[a as int],
                                        gpos[self.cell_list.bucket_view(neighbours@[t] as int)[
                                            kb
                                        ] as int],
                                    ),
                                    qmul(gcut, gcut),
                                ) ==> pair_listed(
                                    pair_views(self.pairs@),
                                    a as int,
                                    self.cell_list.bucket_view(neighbours@[t] as int)[kb] as int,
                                    boundaries.dist2_spec(
                                        gpos[a as int],
                                        gpos[self.cell_list.bucket_view(neighbours@[t] as int)[
                                            kb
                                        ] as int],
                                    ),
                                ),
                        decreases other_count - bi,
                    {
                        let b = self.cell_list.cell_atoms(nc)[bi];
                        if a < b {
                            let r_squared = boundaries.dist2(&positions[a], &positions[b]);
                            let keep = matches!(r_squared.cmp(&cutoff_squared), Ord3::Less);
                            if keep {
                                let ghost old_pairs = self.pairs@;
                                self.pairs.push(AtomPair { i: a, j: b, r_squared });
                                proof {
                                    assert(pair_views(self.pairs@) =~= pair_views(old_pairs).push(
                                        crate::neighbourlist::pair_view(
                                            self.pairs@[self.pairs@.len() - 1],
                                        ),
                                    ));
                                    lemma_pair_listed_push(pair_views(old_pairs), pair_views(
                                        self.pairs@,
                                    ));
                                    assert(pair_views(self.pairs@)[pair_views(
                                        old_pairs,
                                    ).len() as int] == (PairV {
                                        i: a as int,
                                        j: b as int,
                                        r2: boundaries.dist2_spec(gpos[a as int], gpos[b as int]),
                                    }));
                                }
                            }
                        }
                        bi = bi + 1;
                    }
                    w = w + 1;
                }
                proof {
                    assert(self.cell_list.is_cell_of(gpos[a as int], c as int));
                    assert forall|b: int| 0 <= b < n && (a as int) < b && qlt(
                        boundaries.dist2_spec(gpos[a as int], gpos[b]),
                        qmul(gcut, gcut),
                    ) implies pair_listed(
                        pair_views(self.pairs@),
                        a as int,
                        b,
                        boundaries.dist2_spec(gpos[a as int], #[trigger] gpos[b]),
                    ) by {
                        assert(stores_atom(self.cell_list, b));
                        let (cb, kb) = choose|cc: int, kk: int|
                            0 <= cc < self.cell_list.num_cells() && 0 <= kk
                                < self.cell_list.bucket_view(cc).len() && (
                            #[trigger] self.cell_list.bucket_view(cc)[kk]) == b as usize;
                        assert(self.cell_list.is_cell_of(gpos[b], cb));
                        assert(gpos[a as int] == positions@[a as int]@ && gpos[b]
                            == positions@[b]@);
                        assert(gcut.d > 0 && gbuf.d > 0);
                        lemma_pair_in_adjacent_cell(
                            self.cell_list,
                            gcut,
                            gbuf,
                            gpos[a as int],
                            gpos[b],
                            c as int,
                            cb,
                        );
                        assert(neighbours@.contains(cb as usize));
                        let t = choose|t: int| 0 <= t < neighbours@.len() && neighbours@[t]
                            == cb as usize;
                        assert(self.cell_list.bucket_view(neighbours@[t] as int)[kb]
                            == b as usize);
                    }
                }
                ai = ai + 1;
            }
            c = c + 1;
        }
        proof {
            assert(self.cell_list.wf(n as int));
            assert(exists|m: int| self.cell_list.wf(m));
            assert forall|a: int, b: int|
                0 <= a < b < positions@.len() && qlt(
                    #[trigger] boundaries.dist2_spec(
                        pos_views(positions@)[a],
                        pos_views(positions@)[b],
                    ),
                    qmul(gcut, gcut),
                ) implies pair_listed(
                pair_views(self.pairs@),
                a,
                b,
                boundaries.dist2_spec(pos_views(positions@)[a], pos_views(positions@)[b]),
            ) by {
                assert(stores_atom(self.cell_list, a));
                let (ca, ka) = choose|cc: int, kk: int|
                    0 <= cc < self.cell_list.num_cells() && 0 <= kk < self.cell_list.bucket_view(
                        cc,
                    ).len() && (#[trigger] self.cell_list.bucket_view(cc)[kk]) == a as usize;
                assert(self.cell_list.bucket_view(ca)[ka] == a as usize);
                assert(gpos[b] == pos_views(positions@)[b]);
            }
        }
        Ok(())
    }

    /// Refresh the stored squared distances for the stored pairs.
    pub fn update(&mut self, positions: &Vec<Vec3D>, boundaries: &NoBounds) -> (r: Result<()>)
        requires
            old(self).wf(),
            positions_wf(positions@),
            forall|k: int| 0 <= k < old(self).pairs_view().len() ==> 0 <= (
            #[trigger] old(self).pairs_view()[k]).i < old(self).pairs_view()[k].j
                < positions@.len(),
        ensures
            final(self).wf(),
            final(self).cutoff_view() == old(self).cutoff_view(),
            r is Ok,
            final(self).pairs_view().len() == old(self).pairs_view().len(),
            forall|k: int| 0 <= k < old(self).pairs_view().len() ==> (
            #[trigger] final(self).pairs_view()[k]) == (PairV {
                i: old(self).pairs_view()[k].i,
                j: old(self).pairs_view()[k].j,
                r2: boundaries.dist2_spec(
                    pos_views(positions@)[old(self).pairs_view()[k].i],
                    pos_views(positions@)[old(self).pairs_view()[k].j],
                ),
            }),
    {
        let ghost gpos = pos_views(positions@);
        let ghost old_views = pair_views(self.pairs@);
        let n = self.pairs.len();
        let mut updated: Vec<AtomPair> = Vec::new();
        let mut k: usize = 0;
        proof {
            assert forall|m: int| 0 <= m < n implies 0 <= (#[trigger] pair_views(
                self.pairs@,
            )[m]).i < pair_views(self.pairs@)[m].j < positions@.len() by {
                assert(old(self).pairs_view()[m] == pair_views(self.pairs@)[m]);
            }
        }
        while k < n
            invariant
                k <= n,
                n == self.pairs@.len(),
                gpos == pos_views(positions@),
                old_views == pair_views(self.pairs@),
                positions_wf(positions@),
                pairs_wf(self.pairs@),
                forall|m: int| 0 <= m < n ==> 0 <= (#[trigger] pair_views(self.pairs@)[m]).i
                    < pair_views(self.pairs@)[m].j < positions@.len(),
                updated@.len() == k,
                pairs_wf(updated@),
                forall|m: int| 0 <= m < k ==> (#[trigger] pair_views(updated@)[m]) == (PairV {
                    i: old_views[m].i,
                    j: old_views[m].j,
                    r2: boundaries.dist2_spec(gpos[old_views[m].i], gpos[old_views[m].j]),
                }),
            decreases n - k,
        {
            let pi = self.pairs[k].i;
            let pj = self.pairs[k].j;
            proof {
                assert(pair_views(self.pairs@)[k as int] == crate::neighbourlist::pair_view(
                    self.pairs@[k as int],
                ));
            }
            let r_squared = boundaries.dist2(&positions[pi], &positions[pj]);
            let ghost prev_updated = updated@;
            updated.push(AtomPair { i: pi, j: pj, r_squared });
            proof {
                assert(pair_views(updated@) =~= pair_views(prev_updated).push(
                    crate::neighbourlist::pair_view(updated@[k as int]),
                ));
                assert(gpos[pi as int] == positions@[pi as int]@);
                assert(gpos[pj as int] == positions@[pj as int]@);
            }
            k = k + 1;
        }
        self.pairs = updated;
        proof {
            let w = choose|m: int| old(self).cell_list.wf(m);
            assert(self.cell_list.wf(w));
        }
        Ok(())
    }
}

impl CellList {
    /// The number of cells, as an executable count.
    pub fn cell_atoms_len(&self) -> (r: usize)
        requires
            exists|n: int| self.wf(n),
        ensures
            r == self.num_cells(),
    {
        proof {
            let n = choose|n: int| self.wf(n);
        }
        self.cells.len()
    }

    /// The cell's own flattened index and those of its up-to-26
    /// adjacent cells, clamped at the grid edges, without duplicates:
    /// exactly the cells whose grid coordinates differ from the cell's
    /// by at most one along each axis.
    pub fn neighbours_of(&self, cell: usize) -> (r: Vec<usize>)
        requires
            exists|n: int| self.wf(n),
            cell < self.num_cells(),
        ensures
            r@.len() <= 27,
            forall|m: int| 0 <= m < r@.len() ==> self.adjacent_cells(cell as int, (
            #[trigger] r@[m]) as int),
            forall|c2: int| #[trigger] self.adjacent_cells(cell as int, c2) ==> r@.contains(
                c2 as usize,
            ),
            forall|m1: int, m2: int| 0 <= m1 < m2 < r@.len() ==> r@[m1] != r@[m2],
    {
        proof {
            let n = choose|n: int| self.wf(n);
        }
        let nx = self.nx;
        let ny = self.ny;
        let nz = self.nz;
        let _grid = self.cells.len();
        proof {
            assert(ny * nz <= nx * ny * nz) by (nonlinear_arith)
                requires
                    nx >= 1,
                    ny >= 1,
                    nz >= 1,
            ;
        }
        let plane = ny * nz;
        proof {
            assert(self.num_cells() == nx * ny * nz);
            assert(plane >= 1 && nx * ny * nz >= plane && nz >= 1) by (nonlinear_arith)
                requires
                    nx >= 1,
                    ny >= 1,
                    nz >= 1,
                    plane == ny * nz,
            ;
        }
        let x_idx = cell / plane;
        let y_idx = (cell % plane) / nz;
        let z_idx = cell % nz;
        proof {
            assert(x_idx < nx && y_idx < ny && z_idx < nz) by (nonlinear_arith)
                requires
                    cell < nx * ny * nz,
                    plane == ny * nz,
                    nx >= 1,
                    ny >= 1,
                    nz >= 1,
                    x_idx == cell / plane,
                    y_idx == (cell % plane) / nz,
                    z_idx == cell % nz,
            ;
        }
        let mut out: Vec<usize> = Vec::new();
        let mut t: usize = 0;
        while t < 27
            invariant
                t <= 27,
                nx == self.nx,
                ny == self.ny,
                nz == self.nz,
                nx >= 1 && ny >= 1 && nz >= 1,
                nx * ny * nz <= usize::MAX,
                plane == ny * nz,
                cell < self.num_cells(),
                self.num_cells() == nx * ny * nz,
                x_idx == cell / plane,
                y_idx == (cell % plane) / nz,
                z_idx == cell % nz,
                x_idx < nx,
                y_idx < ny,
                z_idx < nz,
                out@.len() <= t,
                forall|m: int| 0 <= m < out@.len() ==> self.adjacent_cells(cell as int, (
                #[trigger] out@[m]) as int),
                forall|m1: int, m2: int| 0 <= m1 < m2 < out@.len() ==> out@[m1] != out@[m2],
                forall|bx: int, by: int, bz: int|
                    #![trigger flatten_spec(ny as int, nz as int, bx, by, bz)]
                    0 <= bx < nx && 0 <= by < ny && 0 <= bz < nz && -1 <= bx - x_idx <= 1 && -1
                        <= by - y_idx <= 1 && -1 <= bz - z_idx <= 1 && (bx - x_idx + 1) * 9 + (by
                        - y_idx + 1) * 3 + (bz - z_idx + 1) < t ==> out@.contains(
                        flatten_spec(ny as int, nz as int, bx, by, bz) as usize,
                    ),
            decreases 27 - t,
        {
            let dx = t / 9;
            let dy = (t % 9) / 3;
            let dz = t % 3;
            let xn = clamp_offset(x_idx, dx, nx);
            let yn = clamp_offset(y_idx, dy, ny);
            let zn = clamp_offset(z_idx, dz, nz);
            proof {
                assert(zn + nz * yn + ny * nz * xn < nx * ny * nz && nz * yn <= nx * ny * nz && ny
                    * nz <= nx * ny * nz && ny * nz * xn <= nx * ny * nz) by (nonlinear_arith)
                    requires
                        xn < nx,
                        yn < ny,
                        zn < nz,
                        nx >= 1,
                        ny >= 1,
                        nz >= 1,
                ;
            }
            let candidate = zn + nz * yn + ny * nz * xn;
            proof {
                lemma_flatten_unflatten(ny as int, nz as int, xn as int, yn as int, zn as int);
                assert(candidate == flatten_spec(ny as int, nz as int, xn as int, yn as int,
                    zn as int));
                assert(self.adjacent_cells(cell as int, candidate as int));
            }
            let mut seen = false;
            let mut m: usize = 0;
            while m < out.len()
                invariant
                    m <= out@.len(),
                    seen <==> exists|q: int| 0 <= q < m && (#[trigger] out@[q]) == candidate,
                decreases out@.len() - m,
            {
                if out[m] == candidate {
                    seen = true;
                }
                m = m + 1;
            }
            let ghost prev_out = out@;
            if !seen {
                out.push(candidate);
            }
            proof {
                assert(out@.contains(candidate)) by {
                    if seen {
                        let q = choose|q: int| 0 <= q < prev_out.len() && prev_out[q] == candidate;
                        assert(out@[q] == candidate);
                    } else {
                        assert(out@[out@.len() - 1] == candidate);
                    }
                }
                assert forall|bx: int, by: int, bz: int|
                    #![trigger flatten_spec(ny as int, nz as int, bx, by, bz)]
                    0 <= bx < nx && 0 <= by < ny && 0 <= bz < nz && -1 <= bx - x_idx <= 1 && -1
                        <= by - y_idx <= 1 && -1 <= bz - z_idx <= 1 && (bx - x_idx + 1) * 9 + (by
                        - y_idx + 1) * 3 + (bz - z_idx + 1) < t + 1 implies out@.contains(
                    flatten_spec(ny as int, nz as int, bx, by, bz) as usize,
                ) by {
                    let e = (bx - x_idx + 1) * 9 + (by - y_idx + 1) * 3 + (bz - z_idx + 1);
                    if e < t {
                        assert(prev_out.contains(
                            flatten_spec(ny as int, nz as int, bx, by, bz) as usize,
                        ));
                        let q = choose|q: int| 0 <= q < prev_out.len() && prev_out[q]
                            == flatten_spec(ny as int, nz as int, bx, by, bz) as usize;
                        assert(out@[q] == flatten_spec(ny as int, nz as int, bx, by, bz) as usize);
                    } else {
                        assert(e == t);
                        assert(bx - x_idx + 1 == dx && by - y_idx + 1 == dy && bz - z_idx + 1
                            == dz);
                        assert(xn as int == bx && yn as int == by && zn as int == bz);
                        assert(flatten_spec(ny as int, nz as int, bx, by, bz) == candidate);
                    }
                }
            }
            t = t + 1;
        }
        proof {
            assert forall|c2: int| #[trigger] self.adjacent_cells(cell as int, c2) implies out@
                .contains(c2 as usize) by {
                let p = plane as int;
                let bx = c2 / p;
                let by = (c2 % p) / (nz as int);
                let bz = c2 % (nz as int);
                vstd::arithmetic::div_mod::lemma_fundamental_div_mod(c2, p);
                vstd::arithmetic::div_mod::lemma_fundamental_div_mod(c2 % p, nz as int);
                vstd::arithmetic::mul::lemma_mul_is_commutative(ny as int, nz as int);
                vstd::arithmetic::div_mod::lemma_mod_mod(c2, nz as int, ny as int);
                assert((c2 % p) % (nz as int) == c2 % (nz as int));
                assert(0 <= c2 % p < p && 0 <= c2 % p % (nz as int) < nz) by (nonlinear_arith)
                    requires
                        p > 0,
                        nz >= 1,
                        c2 % p == c2 - p * (c2 / p),
                        0 <= c2 < nx * ny * nz,
                        p == ny * nz,
                ;
                assert(bx >= 0 && by >= 0 && bz >= 0 && bx < nx && by < ny && bz < nz)
                    by (nonlinear_arith)
                    requires
                        0 <= c2 < nx * ny * nz,
                        p == ny * nz,
                        nx >= 1,
                        ny >= 1,
                        nz >= 1,
                        bx == c2 / p,
                        by == (c2 % p) / (nz as int),
                        bz == c2 % (nz as int),
                        0 <= c2 % p < p,
                ;
                assert(c2 == flatten_spec(ny as int, nz as int, bx, by, bz)) by (nonlinear_arith)
                    requires
                        c2 == p * bx + c2 % p,
                        c2 % p == (nz as int) * by + bz,
                        p == ny * nz,
                ;
                assert(-1 <= bx - x_idx <= 1 && -1 <= by - y_idx <= 1 && -1 <= bz - z_idx <= 1);
                assert((bx - x_idx + 1) * 9 + (by - y_idx + 1) * 3 + (bz - z_idx + 1) < 27);
                assert(out@.contains(flatten_spec(ny as int, nz as int, bx, by, bz) as usize));
            }
        }
        out
    }
}

/// Each squared component is at most the squared norm.
proof fn lemma_component_sq_le_norm2(d: V3)
    requires
        v3_wf(d),
    ensures
        qle(qmul(d.x, d.x), norm2_val(d)),
        qle(qmul(d.y, d.y), norm2_val(d)),
        qle(qmul(d.z, d.z), norm2_val(d)),
{
    let xx = qmul(d.x, d.x);
    let yy = qmul(d.y, d.y);
    let zz = qmul(d.z, d.z);
    lemma_q_ops_wf(d.x, d.x);
    lemma_q_ops_wf(d.y, d.y);
    lemma_q_ops_wf(d.z, d.z);
    assert(xx.n >= 0 && yy.n >= 0 && zz.n >= 0) by (nonlinear_arith)
        requires
            xx.n == d.x.n * d.x.n,
            yy.n == d.y.n * d.y.n,
            zz.n == d.z.n * d.z.n,
    ;
    lemma_q_ops_wf(xx, yy);
    lemma_q_ops_wf(qadd(xx, yy), zz);
    lemma_le_add_sq(xx, yy);
    lemma_le_add_sq_left(yy, xx);
    lemma_le_add_sq(qadd(xx, yy), zz);
    lemma_le_add_sq_left(zz, qadd(xx, yy));
    lemma_qle_trans(xx, qadd(xx, yy), qadd(qadd(xx, yy), zz));
    lemma_qle_trans(yy, qadd(xx, yy), qadd(qadd(xx, yy), zz));
}

/// Adding a square of a rational on the right never decreases a value.
proof fn lemma_le_add_sq(a: Qv, s: Qv)
    requires
        a.d > 0,
        s.d > 0,
        s.n >= 0,
    ensures
        qle(a, qadd(a, s)),
{
    assert(a.n * (a.d * s.d) <= (a.n * s.d + s.n * a.d) * a.d) by (nonlinear_arith)
        requires
            s.n >= 0,
            a.d > 0,
            s.d > 0,
    ;
}

/// Adding a square of a rational on the left never decreases a value.
proof fn lemma_le_add_sq_left(a: Qv, s: Qv)
    requires
        a.d > 0,
        s.d > 0,
        s.n >= 0,
    ensures
        qle(a, qadd(s, a)),
{
    assert(a.n * (s.d * a.d) <= (s.n * a.d + a.n * s.d) * a.d) by (nonlinear_arith)
        requires
            s.n >= 0,
            a.d > 0,
            s.d > 0,
    ;
}

/// A value whose square is below the square of a positive bound lies
/// strictly between the bound's negation and the bound: both ordered
/// differences are below the bound.
proof fn lemma_sq_lt_bound(xa: Qv, xb: Qv, e: Qv)
    requires
        xa.d > 0,
        xb.d > 0,
        e.d > 0,
        qlt(qzero(), e),
        qlt(qmul(qsub(xb, xa), qsub(xb, xa)), qmul(e, e)),
    ensures
        qlt(qsub(xb, xa), e),
        qlt(qsub(xa, xb), e),
{
    let qn = qsub(xb, xa).n;
    let qd = qsub(xb, xa).d;
    assert(e.n > 0) by (nonlinear_arith)
        requires
            0 * e.d < e.n * 1,
    ;
    assert(qd > 0) by (nonlinear_arith)
        requires
            xa.d > 0,
            xb.d > 0,
            qd == xb.d * xa.d,
    ;
    assert((qn * qn) * (e.d * e.d) < (e.n * e.n) * (qd * qd));
    assert(qn * e.d < e.n * qd && -(qn * e.d) < e.n * qd) by (nonlinear_arith)
        requires
            (qn * qn) * (e.d * e.d) < (e.n * e.n) * (qd * qd),
            e.n > 0,
            e.d > 0,
            qd > 0,
    ;
    assert(qsub(xa, xb).n * e.d < e.n * qsub(xa, xb).d) by (nonlinear_arith)
        requires
            -(qn * e.d) < e.n * qd,
            qn == xb.n * xa.d - xa.n * xb.d,
            qd == xb.d * xa.d,
            qsub(xa, xb).n == xa.n * xb.d - xb.n * xa.d,
            qsub(xa, xb).d == xa.d * xb.d,
    ;
}

/// A cutoff no larger than the cell edge keeps its square no larger
/// either.
proof fn lemma_sq_le_of_le(c: Qv, e: Qv)
    requires
        c.d > 0,
        e.d > 0,
        qle(qzero(), c),
        qle(c, e),
    ensures
        qle(qmul(c, c), qmul(e, e)),
{
    assert((c.n * c.n) * (e.d * e.d) <= (e.n * e.n) * (c.d * c.d)) by (nonlinear_arith)
        requires
            0 * c.d <= c.n * 1,
            c.n * e.d <= e.n * c.d,
            c.d > 0,
            e.d > 0,
    ;
}

/// A non-negative buffer keeps the cutoff at or below the cell edge.
proof fn lemma_cutoff_le_edge(c: Qv, b: Qv)
    requires
        c.d > 0,
        b.d > 0,
        qle(qzero(), b),
    ensures
        qle(c, qadd(c, b)),
    {
    assert(c.n * (c.d * b.d) <= (c.n * b.d + b.n * c.d) * c.d) by (nonlinear_arith)
        requires
            0 * b.d <= b.n * 1,
            c.d > 0,
            b.d > 0,
    ;
}

/// Two positions within the cutoff of each other, with a non-negative
/// cutoff and buffer, fall in adjacent cells of a grid whose edge is
/// the cutoff plus the buffer.
proof fn lemma_pair_in_adjacent_cell(
    grid: CellList,
    cutoff: Qv,
    buffer: Qv,
    pa: V3,
    pb: V3,
    ca: int,
    cb: int,
)
    requires
        grid.wf(0) || exists|n: int| grid.wf(n),
        grid.edge_spec() == qadd(cutoff, buffer),
        cutoff.d > 0,
        buffer.d > 0,
        qle(qzero(), cutoff),
        qle(qzero(), buffer),
        v3_wf(pa),
        v3_wf(pb),
        cell_of_ok(grid.edge_spec(), grid.grid_x(), grid.grid_y(), grid.grid_z(), pa, ca),
        cell_of_ok(grid.edge_spec(), grid.grid_x(), grid.grid_y(), grid.grid_z(), pb, cb),
        qlt(open_d2(pa, pb), qmul(cutoff, cutoff)),
    ensures
        grid.adjacent_cells(ca, cb),
{
    let n0 = choose|n: int| grid.wf(n);
    let e = grid.edge_spec();
    let d = open_delta(pa, pb);
    lemma_q_ops_wf(pb.x, pa.x);
    lemma_q_ops_wf(pb.y, pa.y);
    lemma_q_ops_wf(pb.z, pa.z);
    lemma_q_ops_wf(d.x, d.x);
    lemma_q_ops_wf(d.y, d.y);
    lemma_q_ops_wf(d.z, d.z);
    lemma_q_ops_wf(qmul(d.x, d.x), qmul(d.y, d.y));
    lemma_q_ops_wf(cutoff, cutoff);
    lemma_q_ops_wf(e, e);
    lemma_q_ops_wf(cutoff, buffer);
    lemma_component_sq_le_norm2(d);
    crate::geom::vec3d::lemma_norm2_nonneg(d);
    lemma_cutoff_le_edge(cutoff, buffer);
    lemma_sq_le_of_le(cutoff, e);
    assert(qlt(qzero(), e)) by (nonlinear_arith)
        requires
            0 * cutoff.d <= cutoff.n * 1,
            0 * e.d < e.n * 1 || true,
            e.n == cutoff.n * buffer.d + buffer.n * cutoff.d,
            e.d == cutoff.d * buffer.d,
            0 * buffer.d <= buffer.n * 1,
            cutoff.d > 0,
            buffer.d > 0,
            qlt(open_d2(pa, pb), qmul(cutoff, cutoff)),
            open_d2(pa, pb).n >= 0,
            open_d2(pa, pb).d > 0,
            qmul(cutoff, cutoff).n == cutoff.n * cutoff.n,
            qmul(cutoff, cutoff).d == cutoff.d * cutoff.d,
    ;
    let c2 = qmul(cutoff, cutoff);
    let e2 = qmul(e, e);
    lemma_qle_qlt_trans(qmul(d.x, d.x), open_d2(pa, pb), c2);
    lemma_qle_qlt_trans(qmul(d.y, d.y), open_d2(pa, pb), c2);
    lemma_qle_qlt_trans(qmul(d.z, d.z), open_d2(pa, pb), c2);
    crate::arith::rational::lemma_qlt_qle_trans(qmul(d.x, d.x), c2, e2);
    crate::arith::rational::lemma_qlt_qle_trans(qmul(d.y, d.y), c2, e2);
    crate::arith::rational::lemma_qlt_qle_trans(qmul(d.z, d.z), c2, e2);
    lemma_sq_lt_bound(pa.x, pb.x, e);
    lemma_sq_lt_bound(pa.y, pb.y, e);
    lemma_sq_lt_bound(pa.z, pb.z, e);
    let (kxa, kya, kza) = choose|kx: int, ky: int, kz: int|
        {
            &&& is_axis_cell(pa.x, e, grid.grid_x(), kx)
            &&& is_axis_cell(pa.y, e, grid.grid_y(), ky)
            &&& is_axis_cell(pa.z, e, grid.grid_z(), kz)
            &&& ca == #[trigger] flatten_spec(grid.grid_y(), grid.grid_z(), kx, ky, kz)
        };
    let (kxb, kyb, kzb) = choose|kx: int, ky: int, kz: int|
        {
            &&& is_axis_cell(pb.x, e, grid.grid_x(), kx)
            &&& is_axis_cell(pb.y, e, grid.grid_y(), ky)
            &&& is_axis_cell(pb.z, e, grid.grid_z(), kz)
            &&& cb == #[trigger] flatten_spec(grid.grid_y(), grid.grid_z(), kx, ky, kz)
        };
    lemma_axis_cells_close(pa.x, pb.x, e, grid.grid_x(), kxa, kxb);
    lemma_axis_cells_close(pa.y, pb.y, e, grid.grid_y(), kya, kyb);
    lemma_axis_cells_close(pa.z, pb.z, e, grid.grid_z(), kza, kzb);
    lemma_flatten_unflatten(grid.grid_y(), grid.grid_z(), kxa, kya, kza);
    lemma_flatten_unflatten(grid.grid_y(), grid.grid_z(), kxb, kyb, kzb);
    assert(0 <= ca < grid.num_cells() && 0 <= cb < grid.num_cells()) by (nonlinear_arith)
        requires
            0 <= kxa < grid.grid_x(),
            0 <= kya < grid.grid_y(),
            0 <= kza < grid.grid_z(),
            0 <= kxb < grid.grid_x(),
            0 <= kyb < grid.grid_y(),
            0 <= kzb < grid.grid_z(),
            ca == kza + grid.grid_z() * kya + grid.grid_y() * grid.grid_z() * kxa,
            cb == kzb + grid.grid_z() * kyb + grid.grid_y() * grid.grid_z() * kxb,
            grid.num_cells() == grid.grid_x() * grid.grid_y() * grid.grid_z(),
    ;
}

/// One grid coordinate shifted by an offset in `{-1, 0, +1}` encoded as
/// `{0, 1, 2}`, clamped into `[0, n)`.
fn clamp_offset(idx: usize, offset: usize, n: usize) -> (r: usize)
    requires
        idx < n,
        offset < 3,
        n >= 1,
    ensures
        r < n,
        offset == 0 ==> r as int == (if idx == 0 {
            0int
        } else {
            idx - 1
        }),
        offset == 1 ==> r == idx,
        offset == 2 ==> r as int == (if idx + 1 >= n {
            n - 1
        } else {
            idx + 1
        }),
{
    if offset == 0 {
        if idx == 0 {
            0
        } else {
            idx - 1
        }
    } else if offset == 1 {
        idx
    } else {
        if idx + 1 >= n {
            n - 1
        } else {
            idx + 1
        }
    }
}

} // verus!
