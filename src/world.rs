//! The voxel world: a flat array of cells, each with its content and the
//! indices of its six face neighbours (+x, -x, +y, -y, +z, -z).
use vstd::prelude::*;
use vstd::arithmetic::div_mod::{
    lemma_div_denominator, lemma_fundamental_div_mod, lemma_fundamental_div_mod_converse,
};

verus! {

/// Largest number of cells a random draw picks from: within it, the draw is
/// sure to land below the bound asked for.
pub const MAX_CELLS: usize = 1073741824;

/// Brightness of a fully lit cell; brightness is a fixed-point fraction of it.
pub const FULL_BRIGHTNESS: u32 = 1000;

/// What a cell holds.
#[derive(Clone, Copy, Debug, PartialEq, Eq)]
pub struct Voxel {
    /// Red, green and blue.
    pub color: [u8; 3],
    /// A solid cell stops rays and is drawn.
    pub solid: bool,
    /// Light level, as a fraction of `FULL_BRIGHTNESS`.
    pub brightness: u32,
}

/// A cell of the world: its content and its six face neighbours.
#[derive(Clone, Copy, Debug)]
pub struct Cell {
    pub voxel: Voxel,
    pub neighbors: [usize; 6],
}

/// The world as an arena of cells linked by index.
pub struct World {
    pub cells: Vec<Cell>,
}

/// Index of the face crossed when moving along `axis`, up or down it.
pub open spec fn face_index(axis: int, positive: bool) -> int {
    if positive {
        2 * axis
    } else {
        2 * axis + 1
    }
}

/// The neighbour of cell `c` across face `face`.
pub open spec fn neighbor_of(cells: Seq<Cell>, c: int, face: int) -> int {
    cells[c].neighbors@[face] as int
}

/// Every cell links to six cells of the world.
pub open spec fn links_closed(cells: Seq<Cell>) -> bool {
    forall|c: int, f: int|
        0 <= c < cells.len() && 0 <= f < 6 ==> #[trigger] neighbor_of(cells, c, f) < cells.len()
}

/// A cell with no content.
pub open spec fn is_empty_voxel(v: Voxel) -> bool {
    v.color@ == seq![0u8, 0u8, 0u8] && !v.solid && v.brightness == 0
}

/// Flat index of the lattice cell at coordinates `(i, j, k)`, rows of `ny × nz`.
pub open spec fn flat_index(i: int, j: int, k: int, ny: int, nz: int) -> int {
    i * ny * nz + j * nz + k
}

/// The lattice neighbour of flat index `n` across `face`, with every axis
/// wrapping around.
pub open spec fn torus_neighbor(n: int, face: int, nx: int, ny: int, nz: int) -> int {
    let i = n / (ny * nz);
    let j = (n / nz) % ny;
    let k = n % nz;
    if face == 0 {
        flat_index((i + 1) % nx, j, k, ny, nz)
    } else if face == 1 {
        flat_index((i - 1) % nx, j, k, ny, nz)
    } else if face == 2 {
        flat_index(i, (j + 1) % ny, k, ny, nz)
    } else if face == 3 {
        flat_index(i, (j - 1) % ny, k, ny, nz)
    } else if face == 4 {
        flat_index(i, j, (k + 1) % nz, ny, nz)
    } else {
        flat_index(i, j, (k - 1) % nz, ny, nz)
    }
}

/// The cells form an `nx × ny × nz` lattice that wraps around on every axis.
pub open spec fn is_torus(cells: Seq<Cell>, nx: int, ny: int, nz: int) -> bool {
    &&& nx > 0 && ny > 0 && nz > 0
    &&& cells.len() == nx * ny * nz
    &&& forall|c: int, f: int|
        0 <= c < cells.len() && 0 <= f < 6 ==> #[trigger] neighbor_of(cells, c, f)
            == torus_neighbor(c, f, nx, ny, nz)
}

pub(crate) proof fn lemma_flat_decompose(i: int, j: int, k: int, nx: int, ny: int, nz: int)
    requires
        0 <= i < nx,
        0 <= j < ny,
        0 <= k < nz,
    ensures
        0 <= flat_index(i, j, k, ny, nz) < nx * ny * nz,
        flat_index(i, j, k, ny, nz) / (ny * nz) == i,
        (flat_index(i, j, k, ny, nz) / nz) % ny == j,
        flat_index(i, j, k, ny, nz) % nz == k,
{
    let n = flat_index(i, j, k, ny, nz);
    let q = i * ny + j;
    assert(n == q * nz + k) by (nonlinear_arith)
        requires n == i * ny * nz + j * nz + k, q == i * ny + j;
    assert(0 <= q < nx * ny) by (nonlinear_arith)
        requires q == i * ny + j, 0 <= i < nx, 0 <= j < ny;
    assert(0 <= n < nx * ny * nz) by (nonlinear_arith)
        requires n == q * nz + k, 0 <= q < nx * ny, 0 <= k < nz;
    lemma_fundamental_div_mod_converse(n, nz, q, k);
    lemma_fundamental_div_mod_converse(q, ny, i, j);
    lemma_div_denominator(n, nz, ny);
    assert(nz * ny == ny * nz) by (nonlinear_arith);
}

pub(crate) proof fn lemma_flat_compose(n: int, nx: int, ny: int, nz: int)
    requires
        nx > 0,
        ny > 0,
        nz > 0,
        0 <= n < nx * ny * nz,
    ensures
        0 <= n / (ny * nz) < nx,
        0 <= (n / nz) % ny < ny,
        0 <= n % nz < nz,
        flat_index(n / (ny * nz), (n / nz) % ny, n % nz, ny, nz) == n,
{
    let q = n / nz;
    lemma_fundamental_div_mod(n, nz);
    lemma_fundamental_div_mod(q, ny);
    lemma_div_denominator(n, nz, ny);
    assert(nz * ny == ny * nz) by (nonlinear_arith);
    let i = q / ny;
    let j = q % ny;
    let k = n % nz;
    assert(0 <= q) by (nonlinear_arith)
        requires n == nz * q + k, 0 <= k < nz, n >= 0;
    assert(q < nx * ny) by (nonlinear_arith)
        requires n == nz * q + k, 0 <= k, n < nx * ny * nz, nz > 0;
    assert(0 <= i < nx) by (nonlinear_arith)
        requires q == ny * i + j, 0 <= j < ny, 0 <= q < nx * ny;
    assert(flat_index(i, j, k, ny, nz) == n) by (nonlinear_arith)
        requires n == nz * q + k, q == ny * i + j;
}

proof fn lemma_wrap(i: int, m: int)
    requires
        0 <= i < m,
    ensures
        (i + 1) % m == if i + 1 < m { i + 1 } else { 0 },
        (i - 1) % m == if i > 0 { i - 1 } else { m - 1 },
{
    if i + 1 < m {
        lemma_fundamental_div_mod_converse(i + 1, m, 0, i + 1);
    } else {
        lemma_fundamental_div_mod_converse(i + 1, m, 1, 0);
    }
    if i > 0 {
        lemma_fundamental_div_mod_converse(i - 1, m, 0, i - 1);
    } else {
        lemma_fundamental_div_mod_converse(i - 1, m, -1, m - 1);
    }
}

/// Flat index of the lattice cell at `(i, j, k)` in a lattice with `ny × nz`
/// cells per row.
pub fn furl(i: usize, j: usize, k: usize, ny: usize, nz: usize) -> (r: usize)
    requires
        j < ny,
        k < nz,
        (i + 1) * ny * nz <= usize::MAX,
    ensures
        r == flat_index(i as int, j as int, k as int, ny as int, nz as int),
{
    proof {
        lemma_flat_decompose(i as int, j as int, k as int, i + 1, ny as int, nz as int);
        assert(i * ny * nz + j * nz + k < (i + 1) * ny * nz) by (nonlinear_arith)
            requires j < ny, k < nz;
        assert(i * ny <= (i + 1) * ny * nz && i * ny * nz <= (i + 1) * ny * nz && j * nz <= (i + 1) * ny * nz) by (nonlinear_arith)
            requires j < ny, k < nz;
    }
    i * ny * nz + j * nz + k
}

/// Every link of a wrapping lattice lands on a cell of the lattice, and
/// stepping across a face and back across the opposite face returns to the
/// starting cell.
proof fn lemma_torus_step(c: int, axis: int, nx: int, ny: int, nz: int)
    requires
        nx > 0,
        ny > 0,
        nz > 0,
        0 <= c < nx * ny * nz,
        0 <= axis < 3,
    ensures
        0 <= torus_neighbor(c, 2 * axis, nx, ny, nz) < nx * ny * nz,
        0 <= torus_neighbor(c, 2 * axis + 1, nx, ny, nz) < nx * ny * nz,
        torus_neighbor(torus_neighbor(c, 2 * axis, nx, ny, nz), 2 * axis + 1, nx, ny, nz) == c,
        torus_neighbor(torus_neighbor(c, 2 * axis + 1, nx, ny, nz), 2 * axis, nx, ny, nz) == c,
{
    lemma_flat_compose(c, nx, ny, nz);
    let i = c / (ny * nz);
    let j = (c / nz) % ny;
    let k = c % nz;
    lemma_wrap(i, nx);
    lemma_wrap(j, ny);
    lemma_wrap(k, nz);
    let up = torus_neighbor(c, 2 * axis, nx, ny, nz);
    let down = torus_neighbor(c, 2 * axis + 1, nx, ny, nz);
    if axis == 0 {
        lemma_flat_decompose((i + 1) % nx, j, k, nx, ny, nz);
        lemma_flat_decompose((i - 1) % nx, j, k, nx, ny, nz);
        lemma_wrap((i + 1) % nx, nx);
        lemma_wrap((i - 1) % nx, nx);
    } else if axis == 1 {
        lemma_flat_decompose(i, (j + 1) % ny, k, nx, ny, nz);
        lemma_flat_decompose(i, (j - 1) % ny, k, nx, ny, nz);
        lemma_wrap((j + 1) % ny, ny);
        lemma_wrap((j - 1) % ny, ny);
    } else {
        lemma_flat_decompose(i, j, (k + 1) % nz, nx, ny, nz);
        lemma_flat_decompose(i, j, (k - 1) % nz, nx, ny, nz);
        lemma_wrap((k + 1) % nz, nz);
        lemma_wrap((k - 1) % nz, nz);
    }
}

/// A wrapping lattice links every cell to cells of the world.
pub proof fn lemma_torus_links_closed(cells: Seq<Cell>, nx: int, ny: int, nz: int)
    requires
        is_torus(cells, nx, ny, nz),
    ensures
        links_closed(cells),
{
    assert forall|c: int, f: int| 0 <= c < cells.len() && 0 <= f < 6 implies #[trigger] neighbor_of(
        cells,
        c,
        f,
    ) < cells.len() by {
        lemma_torus_step(c, f / 2, nx, ny, nz);
    }
}

/// Adjacency is symmetric in a wrapping lattice: from any cell, a step up an
/// axis followed by a step down the same axis comes back to the cell, and so
/// does a step down followed by a step up.
pub proof fn lemma_adjacency_symmetric(cells: Seq<Cell>, nx: int, ny: int, nz: int, c: int, axis: int)
    requires
        is_torus(cells, nx, ny, nz),
        0 <= c < cells.len(),
        0 <= axis < 3,
    ensures
        neighbor_of(cells, neighbor_of(cells, c, face_index(axis, true)), face_index(axis, false))
            == c,
        neighbor_of(cells, neighbor_of(cells, c, face_index(axis, false)), face_index(axis, true))
            == c,
{
    lemma_torus_step(c, axis, nx, ny, nz);
    let up = neighbor_of(cells, c, 2 * axis);
    let down = neighbor_of(cells, c, 2 * axis + 1);
    assert(neighbor_of(cells, up, 2 * axis + 1) == torus_neighbor(up, 2 * axis + 1, nx, ny, nz));
    assert(neighbor_of(cells, down, 2 * axis) == torus_neighbor(down, 2 * axis, nx, ny, nz));
}

proof fn lemma_row_fits(x: int, nx: int, ny: int, nz: int)
    requires
        0 <= x < nx,
        ny > 0,
        nz > 0,
    ensures
        (x + 1) * ny * nz <= nx * ny * nz,
{
    assert((x + 1) * ny * nz <= nx * ny * nz) by (nonlinear_arith)
        requires x + 1 <= nx, ny > 0, nz > 0;
}

/// A world of `nx × ny × nz` empty cells whose faces link up as a lattice that
/// wraps around on every axis.
pub fn build_world(nx: usize, ny: usize, nz: usize) -> (w: World)
    requires
        nx > 0,
        ny > 0,
        nz > 0,
        nx * ny * nz <= usize::MAX,
    ensures
        is_torus(w.cells@, nx as int, ny as int, nz as int),
        w.wf(),
        forall|c: int| 0 <= c < w.cells@.len() ==> is_empty_voxel(#[trigger] w.cells@[c].voxel),
{
    proof {
        assert(nx * ny <= nx * ny * nz && ny * nz <= nx * ny * nz) by (nonlinear_arith)
            requires nx > 0, ny > 0, nz > 0;
    }
    let plane = ny * nz;
    proof {
        assert(nx * plane == nx * ny * nz) by (nonlinear_arith)
            requires plane == ny * nz;
    }
    let total = nx * plane;
    proof {
        assert(plane > 0) by (nonlinear_arith)
            requires plane == ny * nz, ny > 0, nz > 0;
    }
    let mut cells: Vec<Cell> = Vec::new();
    let mut n: usize = 0;
    while n < total
        invariant
            n <= total,
            total == nx * ny * nz,
            plane == ny * nz,
            plane > 0,
            nx > 0 && ny > 0 && nz > 0,
            cells@.len() == n,
            forall|c: int, f: int|
                0 <= c < n && 0 <= f < 6 ==> #[trigger] neighbor_of(cells@, c, f)
                    == torus_neighbor(c, f, nx as int, ny as int, nz as int),
            forall|c: int| 0 <= c < n ==> is_empty_voxel(#[trigger] cells@[c].voxel),
        decreases total - n,
    {
        proof {
            lemma_flat_compose(n as int, nx as int, ny as int, nz as int);
        }
        let i = n / plane;
        let j = (n / nz) % ny;
        let k = n % nz;
        proof {
            lemma_wrap(i as int, nx as int);
            lemma_wrap(j as int, ny as int);
            lemma_wrap(k as int, nz as int);
            assert(nx * ny * nz == nx * plane) by (nonlinear_arith)
                requires plane == ny * nz;
        }
        let i_up = if i + 1 == nx { 0 } else { i + 1 };
        let i_down = if i == 0 { nx - 1 } else { i - 1 };
        let j_up = if j + 1 == ny { 0 } else { j + 1 };
        let j_down = if j == 0 { ny - 1 } else { j - 1 };
        let k_up = if k + 1 == nz { 0 } else { k + 1 };
        let k_down = if k == 0 { nz - 1 } else { k - 1 };
        proof {
            lemma_row_fits(i as int, nx as int, ny as int, nz as int);
            lemma_row_fits(i_up as int, nx as int, ny as int, nz as int);
            lemma_row_fits(i_down as int, nx as int, ny as int, nz as int);
        }
        let neighbors = [
            furl(i_up, j, k, ny, nz),
            furl(i_down, j, k, ny, nz),
            furl(i, j_up, k, ny, nz),
            furl(i, j_down, k, ny, nz),
            furl(i, j, k_up, ny, nz),
            furl(i, j, k_down, ny, nz),
        ];
        let voxel = Voxel { color: [0, 0, 0], solid: false, brightness: 0 };
        let ghost before = cells@;
        cells.push(Cell { voxel, neighbors });
        proof {
            assert(voxel.color@ =~= seq![0u8, 0u8, 0u8]);
            let (ni, gx, gy, gz) = (n as int, nx as int, ny as int, nz as int);
            assert(cells@[ni].neighbors == neighbors);
            assert forall|c: int, f: int|
                0 <= c < n + 1 && 0 <= f < 6 implies #[trigger] neighbor_of(cells@, c, f)
                    == torus_neighbor(c, f, gx, gy, gz) by {
                if c < n {
                    assert(cells@[c] == before[c]);
                    assert(neighbor_of(before, c, f) == torus_neighbor(c, f, gx, gy, gz));
                } else {
                    assert(neighbor_of(cells@, c, f) == neighbors@[f]);
                }
            }
        }
        n = n + 1;
    }
    let w = World { cells };
    proof {
        lemma_torus_links_closed(w.cells@, nx as int, ny as int, nz as int);
    }
    w
}

impl World {
    /// Every cell links to cells of the world.
    pub open spec fn wf(&self) -> bool {
        links_closed(self.cells@)
    }

    /// Number of cells.
    pub fn len(&self) -> (r: usize)
        ensures
            r == self.cells@.len(),
    {
        self.cells.len()
    }

    /// The neighbour of cell `c` across face `face`.
    pub fn neighbor(&self, c: usize, face: usize) -> (r: usize)
        requires
            self.wf(),
            c < self.cells@.len(),
            face < 6,
        ensures
            r == neighbor_of(self.cells@, c as int, face as int),
            r < self.cells@.len(),
    {
        self.cells[c].neighbors[face]
    }

    /// The content of cell `c`.
    pub fn read(&self, c: usize) -> (r: Voxel)
        requires
            c < self.cells@.len(),
        ensures
            r == self.cells@[c as int].voxel,
    {
        self.cells[c].voxel
    }

    /// Replaces the content of cell `c`, leaving every link and every other
    /// cell as it was.
    pub fn write(&mut self, c: usize, v: Voxel)
        requires
            c < old(self).cells@.len(),
        ensures
            final(self).cells@ == old(self).cells@.update(
                c as int,
                Cell { voxel: v, neighbors: old(self).cells@[c as int].neighbors },
            ),
    {
        let neighbors = self.cells[c].neighbors;
        self.cells.set(c, Cell { voxel: v, neighbors });
    }
}

} // verus!
