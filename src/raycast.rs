//! Marching a ray through the world, face by face, until it meets a solid cell
//! or runs out of steps.
use vstd::prelude::*;
use crate::lattice::{
    advance, advanced, crossing_axis, first_crossed, gap, in_cell, lemma_crossing_axis_is_first,
    lemma_first_crossed_unique, moved_coord, reaches_before, reaches_by, speed,
    valid_direction, UNIT,
};
use crate::world::{
    face_index, is_torus, lemma_adjacency_symmetric, neighbor_of, Cell, World,
};

verus! {

/// The cell entered when the ray at `p` in cell `c` crosses its first face.
pub open spec fn step_cell(cells: Seq<Cell>, c: int, p: [u64; 3], d: [i64; 3]) -> int {
    let a = crossing_axis(p, d);
    neighbor_of(cells, c, face_index(a, d@[a] > 0))
}

/// Cell and position of the ray after `n` crossings.
pub open spec fn march(cells: Seq<Cell>, c: int, p: [u64; 3], d: [i64; 3], n: nat) -> (int, [u64; 3])
    decreases n,
{
    if n == 0 {
        (c, p)
    } else {
        let (c1, p1) = march(cells, c, p, d, (n - 1) as nat);
        (step_cell(cells, c1, p1, d), advanced(p1, d))
    }
}

/// Whether cell `c` stops rays.
pub open spec fn solid_at(cells: Seq<Cell>, c: int) -> bool {
    cells[c].voxel.solid
}

/// The direction pointing the other way.
pub open spec fn reversed(d: [i64; 3]) -> [i64; 3] {
    [-d@[0] as i64, -d@[1] as i64, -d@[2] as i64]
}

/// A position strictly inside its cell, on no face.
pub open spec fn interior(p: [u64; 3]) -> bool {
    0 < p@[0] < UNIT && 0 < p@[1] < UNIT && 0 < p@[2] < UNIT
}

/// Number of crossings after which a ray stops when it may take at most `max`:
/// the first crossing, after the `j`-th, into a solid cell, or `max`.
pub open spec fn stop_after(cells: Seq<Cell>, c: int, p: [u64; 3], d: [i64; 3], max: nat, j: nat) -> nat
    decreases max - j,
{
    if j >= max {
        max
    } else if solid_at(cells, march(cells, c, p, d, j + 1).0) {
        j + 1
    } else {
        stop_after(cells, c, p, d, max, j + 1)
    }
}

/// Number of crossings a ray from `p` in cell `c` along `d` makes before it
/// stops, with a budget of `max`.
pub open spec fn ray_end(cells: Seq<Cell>, c: int, p: [u64; 3], d: [i64; 3], max: nat) -> nat {
    stop_after(cells, c, p, d, max, 0)
}

proof fn lemma_stop_after(cells: Seq<Cell>, c: int, p: [u64; 3], d: [i64; 3], max: nat, j: nat, s: nat)
    requires
        j <= s <= max,
        j < s || s == max,
        forall|k: nat| j < k < s ==> !solid_at(cells, #[trigger] march(cells, c, p, d, k).0),
        s < max ==> solid_at(cells, march(cells, c, p, d, s).0),
    ensures
        stop_after(cells, c, p, d, max, j) == s,
    decreases max - j,
{
    if j < max {
        if !solid_at(cells, march(cells, c, p, d, j + 1).0) {
            lemma_stop_after(cells, c, p, d, max, j + 1, s);
        }
    }
}

/// Where a ray ended.
pub struct RayHit {
    /// The cell the ray stopped in.
    pub cell: usize,
    /// Position in that cell: where the ray entered it, or the start if it
    /// crossed no face.
    pub position: [u64; 3],
    /// Number of faces crossed.
    pub steps: usize,
    /// Whether the ray stopped at a solid cell rather than running out of steps.
    pub hit: bool,
}

proof fn lemma_advanced_in_cell(p: [u64; 3], d: [i64; 3])
    requires
        in_cell(p),
        valid_direction(d),
    ensures
        in_cell(advanced(p, d)),
        forall|b: int| 0 <= b < 3 ==> #[trigger] advanced(p, d)@[b] == moved_coord(p, d, crossing_axis(p, d), b),
{
    lemma_crossing_axis_is_first(p, d);
    let a = crossing_axis(p, d);
    assert forall|b: int| 0 <= b < 3 implies 0 <= #[trigger] moved_coord(p, d, a, b) <= UNIT by {
        if b != a {
            crate::lattice::lemma_shift_within_gap(p, d, a, b);
        }
    }
    assert(advanced(p, d)@[0] == moved_coord(p, d, a, 0));
    assert(advanced(p, d)@[1] == moved_coord(p, d, a, 1));
    assert(advanced(p, d)@[2] == moved_coord(p, d, a, 2));
}

/// Casts a ray from position `p` in cell `start` along `d`, crossing at most
/// `max_steps` faces. It stops at the first solid cell it enters; a ray that
/// meets none within the budget is a miss and ends where its last step took it.
pub fn raycast(world: &World, start: usize, p: [u64; 3], d: [i64; 3], max_steps: usize) -> (r: RayHit)
    requires
        world.wf(),
        start < world.cells@.len(),
        in_cell(p),
        valid_direction(d),
    ensures
        r.steps <= max_steps,
        march(world.cells@, start as int, p, d, r.steps as nat) == (r.cell as int, r.position),
        forall|j: nat|
            1 <= j < r.steps ==> !solid_at(
                world.cells@,
                #[trigger] march(world.cells@, start as int, p, d, j).0,
            ),
        r.hit == (r.steps >= 1 && solid_at(world.cells@, r.cell as int)),
        !r.hit ==> r.steps == max_steps,
        r.cell < world.cells@.len(),
        in_cell(r.position),
        r.steps == ray_end(world.cells@, start as int, p, d, max_steps as nat),
{
    let ghost cells = world.cells@;
    let mut cell = start;
    let mut x = p;
    let mut steps: usize = 0;
    while steps < max_steps
        invariant
            world.wf(),
            cells == world.cells@,
            start < cells.len(),
            in_cell(p),
            valid_direction(d),
            steps <= max_steps,
            march(cells, start as int, p, d, steps as nat) == (cell as int, x),
            cell < cells.len(),
            in_cell(x),
            forall|j: nat|
                1 <= j <= steps ==> !solid_at(cells, #[trigger] march(cells, start as int, p, d, j).0),
        decreases max_steps - steps,
    {
        let crossing = advance(x, d);
        let face = if crossing.positive {
            2 * crossing.axis
        } else {
            2 * crossing.axis + 1
        };
        cell = world.neighbor(cell, face);
        x = crossing.position;
        steps = steps + 1;
        proof {
            assert(march(cells, start as int, p, d, steps as nat) == (cell as int, x));
        }
        if world.read(cell).solid {
            proof {
                lemma_stop_after(cells, start as int, p, d, max_steps as nat, 0, steps as nat);
            }
            return RayHit { cell, position: x, steps, hit: true };
        }
    }
    proof {
        if steps >= 1 {
            assert(!solid_at(cells, march(cells, start as int, p, d, steps as nat).0));
        }
        lemma_stop_after(cells, start as int, p, d, max_steps as nat, 0, steps as nat);
    }
    RayHit { cell, position: x, steps, hit: false }
}

/// The direction pointing the other way.
pub fn reverse(d: [i64; 3]) -> (r: [i64; 3])
    requires
        valid_direction(d),
    ensures
        r == reversed(d),
        valid_direction(r),
{
    let r = [-d[0], -d[1], -d[2]];
    proof {
        assert(r =~= reversed(d));
    }
    r
}

/// Turning back after one crossing: from a point strictly inside cell `c` of a
/// wrapping lattice, a ray crosses one face; the reversed ray from the point of
/// crossing crosses that same face the other way at once, and one step of it
/// re-enters `c`.
pub proof fn lemma_reverse_step_returns(
    cells: Seq<Cell>,
    nx: int,
    ny: int,
    nz: int,
    c: int,
    p: [u64; 3],
    d: [i64; 3],
)
    requires
        is_torus(cells, nx, ny, nz),
        0 <= c < cells.len(),
        interior(p),
        valid_direction(d),
    ensures
        valid_direction(reversed(d)),
        in_cell(march(cells, c, p, d, 1).1),
        crossing_axis(march(cells, c, p, d, 1).1, reversed(d)) == crossing_axis(p, d),
        gap(march(cells, c, p, d, 1).1, reversed(d), crossing_axis(p, d)) == 0,
        march(cells, march(cells, c, p, d, 1).0, march(cells, c, p, d, 1).1, reversed(d), 1).0
            == c,
{
    let e = reversed(d);
    assert(e@[0] == -d@[0] && e@[1] == -d@[1] && e@[2] == -d@[2]);
    lemma_crossing_axis_is_first(p, d);
    lemma_advanced_in_cell(p, d);
    let a = crossing_axis(p, d);
    let q = advanced(p, d);
    assert(march(cells, c, p, d, 0) == (c, p));
    assert(march(cells, c, p, d, 1) == (step_cell(cells, c, p, d), q));
    let c1 = step_cell(cells, c, p, d);
    assert(gap(q, e, a) == 0);
    assert forall|b: int| 0 <= b < 3 && b != a implies #[trigger] reaches_before(q, e, a, b) by {
        crate::lattice::lemma_shift_within_gap(p, d, a, b);
        if e@[b] != 0 {
            let g = gap(q, e, b);
            assert(g > 0);
            assert(g * speed(e, a) > 0) by (nonlinear_arith)
                requires g > 0, speed(e, a) > 0;
            assert(gap(q, e, a) * speed(e, b) == 0) by (nonlinear_arith)
                requires gap(q, e, a) == 0;
        }
    }
    assert forall|b: int| 0 <= b < a implies #[trigger] reaches_before(q, e, a, b) by {}
    assert forall|b: int| a < b < 3 implies #[trigger] reaches_by(q, e, a, b) by {
        assert(reaches_before(q, e, a, b));
    }
    assert(first_crossed(q, e, a));
    lemma_crossing_axis_is_first(q, e);
    lemma_first_crossed_unique(q, e, a, crossing_axis(q, e));
    assert(march(cells, c1, q, e, 0) == (c1, q));
    lemma_adjacency_symmetric(cells, nx, ny, nz, c, a);
    crate::world::lemma_torus_links_closed(cells, nx, ny, nz);
}

/// The direction along the first axis, one unit per step.
pub open spec fn along_first_axis() -> [i64; 3] {
    [1i64, 0i64, 0i64]
}

proof fn lemma_march_first_axis(cells: Seq<Cell>, nx: int, ny: int, nz: int, c: int, p: [u64; 3], n: nat)
    requires
        is_torus(cells, nx, ny, nz),
        0 <= c < cells.len(),
        in_cell(p),
    ensures
        march(cells, c, p, along_first_axis(), n).0 == crate::world::flat_index(
            (c / (ny * nz) + n) % nx,
            (c / nz) % ny,
            c % nz,
            ny,
            nz,
        ),
        0 <= march(cells, c, p, along_first_axis(), n).0 < cells.len(),
        in_cell(march(cells, c, p, along_first_axis(), n).1),
    decreases n,
{
    let d = along_first_axis();
    crate::world::lemma_flat_compose(c, nx, ny, nz);
    let i = c / (ny * nz);
    let j = (c / nz) % ny;
    let k = c % nz;
    if n == 0 {
        vstd::arithmetic::div_mod::lemma_small_mod(i as nat, nx as nat);
    } else {
        lemma_march_first_axis(cells, nx, ny, nz, c, p, (n - 1) as nat);
        let (c1, q) = march(cells, c, p, d, (n - 1) as nat);
        let m = (i + n - 1) % nx;
        vstd::arithmetic::div_mod::lemma_mod_bound(i + n - 1, nx);
        crate::world::lemma_flat_decompose(m, j, k, nx, ny, nz);
        assert(crossing_axis(q, d) == 0);
        assert(neighbor_of(cells, c1, 0) == crate::world::torus_neighbor(c1, 0, nx, ny, nz));
        vstd::arithmetic::div_mod::lemma_add_mod_noop_right(1, i + n - 1, nx);
        assert(1 + (i + n - 1) == i + n);
        let m1 = m + 1;
        vstd::arithmetic::div_mod::lemma_mod_bound(m1, nx);
        crate::world::lemma_flat_decompose(m1 % nx, j, k, nx, ny, nz);
        lemma_advanced_in_cell(q, d);
    }
}

/// A ray along the first axis through a wrapping lattice with no solid cell,
/// given a budget of `nx` crossings, misses after exactly `nx` crossings and
/// ends in the cell it started from.
pub proof fn lemma_ray_around_first_axis(cells: Seq<Cell>, nx: int, ny: int, nz: int, c: int, p: [u64; 3])
    requires
        is_torus(cells, nx, ny, nz),
        forall|x: int| 0 <= x < cells.len() ==> !#[trigger] solid_at(cells, x),
        0 <= c < cells.len(),
        in_cell(p),
    ensures
        ray_end(cells, c, p, along_first_axis(), nx as nat) == nx,
        march(cells, c, p, along_first_axis(), nx as nat).0 == c,
{
    let d = along_first_axis();
    assert forall|k: nat| 0 < k < nx implies !solid_at(cells, #[trigger] march(cells, c, p, d, k).0) by {
        lemma_march_first_axis(cells, nx, ny, nz, c, p, k);
    }
    lemma_stop_after(cells, c, p, d, nx as nat, 0, nx as nat);
    lemma_march_first_axis(cells, nx, ny, nz, c, p, nx as nat);
    crate::world::lemma_flat_compose(c, nx, ny, nz);
    let i = c / (ny * nz);
    vstd::arithmetic::div_mod::lemma_mod_add_multiples_vanish(i, nx);
    vstd::arithmetic::div_mod::lemma_small_mod(i as nat, nx as nat);
}

} // verus!
