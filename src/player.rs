//! The player: a cell and a position inside it, moved in steps that migrate
//! across faces exactly as a ray does.
use vstd::prelude::*;
use crate::lattice::UNIT;
use crate::world::{face_index, neighbor_of, Cell, World};

verus! {

/// The player's place in the world.
#[derive(Clone, Copy, Debug)]
pub struct Player {
    /// The cell the player is in.
    pub cell: usize,
    /// Position inside that cell, each coordinate in `[0, UNIT)`.
    pub position: [u64; 3],
}

/// Every coordinate lies in `[0, UNIT)`.
pub open spec fn in_cell_open(p: [u64; 3]) -> bool {
    p@[0] < UNIT && p@[1] < UNIT && p@[2] < UNIT
}

/// A coordinate that has left `[0, UNIT)` by less than one cell, brought back
/// into it.
pub open spec fn wrapped(x: int) -> int {
    if x < 0 {
        x + UNIT
    } else if x >= UNIT {
        x - UNIT
    } else {
        x
    }
}

/// The cell after checking axis `a` of the moved coordinate `x`: below the
/// cell it steps down the axis, past it up the axis, otherwise it stays.
pub open spec fn migrated(cells: Seq<Cell>, c: int, x: int, a: int) -> int {
    if x < 0 {
        neighbor_of(cells, c, face_index(a, false))
    } else if x >= UNIT {
        neighbor_of(cells, c, face_index(a, true))
    } else {
        c
    }
}

/// The cell the player ends in after moving from `c` by `delta` from `p`; the
/// axes are checked in order.
pub open spec fn moved_cell(cells: Seq<Cell>, c: int, p: [u64; 3], delta: [i64; 3]) -> int {
    let c0 = migrated(cells, c, p@[0] + delta@[0], 0);
    let c1 = migrated(cells, c0, p@[1] + delta@[1], 1);
    migrated(cells, c1, p@[2] + delta@[2], 2)
}

impl Player {
    /// The player is in a cell of `world`, inside it.
    pub open spec fn wf(&self, world: &World) -> bool {
        &&& self.cell < world.cells@.len()
        &&& in_cell_open(self.position)
    }
}

fn migrate_axis(world: &World, c: usize, x: i64, a: usize) -> (r: (usize, u64))
    requires
        world.wf(),
        c < world.cells@.len(),
        a < 3,
        -(UNIT as int) <= x < 2 * UNIT,
    ensures
        r.0 == migrated(world.cells@, c as int, x as int, a as int),
        r.1 == wrapped(x as int),
        r.0 < world.cells@.len(),
        r.1 < UNIT,
{
    if x < 0 {
        (world.neighbor(c, 2 * a + 1), (x + UNIT as i64) as u64)
    } else if x >= UNIT as i64 {
        (world.neighbor(c, 2 * a), (x - UNIT as i64) as u64)
    } else {
        (c, x as u64)
    }
}

/// Moves the player by `delta`, at most one cell edge on each axis. A
/// coordinate that leaves `[0, UNIT)` wraps back into it and the player steps
/// into the neighbouring cell across that face. A zero `delta` leaves the
/// player where it was.
pub fn move_player(world: &World, player: &mut Player, delta: [i64; 3])
    requires
        world.wf(),
        old(player).wf(world),
        -(UNIT as int) <= delta@[0] <= UNIT,
        -(UNIT as int) <= delta@[1] <= UNIT,
        -(UNIT as int) <= delta@[2] <= UNIT,
    ensures
        final(player).wf(world),
        final(player).cell == moved_cell(world.cells@, old(player).cell as int, old(player).position, delta),
        final(player).position@[0] == wrapped(old(player).position@[0] + delta@[0]),
        final(player).position@[1] == wrapped(old(player).position@[1] + delta@[1]),
        final(player).position@[2] == wrapped(old(player).position@[2] + delta@[2]),
        delta@[0] == 0 && delta@[1] == 0 && delta@[2] == 0 ==> *final(player) == *old(player),
{
    let p = player.position;
    let (c0, x0) = migrate_axis(world, player.cell, p[0] as i64 + delta[0], 0);
    let (c1, x1) = migrate_axis(world, c0, p[1] as i64 + delta[1], 1);
    let (c2, x2) = migrate_axis(world, c1, p[2] as i64 + delta[2], 2);
    player.cell = c2;
    player.position = [x0, x1, x2];
    proof {
        if delta@[0] == 0 && delta@[1] == 0 && delta@[2] == 0 {
            assert(player.position =~= old(player).position);
        }
    }
}

/// The cell `n` steps up the second axis from `c`.
pub open spec fn above(cells: Seq<Cell>, c: int, n: nat) -> int
    decreases n,
{
    if n == 0 {
        c
    } else {
        neighbor_of(cells, above(cells, c, (n - 1) as nat), face_index(1, true))
    }
}

/// Climbs from cell `start` up the second axis to the first cell that is not
/// solid, looking at most `limit` cells up; returns the cell and the number of
/// steps taken.
pub fn climb_to_air(world: &World, start: usize, limit: usize) -> (r: (usize, usize))
    requires
        world.wf(),
        start < world.cells@.len(),
    ensures
        r.1 <= limit,
        r.0 == above(world.cells@, start as int, r.1 as nat),
        r.0 < world.cells@.len(),
        forall|j: nat| j < r.1 ==> world.cells@[#[trigger] above(world.cells@, start as int, j)].voxel.solid,
        r.1 < limit ==> !world.cells@[r.0 as int].voxel.solid,
{
    let mut c = start;
    let mut n: usize = 0;
    while n < limit && world.read(c).solid
        invariant
            world.wf(),
            start < world.cells@.len(),
            n <= limit,
            c == above(world.cells@, start as int, n as nat),
            c < world.cells@.len(),
            forall|j: nat| j < n ==> world.cells@[#[trigger] above(world.cells@, start as int, j)].voxel.solid,
        decreases limit - n,
    {
        c = world.neighbor(c, 2);
        n = n + 1;
    }
    (c, n)
}

} // verus!
