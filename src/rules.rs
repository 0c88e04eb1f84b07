//! How the world changes by itself: a cellular automaton on solidity, and
//! light spreading from lit cells into empty ones.
use vstd::prelude::*;
use crate::random::random_below;
use crate::world::{links_closed, neighbor_of, Cell, Voxel, World, MAX_CELLS};

verus! {

/// Light lost per step of diffusion, as a fraction of full brightness.
pub const DECAY: u32 = 20;

/// Number of solid cells among the first `k` face neighbours of `c`.
pub open spec fn solid_count(cells: Seq<Cell>, c: int, k: nat) -> int
    decreases k,
{
    if k == 0 {
        0
    } else {
        solid_count(cells, c, (k - 1) as nat) + if cells[neighbor_of(cells, c, k - 1)].voxel.solid {
            1int
        } else {
            0int
        }
    }
}

/// The automaton's rule: a solid cell stays solid with 4 to 6 solid
/// neighbours, an empty cell becomes solid with 3 to 6; otherwise the cell is
/// empty.
pub open spec fn next_solid(solid: bool, count: int) -> bool {
    if solid {
        4 <= count <= 6
    } else {
        3 <= count <= 6
    }
}

/// The cells after the rule is applied to cell `c`.
pub open spec fn rule_applied(cells: Seq<Cell>, c: int) -> Seq<Cell> {
    let cell = cells[c];
    cells.update(
        c,
        Cell {
            voxel: Voxel { solid: next_solid(cell.voxel.solid, solid_count(cells, c, 6)), ..cell.voxel },
            ..cell
        },
    )
}

/// The cells after the rule is applied to each of `picks` in turn, each
/// application seeing the ones before it.
pub open spec fn rule_applied_all(cells: Seq<Cell>, picks: Seq<usize>) -> Seq<Cell>
    decreases picks.len(),
{
    if picks.len() == 0 {
        cells
    } else {
        rule_applied(rule_applied_all(cells, picks.drop_last()), picks.last() as int)
    }
}

/// Brightest of the first `k` face neighbours of `c`, or 0.
pub open spec fn brightest_neighbor(cells: Seq<Cell>, c: int, k: nat) -> int
    decreases k,
{
    if k == 0 {
        0
    } else {
        let rest = brightest_neighbor(cells, c, (k - 1) as nat);
        let here = cells[neighbor_of(cells, c, k - 1)].voxel.brightness as int;
        if here > rest {
            here
        } else {
            rest
        }
    }
}

/// Brightness of cell `c` after one step of diffusion: a solid cell keeps its
/// own, an empty one takes its brightest neighbour's less `decay`, but not
/// below 0.
pub open spec fn diffused(cells: Seq<Cell>, c: int, decay: int) -> int {
    if cells[c].voxel.solid {
        cells[c].voxel.brightness as int
    } else if brightest_neighbor(cells, c, 6) >= decay {
        brightest_neighbor(cells, c, 6) - decay
    } else {
        0
    }
}

/// The cells have the same links and the same count as `before`.
pub open spec fn same_links(before: Seq<Cell>, after: Seq<Cell>) -> bool {
    &&& after.len() == before.len()
    &&& forall|c: int| 0 <= c < before.len() ==> (#[trigger] after[c]).neighbors == before[c].neighbors
}

/// The automaton's rule on a cell's solidity and its count of solid neighbours.
pub fn next_solid_state(solid: bool, count: usize) -> (r: bool)
    ensures
        r == next_solid(solid, count as int),
{
    if solid {
        4 <= count && count <= 6
    } else {
        3 <= count && count <= 6
    }
}

/// Number of solid face neighbours of cell `c`.
pub fn solid_neighbors(world: &World, c: usize) -> (r: usize)
    requires
        world.wf(),
        c < world.cells@.len(),
    ensures
        r == solid_count(world.cells@, c as int, 6),
{
    let mut count: usize = 0;
    let mut f: usize = 0;
    while f < 6
        invariant
            world.wf(),
            c < world.cells@.len(),
            f <= 6,
            count == solid_count(world.cells@, c as int, f as nat),
            count <= f,
        decreases 6 - f,
    {
        let n = world.neighbor(c, f);
        if world.read(n).solid {
            count = count + 1;
        }
        f = f + 1;
    }
    count
}

proof fn lemma_rule_keeps_links(cells: Seq<Cell>, c: int)
    requires
        0 <= c < cells.len(),
    ensures
        same_links(cells, rule_applied(cells, c)),
        links_closed(cells) ==> links_closed(rule_applied(cells, c)),
{
    let after = rule_applied(cells, c);
    assert forall|x: int| 0 <= x < cells.len() implies (#[trigger] after[x]).neighbors == cells[x].neighbors by {}
    if links_closed(cells) {
        assert forall|x: int, f: int| 0 <= x < after.len() && 0 <= f < 6 implies #[trigger] neighbor_of(after, x, f) < after.len() by {
            assert(neighbor_of(after, x, f) == neighbor_of(cells, x, f));
        }
    }
}

/// Applies the automaton's rule to cell `c`; only its solidity may change.
pub fn update_cell(world: &mut World, c: usize)
    requires
        old(world).wf(),
        c < old(world).cells@.len(),
    ensures
        final(world).cells@ == rule_applied(old(world).cells@, c as int),
        final(world).wf(),
{
    let count = solid_neighbors(world, c);
    let v = world.read(c);
    let solid = next_solid_state(v.solid, count);
    world.write(c, Voxel { solid, ..v });
    proof {
        lemma_rule_keeps_links(old(world).cells@, c as int);
        assert(final(world).cells@ =~= rule_applied(old(world).cells@, c as int));
    }
}

/// Applies the automaton's rule to each cell of `picks` in turn.
pub fn update_cells(world: &mut World, picks: &Vec<usize>)
    requires
        old(world).wf(),
        forall|i: int| 0 <= i < picks@.len() ==> #[trigger] picks@[i] < old(world).cells@.len(),
    ensures
        final(world).cells@ == rule_applied_all(old(world).cells@, picks@),
        final(world).wf(),
{
    let ghost start = world.cells@;
    let mut i: usize = 0;
    while i < picks.len()
        invariant
            world.wf(),
            i <= picks@.len(),
            world.cells@.len() == start.len(),
            forall|j: int| 0 <= j < picks@.len() ==> #[trigger] picks@[j] < start.len(),
            world.cells@ == rule_applied_all(start, picks@.take(i as int)),
        decreases picks@.len() - i,
    {
        let c = picks[i];
        update_cell(world, c);
        proof {
            let next = picks@.take(i + 1);
            assert(next.drop_last() =~= picks@.take(i as int));
            assert(next.last() == c);
        }
        i = i + 1;
    }
    proof {
        assert(picks@.take(i as int) =~= picks@);
    }
}

/// Draws `samples` cell indices at random, each below `n`.
pub fn draw_cells(n: usize, samples: usize) -> (picks: Vec<usize>)
    requires
        0 < n <= MAX_CELLS,
    ensures
        picks@.len() == samples,
        forall|i: int| 0 <= i < picks@.len() ==> #[trigger] picks@[i] < n,
{
    let mut picks: Vec<usize> = Vec::new();
    let mut k: usize = 0;
    while k < samples
        invariant
            0 < n <= MAX_CELLS,
            k <= samples,
            picks@.len() == k,
            forall|i: int| 0 <= i < picks@.len() ==> #[trigger] picks@[i] < n,
        decreases samples - k,
    {
        picks.push(random_below(n));
        k = k + 1;
    }
    picks
}

/// Applies the automaton's rule to `samples` cells drawn at random, one after
/// another, each application seeing the ones before it. Whatever is drawn,
/// the result is the rule applied over some `samples` cells of the world.
pub fn update(world: &mut World, samples: usize)
    requires
        old(world).wf(),
        old(world).cells@.len() <= MAX_CELLS,
    ensures
        final(world).wf(),
        old(world).cells@.len() > 0 ==> exists|picks: Seq<usize>|
            picks.len() == samples && (forall|i: int| 0 <= i < picks.len() ==> #[trigger] picks[i] < old(world).cells@.len())
                && final(world).cells@ == rule_applied_all(old(world).cells@, picks),
        old(world).cells@.len() == 0 ==> final(world).cells@ == old(world).cells@,
{
    let n = world.len();
    if n == 0 {
        return;
    }
    let picks = draw_cells(n, samples);
    update_cells(world, &picks);
    proof {
        assert(picks@.len() == samples && (forall|i: int| 0 <= i < picks@.len() ==> #[trigger] picks@[i] < old(world).cells@.len())
            && final(world).cells@ == rule_applied_all(old(world).cells@, picks@));
    }
}

/// Brightest face neighbour of cell `c`, or 0.
pub fn brightest_neighbor_of(world: &World, c: usize) -> (r: u32)
    requires
        world.wf(),
        c < world.cells@.len(),
    ensures
        r == brightest_neighbor(world.cells@, c as int, 6),
{
    let mut best: u32 = 0;
    let mut f: usize = 0;
    while f < 6
        invariant
            world.wf(),
            c < world.cells@.len(),
            f <= 6,
            best == brightest_neighbor(world.cells@, c as int, f as nat),
        decreases 6 - f,
    {
        let here = world.read(world.neighbor(c, f)).brightness;
        if here > best {
            best = here;
        }
        f = f + 1;
    }
    best
}

/// One step of light diffusion over the whole world. Every empty cell takes
/// the brightness of its brightest neighbour less `decay`, floored at 0; solid
/// cells keep theirs. All new values are computed from the brightness before
/// the step, so the order in which cells are visited does not matter.
pub fn update_brightness(world: &mut World, decay: u32)
    requires
        old(world).wf(),
    ensures
        final(world).wf(),
        same_links(old(world).cells@, final(world).cells@),
        forall|c: int|
            0 <= c < old(world).cells@.len() ==> {
                &&& (#[trigger] final(world).cells@[c]).voxel.brightness == diffused(
                    old(world).cells@,
                    c,
                    decay as int,
                )
                &&& final(world).cells@[c].voxel.color == old(world).cells@[c].voxel.color
                &&& final(world).cells@[c].voxel.solid == old(world).cells@[c].voxel.solid
            },
{
    let ghost start = world.cells@;
    let n = world.len();
    let mut next: Vec<u32> = Vec::new();
    let mut c: usize = 0;
    while c < n
        invariant
            world.wf(),
            world.cells@ == start,
            n == start.len(),
            c <= n,
            next@.len() == c,
            forall|x: int| 0 <= x < c ==> #[trigger] next@[x] == diffused(start, x, decay as int),
        decreases n - c,
    {
        let v = world.read(c);
        let b = if v.solid {
            v.brightness
        } else {
            let top = brightest_neighbor_of(world, c);
            if top >= decay {
                top - decay
            } else {
                0
            }
        };
        next.push(b);
        c = c + 1;
    }
    let mut c: usize = 0;
    while c < n
        invariant
            world.wf(),
            n == start.len(),
            c <= n,
            next@.len() == n,
            forall|x: int| 0 <= x < n ==> #[trigger] next@[x] == diffused(start, x, decay as int),
            same_links(start, world.cells@),
            forall|x: int|
                0 <= x < n ==> {
                    &&& (#[trigger] world.cells@[x]).voxel.color == start[x].voxel.color
                    &&& world.cells@[x].voxel.solid == start[x].voxel.solid
                    &&& x < c ==> world.cells@[x].voxel.brightness == next@[x]
                },
        decreases n - c,
    {
        let v = world.read(c);
        let ghost before = world.cells@;
        world.write(c, Voxel { brightness: next[c], ..v });
        proof {
            assert forall|x: int, f: int| 0 <= x < n && 0 <= f < 6 implies #[trigger] neighbor_of(world.cells@, x, f) < n by {
                assert(neighbor_of(world.cells@, x, f) == neighbor_of(before, x, f));
            }
            assert forall|x: int| 0 <= x < n implies (#[trigger] world.cells@[x]).neighbors == start[x].neighbors by {
                assert(world.cells@[x].neighbors == before[x].neighbors);
            }
        }
        c = c + 1;
    }
}

/// Diffused light in an empty cell is never negative, never above the
/// brightest neighbour's less the decay, and never below any neighbour's less
/// the decay.
pub proof fn lemma_diffusion_bounded(cells: Seq<Cell>, c: int, decay: int)
    requires
        0 <= c < cells.len(),
        !cells[c].voxel.solid,
        decay >= 0,
    ensures
        diffused(cells, c, decay) >= 0,
        diffused(cells, c, decay) <= brightest_neighbor(cells, c, 6) - decay || diffused(cells, c, decay) == 0,
        forall|f: int|
            0 <= f < 6 ==> diffused(cells, c, decay) >= #[trigger] cells[neighbor_of(cells, c, f)].voxel.brightness
                - decay,
{
    lemma_brightest_bounds(cells, c, 6);
}

proof fn lemma_brightest_bounds(cells: Seq<Cell>, c: int, k: nat)
    requires
        k <= 6,
    ensures
        brightest_neighbor(cells, c, k) >= 0,
        forall|f: int| 0 <= f < k ==> brightest_neighbor(cells, c, k) >= #[trigger] cells[neighbor_of(cells, c, f)].voxel.brightness,
    decreases k,
{
    if k > 0 {
        lemma_brightest_bounds(cells, c, (k - 1) as nat);
    }
}

} // verus!
