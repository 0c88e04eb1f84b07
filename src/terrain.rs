//! Filling a fresh world: a layer of randomly solid green ground at the
//! bottom of the second axis, and a scattering of light sources in it.
use vstd::prelude::*;
use crate::random::random_below;
use crate::rules::{draw_cells, same_links};
use crate::world::{links_closed, neighbor_of, Cell, Voxel, World, FULL_BRIGHTNESS, MAX_CELLS};

verus! {

/// A ground voxel: a green within fixed bounds, solid or not, unlit.
pub open spec fn is_ground(v: Voxel, before: Voxel) -> bool {
    &&& 77 <= v.color@[0] <= 102
    &&& 204 <= v.color@[1] <= 229
    &&& 77 <= v.color@[2] <= 102
    &&& v.brightness == before.brightness
}

/// Second lattice coordinate of flat index `n` in rows of `ny × nz`.
pub open spec fn height_of(n: int, ny: int, nz: int) -> int {
    (n / nz) % ny
}

proof fn lemma_write_keeps_links(before: Seq<Cell>, after: Seq<Cell>, c: int, v: Voxel)
    requires
        0 <= c < before.len(),
        after == before.update(c, Cell { voxel: v, neighbors: before[c].neighbors }),
        links_closed(before),
    ensures
        links_closed(after),
        same_links(before, after),
{
    assert forall|x: int, f: int| 0 <= x < after.len() && 0 <= f < 6 implies #[trigger] neighbor_of(after, x, f) < after.len() by {
        assert(neighbor_of(after, x, f) == neighbor_of(before, x, f));
    }
    assert forall|x: int| 0 <= x < before.len() implies (#[trigger] after[x]).neighbors == before[x].neighbors by {}
}

fn ground_voxel(before: Voxel) -> (v: Voxel)
    ensures
        is_ground(v, before),
{
    let r = 77 + random_below(26) as u8;
    let g = 204 + random_below(26) as u8;
    let b = 77 + random_below(26) as u8;
    let solid = random_below(2) == 1;
    Voxel { color: [r, g, b], solid, brightness: before.brightness }
}

/// Turns every cell whose second coordinate is below `depth` into ground of a
/// random green, solid or empty at random; the other cells stay as they were.
pub fn seed_ground(world: &mut World, ny: usize, nz: usize, depth: usize)
    requires
        old(world).wf(),
        ny > 0,
        nz > 0,
    ensures
        final(world).wf(),
        same_links(old(world).cells@, final(world).cells@),
        forall|c: int|
            0 <= c < old(world).cells@.len() ==> if height_of(c, ny as int, nz as int) < depth {
                is_ground((#[trigger] final(world).cells@[c]).voxel, old(world).cells@[c].voxel)
            } else {
                final(world).cells@[c] == old(world).cells@[c]
            },
{
    let ghost start = world.cells@;
    let n = world.len();
    let mut c: usize = 0;
    while c < n
        invariant
            world.wf(),
            n == start.len(),
            c <= n,
            ny > 0 && nz > 0,
            same_links(start, world.cells@),
            forall|x: int|
                0 <= x < n ==> if x < c && height_of(x, ny as int, nz as int) < depth {
                    is_ground((#[trigger] world.cells@[x]).voxel, start[x].voxel)
                } else {
                    world.cells@[x] == start[x]
                },
        decreases n - c,
    {
        if (c / nz) % ny < depth {
            let ghost before = world.cells@;
            let v = ground_voxel(world.read(c));
            world.write(c, v);
            proof {
                lemma_write_keeps_links(before, world.cells@, c as int, v);
            }
        }
        c = c + 1;
    }
}

/// A light source: solid, white and fully bright.
pub open spec fn light_voxel() -> Voxel {
    Voxel { color: [255u8, 255u8, 255u8], solid: true, brightness: FULL_BRIGHTNESS }
}

/// The cells after cell `c` is made a light source if it is solid; an empty
/// cell is left as it is.
pub open spec fn lit(cells: Seq<Cell>, c: int) -> Seq<Cell> {
    if cells[c].voxel.solid {
        cells.update(c, Cell { voxel: light_voxel(), ..cells[c] })
    } else {
        cells
    }
}

/// The cells after each of `picks` in turn is made a light source if solid.
pub open spec fn lit_all(cells: Seq<Cell>, picks: Seq<usize>) -> Seq<Cell>
    decreases picks.len(),
{
    if picks.len() == 0 {
        cells
    } else {
        lit(lit_all(cells, picks.drop_last()), picks.last() as int)
    }
}

/// Makes each solid cell of `picks` a light source, in turn.
pub fn light_cells(world: &mut World, picks: &Vec<usize>)
    requires
        old(world).wf(),
        forall|i: int| 0 <= i < picks@.len() ==> #[trigger] picks@[i] < old(world).cells@.len(),
    ensures
        final(world).wf(),
        final(world).cells@ == lit_all(old(world).cells@, picks@),
{
    let ghost start = world.cells@;
    let mut i: usize = 0;
    while i < picks.len()
        invariant
            world.wf(),
            i <= picks@.len(),
            world.cells@.len() == start.len(),
            forall|j: int| 0 <= j < picks@.len() ==> #[trigger] picks@[j] < start.len(),
            world.cells@ == lit_all(start, picks@.take(i as int)),
        decreases picks@.len() - i,
    {
        let c = picks[i];
        let ghost before = world.cells@;
        if world.read(c).solid {
            world.write(c, Voxel { color: [255, 255, 255], solid: true, brightness: FULL_BRIGHTNESS });
            proof {
                lemma_write_keeps_links(before, world.cells@, c as int, light_voxel());
            }
        }
        proof {
            let next = picks@.take(i + 1);
            assert(next.drop_last() =~= picks@.take(i as int));
            assert(next.last() == c);
            assert(world.cells@ =~= lit(before, c as int));
        }
        i = i + 1;
    }
    proof {
        assert(picks@.take(i as int) =~= picks@);
    }
}

/// Draws `count` cells at random and makes each drawn solid cell a light
/// source. Whatever is drawn, the result is `lit_all` over some `count` cells
/// of the world.
pub fn scatter_lights(world: &mut World, count: usize)
    requires
        old(world).wf(),
        old(world).cells@.len() <= MAX_CELLS,
    ensures
        final(world).wf(),
        old(world).cells@.len() > 0 ==> exists|picks: Seq<usize>|
            picks.len() == count && (forall|i: int| 0 <= i < picks.len() ==> #[trigger] picks[i] < old(world).cells@.len())
                && final(world).cells@ == lit_all(old(world).cells@, picks),
        old(world).cells@.len() == 0 ==> final(world).cells@ == old(world).cells@,
{
    let n = world.len();
    if n == 0 {
        return;
    }
    let picks = draw_cells(n, count);
    light_cells(world, &picks);
    proof {
        assert(picks@.len() == count && (forall|i: int| 0 <= i < picks@.len() ==> #[trigger] picks@[i] < old(world).cells@.len())
            && final(world).cells@ == lit_all(old(world).cells@, picks@));
    }
}

} // verus!
