//! Turning ray results into pixel colours, and the edits a player makes at
//! the cell they look at.
use vstd::prelude::*;
use crate::lattice::{in_cell, valid_direction};
use crate::player::Player;
use crate::raycast::{march, ray_end, raycast, reverse, reversed, RayHit};
use crate::world::{Cell, Voxel, World, FULL_BRIGHTNESS};

verus! {

/// Fade and light are fixed-point fractions of this.
pub const FULL_FADE: u64 = 1000;

/// How far a hit has faded toward the ambient colour: the share of the view
/// distance the ray travelled, at most all of it, and halfway closer to full
/// for the cell the player is aiming at.
pub open spec fn fade(steps: int, view_distance: int, targeted: bool) -> int {
    let f = if steps >= view_distance {
        FULL_FADE as int
    } else {
        steps * FULL_FADE / view_distance
    };
    if targeted {
        (f + FULL_FADE) / 2
    } else {
        f
    }
}

/// Light level of a brightness, capped at full.
pub open spec fn light(brightness: int) -> int {
    if brightness >= FULL_BRIGHTNESS {
        FULL_BRIGHTNESS as int
    } else {
        brightness
    }
}

/// One colour channel: the ambient channel weighted by fade and darkness, plus
/// the hit channel weighted by light and nearness.
pub open spec fn blend(hit: int, ambient: int, light: int, fade: int) -> int {
    ((FULL_BRIGHTNESS - light) * fade * ambient + light * (FULL_FADE - fade) * hit) / (
    FULL_BRIGHTNESS * FULL_FADE)
}

/// The shaded colour of a hit.
pub open spec fn shaded(
    color: [u8; 3],
    ambient: [u8; 3],
    brightness: int,
    steps: int,
    view_distance: int,
    targeted: bool,
) -> [u8; 3] {
    let l = light(brightness);
    let f = fade(steps, view_distance, targeted);
    [
        blend(color@[0] as int, ambient@[0] as int, l, f) as u8,
        blend(color@[1] as int, ambient@[1] as int, l, f) as u8,
        blend(color@[2] as int, ambient@[2] as int, l, f) as u8,
    ]
}

/// The colour seen along `d` from `p` in cell `c`: the cell the ray stops in,
/// shaded by how far the ray went and by the light of the cell it entered from.
pub open spec fn pixel_color(
    cells: Seq<Cell>,
    c: int,
    p: [u64; 3],
    d: [i64; 3],
    view_distance: nat,
    target: int,
    ambient: [u8; 3],
) -> [u8; 3] {
    let steps = ray_end(cells, c, p, d, view_distance);
    let (hit, at) = march(cells, c, p, d, steps);
    let lit_from = march(cells, hit, at, reversed(d), 1).0;
    shaded(
        cells[hit].voxel.color,
        ambient,
        cells[lit_from].voxel.brightness as int,
        steps as int,
        view_distance as int,
        hit == target,
    )
}

proof fn lemma_blend_range(h: int, a: int, l: int, f: int)
    requires
        0 <= h <= 255,
        0 <= a <= 255,
        0 <= l <= FULL_BRIGHTNESS,
        0 <= f <= FULL_FADE,
    ensures
        0 <= (FULL_BRIGHTNESS - l) * f * a + l * (FULL_FADE - f) * h <= 255 * FULL_BRIGHTNESS * FULL_FADE,
        0 <= blend(h, a, l, f) <= 255,
{
    let x = (FULL_BRIGHTNESS - l) * f * a + l * (FULL_FADE - f) * h;
    assert(0 <= x <= 255 * 1000 * 1000) by (nonlinear_arith)
        requires
            x == (1000 - l) * f * a + l * (1000 - f) * h,
            0 <= h <= 255,
            0 <= a <= 255,
            0 <= l <= 1000,
            0 <= f <= 1000,
    {
        assert((1000 - l) * f * a <= (1000 - l) * f * 255);
        assert(l * (1000 - f) * h <= l * (1000 - f) * 255);
        assert((1000 - l) * f + l * (1000 - f) <= 1000 * 1000);
    }
}

fn blend_channel(hit: u8, ambient: u8, l: u64, f: u64) -> (r: u8)
    requires
        l <= FULL_BRIGHTNESS,
        f <= FULL_FADE,
    ensures
        r == blend(hit as int, ambient as int, l as int, f as int),
{
    proof {
        lemma_blend_range(hit as int, ambient as int, l as int, f as int);
        assert((FULL_BRIGHTNESS - l) * f * ambient <= 255 * 1000 * 1000 && l * (FULL_FADE - f) * hit <= 255 * 1000 * 1000) by (nonlinear_arith)
            requires l <= 1000, f <= 1000, ambient <= 255, hit <= 255;
        assert((FULL_BRIGHTNESS - l) * f <= 1000 * 1000 && l * (FULL_FADE - f) <= 1000 * 1000) by (nonlinear_arith)
            requires l <= 1000, f <= 1000;
    }
    let light_part = (FULL_BRIGHTNESS as u64 - l) * f * ambient as u64;
    let hit_part = l * (FULL_FADE - f) * hit as u64;
    ((light_part + hit_part) / (FULL_BRIGHTNESS as u64 * FULL_FADE)) as u8
}

/// Shades a hit: blends its colour toward `ambient` by how far the ray went,
/// out of `view_distance` crossings, and by the light at the hit.
pub fn shade(
    color: [u8; 3],
    ambient: [u8; 3],
    brightness: u32,
    steps: usize,
    view_distance: usize,
    targeted: bool,
) -> (r: [u8; 3])
    requires
        view_distance > 0,
    ensures
        r == shaded(color, ambient, brightness as int, steps as int, view_distance as int, targeted),
{
    let l: u64 = if brightness >= FULL_BRIGHTNESS {
        FULL_BRIGHTNESS as u64
    } else {
        brightness as u64
    };
    let f0: u64 = if steps >= view_distance {
        FULL_FADE
    } else {
        proof {
            assert(steps * 1000 < view_distance * 1000) by (nonlinear_arith)
                requires steps < view_distance;
            vstd::arithmetic::div_mod::lemma_div_is_ordered(steps * 1000, view_distance * 1000, view_distance as int);
            vstd::arithmetic::div_mod::lemma_div_by_multiple(1000, view_distance as int);
            assert(view_distance * 1000 == 1000 * view_distance) by (nonlinear_arith);
        }
        ((steps as u128 * FULL_FADE as u128) / view_distance as u128) as u64
    };
    let f: u64 = if targeted {
        (f0 + FULL_FADE) / 2
    } else {
        f0
    };
    let r = [
        blend_channel(color[0], ambient[0], l, f),
        blend_channel(color[1], ambient[1], l, f),
        blend_channel(color[2], ambient[2], l, f),
    ];
    proof {
        assert(r =~= shaded(color, ambient, brightness as int, steps as int, view_distance as int, targeted));
    }
    r
}

/// The colour of one pixel: casts the pixel's ray `d` from the player with a
/// budget of `view_distance` crossings, takes the light of the cell the ray
/// entered its last cell from, and shades the last cell's colour.
pub fn render_pixel(
    world: &World,
    player: &Player,
    d: [i64; 3],
    view_distance: usize,
    target: usize,
    ambient: [u8; 3],
) -> (r: [u8; 3])
    requires
        world.wf(),
        player.cell < world.cells@.len(),
        in_cell(player.position),
        valid_direction(d),
        view_distance > 0,
    ensures
        r == pixel_color(
            world.cells@,
            player.cell as int,
            player.position,
            d,
            view_distance as nat,
            target as int,
            ambient,
        ),
{
    let hit = raycast(world, player.cell, player.position, d, view_distance);
    let back = raycast(world, hit.cell, hit.position, reverse(d), 1);
    let v = world.read(hit.cell);
    let lit = world.read(back.cell);
    shade(v.color, ambient, lit.brightness, hit.steps, view_distance, hit.cell == target)
}

/// Empties the cell at `cell`, keeping its colour and light.
pub fn break_block(world: &mut World, cell: usize)
    requires
        old(world).wf(),
        cell < old(world).cells@.len(),
    ensures
        final(world).wf(),
        final(world).cells@ == old(world).cells@.update(
            cell as int,
            Cell {
                voxel: Voxel { solid: false, ..old(world).cells@[cell as int].voxel },
                ..old(world).cells@[cell as int]
            },
        ),
{
    let v = world.read(cell);
    world.write(cell, Voxel { solid: false, ..v });
    proof {
        let after = final(world).cells@;
        assert forall|x: int, f: int| 0 <= x < after.len() && 0 <= f < 6 implies #[trigger] crate::world::neighbor_of(after, x, f) < after.len() by {
            assert(crate::world::neighbor_of(after, x, f) == crate::world::neighbor_of(old(world).cells@, x, f));
        }
    }
}

/// The content of `cell` if it is solid, to be placed elsewhere later.
pub fn pick_block(world: &World, cell: usize) -> (r: Option<Voxel>)
    requires
        cell < world.cells@.len(),
    ensures
        r == if world.cells@[cell as int].voxel.solid {
            Some(world.cells@[cell as int].voxel)
        } else {
            None::<Voxel>
        },
{
    let v = world.read(cell);
    if v.solid {
        Some(v)
    } else {
        None
    }
}

/// Places `selected` against the face of the solid cell a ray along `d` hit:
/// one step back along the reversed ray finds the cell in front of that face.
/// If the ray's cell is not solid nothing changes. Returns the cell written.
pub fn place_block(world: &mut World, hit: &RayHit, d: [i64; 3], selected: Voxel) -> (r: Option<usize>)
    requires
        old(world).wf(),
        hit.cell < old(world).cells@.len(),
        in_cell(hit.position),
        valid_direction(d),
    ensures
        final(world).wf(),
        old(world).cells@[hit.cell as int].voxel.solid ==> {
            let back = march(old(world).cells@, hit.cell as int, hit.position, reversed(d), 1).0;
            &&& r == Some(back as usize)
            &&& final(world).cells@ == old(world).cells@.update(
                back,
                Cell { voxel: selected, ..old(world).cells@[back] },
            )
        },
        !old(world).cells@[hit.cell as int].voxel.solid ==> r.is_none() && final(world).cells@
            == old(world).cells@,
{
    if !world.read(hit.cell).solid {
        return None;
    }
    let back = raycast(world, hit.cell, hit.position, reverse(d), 1);
    world.write(back.cell, selected);
    proof {
        let after = final(world).cells@;
        assert forall|x: int, f: int| 0 <= x < after.len() && 0 <= f < 6 implies #[trigger] crate::world::neighbor_of(after, x, f) < after.len() by {
            assert(crate::world::neighbor_of(after, x, f) == crate::world::neighbor_of(old(world).cells@, x, f));
        }
    }
    Some(back.cell)
}

} // verus!
