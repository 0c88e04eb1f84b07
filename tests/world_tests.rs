use voxel_torus::lattice::{advance, UNIT};
use voxel_torus::player::{climb_to_air, move_player, Player};
use voxel_torus::raycast::{raycast, reverse};
use voxel_torus::render::{break_block, pick_block, place_block, render_pixel, shade};
use voxel_torus::rules::{
    brightest_neighbor_of, draw_cells, next_solid_state, solid_neighbors, update, update_brightness, update_cell,
    update_cells, DECAY,
};
use voxel_torus::terrain::{light_cells, scatter_lights, seed_ground};
use voxel_torus::world::{build_world, furl, Voxel, World, FULL_BRIGHTNESS};

const HALF: u64 = UNIT / 2;

fn solid_voxel() -> Voxel {
    Voxel { color: [10, 20, 30], solid: true, brightness: 0 }
}

fn set_solid(world: &mut World, c: usize, solid: bool) {
    let v = world.read(c);
    world.write(c, Voxel { solid, ..v });
}

#[test]
fn furl_orders_cells_row_major() {
    assert_eq!(furl(0, 0, 0, 3, 5), 0);
    assert_eq!(furl(1, 2, 3, 3, 5), 15 + 10 + 3);
    assert_eq!(furl(3, 2, 4, 3, 5), 59);
}

#[test]
fn build_world_links_wrap_around() {
    let w = build_world(4, 3, 5);
    assert_eq!(w.len(), 60);
    let c = furl(0, 0, 0, 3, 5);
    assert_eq!(w.neighbor(c, 0), furl(1, 0, 0, 3, 5));
    assert_eq!(w.neighbor(c, 1), furl(3, 0, 0, 3, 5));
    assert_eq!(w.neighbor(c, 2), furl(0, 1, 0, 3, 5));
    assert_eq!(w.neighbor(c, 3), furl(0, 2, 0, 3, 5));
    assert_eq!(w.neighbor(c, 4), furl(0, 0, 1, 3, 5));
    assert_eq!(w.neighbor(c, 5), furl(0, 0, 4, 3, 5));
    for i in 0..60 {
        assert!(!w.read(i).solid);
        assert_eq!(w.read(i).brightness, 0);
    }
}

#[test]
fn adjacency_is_symmetric_on_every_cell() {
    let w = build_world(4, 3, 5);
    for c in 0..w.len() {
        for axis in 0..3 {
            assert_eq!(w.neighbor(w.neighbor(c, 2 * axis), 2 * axis + 1), c);
            assert_eq!(w.neighbor(w.neighbor(c, 2 * axis + 1), 2 * axis), c);
        }
    }
}

#[test]
fn advance_crosses_the_nearest_face() {
    let c = advance([HALF, HALF, HALF], [0, -1, 0]);
    assert_eq!(c.axis, 1);
    assert!(!c.positive);
    assert_eq!(c.position, [HALF, UNIT, HALF]);
    assert_eq!(c.gap, HALF);
    assert_eq!(c.speed, 1);
    let c = advance([HALF, 3 * UNIT / 4, HALF], [2, 2, 1]);
    assert_eq!(c.axis, 1);
    assert!(c.positive);
    assert_eq!(c.position, [HALF + UNIT / 4, 0, HALF + UNIT / 8]);
}

#[test]
fn corner_tie_goes_to_lowest_axis() {
    for _ in 0..10 {
        let c = advance([HALF, HALF, HALF], [1, 1, 1]);
        assert_eq!(c.axis, 0);
        assert!(c.positive);
        assert_eq!(c.position, [0, UNIT, UNIT]);
    }
    let c = advance([HALF, HALF, HALF], [0, -1, -1]);
    assert_eq!(c.axis, 1);
    assert_eq!(c.position, [HALF, UNIT, 0]);
}

#[test]
fn ray_around_an_empty_torus_misses_and_returns() {
    let w = build_world(4, 4, 4);
    let start = furl(1, 2, 3, 4, 4);
    let r = raycast(&w, start, [HALF, HALF, HALF], [1, 0, 0], 4);
    assert!(!r.hit);
    assert_eq!(r.steps, 4);
    assert_eq!(r.cell, start);
    assert_eq!(r.position, [0, HALF, HALF]);
}

#[test]
fn ray_stops_at_first_solid_cell() {
    let mut w = build_world(4, 4, 4);
    let start = furl(0, 0, 0, 4, 4);
    w.write(furl(2, 0, 0, 4, 4), solid_voxel());
    w.write(furl(3, 0, 0, 4, 4), solid_voxel());
    let r = raycast(&w, start, [HALF, HALF, HALF], [1, 0, 0], 10);
    assert!(r.hit);
    assert_eq!(r.steps, 2);
    assert_eq!(r.cell, furl(2, 0, 0, 4, 4));
    let r = raycast(&w, start, [HALF, HALF, HALF], [1, 0, 0], 1);
    assert!(!r.hit);
    assert_eq!(r.steps, 1);
    let r = raycast(&w, start, [HALF, HALF, HALF], [1, 0, 0], 0);
    assert!(!r.hit);
    assert_eq!(r.steps, 0);
    assert_eq!(r.cell, start);
}

#[test]
fn reversed_step_returns_to_the_start_cell() {
    let w = build_world(4, 4, 4);
    let start = furl(1, 1, 1, 4, 4);
    let d = [3, -2, 5];
    let out = raycast(&w, start, [1000, 20000, 50000], d, 1);
    assert_ne!(out.cell, start);
    let back = raycast(&w, out.cell, out.position, reverse(d), 1);
    assert_eq!(back.cell, start);
}

#[test]
fn zero_movement_leaves_player_in_place() {
    let w = build_world(4, 4, 4);
    let mut p = Player { cell: 5, position: [100, 200, 300] };
    move_player(&w, &mut p, [0, 0, 0]);
    assert_eq!(p.cell, 5);
    assert_eq!(p.position, [100, 200, 300]);
}

#[test]
fn movement_migrates_across_faces() {
    let w = build_world(4, 4, 4);
    let mut p = Player { cell: furl(0, 0, 0, 4, 4), position: [UNIT - 10, 5, HALF] };
    move_player(&w, &mut p, [20, -10, 0]);
    assert_eq!(p.cell, furl(1, 3, 0, 4, 4));
    assert_eq!(p.position, [10, UNIT - 5, HALF]);
}

#[test]
fn climb_stops_at_first_empty_cell() {
    let mut w = build_world(2, 4, 2);
    let start = furl(0, 0, 0, 4, 2);
    set_solid(&mut w, start, true);
    set_solid(&mut w, furl(0, 1, 0, 4, 2), true);
    assert_eq!(climb_to_air(&w, start, 10), (furl(0, 2, 0, 4, 2), 2));
    assert_eq!(climb_to_air(&w, start, 1), (furl(0, 1, 0, 4, 2), 1));
}

#[test]
fn empty_cell_with_five_solid_neighbors_becomes_solid() {
    let mut w = build_world(3, 3, 3);
    let c = furl(1, 1, 1, 3, 3);
    for f in 0..5 {
        let n = w.neighbor(c, f);
        set_solid(&mut w, n, true);
    }
    assert_eq!(solid_neighbors(&w, c), 5);
    update_cell(&mut w, c);
    assert!(w.read(c).solid);
}

#[test]
fn empty_cell_with_two_solid_neighbors_stays_empty() {
    let mut w = build_world(3, 3, 3);
    let c = furl(1, 1, 1, 3, 3);
    for f in 0..2 {
        let n = w.neighbor(c, f);
        set_solid(&mut w, n, true);
    }
    update_cell(&mut w, c);
    assert!(!w.read(c).solid);
}

#[test]
fn automaton_thresholds() {
    assert!(!next_solid_state(false, 2));
    assert!(next_solid_state(false, 3));
    assert!(next_solid_state(false, 6));
    assert!(!next_solid_state(true, 3));
    assert!(next_solid_state(true, 4));
    assert!(next_solid_state(true, 6));
    assert!(!next_solid_state(true, 0));
}

#[test]
fn update_cells_applies_picks_in_order() {
    let mut w = build_world(3, 3, 3);
    let c = furl(1, 1, 1, 3, 3);
    set_solid(&mut w, c, true);
    update_cells(&mut w, &vec![c, c]);
    assert!(!w.read(c).solid);
}

#[test]
fn random_update_keeps_links_and_colors() {
    let mut w = build_world(3, 3, 3);
    for c in 0..27 {
        if c % 2 == 0 {
            w.write(c, solid_voxel());
        }
    }
    update(&mut w, 100);
    for c in 0..27 {
        assert_eq!(w.read(c).color, if c % 2 == 0 { [10, 20, 30] } else { [0, 0, 0] });
        for axis in 0..3 {
            assert_eq!(w.neighbor(w.neighbor(c, 2 * axis), 2 * axis + 1), c);
        }
    }
}

#[test]
fn brightness_diffuses_with_decay() {
    let mut w = build_world(3, 3, 3);
    let c = furl(1, 1, 1, 3, 3);
    let lamp = w.neighbor(c, 4);
    w.write(lamp, Voxel { color: [255, 255, 255], solid: true, brightness: FULL_BRIGHTNESS });
    assert_eq!(brightest_neighbor_of(&w, c), 1000);
    update_brightness(&mut w, DECAY);
    assert_eq!(w.read(c).brightness, 980);
    assert_eq!(w.read(lamp).brightness, 1000);
    let far = furl(0, 0, 0, 3, 3);
    assert_eq!(w.read(far).brightness, 0);
}

#[test]
fn brightness_diffusion_reads_the_previous_step() {
    let mut w = build_world(5, 1, 1);
    w.write(0, Voxel { color: [255, 255, 255], solid: true, brightness: 1000 });
    update_brightness(&mut w, 20);
    assert_eq!(w.read(1).brightness, 980);
    assert_eq!(w.read(2).brightness, 0);
    assert_eq!(w.read(4).brightness, 980);
    update_brightness(&mut w, 20);
    assert_eq!(w.read(2).brightness, 960);
}

#[test]
fn brightness_floors_at_zero() {
    let mut w = build_world(3, 1, 1);
    w.write(0, Voxel { color: [1, 1, 1], solid: true, brightness: 10 });
    update_brightness(&mut w, 20);
    assert_eq!(w.read(1).brightness, 0);
}

#[test]
fn shade_blends_by_fade_and_light() {
    assert_eq!(shade([200, 100, 0], [255, 255, 255], 1000, 0, 128, false), [200, 100, 0]);
    assert_eq!(shade([200, 100, 0], [255, 255, 255], 1000, 128, 128, false), [0, 0, 0]);
    assert_eq!(shade([200, 100, 0], [255, 255, 255], 0, 128, 128, false), [255, 255, 255]);
    assert_eq!(shade([200, 100, 0], [250, 250, 250], 500, 64, 128, false), [112, 87, 62]);
    assert_eq!(shade([200, 100, 0], [250, 250, 250], 1000, 0, 128, true), [100, 50, 0]);
    assert_eq!(shade([200, 100, 0], [250, 250, 250], 5000, 0, 128, false), [200, 100, 0]);
    assert_eq!(shade([200, 100, 0], [250, 250, 250], 1000, 500, 128, false), [0, 0, 0]);
}

#[test]
fn render_pixel_shades_the_hit() {
    let mut w = build_world(4, 4, 4);
    let start = furl(0, 0, 0, 4, 4);
    let wall = furl(2, 0, 0, 4, 4);
    w.write(wall, Voxel { color: [200, 100, 0], solid: true, brightness: 0 });
    let front = furl(1, 0, 0, 4, 4);
    w.write(front, Voxel { color: [0, 0, 0], solid: false, brightness: 1000 });
    let player = Player { cell: start, position: [HALF, HALF, HALF] };
    let c = render_pixel(&w, &player, [1, 0, 0], 4, 999, [250, 250, 250]);
    assert_eq!(c, [100, 50, 0]);
    let c = render_pixel(&w, &player, [0, 1, 0], 4, 999, [250, 250, 250]);
    assert_eq!(c, [250, 250, 250]);
}

#[test]
fn edits_break_pick_and_place() {
    let mut w = build_world(4, 4, 4);
    let start = furl(0, 0, 0, 4, 4);
    let wall = furl(2, 0, 0, 4, 4);
    w.write(wall, solid_voxel());
    assert_eq!(pick_block(&w, wall), Some(solid_voxel()));
    assert_eq!(pick_block(&w, start), None);
    let hit = raycast(&w, start, [HALF, HALF, HALF], [1, 0, 0], 16);
    let placed = Voxel { color: [1, 2, 3], solid: true, brightness: 800 };
    assert_eq!(place_block(&mut w, &hit, [1, 0, 0], placed), Some(furl(1, 0, 0, 4, 4)));
    assert_eq!(w.read(furl(1, 0, 0, 4, 4)), placed);
    break_block(&mut w, wall);
    assert!(!w.read(wall).solid);
    assert_eq!(w.read(wall).color, [10, 20, 30]);
    assert_eq!(place_block(&mut w, &hit, [1, 0, 0], placed), None);
}

#[test]
fn seeded_ground_is_green_below_depth() {
    let mut w = build_world(4, 6, 4);
    seed_ground(&mut w, 6, 4, 2);
    let mut solid = 0;
    for i in 0..4 {
        for j in 0..6 {
            for k in 0..4 {
                let v = w.read(furl(i, j, k, 6, 4));
                if j < 2 {
                    assert!((77..=102).contains(&v.color[0]));
                    assert!((204..=229).contains(&v.color[1]));
                    assert!((77..=102).contains(&v.color[2]));
                    if v.solid {
                        solid += 1;
                    }
                } else {
                    assert_eq!(v, Voxel { color: [0, 0, 0], solid: false, brightness: 0 });
                }
            }
        }
    }
    assert!(solid > 0 && solid < 32);
}

#[test]
fn lights_land_only_on_solid_cells() {
    let mut w = build_world(4, 4, 4);
    for c in 0..32 {
        w.write(c, solid_voxel());
    }
    scatter_lights(&mut w, 200);
    let mut lights = 0;
    for c in 0..64 {
        let v = w.read(c);
        if c >= 32 {
            assert!(!v.solid);
            assert_eq!(v.brightness, 0);
        } else if v.brightness == FULL_BRIGHTNESS {
            assert_eq!(v.color, [255, 255, 255]);
            lights += 1;
        }
    }
    assert!(lights > 0);
}

#[test]
fn update_with_no_samples_changes_nothing() {
    let mut w = build_world(3, 3, 3);
    for c in 0..27 {
        if c % 3 == 0 {
            w.write(c, solid_voxel());
        }
    }
    update(&mut w, 0);
    for c in 0..27 {
        assert_eq!(w.read(c).solid, c % 3 == 0);
    }
}

#[test]
fn update_changes_at_most_samples_cells() {
    let mut w = build_world(4, 4, 4);
    for c in 0..64 {
        if c % 2 == 0 {
            w.write(c, solid_voxel());
        }
    }
    let before: Vec<bool> = (0..64).map(|c| w.read(c).solid).collect();
    update(&mut w, 3);
    let changed = (0..64).filter(|&c| w.read(c).solid != before[c]).count();
    assert!(changed <= 3);
}

#[test]
fn draws_land_below_the_bound() {
    let picks = draw_cells(7, 50);
    assert_eq!(picks.len(), 50);
    assert!(picks.iter().all(|&p| p < 7));
    assert!(draw_cells(1, 5).iter().all(|&p| p == 0));
    assert!(draw_cells(3, 0).is_empty());
}

#[test]
fn light_cells_lights_only_solid_picks() {
    let mut w = build_world(4, 1, 1);
    w.write(1, solid_voxel());
    w.write(3, solid_voxel());
    light_cells(&mut w, &vec![0, 1, 1]);
    assert_eq!(w.read(0), Voxel { color: [0, 0, 0], solid: false, brightness: 0 });
    assert_eq!(w.read(1), Voxel { color: [255, 255, 255], solid: true, brightness: FULL_BRIGHTNESS });
    assert_eq!(w.read(3), solid_voxel());
}
