//! End-to-end tests of the sand-simulation core: spawning, neighbour
//! queries, grid rebuilds and whole frames.

use sandsim::sand::Sand;
use sandsim::world::World;

#[test]
fn world_new_is_empty() {
    let w = World::new(600, 400, 2);
    assert_eq!(w.width, 600);
    assert_eq!(w.height, 400);
    assert_eq!(w.sands.len(), 0);
    assert!(w.get_nearby(10_000, 10_000).is_empty());
}

#[test]
fn spawn_fifty_grains_with_fresh_ids_over_ten_frames() {
    // Five grains per frame for ten frames: exactly fifty grains, each with
    // a distinct, previously unused id.
    let mut w = World::new(600, 400, 2);
    for _ in 0..10 {
        w.spawn(300_000, 50_000, 5);
        w.step_frame(166);
    }
    assert_eq!(w.sands.len(), 50);
    let mut seen = vec![false; 50];
    for s in &w.sands {
        assert!(s.id < 50);
        assert!(!seen[s.id]);
        seen[s.id] = true;
    }
}

#[test]
fn nearby_finds_same_cell_and_adjacent_cells_only() {
    let mut w = World::new(600, 400, 2);
    w.add_sand(Sand::new(1_000, 1_000, 0)); // cell (0, 0)
    w.add_sand(Sand::new(3_000, 1_000, 1)); // cell (1, 0), adjacent
    w.add_sand(Sand::new(100_000, 100_000, 2)); // cell (50, 50), far away
    let near = w.get_nearby(1_000, 1_000);
    assert!(near.contains(&0));
    assert!(near.contains(&1));
    assert!(!near.contains(&2));
}

#[test]
fn nearby_clamps_at_grid_edges() {
    // A query in the corner cell must not wrap around to the far side.
    let mut w = World::new(600, 400, 2);
    w.add_sand(Sand::new(599_000, 399_000, 0)); // last cell
    let near_corner = w.get_nearby(599_000, 399_000);
    assert!(near_corner.contains(&0));
    let near_origin = w.get_nearby(1_000, 1_000);
    assert!(!near_origin.contains(&0));
}

#[test]
fn negative_and_overflowing_positions_are_clamped_into_the_grid() {
    let mut w = World::new(600, 400, 2);
    w.add_sand(Sand::new(-5_000, -5_000, 0)); // files under cell (0, 0)
    w.add_sand(Sand::new(700_000, 1_000, 1)); // files under the last column
    assert!(w.get_nearby(-5_000, -5_000).contains(&0));
    assert!(w.get_nearby(0, 0).contains(&0));
    assert!(w.get_nearby(700_000, 1_000).contains(&1));
    assert!(w.get_nearby(599_999, 1_000).contains(&1));
}

#[test]
fn rebuild_is_idempotent_when_nothing_moved_cells() {
    let mut w = World::new(600, 400, 2);
    w.spawn(10_000, 10_000, 3);
    w.spawn(200_000, 100_000, 2);
    w.recreate_grid();
    let before = w.grids.clone();
    w.recreate_grid();
    assert_eq!(w.grids, before);
}

#[test]
fn rebuild_moves_a_grain_that_changed_cells() {
    let mut w = World::new(600, 400, 2);
    w.spawn(1_000, 1_000, 1); // cell (0, 0)
    w.sands[0].x = 9_000; // now belongs in cell (4, 0)
    w.recreate_grid();
    assert!(w.get_nearby(9_000, 1_000).contains(&0));
    assert!(!w.get_nearby(1_000, 1_000).contains(&0));
}

#[test]
fn free_fall_follows_the_fixed_point_formula() {
    // No neighbours: one unit of time of gravity alone.
    let mut w = World::new(600, 400, 2);
    w.add_sand(Sand::new(300_000, 200_000, 0));
    let mut s = w.sands[0];
    s.update(1000, &w);
    assert_eq!(s.x, 300_000);
    assert_eq!(s.delta_x, 0);
    assert_eq!(s.delta_y, 1_200); // gravity 1.2 over one time unit
    assert_eq!(s.y, 201_200);
}

#[test]
fn damping_follows_the_fixed_point_formula() {
    let mut w = World::new(600, 400, 2);
    w.add_sand(Sand::new(300_000, 200_000, 0));
    let mut s = w.sands[0];
    s.delta_x = 10_000;
    s.update(500, &w);
    // vx: 10000 * 99 * (1000 - 500) / 100000 = 4950, truncating
    assert_eq!(s.delta_x, 4_950);
    assert_eq!(s.x, 300_000 + 2_475);
    assert_eq!(s.delta_y, 600);
    assert_eq!(s.y, 200_300);
    // the same magnitudes with the velocity reversed, truncation toward zero
    let mut t = Sand::new(300_000, 200_000, 1);
    t.delta_x = -10_000;
    t.update(500, &w);
    assert_eq!(t.delta_x, -4_950);
    assert_eq!(t.x, 300_000 - 2_475);
}

#[test]
fn boundary_clamp_pins_a_grain_at_the_right_edge() {
    // A grain whose integrated position sits exactly at x = width ends the
    // frame at width - 2r.
    let mut w = World::new(600, 400, 2);
    w.add_sand(Sand::new(600_000, 200_000, 0));
    let mut s = w.sands[0];
    s.update(1000, &w);
    assert_eq!(s.x, 598_000); // width - 2r
}

#[test]
fn boundary_clamp_pins_a_grain_at_the_floor_and_ceiling() {
    let mut w = World::new(600, 400, 2);
    w.add_sand(Sand::new(300_000, 399_500, 0));
    let mut s = w.sands[0];
    s.update(1000, &w);
    assert_eq!(s.y, 398_000); // height - 2r
    let mut t = Sand::new(100_000, 0, 1);
    t.delta_y = -10_000; // moving up, past the top edge
    t.update(100, &w);
    assert_eq!(t.y, 2_000); // 2r
}

#[test]
fn stacking_two_grains_separates_them_and_stops_the_fall() {
    // Two grains of radius one length unit at (10, 10) and (10, 10.5),
    // zero velocity, one frame under gravity: the resolved grain ends at
    // vertical separation exactly 2r with its fall zeroed.
    let mut w = World::new(600, 400, 2);
    w.add_sand(Sand::new(10_000, 10_000, 0));
    w.add_sand(Sand::new(10_000, 10_500, 1));
    w.step_frame(166);
    let a = w.sands[0];
    let b = w.sands[1];
    // contact was detected by the grain at (10, 10): its fall stopped
    assert_eq!(a.delta_y, 0);
    assert_eq!(a.y, 8_500); // parked exactly 2r away from its neighbour
    assert_eq!(a.x, 12_000); // and pushed sideways by 2r
    // the pair ends at vertical separation of at least 2r
    assert!((b.y - a.y).abs() >= 2_000);
}

#[test]
fn update_never_resolves_against_the_grain_itself() {
    // A lone grain overlaps nothing but its own grid entry: one frame must
    // leave it in pure free fall, with no sideways push.
    let mut w = World::new(600, 400, 2);
    w.add_sand(Sand::new(300_000, 200_000, 7));
    let mut s = w.sands[0];
    s.update(1000, &w);
    assert_eq!(s.x, 300_000);
    assert_eq!(s.delta_x, 0);
    assert_eq!(s.y, 201_200);
}

#[test]
fn step_frame_keeps_every_grain_inside_the_margins() {
    let mut w = World::new(600, 400, 2);
    w.spawn(0, 0, 4);
    w.spawn(600_000, 400_000, 4);
    w.spawn(300_000, 200_000, 4);
    for _ in 0..5 {
        w.step_frame(1000);
    }
    for s in &w.sands {
        assert!(2_000 <= s.x && s.x <= 598_000);
        assert!(2_000 <= s.y && s.y <= 398_000);
    }
}

#[test]
fn gravity_accumulates_across_frames() {
    let mut w = World::new(600, 400, 2);
    w.add_sand(Sand::new(300_000, 10_000, 0));
    w.step_frame(1000);
    assert_eq!(w.sands[0].delta_y, 1_200);
    assert_eq!(w.sands[0].y, 11_200);
    w.step_frame(1000);
    assert_eq!(w.sands[0].delta_y, 2_400);
    assert_eq!(w.sands[0].y, 13_600);
}

#[test]
fn sand_renders_its_label() {
    let s = Sand::new(5, 7, 3);
    assert_eq!(s.to_string(), "Sand #3 (5,7)");
}

#[test]
fn sand_clone_copies_every_field() {
    let mut s = Sand::new(5, 7, 3);
    s.delta_x = -2;
    s.delta_y = 9;
    let c = s.clone();
    assert_eq!(c.x, 5);
    assert_eq!(c.y, 7);
    assert_eq!(c.delta_x, -2);
    assert_eq!(c.delta_y, 9);
    assert_eq!(c.id, 3);
}

#[test]
fn side_contact_from_the_left_pushes_to_exact_separation() {
    // The grain sits left of and level with its neighbour: it is pushed
    // left to exact 2r separation, loses half the push as velocity, and
    // (being level, "at or above") parks vertically too.
    let mut w = World::new(600, 400, 2);
    w.add_sand(Sand::new(10_400, 10_000, 0));
    w.add_sand(Sand::new(11_000, 10_000, 1));
    let mut s = w.sands[0];
    s.update(0, &w); // zero time step: pure collision resolution
    assert_eq!(s.x, 9_000); // neighbour x minus 2r
    assert_eq!(s.delta_x, -700); // half of (2r + xd) = (2000 - 600) / 2
    assert_eq!(s.y, 8_000); // neighbour y minus 2r
    assert_eq!(s.delta_y, 0);
}

#[test]
fn side_contact_below_keeps_falling_but_loses_upward_momentum() {
    // The grain overlaps a neighbour strictly above it: it is pushed
    // sideways and jostled (vy -= 0.1), but not parked.
    let mut w = World::new(600, 400, 2);
    w.add_sand(Sand::new(10_400, 11_000, 0));
    w.add_sand(Sand::new(11_000, 10_500, 1));
    let mut s = w.sands[0];
    s.update(0, &w);
    assert_eq!(s.x, 9_000);
    assert_eq!(s.delta_x, -700);
    assert_eq!(s.y, 11_000); // vertical position untouched
    assert_eq!(s.delta_y, -100); // the jostle alone
}

#[test]
fn rebuild_relocates_several_grains_at_once() {
    let mut w = World::new(600, 400, 2);
    w.spawn(1_000, 1_000, 3); // all in cell (0, 0)
    w.sands[0].x = 9_000; // now cell (4, 0)
    w.sands[2].y = 9_000; // now cell (0, 4)
    w.recreate_grid();
    assert!(w.get_nearby(9_000, 1_000).contains(&0));
    assert!(!w.get_nearby(9_000, 1_000).contains(&2));
    assert!(w.get_nearby(1_000, 9_000).contains(&2));
    assert!(!w.get_nearby(1_000, 9_000).contains(&0));
    let near_origin = w.get_nearby(1_000, 1_000);
    assert!(near_origin.contains(&1));
    assert!(!near_origin.contains(&0));
    assert!(!near_origin.contains(&2));
    // a second rebuild changes nothing
    let before = w.grids.clone();
    w.recreate_grid();
    assert_eq!(w.grids, before);
}
