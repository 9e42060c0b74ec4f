use pixel_sand::grid::{PixelGrid, PixelKind, PixelState};
use pixel_sand::sim::{apply_input, erase, spawn, spawn_with_coins, step, step_with_coins};
use rand::rngs::StdRng;
use rand::SeedableRng;

fn sand(velocity: i32) -> PixelState {
    PixelState { enabled: true, kind: PixelKind::Sand, velocity }
}

fn occupied_cells(g: &PixelGrid) -> Vec<(i32, i32)> {
    let mut out = Vec::new();
    for c in 0..g.columns() as i32 {
        for r in 0..g.rows() as i32 {
            if g.is_enabled(c, r) {
                out.push((c, r));
            }
        }
    }
    out
}

fn same_grid(a: &PixelGrid, b: &PixelGrid) -> bool {
    if a.columns() != b.columns() || a.rows() != b.rows() {
        return false;
    }
    for c in 0..a.columns() as i32 {
        for r in 0..a.rows() as i32 {
            if a.get_state(c, r) != b.get_state(c, r) {
                return false;
            }
        }
    }
    true
}

#[test]
fn lone_particle_falls_by_its_velocity() {
    let mut g = PixelGrid::new(5, 10);
    g.set(2, 1, sand(1));
    let n = step_with_coins(&g, &vec![]);
    assert_eq!(occupied_cells(&n), vec![(2, 2)]);
    assert_eq!(n.get_state(2, 2).unwrap().velocity, 2);
    let n2 = step_with_coins(&n, &vec![]);
    assert_eq!(occupied_cells(&n2), vec![(2, 4)]);
    assert_eq!(n2.get_state(2, 4).unwrap().velocity, 3);
}

#[test]
fn fast_particle_falls_three_rows() {
    let mut g = PixelGrid::new(3, 10);
    g.set(1, 2, sand(3));
    let n = step_with_coins(&g, &vec![]);
    assert_eq!(occupied_cells(&n), vec![(1, 5)]);
    assert_eq!(n.get_state(1, 5).unwrap().velocity, 4);
}

#[test]
fn falling_particle_stops_above_blocker() {
    // The blocker sits on the last row and stays put.
    let mut g = PixelGrid::new(3, 4);
    g.set(1, 1, sand(3));
    g.set(1, 3, sand(1));
    let n = step_with_coins(&g, &vec![]);
    assert_eq!(occupied_cells(&n), vec![(1, 2), (1, 3)]);
    assert_eq!(n.get_state(1, 2).unwrap().velocity, 1);
}

#[test]
fn fall_is_clamped_at_last_row() {
    let mut g = PixelGrid::new(2, 5);
    g.set(0, 2, sand(7));
    let n = step_with_coins(&g, &vec![]);
    assert_eq!(occupied_cells(&n), vec![(0, 4)]);
    assert_eq!(n.get_state(0, 4).unwrap().velocity, 1);
}

#[test]
fn zero_velocity_particle_stays() {
    let mut g = PixelGrid::new(2, 5);
    g.set(0, 1, sand(0));
    let n = step_with_coins(&g, &vec![]);
    assert_eq!(occupied_cells(&n), vec![(0, 1)]);
    assert_eq!(n.get_state(0, 1).unwrap().velocity, 1);
}

#[test]
fn negative_velocity_still_advances_one_row() {
    let mut g = PixelGrid::new(2, 5);
    g.set(0, 1, sand(-4));
    let n = step_with_coins(&g, &vec![]);
    assert_eq!(occupied_cells(&n), vec![(0, 2)]);
    assert_eq!(n.get_state(0, 2).unwrap().velocity, -3);
}

#[test]
fn blocked_particle_settles_left_when_only_left_is_free() {
    let mut g = PixelGrid::new(3, 3);
    g.set(1, 1, sand(1));
    g.set(1, 2, sand(1));
    g.set(2, 2, sand(1));
    for coin in [false, true] {
        let n = step_with_coins(&g, &vec![coin]);
        assert_eq!(occupied_cells(&n), vec![(0, 2), (1, 2), (2, 2)]);
    }
}

#[test]
fn blocked_particle_settles_right_when_only_right_is_free() {
    let mut g = PixelGrid::new(3, 3);
    g.set(1, 1, sand(1));
    g.set(1, 2, sand(1));
    g.set(0, 2, sand(1));
    let n = step_with_coins(&g, &vec![false]);
    assert_eq!(occupied_cells(&n), vec![(0, 2), (1, 2), (2, 2)]);
}

#[test]
fn coin_picks_diagonal_when_both_free() {
    let mut g = PixelGrid::new(3, 3);
    g.set(1, 1, sand(1));
    g.set(1, 2, sand(1));
    let right = step_with_coins(&g, &vec![true]);
    assert_eq!(occupied_cells(&right), vec![(1, 2), (2, 2)]);
    let left = step_with_coins(&g, &vec![false]);
    assert_eq!(occupied_cells(&left), vec![(0, 2), (1, 2)]);
    let exhausted = step_with_coins(&g, &vec![]);
    assert_eq!(occupied_cells(&exhausted), vec![(0, 2), (1, 2)]);
}

#[test]
fn fully_blocked_particle_stays() {
    let mut g = PixelGrid::new(3, 3);
    g.set(1, 1, sand(1));
    g.set(0, 2, sand(1));
    g.set(1, 2, sand(1));
    g.set(2, 2, sand(1));
    let n = step_with_coins(&g, &vec![true]);
    assert_eq!(occupied_cells(&n), vec![(0, 2), (1, 1), (1, 2), (2, 2)]);
}

#[test]
fn edge_column_has_no_outside_diagonal() {
    let mut g = PixelGrid::new(2, 3);
    g.set(0, 1, sand(1));
    g.set(0, 2, sand(1));
    g.set(1, 2, sand(1));
    let n = step_with_coins(&g, &vec![false]);
    assert_eq!(occupied_cells(&n), vec![(0, 1), (0, 2), (1, 2)]);
}

#[test]
fn last_row_particles_stay_across_steps() {
    let mut g = PixelGrid::new(4, 3);
    g.set(0, 2, sand(1));
    g.set(3, 2, sand(5));
    let mut rng = StdRng::seed_from_u64(11);
    for _ in 0..10 {
        g = step(&g, &mut rng);
        assert!(g.is_enabled(0, 2));
        assert!(g.is_enabled(3, 2));
    }
    assert_eq!(occupied_cells(&g), vec![(0, 2), (3, 2)]);
}

#[test]
fn pile_conserves_particles_until_settled() {
    let mut g = PixelGrid::new(7, 6);
    g.set(3, 0, sand(1));
    g.set(3, 1, sand(1));
    g.set(3, 2, sand(1));
    let mut rng = StdRng::seed_from_u64(3);
    for _ in 0..20 {
        g = step(&g, &mut rng);
    }
    assert_eq!(occupied_cells(&g).len(), 3);
    assert!(g.is_enabled(3, 5));
}

#[test]
fn seeded_steps_are_reproducible() {
    let mut g = PixelGrid::new(8, 8);
    let mut seed_rng = StdRng::seed_from_u64(99);
    spawn(&mut g, 4, 4, &mut seed_rng);
    let mut a_rng = StdRng::seed_from_u64(5);
    let mut b_rng = StdRng::seed_from_u64(5);
    let mut a = g;
    let mut b = PixelGrid::new(8, 8);
    let mut seed_rng = StdRng::seed_from_u64(99);
    spawn(&mut b, 4, 4, &mut seed_rng);
    for _ in 0..6 {
        a = step(&a, &mut a_rng);
        b = step(&b, &mut b_rng);
        assert!(same_grid(&a, &b));
    }
}

#[test]
fn spawn_brush_along_row() {
    let mut g = PixelGrid::new(10, 10);
    spawn_with_coins(&mut g, 5, 5, &vec![true; 6]);
    assert_eq!(
        occupied_cells(&g),
        vec![(2, 5), (3, 5), (4, 5), (5, 5), (6, 5), (7, 5)]
    );
    assert_eq!(*g.get_state(2, 5).unwrap(), sand(1));
}

#[test]
fn spawn_brush_along_column() {
    let mut g = PixelGrid::new(10, 10);
    spawn_with_coins(&mut g, 5, 5, &vec![false; 6]);
    assert_eq!(
        occupied_cells(&g),
        vec![(5, 2), (5, 3), (5, 4), (5, 5), (5, 6), (5, 7)]
    );
}

#[test]
fn spawn_brush_mixed_and_clipped() {
    let mut g = PixelGrid::new(3, 3);
    // offsets -3..3: row, column, row, column, row, column
    spawn_with_coins(&mut g, 0, 0, &vec![true, false, true, false, true, false]);
    // (-3,0) out, (0,-2) out, (-1,0) out, (0,0), (1,0), (0,2)
    assert_eq!(occupied_cells(&g), vec![(0, 0), (0, 2), (1, 0)]);
}

#[test]
fn spawn_resets_existing_particle() {
    let mut g = PixelGrid::new(3, 3);
    g.set(1, 1, sand(6));
    spawn_with_coins(&mut g, 1, 1, &vec![]);
    assert_eq!(*g.get_state(1, 1).unwrap(), sand(1));
}

#[test]
fn spawn_centre_always_enabled() {
    for seed in 0..20u64 {
        let mut g = PixelGrid::new(6, 6);
        let mut rng = StdRng::seed_from_u64(seed);
        spawn(&mut g, 2, 3, &mut rng);
        assert!(g.is_enabled(2, 3));
    }
}

#[test]
fn spawn_outside_changes_nothing() {
    let mut g = PixelGrid::new(4, 4);
    g.set(1, 1, sand(2));
    let mut rng = StdRng::seed_from_u64(1);
    spawn(&mut g, -1, 2, &mut rng);
    spawn(&mut g, 4, 0, &mut rng);
    spawn_with_coins(&mut g, 0, 9, &vec![true; 6]);
    assert_eq!(occupied_cells(&g), vec![(1, 1)]);
    assert_eq!(*g.get_state(1, 1).unwrap(), sand(2));
}

#[test]
fn erase_disables_only_its_cell() {
    let mut g = PixelGrid::new(3, 3);
    g.set(1, 1, sand(4));
    g.set(0, 1, sand(1));
    g.set(1, 2, sand(1));
    erase(&mut g, 1, 1);
    assert_eq!(occupied_cells(&g), vec![(0, 1), (1, 2)]);
    assert_eq!(g.get_state(1, 1).unwrap().velocity, 4);
}

#[test]
fn erase_empty_or_outside_is_noop() {
    let mut g = PixelGrid::new(3, 3);
    g.set(2, 2, sand(1));
    erase(&mut g, 0, 0);
    erase(&mut g, -1, 2);
    erase(&mut g, 3, 3);
    assert_eq!(occupied_cells(&g), vec![(2, 2)]);
    assert_eq!(*g.get_state(0, 0).unwrap(), PixelState::default());
}

#[test]
fn input_place_takes_precedence_over_erase() {
    let mut g = PixelGrid::new(5, 5);
    let mut rng = StdRng::seed_from_u64(8);
    apply_input(&mut g, true, true, 2, 2, &mut rng);
    assert!(g.is_enabled(2, 2));
    apply_input(&mut g, false, true, 2, 2, &mut rng);
    assert!(!g.is_enabled(2, 2));
    let before = occupied_cells(&g);
    apply_input(&mut g, false, false, 2, 2, &mut rng);
    assert_eq!(occupied_cells(&g), before);
}

#[test]
fn empty_grid_steps_to_empty_grid() {
    let g = PixelGrid::new(4, 4);
    let mut rng = StdRng::seed_from_u64(0);
    let n = step(&g, &mut rng);
    assert!(occupied_cells(&n).is_empty());
    assert!(same_grid(&n, &PixelGrid::new(4, 4)));
}
