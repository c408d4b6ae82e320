use behave_demo::grid::{GridBounds, GridCell};
use behave_demo::resizing::compute_grid_bounds_for_available_space;
use bevy_rand::prelude::WyRand;
use rand::SeedableRng;
use behave_demo::schedule::{Schedule, TickGate, HUNGER_TICK_DURATION_NANOS, TICK_DURATION_NANOS};

#[test]
fn bounds_of_even_width_are_centred() {
    let b = GridBounds::from_size(10, 10);
    assert_eq!(b.left_inclusive(), -5);
    assert_eq!(b.right_exclusive(), 5);
    assert_eq!(b.top_inclusive(), -5);
    assert_eq!(b.bottom_exclusive(), 5);
    assert_eq!(b.oddness(), (false, false));
}

#[test]
fn bounds_of_odd_size_reach_one_further() {
    let b = GridBounds::from_size(11, 7);
    assert_eq!(b.left_inclusive(), -5);
    assert_eq!(b.right_exclusive(), 6);
    assert_eq!(b.top_inclusive(), -3);
    assert_eq!(b.bottom_exclusive(), 4);
    assert_eq!(b.oddness(), (true, true));
    assert_eq!(b.right_exclusive() - b.left_inclusive(), 11);
    assert_eq!(b.bottom_exclusive() - b.top_inclusive(), 7);
}

#[test]
fn bounds_span_their_sides() {
    for w in 2..40usize {
        for h in [2usize, 3, 10, 25] {
            let b = GridBounds::from_size(w, h);
            assert_eq!((b.right_exclusive() - b.left_inclusive()) as usize, w);
            assert_eq!((b.bottom_exclusive() - b.top_inclusive()) as usize, h);
            assert_eq!(b.right_exclusive(), -b.left_inclusive() + (w % 2) as isize);
        }
    }
}

#[test]
fn contains_is_half_open() {
    let b = GridBounds::from_size(10, 4);
    assert!(b.contains(&GridCell::new(-5, -2)));
    assert!(b.contains(&GridCell::new(4, 1)));
    assert!(!b.contains(&GridCell::new(5, 0)));
    assert!(!b.contains(&GridCell::new(-6, 0)));
    assert!(!b.contains(&GridCell::new(0, 2)));
    assert!(!b.contains(&GridCell::new(0, -3)));
}

#[test]
fn neighbours_are_left_right_up_down() {
    let n = GridCell::new(3, -1).neighbours();
    assert_eq!(
        n,
        vec![GridCell::new(2, -1), GridCell::new(4, -1), GridCell::new(3, -2), GridCell::new(3, 0)]
    );
}

#[test]
fn step_to_moves_along_the_larger_delta() {
    let mut c = GridCell::new(0, 0);
    c.step_to(&GridCell::new(1, 5));
    assert_eq!(c, GridCell::new(0, 1));
    let mut c = GridCell::new(0, 0);
    c.step_to(&GridCell::new(-4, 2));
    assert_eq!(c, GridCell::new(-1, 0));
}

#[test]
fn step_to_prefers_x_on_a_tie() {
    let mut c = GridCell::new(0, 0);
    c.step_to(&GridCell::new(3, 3));
    assert_eq!(c, GridCell::new(1, 0));
    let mut c = GridCell::new(2, 2);
    c.step_to(&GridCell::new(1, 1));
    assert_eq!(c, GridCell::new(1, 2));
}

#[test]
fn repeated_steps_reach_the_target_with_decreasing_distance() {
    let target = GridCell::new(4, -3);
    let mut c = GridCell::new(-2, 5);
    let mut d = c.distance_squared(&target).unwrap();
    let mut steps = 0;
    while c != target {
        c.step_to(&target);
        let d2 = c.distance_squared(&target).unwrap();
        assert!(d2 < d);
        d = d2;
        steps += 1;
    }
    assert_eq!(steps, 6 + 8);
}

#[test]
fn distance_squared_is_exact() {
    assert_eq!(GridCell::new(0, 0).distance_squared(&GridCell::new(3, 4)), Some(25));
    assert_eq!(GridCell::new(-2, 7).distance_squared(&GridCell::new(-2, 7)), Some(0));
    assert_eq!(
        GridCell::new(isize::MIN, 0).distance_squared(&GridCell::new(isize::MAX, 0)),
        Some((u64::MAX as u128) * (u64::MAX as u128))
    );
    assert_eq!(
        GridCell::new(isize::MIN, isize::MIN).distance_squared(&GridCell::new(isize::MAX, isize::MAX)),
        None
    );
}

#[test]
fn random_positions_stay_in_bounds() {
    let b = GridBounds::from_size(3, 2);
    let mut rng = WyRand::seed_from_u64(7);
    let mut seen = std::collections::HashSet::new();
    for _ in 0..500 {
        let c = b.get_random_position(&mut rng);
        assert!(b.contains(&c));
        seen.insert((c.x, c.y));
    }
    assert_eq!(seen.len(), 6);
}

#[test]
fn random_positions_cover_a_negative_range() {
    let b = GridBounds::from_size(4, 2);
    let mut rng = WyRand::seed_from_u64(1);
    let mut seen = [false; 4];
    for _ in 0..200 {
        let c = b.get_random_position(&mut rng);
        assert!((-2..2).contains(&c.x));
        seen[(c.x + 2) as usize] = true;
    }
    assert!(seen.iter().all(|s| *s));
}

#[test]
fn resize_uses_the_ideal_cell_size_with_room() {
    let (b, cell) = compute_grid_bounds_for_available_space(1000, 800).unwrap();
    assert_eq!((b.width(), b.height(), cell), (20, 16, 50));
}

#[test]
fn resize_narrow_window_fixes_ten_columns() {
    let (b, cell) = compute_grid_bounds_for_available_space(300, 1000).unwrap();
    assert_eq!((b.width(), b.height(), cell), (10, 33, 30));
}

#[test]
fn resize_low_window_fixes_ten_rows() {
    let (b, cell) = compute_grid_bounds_for_available_space(1000, 300).unwrap();
    assert_eq!((b.width(), b.height(), cell), (33, 10, 30));
}

#[test]
fn resize_tie_limits_vertically() {
    let (b, cell) = compute_grid_bounds_for_available_space(300, 320).unwrap();
    assert_eq!((b.width(), b.height(), cell), (9, 10, 32));
}

#[test]
fn resize_rejects_windows_too_small() {
    assert!(compute_grid_bounds_for_available_space(9, 100).is_none());
    assert!(compute_grid_bounds_for_available_space(1, 20).is_none());
    assert!(compute_grid_bounds_for_available_space(0, 0).is_none());
}

#[test]
fn tick_gate_admits_once_per_period() {
    let mut g = TickGate::new(600);
    assert!(!g.advance(300));
    assert!(g.advance(300));
    assert!(!g.advance(599));
    assert!(g.advance(1));
}

#[test]
fn tick_gate_does_not_queue_missed_periods() {
    let mut g = TickGate::new(600);
    assert!(g.advance(1500));
    assert!(!g.advance(299));
    assert!(g.advance(1));
}

#[test]
fn schedule_hunger_gate_is_slower() {
    let mut s = Schedule::new();
    let mut movement = 0;
    let mut hunger = 0;
    for _ in 0..60 {
        let (m, h) = s.advance(100_000_000);
        movement += m as u32;
        hunger += h as u32;
    }
    assert_eq!(movement as u64, 6_000_000_000 / TICK_DURATION_NANOS);
    assert_eq!(hunger as u64, 6_000_000_000 / HUNGER_TICK_DURATION_NANOS);
}
