use behave_demo::behave::Status;
use behave_demo::grid::{GridBounds, GridCell};
use behave_demo::hunger::Hunger;
use behave_demo::items::{count_of_kind, Coin, Fruit, Item, Resource, TargetKind};
use behave_demo::pickups::pick_up;
use behave_demo::points::Points;
use bevy_rand::prelude::WyRand;
use rand::SeedableRng;

fn seeded_rng(seed: u64) -> WyRand {
    WyRand::seed_from_u64(seed)
}
use behave_demo::target_finding::{in_bounds_neighbours, FindTarget, GoToTarget};
use behave_demo::walking::{naive_step, WalkInDirectionUntilOutOfBounds};

fn fruit(id: u64, x: isize, y: isize) -> Item {
    Item { id, cell: GridCell::new(x, y), resource: Resource::Fruit(Fruit::new(2)) }
}

fn coin(id: u64, x: isize, y: isize, value: usize) -> Item {
    Item { id, cell: GridCell::new(x, y), resource: Resource::Coin(Coin::new(value)) }
}

#[test]
fn walk_succeeds_when_the_next_step_would_leave() {
    let b = GridBounds::from_size(10, 10);
    let w = WalkInDirectionUntilOutOfBounds::new(-1, 0);
    assert_eq!(w.evaluate(&b, &GridCell::new(0, 0)), (GridCell::new(-1, 0), Status::Running));
    assert_eq!(w.evaluate(&b, &GridCell::new(-4, 2)), (GridCell::new(-5, 2), Status::Success));
    assert_eq!(w.step_from(&GridCell::new(3, 3)), GridCell::new(2, 3));
}

#[test]
fn walk_that_cannot_step_succeeds_in_place() {
    let b = GridBounds::from_size(10, 10);
    let w = WalkInDirectionUntilOutOfBounds::new(-1, 0);
    let edge = GridCell::new(isize::MIN, 0);
    assert_eq!(w.evaluate(&b, &edge), (edge, Status::Success));
}

#[test]
fn reverse_negates_both_axes() {
    let mut w = WalkInDirectionUntilOutOfBounds::new(1, -2);
    w.reverse();
    assert_eq!(w.0, (-1, 2));
}

#[test]
fn naive_walk_turns_at_the_edges() {
    let b = GridBounds::from_size(4, 4);
    let mut cell = GridCell::new(0, 0);
    let mut w = WalkInDirectionUntilOutOfBounds::new(-1, 0);
    let mut xs = vec![];
    for _ in 0..8 {
        naive_step(&b, &mut cell, &mut w);
        xs.push(cell.x);
    }
    assert_eq!(xs, vec![-1, -2, -1, 0, 1, 0, -1, -2]);
}

#[test]
fn can_see_includes_the_viewing_distance() {
    let f = FindTarget::new(TargetKind::Fruit, 8);
    assert!(f.can_see(&GridCell::new(0, 0), &GridCell::new(8, 0)));
    assert!(f.can_see(&GridCell::new(0, 0), &GridCell::new(5, -6)));
    assert!(!f.can_see(&GridCell::new(0, 0), &GridCell::new(8, 1)));
}

#[test]
fn find_target_picks_the_nearest_fruit() {
    let b = GridBounds::from_size(20, 20);
    let items = vec![coin(1, 1, 0, 2), fruit(2, 0, 5), fruit(3, 3, 0), fruit(4, 9, 9)];
    let f = FindTarget::new(TargetKind::Fruit, 8);
    let mut cell = GridCell::new(0, 0);
    let mut target = None;
    let mut rng = seeded_rng(3);
    assert_eq!(f.find(&b, &items, &mut cell, &mut target, &mut rng), Status::Success);
    assert_eq!(target, Some(3));
    assert_eq!(cell, GridCell::new(0, 0));
}

#[test]
fn closest_visible_breaks_ties_by_list_order() {
    let items = vec![fruit(5, 0, -2), fruit(6, 2, 0), fruit(7, 0, 1)];
    let f = FindTarget::new(TargetKind::Fruit, 8);
    assert_eq!(f.closest_visible(&items, &GridCell::new(0, 0)), Some(2));
    let items = vec![fruit(5, 0, -2), fruit(6, 2, 0)];
    assert_eq!(f.closest_visible(&items, &GridCell::new(0, 0)), Some(0));
    let coins = FindTarget::new(TargetKind::Coins, 8);
    assert_eq!(coins.closest_visible(&items, &GridCell::new(0, 0)), None);
}

#[test]
fn find_target_wanders_when_nothing_is_in_sight() {
    let b = GridBounds::from_size(10, 10);
    let items = vec![fruit(1, 4, 4)];
    let f = FindTarget::new(TargetKind::Fruit, 2);
    let mut rng = seeded_rng(11);
    for _ in 0..50 {
        let mut cell = GridCell::new(-5, -5);
        let mut target = Some(9);
        assert_eq!(f.find(&b, &items, &mut cell, &mut target, &mut rng), Status::Running);
        assert_eq!(target, Some(9));
        assert!(cell == GridCell::new(-4, -5) || cell == GridCell::new(-5, -4));
    }
}

#[test]
fn wander_until_visible_stops_once_an_item_is_in_sight() {
    let b = GridBounds::from_size(10, 10);
    let items = vec![fruit(1, 2, 0)];
    let f = FindTarget::new(TargetKind::Fruit, 2);
    let mut rng = seeded_rng(5);
    let mut cell = GridCell::new(0, 0);
    assert_eq!(f.wander_until_visible(&b, &items, &mut cell, &mut rng), Status::Success);
    assert_eq!(cell, GridCell::new(0, 0));
    let mut cell = GridCell::new(-4, 0);
    assert_eq!(f.wander_until_visible(&b, &items, &mut cell, &mut rng), Status::Running);
    assert_eq!(GridCell::new(-4, 0).distance_squared(&cell), Some(1));
}

#[test]
fn in_bounds_neighbours_filters_the_edges() {
    let b = GridBounds::from_size(4, 4);
    assert_eq!(
        in_bounds_neighbours(&b, &GridCell::new(-2, -2)),
        vec![GridCell::new(-1, -2), GridCell::new(-2, -1)]
    );
    assert_eq!(in_bounds_neighbours(&b, &GridCell::new(0, 0)).len(), 4);
    assert!(in_bounds_neighbours(&b, &GridCell::new(40, 40)).is_empty());
}

#[test]
fn go_to_target_steps_toward_the_target() {
    let items = vec![fruit(3, 3, 0)];
    let mut cell = GridCell::new(0, 0);
    let mut target = Some(3);
    assert_eq!(GoToTarget.go(&items, &mut cell, &mut target), Status::Running);
    assert_eq!(cell, GridCell::new(1, 0));
    assert_eq!(target, Some(3));
}

#[test]
fn go_to_target_succeeds_on_arrival() {
    let items = vec![fruit(3, 3, 0)];
    let mut cell = GridCell::new(3, 0);
    let mut target = Some(3);
    assert_eq!(GoToTarget.go(&items, &mut cell, &mut target), Status::Success);
    assert_eq!(target, None);
}

#[test]
fn go_to_consumed_target_succeeds_without_moving() {
    let items = vec![fruit(4, 0, 5)];
    let mut cell = GridCell::new(0, 0);
    let mut target = Some(3);
    assert_eq!(GoToTarget.go(&items, &mut cell, &mut target), Status::Success);
    assert_eq!(target, None);
    assert_eq!(cell, GridCell::new(0, 0));
    let mut none = None;
    assert_eq!(GoToTarget.go(&items, &mut cell, &mut none), Status::Success);
}

#[test]
fn pick_up_takes_everything_on_the_cell() {
    let mut items = vec![fruit(1, 1, 1), coin(2, 1, 1, 3), fruit(3, 0, 1), fruit(4, 1, 1), coin(5, 1, 1, 4)];
    let mut h = Hunger::new(10);
    for _ in 0..7 {
        h.decay();
    }
    let mut hunger = Some(h);
    let mut points = Points::new(10);
    pick_up(&GridCell::new(1, 1), &mut hunger, &mut points, &mut items);
    assert_eq!(items, vec![fruit(3, 0, 1)]);
    assert_eq!(hunger.unwrap().remaining(), 7);
    assert_eq!(points.current(), 7);
}

#[test]
fn pick_up_leaves_fruit_to_agents_without_hunger() {
    let mut items = vec![fruit(1, 1, 1), coin(2, 1, 1, 30)];
    let mut hunger = None;
    let mut points = Points::new(10);
    pick_up(&GridCell::new(1, 1), &mut hunger, &mut points, &mut items);
    assert_eq!(items, vec![fruit(1, 1, 1)]);
    assert_eq!(points.current(), 10);
    assert!(hunger.is_none());
}

#[test]
fn count_of_kind_counts_one_kind() {
    let items = vec![fruit(1, 1, 1), coin(2, 1, 1, 3), fruit(3, 0, 1)];
    assert_eq!(count_of_kind(&items, TargetKind::Fruit), 2);
    assert_eq!(count_of_kind(&items, TargetKind::Coins), 1);
    assert_eq!(count_of_kind(&vec![], TargetKind::Coins), 0);
}
