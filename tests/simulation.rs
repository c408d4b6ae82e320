use behave_demo::behaviours::MovementBehaviour;
use behave_demo::grid::{GridBounds, GridCell};
use behave_demo::items::{count_of_kind, Fruit, Resource, TargetKind};
use behave_demo::schedule::Schedule;
use behave_demo::simulation::{Command, Simulation, Spawner};

fn sim(w: usize, h: usize) -> Simulation {
    Simulation::new(GridBounds::from_size(w, h), 42)
}

fn xs_over(s: &mut Simulation, ticks: usize) -> Vec<isize> {
    let mut xs = vec![];
    for _ in 0..ticks {
        s.movement_tick();
        xs.push(s.agents()[0].cell.x);
    }
    xs
}

#[test]
fn left_right_walk_oscillates_between_the_turning_points() {
    let mut s = sim(10, 10);
    s.set_behaviour(MovementBehaviour::WalkLeftRight);
    assert_eq!(s.spawn_agent(), Some(0));
    let xs = xs_over(&mut s, 30);
    let mut expected: Vec<isize> = vec![-1, -2, -3, -4, -5];
    for _ in 0..2 {
        expected.extend(-4..=4);
        expected.extend((-5..=3).rev());
    }
    expected.truncate(30);
    assert_eq!(xs, expected);
    assert_eq!(xs.iter().min(), Some(&-5));
    assert_eq!(xs.iter().max(), Some(&4));
    assert!(s.agents().iter().all(|a| a.cell.y == 0));
}

#[test]
fn left_right_walk_installed_after_spawning() {
    let mut s = sim(4, 4);
    s.spawn_agent();
    s.set_behaviour(MovementBehaviour::WalkLeftRight);
    assert_eq!(xs_over(&mut s, 8), vec![-1, -2, -1, 0, 1, 0, -1, -2]);
}

#[test]
fn naive_walk_reverses_at_the_edges() {
    let mut s = sim(4, 4);
    s.spawn_agent();
    s.handle(Command::SetBehaviour(MovementBehaviour::WalkLeftRightNaive));
    assert_eq!(xs_over(&mut s, 8), vec![-1, -2, -1, 0, 1, 0, -1, -2]);
}

#[test]
fn clockwise_walk_goes_round_the_edge() {
    let mut s = sim(4, 4);
    s.spawn_agent();
    s.set_behaviour(MovementBehaviour::WalkClockwise);
    let mut cells = vec![];
    for _ in 0..8 {
        s.movement_tick();
        let c = s.agents()[0].cell;
        cells.push((c.x, c.y));
    }
    assert_eq!(cells, vec![(-1, 0), (-2, 0), (-2, 1), (-1, 1), (0, 1), (1, 1), (1, 0), (1, -1)]);
}

#[test]
fn clearing_behaviours_stops_movement() {
    let mut s = sim(10, 10);
    s.spawn_agent();
    s.set_behaviour(MovementBehaviour::WalkLeftRight);
    s.movement_tick();
    s.handle(Command::ClearBehaviours);
    s.movement_tick();
    s.movement_tick();
    assert_eq!(s.agents()[0].cell, GridCell::new(-1, 0));
    assert!(s.agents()[0].movement.is_none());
    assert!(s.agents()[0].naive_walk.is_none());
}

#[test]
fn spawner_adds_one_item_per_tick_up_to_its_target() {
    let mut s = sim(10, 10);
    s.add_spawner(TargetKind::Fruit, 3);
    let mut counts = vec![];
    for _ in 0..5 {
        s.movement_tick();
        counts.push(s.items().len());
    }
    assert_eq!(counts, vec![1, 2, 3, 3, 3]);
    let b = s.bounds();
    assert!(s.items().iter().all(|i| b.contains(&i.cell)));
    assert_eq!(count_of_kind(s.items(), TargetKind::Fruit), 3);
}

#[test]
fn second_spawner_of_a_kind_is_ignored() {
    let mut s = sim(10, 10);
    s.handle(Command::RequestSpawner(TargetKind::Coins));
    s.handle(Command::RequestSpawner(TargetKind::Coins));
    s.add_spawner(TargetKind::Coins, 1);
    s.request_spawner(TargetKind::Fruit);
    assert_eq!(
        s.spawners(),
        &vec![
            Spawner { kind: TargetKind::Coins, target_count: 10 },
            Spawner { kind: TargetKind::Fruit, target_count: 20 },
        ]
    );
    s.movement_tick();
    assert_eq!(count_of_kind(s.items(), TargetKind::Coins), 1);
    assert_eq!(count_of_kind(s.items(), TargetKind::Fruit), 1);
}

#[test]
fn find_target_then_go_to_the_nearest_fruit() {
    let mut s = sim(20, 20);
    s.set_behaviour(MovementBehaviour::MoveToClosestFruit);
    s.spawn_agent();
    s.enable_hunger();
    let far = s.add_item(GridCell::new(0, 5), Resource::Fruit(Fruit::new(2))).unwrap();
    let near = s.add_item(GridCell::new(3, 0), Resource::Fruit(Fruit::new(2))).unwrap();
    s.movement_tick();
    assert_eq!(s.agents()[0].target, Some(near));
    assert_eq!(s.agents()[0].cell, GridCell::new(0, 0));
    for _ in 0..3 {
        s.movement_tick();
    }
    assert_eq!(s.agents()[0].cell, GridCell::new(3, 0));
    assert_eq!(s.items().len(), 1);
    assert_eq!(s.items()[0].id, far);
    s.movement_tick();
    assert_eq!(s.agents()[0].target, None);
}

#[test]
fn hunger_ticks_count_down_and_starving_agents_leave() {
    let mut s = sim(10, 10);
    s.spawn_agent();
    s.handle(Command::EnableHunger);
    s.spawn_agent();
    assert!(s.hunger_enabled());
    for _ in 0..3 {
        s.hunger_tick();
    }
    assert!(s.agents().iter().all(|a| a.hunger.unwrap().remaining() == 7));
    for _ in 0..6 {
        s.hunger_tick();
    }
    assert_eq!(s.agents().len(), 2);
    s.hunger_tick();
    assert_eq!(s.agents().len(), 0);
}

#[test]
fn agents_without_hunger_never_starve() {
    let mut s = sim(10, 10);
    s.spawn_agent();
    for _ in 0..20 {
        s.hunger_tick();
    }
    assert_eq!(s.agents().len(), 1);
    assert!(s.agents()[0].hunger.is_none());
}

#[test]
fn enabling_hunger_twice_changes_nothing() {
    let mut s = sim(10, 10);
    s.spawn_agent();
    s.enable_hunger();
    s.hunger_tick();
    s.enable_hunger();
    assert_eq!(s.agents()[0].hunger.unwrap().remaining(), 9);
}

#[test]
fn eating_on_a_fruit_refills_hunger() {
    let mut s = sim(10, 10);
    s.spawn_agent();
    s.enable_hunger();
    for _ in 0..5 {
        s.hunger_tick();
    }
    s.add_item(GridCell::new(0, 0), Resource::Fruit(Fruit::new(2)));
    s.movement_tick();
    assert_eq!(s.agents()[0].hunger.unwrap().remaining(), 7);
    assert!(s.items().is_empty());
}

#[test]
fn hunger_based_agent_goes_for_coins_when_fed() {
    let mut s = sim(20, 20);
    s.spawn_agent();
    s.enable_hunger();
    let coin = s.add_item(GridCell::new(2, 0), Resource::Coin(behave_demo::items::Coin::new(2))).unwrap();
    s.add_item(GridCell::new(1, 0), Resource::Fruit(Fruit::new(2)));
    s.handle(Command::SetBehaviour(MovementBehaviour::HungerBased));
    s.movement_tick();
    assert_eq!(s.agents()[0].target, Some(coin));
}

#[test]
fn spawned_agents_start_on_the_origin() {
    let mut s = sim(10, 10);
    assert_eq!(s.spawn_agent(), Some(0));
    s.handle(Command::SpawnAgent);
    assert_eq!(s.agents().len(), 2);
    assert_eq!(s.agents()[1].id, 1);
    assert!(s.agents().iter().all(|a| a.cell == GridCell::new(0, 0) && a.points.current() == 0));
}

#[test]
fn advance_time_runs_the_admitted_sweeps() {
    let mut s = sim(10, 10);
    s.spawn_agent();
    s.enable_hunger();
    s.set_behaviour(MovementBehaviour::WalkLeftRight);
    let mut schedule = Schedule::new();
    assert_eq!(s.advance_time(&mut schedule, 500_000_000), (false, false));
    assert_eq!(s.agents()[0].cell.x, 0);
    assert_eq!(s.advance_time(&mut schedule, 100_000_000), (true, false));
    assert_eq!(s.agents()[0].cell.x, -1);
    assert_eq!(s.advance_time(&mut schedule, 2_400_000_000), (true, true));
    assert_eq!(s.agents()[0].cell.x, -2);
    assert_eq!(s.agents()[0].hunger.unwrap().remaining(), 9);
}

#[test]
fn resized_grid_changes_where_walks_turn() {
    let mut s = sim(10, 10);
    s.spawn_agent();
    s.set_behaviour(MovementBehaviour::WalkLeftRight);
    s.set_bounds(GridBounds::from_size(4, 4));
    assert_eq!(xs_over(&mut s, 3), vec![-1, -2, -1]);
}

#[test]
fn spawned_items_hold_the_spawner_values_and_fresh_identities() {
    let mut s = sim(10, 10);
    s.spawn_agent();
    s.add_spawner(TargetKind::Fruit, 2);
    s.add_spawner(TargetKind::Coins, 1);
    s.movement_tick();
    s.movement_tick();
    let mut seen = vec![];
    for item in s.items().iter() {
        match item.resource {
            Resource::Fruit(f) => assert_eq!(f.nutritional_value, 2),
            Resource::Coin(c) => assert_eq!(c.monetary_value, 2),
        }
        seen.push(item.id);
    }
    // identities continue after the agent's, in spawning order, unless an item was
    // picked up on the agent's cell
    assert!(seen.windows(2).all(|w| w[0] < w[1]));
    assert!(seen.iter().all(|id| (1..=3).contains(id)));
    assert!(count_of_kind(s.items(), TargetKind::Coins) <= 1);
}
