use behave_demo::hunger::{Hunger, DEFAULT_HUNGER_CAPACITY};
use behave_demo::points::{Points, DEFAULT_POINTS_GOAL};

#[test]
fn eating_from_full_stays_clamped() {
    let mut h = Hunger::new(10);
    h.eat(3);
    h.eat(3);
    assert_eq!(h.remaining(), 10);
    assert_eq!(h.capacity(), 10);
}

#[test]
fn three_hunger_ticks_from_full() {
    let mut h = Hunger::new(10);
    assert!(!h.decay());
    assert!(!h.decay());
    assert!(!h.decay());
    assert_eq!(h.remaining(), 7);
}

#[test]
fn eating_refills_up_to_capacity() {
    let mut h = Hunger::new(10);
    for _ in 0..6 {
        h.decay();
    }
    assert_eq!(h.remaining(), 4);
    h.eat(2);
    assert_eq!(h.remaining(), 6);
    h.eat(usize::MAX);
    assert_eq!(h.remaining(), 10);
}

#[test]
fn hunger_starves_on_reaching_zero() {
    let mut h = Hunger::new(2);
    assert!(!h.decay());
    assert!(h.decay());
    assert_eq!(h.remaining(), 0);
    assert!(h.decay());
    assert_eq!(h.remaining(), 0);
}

#[test]
fn hunger_of_zero_capacity_starves_at_once() {
    let mut h = Hunger::new(0);
    assert!(h.decay());
}

#[test]
fn remaining_never_exceeds_capacity() {
    let mut h = Hunger::new(DEFAULT_HUNGER_CAPACITY);
    for i in 0..50usize {
        if i % 3 == 0 {
            h.eat(i);
        } else {
            h.decay();
        }
        assert!(h.remaining() <= h.capacity());
    }
}

#[test]
fn hunger_check_compares_the_fraction_left() {
    let mut h = Hunger::new(10);
    for _ in 0..6 {
        h.decay();
    }
    assert!(!h.is_below(2, 5));
    h.decay();
    assert!(h.is_below(2, 5));
    assert!(!Hunger::new(0).is_below(2, 5));
}

#[test]
fn points_start_at_zero_and_clamp_to_goal() {
    let mut p = Points::new(DEFAULT_POINTS_GOAL);
    assert_eq!(p.current(), 0);
    p.earn(2);
    p.earn(3);
    assert_eq!(p.current(), 5);
    p.earn(usize::MAX);
    assert_eq!(p.current(), 10);
    assert_eq!(p.goal(), 10);
}
