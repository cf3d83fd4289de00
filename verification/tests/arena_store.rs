use cathedral::arena::{Arena, Kind};
use cathedral::geometry::Shape;

fn sq(x: i64, y: i64, size: i64) -> Shape {
    Shape { x, y, size }
}

#[test]
fn spawn_assigns_fresh_ids() {
    let mut a = Arena::new();
    let i1 = a.spawn(Kind::Faller, sq(0, 0, 1_000), 50, 1);
    let i2 = a.spawn(Kind::Bullet, sq(0, 0, 1_000), 50, 2);
    assert_ne!(i1, i2);
    assert_eq!(a.len(), 2);
    assert_eq!(a.get(0).id, i1);
    assert_eq!(a.get(1).id, i2);
}

#[test]
fn despawn_removes_exactly_the_id() {
    let mut a = Arena::new();
    let i1 = a.spawn(Kind::Faller, sq(0, 0, 1_000), 50, 1);
    let i2 = a.spawn(Kind::Bullet, sq(5_000, 0, 1_000), 50, 2);
    a.despawn(i1);
    assert_eq!(a.len(), 1);
    assert!(!a.contains_id(i1));
    assert!(a.contains_id(i2));
}

#[test]
fn despawn_twice_is_idempotent() {
    let mut a = Arena::new();
    let i1 = a.spawn(Kind::Faller, sq(0, 0, 1_000), 50, 1);
    let i2 = a.spawn(Kind::Bullet, sq(5_000, 0, 1_000), 50, 2);
    a.despawn(i1);
    let len_once = a.len();
    a.despawn(i1);
    // No error, and no second decrement of the entity count.
    assert_eq!(a.len(), len_once);
    assert_eq!(a.len(), 1);
    assert!(a.contains_id(i2));
}

#[test]
fn despawn_unknown_id_is_a_no_op() {
    let mut a = Arena::new();
    a.spawn(Kind::Player, sq(0, 0, 32_000), 200, 0);
    a.despawn(12345);
    assert_eq!(a.len(), 1);
}

#[test]
fn ids_are_not_reused_after_clear() {
    let mut a = Arena::new();
    let i1 = a.spawn(Kind::Faller, sq(0, 0, 1_000), 50, 1);
    a.clear();
    assert_eq!(a.len(), 0);
    let i2 = a.spawn(Kind::Faller, sq(0, 0, 1_000), 50, 1);
    assert_ne!(i1, i2);
}

#[test]
fn of_kind_filters_in_order() {
    let mut a = Arena::new();
    let p = a.spawn(Kind::Player, sq(0, 0, 32_000), 200, 0);
    let f1 = a.spawn(Kind::Faller, sq(1_000, 0, 16_000), 50, 1);
    let b = a.spawn(Kind::Bullet, sq(2_000, 0, 5_000), 400, 2);
    let f2 = a.spawn(Kind::Faller, sq(3_000, 0, 16_000), 60, 1);
    let fallers = a.of_kind(Kind::Faller);
    assert_eq!(fallers.len(), 2);
    assert_eq!(fallers[0].id, f1);
    assert_eq!(fallers[1].id, f2);
    let players = a.of_kind(Kind::Player);
    assert_eq!(players.len(), 1);
    assert_eq!(players[0].id, p);
    let bullets = a.of_kind(Kind::Bullet);
    assert_eq!(bullets.len(), 1);
    assert_eq!(bullets[0].id, b);
}

#[test]
fn find_kind_returns_first_index() {
    let mut a = Arena::new();
    a.spawn(Kind::Faller, sq(0, 0, 16_000), 50, 1);
    a.spawn(Kind::Player, sq(0, 0, 32_000), 200, 0);
    assert_eq!(a.find_kind(Kind::Player), Some(1));
    assert_eq!(a.find_kind(Kind::Faller), Some(0));
    assert_eq!(a.find_kind(Kind::Bullet), None);
}
