use cathedral::score::{points_for_size, ScoreTracker};

#[test]
fn points_round_half_up_to_units() {
    assert_eq!(points_for_size(16_000), 16);
    assert_eq!(points_for_size(16_499), 16);
    assert_eq!(points_for_size(16_500), 17);
    assert_eq!(points_for_size(63_999), 64);
    assert_eq!(points_for_size(1), 0);
}

#[test]
fn add_points_raises_score_and_high_score() {
    let mut t = ScoreTracker::new(10);
    t.add_points(4);
    assert_eq!(t.score, 4);
    assert_eq!(t.high_score, 10);
    t.add_points(7);
    assert_eq!(t.score, 11);
    assert_eq!(t.high_score, 11);
}

#[test]
fn score_saturates_at_the_cap() {
    let mut t = ScoreTracker::new(0);
    t.add_points(u32::MAX - 1);
    t.add_points(5);
    assert_eq!(t.score, u32::MAX);
    assert_eq!(t.high_score, u32::MAX);
}

#[test]
fn reset_keeps_high_score() {
    let mut t = ScoreTracker::new(0);
    t.add_points(42);
    t.reset();
    assert_eq!(t.score, 0);
    assert_eq!(t.high_score, 42);
}

#[test]
fn high_score_never_decreases() {
    let mut t = ScoreTracker::new(5);
    let mut best = t.high_score;
    let moves: [u32; 6] = [0, 3, 10, 0, 1, 100];
    for m in moves {
        t.add_points(m);
        assert!(t.high_score >= best);
        best = t.high_score;
    }
    t.reset();
    assert!(t.high_score >= best);
}
