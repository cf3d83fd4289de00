use cathedral::arena::{Arena, Kind};
use cathedral::geometry::Shape;
use cathedral::input::{KeyInput, KeySet};
use cathedral::score::ScoreTracker;
use cathedral::collide::check_collisions;
use cathedral::sim::{
    setup_player, spawn_shapes, step_frame, teardown, update_bullets, update_player,
    update_shapes, Context, BULLET_SIZE, PLAYER_SIZE, PLAYER_SPEED,
};
use cathedral::state::{CurrentState, GameState};
use cathedral::units::{Screen, Time};

fn sq(x: i64, y: i64, size: i64) -> Shape {
    Shape { x, y, size }
}

fn no_keys() -> KeyInput {
    KeyInput::default()
}

fn pressed(fire: bool, escape: bool) -> KeyInput {
    let mut k = KeyInput::default();
    k.pressed.fire = fire;
    k.pressed.escape = escape;
    k
}

fn screen_800x600() -> Screen {
    Screen { width: 800_000, height: 600_000 }
}

fn tick(ms: i64) -> Time {
    Time { dt: ms, fps: 60 }
}

fn settled(s: GameState) -> CurrentState {
    CurrentState { previous: s, current: s, next: s }
}

#[test]
fn spawned_fallers_stay_within_spawn_bounds() {
    let screen = screen_800x600();
    let mut arena = Arena::new();
    let mut seen = 0;
    for _ in 0..400 {
        let before = arena.len();
        spawn_shapes(&mut arena, &screen);
        if arena.len() > before {
            seen += 1;
            let e = arena.get(arena.len() - 1);
            assert_eq!(e.kind, Kind::Faller);
            assert!(16_000 <= e.shape.size && e.shape.size < 64_000);
            assert!(50 <= e.speed && e.speed < 150);
            assert_eq!(e.shape.y, -e.shape.size);
            // size/2 <= x <= width - size/2, stated over doubled values.
            assert!(e.shape.size <= 2 * e.shape.x);
            assert!(2 * e.shape.x <= 2 * screen.width - e.shape.size);
        }
    }
    // The trial succeeds roughly one frame in twenty; four hundred frames
    // give a vanishing chance of seeing none.
    assert!(seen > 0);
}

#[test]
fn narrow_screen_centers_spawned_fallers() {
    // A screen narrower than the smallest obstacle cannot satisfy the
    // spawn bounds; the spawner centers the obstacle instead of failing.
    let screen = Screen { width: 10_000, height: 600_000 };
    let mut arena = Arena::new();
    for _ in 0..400 {
        let before = arena.len();
        spawn_shapes(&mut arena, &screen);
        if arena.len() > before {
            let e = arena.get(arena.len() - 1);
            assert_eq!(e.shape.x, 5_000);
        }
    }
}

#[test]
fn fallers_fall_and_cross_the_bottom_edge_away() {
    let screen = screen_800x600();
    let mut arena = Arena::new();
    let keep = arena.spawn(Kind::Faller, sq(100_000, 100_000, 20_000), 100, 1);
    let out = arena.spawn(Kind::Faller, sq(200_000, 700_000, 20_000), 100, 1);
    update_shapes(&mut arena, &tick(10), &screen);
    // 100 units/s over 10 ms moves one unit (1000 milli-units) down.
    assert!(arena.contains_id(keep));
    assert_eq!(arena.get(0).shape.y, 101_000);
    assert!(!arena.contains_id(out));
    assert_eq!(arena.len(), 1);
}

#[test]
fn bullets_rise_and_cross_the_top_edge_away() {
    let mut arena = Arena::new();
    let keep = arena.spawn(Kind::Bullet, sq(100_000, 50_000, 5_000), 400, 2);
    let out = arena.spawn(Kind::Bullet, sq(200_000, 3_000, 5_000), 400, 2);
    update_bullets(&mut arena, &tick(10));
    assert!(arena.contains_id(keep));
    assert_eq!(arena.get(0).shape.y, 46_000);
    assert!(!arena.contains_id(out));
    assert_eq!(arena.len(), 1);
}

#[test]
fn player_moves_with_held_keys_and_clamps() {
    let screen = screen_800x600();
    let mut arena = Arena::new();
    arena.spawn(Kind::Player, sq(400_000, 300_000, PLAYER_SIZE), PLAYER_SPEED, 0);
    let mut keys = no_keys();
    keys.down.right = true;
    keys.down.up = true;
    update_player(&mut arena, &keys, &tick(16), &screen);
    let p = arena.get(0);
    // 200 units/s over 16 ms is 3.2 units.
    assert_eq!(p.shape.x, 403_200);
    assert_eq!(p.shape.y, 296_800);

    // Movement clamps to the screen edge.
    let mut arena2 = Arena::new();
    arena2.spawn(Kind::Player, sq(1_000, 1_000, PLAYER_SIZE), PLAYER_SPEED, 0);
    let mut left = no_keys();
    left.down.left = true;
    left.down.up = true;
    update_player(&mut arena2, &left, &tick(16), &screen);
    let p2 = arena2.get(0);
    assert_eq!(p2.shape.x, 0);
    assert_eq!(p2.shape.y, 0);
}

#[test]
fn fire_edge_spawns_a_bullet_at_the_player() {
    let screen = screen_800x600();
    let mut arena = Arena::new();
    arena.spawn(Kind::Player, sq(400_000, 300_000, PLAYER_SIZE), PLAYER_SPEED, 0);
    update_player(&mut arena, &pressed(true, false), &tick(0), &screen);
    assert_eq!(arena.len(), 2);
    let b = arena.get(1);
    assert_eq!(b.kind, Kind::Bullet);
    assert_eq!(b.shape.x, 400_000);
    assert_eq!(b.shape.y, 300_000);
    assert_eq!(b.shape.size, BULLET_SIZE);
    assert_eq!(b.speed, 2 * PLAYER_SPEED);

    // A held (not newly pressed) fire key does not spawn.
    let mut held = no_keys();
    held.down.fire = true;
    update_player(&mut arena, &held, &tick(0), &screen);
    assert_eq!(arena.len(), 2);
}

#[test]
fn bullet_consumes_obstacle_and_scores_its_size() {
    let mut arena = Arena::new();
    let player = arena.spawn(Kind::Player, sq(500_000, 500_000, PLAYER_SIZE), PLAYER_SPEED, 0);
    let faller = arena.spawn(Kind::Faller, sq(100_000, 50_000, 20_000), 100, 1);
    let bullet = arena.spawn(Kind::Bullet, sq(100_000, 55_000, BULLET_SIZE), 400, 2);
    let mut score = ScoreTracker::new(0);
    let mut state = settled(GameState::Playing);
    check_collisions(&mut arena, &mut score, &mut state);
    assert!(!arena.contains_id(faller));
    assert!(!arena.contains_id(bullet));
    assert!(arena.contains_id(player));
    assert_eq!(arena.len(), 1);
    assert_eq!(score.score, 20);
    assert_eq!(score.high_score, 20);
    // No player hit: no transition requested.
    assert_eq!(state.next, GameState::Playing);
}

#[test]
fn two_bullets_cannot_consume_one_obstacle_twice() {
    let mut arena = Arena::new();
    arena.spawn(Kind::Player, sq(500_000, 500_000, PLAYER_SIZE), PLAYER_SPEED, 0);
    let faller = arena.spawn(Kind::Faller, sq(100_000, 50_000, 20_000), 100, 1);
    let b1 = arena.spawn(Kind::Bullet, sq(100_000, 55_000, BULLET_SIZE), 400, 2);
    let b2 = arena.spawn(Kind::Bullet, sq(100_000, 45_000, BULLET_SIZE), 400, 2);
    let mut score = ScoreTracker::new(0);
    let mut state = settled(GameState::Playing);
    check_collisions(&mut arena, &mut score, &mut state);
    // The obstacle is consumed once; the second bullet flies on.
    assert!(!arena.contains_id(faller));
    assert!(!arena.contains_id(b1));
    assert!(arena.contains_id(b2));
    assert_eq!(score.score, 20);
}

#[test]
fn obstacle_hitting_player_requests_game_over() {
    let mut arena = Arena::new();
    let player = arena.spawn(Kind::Player, sq(400_000, 300_000, PLAYER_SIZE), PLAYER_SPEED, 0);
    let faller = arena.spawn(Kind::Faller, sq(405_000, 305_000, 20_000), 100, 1);
    let mut score = ScoreTracker::new(7);
    let mut state = settled(GameState::Playing);
    check_collisions(&mut arena, &mut score, &mut state);
    assert!(!arena.contains_id(faller));
    assert!(arena.contains_id(player));
    assert_eq!(state.next, GameState::GameOver);
    assert_eq!(score.score, 0);
}

#[test]
fn setup_and_teardown_manage_the_player() {
    let screen = screen_800x600();
    let mut arena = Arena::new();
    setup_player(&mut arena, &screen);
    assert_eq!(arena.len(), 1);
    let p = arena.get(0);
    assert_eq!(p.kind, Kind::Player);
    assert_eq!(p.shape.x, 400_000);
    assert_eq!(p.shape.y, 300_000);
    assert_eq!(p.shape.size, PLAYER_SIZE);
    assert_eq!(p.speed, PLAYER_SPEED);
    teardown(&mut arena);
    assert_eq!(arena.len(), 0);
}

#[test]
fn menu_fire_starts_a_run_and_spawns_the_player() {
    let screen = screen_800x600();
    let time = tick(16);
    let mut ctx = Context::new(0);
    let fx = step_frame(&mut ctx, &pressed(true, false), &screen, &time);
    assert!(!fx.exit_requested);
    assert_eq!(ctx.state.previous, GameState::MainMenu);
    assert_eq!(ctx.state.current, GameState::Playing);
    assert_eq!(ctx.arena.len(), 0);

    // The first frame of play spawns the player at the screen center.
    let fx2 = step_frame(&mut ctx, &no_keys(), &screen, &time);
    assert!(!fx2.exit_requested);
    assert_eq!(ctx.state.previous, GameState::Playing);
    assert_eq!(ctx.state.current, GameState::Playing);
    assert_eq!(ctx.arena.len(), 1);
    assert_eq!(ctx.arena.get(0).kind, Kind::Player);
    assert_eq!(ctx.score.score, 0);
}

#[test]
fn menu_escape_requests_exit_and_changes_nothing() {
    let screen = screen_800x600();
    let time = tick(16);
    let mut ctx = Context::new(3);
    let fx = step_frame(&mut ctx, &pressed(true, true), &screen, &time);
    assert!(fx.exit_requested);
    assert_eq!(ctx.state, settled(GameState::MainMenu));
    assert_eq!(ctx.score.high_score, 3);
}

#[test]
fn escape_during_play_pauses_and_clears_the_arena() {
    let screen = screen_800x600();
    let time = tick(16);
    let mut ctx = Context::new(0);
    step_frame(&mut ctx, &pressed(true, false), &screen, &time);
    step_frame(&mut ctx, &no_keys(), &screen, &time);
    assert_eq!(ctx.state.current, GameState::Playing);
    step_frame(&mut ctx, &pressed(false, true), &screen, &time);
    assert_eq!(ctx.state.current, GameState::Paused);
    assert_eq!(ctx.arena.len(), 0);

    // The first paused frame only settles the state; input is read again
    // from the next frame on. Fire then resumes play, and the frame after
    // that respawns the player.
    step_frame(&mut ctx, &no_keys(), &screen, &time);
    step_frame(&mut ctx, &pressed(true, false), &screen, &time);
    assert_eq!(ctx.state.current, GameState::Playing);
    assert_eq!(ctx.state.previous, GameState::Paused);
    step_frame(&mut ctx, &no_keys(), &screen, &time);
    assert_eq!(ctx.arena.len(), 1);
}

#[test]
fn game_over_flow_persists_the_high_score() {
    let screen = screen_800x600();
    let time = tick(16);
    // A run in progress with an obstacle on top of the player.
    let mut arena = Arena::new();
    arena.spawn(Kind::Player, sq(400_000, 300_000, PLAYER_SIZE), PLAYER_SPEED, 0);
    arena.spawn(Kind::Faller, sq(400_000, 300_000, 20_000), 100, 1);
    let mut score = ScoreTracker::new(0);
    score.add_points(30);
    let mut ctx = Context { arena, state: settled(GameState::Playing), score };

    let fx = step_frame(&mut ctx, &no_keys(), &screen, &time);
    assert!(!fx.persist_high_score);
    assert_eq!(ctx.state.previous, GameState::Playing);
    assert_eq!(ctx.state.current, GameState::GameOver);
    assert_eq!(ctx.arena.len(), 0);

    // The first game-over frame reports the tied-or-beaten high score.
    let fx2 = step_frame(&mut ctx, &no_keys(), &screen, &time);
    assert!(fx2.persist_high_score);
    assert_eq!(ctx.score.high_score, 30);

    // Fire returns to the menu.
    let fx3 = step_frame(&mut ctx, &pressed(true, false), &screen, &time);
    assert!(!fx3.persist_high_score);
    assert_eq!(ctx.state.current, GameState::MainMenu);
}

#[test]
fn high_score_is_monotone_across_frames() {
    let screen = screen_800x600();
    let time = tick(16);
    let mut ctx = Context::new(12);
    let inputs = [
        pressed(true, false),
        no_keys(),
        no_keys(),
        pressed(false, true),
        pressed(true, false),
        no_keys(),
        no_keys(),
        no_keys(),
    ];
    let mut best = ctx.score.high_score;
    for keys in inputs {
        step_frame(&mut ctx, &keys, &screen, &time);
        assert!(ctx.score.high_score >= best);
        best = ctx.score.high_score;
    }
}

#[test]
fn play_keeps_exactly_one_player() {
    let screen = screen_800x600();
    let time = tick(16);
    let mut ctx = Context::new(0);
    step_frame(&mut ctx, &pressed(true, false), &screen, &time);
    step_frame(&mut ctx, &no_keys(), &screen, &time);
    for _ in 0..120 {
        step_frame(&mut ctx, &no_keys(), &screen, &time);
        if ctx.state.current != GameState::Playing {
            break;
        }
        assert_eq!(ctx.arena.of_kind(Kind::Player).len(), 1);
    }
}

#[test]
fn kinematics_on_an_empty_arena_do_nothing() {
    let screen = screen_800x600();
    let mut arena = Arena::new();
    update_shapes(&mut arena, &tick(16), &screen);
    update_bullets(&mut arena, &tick(16));
    assert_eq!(arena.len(), 0);
}

#[test]
fn kinematics_only_move_their_own_kind() {
    let screen = screen_800x600();
    let mut arena = Arena::new();
    arena.spawn(Kind::Player, sq(400_000, 300_000, PLAYER_SIZE), PLAYER_SPEED, 0);
    arena.spawn(Kind::Faller, sq(100_000, 100_000, 20_000), 100, 1);
    arena.spawn(Kind::Bullet, sq(200_000, 200_000, 5_000), 400, 2);
    update_shapes(&mut arena, &tick(10), &screen);
    // Only the obstacle fell.
    assert_eq!(arena.get(0).shape.y, 300_000);
    assert_eq!(arena.get(1).shape.y, 101_000);
    assert_eq!(arena.get(2).shape.y, 200_000);
    update_bullets(&mut arena, &tick(10));
    // Only the bullet rose.
    assert_eq!(arena.get(0).shape.y, 300_000);
    assert_eq!(arena.get(1).shape.y, 101_000);
    assert_eq!(arena.get(2).shape.y, 196_000);
}

#[test]
fn collision_pass_with_player_alone_changes_nothing() {
    let mut arena = Arena::new();
    arena.spawn(Kind::Player, sq(400_000, 300_000, PLAYER_SIZE), PLAYER_SPEED, 0);
    let mut score = ScoreTracker::new(9);
    let mut state = settled(GameState::Playing);
    check_collisions(&mut arena, &mut score, &mut state);
    assert_eq!(arena.len(), 1);
    assert_eq!(score.score, 0);
    assert_eq!(score.high_score, 9);
    assert_eq!(state.next, GameState::Playing);
}

#[test]
fn simultaneous_hits_all_despawn_with_one_game_over() {
    let mut arena = Arena::new();
    let player = arena.spawn(Kind::Player, sq(400_000, 300_000, PLAYER_SIZE), PLAYER_SPEED, 0);
    let f1 = arena.spawn(Kind::Faller, sq(395_000, 300_000, 20_000), 100, 1);
    let f2 = arena.spawn(Kind::Faller, sq(405_000, 300_000, 20_000), 100, 1);
    let mut score = ScoreTracker::new(0);
    let mut state = settled(GameState::Playing);
    check_collisions(&mut arena, &mut score, &mut state);
    assert!(!arena.contains_id(f1));
    assert!(!arena.contains_id(f2));
    assert!(arena.contains_id(player));
    assert_eq!(state.next, GameState::GameOver);
}
