use crate::arena::{
    all_wf, count_kind, count_kind_upto, first_kind, has_id, ids_distinct, lemma_count_kind_push,
    lemma_count_kind_update, lemma_count_kind_zero, lemma_first_kind_is, lemma_matches_origin_wf,
    matches_origin, Arena, Entity, Kind,
};
use crate::collide::{bullet_pass, check_collisions, keep_upto, player_pass};
use crate::geometry::Shape;
use crate::input::{Key, KeyInput};
use crate::rng::gen_range_i64;
use crate::score::{spec_saturate_u32, ScoreTracker};
use crate::state::{CurrentState, GameState};
use crate::units::{Screen, Time, DT_LIMIT, SCREEN_LIMIT, SPEED_LIMIT};
use vstd::prelude::*;

verus! {

/// Movement speed of the player, in units per second.
pub const PLAYER_SPEED: i64 = 200;

/// Edge length of the player's hitbox, in milli-units.
pub const PLAYER_SIZE: i64 = 32_000;

/// Edge length of a bullet's hitbox, in milli-units.
pub const BULLET_SIZE: i64 = 5_000;

/// Smallest obstacle edge length, in milli-units (inclusive).
pub const FALLER_SIZE_MIN: i64 = 16_000;

/// Largest obstacle edge length, in milli-units (exclusive).
pub const FALLER_SIZE_MAX: i64 = 64_000;

/// Smallest obstacle speed, in units per second (inclusive).
pub const FALLER_SPEED_MIN: i64 = 50;

/// Largest obstacle speed, in units per second (exclusive).
pub const FALLER_SPEED_MAX: i64 = 150;

/// Obstacle spawn chance per frame: a roll from 0 to `SPAWN_ROLL_MAX` at or
/// above `SPAWN_THRESHOLD` spawns one obstacle.
pub const SPAWN_THRESHOLD: i64 = 95;

/// Largest value of the per-frame spawn roll.
pub const SPAWN_ROLL_MAX: i64 = 99;

/// Sprite identifier handed to the renderer for the player.
pub const PLAYER_SPRITE: u32 = 0;

/// Sprite identifier handed to the renderer for obstacles.
pub const FALLER_SPRITE: u32 = 1;

/// Sprite identifier handed to the renderer for bullets.
pub const BULLET_SPRITE: u32 = 2;

/// `v` clamped into `[lo, hi]`.
pub open spec fn spec_clamp(v: int, lo: int, hi: int) -> int {
    if v < lo {
        lo
    } else if v > hi {
        hi
    } else {
        v
    }
}

/// Clamp `v` into `[lo, hi]`.
pub fn clamp_i64(v: i64, lo: i64, hi: i64) -> (r: i64)
    requires
        lo <= hi,
    ensures
        r == spec_clamp(v as int, lo as int, hi as int),
{
    if v < lo {
        lo
    } else if v > hi {
        hi
    } else {
        v
    }
}

/// Main-menu logic: escape asks the platform to terminate, and otherwise a
/// fire press starts a run. When the handler asks for termination it
/// touches nothing.
pub fn update_main_menu(keys: &KeyInput, state: &mut CurrentState) -> (exit: bool)
    ensures
        exit == keys.pressed.escape,
        final(state).previous == old(state).previous,
        final(state).current == old(state).current,
        exit ==> *final(state) == *old(state),
        !exit ==> final(state).next == if keys.pressed.fire {
            GameState::Playing
        } else {
            old(state).next
        },
{
    if keys.is_pressed(Key::Escape) {
        return true;
    }
    if keys.is_pressed(Key::Fire) {
        state.next = GameState::Playing;
    }
    false
}

/// Pause logic: escape asks the platform to terminate, fire resumes play.
pub fn update_paused(keys: &KeyInput, state: &mut CurrentState) -> (exit: bool)
    ensures
        exit == keys.pressed.escape,
        final(state).previous == old(state).previous,
        final(state).current == old(state).current,
        exit ==> *final(state) == *old(state),
        !exit ==> final(state).next == if keys.pressed.fire {
            GameState::Playing
        } else {
            old(state).next
        },
{
    if keys.is_pressed(Key::Escape) {
        return true;
    }
    if keys.is_pressed(Key::Fire) {
        state.next = GameState::Playing;
    }
    false
}

/// Game-over logic: a fire press returns to the main menu.
pub fn update_game_over(keys: &KeyInput, state: &mut CurrentState)
    ensures
        final(state).previous == old(state).previous,
        final(state).current == old(state).current,
        final(state).next == if keys.pressed.fire {
            GameState::MainMenu
        } else {
            old(state).next
        },
{
    if keys.is_pressed(Key::Fire) {
        state.next = GameState::MainMenu;
    }
}

/// In-play menu logic: an escape press pauses the game.
pub fn update_playing(keys: &KeyInput, state: &mut CurrentState)
    ensures
        final(state).previous == old(state).previous,
        final(state).current == old(state).current,
        final(state).next == if keys.pressed.escape {
            GameState::Paused
        } else {
            old(state).next
        },
{
    if keys.is_pressed(Key::Escape) {
        state.next = GameState::Paused;
    }
}

/// The player entity as spawned on entering play: at the screen center,
/// with the fixed player size and speed.
pub open spec fn spec_player_entity(screen: Screen, id: u64) -> Entity {
    Entity {
        id,
        kind: Kind::Player,
        shape: Shape {
            x: (screen.width / 2) as i64,
            y: (screen.height / 2) as i64,
            size: PLAYER_SIZE,
        },
        speed: PLAYER_SPEED,
        sprite: PLAYER_SPRITE,
    }
}

/// Transition-in hook for play: spawn the player at the screen center.
pub fn setup_player(arena: &mut Arena, screen: &Screen)
    requires
        old(arena).wf(),
        screen.wf(),
        old(arena).next_id < u64::MAX,
    ensures
        final(arena).wf(),
        final(arena)@ == old(arena)@.push(spec_player_entity(*screen, old(arena).next_id)),
        final(arena).next_id == old(arena).next_id + 1,
        count_kind(final(arena)@, Kind::Player) == count_kind(old(arena)@, Kind::Player) + 1,
{
    let shape = Shape { x: screen.width / 2, y: screen.height / 2, size: PLAYER_SIZE };
    arena.spawn(Kind::Player, shape, PLAYER_SPEED, PLAYER_SPRITE);
    proof {
        lemma_count_kind_push(old(arena)@, spec_player_entity(*screen, old(arena).next_id),
            Kind::Player);
    }
}

/// Transition-out hook: remove every live entity. Used as an implicit reset
/// when play ends or is abandoned.
pub fn teardown(arena: &mut Arena)
    ensures
        final(arena).wf(),
        final(arena)@ == Seq::<Entity>::empty(),
        final(arena).next_id == old(arena).next_id,
{
    arena.clear();
}

/// What holds of a freshly spawned obstacle: the fixed spawn ranges, a
/// start just above the visible area, and a horizontal position whose
/// hitbox stays within the screen whenever the screen is wide enough to
/// allow it; on a narrower screen the obstacle is centered instead.
pub open spec fn spawned_faller_ok(e: Entity, screen: Screen, id: u64) -> bool {
    &&& e.id == id
    &&& e.kind == Kind::Faller
    &&& FALLER_SIZE_MIN <= e.shape.size < FALLER_SIZE_MAX
    &&& FALLER_SPEED_MIN <= e.speed < FALLER_SPEED_MAX
    &&& e.shape.y == -e.shape.size
    &&& e.sprite == FALLER_SPRITE
    &&& if 2 * ((e.shape.size + 1) / 2) <= screen.width {
        e.shape.size <= 2 * e.shape.x && 2 * e.shape.x <= 2 * screen.width - e.shape.size
    } else {
        e.shape.x == screen.width / 2
    }
}

/// What one frame's spawn dice decided: either nothing, or one obstacle
/// obeying `spawned_faller_ok` for the identifier it was given.
pub open spec fn spawn_opt_ok(sp: Option<Entity>, screen: Screen, id: u64) -> bool {
    match sp {
        Option::None => true,
        Option::Some(e) => spawned_faller_ok(e, screen, id),
    }
}

/// The arena sequence after the spawn outcome `sp` is applied.
pub open spec fn arena_after_spawn(s0: Seq<Entity>, sp: Option<Entity>) -> Seq<Entity> {
    match sp {
        Option::None => s0,
        Option::Some(e) => s0.push(e),
    }
}

/// The identifier counter after the spawn outcome `sp` is applied.
pub open spec fn next_id_after_spawn(id: u64, sp: Option<Entity>) -> int {
    match sp {
        Option::None => id as int,
        Option::Some(_) => id + 1,
    }
}

/// Obstacle spawner: once per frame while playing, a roll of the dice
/// decides whether one obstacle appears, with random size, speed and
/// horizontal position. The returned ghost value names the outcome; any
/// spawned obstacle obeys `spawned_faller_ok`, whatever the dice said.
pub fn spawn_shapes(arena: &mut Arena, screen: &Screen) -> (sp: Ghost<Option<Entity>>)
    requires
        old(arena).wf(),
        screen.wf(),
        old(arena).next_id < u64::MAX,
    ensures
        final(arena).wf(),
        spawn_opt_ok(sp@, *screen, old(arena).next_id),
        final(arena)@ == arena_after_spawn(old(arena)@, sp@),
        final(arena).next_id == next_id_after_spawn(old(arena).next_id, sp@),
        count_kind(final(arena)@, Kind::Player) == count_kind(old(arena)@, Kind::Player),
        count_kind(final(arena)@, Kind::Bullet) == count_kind(old(arena)@, Kind::Bullet),
{
    let roll = gen_range_i64(0, SPAWN_ROLL_MAX);
    if roll >= SPAWN_THRESHOLD {
        let size = gen_range_i64(FALLER_SIZE_MIN, FALLER_SIZE_MAX - 1);
        let speed = gen_range_i64(FALLER_SPEED_MIN, FALLER_SPEED_MAX - 1);
        let half = (size + 1) / 2;
        let x: i64 = if 2 * half <= screen.width {
            gen_range_i64(half, screen.width - half)
        } else {
            screen.width / 2
        };
        let shape = Shape { x, y: -size, size };
        let id = arena.spawn(Kind::Faller, shape, speed, FALLER_SPRITE);
        let e = Ghost(Entity { id, kind: Kind::Faller, shape, speed, sprite: FALLER_SPRITE });
        proof {
            assert(arena@ == old(arena)@.push(e@));
            lemma_count_kind_push(old(arena)@, e@, Kind::Player);
            lemma_count_kind_push(old(arena)@, e@, Kind::Bullet);
        }
        Ghost(Option::Some(e@))
    } else {
        Ghost(Option::None)
    }
}

/// An obstacle after one frame of falling: `speed * dt` milli-units
/// further down.
pub open spec fn moved_faller(e: Entity, dt: int) -> Entity {
    Entity {
        id: e.id,
        kind: e.kind,
        shape: Shape {
            x: e.shape.x,
            y: (e.shape.y + e.speed * dt) as i64,
            size: e.shape.size,
        },
        speed: e.speed,
        sprite: e.sprite,
    }
}

/// A bullet after one frame of rising: `speed * dt` milli-units further up.
pub open spec fn moved_bullet(e: Entity, dt: int) -> Entity {
    Entity {
        id: e.id,
        kind: e.kind,
        shape: Shape {
            x: e.shape.x,
            y: (e.shape.y - e.speed * dt) as i64,
            size: e.shape.size,
        },
        speed: e.speed,
        sprite: e.sprite,
    }
}

/// The first `k` entities after the obstacle kinematics pass: obstacles
/// move down and vanish once past the bottom edge `h`; everything else is
/// untouched.
pub open spec fn fallers_step_upto(s: Seq<Entity>, dt: int, h: int, k: int) -> Seq<Entity>
    decreases k,
{
    if k <= 0 {
        Seq::empty()
    } else {
        let r = fallers_step_upto(s, dt, h, k - 1);
        let e = s[k - 1];
        if e.kind == Kind::Faller {
            let m = moved_faller(e, dt);
            if m.shape.y > h {
                r
            } else {
                r.push(m)
            }
        } else {
            r.push(e)
        }
    }
}

/// The whole arena after the obstacle kinematics pass.
pub open spec fn fallers_step(s: Seq<Entity>, dt: int, h: int) -> Seq<Entity> {
    fallers_step_upto(s, dt, h, s.len() as int)
}

/// The first `k` entities after the bullet kinematics pass: bullets move up
/// and vanish once past the top edge; everything else is untouched.
pub open spec fn bullets_step_upto(s: Seq<Entity>, dt: int, k: int) -> Seq<Entity>
    decreases k,
{
    if k <= 0 {
        Seq::empty()
    } else {
        let r = bullets_step_upto(s, dt, k - 1);
        let e = s[k - 1];
        if e.kind == Kind::Bullet {
            let m = moved_bullet(e, dt);
            if m.shape.y < 0 {
                r
            } else {
                r.push(m)
            }
        } else {
            r.push(e)
        }
    }
}

/// The whole arena after the bullet kinematics pass.
pub open spec fn bullets_step(s: Seq<Entity>, dt: int) -> Seq<Entity> {
    bullets_step_upto(s, dt, s.len() as int)
}

proof fn lemma_fallers_step_upto_props(s: Seq<Entity>, dt: int, h: int, k: int)
    requires
        0 <= k <= s.len(),
        0 <= dt <= DT_LIMIT,
        0 <= h <= SCREEN_LIMIT,
    ensures
        matches_origin(fallers_step_upto(s, dt, h, k), s),
        all_wf(s) ==> all_wf(fallers_step_upto(s, dt, h, k)),
        all_wf(s) ==> forall|a: int|
            #![trigger fallers_step_upto(s, dt, h, k)[a]]
            0 <= a < fallers_step_upto(s, dt, h, k).len() && fallers_step_upto(s, dt, h, k)[a].kind
                == Kind::Faller ==> fallers_step_upto(s, dt, h, k)[a].shape.y <= h,
        ids_distinct(s) ==> ids_distinct(fallers_step_upto(s, dt, h, k)),
        count_kind(fallers_step_upto(s, dt, h, k), Kind::Player) == count_kind_upto(
            s,
            Kind::Player,
            k,
        ),
        count_kind(fallers_step_upto(s, dt, h, k), Kind::Bullet) == count_kind_upto(
            s,
            Kind::Bullet,
            k,
        ),
        forall|a: int|
            #![trigger fallers_step_upto(s, dt, h, k)[a]]
            0 <= a < fallers_step_upto(s, dt, h, k).len() ==> exists|i: int|
                #![trigger s[i]]
                0 <= i < k && fallers_step_upto(s, dt, h, k)[a].id == s[i].id,
    decreases k,
{
    if k <= 0 {
    } else {
        lemma_fallers_step_upto_props(s, dt, h, k - 1);
        let r0 = fallers_step_upto(s, dt, h, k - 1);
        let r = fallers_step_upto(s, dt, h, k);
        let e = s[k - 1];
        assert forall|a: int|
            #![trigger r[a]]
            0 <= a < r.len() implies exists|i: int| #![trigger s[i]] 0 <= i < k && r[a].id
            == s[i].id by {
            if a < r0.len() {
                let i = choose|i: int| #![trigger s[i]] 0 <= i < k - 1 && r0[a].id == s[i].id;
                assert(0 <= i < k && r[a].id == s[i].id);
            } else {
                assert(r[a].id == s[k - 1].id);
            }
        }
        assert forall|a: int|
            #![trigger r[a]]
            0 <= a < r.len() implies exists|i: int|
            #![trigger s[i]]
            {
                &&& 0 <= i < s.len()
                &&& r[a].id == s[i].id
                &&& r[a].kind == s[i].kind
                &&& r[a].speed == s[i].speed
                &&& r[a].shape.size == s[i].shape.size
            } by {
            if a < r0.len() {
                assert(matches_origin(r0, s));
                assert(r0[a] == r[a]);
            } else {
                assert(r[a].id == s[k - 1].id && r[a].kind == s[k - 1].kind && r[a].speed == s[k
                    - 1].speed && r[a].shape.size == s[k - 1].shape.size);
            }
        }
        if all_wf(s) {
            assert(e.wf());
            assert(0 <= e.speed * dt <= SPEED_LIMIT * DT_LIMIT) by (nonlinear_arith)
                requires
                    0 <= e.speed <= SPEED_LIMIT,
                    0 <= dt <= DT_LIMIT,
            ;
            assert forall|a: int| 0 <= a < r.len() implies (#[trigger] r[a]).wf() by {
                if a < r0.len() {
                    assert(r0[a].wf());
                }
            }
        }
        if ids_distinct(s) {
            assert forall|a: int, b: int| 0 <= a < b < r.len() implies (#[trigger] r[a]).id
                != (#[trigger] r[b]).id by {
                if b < r0.len() {
                } else if b == r0.len() && r.len() == r0.len() + 1 {
                    let i = choose|i: int| #![trigger s[i]] 0 <= i < k - 1 && r0[a].id == s[i].id;
                    assert(r[b].id == s[k - 1].id);
                    assert(s[i].id != s[k - 1].id);
                }
            }
        }
        if e.kind == Kind::Faller && moved_faller(e, dt).shape.y <= h {
            lemma_count_kind_push(r0, moved_faller(e, dt), Kind::Player);
            lemma_count_kind_push(r0, moved_faller(e, dt), Kind::Bullet);
        } else if e.kind != Kind::Faller {
            lemma_count_kind_push(r0, e, Kind::Player);
            lemma_count_kind_push(r0, e, Kind::Bullet);
        }
    }
}

proof fn lemma_bullets_step_upto_props(s: Seq<Entity>, dt: int, k: int)
    requires
        0 <= k <= s.len(),
        0 <= dt <= DT_LIMIT,
    ensures
        matches_origin(bullets_step_upto(s, dt, k), s),
        all_wf(s) ==> all_wf(bullets_step_upto(s, dt, k)),
        all_wf(s) ==> forall|a: int|
            #![trigger bullets_step_upto(s, dt, k)[a]]
            0 <= a < bullets_step_upto(s, dt, k).len() && bullets_step_upto(s, dt, k)[a].kind
                == Kind::Bullet ==> bullets_step_upto(s, dt, k)[a].shape.y >= 0,
        ids_distinct(s) ==> ids_distinct(bullets_step_upto(s, dt, k)),
        count_kind(bullets_step_upto(s, dt, k), Kind::Player) == count_kind_upto(
            s,
            Kind::Player,
            k,
        ),
        count_kind(bullets_step_upto(s, dt, k), Kind::Faller) == count_kind_upto(
            s,
            Kind::Faller,
            k,
        ),
        forall|a: int|
            #![trigger bullets_step_upto(s, dt, k)[a]]
            0 <= a < bullets_step_upto(s, dt, k).len() ==> exists|i: int|
                #![trigger s[i]]
                0 <= i < k && bullets_step_upto(s, dt, k)[a].id == s[i].id,
    decreases k,
{
    if k <= 0 {
    } else {
        lemma_bullets_step_upto_props(s, dt, k - 1);
        let r0 = bullets_step_upto(s, dt, k - 1);
        let r = bullets_step_upto(s, dt, k);
        let e = s[k - 1];
        assert forall|a: int|
            #![trigger r[a]]
            0 <= a < r.len() implies exists|i: int| #![trigger s[i]] 0 <= i < k && r[a].id
            == s[i].id by {
            if a < r0.len() {
                let i = choose|i: int| #![trigger s[i]] 0 <= i < k - 1 && r0[a].id == s[i].id;
                assert(0 <= i < k && r[a].id == s[i].id);
            } else {
                assert(r[a].id == s[k - 1].id);
            }
        }
        assert forall|a: int|
            #![trigger r[a]]
            0 <= a < r.len() implies exists|i: int|
            #![trigger s[i]]
            {
                &&& 0 <= i < s.len()
                &&& r[a].id == s[i].id
                &&& r[a].kind == s[i].kind
                &&& r[a].speed == s[i].speed
                &&& r[a].shape.size == s[i].shape.size
            } by {
            if a < r0.len() {
                assert(matches_origin(r0, s));
                assert(r0[a] == r[a]);
            } else {
                assert(r[a].id == s[k - 1].id && r[a].kind == s[k - 1].kind && r[a].speed == s[k
                    - 1].speed && r[a].shape.size == s[k - 1].shape.size);
            }
        }
        if all_wf(s) {
            assert(e.wf());
            assert(0 <= e.speed * dt <= SPEED_LIMIT * DT_LIMIT) by (nonlinear_arith)
                requires
                    0 <= e.speed <= SPEED_LIMIT,
                    0 <= dt <= DT_LIMIT,
            ;
            assert forall|a: int| 0 <= a < r.len() implies (#[trigger] r[a]).wf() by {
                if a < r0.len() {
                    assert(r0[a].wf());
                }
            }
        }
        if ids_distinct(s) {
            assert forall|a: int, b: int| 0 <= a < b < r.len() implies (#[trigger] r[a]).id
                != (#[trigger] r[b]).id by {
                if b < r0.len() {
                } else if b == r0.len() && r.len() == r0.len() + 1 {
                    let i = choose|i: int| #![trigger s[i]] 0 <= i < k - 1 && r0[a].id == s[i].id;
                    assert(r[b].id == s[k - 1].id);
                    assert(s[i].id != s[k - 1].id);
                }
            }
        }
        if e.kind == Kind::Bullet && moved_bullet(e, dt).shape.y >= 0 {
            lemma_count_kind_push(r0, moved_bullet(e, dt), Kind::Player);
            lemma_count_kind_push(r0, moved_bullet(e, dt), Kind::Faller);
        } else if e.kind != Kind::Bullet {
            lemma_count_kind_push(r0, e, Kind::Player);
            lemma_count_kind_push(r0, e, Kind::Faller);
        }
    }
}

/// Obstacle kinematics: every obstacle falls by `speed * dt`, and any
/// obstacle past the bottom of the screen is removed in the same pass, so
/// afterwards no live obstacle sits below the bottom edge.
pub fn update_shapes(arena: &mut Arena, time: &Time, screen: &Screen)
    requires
        old(arena).wf(),
        time.wf(),
        screen.wf(),
    ensures
        final(arena).wf(),
        final(arena)@ == fallers_step(old(arena)@, time.dt as int, screen.height as int),
        final(arena).next_id == old(arena).next_id,
        matches_origin(final(arena)@, old(arena)@),
        count_kind(final(arena)@, Kind::Player) == count_kind(old(arena)@, Kind::Player),
        count_kind(final(arena)@, Kind::Bullet) == count_kind(old(arena)@, Kind::Bullet),
        forall|a: int|
            #![trigger final(arena)@[a]]
            0 <= a < final(arena)@.len() && final(arena)@[a].kind == Kind::Faller
                ==> final(arena)@[a].shape.y <= screen.height,
{
    let ghost s = arena@;
    let n = arena.entities.len();
    let mut out: Vec<Entity> = Vec::new();
    let mut k: usize = 0;
    while k < n
        invariant
            k <= n,
            n == s.len(),
            s == arena@,
            arena.wf(),
            time.wf(),
            screen.wf(),
            out@ == fallers_step_upto(s, time.dt as int, screen.height as int, k as int),
        decreases n - k,
    {
        let e = arena.entities[k];
        if e.kind == Kind::Faller {
            assert(e.wf());
            proof {
                assert(0 <= e.speed * time.dt <= SPEED_LIMIT * DT_LIMIT) by (nonlinear_arith)
                    requires
                        0 <= e.speed <= SPEED_LIMIT,
                        0 <= time.dt <= DT_LIMIT,
                ;
            }
            let y2 = e.shape.y + e.speed * time.dt;
            let m = Entity {
                id: e.id,
                kind: e.kind,
                shape: Shape { x: e.shape.x, y: y2, size: e.shape.size },
                speed: e.speed,
                sprite: e.sprite,
            };
            proof {
                assert(m == moved_faller(e, time.dt as int));
            }
            if y2 <= screen.height {
                out.push(m);
            }
        } else {
            out.push(e);
        }
        k = k + 1;
    }
    proof {
        lemma_fallers_step_upto_props(s, time.dt as int, screen.height as int, n as int);
        lemma_matches_origin_wf(out@, s, arena.next_id);
    }
    arena.entities = out;
}

/// Bullet kinematics: every bullet rises by `speed * dt`, and any bullet
/// past the top of the screen is removed in the same pass, so afterwards no
/// live bullet sits above the top edge.
pub fn update_bullets(arena: &mut Arena, time: &Time)
    requires
        old(arena).wf(),
        time.wf(),
    ensures
        final(arena).wf(),
        final(arena)@ == bullets_step(old(arena)@, time.dt as int),
        final(arena).next_id == old(arena).next_id,
        matches_origin(final(arena)@, old(arena)@),
        count_kind(final(arena)@, Kind::Player) == count_kind(old(arena)@, Kind::Player),
        count_kind(final(arena)@, Kind::Faller) == count_kind(old(arena)@, Kind::Faller),
        forall|a: int|
            #![trigger final(arena)@[a]]
            0 <= a < final(arena)@.len() && final(arena)@[a].kind == Kind::Bullet
                ==> final(arena)@[a].shape.y >= 0,
{
    let ghost s = arena@;
    let n = arena.entities.len();
    let mut out: Vec<Entity> = Vec::new();
    let mut k: usize = 0;
    while k < n
        invariant
            k <= n,
            n == s.len(),
            s == arena@,
            arena.wf(),
            time.wf(),
            out@ == bullets_step_upto(s, time.dt as int, k as int),
        decreases n - k,
    {
        let e = arena.entities[k];
        if e.kind == Kind::Bullet {
            assert(e.wf());
            proof {
                assert(0 <= e.speed * time.dt <= SPEED_LIMIT * DT_LIMIT) by (nonlinear_arith)
                    requires
                        0 <= e.speed <= SPEED_LIMIT,
                        0 <= time.dt <= DT_LIMIT,
                ;
            }
            let y2 = e.shape.y - e.speed * time.dt;
            let m = Entity {
                id: e.id,
                kind: e.kind,
                shape: Shape { x: e.shape.x, y: y2, size: e.shape.size },
                speed: e.speed,
                sprite: e.sprite,
            };
            proof {
                assert(m == moved_bullet(e, time.dt as int));
            }
            if y2 >= 0 {
                out.push(m);
            }
        } else {
            out.push(e);
        }
        k = k + 1;
    }
    proof {
        lemma_bullets_step_upto_props(s, time.dt as int, n as int);
        lemma_matches_origin_wf(out@, s, arena.next_id);
    }
    arena.entities = out;
}

/// The player after one frame of input-driven movement: each held
/// direction key shifts it by `speed * dt`, and the result is clamped to
/// the screen.
pub open spec fn spec_moved_player(p: Entity, keys: KeyInput, dt: int, screen: Screen) -> Entity {
    let dx = (if keys.down.right {
        p.speed * dt
    } else {
        0
    }) - (if keys.down.left {
        p.speed * dt
    } else {
        0
    });
    let dy = (if keys.down.down {
        p.speed * dt
    } else {
        0
    }) - (if keys.down.up {
        p.speed * dt
    } else {
        0
    });
    Entity {
        id: p.id,
        kind: p.kind,
        shape: Shape {
            x: spec_clamp(p.shape.x + dx, 0, screen.width as int) as i64,
            y: spec_clamp(p.shape.y + dy, 0, screen.height as int) as i64,
            size: p.shape.size,
        },
        speed: p.speed,
        sprite: p.sprite,
    }
}

/// The bullet fired from player `p`: it starts at the player's center and
/// rises at twice the player's speed.
pub open spec fn spec_bullet_entity(p: Entity, id: u64) -> Entity {
    Entity {
        id,
        kind: Kind::Bullet,
        shape: Shape { x: p.shape.x, y: p.shape.y, size: BULLET_SIZE },
        speed: (2 * p.speed) as i64,
        sprite: BULLET_SPRITE,
    }
}

/// Player control: four-directional movement from the held keys at
/// `speed * dt`, clamped to the screen, and on a fire edge a bullet spawned
/// at the player's (moved) position. The first entity of player kind is the
/// player; the count precondition makes it the only one.
#[verifier::rlimit(60)]
pub fn update_player(arena: &mut Arena, keys: &KeyInput, time: &Time, screen: &Screen)
    requires
        old(arena).wf(),
        time.wf(),
        screen.wf(),
        count_kind(old(arena)@, Kind::Player) == 1,
        forall|i: int|
            0 <= i < old(arena)@.len() && (#[trigger] old(arena)@[i]).kind == Kind::Player ==> 2
                * old(arena)@[i].speed <= SPEED_LIMIT,
        old(arena).next_id < u64::MAX,
    ensures
        final(arena).wf(),
        count_kind(final(arena)@, Kind::Player) == 1,
        count_kind(final(arena)@, Kind::Faller) == count_kind(old(arena)@, Kind::Faller),
        count_kind(final(arena)@, Kind::Bullet) == count_kind(old(arena)@, Kind::Bullet)
            + if keys.pressed.fire {
            1int
        } else {
            0int
        },
        final(arena).next_id == old(arena).next_id + if keys.pressed.fire {
            1int
        } else {
            0int
        },
        ({
            let s = old(arena)@;
            let i = first_kind(s, Kind::Player);
            let m = spec_moved_player(s[i], *keys, time.dt as int, *screen);
            &&& 0 <= i < s.len()
            &&& s[i].kind == Kind::Player
            &&& if keys.pressed.fire {
                final(arena)@ == s.update(i, m).push(spec_bullet_entity(m, old(arena).next_id))
            } else {
                final(arena)@ == s.update(i, m)
            }
        }),
{
    let ghost s0 = arena@;
    let opt = arena.find_kind(Kind::Player);
    match opt {
        None => {
            proof {
                lemma_count_kind_zero(s0, Kind::Player, s0.len() as int);
                assert(false);
            }
        },
        Some(i) => {
            let p = arena.get(i);
            assert(p.wf());
            proof {
                assert(0 <= p.speed * time.dt <= SPEED_LIMIT * DT_LIMIT) by (nonlinear_arith)
                    requires
                        0 <= p.speed <= SPEED_LIMIT,
                        0 <= time.dt <= DT_LIMIT,
                ;
            }
            let step = p.speed * time.dt;
            let mut x2 = p.shape.x;
            if keys.is_down(Key::Left) {
                x2 = x2 - step;
            }
            if keys.is_down(Key::Right) {
                x2 = x2 + step;
            }
            let mut y2 = p.shape.y;
            if keys.is_down(Key::Up) {
                y2 = y2 - step;
            }
            if keys.is_down(Key::Down) {
                y2 = y2 + step;
            }
            let x3 = clamp_i64(x2, 0, screen.width);
            let y3 = clamp_i64(y2, 0, screen.height);
            let m = Entity {
                id: p.id,
                kind: p.kind,
                shape: Shape { x: x3, y: y3, size: p.shape.size },
                speed: p.speed,
                sprite: p.sprite,
            };
            proof {
                lemma_first_kind_is(s0, Kind::Player, i as int, 0);
                assert(m == spec_moved_player(s0[i as int], *keys, time.dt as int, *screen));
            }
            self_update(arena, i, m);
            proof {
                lemma_count_kind_update(s0, i as int, m, Kind::Player);
                lemma_count_kind_update(s0, i as int, m, Kind::Faller);
                lemma_count_kind_update(s0, i as int, m, Kind::Bullet);
            }
            if keys.is_pressed(Key::Fire) {
                let bspeed = 2 * p.speed;
                let bshape = Shape { x: x3, y: y3, size: BULLET_SIZE };
                arena.spawn(Kind::Bullet, bshape, bspeed, BULLET_SPRITE);
                proof {
                    let s1 = s0.update(i as int, m);
                    let b = spec_bullet_entity(m, old(arena).next_id);
                    assert(arena@ == s1.push(b));
                    lemma_count_kind_push(s1, b, Kind::Player);
                    lemma_count_kind_push(s1, b, Kind::Faller);
                    lemma_count_kind_push(s1, b, Kind::Bullet);
                }
            }
        },
    }
}

/// Replace the entity at `i` by one carrying the same identifier, kind and
/// speed; the arena invariants survive because nothing identifying changed.
fn self_update(arena: &mut Arena, i: usize, m: Entity)
    requires
        old(arena).wf(),
        i < old(arena)@.len(),
        m.wf(),
        m.id == old(arena)@[i as int].id,
        m.kind == old(arena)@[i as int].kind,
    ensures
        final(arena).wf(),
        final(arena)@ == old(arena)@.update(i as int, m),
        final(arena).next_id == old(arena).next_id,
{
    arena.entities[i] = m;
    proof {
        let s0 = old(arena)@;
        let s1 = arena@;
        assert forall|a: int| 0 <= a < s1.len() implies (#[trigger] s1[a]).wf() && s1[a].id
            < arena.next_id by {
            if a != i {
                assert(s1[a] == s0[a]);
            }
        }
        assert forall|a: int, b: int| 0 <= a < b < s1.len() implies (#[trigger] s1[a]).id
            != (#[trigger] s1[b]).id by {
            assert(s1[a].id == s0[a].id && s1[b].id == s0[b].id);
        }
    }
}

/// Every player-kind entity moves at the fixed player speed. The
/// simulation spawns the player that way and never retags an entity, so
/// this holds of the whole arena frame after frame.
pub open spec fn players_speed_ok(s: Seq<Entity>) -> bool {
    forall|i: int|
        0 <= i < s.len() && (#[trigger] s[i]).kind == Kind::Player ==> s[i].speed == PLAYER_SPEED
}

proof fn lemma_players_speed_from_origin(t: Seq<Entity>, s: Seq<Entity>)
    requires
        matches_origin(t, s),
        players_speed_ok(s),
    ensures
        players_speed_ok(t),
{
    assert forall|a: int|
        0 <= a < t.len() && (#[trigger] t[a]).kind == Kind::Player implies t[a].speed
        == PLAYER_SPEED by {
        let i = choose|i: int|
            #![trigger s[i]]
            {
                &&& 0 <= i < s.len()
                &&& t[a].id == s[i].id
                &&& t[a].kind == s[i].kind
                &&& t[a].speed == s[i].speed
                &&& t[a].shape.size == s[i].shape.size
            };
    }
}

/// Everything the simulation owns across frames: the entity store, the
/// state triple and the score.
pub struct Context {
    pub arena: Arena,
    pub state: CurrentState,
    pub score: ScoreTracker,
}

/// What one frame asks of the platform.
#[derive(Clone, Copy, PartialEq, Eq, Structural, Debug)]
pub struct FrameEffects {
    /// The user asked to terminate (escape on the menu or pause screen).
    pub exit_requested: bool,
    /// The game-over screen was just entered with a run that tied or beat
    /// the persisted high score: the platform should persist it now.
    pub persist_high_score: bool,
}

impl Context {
    /// The between-frames invariant. After each commit the triple points at
    /// itself (`next == current`); the arena is empty outside of play and
    /// on the very first frame of play, and holds exactly one player once
    /// play is underway.
    pub open spec fn wf(self) -> bool {
        &&& self.arena.wf()
        &&& self.score.wf()
        &&& self.state.next == self.state.current
        &&& (self.state.current != GameState::Playing ==> self.arena@.len() == 0)
        &&& (self.state.current == GameState::Playing && self.state.previous
            != GameState::Playing ==> self.arena@.len() == 0)
        &&& (self.state.current == GameState::Playing && self.state.previous
            == GameState::Playing ==> count_kind(self.arena@, Kind::Player) == 1)
        &&& players_speed_ok(self.arena@)
    }

    /// A fresh simulation on the main menu, continuing from a persisted
    /// high score (zero when none was found).
    pub fn new(high_score: u32) -> (c: Context)
        ensures
            c.wf(),
            c.state == CurrentState::initial(),
            c.score.score == 0,
            c.score.high_score == high_score,
            c.arena@ == Seq::<Entity>::empty(),
    {
        Context {
            arena: Arena::new(),
            state: CurrentState::default(),
            score: ScoreTracker::new(high_score),
        }
    }
}

/// The arena after the in-play pipeline of one frame, short of collision
/// resolution, as a function of the pre-frame arena and the frame's random
/// spawn outcome `sp`: spawn, player control and fire, obstacle kinematics,
/// bullet kinematics.
pub open spec fn spec_playing_frame_arena(
    s0: Seq<Entity>,
    next_id0: u64,
    sp: Option<Entity>,
    keys: KeyInput,
    screen: Screen,
    dt: int,
) -> Seq<Entity> {
    let s1 = arena_after_spawn(s0, sp);
    let i = first_kind(s1, Kind::Player);
    let m = spec_moved_player(s1[i], keys, dt, screen);
    let s2 = if keys.pressed.fire {
        s1.update(i, m).push(
            spec_bullet_entity(m, next_id_after_spawn(next_id0, sp) as u64),
        )
    } else {
        s1.update(i, m)
    };
    let s3 = fallers_step(s2, dt, screen.height as int);
    bullets_step(s3, dt)
}

/// One whole settled in-play frame short of the commit, as a function of
/// the pre-frame simulation and the frame's random spawn outcome: the
/// arena after all passes, the score after collision resolution, and the
/// requested next state (game over on a player hit, else paused on escape,
/// else unchanged).
pub open spec fn spec_playing_frame(
    s0: Seq<Entity>,
    next_id0: u64,
    sc0: ScoreTracker,
    next0: GameState,
    sp: Option<Entity>,
    keys: KeyInput,
    screen: Screen,
    dt: int,
) -> (Seq<Entity>, ScoreTracker, GameState) {
    let s4 = spec_playing_frame_arena(s0, next_id0, sp, keys, screen, dt);
    let pi = first_kind(s4, Kind::Player);
    let bp = bullet_pass(s4, 0, Set::<int>::empty(), 0);
    let pp = player_pass(s4, s4[pi].shape, bp.0, 0);
    let score1 = spec_saturate_u32(sc0.score + bp.1);
    let high1 = if score1 > sc0.high_score {
        score1
    } else {
        sc0.high_score as int
    };
    (
        keep_upto(s4, pp.0, s4.len() as int),
        ScoreTracker { score: score1 as u32, high_score: high1 as u32 },
        if pp.1 {
            GameState::GameOver
        } else if keys.pressed.escape {
            GameState::Paused
        } else {
            next0
        },
    )
}

/// The fixed in-play system order for one frame: pause request, obstacle
/// spawn, player control and fire, obstacle and bullet kinematics with
/// boundary cleanup, then collision resolution against the moved
/// positions.
fn run_playing_systems(
    arena: &mut Arena,
    score: &mut ScoreTracker,
    state: &mut CurrentState,
    keys: &KeyInput,
    screen: &Screen,
    time: &Time,
) -> (sp: Ghost<Option<Entity>>)
    requires
        old(arena).wf(),
        old(score).wf(),
        count_kind(old(arena)@, Kind::Player) == 1,
        players_speed_ok(old(arena)@),
        screen.wf(),
        time.wf(),
        old(arena).next_id + 2 < u64::MAX,
    ensures
        final(arena).wf(),
        final(score).wf(),
        count_kind(final(arena)@, Kind::Player) == 1,
        players_speed_ok(final(arena)@),
        final(arena).next_id <= old(arena).next_id + 2,
        final(score).high_score >= old(score).high_score,
        final(state).previous == old(state).previous,
        final(state).current == old(state).current,
        keys.pressed.escape ==> final(state).next == GameState::Paused || final(state).next
            == GameState::GameOver,
        !keys.pressed.escape ==> final(state).next == old(state).next || final(state).next
            == GameState::GameOver,
        spawn_opt_ok(sp@, *screen, old(arena).next_id),
        ({
            let o = spec_playing_frame(
                old(arena)@,
                old(arena).next_id,
                *old(score),
                old(state).next,
                sp@,
                *keys,
                *screen,
                time.dt as int,
            );
            &&& final(arena)@ == o.0
            &&& *final(score) == o.1
            &&& final(state).next == o.2
        }),
        final(arena).next_id == next_id_after_spawn(old(arena).next_id, sp@) + if keys.pressed.fire {
            1int
        } else {
            0int
        },
{
    update_playing(keys, state);
    let ghost s0 = arena@;
    let gsp = spawn_shapes(arena, screen);
    proof {
        let s1 = arena@;
        assert forall|i: int|
            0 <= i < s1.len() && (#[trigger] s1[i]).kind == Kind::Player implies s1[i].speed
            == PLAYER_SPEED by {
            if i < s0.len() {
                assert(s1[i] == s0[i]);
            }
        }
        assert forall|i: int|
            0 <= i < s1.len() && (#[trigger] s1[i]).kind == Kind::Player implies 2 * s1[i].speed
            <= SPEED_LIMIT by {}
    }
    let ghost s1 = arena@;
    update_player(arena, keys, time, screen);
    proof {
        let s2 = arena@;
        let pi = first_kind(s1, Kind::Player);
        let m = spec_moved_player(s1[pi], *keys, time.dt as int, *screen);
        assert forall|i: int|
            0 <= i < s2.len() && (#[trigger] s2[i]).kind == Kind::Player implies s2[i].speed
            == PLAYER_SPEED by {
            if i < s1.len() {
                if i == pi {
                    assert(s2[i] == m);
                } else {
                    assert(s2[i] == s1[i]);
                }
            } else {
                assert(s2[i].kind == Kind::Bullet);
            }
        }
    }
    let ghost s2 = arena@;
    update_shapes(arena, time, screen);
    proof {
        lemma_players_speed_from_origin(arena@, s2);
    }
    let ghost s3 = arena@;
    update_bullets(arena, time);
    proof {
        lemma_players_speed_from_origin(arena@, s3);
    }
    let ghost s4 = arena@;
    check_collisions(arena, score, state);
    proof {
        lemma_players_speed_from_origin(arena@, s4);
        let dtg = time.dt as int;
        assert(s1 == arena_after_spawn(s0, gsp@));
        assert(s4 == spec_playing_frame_arena(s0, old(arena).next_id, gsp@, *keys, *screen, dtg));
        let o = spec_playing_frame(
            s0,
            old(arena).next_id,
            *old(score),
            old(state).next,
            gsp@,
            *keys,
            *screen,
            dtg,
        );
        assert(arena@ == o.0);
        assert(*score == o.1);
        assert(state.next == o.2);
    }
    gsp
}

/// The triple after a commit that moved from `prev` into `cur`.
pub open spec fn entered_from(prev: GameState, cur: GameState) -> CurrentState {
    CurrentState { previous: prev, current: cur, next: cur }
}

/// What one frame promises, relating the simulation before (`pre`) and
/// after (`post`) along with the returned effects. Only the frame's random
/// spawn outcome stays existentially quantified; everything else is
/// pinned.
pub open spec fn step_frame_post(
    pre: Context,
    post: Context,
    keys: KeyInput,
    screen: Screen,
    dt: int,
    fx: FrameEffects,
) -> bool {
    &&& post.wf()
    // The high score never goes down (and the rest of the score behavior is
    // fixed per state below).
    &&& post.score.high_score >= pre.score.high_score
    &&& post.arena.next_id <= pre.arena.next_id + 2
    // Escape on the menu or pause screen asks for termination and freezes
    // the simulation: a hard stop, not a transition.
    &&& fx.exit_requested == ((pre.state.spec_in_state(GameState::MainMenu)
        || pre.state.spec_in_state(GameState::Paused)) && keys.pressed.escape)
    &&& (fx.exit_requested ==> post == pre)
    // Settled menu: fire starts a run.
    &&& (pre.state.spec_in_state(GameState::MainMenu) && !keys.pressed.escape ==> {
        &&& post.arena@ == pre.arena@
        &&& post.arena.next_id == pre.arena.next_id
        &&& post.score == pre.score
        &&& post.state == (if keys.pressed.fire {
            entered_from(GameState::MainMenu, GameState::Playing)
        } else {
            pre.state
        })
    })
    // Settled pause: fire resumes the run.
    &&& (pre.state.spec_in_state(GameState::Paused) && !keys.pressed.escape ==> {
        &&& post.arena@ == pre.arena@
        &&& post.arena.next_id == pre.arena.next_id
        &&& post.score == pre.score
        &&& post.state == (if keys.pressed.fire {
            entered_from(GameState::Paused, GameState::Playing)
        } else {
            pre.state
        })
    })
    // Settled game over: fire returns to the menu.
    &&& (pre.state.spec_in_state(GameState::GameOver) ==> {
        &&& post.arena@ == pre.arena@
        &&& post.arena.next_id == pre.arena.next_id
        &&& post.score == pre.score
        &&& post.state == (if keys.pressed.fire {
            entered_from(GameState::GameOver, GameState::MainMenu)
        } else {
            pre.state
        })
    })
    // First frame of play: the player appears at the screen center, and a
    // run starting from the main menu starts from score zero.
    &&& (pre.state.spec_enter_state(GameState::Playing) ==> {
        &&& post.arena@ == pre.arena@.push(spec_player_entity(screen, pre.arena.next_id))
        &&& post.arena.next_id == pre.arena.next_id + 1
        &&& post.state == entered_from(GameState::Playing, GameState::Playing)
        &&& post.score.score == (if pre.state.previous == GameState::MainMenu {
            0int
        } else {
            pre.score.score as int
        })
        &&& post.score.high_score == pre.score.high_score
    })
    // First frame of any other state: nothing runs before the commit
    // settles the state.
    &&& (pre.state.spec_enter_state(GameState::Paused) || pre.state.spec_enter_state(
        GameState::GameOver,
    ) || pre.state.spec_enter_state(GameState::MainMenu) ==> {
        &&& post.arena@ == pre.arena@
        &&& post.arena.next_id == pre.arena.next_id
        &&& post.score == pre.score
        &&& post.state == pre.state.spec_commit()
    })
    // First frame of game over: ask the platform to persist a high score
    // that this run tied or beat.
    &&& fx.persist_high_score == (pre.state.spec_enter_state(GameState::GameOver)
        && pre.score.score >= pre.score.high_score)
    // Settled play: the whole in-play pipeline ran against this frame's
    // spawn outcome, then the leave hook and the commit. The spawn outcome
    // is the one thing the dice decide; everything that follows from it is
    // the composition of the published pass specifications.
    &&& (pre.state.spec_in_state(GameState::Playing) ==> {
        &&& post.state.previous == GameState::Playing
        &&& post.state.next == post.state.current
        &&& (post.state.current == GameState::Playing || post.state.current == GameState::Paused
            || post.state.current == GameState::GameOver)
        &&& (keys.pressed.escape ==> post.state.current != GameState::Playing)
        &&& (!keys.pressed.escape ==> post.state.current != GameState::Paused)
        &&& exists|sp: Option<Entity>|
            {
                let o = spec_playing_frame(
                    pre.arena@,
                    pre.arena.next_id,
                    pre.score,
                    pre.state.next,
                    sp,
                    keys,
                    screen,
                    dt,
                );
                &&& #[trigger] spawn_opt_ok(sp, screen, pre.arena.next_id)
                &&& post.score == o.1
                &&& post.state == entered_from(GameState::Playing, o.2)
                &&& post.arena@ == (if o.2 == GameState::Playing {
                    o.0
                } else {
                    Seq::<Entity>::empty()
                })
                &&& post.arena.next_id == next_id_after_spawn(pre.arena.next_id, sp)
                    + (if keys.pressed.fire {
                    1int
                } else {
                    0int
                })
            }
    })
}

/// One whole frame of the simulation, in the fixed order: the settled-state
/// menu, pause and game-over handlers; the enter-play hook (spawn the
/// player, resetting the score when the run starts from the main menu); the
/// in-play systems; the leave-play hook (tear the arena down); and strictly
/// last, the state commit, so that every system of this frame observed a
/// stable state triple.
pub fn step_frame(ctx: &mut Context, keys: &KeyInput, screen: &Screen, time: &Time) -> (fx: FrameEffects)
    requires
        old(ctx).wf(),
        screen.wf(),
        time.wf(),
        old(ctx).arena.next_id + 4 < u64::MAX,
    ensures
        step_frame_post(*old(ctx), *final(ctx), *keys, *screen, time.dt as int, fx),
{
    let ghost mut spawn_outcome: Option<Entity> = Option::None;
    if ctx.state.in_state(GameState::MainMenu) {
        let exit = update_main_menu(keys, &mut ctx.state);
        if exit {
            return FrameEffects { exit_requested: true, persist_high_score: false };
        }
    }
    if ctx.state.in_state(GameState::Paused) {
        let exit = update_paused(keys, &mut ctx.state);
        if exit {
            return FrameEffects { exit_requested: true, persist_high_score: false };
        }
    }
    if ctx.state.in_state(GameState::GameOver) {
        update_game_over(keys, &mut ctx.state);
    }
    if ctx.state.enter_state(GameState::Playing) {
        if ctx.state.previous == GameState::MainMenu {
            ctx.score.reset();
        }
        setup_player(&mut ctx.arena, screen);
    }
    let persist = ctx.state.enter_state(GameState::GameOver) && ctx.score.score
        >= ctx.score.high_score;
    if ctx.state.in_state(GameState::Playing) {
        let sp = run_playing_systems(
            &mut ctx.arena,
            &mut ctx.score,
            &mut ctx.state,
            keys,
            screen,
            time,
        );
        proof {
            spawn_outcome = sp@;
        }
    }
    if ctx.state.leave_state(GameState::Playing) {
        teardown(&mut ctx.arena);
    }
    ctx.state.update_states();
    proof {
        if old(ctx).state.spec_in_state(GameState::Playing) {
            let o = spec_playing_frame(
                old(ctx).arena@,
                old(ctx).arena.next_id,
                old(ctx).score,
                old(ctx).state.next,
                spawn_outcome,
                *keys,
                *screen,
                time.dt as int,
            );
            assert(spawn_opt_ok(spawn_outcome, *screen, old(ctx).arena.next_id));
            assert(ctx.score == o.1);
            assert(ctx.state == entered_from(GameState::Playing, o.2));
            assert(ctx.arena@ == (if o.2 == GameState::Playing {
                o.0
            } else {
                Seq::<Entity>::empty()
            }));
        }
    }
    FrameEffects { exit_requested: false, persist_high_score: persist }
}

proof fn lemma_faller_cleanup_upto(s: Seq<Entity>, dt: int, h: int, i: int, k: int)
    requires
        0 <= k <= s.len(),
        0 <= i < s.len(),
        s[i].kind == Kind::Faller,
        s[i].shape.y > h,
        0 <= dt <= DT_LIMIT,
        s[i].wf(),
        ids_distinct(s),
    ensures
        forall|a: int|
            0 <= a < fallers_step_upto(s, dt, h, k).len() ==> (#[trigger] fallers_step_upto(
                s,
                dt,
                h,
                k,
            )[a]).id != s[i].id,
    decreases k,
{
    if k > 0 {
        lemma_faller_cleanup_upto(s, dt, h, i, k - 1);
        let r0 = fallers_step_upto(s, dt, h, k - 1);
        let r = fallers_step_upto(s, dt, h, k);
        let e = s[k - 1];
        if k - 1 == i {
            assert(0 <= e.speed * dt <= SPEED_LIMIT * DT_LIMIT) by (nonlinear_arith)
                requires
                    0 <= e.speed <= SPEED_LIMIT,
                    0 <= dt <= DT_LIMIT,
            ;
            assert(moved_faller(e, dt).shape.y > h);
            assert(r == r0);
        } else {
            assert forall|a: int| 0 <= a < r.len() implies (#[trigger] r[a]).id != s[i].id by {
                if a < r0.len() {
                } else {
                    assert(r[a].id == s[k - 1].id);
                    assert(s[k - 1].id != s[i].id);
                }
            }
        }
    }
}

/// Boundary cleanup for obstacles: an obstacle already past the bottom
/// edge can only move further down, so after one obstacle kinematics pass
/// no entity with its identifier is left in the arena.
pub proof fn lemma_faller_boundary_cleanup(s: Seq<Entity>, dt: int, h: int, i: int)
    requires
        0 <= i < s.len(),
        s[i].kind == Kind::Faller,
        s[i].shape.y > h,
        0 <= dt <= DT_LIMIT,
        s[i].wf(),
        ids_distinct(s),
    ensures
        !has_id(fallers_step(s, dt, h), s[i].id),
{
    lemma_faller_cleanup_upto(s, dt, h, i, s.len() as int);
}

proof fn lemma_bullet_cleanup_upto(s: Seq<Entity>, dt: int, i: int, k: int)
    requires
        0 <= k <= s.len(),
        0 <= i < s.len(),
        s[i].kind == Kind::Bullet,
        s[i].shape.y < 0,
        0 <= dt <= DT_LIMIT,
        s[i].wf(),
        ids_distinct(s),
    ensures
        forall|a: int|
            0 <= a < bullets_step_upto(s, dt, k).len() ==> (#[trigger] bullets_step_upto(
                s,
                dt,
                k,
            )[a]).id != s[i].id,
    decreases k,
{
    if k > 0 {
        lemma_bullet_cleanup_upto(s, dt, i, k - 1);
        let r0 = bullets_step_upto(s, dt, k - 1);
        let r = bullets_step_upto(s, dt, k);
        let e = s[k - 1];
        if k - 1 == i {
            assert(0 <= e.speed * dt <= SPEED_LIMIT * DT_LIMIT) by (nonlinear_arith)
                requires
                    0 <= e.speed <= SPEED_LIMIT,
                    0 <= dt <= DT_LIMIT,
            ;
            assert(moved_bullet(e, dt).shape.y < 0);
            assert(r == r0);
        } else {
            assert forall|a: int| 0 <= a < r.len() implies (#[trigger] r[a]).id != s[i].id by {
                if a < r0.len() {
                } else {
                    assert(r[a].id == s[k - 1].id);
                    assert(s[k - 1].id != s[i].id);
                }
            }
        }
    }
}

/// Boundary cleanup for bullets: a bullet already past the top edge can
/// only move further up, so after one bullet kinematics pass no entity
/// with its identifier is left in the arena.
pub proof fn lemma_bullet_boundary_cleanup(s: Seq<Entity>, dt: int, i: int)
    requires
        0 <= i < s.len(),
        s[i].kind == Kind::Bullet,
        s[i].shape.y < 0,
        0 <= dt <= DT_LIMIT,
        s[i].wf(),
        ids_distinct(s),
    ensures
        !has_id(bullets_step(s, dt), s[i].id),
{
    lemma_bullet_cleanup_upto(s, dt, i, s.len() as int);
}

} // verus!
