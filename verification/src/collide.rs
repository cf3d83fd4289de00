use crate::arena::{
    all_wf, count_kind, count_kind_upto, ids_distinct, lemma_count_kind_push,
    lemma_count_kind_zero, lemma_first_kind_is, lemma_matches_origin_wf, first_kind,
    matches_origin, Arena, Entity, Kind,
};
use crate::geometry::Shape;
use crate::score::{points_for_size, spec_points_for_size, spec_saturate_u32, ScoreTracker};
use crate::state::{CurrentState, GameState};
use vstd::prelude::*;

verus! {

/// The indices a sequence of per-entity marks singles out.
pub open spec fn set_of_marks(bv: Seq<bool>) -> Set<int> {
    Set::new(|q: int| 0 <= q < bv.len() && bv[q])
}

/// The first obstacle from index `j` on that bullet `b` hits: not yet
/// removed this pass, of obstacle kind, and overlapping the bullet.
pub open spec fn find_target(s: Seq<Entity>, b: Entity, removed: Set<int>, j: int) -> Option<int>
    decreases s.len() - j,
{
    if j >= s.len() {
        None
    } else if s[j].kind == Kind::Faller && !removed.contains(j) && b.shape.overlaps(s[j].shape) {
        Some(j)
    } else {
        find_target(s, b, removed, j + 1)
    }
}

/// The bullet half of the collision pass, from bullet index `i` on: each
/// not-yet-consumed bullet is matched with the first surviving overlapping
/// obstacle; both are marked removed and the obstacle's points are added.
/// A removed entity is invisible to every later pair check. The result is
/// the final mark set and the points total.
pub open spec fn bullet_pass(s: Seq<Entity>, i: int, removed: Set<int>, points: int) -> (
    Set<int>,
    int,
)
    decreases s.len() - i,
{
    if i >= s.len() {
        (removed, points)
    } else if s[i].kind == Kind::Bullet && !removed.contains(i) {
        match find_target(s, s[i], removed, 0) {
            Some(j) => bullet_pass(
                s,
                i + 1,
                removed.insert(i).insert(j),
                points + spec_points_for_size(s[j].shape.size as int),
            ),
            None => bullet_pass(s, i + 1, removed, points),
        }
    } else {
        bullet_pass(s, i + 1, removed, points)
    }
}

/// The player half of the collision pass, from index `j` on: every
/// surviving obstacle overlapping the player hitbox `p` is marked removed,
/// and the flag records whether any was hit at all.
pub open spec fn player_pass(s: Seq<Entity>, p: Shape, removed: Set<int>, j: int) -> (
    Set<int>,
    bool,
)
    decreases s.len() - j,
{
    if j >= s.len() {
        (removed, false)
    } else if s[j].kind == Kind::Faller && !removed.contains(j) && p.overlaps(s[j].shape) {
        let r = player_pass(s, p, removed.insert(j), j + 1);
        (r.0, true)
    } else {
        player_pass(s, p, removed, j + 1)
    }
}

/// The first `k` entities of `s` whose index is not in `removed`, in
/// order.
pub open spec fn keep_upto(s: Seq<Entity>, removed: Set<int>, k: int) -> Seq<Entity>
    decreases k,
{
    if k <= 0 {
        Seq::empty()
    } else {
        let r = keep_upto(s, removed, k - 1);
        if removed.contains(k - 1) {
            r
        } else {
            r.push(s[k - 1])
        }
    }
}

#[verifier::spinoff_prover]
proof fn lemma_keep_upto_props(s: Seq<Entity>, rm: Set<int>, k: int)
    requires
        0 <= k <= s.len(),
    ensures
        matches_origin(keep_upto(s, rm, k), s),
        all_wf(s) ==> all_wf(keep_upto(s, rm, k)),
        ids_distinct(s) ==> ids_distinct(keep_upto(s, rm, k)),
        forall|a: int|
            #![trigger keep_upto(s, rm, k)[a]]
            0 <= a < keep_upto(s, rm, k).len() ==> exists|i: int|
                #![trigger s[i]]
                0 <= i < k && keep_upto(s, rm, k)[a] == s[i],
    decreases k,
{
    if k <= 0 {
    } else {
        lemma_keep_upto_props(s, rm, k - 1);
        let r0 = keep_upto(s, rm, k - 1);
        let r = keep_upto(s, rm, k);
        assert forall|a: int|
            #![trigger r[a]]
            0 <= a < r.len() implies exists|i: int| #![trigger s[i]] 0 <= i < k && r[a] == s[i] by {
            if a < r0.len() {
                let i = choose|i: int| #![trigger s[i]] 0 <= i < k - 1 && r0[a] == s[i];
                assert(0 <= i < k && r[a] == s[i]);
            } else {
                assert(r[a] == s[k - 1]);
            }
        }
        assert forall|a: int|
            #![trigger r[a]]
            0 <= a < r.len() implies exists|i: int|
            #![trigger s[i]]
            {
                &&& 0 <= i < s.len()
                &&& r[a].id == s[i].id
                &&& r[a].kind == s[i].kind
                &&& r[a].speed == s[i].speed
                &&& r[a].shape.size == s[i].shape.size
            } by {
            let i = choose|i: int| #![trigger s[i]] 0 <= i < k && r[a] == s[i];
        }
        if all_wf(s) {
            assert forall|a: int| 0 <= a < r.len() implies (#[trigger] r[a]).wf() by {
                let i = choose|i: int| #![trigger s[i]] 0 <= i < k && r[a] == s[i];
            }
        }
        if ids_distinct(s) {
            assert forall|a: int, b: int| 0 <= a < b < r.len() implies (#[trigger] r[a]).id
                != (#[trigger] r[b]).id by {
                if b < r0.len() {
                } else if !rm.contains(k - 1) && b == r0.len() {
                    let i = choose|i: int| #![trigger s[i]] 0 <= i < k - 1 && r[a] == s[i];
                    assert(r[b] == s[k - 1]);
                    assert(s[i].id != s[k - 1].id);
                }
            }
        }
    }
}

#[verifier::spinoff_prover]
proof fn lemma_keep_count(s: Seq<Entity>, rm: Set<int>, k: int, kind: Kind)
    requires
        0 <= k <= s.len(),
        forall|q: int| 0 <= q < k && #[trigger] rm.contains(q) ==> s[q].kind != kind,
    ensures
        count_kind(keep_upto(s, rm, k), kind) == count_kind_upto(s, kind, k),
    decreases k,
{
    if k > 0 {
        lemma_keep_count(s, rm, k - 1, kind);
        if !rm.contains(k - 1) {
            lemma_count_kind_push(keep_upto(s, rm, k - 1), s[k - 1], kind);
        }
    }
}

/// The first obstacle from the whole arena that bullet `b` hits, by a
/// linear scan mirroring `find_target`.
#[verifier::spinoff_prover]
fn find_target_from(arena: &Arena, removed: &Vec<bool>, b: Entity) -> (r: Option<usize>)
    requires
        arena.wf(),
        removed@.len() == arena@.len(),
        b.wf(),
    ensures
        match r {
            Some(tj) => tj < arena@.len() && find_target(arena@, b, set_of_marks(removed@), 0)
                == Some(tj as int) && arena@[tj as int].kind == Kind::Faller && !set_of_marks(
                removed@,
            ).contains(tj as int) && b.shape.overlaps(arena@[tj as int].shape),
            None => find_target(arena@, b, set_of_marks(removed@), 0).is_none(),
        },
{
    let ghost s = arena@;
    let ghost rm = set_of_marks(removed@);
    let n = arena.entities.len();
    let mut j: usize = 0;
    while j < n
        invariant
            j <= n,
            n == s.len(),
            s == arena@,
            arena.wf(),
            removed@.len() == n,
            rm == set_of_marks(removed@),
            b.wf(),
            find_target(s, b, rm, 0) == find_target(s, b, rm, j as int),
        decreases n - j,
    {
        let f = arena.entities[j];
        if f.kind == Kind::Faller && !removed[j] {
            assert(f.wf());
            assert(!rm.contains(j as int));
            if b.shape.collides_with(&f.shape) {
                return Some(j);
            }
        }
        proof {
            assert(rm.contains(j as int) == removed@[j as int]);
        }
        j = j + 1;
    }
    None
}

/// The bullet half of the collision pass: walk the bullets in arena order,
/// match each surviving bullet with its first surviving overlapping
/// obstacle, mark both removed, and award the obstacle's points. Returns
/// the points total as a ghost value; the score is already updated.
#[verifier::spinoff_prover]
fn run_bullet_pass(arena: &Arena, score: &mut ScoreTracker, removed: &mut Vec<bool>) -> (gp: Ghost<
    int,
>)
    requires
        arena.wf(),
        old(score).wf(),
        old(removed)@.len() == arena@.len(),
        forall|q: int|
            0 <= q < arena@.len() && #[trigger] old(removed)@[q] ==> arena@[q].kind
                != Kind::Player,
    ensures
        final(removed)@.len() == arena@.len(),
        bullet_pass(arena@, 0, set_of_marks(old(removed)@), 0) == (
            set_of_marks(final(removed)@),
            gp@,
        ),
        gp@ >= 0,
        final(score).wf(),
        final(score).score == spec_saturate_u32(old(score).score + gp@),
        final(score).high_score == (if final(score).score > old(score).high_score {
            final(score).score as int
        } else {
            old(score).high_score as int
        }),
        final(score).high_score >= old(score).high_score,
        forall|q: int|
            0 <= q < arena@.len() && #[trigger] final(removed)@[q] ==> arena@[q].kind
                != Kind::Player,
    {
    let ghost s = arena@;
    let ghost rm_init = set_of_marks(old(removed)@);
    let n = arena.entities.len();
    let ghost mut gpts: int = 0;
    let mut i: usize = 0;
    while i < n
        invariant
            i <= n,
            n == s.len(),
            s == arena@,
            arena.wf(),
            score.wf(),
            old(score).wf(),
            removed@.len() == n,
            forall|q: int| 0 <= q < n && #[trigger] removed@[q] ==> s[q].kind != Kind::Player,
            bullet_pass(s, 0, rm_init, 0) == bullet_pass(
                s,
                i as int,
                set_of_marks(removed@),
                gpts,
            ),
            gpts >= 0,
            score.score == spec_saturate_u32(old(score).score + gpts),
            score.high_score == (if score.score > old(score).high_score {
                score.score as int
            } else {
                old(score).high_score as int
            }),
        decreases n - i,
    {
        let e = arena.entities[i];
        let ghost rm0 = set_of_marks(removed@);
        let ghost g0 = gpts;
        if e.kind == Kind::Bullet && !removed[i] {
            assert(e.wf());
            assert(!rm0.contains(i as int));
            let target = find_target_from(arena, removed, e);
            match target {
                Some(j) => {
                    let f = arena.entities[j];
                    assert(f.kind == Kind::Faller && f.wf());
                    removed[i] = true;
                    removed[j] = true;
                    let pts = points_for_size(f.shape.size);
                    score.add_points(pts);
                    proof {
                        gpts = g0 + spec_points_for_size(f.shape.size as int);
                        assert(set_of_marks(removed@) =~= rm0.insert(i as int).insert(j as int));
                        assert(bullet_pass(s, i as int, rm0, g0) == bullet_pass(
                            s,
                            i as int + 1,
                            rm0.insert(i as int).insert(j as int),
                            g0 + spec_points_for_size(s[j as int].shape.size as int),
                        ));
                    }
                },
                None => {
                    proof {
                        assert(bullet_pass(s, i as int, rm0, g0) == bullet_pass(
                            s,
                            i as int + 1,
                            rm0,
                            g0,
                        ));
                    }
                },
            }
        } else {
            proof {
                assert(rm0.contains(i as int) == removed@[i as int]);
                assert(bullet_pass(s, i as int, rm0, g0) == bullet_pass(s, i as int + 1, rm0, g0));
            }
        }
        i = i + 1;
    }
    proof {
        assert(bullet_pass(s, n as int, set_of_marks(removed@), gpts) == (
            set_of_marks(removed@),
            gpts,
        ));
    }
    Ghost(gpts)
}

/// The player half of the collision pass: mark every surviving obstacle
/// that overlaps the player hitbox, and report whether any did.
#[verifier::spinoff_prover]
fn run_player_pass(arena: &Arena, player: Entity, removed: &mut Vec<bool>) -> (hit: bool)
    requires
        arena.wf(),
        player.wf(),
        old(removed)@.len() == arena@.len(),
    ensures
        final(removed)@.len() == arena@.len(),
        player_pass(arena@, player.shape, set_of_marks(old(removed)@), 0) == (
            set_of_marks(final(removed)@),
            hit,
        ),
        forall|q: int|
            0 <= q < arena@.len() && #[trigger] final(removed)@[q] ==> old(removed)@[q]
                || arena@[q].kind == Kind::Faller,
{
    let ghost s = arena@;
    let ghost rm_init = set_of_marks(old(removed)@);
    let n = arena.entities.len();
    let mut hit = false;
    let mut j: usize = 0;
    while j < n
        invariant
            j <= n,
            n == s.len(),
            s == arena@,
            arena.wf(),
            player.wf(),
            removed@.len() == n,
            forall|q: int|
                0 <= q < n && #[trigger] removed@[q] ==> old(removed)@[q] || s[q].kind
                    == Kind::Faller,
            player_pass(s, player.shape, rm_init, 0).0 == player_pass(
                s,
                player.shape,
                set_of_marks(removed@),
                j as int,
            ).0,
            player_pass(s, player.shape, rm_init, 0).1 == (hit || player_pass(
                s,
                player.shape,
                set_of_marks(removed@),
                j as int,
            ).1),
        decreases n - j,
    {
        let f = arena.entities[j];
        let ghost cur0 = set_of_marks(removed@);
        if f.kind == Kind::Faller && !removed[j] {
            assert(f.wf());
            assert(!cur0.contains(j as int));
            if player.shape.collides_with(&f.shape) {
                removed[j] = true;
                hit = true;
                proof {
                    assert(set_of_marks(removed@) =~= cur0.insert(j as int));
                    assert(player_pass(s, player.shape, cur0, j as int) == (
                        player_pass(s, player.shape, cur0.insert(j as int), j as int + 1).0,
                        true,
                    ));
                }
            }
        } else {
            proof {
                assert(cur0.contains(j as int) == removed@[j as int]);
            }
        }
        j = j + 1;
    }
    proof {
        assert(player_pass(s, player.shape, set_of_marks(removed@), n as int) == (
            set_of_marks(removed@),
            false,
        ));
    }
    hit
}

/// Drop every marked entity from the arena, in one pass, keeping order.
#[verifier::spinoff_prover]
fn retain_unmarked(arena: &mut Arena, removed: &Vec<bool>)
    requires
        old(arena).wf(),
        removed@.len() == old(arena)@.len(),
    ensures
        final(arena).wf(),
        final(arena)@ == keep_upto(
            old(arena)@,
            set_of_marks(removed@),
            old(arena)@.len() as int,
        ),
        final(arena).next_id == old(arena).next_id,
        matches_origin(final(arena)@, old(arena)@),
        (forall|q: int|
            0 <= q < old(arena)@.len() && #[trigger] removed@[q] ==> old(arena)@[q].kind
                != Kind::Player) ==> count_kind(final(arena)@, Kind::Player) == count_kind(
            old(arena)@,
            Kind::Player,
        ),
{
    let ghost s = arena@;
    let ghost rm = set_of_marks(removed@);
    let n = arena.entities.len();
    let mut out: Vec<Entity> = Vec::new();
    let mut k: usize = 0;
    while k < n
        invariant
            k <= n,
            n == s.len(),
            s == arena@,
            removed@.len() == n,
            rm == set_of_marks(removed@),
            out@ == keep_upto(s, rm, k as int),
        decreases n - k,
    {
        if !removed[k] {
            proof {
                assert(!rm.contains(k as int));
            }
            out.push(arena.entities[k]);
        } else {
            proof {
                assert(rm.contains(k as int));
            }
        }
        k = k + 1;
    }
    proof {
        lemma_keep_upto_props(s, rm, n as int);
        lemma_matches_origin_wf(out@, s, arena.next_id);
        if forall|q: int| 0 <= q < n && #[trigger] removed@[q] ==> s[q].kind != Kind::Player {
            assert forall|q: int| 0 <= q < n && #[trigger] rm.contains(q) implies s[q].kind
                != Kind::Player by {
                assert(removed@[q]);
            }
            lemma_keep_count(s, rm, n as int, Kind::Player);
        }
    }
    arena.entities = out;
}

/// Collision resolution: every surviving bullet consumes the first
/// surviving obstacle it overlaps (both vanish, and the obstacle's edge
/// length, rounded to units, is added to the score, raising the high score
/// along with it); afterwards every surviving obstacle overlapping the
/// player vanishes too, and any such hit requests a transition to the
/// game-over state. A removed entity is invisible to all later pair checks
/// of the same pass.
pub fn check_collisions(arena: &mut Arena, score: &mut ScoreTracker, state: &mut CurrentState)
    requires
        old(arena).wf(),
        old(score).wf(),
        count_kind(old(arena)@, Kind::Player) == 1,
    ensures
        final(arena).wf(),
        final(score).wf(),
        final(arena).next_id == old(arena).next_id,
        final(score).high_score >= old(score).high_score,
        count_kind(final(arena)@, Kind::Player) == 1,
        matches_origin(final(arena)@, old(arena)@),
        final(state).previous == old(state).previous,
        final(state).current == old(state).current,
        ({
            let s = old(arena)@;
            let pi = first_kind(s, Kind::Player);
            let bp = bullet_pass(s, 0, Set::<int>::empty(), 0);
            let pp = player_pass(s, s[pi].shape, bp.0, 0);
            &&& 0 <= pi < s.len()
            &&& s[pi].kind == Kind::Player
            &&& final(arena)@ == keep_upto(s, pp.0, s.len() as int)
            &&& final(score).score == spec_saturate_u32(old(score).score + bp.1)
            &&& final(score).high_score == (if final(score).score > old(score).high_score {
                final(score).score as int
            } else {
                old(score).high_score as int
            })
            &&& final(state).next == (if pp.1 {
                GameState::GameOver
            } else {
                old(state).next
            })
        }),
{
    let ghost s = arena@;
    let n = arena.entities.len();
    let opt = arena.find_kind(Kind::Player);
    let pi: usize = match opt {
        Some(i) => i,
        None => {
            proof {
                lemma_count_kind_zero(s, Kind::Player, s.len() as int);
            }
            assert(false);
            0
        },
    };
    let player = arena.get(pi);
    assert(player.wf());

    let mut removed: Vec<bool> = Vec::new();
    let mut t: usize = 0;
    while t < n
        invariant
            t <= n,
            removed@.len() == t,
            forall|q: int| 0 <= q < t ==> !(#[trigger] removed@[q]),
        decreases n - t,
    {
        removed.push(false);
        t = t + 1;
    }
    proof {
        assert(set_of_marks(removed@) =~= Set::<int>::empty());
    }

    let ghost rm_empty = set_of_marks(removed@);
    let gp = run_bullet_pass(arena, score, &mut removed);
    let ghost rm_b_seq = removed@;
    let hit = run_player_pass(arena, player, &mut removed);
    let ghost rm_p_seq = removed@;
    proof {
        assert forall|q: int| 0 <= q < n && #[trigger] removed@[q] implies s[q].kind
            != Kind::Player by {
            if !rm_b_seq[q] {
                assert(s[q].kind == Kind::Faller);
            }
        }
    }
    retain_unmarked(arena, &removed);
    if hit {
        state.next = GameState::GameOver;
    }
    proof {
        lemma_first_kind_is(s, Kind::Player, pi as int, 0);
        let bp = bullet_pass(s, 0, Set::<int>::empty(), 0);
        assert(rm_empty == Set::<int>::empty());
        assert(bp == (set_of_marks(rm_b_seq), gp@));
        let pp = player_pass(s, player.shape, bp.0, 0);
        assert(bp.0 == set_of_marks(rm_b_seq));
        assert(pp.0 == set_of_marks(rm_p_seq) && pp.1 == hit);
        assert(player.shape == s[pi as int].shape);
        assert(arena@ == keep_upto(s, pp.0, s.len() as int));
    }
}



/// Bullet–obstacle consumption: in an arena holding the player, one
/// obstacle and one bullet whose hitboxes overlap, one collision pass
/// consumes both the bullet and the obstacle, leaves the player alone, and
/// scores exactly the obstacle's edge length rounded to units.
pub proof fn lemma_bullet_consumes_obstacle(p: Entity, f: Entity, b: Entity)
    requires
        p.kind == Kind::Player,
        f.kind == Kind::Faller,
        b.kind == Kind::Bullet,
        b.shape.overlaps(f.shape),
    ensures
        ({
            let s = seq![p, f, b];
            let bp = bullet_pass(s, 0, Set::<int>::empty(), 0);
            let pp = player_pass(s, p.shape, bp.0, 0);
            &&& bp.1 == spec_points_for_size(f.shape.size as int)
            &&& pp.1 == false
            &&& keep_upto(s, pp.0, 3) == seq![p]
        }),
{
    let s = seq![p, f, b];
    let e0 = Set::<int>::empty();
    assert(s.len() == 3 && s[0] == p && s[1] == f && s[2] == b);
    assert(find_target(s, b, e0, 1) == Some(1int));
    assert(find_target(s, b, e0, 0) == Some(1int));
    let rm = e0.insert(2).insert(1);
    let pts = spec_points_for_size(f.shape.size as int);
    assert(bullet_pass(s, 0, e0, 0) == bullet_pass(s, 1, e0, 0));
    assert(bullet_pass(s, 1, e0, 0) == bullet_pass(s, 2, e0, 0));
    assert(bullet_pass(s, 2, e0, 0) == bullet_pass(s, 3, rm, pts));
    assert(bullet_pass(s, 3, rm, pts) == (rm, pts));
    assert(rm.contains(1int) && rm.contains(2int) && !rm.contains(0int));
    assert(player_pass(s, p.shape, rm, 0) == player_pass(s, p.shape, rm, 1));
    assert(player_pass(s, p.shape, rm, 1) == player_pass(s, p.shape, rm, 2));
    assert(player_pass(s, p.shape, rm, 2) == player_pass(s, p.shape, rm, 3));
    assert(player_pass(s, p.shape, rm, 3) == (rm, false));
    assert(keep_upto(s, rm, 0) == Seq::<Entity>::empty());
    assert(keep_upto(s, rm, 1) == Seq::<Entity>::empty().push(p));
    assert(keep_upto(s, rm, 2) == keep_upto(s, rm, 1));
    assert(keep_upto(s, rm, 3) == keep_upto(s, rm, 2));
    assert(keep_upto(s, rm, 3) =~= seq![p]);
}

} // verus!
