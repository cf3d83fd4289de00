use crate::geometry::Shape;
use crate::units::SPEED_LIMIT;
use vstd::prelude::*;

verus! {

/// The three kinds of live game object.
#[derive(Clone, Copy, PartialEq, Eq, Structural, Debug)]
pub enum Kind {
    Player,
    Faller,
    Bullet,
}

/// One live game object: a tagged record with a square hitbox, a scalar
/// speed along the kind's fixed axis of motion, and an opaque sprite
/// identifier carried for the renderer.
#[derive(Clone, Copy, PartialEq, Eq, Structural, Debug)]
pub struct Entity {
    /// Arena-unique identifier, never reused.
    pub id: u64,
    pub kind: Kind,
    pub shape: Shape,
    /// Units per second: downward for a Faller, upward for a Bullet,
    /// omnidirectional under input for the Player.
    pub speed: i64,
    /// Opaque rendering identifier; the simulation only carries it.
    pub sprite: u32,
}

impl Entity {
    pub open spec fn wf(self) -> bool {
        self.shape.wf() && 0 <= self.speed <= SPEED_LIMIT
    }
}

/// Every entity of `s` is well formed.
pub open spec fn all_wf(s: Seq<Entity>) -> bool {
    forall|i: int| 0 <= i < s.len() ==> (#[trigger] s[i]).wf()
}

/// Every identifier in `s` lies below `bound`.
pub open spec fn ids_below(s: Seq<Entity>, bound: u64) -> bool {
    forall|i: int| 0 <= i < s.len() ==> (#[trigger] s[i]).id < bound
}

/// No two entities of `s` share an identifier.
pub open spec fn ids_distinct(s: Seq<Entity>) -> bool {
    forall|i: int, j: int|
        0 <= i < j < s.len() ==> (#[trigger] s[i]).id != (#[trigger] s[j]).id
}

/// Some entity of `s` carries identifier `id`.
pub open spec fn has_id(s: Seq<Entity>, id: u64) -> bool {
    exists|i: int| 0 <= i < s.len() && (#[trigger] s[i]).id == id
}

/// Every entity of `t` keeps the identifier, kind, speed and hitbox size of
/// some entity of `s`: the passes of the simulation move and drop entities
/// but never invent or retag one.
pub open spec fn matches_origin(t: Seq<Entity>, s: Seq<Entity>) -> bool {
    forall|a: int|
        #![trigger t[a]]
        0 <= a < t.len() ==> exists|i: int|
            #![trigger s[i]]
            {
                &&& 0 <= i < s.len()
                &&& t[a].id == s[i].id
                &&& t[a].kind == s[i].kind
                &&& t[a].speed == s[i].speed
                &&& t[a].shape.size == s[i].shape.size
            }
}

/// How many entities among the first `k` of `s` have the given kind.
pub open spec fn count_kind_upto(s: Seq<Entity>, kind: Kind, k: int) -> int
    decreases k,
{
    if k <= 0 {
        0
    } else {
        count_kind_upto(s, kind, k - 1) + if s[k - 1].kind == kind {
            1int
        } else {
            0int
        }
    }
}

/// How many entities of `s` have the given kind.
pub open spec fn count_kind(s: Seq<Entity>, kind: Kind) -> int {
    count_kind_upto(s, kind, s.len() as int)
}

/// The first `k` entities of `s`, those carrying identifier `id` removed.
pub open spec fn remove_id_upto(s: Seq<Entity>, id: u64, k: int) -> Seq<Entity>
    decreases k,
{
    if k <= 0 {
        Seq::empty()
    } else {
        let r = remove_id_upto(s, id, k - 1);
        if s[k - 1].id == id {
            r
        } else {
            r.push(s[k - 1])
        }
    }
}

/// `s` with every entity carrying identifier `id` removed, order kept.
pub open spec fn remove_id(s: Seq<Entity>, id: u64) -> Seq<Entity> {
    remove_id_upto(s, id, s.len() as int)
}

/// The entities of the given kind among the first `k` of `s`, order kept.
pub open spec fn filter_kind_upto(s: Seq<Entity>, kind: Kind, k: int) -> Seq<Entity>
    decreases k,
{
    if k <= 0 {
        Seq::empty()
    } else {
        let r = filter_kind_upto(s, kind, k - 1);
        if s[k - 1].kind == kind {
            r.push(s[k - 1])
        } else {
            r
        }
    }
}

/// The entities of `s` of the given kind, order kept.
pub open spec fn filter_kind(s: Seq<Entity>, kind: Kind) -> Seq<Entity> {
    filter_kind_upto(s, kind, s.len() as int)
}

/// The entity store: every live game object, with spawn, idempotent
/// despawn-by-identifier, and iteration by kind. Identifiers count up and
/// are never reused.
pub struct Arena {
    pub entities: Vec<Entity>,
    pub next_id: u64,
}

impl View for Arena {
    type V = Seq<Entity>;

    open spec fn view(&self) -> Seq<Entity> {
        self.entities@
    }
}

impl Arena {
    pub open spec fn wf(self) -> bool {
        &&& all_wf(self@)
        &&& ids_below(self@, self.next_id)
        &&& ids_distinct(self@)
    }

    /// An empty arena.
    pub fn new() -> (a: Arena)
        ensures
            a@ == Seq::<Entity>::empty(),
            a.next_id == 0,
            a.wf(),
    {
        Arena { entities: Vec::new(), next_id: 0 }
    }

    pub fn len(&self) -> (n: usize)
        ensures
            n == self@.len(),
    {
        self.entities.len()
    }

    pub fn get(&self, i: usize) -> (e: Entity)
        requires
            i < self@.len(),
        ensures
            e == self@[i as int],
    {
        self.entities[i]
    }

    /// Add a fresh entity and hand back its identifier.
    pub fn spawn(&mut self, kind: Kind, shape: Shape, speed: i64, sprite: u32) -> (id: u64)
        requires
            old(self).wf(),
            shape.wf(),
            0 <= speed <= SPEED_LIMIT,
            old(self).next_id < u64::MAX,
        ensures
            final(self).wf(),
            id == old(self).next_id,
            final(self).next_id == old(self).next_id + 1,
            final(self)@ == old(self)@.push(
                Entity { id, kind, shape, speed, sprite },
            ),
    {
        let id = self.next_id;
        let e = Entity { id, kind, shape, speed, sprite };
        self.next_id = id + 1;
        self.entities.push(e);
        proof {
            let s0 = old(self)@;
            let s1 = self@;
            assert forall|i: int| 0 <= i < s1.len() implies (#[trigger] s1[i]).wf()
                && s1[i].id < self.next_id by {
                if i < s1.len() - 1 {
                    assert(s1[i] == s0[i]);
                }
            }
            assert forall|i: int, j: int| 0 <= i < j < s1.len() implies (#[trigger] s1[i]).id
                != (#[trigger] s1[j]).id by {
                if j < s1.len() - 1 {
                    assert(s1[i] == s0[i] && s1[j] == s0[j]);
                } else {
                    assert(s1[i] == s0[i] && s1[j] == e);
                }
            }
        }
        id
    }

    /// Remove every entity carrying `id`; removing an identifier that is
    /// not present (for instance because another system already removed it
    /// this frame) is a no-op, not an error.
    pub fn despawn(&mut self, id: u64)
        requires
            old(self).wf(),
        ensures
            final(self).wf(),
            final(self)@ == remove_id(old(self)@, id),
            final(self).next_id == old(self).next_id,
            !has_id(final(self)@, id),
    {
        let ghost s = self@;
        let n = self.entities.len();
        let mut out: Vec<Entity> = Vec::new();
        let mut k: usize = 0;
        while k < n
            invariant
                k <= n,
                n == s.len(),
                s == self@,
                self.wf(),
                out@ == remove_id_upto(s, id, k as int),
            decreases n - k,
        {
            let e = self.entities[k];
            if e.id != id {
                out.push(e);
            }
            k = k + 1;
        }
        proof {
            lemma_remove_id_props(s, id);
            lemma_matches_origin_wf(out@, s, self.next_id);
        }
        self.entities = out;
    }

    /// Remove every entity; identifiers are still not reused afterwards.
    pub fn clear(&mut self)
        ensures
            final(self).wf(),
            final(self)@ == Seq::<Entity>::empty(),
            final(self).next_id == old(self).next_id,
    {
        self.entities = Vec::new();
    }

    /// The entities of one kind, in arena order, as plain copies.
    pub fn of_kind(&self, kind: Kind) -> (v: Vec<Entity>)
        ensures
            v@ == filter_kind(self@, kind),
    {
        let ghost s = self@;
        let n = self.entities.len();
        let mut out: Vec<Entity> = Vec::new();
        let mut k: usize = 0;
        while k < n
            invariant
                k <= n,
                n == s.len(),
                s == self@,
                out@ == filter_kind_upto(s, kind, k as int),
            decreases n - k,
        {
            let e = self.entities[k];
            if e.kind == kind {
                out.push(e);
            }
            k = k + 1;
        }
        out
    }

    /// Is some entity with this identifier live?
    pub fn contains_id(&self, id: u64) -> (r: bool)
        ensures
            r == has_id(self@, id),
    {
        let n = self.entities.len();
        let mut k: usize = 0;
        while k < n
            invariant
                k <= n,
                n == self@.len(),
                forall|i: int| 0 <= i < k ==> (#[trigger] self@[i]).id != id,
            decreases n - k,
        {
            if self.entities[k].id == id {
                return true;
            }
            k = k + 1;
        }
        false
    }

    /// The index of the first entity of the given kind, if any.
    pub fn find_kind(&self, kind: Kind) -> (r: Option<usize>)
        ensures
            match r {
                Some(i) => i < self@.len() && self@[i as int].kind == kind && forall|j: int|
                    0 <= j < i ==> (#[trigger] self@[j]).kind != kind,
                None => forall|j: int|
                    0 <= j < self@.len() ==> (#[trigger] self@[j]).kind != kind,
            },
    {
        let n = self.entities.len();
        let mut k: usize = 0;
        while k < n
            invariant
                k <= n,
                n == self@.len(),
                forall|j: int| 0 <= j < k ==> (#[trigger] self@[j]).kind != kind,
            decreases n - k,
        {
            let e = self.entities[k];
            if e.kind == kind {
                return Some(k);
            }
            k = k + 1;
        }
        None
    }
}

/// Whatever `matches_origin` relates to a well-formed, bounded sequence is
/// itself well formed and bounded, except for the hitbox centers, which the
/// passes re-establish themselves.
pub proof fn lemma_matches_origin_wf(t: Seq<Entity>, s: Seq<Entity>, bound: u64)
    requires
        matches_origin(t, s),
        ids_below(s, bound),
    ensures
        ids_below(t, bound),
{
    assert forall|a: int| 0 <= a < t.len() implies (#[trigger] t[a]).id < bound by {
        let i = choose|i: int|
            #![trigger s[i]]
            {
                &&& 0 <= i < s.len()
                &&& t[a].id == s[i].id
                &&& t[a].kind == s[i].kind
                &&& t[a].speed == s[i].speed
                &&& t[a].shape.size == s[i].shape.size
            };
    }
}

/// Removal by identifier keeps entities as they were, keeps distinctness of
/// identifiers and well-formedness, and leaves no entity with the removed
/// identifier behind.
pub proof fn lemma_remove_id_props(s: Seq<Entity>, id: u64)
    ensures
        matches_origin(remove_id(s, id), s),
        all_wf(s) ==> all_wf(remove_id(s, id)),
        ids_distinct(s) ==> ids_distinct(remove_id(s, id)),
        !has_id(remove_id(s, id), id),
        has_id(s, id) ==> remove_id(s, id).len() < s.len(),
        !has_id(s, id) ==> remove_id(s, id) == s,
{
    lemma_remove_id_upto_props(s, id, s.len() as int);
    if !has_id(s, id) {
        assert(remove_id(s, id) =~= s);
    }
}

proof fn lemma_remove_id_upto_props(s: Seq<Entity>, id: u64, k: int)
    requires
        0 <= k <= s.len(),
    ensures
        matches_origin(remove_id_upto(s, id, k), s),
        all_wf(s) ==> all_wf(remove_id_upto(s, id, k)),
        ids_distinct(s) ==> ids_distinct(remove_id_upto(s, id, k)),
        !has_id(remove_id_upto(s, id, k), id),
        remove_id_upto(s, id, k).len() <= k,
        (exists|i: int| 0 <= i < k && (#[trigger] s[i]).id == id) ==> remove_id_upto(
            s,
            id,
            k,
        ).len() < k,
        (forall|i: int| 0 <= i < k ==> (#[trigger] s[i]).id != id) ==> remove_id_upto(s, id, k)
            =~= s.subrange(0, k),
        forall|a: int|
            #![trigger remove_id_upto(s, id, k)[a]]
            0 <= a < remove_id_upto(s, id, k).len() ==> exists|i: int|
                #![trigger s[i]]
                0 <= i < k && remove_id_upto(s, id, k)[a] == s[i],
    decreases k,
{
    if k <= 0 {
    } else {
        lemma_remove_id_upto_props(s, id, k - 1);
        let r0 = remove_id_upto(s, id, k - 1);
        let r = remove_id_upto(s, id, k);
        assert forall|a: int|
            #![trigger r[a]]
            0 <= a < r.len() implies exists|i: int| #![trigger s[i]] 0 <= i < k && r[a] == s[i] by {
            if a < r0.len() {
                let i = choose|i: int| #![trigger s[i]] 0 <= i < k - 1 && r0[a] == s[i];
                assert(0 <= i < k && r[a] == s[i]);
            } else {
                assert(r[a] == s[k - 1]);
            }
        }
        assert forall|a: int|
            #![trigger r[a]]
            0 <= a < r.len() implies exists|i: int|
            #![trigger s[i]]
            {
                &&& 0 <= i < s.len()
                &&& r[a].id == s[i].id
                &&& r[a].kind == s[i].kind
                &&& r[a].speed == s[i].speed
                &&& r[a].shape.size == s[i].shape.size
            } by {
            let i = choose|i: int| #![trigger s[i]] 0 <= i < k && r[a] == s[i];
        }
        if all_wf(s) {
            assert forall|a: int| 0 <= a < r.len() implies (#[trigger] r[a]).wf() by {
                let i = choose|i: int| #![trigger s[i]] 0 <= i < k && r[a] == s[i];
            }
        }
        if ids_distinct(s) {
            assert forall|a: int, b: int| 0 <= a < b < r.len() implies (#[trigger] r[a]).id
                != (#[trigger] r[b]).id by {
                if b < r0.len() {
                } else if s[k - 1].id != id && b == r0.len() {
                    let i = choose|i: int| #![trigger s[i]] 0 <= i < k - 1 && r[a] == s[i];
                    assert(r[b] == s[k - 1]);
                    assert(s[i].id != s[k - 1].id);
                }
            }
        }
        if forall|i: int| 0 <= i < k ==> (#[trigger] s[i]).id != id {
            assert(s[k - 1].id != id);
            assert(s.subrange(0, k - 1).push(s[k - 1]) =~= s.subrange(0, k));
        }
    }
}

/// Removing the same identifier twice is the same as removing it once: the
/// second removal finds nothing and removes nothing.
pub proof fn lemma_despawn_idempotent(s: Seq<Entity>, id: u64)
    ensures
        remove_id(remove_id(s, id), id) == remove_id(s, id),
{
    lemma_remove_id_props(s, id);
    lemma_remove_id_props(remove_id(s, id), id);
}

/// A sequence with no entity of kind `k` counts zero of them.
pub proof fn lemma_count_kind_zero(s: Seq<Entity>, kind: Kind, k: int)
    requires
        0 <= k <= s.len(),
        forall|i: int| 0 <= i < k ==> (#[trigger] s[i]).kind != kind,
    ensures
        count_kind_upto(s, kind, k) == 0,
    decreases k,
{
    if k > 0 {
        lemma_count_kind_zero(s, kind, k - 1);
    }
}

/// The least index at or after `j` holding an entity of the given kind, or
/// the length of `s` if there is none.
pub open spec fn first_kind_from(s: Seq<Entity>, kind: Kind, j: int) -> int
    decreases s.len() - j,
{
    if j >= s.len() {
        s.len() as int
    } else if s[j].kind == kind {
        j
    } else {
        first_kind_from(s, kind, j + 1)
    }
}

/// The least index holding an entity of the given kind, or the length of
/// `s` if there is none.
pub open spec fn first_kind(s: Seq<Entity>, kind: Kind) -> int {
    first_kind_from(s, kind, 0)
}

/// An index of the given kind with nothing of that kind before it is the
/// first such index.
pub proof fn lemma_first_kind_is(s: Seq<Entity>, kind: Kind, i: int, j: int)
    requires
        0 <= j <= i < s.len(),
        s[i].kind == kind,
        forall|q: int| j <= q < i ==> (#[trigger] s[q]).kind != kind,
    ensures
        first_kind_from(s, kind, j) == i,
    decreases i - j,
{
    if j < i {
        lemma_first_kind_is(s, kind, i, j + 1);
    }
}

/// Counting over equal prefixes agrees.
pub proof fn lemma_count_kind_agree(s1: Seq<Entity>, s2: Seq<Entity>, kind: Kind, k: int)
    requires
        0 <= k <= s1.len(),
        k <= s2.len(),
        forall|j: int| 0 <= j < k ==> (#[trigger] s1[j]) == s2[j],
    ensures
        count_kind_upto(s1, kind, k) == count_kind_upto(s2, kind, k),
    decreases k,
{
    if k > 0 {
        lemma_count_kind_agree(s1, s2, kind, k - 1);
    }
}

/// Appending one entity raises the count of its kind by one and leaves the
/// other counts alone.
pub proof fn lemma_count_kind_push(s: Seq<Entity>, e: Entity, kind: Kind)
    ensures
        count_kind(s.push(e), kind) == count_kind(s, kind) + if e.kind == kind {
            1int
        } else {
            0int
        },
{
    let s2 = s.push(e);
    assert(s2[s.len() as int] == e);
    lemma_count_kind_agree(s2, s, kind, s.len() as int);
    assert(count_kind_upto(s2, kind, s.len() as int + 1) == count_kind_upto(s2, kind, s.len() as int)
        + if s2[s.len() as int].kind == kind {
        1int
    } else {
        0int
    });
}

/// Replacing an entity by one of the same kind does not change any count.
pub proof fn lemma_count_kind_update(s: Seq<Entity>, i: int, e: Entity, kind: Kind)
    requires
        0 <= i < s.len(),
        e.kind == s[i].kind,
    ensures
        count_kind(s.update(i, e), kind) == count_kind(s, kind),
{
    lemma_count_kind_update_upto(s, i, e, kind, s.len() as int);
}

proof fn lemma_count_kind_update_upto(s: Seq<Entity>, i: int, e: Entity, kind: Kind, k: int)
    requires
        0 <= i < s.len(),
        e.kind == s[i].kind,
        k <= s.len(),
    ensures
        count_kind_upto(s.update(i, e), kind, k) == count_kind_upto(s, kind, k),
    decreases k,
{
    if k > 0 {
        lemma_count_kind_update_upto(s, i, e, kind, k - 1);
    }
}

} // verus!
