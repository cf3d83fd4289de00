use vstd::prelude::*;

verus! {

/// The four top-level modes of the game.
#[derive(Clone, Copy, PartialEq, Eq, Structural, Debug)]
pub enum GameState {
    MainMenu,
    Playing,
    Paused,
    GameOver,
}

impl Default for GameState {
    /// The game starts on the main menu.
    fn default() -> (s: Self)
        ensures
            s == GameState::MainMenu,
    {
        GameState::MainMenu
    }
}

/// The state triple that drives edge detection. `previous` and `current`
/// are fixed for the whole frame; systems may request a transition by
/// writing `next`, and a post-update commit step folds `next` into
/// `current` once every system has run.
#[derive(Clone, Copy, PartialEq, Eq, Structural, Debug)]
pub struct CurrentState {
    pub previous: GameState,
    pub current: GameState,
    pub next: GameState,
}

impl Default for CurrentState {
    /// The initial triple is settled on the main menu.
    fn default() -> (s: Self)
        ensures
            s == CurrentState::initial(),
    {
        CurrentState {
            previous: GameState::MainMenu,
            current: GameState::MainMenu,
            next: GameState::MainMenu,
        }
    }
}

impl CurrentState {
    pub open spec fn initial() -> CurrentState {
        CurrentState {
            previous: GameState::MainMenu,
            current: GameState::MainMenu,
            next: GameState::MainMenu,
        }
    }

    /// The state is settled in `s`: no transition is pending and this is not
    /// the first frame of `s`.
    pub open spec fn spec_in_state(self, s: GameState) -> bool {
        self.previous == s && self.current == s && self.next == s
    }

    /// Exactly the first frame after arriving in `s`.
    pub open spec fn spec_enter_state(self, s: GameState) -> bool {
        self.current == s && self.previous != s
    }

    /// Exactly the last frame before leaving `s`.
    pub open spec fn spec_leave_state(self, s: GameState) -> bool {
        self.current == s && self.next != s
    }

    /// The triple the post-update commit produces: `previous` takes the old
    /// `current`, `current` takes the requested `next`, and `next` is left
    /// pointing at the new `current` until some system requests otherwise.
    pub open spec fn spec_commit(self) -> CurrentState {
        CurrentState { previous: self.current, current: self.next, next: self.next }
    }

    pub fn in_state(&self, s: GameState) -> (r: bool)
        ensures
            r == self.spec_in_state(s),
    {
        self.previous == s && self.current == s && self.next == s
    }

    pub fn enter_state(&self, s: GameState) -> (r: bool)
        ensures
            r == self.spec_enter_state(s),
    {
        self.current == s && self.previous != s
    }

    pub fn leave_state(&self, s: GameState) -> (r: bool)
        ensures
            r == self.spec_leave_state(s),
    {
        self.current == s && self.next != s
    }

    /// The post-update commit: runs once per frame, strictly after every
    /// gameplay and menu system.
    pub fn update_states(&mut self)
        ensures
            *final(self) == old(self).spec_commit(),
            final(self).previous == old(self).current,
            final(self).current == old(self).next,
            final(self).next == old(self).next,
    {
        self.previous = self.current;
        self.current = self.next;
    }
}

/// The three edge predicates are mutually exclusive for any one state `s`,
/// on every triple the frame loop produces. The loop only writes `next` on
/// frames whose state is settled, so a triple showing both an entering edge
/// (`previous != current`) and a pending transition (`next != current`)
/// never arises; the hypothesis below records that. (Which state `current`
/// holds is a single value, so exactly one `s` has `current == s`.)
pub proof fn lemma_edge_exclusivity(st: CurrentState, s: GameState)
    requires
        st.previous == st.current || st.next == st.current,
    ensures
        !(st.spec_in_state(s) && st.spec_enter_state(s)),
        !(st.spec_in_state(s) && st.spec_leave_state(s)),
        !(st.spec_enter_state(s) && st.spec_leave_state(s)),
{
}

/// Committing folds the pending transition in, and committing again with no
/// intervening request settles the state: the second commit yields a triple
/// settled in the requested state, and any further commit leaves it
/// unchanged.
pub proof fn lemma_commit_settles(st: CurrentState)
    ensures
        st.spec_commit().previous == st.current,
        st.spec_commit().current == st.next,
        st.spec_commit().spec_commit().spec_in_state(st.next),
        st.spec_commit().spec_commit().spec_commit() == st.spec_commit().spec_commit(),
{
}

} // verus!
