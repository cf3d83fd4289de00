use cathedral::state::{CurrentState, GameState};

fn triple(p: GameState, c: GameState, n: GameState) -> CurrentState {
    CurrentState { previous: p, current: c, next: n }
}

#[test]
fn initial_state_is_settled_main_menu() {
    let st = CurrentState::default();
    assert!(st.in_state(GameState::MainMenu));
    assert!(!st.enter_state(GameState::MainMenu));
    assert!(!st.leave_state(GameState::MainMenu));
}

#[test]
fn settled_state_predicates() {
    let st = triple(GameState::Playing, GameState::Playing, GameState::Playing);
    assert!(st.in_state(GameState::Playing));
    assert!(!st.in_state(GameState::Paused));
    assert!(!st.enter_state(GameState::Playing));
    assert!(!st.leave_state(GameState::Playing));
}

#[test]
fn entering_state_predicates() {
    let st = triple(GameState::MainMenu, GameState::Playing, GameState::Playing);
    assert!(st.enter_state(GameState::Playing));
    assert!(!st.in_state(GameState::Playing));
    assert!(!st.leave_state(GameState::Playing));
}

#[test]
fn leaving_state_predicates() {
    let st = triple(GameState::Playing, GameState::Playing, GameState::Paused);
    assert!(st.leave_state(GameState::Playing));
    assert!(!st.in_state(GameState::Playing));
    assert!(!st.enter_state(GameState::Playing));
}

#[test]
fn edge_predicates_are_exclusive_per_state() {
    // Over every triple the frame loop can produce (a pending transition
    // only ever starts from a settled state), at most one of the three
    // predicates holds for each state.
    let all = [
        GameState::MainMenu,
        GameState::Playing,
        GameState::Paused,
        GameState::GameOver,
    ];
    for p in all {
        for c in all {
            for n in all {
                if p != c && n != c {
                    // not produced by the frame loop
                    continue;
                }
                let st = triple(p, c, n);
                for s in all {
                    let mut hits = 0;
                    if st.in_state(s) {
                        hits += 1;
                    }
                    if st.enter_state(s) {
                        hits += 1;
                    }
                    if st.leave_state(s) {
                        hits += 1;
                    }
                    assert!(hits <= 1);
                }
            }
        }
    }
}

#[test]
fn commit_moves_next_into_current() {
    let mut st = triple(GameState::MainMenu, GameState::MainMenu, GameState::Playing);
    st.update_states();
    assert_eq!(st.previous, GameState::MainMenu);
    assert_eq!(st.current, GameState::Playing);
    assert_eq!(st.next, GameState::Playing);
}

#[test]
fn commit_twice_settles_and_is_idempotent() {
    let mut st = triple(GameState::MainMenu, GameState::MainMenu, GameState::Playing);
    st.update_states();
    let after_one = st;
    st.update_states();
    assert!(st.in_state(GameState::Playing));
    // The first commit entered the state; the second only settled it.
    assert_eq!(after_one.current, st.current);
    // Further commits change nothing.
    let settled = st;
    st.update_states();
    assert_eq!(st, settled);
}
