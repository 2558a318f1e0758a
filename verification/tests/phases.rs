use tetris_server::phase::{advance_phase, new_game_state, GamePhase, PREGAME_TIME_LIMIT_MS};

#[test]
fn phase_names() {
    assert_eq!(GamePhase::Pregame.as_str(), "pregame");
    assert_eq!(GamePhase::Starting.as_str(), "starting");
    assert_eq!(GamePhase::Live.as_str(), "live");
}

#[test]
fn pregame_then_starting_then_live() {
    let limit = PREGAME_TIME_LIMIT_MS;
    assert_eq!(limit, 10_000);
    let mut state = new_game_state(1_000);
    advance_phase(&mut state, 10_999, limit);
    assert_eq!(state.game_phase, GamePhase::Pregame);
    advance_phase(&mut state, 11_000, limit);
    assert_eq!(state.game_phase, GamePhase::Starting);
    assert_eq!(state.start_ms, None);
    // The second wait begins at the next look at the clock.
    advance_phase(&mut state, 11_017, limit);
    assert_eq!(state.game_phase, GamePhase::Starting);
    assert_eq!(state.start_ms, Some(11_017));
    advance_phase(&mut state, 21_016, limit);
    assert_eq!(state.game_phase, GamePhase::Starting);
    advance_phase(&mut state, 21_017, limit);
    assert_eq!(state.game_phase, GamePhase::Live);
    advance_phase(&mut state, 99_999, limit);
    assert_eq!(state.game_phase, GamePhase::Live);
    assert_eq!(state.start_ms, Some(11_017));
    assert_eq!(state.init_ms, 1_000);
}

#[test]
fn clock_earlier_than_creation_counts_as_no_time() {
    let mut state = new_game_state(5_000);
    advance_phase(&mut state, 0, 10);
    assert_eq!(state.game_phase, GamePhase::Pregame);
}

#[test]
fn live_comes_after_twice_the_wait() {
    let limit = 100;
    let mut state = new_game_state(0);
    let mut now = 0;
    while state.game_phase != GamePhase::Live {
        now += 17;
        advance_phase(&mut state, now, limit);
    }
    assert!(now >= 2 * limit);
}
