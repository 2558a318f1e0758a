//! The phases a match goes through before play starts.
use vstd::prelude::*;

verus! {

/// How long each of the two waits before play lasts, in milliseconds.
pub const PREGAME_TIME_LIMIT_MS: u64 = 10000;

/// The phase of a match.
#[derive(Clone, Copy, PartialEq, Eq, Structural, Debug)]
pub enum GamePhase {
    /// Players have been told that the match starts; the first wait runs.
    Pregame,
    /// The second wait runs.
    Starting,
    /// Pieces fall.
    Live,
}

/// The name of a phase.
pub open spec fn phase_name(phase: GamePhase) -> Seq<char> {
    match phase {
        GamePhase::Pregame => seq!['p', 'r', 'e', 'g', 'a', 'm', 'e'],
        GamePhase::Starting => seq!['s', 't', 'a', 'r', 't', 'i', 'n', 'g'],
        GamePhase::Live => seq!['l', 'i', 'v', 'e'],
    }
}

/// The position of a phase in the order in which a match goes through them.
pub open spec fn phase_rank(phase: GamePhase) -> int {
    match phase {
        GamePhase::Pregame => 0,
        GamePhase::Starting => 1,
        GamePhase::Live => 2,
    }
}

impl GamePhase {
    /// The phase's name.
    pub fn as_str(&self) -> (name: &'static str)
        ensures
            name@ == phase_name(*self),
    {
        match self {
            GamePhase::Pregame => {
                proof {
                    reveal_strlit("pregame");
                }
                "pregame"
            },
            GamePhase::Starting => {
                proof {
                    reveal_strlit("starting");
                }
                "starting"
            },
            GamePhase::Live => {
                proof {
                    reveal_strlit("live");
                }
                "live"
            },
        }
    }
}

/// The timing state of a match. Times are milliseconds on a clock that never
/// goes backwards.
#[derive(Clone, Copy, PartialEq, Eq, Structural, Debug)]
pub struct GameState {
    pub game_phase: GamePhase,
    /// When the match was created.
    pub init_ms: u64,
    /// When the second wait began, once it has.
    pub start_ms: Option<u64>,
}

/// Time elapsed from `since` to `now`, or zero when `now` is earlier.
pub open spec fn elapsed(since: u64, now: u64) -> int {
    if now >= since {
        now - since
    } else {
        0
    }
}

/// The state of a match created at `now`.
pub open spec fn initial_state(now: u64) -> GameState {
    GameState { game_phase: GamePhase::Pregame, init_ms: now, start_ms: None }
}

/// The state after one look at the clock at time `now`: the first wait ends
/// once `limit` has elapsed since creation; the second wait begins at the
/// first look after that, and play starts once `limit` has elapsed since it
/// began.
pub open spec fn next_state(state: GameState, now: u64, limit: u64) -> GameState {
    match state.game_phase {
        GamePhase::Pregame => {
            if elapsed(state.init_ms, now) >= limit {
                GameState { game_phase: GamePhase::Starting, ..state }
            } else {
                state
            }
        },
        GamePhase::Starting => {
            match state.start_ms {
                Some(start) => {
                    if elapsed(start, now) >= limit {
                        GameState { game_phase: GamePhase::Live, ..state }
                    } else {
                        state
                    }
                },
                None => GameState { start_ms: Some(now), ..state },
            }
        },
        GamePhase::Live => state,
    }
}

/// The state after looking at the clock at each time of `times` in turn.
pub open spec fn run_states(state: GameState, times: Seq<u64>, limit: u64) -> GameState
    decreases times.len(),
{
    if times.len() == 0 {
        state
    } else {
        next_state(run_states(state, times.drop_last(), limit), times.last(), limit)
    }
}

/// A new match created at `now_ms`, in its first wait.
pub fn new_game_state(now_ms: u64) -> (state: GameState)
    ensures
        state == initial_state(now_ms),
{
    GameState { game_phase: GamePhase::Pregame, init_ms: now_ms, start_ms: None }
}

/// Time elapsed from `since` to `now`, or zero when `now` is earlier.
fn elapsed_ms(since: u64, now: u64) -> (d: u64)
    ensures
        d == elapsed(since, now),
{
    if now >= since {
        now - since
    } else {
        0
    }
}

/// Looks at the clock at time `now_ms` and moves the match on to its next
/// phase when its wait of `limit_ms` is over.
pub fn advance_phase(state: &mut GameState, now_ms: u64, limit_ms: u64)
    ensures
        *final(state) == next_state(*old(state), now_ms, limit_ms),
{
    match state.game_phase {
        GamePhase::Pregame => {
            if elapsed_ms(state.init_ms, now_ms) >= limit_ms {
                state.game_phase = GamePhase::Starting;
            }
        },
        GamePhase::Starting => {
            match state.start_ms {
                Some(start) => {
                    if elapsed_ms(start, now_ms) >= limit_ms {
                        state.game_phase = GamePhase::Live;
                    }
                },
                None => {
                    state.start_ms = Some(now_ms);
                },
            }
        },
        GamePhase::Live => {},
    }
}

/// A match never goes back to an earlier phase, and moves on by at most one
/// phase per look at the clock; once live it stays live.
pub proof fn phase_never_goes_back(state: GameState, now: u64, limit: u64)
    ensures
        phase_rank(state.game_phase) <= phase_rank(next_state(state, now, limit).game_phase)
            <= phase_rank(state.game_phase) + 1,
        state.game_phase == GamePhase::Live ==> next_state(state, now, limit) == state,
{
}

/// What holds of a match's timing after it has looked at the clock at
/// nondecreasing times, none earlier than its creation.
pub open spec fn timing_holds(state: GameState, last: u64, limit: u64) -> bool {
    match state.game_phase {
        GamePhase::Pregame => state.start_ms is None,
        GamePhase::Starting => match state.start_ms {
            None => last >= state.init_ms + limit,
            Some(start) => state.init_ms + limit <= start <= last,
        },
        GamePhase::Live => match state.start_ms {
            None => false,
            Some(start) => state.init_ms + limit <= start && start + limit <= last,
        },
    }
}

proof fn timing_holds_along_run(init: u64, times: Seq<u64>, limit: u64)
    requires
        times.len() > 0,
        forall|i: int, j: int| 0 <= i <= j < times.len() ==> times[i] <= times[j],
        forall|i: int| 0 <= i < times.len() ==> init <= #[trigger] times[i],
    ensures
        timing_holds(run_states(initial_state(init), times, limit), times.last(), limit),
        run_states(initial_state(init), times, limit).init_ms == init,
    decreases times.len(),
{
    let before = times.drop_last();
    if before.len() > 0 {
        assert forall|i: int, j: int| 0 <= i <= j < before.len() implies before[i] <= before[j] by {
            assert(before[i] == times[i] && before[j] == times[j]);
        }
        assert forall|i: int| 0 <= i < before.len() implies init <= #[trigger] before[i] by {
            assert(before[i] == times[i]);
        }
        timing_holds_along_run(init, before, limit);
        assert(before.last() == times[times.len() - 2]);
        assert(before.last() <= times.last());
    } else {
        assert(run_states(initial_state(init), before, limit) == initial_state(init));
        assert(init <= times[0]);
    }
    assert(run_states(initial_state(init), times, limit) == next_state(
        run_states(initial_state(init), before, limit),
        times.last(),
        limit,
    ));
}

/// Play starts only once both waits are over: a match created at `init`
/// that looks at the clock at nondecreasing times is live at its last look
/// only if at least twice `limit` has passed since its creation.
pub proof fn live_only_after_both_waits(init: u64, times: Seq<u64>, limit: u64)
    requires
        forall|i: int, j: int| 0 <= i <= j < times.len() ==> times[i] <= times[j],
        forall|i: int| 0 <= i < times.len() ==> init <= #[trigger] times[i],
    ensures
        run_states(initial_state(init), times, limit).game_phase == GamePhase::Live ==> times.last()
            >= init + 2 * limit,
{
    if times.len() > 0 {
        timing_holds_along_run(init, times, limit);
    }
}

} // verus!
