use vstd::prelude::*;

use crate::resolve::GameEvent;

verus! {

/// What the level driver does after a tick.
#[derive(Debug, Clone, Copy, PartialEq, Eq, Structural)]
pub enum LevelAction {
    /// Keep playing the current level.
    Stay,
    /// Tear the level down and respawn it.
    Restart,
    /// Tear the level down and spawn the next one.
    Advance,
}

/// The action the tick's events and the manual restart / skip inputs call
/// for. A death (or a restart request) restarts the level and takes
/// precedence over a win (or a skip request), which advances it.
pub open spec fn handle_events_spec(
    events: Seq<GameEvent>,
    restart_input: bool,
    advance_input: bool,
) -> LevelAction {
    if events.contains(GameEvent::Death) || restart_input {
        LevelAction::Restart
    } else if events.contains(GameEvent::Win) || advance_input {
        LevelAction::Advance
    } else {
        LevelAction::Stay
    }
}

pub fn handle_events(events: &Vec<GameEvent>, restart_input: bool, advance_input: bool) -> (r:
    LevelAction)
    ensures
        r == handle_events_spec(events@, restart_input, advance_input),
{
    let n = events.len();
    let mut dead = false;
    let mut won = false;
    let mut i: usize = 0;
    while i < n
        invariant
            n == events@.len(),
            i <= n,
            dead == exists|k: int| 0 <= k < i && events@[k] == GameEvent::Death,
            won == exists|k: int| 0 <= k < i && events@[k] == GameEvent::Win,
        decreases n - i,
    {
        match events[i] {
            GameEvent::Death => {
                dead = true;
            },
            GameEvent::Win => {
                won = true;
            },
        }
        i = i + 1;
    }
    if dead || restart_input {
        LevelAction::Restart
    } else if won || advance_input {
        LevelAction::Advance
    } else {
        LevelAction::Stay
    }
}

/// The level counter after an action: advancing moves to the next level,
/// anything else stays (a restart replays the same level).
pub fn next_level(level: u32, action: LevelAction) -> (r: u32)
    requires
        action == LevelAction::Advance ==> level < u32::MAX,
    ensures
        action == LevelAction::Advance ==> r == level + 1,
        action != LevelAction::Advance ==> r == level,
{
    match action {
        LevelAction::Advance => level + 1,
        _ => level,
    }
}

} // verus!
