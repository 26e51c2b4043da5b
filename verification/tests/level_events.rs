use platformer_physics::events::{handle_events, next_level, LevelAction};
use platformer_physics::resolve::GameEvent;
use platformer_physics::state::GameState;

#[test]
fn death_restarts_the_level() {
    let ev = vec![GameEvent::Death];
    assert_eq!(handle_events(&ev, false, false), LevelAction::Restart);
}

#[test]
fn win_advances_the_level() {
    let ev = vec![GameEvent::Win];
    assert_eq!(handle_events(&ev, false, false), LevelAction::Advance);
}

#[test]
fn death_takes_precedence_over_win() {
    let ev = vec![GameEvent::Death, GameEvent::Win];
    assert_eq!(handle_events(&ev, false, false), LevelAction::Restart);
}

#[test]
fn manual_restart_and_skip_inputs() {
    let none: Vec<GameEvent> = Vec::new();
    assert_eq!(handle_events(&none, true, false), LevelAction::Restart);
    assert_eq!(handle_events(&none, false, true), LevelAction::Advance);
    assert_eq!(handle_events(&none, true, true), LevelAction::Restart);
    assert_eq!(handle_events(&none, false, false), LevelAction::Stay);
}

#[test]
fn next_level_counts_only_on_advance() {
    assert_eq!(next_level(3, LevelAction::Advance), 4);
    assert_eq!(next_level(3, LevelAction::Restart), 3);
    assert_eq!(next_level(3, LevelAction::Stay), 3);
}

#[test]
fn physics_runs_only_while_playing() {
    assert!(GameState::Play.physics_active());
    assert!(!GameState::MainMenu.physics_active());
    assert!(!GameState::Pause.physics_active());
    assert!(!GameState::Death.physics_active());
}
