use vstd::prelude::*;

verus! {

/// Top-level game mode. The physics pipeline runs only while playing;
/// menus, pause and the death screen suspend it.
#[derive(Debug, Clone, Copy, Hash, Eq, PartialEq, Structural)]
pub enum GameState {
    MainMenu,
    Play,
    Pause,
    Death,
}

impl GameState {
    /// True exactly in the one state in which a simulation tick may run.
    pub fn physics_active(self) -> (r: bool)
        ensures
            r == (self == GameState::Play),
    {
        matches!(self, GameState::Play)
    }
}

} // verus!
