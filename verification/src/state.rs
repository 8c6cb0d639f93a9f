use vstd::prelude::*;

verus! {

/// The two stages of a session: assets are still being loaded, or the world
/// is running.
#[derive(Copy, Clone, Debug, PartialEq, Eq, Hash, Structural)]
pub enum GameState {
    Loading,
    Running,
}

impl Default for GameState {
    fn default() -> (state: Self)
        ensures
            state == GameState::Loading,
    {
        GameState::Loading
    }
}

} // verus!
