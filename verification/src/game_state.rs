//! The pause state machine: two states, playing and paused, toggled on the
//! rising edge of the pause input.
use vstd::prelude::*;

verus! {

/// Whether the simulation is advancing. Read by every gated phase; written
/// only by the pause toggle.
#[derive(Clone, Copy, PartialEq, Eq, Structural, Debug)]
pub struct GameState {
    pub is_playing: bool,
}

impl Default for GameState {
    /// A fresh simulation starts out playing.
    fn default() -> (r: Self)
        ensures
            r.is_playing,
    {
        GameState { is_playing: true }
    }
}

/// Flips the playing flag on the rising edge of the pause input and leaves it
/// alone otherwise; no other transition exists.
pub fn pause_controls(game_state: &mut GameState, pause_just_pressed: bool)
    ensures
        final(game_state).is_playing == (old(game_state).is_playing != pause_just_pressed),
{
    if pause_just_pressed {
        game_state.is_playing = !game_state.is_playing;
    }
}

/// Run condition for the gated phases: exactly the playing flag.
pub fn run_if_gamestate_is_playing(game_state: &GameState) -> (r: bool)
    ensures
        r == game_state.is_playing,
{
    game_state.is_playing
}

} // verus!
