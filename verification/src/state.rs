//! The states of the game, and which of them each group of systems runs in.

use vstd::prelude::*;

verus! {

/// Whether the game is still loading its assets.
#[derive(Debug, Clone, Copy, PartialEq, Eq, Hash, Structural)]
pub enum MainState {
    Loading,
    Playing,
}

impl Default for MainState {
    /// The game starts by loading.
    fn default() -> (state: Self)
        ensures
            state == MainState::Loading,
    {
        MainState::Loading
    }
}

/// What the player does while the game is played: shoot, or edit the graph.
#[derive(Debug, Clone, Copy, PartialEq, Eq, Hash, Structural)]
pub enum PlayingState {
    Idle,
    ShootyTime,
    Editor,
}

impl Default for PlayingState {
    /// Before the game is played the player does neither.
    fn default() -> (state: Self)
        ensures
            state == PlayingState::Idle,
    {
        PlayingState::Idle
    }
}

impl PlayingState {
    /// The state that the mode key leads to.
    pub open spec fn swapped(self) -> PlayingState {
        match self {
            PlayingState::Idle => PlayingState::Idle,
            PlayingState::ShootyTime => PlayingState::Editor,
            PlayingState::Editor => PlayingState::ShootyTime,
        }
    }
}

/// The state after the mode key: shooting and editing take turns, and
/// outside of both nothing changes.
pub fn swap_mode(state: PlayingState) -> (next: PlayingState)
    ensures
        next == state.swapped(),
{
    match state {
        PlayingState::Idle => PlayingState::Idle,
        PlayingState::ShootyTime => PlayingState::Editor,
        PlayingState::Editor => PlayingState::ShootyTime,
    }
}

/// Pressing the mode key twice leads back to where one was.
pub proof fn lemma_swap_twice(state: PlayingState)
    ensures
        state.swapped().swapped() == state,
{
}

/// Whether the system cursor shows after the state was entered: it shows
/// in the editor, hides while shooting, and stays as it was otherwise.
pub fn set_cursor_visibility(visible: bool, state: PlayingState) -> (shown: bool)
    ensures
        shown == match state {
            PlayingState::Idle => visible,
            PlayingState::Editor => true,
            PlayingState::ShootyTime => false,
        },
{
    match state {
        PlayingState::Idle => visible,
        PlayingState::Editor => true,
        PlayingState::ShootyTime => false,
    }
}

} // verus!
