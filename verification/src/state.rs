//! The phases of the application: loading, menu, play.

use vstd::prelude::*;

verus! {

/// The phase the application is in. Exactly one is active at a time, and
/// each gates its own set of systems.
#[derive(Clone, Copy, Debug, PartialEq, Eq, Hash, Structural)]
pub enum AppState {
    Loading,
    Main,
    Menu,
}

/// What the asset loader reports of the group of assets the game needs.
#[derive(Clone, Copy, Debug, PartialEq, Eq, Structural)]
pub enum LoadState {
    NotLoaded,
    Loading,
    Loaded,
    Failed,
    Unloaded,
}

/// What the pointer does to the start button.
#[derive(Clone, Copy, Debug, PartialEq, Eq, Structural)]
pub enum Interaction {
    Clicked,
    Hovered,
    Idle,
}

/// The score-like counters shown to the player.
#[derive(Clone, Copy, Debug, PartialEq, Eq, Hash, Structural)]
pub struct GameState {
    pub enemies_left: u32,
}

impl AppState {
    /// Place of the phase in the course of a session.
    pub open spec fn rank(self) -> int {
        match self {
            AppState::Loading => 0,
            AppState::Menu => 1,
            AppState::Main => 2,
        }
    }

    /// The phase after the loader has reported: loading ends in the menu
    /// once every asset is there.
    pub open spec fn after_loading(self, load: LoadState) -> AppState {
        if self == AppState::Loading && load == LoadState::Loaded {
            AppState::Menu
        } else {
            self
        }
    }

    /// The phase after the start button has reported: a click in the menu
    /// starts play.
    pub open spec fn after_interaction(self, interaction: Interaction) -> AppState {
        if self == AppState::Menu && interaction == Interaction::Clicked {
            AppState::Main
        } else {
            self
        }
    }

    /// Whether the simulation runs in this phase.
    pub fn is_main(&self) -> (main: bool)
        ensures
            main == (*self == AppState::Main),
    {
        match self {
            AppState::Main => true,
            _ => false,
        }
    }
}

impl Default for AppState {
    fn default() -> (state: AppState)
        ensures
            state == AppState::Loading,
    {
        AppState::Loading
    }
}

/// The loading phase's step: hands back the phase to go on in.
pub fn loading(state: AppState, load: LoadState) -> (next: AppState)
    ensures
        next == state.after_loading(load),
{
    match (state, load) {
        (AppState::Loading, LoadState::Loaded) => AppState::Menu,
        _ => state,
    }
}

/// The menu phase's step: hands back the phase to go on in.
pub fn button_system(state: AppState, interaction: Interaction) -> (next: AppState)
    ensures
        next == state.after_interaction(interaction),
{
    match (state, interaction) {
        (AppState::Menu, Interaction::Clicked) => AppState::Main,
        _ => state,
    }
}

/// No step leads back to an earlier phase, none skips the menu, and play is
/// never left.
pub proof fn lemma_phases_only_advance(state: AppState, load: LoadState, interaction: Interaction)
    ensures
        state.rank() <= state.after_loading(load).rank() <= state.rank() + 1,
        state.rank() <= state.after_interaction(interaction).rank() <= state.rank() + 1,
        state == AppState::Main ==> state.after_loading(load) == AppState::Main
            && state.after_interaction(interaction) == AppState::Main,
{
}

} // verus!
