//! Simulation mode — controls which cameras render and whether gameplay ticks.
use vstd::prelude::*;

verus! {

/// The operational mode of the Stratum world.
///
/// Mode is hot-switchable via `Stratum::set_mode()` or
/// `Stratum::toggle_mode()` at any point during a session.
///
/// | Camera kind           | Editor | Game |
/// |-----------------------|--------|------|
/// | `EditorPerspective`   | ✓      | ✗    |
/// | `EditorOrthographic`  | ✓      | ✗    |
/// | `GameCamera`          | ✗      | ✓    |
#[derive(Debug, Clone, Copy, PartialEq, Eq)]
pub enum SimulationMode {
    /// Editor mode: editor cameras render; gameplay simulation is paused.
    Editor,
    /// Game mode: the runtime simulation is active.
    Game,
}

/// The other mode.
pub open spec fn flipped(m: SimulationMode) -> SimulationMode {
    match m {
        SimulationMode::Editor => SimulationMode::Game,
        SimulationMode::Game => SimulationMode::Editor,
    }
}

impl SimulationMode {
    pub fn is_editor(&self) -> (b: bool)
        ensures
            b == (*self == SimulationMode::Editor),
    {
        matches!(self, SimulationMode::Editor)
    }

    pub fn is_game(&self) -> (b: bool)
        ensures
            b == (*self == SimulationMode::Game),
    {
        matches!(self, SimulationMode::Game)
    }

    /// Toggle between `Editor` and `Game`.
    pub fn toggle(&mut self)
        ensures
            *final(self) == flipped(*old(self)),
    {
        *self = match self {
            SimulationMode::Editor => SimulationMode::Game,
            SimulationMode::Game => SimulationMode::Editor,
        };
    }
}

/// Toggling twice gives back the mode one started with, and a toggle always
/// changes the mode.
pub proof fn lemma_toggle_twice(m: SimulationMode)
    ensures
        flipped(flipped(m)) == m,
        flipped(m) != m,
{
}

} // verus!
