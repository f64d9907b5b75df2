//! What the outside world can ask of the simulation.
use vstd::prelude::*;
use crate::game_state::Unit;

verus! {

/// An intent to change the world. It takes effect when the simulation next
/// applies its waiting commands.
#[derive(Debug)]
pub enum GameCommand {
    /// Create a unit with the position and the name of `unit`.
    CreateUnitCommand { unit: Unit },
    /// Send the unit named `uuid` to `position`.
    SetUnitDestinationCommand { position: (i32, i32), uuid: String },
    /// Throw the whole world away and start with an empty one.
    ResetGameCommand,
}

impl Clone for GameCommand {
    fn clone(&self) -> (copy: GameCommand)
        ensures
            copy == *self,
    {
        match self {
            GameCommand::CreateUnitCommand { unit } => GameCommand::CreateUnitCommand {
                unit: unit.clone(),
            },
            GameCommand::SetUnitDestinationCommand { position, uuid } => {
                GameCommand::SetUnitDestinationCommand { position: *position, uuid: uuid.clone() }
            },
            GameCommand::ResetGameCommand => GameCommand::ResetGameCommand,
        }
    }
}

} // verus!
