//! The command stage: one waiting command is applied to the world.
use vstd::prelude::*;
use crate::commands::GameCommand;
use crate::components::{Destination, Position, UnitId};
use crate::game_state::{index_matches, units_by_name, UidEntityMap};
use crate::store::{new_unit, with_destination, world_push, world_set_destination, UnitModel};
use legion::World;

verus! {

/// What became of a command.
#[derive(Clone, Copy, Debug, PartialEq, Eq, Structural)]
pub enum CommandOutcome {
    /// The command changed the world.
    Applied,
    /// A unit of that name exists already; none was created.
    DuplicateId,
    /// No unit goes by that name; nothing changed.
    UnknownId,
    /// A reset is not applied to a world: the loop replaces the world itself.
    LeftToLoop,
}

/// The position that a pair of coordinates names.
pub open spec fn position_at(place: (i32, i32)) -> Position {
    Position { x: place.0, y: place.1 }
}

/// The destination that a pair of coordinates names.
pub open spec fn destination_at(place: (i32, i32)) -> Destination {
    Destination { x: place.0, y: place.1 }
}

/// What becomes of `command` in a world with these units.
pub open spec fn outcome_of(units: Map<Seq<char>, UnitModel>, command: GameCommand) -> CommandOutcome {
    match command {
        GameCommand::CreateUnitCommand { unit } => if units.contains_key(unit.id@) {
            CommandOutcome::DuplicateId
        } else {
            CommandOutcome::Applied
        },
        GameCommand::SetUnitDestinationCommand { position, uuid } => if units.contains_key(uuid@) {
            CommandOutcome::Applied
        } else {
            CommandOutcome::UnknownId
        },
        GameCommand::ResetGameCommand => CommandOutcome::LeftToLoop,
    }
}

/// The units after `command`. Creating a unit adds it at its position, at
/// rest, unless the name is taken. Setting a destination gives it to the unit
/// of that name, in place of the one it had, and does nothing where there is
/// no such unit. A reset leaves the units alone.
pub open spec fn after_command(
    units: Map<Seq<char>, UnitModel>,
    command: GameCommand,
) -> Map<Seq<char>, UnitModel> {
    match command {
        GameCommand::CreateUnitCommand { unit } => if units.contains_key(unit.id@) {
            units
        } else {
            units.insert(unit.id@, new_unit(unit.id@, position_at(unit.position)))
        },
        GameCommand::SetUnitDestinationCommand { position, uuid } => if units.contains_key(uuid@) {
            units.insert(uuid@, with_destination(units[uuid@], Some(destination_at(position))))
        } else {
            units
        },
        GameCommand::ResetGameCommand => units,
    }
}

/// Applies one command to the world and keeps the index of names in step.
pub fn handle_commands(
    world: &mut World,
    game_command: &GameCommand,
    id_map: &mut UidEntityMap,
) -> (outcome: CommandOutcome)
    requires
        index_matches(*old(world), *old(id_map)),
    ensures
        index_matches(*final(world), *final(id_map)),
        units_by_name(*final(world), *final(id_map)) == after_command(
            units_by_name(*old(world), *old(id_map)),
            *game_command,
        ),
        outcome == outcome_of(units_by_name(*old(world), *old(id_map)), *game_command),
{
    let ghost units = units_by_name(*world, *id_map);
    match game_command {
        GameCommand::CreateUnitCommand { unit } => {
            if id_map.contains_key(unit.id.as_str()) {
                CommandOutcome::DuplicateId
            } else {
                let position = Position { x: unit.position.0, y: unit.position.1 };
                let entity = world_push(world, position, UnitId { id: unit.id.clone() });
                id_map.insert(unit.id.clone(), entity);
                assert(units_by_name(*world, *id_map) =~= after_command(units, *game_command));
                CommandOutcome::Applied
            }
        },
        GameCommand::SetUnitDestinationCommand { position, uuid } => {
            match id_map.get(uuid.as_str()) {
                Some(entity) => {
                    let destination = Destination { x: position.0, y: position.1 };
                    world_set_destination(world, *entity, destination);
                    assert(units_by_name(*world, *id_map) =~= after_command(units, *game_command));
                    CommandOutcome::Applied
                },
                None => CommandOutcome::UnknownId,
            }
        },
        GameCommand::ResetGameCommand => CommandOutcome::LeftToLoop,
    }
}

} // verus!
