//! What commands and ticks do to the set of units, whatever the units and
//! the commands are.
use vstd::prelude::*;
use crate::commands::GameCommand;
use crate::components::place_of;
use crate::game_state::{snapshot_of, UnitSnapshot};
use crate::resources::GameConfig;
use crate::schedule::{after_commands, unit_after_tick, units_after_tick};
use crate::store::UnitModel;
use crate::systems::handle_commands::after_command;
use crate::{has_reset, pending_after_batch, units_after_batch};

verus! {

/// A unit has a velocity only while it has a destination.
pub open spec fn calm(unit: UnitModel) -> bool {
    unit.velocity is Some ==> unit.destination is Some
}

/// A tick leaves every unit with a velocity only if it has a destination, and
/// a unit that has arrived with neither.
pub proof fn lemma_tick_keeps_calm(unit: UnitModel, config: GameConfig, millis: int)
    requires
        calm(unit),
    ensures
        calm(unit_after_tick(unit, config, millis)),
        unit_after_tick(unit, config, millis).id == unit.id,
        unit.destination is Some && unit_after_tick(unit, config, millis).destination is None
            ==> unit_after_tick(unit, config, millis).velocity is None && unit_after_tick(
            unit,
            config,
            millis,
        ).position == place_of(unit.destination->0),
{
}

/// No command gives a unit a velocity, so commands leave every unit with a
/// velocity only if it has a destination.
pub proof fn lemma_command_keeps_calm(units: Map<Seq<char>, UnitModel>, command: GameCommand)
    requires
        forall|name: Seq<char>| units.contains_key(name) ==> calm(#[trigger] units[name]),
    ensures
        forall|name: Seq<char>|
            after_command(units, command).contains_key(name) ==> calm(
                #[trigger] after_command(units, command)[name],
            ),
{
}

/// Every unit of `units` has a velocity only if it has a destination.
pub open spec fn all_calm(units: Map<Seq<char>, UnitModel>) -> bool {
    forall|name: Seq<char>| units.contains_key(name) ==> calm(#[trigger] units[name])
}

/// Commands, however many, leave every unit with a velocity only if it has a
/// destination.
pub proof fn lemma_commands_keep_calm(
    units: Map<Seq<char>, UnitModel>,
    commands: Seq<GameCommand>,
    count: nat,
)
    requires
        all_calm(units),
    ensures
        all_calm(after_commands(units, commands, count)),
    decreases count,
{
    if count > 0 {
        lemma_commands_keep_calm(units, commands, (count - 1) as nat);
        lemma_command_keeps_calm(
            after_commands(units, commands, (count - 1) as nat),
            commands[count - 1],
        );
    }
}

/// A whole tick, commands and all, leaves every unit with a velocity only if
/// it has a destination.
pub proof fn lemma_tick_keeps_all_calm(
    units: Map<Seq<char>, UnitModel>,
    commands: Seq<GameCommand>,
    config: GameConfig,
    millis: int,
)
    requires
        all_calm(units),
    ensures
        all_calm(units_after_tick(units, commands, config, millis)),
{
    lemma_commands_keep_calm(units, commands, commands.len());
    let applied = after_commands(units, commands, commands.len());
    assert forall|name: Seq<char>|
        units_after_tick(units, commands, config, millis).contains_key(name) implies calm(
        #[trigger] units_after_tick(units, commands, config, millis)[name],
    ) by {
        lemma_tick_keeps_calm(applied[name], config, millis);
    }
}

/// After a batch with a reset the readers are shown no unit, however many
/// there were, and the tick that follows shows none either.
pub proof fn lemma_reset_shows_nothing(
    units: Map<Seq<char>, UnitModel>,
    pending: Seq<GameCommand>,
    commands: Seq<GameCommand>,
    config: GameConfig,
    millis: int,
)
    requires
        has_reset(commands),
    ensures
        snapshot_of(units_after_batch(units, commands)) == Map::<Seq<char>, UnitSnapshot>::empty(),
        snapshot_of(
            units_after_tick(
                units_after_batch(units, commands),
                pending_after_batch(pending, commands),
                config,
                millis,
            ),
        ) == Map::<Seq<char>, UnitSnapshot>::empty(),
{
    let none = Map::<Seq<char>, UnitModel>::empty();
    assert(snapshot_of(none) =~= Map::<Seq<char>, UnitSnapshot>::empty());
    assert(after_commands(none, Seq::<GameCommand>::empty(), 0) == none);
    assert(units_after_tick(none, Seq::<GameCommand>::empty(), config, millis) =~= none);
}

/// The names of the units that the first `count` of `commands` ask to create.
pub open spec fn created_names(commands: Seq<GameCommand>, count: nat) -> Set<Seq<char>> {
    Set::new(
        |name: Seq<char>|
            exists|i: int|
                0 <= i < count && (#[trigger] commands[i]) is CreateUnitCommand
                    && commands[i]->unit.id@ == name,
    )
}

/// Commands create exactly the units they name: after them the world holds
/// the names it held and those of the units to create, and no other.
pub proof fn lemma_commands_create_their_units(
    units: Map<Seq<char>, UnitModel>,
    commands: Seq<GameCommand>,
    count: nat,
)
    requires
        count <= commands.len(),
    ensures
        after_commands(units, commands, count).dom() == units.dom().union(
            created_names(commands, count),
        ),
    decreases count,
{
    if count == 0 {
        assert(after_commands(units, commands, count).dom() =~= units.dom().union(
            created_names(commands, count),
        ));
    } else {
        let earlier = (count - 1) as nat;
        lemma_commands_create_their_units(units, commands, earlier);
        let before = after_commands(units, commands, earlier);
        let command = commands[count - 1];
        assert forall|name: Seq<char>|
            after_command(before, command).contains_key(name) <==> units.dom().union(
                created_names(commands, count),
            ).contains(name) by {
            if created_names(commands, count).contains(name) {
                let i = choose|i: int|
                    0 <= i < count && (#[trigger] commands[i]) is CreateUnitCommand
                        && commands[i]->unit.id@ == name;
                if i < earlier {
                    assert(created_names(commands, earlier).contains(name));
                }
            }
            if created_names(commands, earlier).contains(name) {
                let i = choose|i: int|
                    0 <= i < earlier && (#[trigger] commands[i]) is CreateUnitCommand
                        && commands[i]->unit.id@ == name;
                assert(0 <= i < count && commands[i] is CreateUnitCommand);
            }
            if command is CreateUnitCommand && command->unit.id@ == name {
                assert(0 <= count - 1 < count && commands[count - 1] is CreateUnitCommand);
            }
        }
        assert(after_commands(units, commands, count).dom() =~= units.dom().union(
            created_names(commands, count),
        ));
    }
}

/// After a tick that began with no unit and with commands that create units,
/// the readers are shown exactly the names that the commands gave, whatever
/// their order.
pub proof fn lemma_created_units_are_shown(
    commands: Seq<GameCommand>,
    config: GameConfig,
    millis: int,
)
    ensures
        snapshot_of(
            units_after_tick(Map::<Seq<char>, UnitModel>::empty(), commands, config, millis),
        ).dom() == created_names(commands, commands.len()),
{
    let none = Map::<Seq<char>, UnitModel>::empty();
    lemma_commands_create_their_units(none, commands, commands.len());
    assert(snapshot_of(units_after_tick(none, commands, config, millis)).dom()
        =~= created_names(commands, commands.len()));
}

/// A destination for a name that no unit goes by changes nothing: the units
/// are the same, and so is what the readers are shown.
pub proof fn lemma_unknown_name_changes_nothing(
    units: Map<Seq<char>, UnitModel>,
    position: (i32, i32),
    uuid: String,
)
    requires
        !units.contains_key(uuid@),
    ensures
        after_command(units, GameCommand::SetUnitDestinationCommand { position, uuid }) == units,
        snapshot_of(
            after_command(units, GameCommand::SetUnitDestinationCommand { position, uuid }),
        ) == snapshot_of(units),
{
}

} // verus!
