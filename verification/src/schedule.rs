//! The order in which a tick runs its stages.
use vstd::prelude::*;
use crate::commands::GameCommand;
use crate::game_state::{index_matches, lemma_change_each_unit, units_by_name};
use crate::resources::{GameConfig, Resources};
use crate::store::UnitModel;
use crate::systems::destination_to_velocity::{destination_to_velocity, sought};
use crate::systems::handle_commands::{after_command, handle_commands};
use crate::systems::remove_destination_on_arrival::{
    remove_destination_on_arrival_system, settled,
};
use crate::systems::velocity_to_position::{carried, velocity_to_position_system};
use legion::World;

verus! {

/// One stage of a tick. What a stage changes is in the world before the next
/// stage begins.
#[derive(Clone, Copy, Debug, PartialEq, Eq, Structural)]
pub enum Stage {
    /// The waiting commands are applied, in the order in which they came.
    HandleCommands,
    /// Units with a destination get their velocity.
    DestinationToVelocity,
    /// Units with a velocity move.
    VelocityToPosition,
    /// Units that have arrived stop.
    RemoveDestinationOnArrival,
}

/// The stages of a tick, in order.
pub struct Schedule {
    stages: Vec<Stage>,
}

/// The units and the waiting commands, as the stages of a tick see them.
pub struct TickModel {
    pub units: Map<Seq<char>, UnitModel>,
    pub commands: Seq<GameCommand>,
}

/// The units after the first `count` of `commands`, applied in order.
pub open spec fn after_commands(
    units: Map<Seq<char>, UnitModel>,
    commands: Seq<GameCommand>,
    count: nat,
) -> Map<Seq<char>, UnitModel>
    decreases count,
{
    if count == 0 {
        units
    } else {
        after_command(after_commands(units, commands, (count - 1) as nat), commands[count - 1])
    }
}

/// What one stage makes of the units and the waiting commands.
pub open spec fn after_stage(
    stage: Stage,
    model: TickModel,
    config: GameConfig,
    millis: int,
) -> TickModel {
    match stage {
        Stage::HandleCommands => TickModel {
            units: after_commands(model.units, model.commands, model.commands.len()),
            commands: Seq::empty(),
        },
        Stage::DestinationToVelocity => TickModel {
            units: model.units.map_values(
                |unit: UnitModel| sought(unit, config.speed as int, millis),
            ),
            commands: model.commands,
        },
        Stage::VelocityToPosition => TickModel {
            units: model.units.map_values(|unit: UnitModel| carried(unit, millis)),
            commands: model.commands,
        },
        Stage::RemoveDestinationOnArrival => TickModel {
            units: model.units.map_values(
                |unit: UnitModel| settled(unit, config.arrival_threshold as int),
            ),
            commands: model.commands,
        },
    }
}

/// What the first `count` of `stages`, run in order, make of the units and the
/// waiting commands.
pub open spec fn after_stages(
    stages: Seq<Stage>,
    count: nat,
    model: TickModel,
    config: GameConfig,
    millis: int,
) -> TickModel
    decreases count,
{
    if count == 0 {
        model
    } else {
        after_stage(
            stages[count - 1],
            after_stages(stages, (count - 1) as nat, model, config, millis),
            config,
            millis,
        )
    }
}

/// The stages of a tick: commands, seek, integration, arrival.
pub open spec fn tick_stages() -> Seq<Stage> {
    seq![
        Stage::HandleCommands,
        Stage::DestinationToVelocity,
        Stage::VelocityToPosition,
        Stage::RemoveDestinationOnArrival,
    ]
}

/// A unit after the three stages that follow the commands: seek, integration,
/// arrival.
pub open spec fn unit_after_tick(unit: UnitModel, config: GameConfig, millis: int) -> UnitModel {
    settled(
        carried(sought(unit, config.speed as int, millis), millis),
        config.arrival_threshold as int,
    )
}

/// The units after a whole tick: the waiting commands are applied in order,
/// then every unit goes through seek, integration and arrival.
pub open spec fn units_after_tick(
    units: Map<Seq<char>, UnitModel>,
    commands: Seq<GameCommand>,
    config: GameConfig,
    millis: int,
) -> Map<Seq<char>, UnitModel> {
    after_commands(units, commands, commands.len()).map_values(
        |unit: UnitModel| unit_after_tick(unit, config, millis),
    )
}

/// Running the stages of a tick in order applies the commands and then takes
/// every unit through seek, integration and arrival; no command is left.
pub proof fn lemma_tick_stages(
    units: Map<Seq<char>, UnitModel>,
    commands: Seq<GameCommand>,
    config: GameConfig,
    millis: int,
)
    ensures
        after_stages(tick_stages(), 4, (TickModel { units, commands }), config, millis)
            == (TickModel {
            units: units_after_tick(units, commands, config, millis),
            commands: Seq::empty(),
        }),
{
    let stages = tick_stages();
    let start = TickModel { units, commands };
    let zero = after_stages(stages, 0, start, config, millis);
    let one = after_stages(stages, 1, start, config, millis);
    let two = after_stages(stages, 2, start, config, millis);
    let three = after_stages(stages, 3, start, config, millis);
    let four = after_stages(stages, 4, start, config, millis);
    assert(zero == start);
    assert(one == after_stage(stages[0], zero, config, millis));
    assert(two == after_stage(stages[1], one, config, millis));
    assert(three == after_stage(stages[2], two, config, millis));
    assert(four == after_stage(stages[3], three, config, millis));
    assert(four.units =~= units_after_tick(units, commands, config, millis));
}

/// The schedule of a tick: commands first, then seek, integration and arrival.
/// Arrival comes after integration, so that a unit is judged by where its move
/// has taken it.
pub fn create_schedule() -> (schedule: Schedule)
    ensures
        schedule@ == tick_stages(),
{
    let mut stages: Vec<Stage> = Vec::new();
    stages.push(Stage::HandleCommands);
    stages.push(Stage::DestinationToVelocity);
    stages.push(Stage::VelocityToPosition);
    stages.push(Stage::RemoveDestinationOnArrival);
    assert(stages@ =~= tick_stages());
    Schedule { stages }
}

/// Applies every waiting command to the world, in order, and empties the list.
pub fn handle_commands_system(world: &mut World, resources: &mut Resources)
    requires
        index_matches(*old(world), old(resources).id_map),
    ensures
        index_matches(*final(world), final(resources).id_map),
        units_by_name(*final(world), final(resources).id_map) == after_commands(
            units_by_name(*old(world), old(resources).id_map),
            old(resources).commands@,
            old(resources).commands@.len(),
        ),
        final(resources).commands@ == Seq::<GameCommand>::empty(),
        final(resources).time == old(resources).time,
        final(resources).config == old(resources).config,
{
    let ghost units = units_by_name(*world, resources.id_map);
    let ghost commands = resources.commands@;
    let mut i: usize = 0;
    while i < resources.commands.len()
        invariant
            i <= commands.len(),
            resources.commands@ == commands,
            resources.time == old(resources).time,
            resources.config == old(resources).config,
            index_matches(*world, resources.id_map),
            units_by_name(*world, resources.id_map) == after_commands(units, commands, i as nat),
        decreases commands.len() - i,
    {
        handle_commands(world, &resources.commands[i], &mut resources.id_map);
        i += 1;
    }
    resources.commands.clear();
}

impl Schedule {
    /// The stages, in the order in which they run.
    pub closed spec fn view(&self) -> Seq<Stage> {
        self.stages@
    }

    /// The stages, in the order in which they run.
    pub fn stages(&self) -> (stages: &Vec<Stage>)
        ensures
            stages@ == self@,
    {
        &self.stages
    }

    /// Runs the stages in order on the world.
    pub fn execute(&self, world: &mut World, resources: &mut Resources)
        requires
            index_matches(*old(world), old(resources).id_map),
        ensures
            index_matches(*final(world), final(resources).id_map),
            (TickModel {
                units: units_by_name(*final(world), final(resources).id_map),
                commands: final(resources).commands@,
            }) == after_stages(
                self@,
                self@.len(),
                (TickModel {
                    units: units_by_name(*old(world), old(resources).id_map),
                    commands: old(resources).commands@,
                }),
                old(resources).config,
                old(resources).time.elapsed_millis as int,
            ),
            final(resources).time == old(resources).time,
            final(resources).config == old(resources).config,
    {
        let ghost start = TickModel {
            units: units_by_name(*world, resources.id_map),
            commands: resources.commands@,
        };
        let ghost config = resources.config;
        let ghost millis = resources.time.elapsed_millis as int;
        let mut i: usize = 0;
        while i < self.stages.len()
            invariant
                i <= self.stages@.len(),
                resources.time == old(resources).time,
                resources.config == config,
                millis == resources.time.elapsed_millis as int,
                index_matches(*world, resources.id_map),
                (TickModel {
                    units: units_by_name(*world, resources.id_map),
                    commands: resources.commands@,
                }) == after_stages(self@, i as nat, start, config, millis),
            decreases self.stages@.len() - i,
        {
            let ghost before = *world;
            match self.stages[i] {
                Stage::HandleCommands => {
                    handle_commands_system(world, resources);
                },
                Stage::DestinationToVelocity => {
                    destination_to_velocity(world, &resources.time, resources.config.speed);
                    proof {
                        lemma_change_each_unit(
                            before,
                            *world,
                            resources.id_map,
                            |unit: UnitModel| sought(unit, config.speed as int, millis),
                        );
                    }
                },
                Stage::VelocityToPosition => {
                    velocity_to_position_system(world, &resources.time);
                    proof {
                        lemma_change_each_unit(
                            before,
                            *world,
                            resources.id_map,
                            |unit: UnitModel| carried(unit, millis),
                        );
                    }
                },
                Stage::RemoveDestinationOnArrival => {
                    remove_destination_on_arrival_system(world, resources.config.arrival_threshold);
                    proof {
                        lemma_change_each_unit(
                            before,
                            *world,
                            resources.id_map,
                            |unit: UnitModel| settled(unit, config.arrival_threshold as int),
                        );
                    }
                },
            }
            i += 1;
        }
    }
}

} // verus!
