//! A tick-based unit simulation: units walk in a straight line toward the
//! destination they were given and stop when they reach it.
//!
//! Every quantity is a fixed-point number with three decimal places, held as
//! an integer that counts thousandths: the coordinate `10.0` is `10_000`, one
//! second of elapsed time is `1_000`.
pub mod bookkeeping;
pub mod commands;
pub mod components;
pub mod game_state;
pub mod handler;
pub mod journey;
pub mod resources;
pub mod schedule;
pub mod store;
pub mod string_map;
pub mod systems;
pub mod vector;
pub mod ws;

use vstd::prelude::*;
use crate::bookkeeping::{all_calm, lemma_tick_keeps_all_calm};
use crate::commands::GameCommand;
use crate::components::{Destination, Position, UnitId};
use crate::game_state::{index_matches, snapshot, snapshot_of, units_by_name, GameStateCache};
use crate::resources::{usual_settings, GameConfig, Resources, TimeResource};
use crate::schedule::{create_schedule, lemma_tick_stages, tick_stages, units_after_tick, Schedule};
use crate::store::{world_entities, world_new, world_unit, world_units, UnitModel, UnitRow};
use crate::string_map::StringMap;
use legion::{Entity, World};

verus! {

/// What a reader was last told of a unit.
#[derive(Clone, Copy, Debug)]
pub struct Sighting {
    pub position: Position,
    pub destination: Option<Destination>,
}

/// What a reader is told of `unit`.
pub open spec fn sighting_of(unit: UnitModel) -> Sighting {
    Sighting { position: unit.position, destination: unit.destination }
}

/// Whether `unit` is new to a reader who was told `told`, or stands or heads
/// elsewhere than the reader was told.
pub open spec fn has_changed(told: Map<Seq<char>, Sighting>, unit: UnitModel) -> bool {
    !told.contains_key(unit.id) || told[unit.id] != sighting_of(unit)
}

/// Whether a reset is among `commands`.
pub open spec fn has_reset(commands: Seq<GameCommand>) -> bool {
    exists|i: int| 0 <= i < commands.len() && commands[i] is ResetGameCommand
}

/// The units after a batch of commands has been taken in: none where the
/// batch holds a reset, else the same.
pub open spec fn units_after_batch(
    units: Map<Seq<char>, UnitModel>,
    commands: Seq<GameCommand>,
) -> Map<Seq<char>, UnitModel> {
    if has_reset(commands) {
        Map::empty()
    } else {
        units
    }
}

/// The waiting commands after a batch has been taken in: none where the batch
/// holds a reset, else those that waited followed by the batch.
pub open spec fn pending_after_batch(
    pending: Seq<GameCommand>,
    commands: Seq<GameCommand>,
) -> Seq<GameCommand> {
    if has_reset(commands) {
        Seq::empty()
    } else {
        pending + commands
    }
}

/// The simulation: a world of units, the schedule that a tick runs on it, and
/// what the stages share.
pub struct GameLogic {
    world: World,
    schedule: Schedule,
    resources: Resources,
    told: StringMap<Sighting>,
}

fn same_sighting(one: &Sighting, other: &Sighting) -> (same: bool)
    ensures
        same == (*one == *other),
{
    let same_destination = match (one.destination, other.destination) {
        (Some(a), Some(b)) => a.x == b.x && a.y == b.y,
        (None, None) => true,
        _ => false,
    };
    one.position.x == other.position.x && one.position.y == other.position.y && same_destination
}

impl GameLogic {
    /// The index agrees with the world, no unit has a velocity without a
    /// destination, and the schedule is that of a tick.
    pub closed spec fn wf(&self) -> bool {
        &&& index_matches(self.world, self.resources.id_map)
        &&& all_calm(units_by_name(self.world, self.resources.id_map))
        &&& self.schedule@ == tick_stages()
        &&& self.told.wf()
    }

    /// In a game, no two units share a name, every unit goes by the name it
    /// is found under, and a unit has a velocity only while it has a
    /// destination.
    pub proof fn lemma_units(&self)
        requires
            self.wf(),
        ensures
            all_calm(self.units()),
            forall|name: Seq<char>|
                self.units().contains_key(name) ==> (#[trigger] self.units()[name]).id == name,
    {
    }

    /// The units of the world, by name.
    pub closed spec fn units(&self) -> Map<Seq<char>, UnitModel> {
        units_by_name(self.world, self.resources.id_map)
    }

    /// The commands that wait for the next tick, in the order in which they
    /// came.
    pub closed spec fn pending(&self) -> Seq<GameCommand> {
        self.resources.commands@
    }

    /// The clock.
    pub closed spec fn clock(&self) -> TimeResource {
        self.resources.time
    }

    /// What the game was set up with.
    pub closed spec fn settings(&self) -> GameConfig {
        self.resources.config
    }

    /// What the reader of changes was last told, by unit name.
    pub closed spec fn told(&self) -> Map<Seq<char>, Sighting> {
        self.told@
    }

    /// A game with the usual settings: no unit, no waiting command, the clock
    /// at zero.
    pub fn new() -> (game: GameLogic)
        ensures
            game.wf(),
            game.units() == Map::<Seq<char>, UnitModel>::empty(),
            game.pending() == Seq::<GameCommand>::empty(),
            game.clock() == (TimeResource { elapsed_millis: 0, ticks: 0 }),
            game.settings() == usual_settings(),
            game.told() == Map::<Seq<char>, Sighting>::empty(),
    {
        GameLogic::with_config(GameConfig::default())
    }

    /// A game with the settings given: no unit, no waiting command, the clock
    /// at zero.
    pub fn with_config(config: GameConfig) -> (game: GameLogic)
        ensures
            game.wf(),
            game.units() == Map::<Seq<char>, UnitModel>::empty(),
            game.pending() == Seq::<GameCommand>::empty(),
            game.clock() == (TimeResource { elapsed_millis: 0, ticks: 0 }),
            game.settings() == config,
            game.told() == Map::<Seq<char>, Sighting>::empty(),
    {
        let world = world_new();
        let schedule = create_schedule();
        let resources = Resources {
            time: TimeResource::default(),
            id_map: StringMap::new(),
            commands: Vec::new(),
            config,
        };
        let game = GameLogic { world, schedule, resources, told: StringMap::new() };
        assert(game.units() =~= Map::<Seq<char>, UnitModel>::empty());
        game
    }

    /// Takes in a batch of commands. They wait, in order, behind those that
    /// wait already, and the next tick applies them. A batch that holds a
    /// reset is not queued: the world makes way for an empty one, and the
    /// rest of the batch, before and after the reset, is dropped together with
    /// what was waiting.
    pub fn handle_commands(&mut self, commands: Vec<GameCommand>)
        requires
            old(self).wf(),
        ensures
            final(self).wf(),
            final(self).units() == units_after_batch(old(self).units(), commands@),
            final(self).pending() == pending_after_batch(old(self).pending(), commands@),
            final(self).clock() == old(self).clock(),
            final(self).settings() == old(self).settings(),
            final(self).told() == old(self).told(),
    {
        let mut commands = commands;
        let mut reset = false;
        let mut i: usize = 0;
        while i < commands.len()
            invariant
                i <= commands@.len(),
                reset == exists|j: int| 0 <= j < i && commands@[j] is ResetGameCommand,
            decreases commands@.len() - i,
        {
            match commands[i] {
                GameCommand::ResetGameCommand => {
                    reset = true;
                },
                _ => {},
            }
            i += 1;
        }
        if reset {
            self.world = world_new();
            self.resources.id_map = StringMap::new();
            self.resources.commands = Vec::new();
            assert(self.units() =~= Map::<Seq<char>, UnitModel>::empty());
        } else {
            self.resources.commands.append(&mut commands);
        }
    }

    /// Runs one tick: the waiting commands are applied in order, then every
    /// unit goes through seek, integration and arrival, with the elapsed time
    /// that was last set. Then the tick counter goes up by one; at the end of
    /// its range it starts again at zero.
    pub fn execute(&mut self)
        requires
            old(self).wf(),
        ensures
            final(self).wf(),
            final(self).units() == units_after_tick(
                old(self).units(),
                old(self).pending(),
                old(self).settings(),
                old(self).clock().elapsed_millis as int,
            ),
            final(self).pending() == Seq::<GameCommand>::empty(),
            final(self).clock().elapsed_millis == old(self).clock().elapsed_millis,
            final(self).clock().ticks == (old(self).clock().ticks + 1) % 0x1_0000_0000_0000_0000,
            final(self).settings() == old(self).settings(),
            final(self).told() == old(self).told(),
    {
        proof {
            lemma_tick_stages(
                self.units(),
                self.pending(),
                self.settings(),
                self.clock().elapsed_millis as int,
            );
            lemma_tick_keeps_all_calm(
                self.units(),
                self.pending(),
                self.settings(),
                self.clock().elapsed_millis as int,
            );
        }
        self.schedule.execute(&mut self.world, &mut self.resources);
        self.resources.time.ticks = self.resources.time.ticks.wrapping_add(1);
    }

    /// The state of the game for readers outside: each unit under its name,
    /// with its position and with its destination or, at rest, its position
    /// again. Each call builds the whole state anew.
    pub fn generate_game_state_cache(&self) -> (cache: GameStateCache)
        requires
            self.wf(),
        ensures
            cache.units.wf(),
            cache@ == snapshot_of(self.units()),
    {
        snapshot(&self.world, &self.resources.id_map)
    }

    /// Sets the time that the ticks to come each cover, in thousandths of a
    /// second.
    pub fn set_elapsed_seconds(&mut self, millis: u32)
        requires
            old(self).wf(),
        ensures
            final(self).wf(),
            final(self).clock().elapsed_millis == millis,
            final(self).clock().ticks == old(self).clock().ticks,
            final(self).units() == old(self).units(),
            final(self).pending() == old(self).pending(),
            final(self).settings() == old(self).settings(),
            final(self).told() == old(self).told(),
    {
        self.resources.time.elapsed_millis = millis;
    }

    /// The ticks run so far.
    pub fn ticks(&self) -> (ticks: u64)
        ensures
            ticks == self.clock().ticks,
    {
        self.resources.time.ticks
    }

    /// What the game was set up with.
    pub fn config(&self) -> (config: GameConfig)
        ensures
            config == self.settings(),
    {
        self.resources.config
    }

    /// The units that are new, or that stand or head elsewhere, since this was
    /// last called: each such unit once, with its position, its destination if
    /// it has one, and its name. The units are those of the world as it is
    /// now; a unit that has left the world is forgotten. A second call right
    /// after the first gives nothing.
    pub fn query_changed_units(&mut self) -> (changed: Vec<(Position, Option<Destination>, UnitId)>)
        requires
            old(self).wf(),
        ensures
            final(self).wf(),
            final(self).units() == old(self).units(),
            final(self).pending() == old(self).pending(),
            final(self).clock() == old(self).clock(),
            final(self).settings() == old(self).settings(),
            final(self).told() == old(self).units().map_values(
                |unit: UnitModel| sighting_of(unit),
            ),
            forall|k: int|
                0 <= k < changed@.len() ==> {
                    let name = (#[trigger] changed@[k]).2.id@;
                    &&& old(self).units().contains_key(name)
                    &&& has_changed(old(self).told(), old(self).units()[name])
                    &&& changed@[k].0 == old(self).units()[name].position
                    &&& changed@[k].1 == old(self).units()[name].destination
                },
            forall|k: int, l: int|
                0 <= k < l < changed@.len() ==> (#[trigger] changed@[k]).2.id@ != (
                #[trigger] changed@[l]).2.id@,
            forall|name: Seq<char>|
                old(self).units().contains_key(name) && has_changed(
                    old(self).told(),
                    old(self).units()[name],
                ) ==> exists|k: int| 0 <= k < changed@.len() && (#[trigger] changed@[k]).2.id@ == name,
    {
        let ghost units = world_units(self.world);
        let ghost by_name = self.units();
        let ghost before = self.told@;
        let mut now: StringMap<Sighting> = StringMap::new();
        let mut changed: Vec<(Position, Option<Destination>, UnitId)> = Vec::new();
        let entities = world_entities(&self.world);
        let mut i: usize = 0;
        while i < entities.len()
            invariant
                i <= entities@.len(),
                self.wf(),
                units == world_units(self.world),
                by_name == self.units(),
                before == self.told@,
                self.pending() == old(self).pending(),
                self.clock() == old(self).clock(),
                self.settings() == old(self).settings(),
                entities@.no_duplicates(),
                forall|e: Entity| entities@.contains(e) <==> units.contains_key(e),
                now.wf(),
                forall|name: Seq<char>|
                    now@.contains_key(name) <==> exists|j: int|
                        0 <= j < i && (#[trigger] units[entities@[j]]).id == name,
                forall|j: int|
                    0 <= j < i ==> #[trigger] now@[units[entities@[j]].id] == sighting_of(
                        units[entities@[j]],
                    ),
                forall|k: int|
                    0 <= k < changed@.len() ==> {
                        let name = (#[trigger] changed@[k]).2.id@;
                        &&& now@.contains_key(name)
                        &&& by_name.contains_key(name)
                        &&& has_changed(before, by_name[name])
                        &&& changed@[k].0 == by_name[name].position
                        &&& changed@[k].1 == by_name[name].destination
                    },
                forall|k: int, l: int|
                    0 <= k < l < changed@.len() ==> (#[trigger] changed@[k]).2.id@ != (
                    #[trigger] changed@[l]).2.id@,
                forall|j: int|
                    0 <= j < i && has_changed(before, #[trigger] units[entities@[j]]) ==> exists|
                        k: int,
                    |
                        0 <= k < changed@.len() && (#[trigger] changed@[k]).2.id@
                            == units[entities@[j]].id,
            decreases entities@.len() - i,
        {
            let entity = entities[i];
            assert(entities@.contains(entity));
            let ghost earlier = now@;
            let ghost reported = changed@;
            if let Some(row) = world_unit(&self.world, entity) {
                let sighting = Sighting { position: row.position, destination: row.destination };
                let ghost name = units[entity].id;
                assert(by_name.contains_key(name) && by_name[name] == units[entity]);
                let known = match self.told.get(row.id.as_str()) {
                    Some(last) => same_sighting(last, &sighting),
                    None => false,
                };
                assert(!earlier.contains_key(name)) by {
                    if earlier.contains_key(name) {
                        let j = choose|j: int| 0 <= j < i && (#[trigger] units[entities@[j]]).id == name;
                        assert(entities@.contains(entities@[j]));
                        assert(units.contains_key(entities@[j]));
                        assert(units.contains_key(entity));
                        assert(self.resources.id_map@[name] == entities@[j]);
                        assert(self.resources.id_map@[name] == entity);
                        assert(entities@[j] == entities@[i as int]);
                    }
                }
                if !known {
                    changed.push((row.position, row.destination, UnitId { id: row.id.clone() }));
                }
                now.insert(row.id, sighting);
                proof {
                    assert(now@ == earlier.insert(name, sighting));
                    assert forall|other: Seq<char>|
                        now@.contains_key(other) <==> exists|j: int|
                            0 <= j < i + 1 && (#[trigger] units[entities@[j]]).id == other by {
                        if other == name {
                            assert(units[entities@[i as int]].id == other);
                        }
                        if earlier.contains_key(other) {
                            let j = choose|j: int|
                                0 <= j < i && (#[trigger] units[entities@[j]]).id == other;
                            assert(0 <= j < i + 1 && units[entities@[j]].id == other);
                        }
                    }
                    assert forall|j: int| 0 <= j < i + 1 implies #[trigger] now@[units[entities@[j]].id]
                        == sighting_of(units[entities@[j]]) by {
                        if j < i {
                            assert(earlier.contains_key(units[entities@[j]].id));
                        }
                    }
                    assert forall|k: int, l: int| 0 <= k < l < changed@.len() implies (
                    #[trigger] changed@[k]).2.id@ != (#[trigger] changed@[l]).2.id@ by {
                        if l == reported.len() {
                            assert(changed@[k] == reported[k]);
                            assert(earlier.contains_key(reported[k].2.id@));
                        } else {
                            assert(changed@[k] == reported[k]);
                            assert(changed@[l] == reported[l]);
                        }
                    }
                    assert forall|k: int| 0 <= k < changed@.len() implies {
                        let n = (#[trigger] changed@[k]).2.id@;
                        &&& now@.contains_key(n)
                        &&& by_name.contains_key(n)
                        &&& has_changed(before, by_name[n])
                        &&& changed@[k].0 == by_name[n].position
                        &&& changed@[k].1 == by_name[n].destination
                    } by {
                        if k < reported.len() {
                            assert(changed@[k] == reported[k]);
                        }
                    }
                    assert forall|j: int|
                        0 <= j < i + 1 && has_changed(
                            before,
                            #[trigger] units[entities@[j]],
                        ) implies exists|k: int|
                        0 <= k < changed@.len() && (#[trigger] changed@[k]).2.id@
                            == units[entities@[j]].id by {
                        if j < i {
                            let k = choose|k: int|
                                0 <= k < reported.len() && (#[trigger] reported[k]).2.id@
                                    == units[entities@[j]].id;
                            assert(changed@[k] == reported[k]);
                        } else {
                            let k = changed@.len() - 1;
                            assert(changed@[k].2.id@ == name);
                        }
                    }
                }
            }
            i += 1;
        }
        proof {
            let shown = by_name.map_values(|unit: UnitModel| sighting_of(unit));
            assert forall|name: Seq<char>| now@.contains_key(name) <==> shown.contains_key(
                name,
            ) by {
                if now@.contains_key(name) {
                    let j = choose|j: int| 0 <= j < i && (#[trigger] units[entities@[j]]).id == name;
                    assert(entities@.contains(entities@[j]));
                }
                if by_name.contains_key(name) {
                    let e = self.resources.id_map@[name];
                    assert(entities@.contains(e));
                    let j = choose|j: int| 0 <= j < entities@.len() && entities@[j] == e;
                    assert(units[entities@[j]].id == name);
                }
            }
            assert forall|name: Seq<char>| now@.contains_key(name) implies now@[name]
                == shown[name] by {
                let j = choose|j: int| 0 <= j < i && (#[trigger] units[entities@[j]]).id == name;
                assert(entities@.contains(entities@[j]));
                assert(now@[units[entities@[j]].id] == sighting_of(units[entities@[j]]));
            }
            assert(now@ =~= shown);
            assert forall|name: Seq<char>|
                by_name.contains_key(name) && has_changed(before, by_name[name]) implies exists|
                k: int,
            | 0 <= k < changed@.len() && (#[trigger] changed@[k]).2.id@ == name by {
                let e = self.resources.id_map@[name];
                assert(entities@.contains(e));
                let j = choose|j: int| 0 <= j < entities@.len() && entities@[j] == e;
                assert(has_changed(before, units[entities@[j]]));
            }
        }
        self.told = now;
        changed
    }

    /// What the unit named `id` carries, if there is such a unit.
    pub fn unit(&self, id: &str) -> (row: Option<UnitRow>)
        requires
            self.wf(),
        ensures
            match row {
                Some(unit) => self.units().contains_key(id@) && unit@ == self.units()[id@],
                None => !self.units().contains_key(id@),
            },
    {
        match self.resources.id_map.get(id) {
            Some(entity) => world_unit(&self.world, *entity),
            None => None,
        }
    }
}

} // verus!
