//! What readers outside the simulation see of it, and the index from names
//! to entities.
use vstd::prelude::*;
use crate::store::{world_entities, world_unit, world_units, UnitModel};
use crate::string_map::StringMap;
use legion::{Entity, World};

verus! {

/// The kinds of unit. There is one so far.
#[derive(Clone, Copy, Debug, PartialEq, Eq, Structural)]
pub enum UnitType {
    Normal,
}

/// A unit as readers outside the simulation see it.
#[derive(Debug)]
pub struct Unit {
    /// Where the unit stands.
    pub position: (i32, i32),
    /// Where the unit is heading; for a unit at rest, where it stands.
    pub destination: (i32, i32),
    /// The unit's kind.
    pub unit_type: UnitType,
    /// The unit's name.
    pub id: String,
}

/// A unit as readers see it, as plain values.
pub struct UnitSnapshot {
    pub position: (i32, i32),
    pub destination: (i32, i32),
    pub unit_type: UnitType,
    pub id: Seq<char>,
}

impl View for Unit {
    type V = UnitSnapshot;

    open spec fn view(&self) -> UnitSnapshot {
        UnitSnapshot {
            position: self.position,
            destination: self.destination,
            unit_type: self.unit_type,
            id: self.id@,
        }
    }
}

impl Clone for Unit {
    fn clone(&self) -> (copy: Unit)
        ensures
            copy == *self,
    {
        Unit {
            position: self.position,
            destination: self.destination,
            unit_type: self.unit_type,
            id: self.id.clone(),
        }
    }
}

/// The state of the game after a tick, by unit name. A new one is built each
/// tick and takes the place of the last as a whole.
pub struct GameStateCache {
    pub units: StringMap<Unit>,
}

impl View for GameStateCache {
    type V = Map<Seq<char>, UnitSnapshot>;

    open spec fn view(&self) -> Map<Seq<char>, UnitSnapshot> {
        self.units@.map_values(|unit: Unit| unit@)
    }
}

impl Default for GameStateCache {
    fn default() -> (cache: GameStateCache)
        ensures
            cache.units.wf(),
            cache.units@ == Map::<Seq<char>, Unit>::empty(),
            cache@ == Map::<Seq<char>, UnitSnapshot>::empty(),
    {
        let cache = GameStateCache { units: StringMap::new() };
        assert(cache@ =~= Map::<Seq<char>, UnitSnapshot>::empty());
        cache
    }
}

/// The entity that stands for each unit name. It changes only when a unit is
/// created and when the world is reset.
pub type UidEntityMap = StringMap<Entity>;

/// The unit that goes by each name.
pub open spec fn units_by_name(world: World, id_map: UidEntityMap) -> Map<Seq<char>, UnitModel> {
    Map::new(
        |name: Seq<char>| id_map@.contains_key(name),
        |name: Seq<char>| world_units(world)[id_map@[name]],
    )
}

/// The index and the world agree: every name in the index leads to a unit of
/// that name, and every unit is the one that the index holds for its name. So
/// no two units share a name.
pub open spec fn index_matches(world: World, id_map: UidEntityMap) -> bool {
    &&& id_map.wf()
    &&& forall|name: Seq<char>| #[trigger]
        id_map@.contains_key(name) ==> world_units(world).contains_key(id_map@[name])
            && world_units(world)[id_map@[name]].id == name
    &&& forall|e: Entity| #[trigger]
        world_units(world).contains_key(e) ==> id_map@.contains_key(world_units(world)[e].id)
            && id_map@[world_units(world)[e].id] == e
}

/// A change that touches each unit by itself and leaves its name alone keeps
/// the index in agreement with the world, and shows in the units by name as
/// the same change.
pub proof fn lemma_change_each_unit(
    before: World,
    after: World,
    id_map: UidEntityMap,
    change: spec_fn(UnitModel) -> UnitModel,
)
    requires
        index_matches(before, id_map),
        world_units(after) == world_units(before).map_values(change),
        forall|unit: UnitModel| (#[trigger] change(unit)).id == unit.id,
    ensures
        index_matches(after, id_map),
        units_by_name(after, id_map) == units_by_name(before, id_map).map_values(change),
{
    assert forall|e: Entity| #[trigger] world_units(after).contains_key(e) implies id_map@.contains_key(
        world_units(after)[e].id,
    ) && id_map@[world_units(after)[e].id] == e by {
        assert(world_units(before).contains_key(e));
    }
    assert(units_by_name(after, id_map) =~= units_by_name(before, id_map).map_values(change));
}

/// How a unit shows to readers: a unit at rest shows its own position as its
/// destination.
pub open spec fn shown(unit: UnitModel) -> UnitSnapshot {
    UnitSnapshot {
        position: (unit.position.x, unit.position.y),
        destination: match unit.destination {
            Some(destination) => (destination.x, destination.y),
            None => (unit.position.x, unit.position.y),
        },
        unit_type: UnitType::Normal,
        id: unit.id,
    }
}

/// How the units of a world show to readers, by name.
pub open spec fn snapshot_of(units: Map<Seq<char>, UnitModel>) -> Map<Seq<char>, UnitSnapshot> {
    units.map_values(|unit: UnitModel| shown(unit))
}

/// Builds the state that readers see from the units of the world: each unit
/// under its name, with its position and with its destination or, at rest, its
/// position again.
pub fn snapshot(world: &World, id_map: &UidEntityMap) -> (cache: GameStateCache)
    requires
        index_matches(*world, *id_map),
    ensures
        cache.units.wf(),
        cache@ == snapshot_of(units_by_name(*world, *id_map)),
{
    let ghost units = world_units(*world);
    let mut cache = GameStateCache::default();
    let entities = world_entities(world);
    let mut i: usize = 0;
    while i < entities.len()
        invariant
            i <= entities@.len(),
            units == world_units(*world),
            index_matches(*world, *id_map),
            forall|e: Entity| entities@.contains(e) <==> units.contains_key(e),
            cache.units.wf(),
            forall|name: Seq<char>|
                cache.units@.contains_key(name) <==> exists|j: int|
                    0 <= j < i && (#[trigger] units[entities@[j]]).id == name,
            forall|j: int|
                0 <= j < i ==> (#[trigger] cache.units@[units[entities@[j]].id])@ == shown(
                    units[entities@[j]],
                ),
        decreases entities@.len() - i,
    {
        let entity = entities[i];
        assert(entities@.contains(entity));
        let ghost earlier = cache.units@;
        if let Some(row) = world_unit(world, entity) {
            let destination = match row.destination {
                Some(destination) => (destination.x, destination.y),
                None => (row.position.x, row.position.y),
            };
            let unit = Unit {
                position: (row.position.x, row.position.y),
                destination,
                unit_type: UnitType::Normal,
                id: row.id.clone(),
            };
            cache.units.insert(row.id, unit);
            proof {
                let name = units[entity].id;
                assert(cache.units@ == earlier.insert(name, unit));
                assert(unit@ == shown(units[entity]));
                assert forall|other: Seq<char>|
                    cache.units@.contains_key(other) <==> exists|j: int|
                        0 <= j < i + 1 && (#[trigger] units[entities@[j]]).id == other by {
                    if other == name {
                        assert(units[entities@[i as int]].id == other);
                    }
                    if earlier.contains_key(other) {
                        let j = choose|j: int| 0 <= j < i && (#[trigger] units[entities@[j]]).id == other;
                        assert(0 <= j < i + 1 && units[entities@[j]].id == other);
                    }
                }
                assert forall|j: int| 0 <= j < i + 1 implies (#[trigger] cache.units@[units[entities@[j]].id])@
                    == shown(units[entities@[j]]) by {
                    if j < i {
                        assert(entities@.contains(entities@[j]));
                        if units[entities@[j]].id == name {
                            assert(id_map@[name] == entities@[j]);
                            assert(id_map@[name] == entity);
                        }
                    }
                }
            }
        }
        i += 1;
    }
    proof {
        let by_name = units_by_name(*world, *id_map);
        assert forall|name: Seq<char>| cache@.contains_key(name) <==> snapshot_of(
            by_name,
        ).contains_key(name) by {
            if cache.units@.contains_key(name) {
                let j = choose|j: int| 0 <= j < i && (#[trigger] units[entities@[j]]).id == name;
                assert(entities@.contains(entities@[j]));
            }
            if id_map@.contains_key(name) {
                let e = id_map@[name];
                assert(entities@.contains(e));
                let j = choose|j: int| 0 <= j < entities@.len() && entities@[j] == e;
                assert(units[entities@[j]].id == name);
            }
        }
        assert forall|name: Seq<char>| cache@.contains_key(name) implies cache@[name] == snapshot_of(
            by_name,
        )[name] by {
            let j = choose|j: int| 0 <= j < i && (#[trigger] units[entities@[j]]).id == name;
            assert(entities@.contains(entities@[j]));
            assert(cache.units@[units[entities@[j]].id]@ == shown(units[entities@[j]]));
        }
        assert(cache@ =~= snapshot_of(by_name));
    }
    cache
}

} // verus!
