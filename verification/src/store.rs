//! The entity store. Units live in a `legion::World`; this module states what
//! each call into it does to the units that the world holds, and everything
//! else in the crate reasons from those statements.
use vstd::prelude::*;
use crate::components::{Destination, Position, UnitId, Velocity};
use legion::{Entity, IntoQuery, World};

verus! {

/// `legion::World`, the store of entities and their components. Nothing of
/// its inside is known here but what `world_units` says.
#[verifier::external_type_specification]
#[verifier::external_body]
pub struct ExWorld(legion::World);

/// `legion::Entity`, the handle that a world gives an entity. Handles are
/// told apart and nothing more.
#[verifier::external_type_specification]
#[verifier::external_body]
pub struct ExEntity(legion::Entity);

/// What one unit carries, as plain values.
pub struct UnitModel {
    pub id: Seq<char>,
    pub position: Position,
    pub destination: Option<Destination>,
    pub velocity: Option<Velocity>,
}

/// What one unit carries, read out of a world.
#[derive(Debug)]
pub struct UnitRow {
    pub id: String,
    pub position: Position,
    pub destination: Option<Destination>,
    pub velocity: Option<Velocity>,
}

impl Clone for UnitRow {
    fn clone(&self) -> (copy: UnitRow)
        ensures
            copy == *self,
    {
        UnitRow {
            id: self.id.clone(),
            position: self.position,
            destination: self.destination,
            velocity: self.velocity,
        }
    }
}

impl View for UnitRow {
    type V = UnitModel;

    open spec fn view(&self) -> UnitModel {
        UnitModel {
            id: self.id@,
            position: self.position,
            destination: self.destination,
            velocity: self.velocity,
        }
    }
}

/// `unit` at another position.
pub open spec fn with_position(unit: UnitModel, position: Position) -> UnitModel {
    UnitModel { id: unit.id, position, destination: unit.destination, velocity: unit.velocity }
}

/// `unit` with another destination, or with none.
pub open spec fn with_destination(unit: UnitModel, destination: Option<Destination>) -> UnitModel {
    UnitModel { id: unit.id, position: unit.position, destination, velocity: unit.velocity }
}

/// `unit` with another velocity, or with none.
pub open spec fn with_velocity(unit: UnitModel, velocity: Option<Velocity>) -> UnitModel {
    UnitModel { id: unit.id, position: unit.position, destination: unit.destination, velocity }
}

/// A unit that was just created: it stands at `position` and seeks nothing.
pub open spec fn new_unit(id: Seq<char>, position: Position) -> UnitModel {
    UnitModel { id, position, destination: None, velocity: None }
}

/// The units that a world holds: every entity that carries a `Position` and a
/// `UnitId`, with what is attached to it.
pub uninterp spec fn world_units(world: World) -> Map<Entity, UnitModel>;

/// `World::default`: a fresh world holds no unit.
#[verifier::external_body]
pub(crate) fn world_new() -> (fresh: World)
    ensures
        (world_units(fresh) == Map::<Entity, UnitModel>::empty()),
{
    World::default()
}

/// `World::push` with a position and a name: the world gains one entity,
/// under a handle that it did not hold before, with no destination and no
/// velocity. The other units stay as they were.
#[verifier::external_body]
pub(crate) fn world_push(world: &mut World, position: Position, id: UnitId) -> (entity: Entity)
    ensures
        !world_units(*old(world)).contains_key(entity),
        world_units(*final(world)) == world_units(*old(world)).insert(
            entity,
            new_unit(id.id@, position),
        ),
{
    world.push((position, id))
}

/// A query for the entities that carry a `Position` and a `UnitId`: the
/// handle of each unit comes out once. Nothing is said of the order.
#[verifier::external_body]
pub(crate) fn world_entities(world: &World) -> (entities: Vec<Entity>)
    ensures
        entities@.no_duplicates(),
        forall|e: Entity| entities@.contains(e) <==> world_units(*world).contains_key(e),
{
    <(Entity, &Position, &UnitId)>::query().iter(world).map(|found| *found.0).collect()
}

/// `Query::get` for one entity: what the unit under that handle carries, or
/// nothing where the world holds no unit under it.
#[verifier::external_body]
pub(crate) fn world_unit(world: &World, entity: Entity) -> (row: Option<UnitRow>)
    ensures
        match row {
            Some(unit) => world_units(*world).contains_key(entity)
                && unit@ == world_units(*world)[entity],
            None => !world_units(*world).contains_key(entity),
        },
{
    let mut query = <(&Position, Option<&Destination>, Option<&Velocity>, &UnitId)>::query();
    match query.get(world, entity) {
        Ok((position, destination, velocity, id)) => Some(
            UnitRow {
                id: id.id.clone(),
                position: *position,
                destination: destination.copied(),
                velocity: velocity.copied(),
            },
        ),
        Err(_) => None,
    }
}

/// `Entry::add_component` with a position: the unit stands there afterwards.
/// Nothing else changes.
#[verifier::external_body]
pub(crate) fn world_set_position(world: &mut World, entity: Entity, position: Position)
    requires
        world_units(*old(world)).contains_key(entity),
    ensures
        world_units(*final(world)) == world_units(*old(world)).insert(
            entity,
            with_position(world_units(*old(world))[entity], position),
        ),
{
    if let Some(mut entry) = world.entry(entity) {
        entry.add_component(position);
    }
}

/// `Entry::add_component` with a destination: the unit has that destination
/// afterwards, whether or not it had one. Nothing else changes.
#[verifier::external_body]
pub(crate) fn world_set_destination(world: &mut World, entity: Entity, destination: Destination)
    requires
        world_units(*old(world)).contains_key(entity),
    ensures
        world_units(*final(world)) == world_units(*old(world)).insert(
            entity,
            with_destination(world_units(*old(world))[entity], Some(destination)),
        ),
{
    if let Some(mut entry) = world.entry(entity) {
        entry.add_component(destination);
    }
}

/// `Entry::add_component` with a velocity: the unit has that velocity
/// afterwards, whether or not it had one. Nothing else changes.
#[verifier::external_body]
pub(crate) fn world_set_velocity(world: &mut World, entity: Entity, velocity: Velocity)
    requires
        world_units(*old(world)).contains_key(entity),
    ensures
        world_units(*final(world)) == world_units(*old(world)).insert(
            entity,
            with_velocity(world_units(*old(world))[entity], Some(velocity)),
        ),
{
    if let Some(mut entry) = world.entry(entity) {
        entry.add_component(velocity);
    }
}

/// `Entry::remove_component` for the destination: the unit has none
/// afterwards. Nothing else changes.
#[verifier::external_body]
pub(crate) fn world_remove_destination(world: &mut World, entity: Entity)
    requires
        world_units(*old(world)).contains_key(entity),
    ensures
        world_units(*final(world)) == world_units(*old(world)).insert(
            entity,
            with_destination(world_units(*old(world))[entity], None),
        ),
{
    if let Some(mut entry) = world.entry(entity) {
        entry.remove_component::<Destination>();
    }
}

/// `Entry::remove_component` for the velocity: the unit has none afterwards.
/// Nothing else changes.
#[verifier::external_body]
pub(crate) fn world_remove_velocity(world: &mut World, entity: Entity)
    requires
        world_units(*old(world)).contains_key(entity),
    ensures
        world_units(*final(world)) == world_units(*old(world)).insert(
            entity,
            with_velocity(world_units(*old(world))[entity], None),
        ),
{
    if let Some(mut entry) = world.entry(entity) {
        entry.remove_component::<Velocity>();
    }
}

} // verus!
