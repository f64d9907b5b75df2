//! The arrival stage: a unit that has come close enough to its destination is
//! put on it and stops seeking.
use vstd::prelude::*;
use legion::{Entity, World};
use crate::components::{place_of, Destination, Position};
use crate::store::{
    world_entities, world_remove_destination, world_remove_velocity, world_set_position,
    world_unit, world_units, UnitModel,
};
use crate::systems::destination_to_velocity::direction;
use crate::vector::{
    lemma_square_bound, length_squared, vector_difference, vector_length_squared, Vector,
};

verus! {

/// Whether the square of the distance from `position` to `destination` is
/// below `threshold`.
pub open spec fn within_reach(position: Position, destination: Destination, threshold: int) -> bool {
    let (dx, dy) = direction(position, destination);
    length_squared(dx, dy) < threshold
}

/// Tells whether a unit at `pos` has arrived at `des`, and if so puts it
/// exactly there. The caller then takes the unit's destination and velocity
/// away.
pub fn remove_destination_on_arrival(
    des: &Destination,
    pos: &mut Position,
    threshold: u64,
) -> (arrived: bool)
    ensures
        arrived == within_reach(*old(pos), *des, threshold as int),
        arrived ==> *final(pos) == place_of(*des),
        !arrived ==> *final(pos) == *old(pos),
{
    let from = Vector { x: pos.x as i128, y: pos.y as i128 };
    let to = Vector { x: des.x as i128, y: des.y as i128 };
    let way = vector_difference(to, from);
    proof {
        lemma_square_bound(way.x as int, 0x1_0000_0000);
        lemma_square_bound(way.y as int, 0x1_0000_0000);
    }
    let way_squared = vector_length_squared(way);
    if way_squared < threshold as i128 {
        pos.x = des.x;
        pos.y = des.y;
        true
    } else {
        false
    }
}

/// A unit after the arrival stage: one that is within reach of its
/// destination stands exactly on it and has neither destination nor velocity
/// any more; every other unit is left alone.
pub open spec fn settled(unit: UnitModel, threshold: int) -> UnitModel {
    match unit.destination {
        Some(destination) => if within_reach(unit.position, destination, threshold) {
            UnitModel {
                id: unit.id,
                position: place_of(destination),
                destination: None,
                velocity: None,
            }
        } else {
            unit
        },
        None => unit,
    }
}

/// Puts every unit that has come within reach of its destination exactly on
/// it, and takes its destination and its velocity away.
pub fn remove_destination_on_arrival_system(world: &mut World, threshold: u64)
    ensures
        world_units(*final(world)) == world_units(*old(world)).map_values(
            |unit: UnitModel| settled(unit, threshold as int),
        ),
{
    let ghost before = world_units(*world);
    let entities = world_entities(world);
    let mut i: usize = 0;
    while i < entities.len()
        invariant
            i <= entities@.len(),
            entities@.no_duplicates(),
            forall|e: Entity| entities@.contains(e) <==> before.contains_key(e),
            world_units(*world).dom() == before.dom(),
            forall|j: int|
                0 <= j < i ==> world_units(*world)[#[trigger] entities@[j]] == settled(
                    before[entities@[j]],
                    threshold as int,
                ),
            forall|j: int|
                i <= j < entities@.len() ==> world_units(*world)[#[trigger] entities@[j]]
                    == before[entities@[j]],
        decreases entities@.len() - i,
    {
        let entity = entities[i];
        assert(entities@.contains(entity));
        let ghost earlier = world_units(*world);
        if let Some(row) = world_unit(world, entity) {
            if let Some(destination) = row.destination {
                let mut position = row.position;
                if remove_destination_on_arrival(&destination, &mut position, threshold) {
                    world_set_position(world, entity, position);
                    world_remove_velocity(world, entity);
                    world_remove_destination(world, entity);
                }
            }
        }
        proof {
            assert(world_units(*world).dom() =~= before.dom());
            assert(earlier[entity] == before[entities@[i as int]]);
            assert(world_units(*world)[entity] == settled(earlier[entity], threshold as int));
            assert forall|j: int| 0 <= j < entities@.len() && j != i implies world_units(
                *world,
            )[#[trigger] entities@[j]] == earlier[entities@[j]] by {
                assert(entities@[j] != entities@[i as int]);
            }
        }
        i += 1;
    }
    proof {
        let after = world_units(*world);
        assert forall|e: Entity| before.contains_key(e) implies after[e] == settled(
            before[e],
            threshold as int,
        ) by {
            assert(entities@.contains(e));
            let j = choose|j: int| 0 <= j < entities@.len() && entities@[j] == e;
            assert(after[entities@[j]] == settled(before[entities@[j]], threshold as int));
        }
        assert(after =~= before.map_values(|unit: UnitModel| settled(unit, threshold as int)));
    }
}

} // verus!
