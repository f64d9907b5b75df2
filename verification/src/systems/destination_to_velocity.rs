//! The seek stage: every unit with a destination gets the velocity that takes
//! it there.
use vstd::prelude::*;
use legion::{Entity, World};
use crate::components::{Destination, Position, Velocity};
use crate::resources::TimeResource;
use crate::store::{
    with_velocity, world_entities, world_set_velocity, world_unit, world_units, UnitModel,
};
use crate::vector::{
    floor_sqrt, integer_sqrt, is_floor_sqrt, lemma_square_bound, lemma_truncated_quotient_bound,
    length_squared, truncated_quotient, vector_difference, vector_divided, vector_length_squared,
    vector_scaled, Vector,
};

verus! {

/// The way from `position` to `destination`.
pub open spec fn direction(position: Position, destination: Destination) -> (int, int) {
    (destination.x - position.x, destination.y - position.y)
}

/// The velocity of length `speed` that points along `(dx, dy)`: the direction
/// divided by its length and multiplied by the speed. A direction of length
/// zero gives the zero velocity.
pub open spec fn full_speed_velocity(dx: int, dy: int, speed: int) -> (int, int) {
    if dx == 0 && dy == 0 {
        (0, 0)
    } else {
        let length = floor_sqrt(length_squared(dx, dy));
        (truncated_quotient(dx * speed, length), truncated_quotient(dy * speed, length))
    }
}

/// How far one component of a velocity carries a unit in `millis`.
pub open spec fn step(velocity: int, millis: int) -> int {
    truncated_quotient(velocity * millis, 1000)
}

/// Whether a unit that walks at full speed for `millis` would pass a
/// destination that lies `(dx, dy)` away.
pub open spec fn overshoots(dx: int, dy: int, speed: int, millis: int) -> bool {
    let v = full_speed_velocity(dx, dy, speed);
    length_squared(dx, dy) < length_squared(step(v.0, millis), step(v.1, millis))
}

/// The velocity of a unit that seeks `destination` from `position`: full
/// speed toward it, or the remaining way itself where full speed would pass
/// the destination within this tick.
pub open spec fn guarded_velocity(
    position: Position,
    destination: Destination,
    speed: int,
    millis: int,
) -> Velocity {
    let (dx, dy) = direction(position, destination);
    if overshoots(dx, dy, speed, millis) {
        Velocity { dx: dx as i64, dy: dy as i64 }
    } else {
        let v = full_speed_velocity(dx, dy, speed);
        Velocity { dx: v.0 as i64, dy: v.1 as i64 }
    }
}

/// No component of a vector is longer than the vector's rounded-down length.
pub proof fn lemma_component_within_length(dx: int, dy: int, length: int)
    requires
        is_floor_sqrt(length_squared(dx, dy), length),
    ensures
        -length <= dx <= length,
        -length <= dy <= length,
        (dx != 0 || dy != 0) ==> length >= 1,
{
    assert(-length <= dx <= length) by (nonlinear_arith)
        requires
            0 <= length,
            dx * dx + dy * dy < (length + 1) * (length + 1),
    ;
    assert(-length <= dy <= length) by (nonlinear_arith)
        requires
            0 <= length,
            dx * dx + dy * dy < (length + 1) * (length + 1),
    ;
}

/// The full-speed velocity has no component beyond the speed, and each
/// component points the way its direction does.
pub proof fn lemma_full_speed_velocity_bound(dx: int, dy: int, speed: int)
    requires
        speed >= 0,
        exists|r: int| is_floor_sqrt(length_squared(dx, dy), r),
    ensures
        -speed <= full_speed_velocity(dx, dy, speed).0 <= speed,
        -speed <= full_speed_velocity(dx, dy, speed).1 <= speed,
{
    if dx != 0 || dy != 0 {
        let length = floor_sqrt(length_squared(dx, dy));
        lemma_component_within_length(dx, dy, length);
        assert(-(length * speed) <= dx * speed <= length * speed) by (nonlinear_arith)
            requires
                -length <= dx <= length,
                speed >= 0,
        ;
        assert(-(length * speed) <= dy * speed <= length * speed) by (nonlinear_arith)
            requires
                -length <= dy <= length,
                speed >= 0,
        ;
        lemma_truncated_quotient_bound(dx * speed, length, speed);
        lemma_truncated_quotient_bound(dy * speed, length, speed);
    }
}

/// The velocity with which a unit at `position` seeks `destination` in a tick
/// of `millis`, at `speed`.
pub fn velocity_toward(
    position: &Position,
    destination: &Destination,
    speed: u32,
    millis: u32,
) -> (velocity: Velocity)
    ensures
        velocity == guarded_velocity(*position, *destination, speed as int, millis as int),
        position.x == destination.x && position.y == destination.y ==> velocity.dx == 0
            && velocity.dy == 0,
{
    let from = Vector { x: position.x as i128, y: position.y as i128 };
    let to = Vector { x: destination.x as i128, y: destination.y as i128 };
    let way = vector_difference(to, from);
    proof {
        lemma_square_bound(way.x as int, 0x1_0000_0000);
        lemma_square_bound(way.y as int, 0x1_0000_0000);
    }
    let way_squared = vector_length_squared(way);
    if way.x == 0 && way.y == 0 {
        return Velocity { dx: 0, dy: 0 };
    }
    let root = integer_sqrt(way_squared as u128);
    assert(root < 0x4_0000_0000) by (nonlinear_arith)
        requires
            0 <= root,
            root * root <= way_squared,
            way_squared <= 2 * (0x1_0000_0000 * 0x1_0000_0000),
    ;
    let length = root as i128;
    proof {
        lemma_component_within_length(way.x as int, way.y as int, length as int);
        lemma_full_speed_velocity_bound(way.x as int, way.y as int, speed as int);
        assert(-0x1_0000_0000_0000_0000 <= way.x * speed <= 0x1_0000_0000_0000_0000)
            by (nonlinear_arith)
            requires
                -0x1_0000_0000 <= way.x <= 0x1_0000_0000,
                0 <= speed <= 0x1_0000_0000,
        ;
        assert(-0x1_0000_0000_0000_0000 <= way.y * speed <= 0x1_0000_0000_0000_0000)
            by (nonlinear_arith)
            requires
                -0x1_0000_0000 <= way.y <= 0x1_0000_0000,
                0 <= speed <= 0x1_0000_0000,
        ;
    }
    let full = vector_divided(vector_scaled(way, speed as i128), length);
    proof {
        assert(-0x1_0000_0000_0000_0000 <= full.x * millis <= 0x1_0000_0000_0000_0000)
            by (nonlinear_arith)
            requires
                -0x1_0000_0000 <= full.x <= 0x1_0000_0000,
                0 <= millis <= 0x1_0000_0000,
        ;
        assert(-0x1_0000_0000_0000_0000 <= full.y * millis <= 0x1_0000_0000_0000_0000)
            by (nonlinear_arith)
            requires
                -0x1_0000_0000 <= full.y <= 0x1_0000_0000,
                0 <= millis <= 0x1_0000_0000,
        ;
    }
    let timed = vector_divided(vector_scaled(full, millis as i128), 1000);
    proof {
        lemma_truncated_quotient_bound(full.x * millis, 1000, 0x80_0000_0000_0000);
        lemma_truncated_quotient_bound(full.y * millis, 1000, 0x80_0000_0000_0000);
        lemma_square_bound(timed.x as int, 0x80_0000_0000_0000);
        lemma_square_bound(timed.y as int, 0x80_0000_0000_0000);
    }
    let timed_squared = vector_length_squared(timed);
    if way_squared < timed_squared {
        Velocity { dx: way.x as i64, dy: way.y as i64 }
    } else {
        Velocity { dx: full.x as i64, dy: full.y as i64 }
    }
}

/// A unit after the seek stage: one with a destination has the velocity that
/// takes it there, one without is left alone.
pub open spec fn sought(unit: UnitModel, speed: int, millis: int) -> UnitModel {
    match unit.destination {
        Some(destination) => with_velocity(
            unit,
            Some(guarded_velocity(unit.position, destination, speed, millis)),
        ),
        None => unit,
    }
}

/// Gives every unit that has a destination the velocity that takes it there in
/// the time of this tick, in place of the velocity it had, if any.
pub fn destination_to_velocity(world: &mut World, time: &TimeResource, speed: u32)
    ensures
        world_units(*final(world)) == world_units(*old(world)).map_values(
            |unit: UnitModel| sought(unit, speed as int, time.elapsed_millis as int),
        ),
{
    let ghost before = world_units(*world);
    let entities = world_entities(world);
    let mut i: usize = 0;
    while i < entities.len()
        invariant
            i <= entities@.len(),
            entities@.no_duplicates(),
            forall|e: Entity| entities@.contains(e) <==> before.contains_key(e),
            world_units(*world).dom() == before.dom(),
            forall|j: int|
                0 <= j < i ==> world_units(*world)[#[trigger] entities@[j]] == sought(
                    before[entities@[j]],
                    speed as int, time.elapsed_millis as int,
                ),
            forall|j: int|
                i <= j < entities@.len() ==> world_units(*world)[#[trigger] entities@[j]]
                    == before[entities@[j]],
        decreases entities@.len() - i,
    {
        let entity = entities[i];
        assert(entities@.contains(entity));
        let ghost earlier = world_units(*world);
        if let Some(row) = world_unit(world, entity) {
            if let Some(destination) = row.destination {
                let velocity = velocity_toward(
                    &row.position,
                    &destination,
                    speed,
                    time.elapsed_millis,
                );
                world_set_velocity(world, entity, velocity);
            }
        }
        proof {
            assert(world_units(*world).dom() =~= before.dom());
            assert(earlier[entity] == before[entities@[i as int]]);
            assert(world_units(*world)[entity] == sought(earlier[entity], speed as int, time.elapsed_millis as int));
            assert forall|j: int| 0 <= j < entities@.len() && j != i implies world_units(
                *world,
            )[#[trigger] entities@[j]] == earlier[entities@[j]] by {
                assert(entities@[j] != entities@[i as int]);
            }
        }
        i += 1;
    }
    proof {
        let after = world_units(*world);
        assert forall|e: Entity| before.contains_key(e) implies after[e] == sought(
            before[e],
            speed as int, time.elapsed_millis as int,
        ) by {
            assert(entities@.contains(e));
            let j = choose|j: int| 0 <= j < entities@.len() && entities@[j] == e;
            assert(after[entities@[j]] == sought(before[entities@[j]], speed as int, time.elapsed_millis as int));
        }
        assert(after =~= before.map_values(|unit: UnitModel| sought(unit, speed as int, time.elapsed_millis as int)));
    }
}

} // verus!
