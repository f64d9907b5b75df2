//! The integration stage: every unit with a velocity moves by what that
//! velocity covers in the tick, and never past the destination it seeks.
use vstd::prelude::*;
use legion::{Entity, World};
use crate::components::{place_of, Destination, Position, Velocity};
use crate::resources::TimeResource;
use crate::store::{
    with_position, world_entities, world_set_position, world_unit, world_units, UnitModel,
};
use crate::systems::destination_to_velocity::{direction, step};
use crate::vector::{
    lemma_square_bound, length_squared, truncated_div, vector_difference, vector_length_squared,
    Vector,
};

verus! {

/// `value`, or the end of the coordinate range that it lies beyond.
pub open spec fn saturated(value: int) -> i32 {
    if value < i32::MIN {
        i32::MIN
    } else if value > i32::MAX {
        i32::MAX
    } else {
        value as i32
    }
}

/// Where a unit at `position` stands after moving with `velocity` for
/// `millis`. A coordinate that would leave the coordinate range stays at the
/// end of the range.
pub open spec fn moved(position: Position, velocity: Velocity, millis: int) -> Position {
    Position {
        x: saturated(position.x + step(velocity.dx as int, millis)),
        y: saturated(position.y + step(velocity.dy as int, millis)),
    }
}

/// Whether a move with `velocity` for `millis` is longer than the way from
/// `position` to `destination`.
pub open spec fn passes(
    position: Position,
    velocity: Velocity,
    destination: Destination,
    millis: int,
) -> bool {
    let (dx, dy) = direction(position, destination);
    length_squared(dx, dy) < length_squared(
        step(velocity.dx as int, millis),
        step(velocity.dy as int, millis),
    )
}

/// Where a unit that seeks `destination` stands after moving with `velocity`
/// for `millis`: where the move takes it, or on the destination itself where
/// the move is longer than the way that is left. So the unit never moves
/// farther in a tick than it is from its destination.
pub open spec fn moved_toward(
    position: Position,
    velocity: Velocity,
    destination: Destination,
    millis: int,
) -> Position {
    if passes(position, velocity, destination, millis) {
        place_of(destination)
    } else {
        moved(position, velocity, millis)
    }
}

/// What `velocity` covers in `millis`.
fn covered(velocity: i64, millis: u32) -> (way: i128)
    ensures
        way == step(velocity as int, millis as int),
        -0x80_0000_0000_0000_0000_0000 <= way <= 0x80_0000_0000_0000_0000_0000,
{
    assert(-0x8000_0000_0000_0000_0000_0000 <= velocity * millis
        <= 0x8000_0000_0000_0000_0000_0000) by (nonlinear_arith)
        requires
            -0x8000_0000_0000_0000 <= velocity <= 0x8000_0000_0000_0000,
            0 <= millis <= 0x1_0000_0000,
    ;
    truncated_div(velocity as i128 * millis as i128, 1000)
}

/// One coordinate after a move: `coordinate` plus what `velocity` covers in
/// `millis`.
fn advanced(coordinate: i32, velocity: i64, millis: u32) -> (landed: i32)
    ensures
        landed == saturated(coordinate + step(velocity as int, millis as int)),
{
    let target: i128 = coordinate as i128 + covered(velocity, millis);
    if target < i32::MIN as i128 {
        i32::MIN
    } else if target > i32::MAX as i128 {
        i32::MAX
    } else {
        target as i32
    }
}

/// Moves a unit by what its velocity covers in the time of this tick.
pub fn velocity_to_position(pos: &mut Position, vel: &Velocity, time: &TimeResource)
    ensures
        *final(pos) == moved(*old(pos), *vel, time.elapsed_millis as int),
{
    pos.x = advanced(pos.x, vel.dx, time.elapsed_millis);
    pos.y = advanced(pos.y, vel.dy, time.elapsed_millis);
}

/// Moves a unit that seeks `des` by what its velocity covers in the time of
/// this tick, and puts it on `des` where that move is longer than the way that
/// is left.
pub fn velocity_to_position_toward(
    pos: &mut Position,
    vel: &Velocity,
    des: &Destination,
    time: &TimeResource,
)
    ensures
        *final(pos) == moved_toward(*old(pos), *vel, *des, time.elapsed_millis as int),
{
    let from = Vector { x: pos.x as i128, y: pos.y as i128 };
    let to = Vector { x: des.x as i128, y: des.y as i128 };
    let way = vector_difference(to, from);
    proof {
        lemma_square_bound(way.x as int, 0x1_0000_0000);
        lemma_square_bound(way.y as int, 0x1_0000_0000);
    }
    let way_squared = vector_length_squared(way);
    let step_x = covered(vel.dx, time.elapsed_millis);
    let step_y = covered(vel.dy, time.elapsed_millis);
    // A step beyond this in either direction is longer than any way between two positions.
    let reach: i128 = 0x2_0000_0000;
    let longer = if step_x > reach || step_x < -reach || step_y > reach || step_y < -reach {
        assert(way_squared < step_x * step_x + step_y * step_y) by (nonlinear_arith)
            requires
                way_squared <= 2 * (0x1_0000_0000 * 0x1_0000_0000),
                step_x > 0x2_0000_0000 || step_x < -0x2_0000_0000 || step_y > 0x2_0000_0000
                    || step_y < -0x2_0000_0000,
        ;
        true
    } else {
        proof {
            lemma_square_bound(step_x as int, 0x2_0000_0000);
            lemma_square_bound(step_y as int, 0x2_0000_0000);
        }
        way_squared < vector_length_squared(Vector { x: step_x, y: step_y })
    };
    if longer {
        pos.x = des.x;
        pos.y = des.y;
    } else {
        velocity_to_position(pos, vel, time);
    }
}

/// A unit after the integration stage: one with a velocity has moved by it,
/// and no farther than to the destination it seeks, if it seeks one; one
/// without a velocity is left alone.
pub open spec fn carried(unit: UnitModel, millis: int) -> UnitModel {
    match unit.velocity {
        Some(velocity) => match unit.destination {
            Some(destination) => with_position(
                unit,
                moved_toward(unit.position, velocity, destination, millis),
            ),
            None => with_position(unit, moved(unit.position, velocity, millis)),
        },
        None => unit,
    }
}

/// Moves every unit that has a velocity by what that velocity covers in the
/// time of this tick, and a unit that seeks a destination no farther than to
/// that destination. No unit's move depends on another's.
pub fn velocity_to_position_system(world: &mut World, time: &TimeResource)
    ensures
        world_units(*final(world)) == world_units(*old(world)).map_values(
            |unit: UnitModel| carried(unit, time.elapsed_millis as int),
        ),
{
    let ghost before = world_units(*world);
    let entities = world_entities(world);
    let mut i: usize = 0;
    while i < entities.len()
        invariant
            i <= entities@.len(),
            entities@.no_duplicates(),
            forall|e: Entity| entities@.contains(e) <==> before.contains_key(e),
            world_units(*world).dom() == before.dom(),
            forall|j: int|
                0 <= j < i ==> world_units(*world)[#[trigger] entities@[j]] == carried(
                    before[entities@[j]],
                    time.elapsed_millis as int,
                ),
            forall|j: int|
                i <= j < entities@.len() ==> world_units(*world)[#[trigger] entities@[j]]
                    == before[entities@[j]],
        decreases entities@.len() - i,
    {
        let entity = entities[i];
        assert(entities@.contains(entity));
        let ghost earlier = world_units(*world);
        if let Some(row) = world_unit(world, entity) {
            if let Some(velocity) = row.velocity {
                let mut position = row.position;
                match row.destination {
                    Some(destination) => {
                        velocity_to_position_toward(&mut position, &velocity, &destination, time);
                    },
                    None => {
                        velocity_to_position(&mut position, &velocity, time);
                    },
                }
                world_set_position(world, entity, position);
            }
        }
        proof {
            assert(world_units(*world).dom() =~= before.dom());
            assert(earlier[entity] == before[entities@[i as int]]);
            assert(world_units(*world)[entity] == carried(earlier[entity], time.elapsed_millis as int));
            assert forall|j: int| 0 <= j < entities@.len() && j != i implies world_units(
                *world,
            )[#[trigger] entities@[j]] == earlier[entities@[j]] by {
                assert(entities@[j] != entities@[i as int]);
            }
        }
        i += 1;
    }
    proof {
        let after = world_units(*world);
        assert forall|e: Entity| before.contains_key(e) implies after[e] == carried(
            before[e],
            time.elapsed_millis as int,
        ) by {
            assert(entities@.contains(e));
            let j = choose|j: int| 0 <= j < entities@.len() && entities@[j] == e;
            assert(after[entities@[j]] == carried(before[entities@[j]], time.elapsed_millis as int));
        }
        assert(after =~= before.map_values(|unit: UnitModel| carried(unit, time.elapsed_millis as int)));
    }
}

} // verus!
