//! A unit's way to its destination, tick by tick: that it never moves
//! farther than the way is long, and that it arrives.
use vstd::prelude::*;
use crate::components::{place_of, Destination, Position, Velocity};
use crate::resources::{usual_settings, GameConfig};
use crate::schedule::unit_after_tick;
use crate::store::UnitModel;
use crate::systems::destination_to_velocity::{
    direction, full_speed_velocity, guarded_velocity, lemma_component_within_length,
    lemma_full_speed_velocity_bound, overshoots, step,
};
use crate::systems::remove_destination_on_arrival::within_reach;
use crate::systems::velocity_to_position::{moved, moved_toward, passes, saturated};
use crate::vector::{
    floor_sqrt, lemma_floor_sqrt_exists, lemma_square_bound, length_squared, truncated_quotient,
};

verus! {

/// `value` without its sign.
pub open spec fn magnitude(value: int) -> int {
    if value >= 0 {
        value
    } else {
        -value
    }
}

/// The way from `position` to `destination`, measured along the axes.
pub open spec fn way_left(position: Position, destination: Destination) -> nat {
    (magnitude(destination.x - position.x) + magnitude(destination.y - position.y)) as nat
}

/// The unit stands exactly on `destination` and has stopped seeking: it has
/// neither destination nor velocity.
pub open spec fn has_arrived(unit: UnitModel, destination: Destination) -> bool {
    unit.position == place_of(destination) && unit.destination is None && unit.velocity is None
}

/// The unit after `count` ticks of `millis` each.
pub open spec fn after_ticks(unit: UnitModel, config: GameConfig, millis: int, count: nat) -> UnitModel
    decreases count,
{
    if count == 0 {
        unit
    } else {
        after_ticks(unit_after_tick(unit, config, millis), config, millis, (count - 1) as nat)
    }
}

/// A unit that stands on its destination is given the velocity zero: a way of
/// length zero has a direction of zero, not an undefined one.
pub proof fn lemma_seek_on_the_spot(position: Position, speed: int, millis: int)
    ensures
        guarded_velocity(
            position,
            Destination { x: position.x, y: position.y },
            speed,
            millis,
        ) == (Velocity { dx: 0, dy: 0 }),
{
    assert(full_speed_velocity(0, 0, speed) == (0int, 0int));
    assert(step(0, millis) == 0);
}

/// A number and its size have the same square.
proof fn lemma_square_of_magnitude(value: int)
    ensures
        value * value == magnitude(value) * magnitude(value),
{
    assert(value * value == (-value) * (-value)) by (nonlinear_arith);
}

/// A quotient rounded toward zero points the way its dividend does, and its
/// size is the quotient of the sizes, rounded down.
proof fn lemma_quotient_magnitude(value: int, factor: int, divisor: int)
    requires
        factor >= 0,
        divisor >= 1,
    ensures
        magnitude(truncated_quotient(value * factor, divisor)) == (magnitude(value) * factor)
            / divisor,
        value >= 0 ==> truncated_quotient(value * factor, divisor) >= 0,
        value <= 0 ==> truncated_quotient(value * factor, divisor) <= 0,
        (magnitude(value) * factor) / divisor >= 0,
{
    let m = magnitude(value);
    assert(m * factor >= 0) by (nonlinear_arith)
        requires
            m >= 0,
            factor >= 0,
    ;
    assert(value >= 0 ==> value * factor == m * factor);
    assert(value < 0 ==> -(value * factor) == m * factor) by (nonlinear_arith)
        requires
            m == -value || value >= 0,
    ;
    assert(value < 0 && factor > 0 ==> value * factor < 0) by (nonlinear_arith);
    assert(factor == 0 || value == 0 ==> value * factor == 0) by (nonlinear_arith);
    assert((m * factor) / divisor >= 0) by (nonlinear_arith)
        requires
            m * factor >= 0,
            divisor >= 1,
    ;
}

/// What rounding down leaves of a quotient: the quotient times the divisor is
/// at most the dividend and misses it by less than the divisor.
proof fn lemma_floor(dividend: int, divisor: int)
    requires
        dividend >= 0,
        divisor >= 1,
    ensures
        0 <= (dividend / divisor) * divisor <= dividend < (dividend / divisor) * divisor + divisor,
        dividend / divisor >= 0,
{
    assert(0 <= (dividend / divisor) * divisor <= dividend < (dividend / divisor) * divisor
        + divisor && dividend / divisor >= 0) by (nonlinear_arith)
        requires
            dividend >= 0,
            divisor >= 1,
    ;
}

/// A coordinate that stays within the coordinate range is no farther from
/// any coordinate of the range than it would be beyond the range.
proof fn lemma_saturated_no_farther(goal: i32, target: int)
    ensures
        magnitude(goal - saturated(target)) <= magnitude(goal - target),
{
}

/// A unit that seeks a destination never moves farther in a tick than the way
/// to the destination is long, whatever its velocity and the length of the
/// tick.
pub proof fn lemma_move_within_the_way(
    position: Position,
    velocity: Velocity,
    destination: Destination,
    millis: int,
)
    ensures
        length_squared(
            moved_toward(position, velocity, destination, millis).x - position.x,
            moved_toward(position, velocity, destination, millis).y - position.y,
        ) <= length_squared(
            direction(position, destination).0,
            direction(position, destination).1,
        ),
{
    if !passes(position, velocity, destination, millis) {
        let sx = step(velocity.dx as int, millis);
        let sy = step(velocity.dy as int, millis);
        let landed = moved(position, velocity, millis);
        lemma_square_bound(landed.x - position.x, magnitude(sx));
        lemma_square_bound(landed.y - position.y, magnitude(sy));
        lemma_square_of_magnitude(sx);
        lemma_square_of_magnitude(sy);
    }
}

/// Where the step at full speed would pass the destination, the unit stands
/// exactly on the destination after a tick of a second or more. After a
/// shorter tick it has covered only its share of the way, and stands on the
/// destination where that leaves it within reach.
pub proof fn lemma_no_overshoot(
    unit: UnitModel,
    destination: Destination,
    config: GameConfig,
    millis: int,
)
    requires
        unit.destination == Some(destination),
        overshoots(
            direction(unit.position, destination).0,
            direction(unit.position, destination).1,
            config.speed as int,
            millis,
        ),
        millis >= 1000 || within_reach(
            moved(
                unit.position,
                guarded_velocity(unit.position, destination, config.speed as int, millis),
                millis,
            ),
            destination,
            config.arrival_threshold as int,
        ),
    ensures
        unit_after_tick(unit, config, millis).position == place_of(destination),
{
    let (dx, dy) = direction(unit.position, destination);
    let velocity = guarded_velocity(unit.position, destination, config.speed as int, millis);
    assert(velocity.dx == dx && velocity.dy == dy);
    if millis >= 1000 {
        lemma_whole_way_covered(dx, dy, millis);
    }
}

/// In a second or more, a velocity that is the way itself covers the whole
/// way: either the step is longer than the way, or it is the way.
proof fn lemma_whole_way_covered(dx: int, dy: int, millis: int)
    requires
        millis >= 1000,
    ensures
        length_squared(dx, dy) < length_squared(step(dx, millis), step(dy, millis)) || (step(
            dx,
            millis,
        ) == dx && step(dy, millis) == dy),
{
    let a = magnitude(dx);
    let b = magnitude(dy);
    let sx = step(dx, millis);
    let sy = step(dy, millis);
    lemma_quotient_magnitude(dx, millis, 1000);
    lemma_quotient_magnitude(dy, millis, 1000);
    assert(a * millis >= 0 && b * millis >= 0) by (nonlinear_arith)
        requires
            a >= 0,
            b >= 0,
            millis >= 1000,
    ;
    lemma_floor(a * millis, 1000);
    lemma_floor(b * millis, 1000);
    assert(magnitude(sx) >= a) by (nonlinear_arith)
        requires
            a * millis < magnitude(sx) * 1000 + 1000,
            millis >= 1000,
            a >= 0,
    ;
    assert(magnitude(sy) >= b) by (nonlinear_arith)
        requires
            b * millis < magnitude(sy) * 1000 + 1000,
            millis >= 1000,
            b >= 0,
    ;
    lemma_square_of_magnitude(sx);
    lemma_square_of_magnitude(sy);
    lemma_square_of_magnitude(dx);
    lemma_square_of_magnitude(dy);
    if !(length_squared(dx, dy) < length_squared(sx, sy)) {
        assert(magnitude(sx) == a && magnitude(sy) == b) by (nonlinear_arith)
            requires
                magnitude(sx) * magnitude(sx) + magnitude(sy) * magnitude(sy) <= a * a + b * b,
                magnitude(sx) >= a,
                magnitude(sy) >= b,
                a >= 0,
                b >= 0,
        ;
    }
}

/// The size of one component of the step at full speed, for a direction
/// component of size `a`.
pub open spec fn full_step(a: int, speed: int, length: int, millis: int) -> int {
    (((a * speed) / length) * millis) / 1000
}

/// Where the step at full speed is no longer than the way, in a tick of at
/// most a second, neither of its components is longer than the way's.
proof fn lemma_no_component_passes(a: int, b: int, speed: int, length: int, millis: int)
    requires
        a >= 0,
        b >= 0,
        speed >= 0,
        length >= 1,
        1 <= millis <= 1000,
        full_step(a, speed, length, millis) * full_step(a, speed, length, millis) + full_step(
            b,
            speed,
            length,
            millis,
        ) * full_step(b, speed, length, millis) <= a * a + b * b,
    ensures
        full_step(a, speed, length, millis) <= a,
{
    let p = speed * millis;
    let va = (a * speed) / length;
    let vb = (b * speed) / length;
    let wa = (va * millis) / 1000;
    let wb = (vb * millis) / 1000;
    assert(a * speed >= 0 && b * speed >= 0) by (nonlinear_arith)
        requires
            a >= 0,
            b >= 0,
            speed >= 0,
    ;
    lemma_floor(a * speed, length);
    lemma_floor(b * speed, length);
    assert(va * millis >= 0 && vb * millis >= 0) by (nonlinear_arith)
        requires
            va >= 0,
            vb >= 0,
            millis >= 1,
    ;
    lemma_floor(va * millis, 1000);
    lemma_floor(vb * millis, 1000);
    if wa >= a + 1 {
        // The step in `a` reaches beyond: the speed is high for the length.
        assert(wa * 1000 * length <= a * p) by (nonlinear_arith)
            requires
                wa * 1000 <= va * millis,
                va * length <= a * speed,
                p == speed * millis,
                length >= 1,
                millis >= 1,
                va >= 0,
                wa >= 0,
        ;
        assert((a + 1) * 1000 * length <= a * p) by (nonlinear_arith)
            requires
                wa * 1000 * length <= a * p,
                wa >= a + 1,
                length >= 1,
        ;
        assert(a >= 1) by (nonlinear_arith)
            requires
                (a + 1) * 1000 * length <= a * p,
                a >= 0,
                length >= 1,
        ;
        // Then the step in `b` falls short of `b` by less than two.
        assert(wb * 1000 * length + 2000 * length > b * p) by (nonlinear_arith)
            requires
                vb * millis < wb * 1000 + 1000,
                b * speed < vb * length + length,
                p == speed * millis,
                length >= 1,
                1 <= millis <= 1000,
                vb >= 0,
                wb >= 0,
        ;
        assert(a * (wb + 2) > b * (a + 1)) by (nonlinear_arith)
            requires
                wb * 1000 * length + 2000 * length > b * p,
                (a + 1) * 1000 * length <= a * p,
                a >= 1,
                b >= 0,
                length >= 1,
        ;
        assert(wb >= b - 1) by (nonlinear_arith)
            requires
                a * (wb + 2) > b * (a + 1),
                a >= 1,
                b >= 0,
        ;
        if b > a {
            assert(wb >= b) by (nonlinear_arith)
                requires
                    a * (wb + 2) > b * (a + 1),
                    a >= 1,
                    b > a,
            ;
        }
        assert(wa * wa + wb * wb > a * a + b * b) by (nonlinear_arith)
            requires
                wa >= a + 1,
                wb >= b - 1,
                wb >= 0,
                b > a ==> wb >= b,
                a >= 1,
                b >= 0,
        ;
    }
}

/// Where the step at full speed is no longer than the way and yet reaches
/// beyond the destination along one axis, the unit either comes closer to the
/// destination, measured along the axes, or ends within reach of it.
proof fn lemma_passing_component(
    a: int,
    b: int,
    speed: int,
    length: int,
    millis: int,
    threshold: int,
)
    requires
        a >= 0,
        b >= 0,
        speed >= 0,
        length >= 1,
        millis >= 1,
        (millis + 1000) * (millis + 1000) <= threshold * 1_000_000,
        full_step(a, speed, length, millis) * full_step(a, speed, length, millis) + full_step(
            b,
            speed,
            length,
            millis,
        ) * full_step(b, speed, length, millis) <= a * a + b * b,
        full_step(a, speed, length, millis) > a,
    ensures
        0 <= full_step(b, speed, length, millis) < b,
        ({
            let wa = full_step(a, speed, length, millis);
            let wb = full_step(b, speed, length, millis);
            (wa - a) + (b - wb) < a + b || (wa - a) * (wa - a) + (b - wb) * (b - wb) < threshold
        }),
{
    let p = speed * millis;
    let va = (a * speed) / length;
    let vb = (b * speed) / length;
    let wa = (va * millis) / 1000;
    let wb = (vb * millis) / 1000;
    assert(a * speed >= 0 && b * speed >= 0) by (nonlinear_arith)
        requires
            a >= 0,
            b >= 0,
            speed >= 0,
    ;
    lemma_floor(a * speed, length);
    lemma_floor(b * speed, length);
    assert(va * millis >= 0 && vb * millis >= 0) by (nonlinear_arith)
        requires
            va >= 0,
            vb >= 0,
            millis >= 1,
    ;
    lemma_floor(va * millis, 1000);
    lemma_floor(vb * millis, 1000);
    assert(wb < b) by (nonlinear_arith)
        requires
            wa * wa + wb * wb <= a * a + b * b,
            wa > a,
            a >= 0,
            b >= 0,
            wb >= 0,
    ;
    if wa >= 2 * a + wb {
        assert(wa * 1000 * length <= a * p) by (nonlinear_arith)
            requires
                wa * 1000 <= va * millis,
                va * length <= a * speed,
                p == speed * millis,
                length >= 1,
                millis >= 1,
                va >= 0,
                wa >= 0,
        ;
        assert(a >= 1) by (nonlinear_arith)
            requires
                wa * 1000 * length <= a * p,
                wa >= 1,
                a >= 0,
                length >= 1,
        ;
        assert(wb * 1000 * length + (millis + 1000) * length > b * p) by (nonlinear_arith)
            requires
                vb * millis < wb * 1000 + 1000,
                b * speed < vb * length + length,
                p == speed * millis,
                length >= 1,
                millis >= 1,
                vb >= 0,
                wb >= 0,
        ;
        // The way is much longer along `b` than along `a`.
        assert(3 * (a * a) <= b * b) by (nonlinear_arith)
            requires
                wa * wa + wb * wb <= a * a + b * b,
                wa >= 2 * a + wb,
                a >= 0,
                wb >= 0,
        ;
        assert(b > a) by (nonlinear_arith)
            requires
                3 * (a * a) <= b * b,
                a >= 1,
                b >= 0,
        ;
        // And yet `b` is short for the length of the tick.
        assert(1000 * (b * wa) < 1000 * (a * wb) + a * (millis + 1000)) by (nonlinear_arith)
            requires
                wa * 1000 * length <= a * p,
                wb * 1000 * length + (millis + 1000) * length > b * p,
                length >= 1,
                a >= 1,
                b >= 0,
        ;
        assert(2000 * b < millis + 1000) by (nonlinear_arith)
            requires
                1000 * (b * wa) < 1000 * (a * wb) + a * (millis + 1000),
                wa >= 2 * a + wb,
                b > a,
                a >= 1,
                wb >= 0,
        ;
        assert(4 * (b * b) < threshold) by (nonlinear_arith)
            requires
                0 <= 2000 * b < millis + 1000,
                (millis + 1000) * (millis + 1000) <= threshold * 1_000_000,
        ;
        assert((wa - a) * (wa - a) + (b - wb) * (b - wb) <= 3 * (b * b)) by (nonlinear_arith)
            requires
                wa * wa + wb * wb <= a * a + b * b,
                3 * (a * a) <= b * b,
                wa > a,
                a >= 1,
                0 <= wb < b,
        ;
    }
}

/// Where the tick is long enough for the speed, the step at full speed moves
/// the unit along the longer of the way's two components.
proof fn lemma_full_step_moves(a: int, speed: int, length: int, millis: int)
    requires
        a >= 0,
        length >= 1,
        2 * a >= length,
        millis >= 1,
        speed >= 0,
        (speed / 2) * millis >= 1000,
    ensures
        full_step(a, speed, length, millis) >= 1,
{
    let half = speed / 2;
    let va = (a * speed) / length;
    assert(a * speed >= 0) by (nonlinear_arith)
        requires
            a >= 0,
            speed >= 0,
    ;
    lemma_floor(a * speed, length);
    assert(va >= half) by (nonlinear_arith)
        requires
            a * speed < va * length + length,
            2 * a >= length,
            length >= 1,
            0 <= 2 * half <= speed,
            a >= 0,
    ;
    assert(va * millis >= 1000) by (nonlinear_arith)
        requires
            va >= half,
            half * millis >= 1000,
            millis >= 1,
    ;
    lemma_floor(va * millis, 1000);
}

/// No component of the step at full speed is longer than what the speed
/// covers in the tick.
proof fn lemma_full_step_within_speed(a: int, speed: int, length: int, millis: int)
    requires
        0 <= a <= length,
        length >= 1,
        speed >= 0,
        millis >= 1,
    ensures
        0 <= full_step(a, speed, length, millis) * 1000 <= speed * millis,
{
    let va = (a * speed) / length;
    assert(a * speed >= 0) by (nonlinear_arith)
        requires
            a >= 0,
            speed >= 0,
    ;
    lemma_floor(a * speed, length);
    assert(va <= speed) by (nonlinear_arith)
        requires
            va * length <= a * speed,
            0 <= a <= length,
            length >= 1,
            speed >= 0,
            va >= 0,
    ;
    assert(va * millis >= 0 && va * millis <= speed * millis) by (nonlinear_arith)
        requires
            0 <= va <= speed,
            millis >= 1,
    ;
    lemma_floor(va * millis, 1000);
}

/// What the settings and the length of the ticks have to meet for every unit
/// to arrive. At half the speed a tick covers a thousandth of a distance
/// unit, so that a unit far from its destination moves. In ticks of up to a
/// second, a unit is within reach of its destination wherever it is so close
/// that its share of the way rounds to nothing, or wherever full speed would
/// pass the destination. In longer ticks, a unit is within reach wherever it
/// is so close that rounding the step can turn it aside.
pub open spec fn ticks_bring_units_home(config: GameConfig, millis: int) -> bool {
    &&& millis >= 1
    &&& (config.speed / 2) * millis >= 1000
    &&& config.arrival_threshold >= 1
    &&& if millis <= 1000 {
        ||| 2 * ((999int / millis) * (999int / millis)) < config.arrival_threshold
        ||| 2 * ((config.speed * millis) * (config.speed * millis)) <= config.arrival_threshold
            * 1_000_000
    } else {
        (millis + 1000) * (millis + 1000) <= config.arrival_threshold * 1_000_000
    }
}

/// With the usual settings, ticks of any one length up to some five minutes
/// bring units home.
pub proof fn lemma_usual_settings_bring_units_home(millis: int)
    requires
        1 <= millis <= 315_227,
    ensures
        ticks_bring_units_home(usual_settings(), millis),
{
    let config = usual_settings();
    assert(config.speed / 2 == 2_500);
    assert((config.speed / 2) * millis >= 1000);
    if millis > 1000 {
        assert((millis + 1000) * (millis + 1000) <= 316_227 * 316_227) by (nonlinear_arith)
            requires
                0 <= millis + 1000 <= 316_227,
        ;
    } else if millis >= 5 {
        let near = 999int / millis;
        lemma_floor(999, millis);
        assert(near <= 199) by (nonlinear_arith)
            requires
                near * millis <= 999,
                millis >= 5,
        ;
        assert(near * near <= 199 * 199) by (nonlinear_arith)
            requires
                0 <= near <= 199,
        ;
        assert(2 * (near * near) < config.arrival_threshold);
    } else {
        assert((5_000 * millis) * (5_000 * millis) <= 20_000 * 20_000) by (nonlinear_arith)
            requires
                1 <= millis <= 4,
        ;
        assert(config.speed * millis == 5_000 * millis);
        assert(2 * ((config.speed * millis) * (config.speed * millis)) <= config.arrival_threshold
            * 1_000_000);
    }
}

/// In a tick that brings units home, a unit with a destination either arrives
/// or comes closer to it, measured along the axes.
pub proof fn lemma_tick_brings_closer(
    unit: UnitModel,
    destination: Destination,
    config: GameConfig,
    millis: int,
)
    requires
        unit.destination == Some(destination),
        ticks_bring_units_home(config, millis),
    ensures
        has_arrived(unit_after_tick(unit, config, millis), destination) || (unit_after_tick(
            unit,
            config,
            millis,
        ).destination == Some(destination) && way_left(
            unit_after_tick(unit, config, millis).position,
            destination,
        ) < way_left(unit.position, destination)),
{
    let speed = config.speed as int;
    let threshold = config.arrival_threshold as int;
    let (dx, dy) = direction(unit.position, destination);
    let squared = length_squared(dx, dy);
    let velocity = guarded_velocity(unit.position, destination, speed, millis);
    let landed = moved_toward(unit.position, velocity, destination, millis);
    assert(squared >= 0) by (nonlinear_arith)
        requires
            squared == dx * dx + dy * dy,
    ;
    if dx == 0 && dy == 0 {
        lemma_seek_on_the_spot(unit.position, speed, millis);
        assert(step(0, millis) == 0);
    } else {
        lemma_floor_sqrt_exists(squared);
        let length = floor_sqrt(squared);
        lemma_component_within_length(dx, dy, length);
        lemma_full_speed_velocity_bound(dx, dy, speed);
        let a = magnitude(dx);
        let b = magnitude(dy);
        let vx = truncated_quotient(dx * speed, length);
        let vy = truncated_quotient(dy * speed, length);
        let wx = step(vx, millis);
        let wy = step(vy, millis);
        lemma_quotient_magnitude(dx, speed, length);
        lemma_quotient_magnitude(dy, speed, length);
        lemma_quotient_magnitude(vx, millis, 1000);
        lemma_quotient_magnitude(vy, millis, 1000);
        assert(full_speed_velocity(dx, dy, speed) == (vx, vy));
        assert(magnitude(wx) == full_step(a, speed, length, millis));
        assert(magnitude(wy) == full_step(b, speed, length, millis));
        lemma_square_of_magnitude(wx);
        lemma_square_of_magnitude(wy);
        lemma_square_of_magnitude(dx);
        lemma_square_of_magnitude(dy);
        if overshoots(dx, dy, speed, millis) {
            // The velocity is the way itself.
            assert(velocity.dx == dx && velocity.dy == dy);
            let sx = step(dx, millis);
            let sy = step(dy, millis);
            if millis >= 1000 {
                lemma_whole_way_covered(dx, dy, millis);
                assert(landed == place_of(destination));
                assert(within_reach(landed, destination, threshold));
            } else {
                // The step is the unit's share of the way.
                lemma_quotient_magnitude(dx, millis, 1000);
                lemma_quotient_magnitude(dy, millis, 1000);
                assert(a * millis >= 0 && b * millis >= 0) by (nonlinear_arith)
                    requires
                        a >= 0,
                        b >= 0,
                        millis >= 1,
                ;
                lemma_floor(a * millis, 1000);
                lemma_floor(b * millis, 1000);
                assert(magnitude(sx) <= a) by (nonlinear_arith)
                    requires
                        magnitude(sx) * 1000 <= a * millis,
                        1 <= millis <= 1000,
                        a >= 0,
                ;
                assert(magnitude(sy) <= b) by (nonlinear_arith)
                    requires
                        magnitude(sy) * 1000 <= b * millis,
                        1 <= millis <= 1000,
                        b >= 0,
                ;
                lemma_square_bound(sx, a);
                lemma_square_bound(sy, b);
                assert(!passes(unit.position, velocity, destination, millis));
                assert(landed.x == unit.position.x + sx);
                assert(landed.y == unit.position.y + sy);
                if sx == 0 && sy == 0 {
                    // The unit does not move: it is within reach where it stands.
                    assert(a * millis < 1000 && b * millis < 1000);
                    let near = 999int / millis;
                    if 2 * (near * near) < threshold {
                        lemma_floor(999, millis);
                        assert(a <= near && b <= near) by (nonlinear_arith)
                            requires
                                0 <= a * millis < 1000,
                                0 <= b * millis < 1000,
                                999 < near * millis + millis,
                                millis >= 1,
                                a >= 0,
                                b >= 0,
                        ;
                        lemma_square_bound(a, near);
                        lemma_square_bound(b, near);
                    } else {
                        lemma_full_step_within_speed(a, speed, length, millis);
                        lemma_full_step_within_speed(b, speed, length, millis);
                        let p = speed * millis;
                        let fa = full_step(a, speed, length, millis);
                        let fb = full_step(b, speed, length, millis);
                        assert(squared < threshold) by (nonlinear_arith)
                            requires
                                squared < fa * fa + fb * fb,
                                0 <= fa * 1000 <= p,
                                0 <= fb * 1000 <= p,
                                2 * (p * p) <= threshold * 1_000_000,
                        ;
                    }
                    assert(landed == unit.position);
                    assert(within_reach(landed, destination, threshold));
                } else {
                    assert(way_left(landed, destination) < way_left(unit.position, destination));
                }
            }
        } else {
            // The velocity is that of full speed, and the step is no longer than the way.
            assert(velocity.dx == vx && velocity.dy == vy);
            assert(!passes(unit.position, velocity, destination, millis));
            assert(landed.x == saturated(unit.position.x + wx));
            assert(landed.y == saturated(unit.position.y + wy));
            lemma_saturated_no_farther(destination.x, unit.position.x + wx);
            lemma_saturated_no_farther(destination.y, unit.position.y + wy);
            let larger = if a >= b { a } else { b };
            lemma_square_bound(dx, larger);
            lemma_square_bound(dy, larger);
            assert(2 * larger >= length) by (nonlinear_arith)
                requires
                    length >= 0,
                    length * length <= dx * dx + dy * dy,
                    larger * larger >= dx * dx,
                    larger * larger >= dy * dy,
                    larger >= 0,
            ;
            lemma_full_step_moves(larger, speed, length, millis);
            assert(wx != 0 || wy != 0);
            let wa = magnitude(wx);
            let wb = magnitude(wy);
            if wa <= a && wb <= b {
                assert(way_left(landed, destination) < way_left(unit.position, destination));
            } else if millis <= 1000 {
                lemma_no_component_passes(a, b, speed, length, millis);
                lemma_no_component_passes(b, a, speed, length, millis);
            } else {
                let rx = destination.x - landed.x;
                let ry = destination.y - landed.y;
                if wa > a {
                    lemma_passing_component(a, b, speed, length, millis, threshold);
                    assert(magnitude(dx - wx) == wa - a);
                    assert(magnitude(dy - wy) == b - wb);
                } else {
                    lemma_passing_component(b, a, speed, length, millis, threshold);
                    assert(magnitude(dy - wy) == wb - b);
                    assert(magnitude(dx - wx) == a - wa);
                }
                assert(magnitude(rx) <= magnitude(dx - wx));
                assert(magnitude(ry) <= magnitude(dy - wy));
                lemma_square_bound(rx, magnitude(dx - wx));
                lemma_square_bound(ry, magnitude(dy - wy));
                lemma_square_of_magnitude(dx - wx);
                lemma_square_of_magnitude(dy - wy);
                assert(way_left(landed, destination) < way_left(unit.position, destination)
                    || within_reach(landed, destination, threshold));
            }
        }
    }
}

/// With ticks of one length that bring units home, a unit that has a
/// destination stands exactly on it after some number of ticks, however far
/// away it began, and has then neither destination nor velocity. It takes at
/// most as many ticks as the way is long, measured along the axes in
/// thousandths, and one more.
pub proof fn lemma_unit_arrives(
    unit: UnitModel,
    destination: Destination,
    config: GameConfig,
    millis: int,
)
    requires
        unit.destination == Some(destination),
        ticks_bring_units_home(config, millis),
    ensures
        exists|count: nat|
            1 <= count <= way_left(unit.position, destination) + 1 && has_arrived(
                #[trigger] after_ticks(unit, config, millis, count),
                destination,
            ),
    decreases way_left(unit.position, destination),
{
    let next = unit_after_tick(unit, config, millis);
    lemma_tick_brings_closer(unit, destination, config, millis);
    if has_arrived(next, destination) {
        assert(after_ticks(next, config, millis, 0) == next);
        assert(after_ticks(unit, config, millis, 1) == next);
    } else {
        lemma_unit_arrives(next, destination, config, millis);
        let rest = choose|count: nat|
            1 <= count <= way_left(next.position, destination) + 1 && has_arrived(
                #[trigger] after_ticks(next, config, millis, count),
                destination,
            );
        assert(after_ticks(unit, config, millis, rest + 1) == after_ticks(
            next,
            config,
            millis,
            rest,
        ));
    }
}

} // verus!
