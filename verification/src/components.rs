//! The attributes that a unit entity can carry.
use vstd::prelude::*;

verus! {

/// Where a unit stands, in thousandths of a distance unit.
#[derive(Clone, Copy, Debug, PartialEq, Eq, Structural)]
pub struct Position {
    pub x: i32,
    pub y: i32,
}

/// Where a unit is heading, in thousandths of a distance unit.
#[derive(Clone, Copy, Debug, PartialEq, Eq, Structural)]
pub struct Destination {
    pub x: i32,
    pub y: i32,
}

/// The position that is the destination itself.
pub open spec fn place_of(destination: Destination) -> Position {
    Position { x: destination.x, y: destination.y }
}

/// How far a unit moves per second, in thousandths of a distance unit.
#[derive(Clone, Copy, Debug, PartialEq, Eq, Structural)]
pub struct Velocity {
    pub dx: i64,
    pub dy: i64,
}

/// The name under which the outside world knows a unit. It is chosen before
/// the unit enters a world and is not the handle that the world gives it.
#[derive(Debug)]
pub struct UnitId {
    pub id: String,
}

impl Clone for UnitId {
    fn clone(&self) -> (copy: UnitId)
        ensures
            copy == *self,
    {
        UnitId { id: self.id.clone() }
    }
}

} // verus!
