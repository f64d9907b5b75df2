//! Values that belong to the simulation as a whole and to no single unit.
use vstd::prelude::*;
use crate::commands::GameCommand;
use crate::game_state::UidEntityMap;

verus! {

/// The clock of the simulation.
#[derive(Clone, Copy, Debug, PartialEq, Eq, Structural)]
pub struct TimeResource {
    /// The time that the coming tick covers, in thousandths of a second.
    pub elapsed_millis: u32,
    /// The ticks run since the game began. At one tick a second this lasts
    /// for some 5.8 * 10^11 years; after that it starts again at zero.
    pub ticks: u64,
}

impl Default for TimeResource {
    fn default() -> (time: TimeResource)
        ensures
            time.elapsed_millis == 0,
            time.ticks == 0,
    {
        TimeResource { elapsed_millis: 0, ticks: 0 }
    }
}

/// What a game is set up with.
#[derive(Clone, Copy, Debug, PartialEq, Eq, Structural)]
pub struct GameConfig {
    /// How fast a unit walks, in thousandths of a distance unit per second.
    pub speed: u32,
    /// A unit has arrived once the square of its distance to the destination
    /// is below this, in squares of thousandths of a distance unit.
    pub arrival_threshold: u64,
    /// The time from the start of one tick to the start of the next, in
    /// thousandths of a second.
    pub target_interval: u32,
    /// How many commands may wait for the next tick.
    pub queue_capacity: usize,
}

/// The usual settings: five distance units per second, arrival within a
/// squared distance of one tenth, one tick per second, a thousand waiting
/// commands.
pub open spec fn usual_settings() -> GameConfig {
    GameConfig {
        speed: 5_000,
        arrival_threshold: 100_000,
        target_interval: 1_000,
        queue_capacity: 1_000,
    }
}

impl Default for GameConfig {
    fn default() -> (config: GameConfig)
        ensures
            config == usual_settings(),
    {
        GameConfig {
            speed: 5_000,
            arrival_threshold: 100_000,
            target_interval: 1_000,
            queue_capacity: 1_000,
        }
    }
}

/// What the stages of a tick share: the clock, the index from names to
/// entities, the commands that wait for the tick, and the settings.
pub struct Resources {
    pub time: TimeResource,
    pub id_map: UidEntityMap,
    pub commands: Vec<GameCommand>,
    pub config: GameConfig,
}

/// How long the loop rests after a tick that kept it busy for `busy_millis`.
pub open spec fn rest_after(busy_millis: int, target_interval: int) -> int {
    if busy_millis <= target_interval {
        target_interval - busy_millis
    } else {
        0
    }
}

impl GameConfig {
    /// The time to sleep after a tick whose work took `busy_millis`: what is
    /// left of the target interval, and nothing if the tick overran it. A late
    /// tick is never made up for.
    pub fn pause_after(&self, busy_millis: u64) -> (pause: u32)
        ensures
            pause == rest_after(busy_millis as int, self.target_interval as int),
    {
        if busy_millis <= self.target_interval as u64 {
            self.target_interval - busy_millis as u32
        } else {
            0
        }
    }
}

} // verus!
