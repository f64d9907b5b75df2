use game_logic::commands::GameCommand;
use game_logic::components::{Destination, Position};
use game_logic::game_state::{Unit, UnitType};
use game_logic::resources::GameConfig;
use game_logic::GameLogic;

fn create(id: &str, x: i32, y: i32) -> GameCommand {
    GameCommand::CreateUnitCommand {
        unit: Unit {
            position: (x, y),
            destination: (x, y),
            unit_type: UnitType::Normal,
            id: id.to_string(),
        },
    }
}

fn send(id: &str, x: i32, y: i32) -> GameCommand {
    GameCommand::SetUnitDestinationCommand { position: (x, y), uuid: id.to_string() }
}

fn game_with(commands: Vec<GameCommand>, millis: u32) -> GameLogic {
    let mut game = GameLogic::new();
    game.set_elapsed_seconds(millis);
    game.handle_commands(commands);
    game
}

fn sorted_names(game: &GameLogic) -> Vec<String> {
    let mut names = game.generate_game_state_cache().units.keys();
    names.sort();
    names
}

#[test]
fn unit_walks_to_its_destination_and_stops() {
    let mut game = game_with(vec![create("u1", 0, 0)], 1_000);
    game.execute();
    game.handle_commands(vec![send("u1", 10_000, 0)]);

    let mut ticks = 0;
    while game.unit("u1").unwrap().position.x != 10_000 {
        game.execute();
        ticks += 1;
        assert!(ticks <= 10);
    }
    assert_eq!(ticks, 2);
    let unit = game.unit("u1").unwrap();
    assert_eq!(unit.position, Position { x: 10_000, y: 0 });
    assert!(unit.destination.is_none());
    assert!(unit.velocity.is_none());
}

#[test]
fn unit_is_halfway_after_the_first_of_two_ticks() {
    let mut game = game_with(vec![create("u1", 0, 0), send("u1", 10_000, 0)], 1_000);
    game.execute();
    let unit = game.unit("u1").unwrap();
    assert_eq!(unit.position, Position { x: 5_000, y: 0 });
    assert_eq!(unit.destination, Some(Destination { x: 10_000, y: 0 }));
    let velocity = unit.velocity.unwrap();
    assert_eq!((velocity.dx, velocity.dy), (5_000, 0));
}

#[test]
fn a_step_that_would_pass_the_destination_ends_on_it() {
    let mut game = game_with(vec![create("near", 0, 0), send("near", 1_200, -900)], 1_000);
    game.execute();
    let unit = game.unit("near").unwrap();
    assert_eq!(unit.position, Position { x: 1_200, y: -900 });
    assert!(unit.destination.is_none());
    assert!(unit.velocity.is_none());
}

#[test]
fn a_unit_sent_to_where_it_stands_stays_and_stops() {
    let mut game = game_with(vec![create("still", 7_000, -3_000), send("still", 7_000, -3_000)], 1_000);
    game.execute();
    let unit = game.unit("still").unwrap();
    assert_eq!(unit.position, Position { x: 7_000, y: -3_000 });
    assert!(unit.destination.is_none());
    assert!(unit.velocity.is_none());
}

#[test]
fn a_diagonal_walk_rounds_each_component_toward_zero() {
    let mut game = game_with(
        vec![
            create("up", 0, 0),
            send("up", 10_000, 10_000),
            create("down", 0, 0),
            send("down", -10_000, -10_000),
        ],
        1_000,
    );
    game.execute();
    assert_eq!(game.unit("up").unwrap().position, Position { x: 3_535, y: 3_535 });
    assert_eq!(game.unit("down").unwrap().position, Position { x: -3_535, y: -3_535 });
}

#[test]
fn a_short_tick_covers_its_share_of_the_way() {
    let mut game = game_with(vec![create("u1", 0, 0), send("u1", 10_000, 0)], 500);
    game.execute();
    assert_eq!(game.unit("u1").unwrap().position, Position { x: 2_500, y: 0 });
    game.set_elapsed_seconds(250);
    game.execute();
    assert_eq!(game.unit("u1").unwrap().position, Position { x: 3_750, y: 0 });
}

#[test]
fn a_unit_within_reach_is_put_on_its_destination() {
    // 300 thousandths away: the square, 90_000, is below the threshold of 100_000.
    let mut game = game_with(vec![create("close", 0, 0), send("close", 5_300, 0)], 1_000);
    game.execute();
    let unit = game.unit("close").unwrap();
    assert_eq!(unit.position, Position { x: 5_300, y: 0 });
    assert!(unit.destination.is_none());
}

#[test]
fn a_unit_just_out_of_reach_keeps_walking() {
    // 400 thousandths away after the first tick: the square, 160_000, is not below 100_000.
    let mut game = game_with(vec![create("far", 0, 0), send("far", 5_400, 0)], 1_000);
    game.execute();
    let unit = game.unit("far").unwrap();
    assert_eq!(unit.position, Position { x: 5_000, y: 0 });
    assert_eq!(unit.destination, Some(Destination { x: 5_400, y: 0 }));
    game.execute();
    let unit = game.unit("far").unwrap();
    assert_eq!(unit.position, Position { x: 5_400, y: 0 });
    assert!(unit.destination.is_none());
}

#[test]
fn settings_given_at_construction_are_used() {
    let config = GameConfig {
        speed: 1_000,
        arrival_threshold: 1,
        target_interval: 250,
        queue_capacity: 8,
    };
    let mut game = GameLogic::with_config(config);
    assert_eq!(game.config(), config);
    game.set_elapsed_seconds(1_000);
    game.handle_commands(vec![create("slow", 0, 0), send("slow", 0, 2_500)]);
    game.execute();
    assert_eq!(game.unit("slow").unwrap().position, Position { x: 0, y: 1_000 });
    game.execute();
    game.execute();
    let unit = game.unit("slow").unwrap();
    assert_eq!(unit.position, Position { x: 0, y: 2_500 });
    assert!(unit.destination.is_none());
}

#[test]
fn the_usual_settings() {
    let config = GameLogic::new().config();
    assert_eq!(config.speed, 5_000);
    assert_eq!(config.arrival_threshold, 100_000);
    assert_eq!(config.target_interval, 1_000);
    assert_eq!(config.queue_capacity, 1_000);
    assert_eq!(config, GameConfig::default());
}

#[test]
fn reset_leaves_an_empty_snapshot() {
    let mut game = game_with(vec![create("a", 1, 1), create("b", 2, 2), create("c", 3, 3)], 1_000);
    game.execute();
    assert_eq!(game.generate_game_state_cache().units.len(), 3);
    game.handle_commands(vec![GameCommand::ResetGameCommand]);
    assert!(game.generate_game_state_cache().units.is_empty());
    game.execute();
    assert!(game.generate_game_state_cache().units.is_empty());
    assert!(game.unit("a").is_none());
}

#[test]
fn reset_drops_the_rest_of_its_batch_and_what_was_waiting() {
    let mut game = game_with(vec![create("old", 1, 1)], 1_000);
    game.execute();
    game.handle_commands(vec![create("waiting", 5, 5)]);
    game.handle_commands(vec![
        create("before", 2, 2),
        GameCommand::ResetGameCommand,
        create("after", 3, 3),
    ]);
    game.execute();
    assert!(game.generate_game_state_cache().units.is_empty());
}

#[test]
fn a_name_can_be_used_again_after_a_reset() {
    let mut game = game_with(vec![create("u1", 1, 1)], 1_000);
    game.execute();
    game.handle_commands(vec![GameCommand::ResetGameCommand]);
    game.handle_commands(vec![create("u1", 9, 9)]);
    game.execute();
    assert_eq!(game.unit("u1").unwrap().position, Position { x: 9, y: 9 });
    assert_eq!(game.generate_game_state_cache().units.len(), 1);
}

#[test]
fn the_snapshot_holds_exactly_the_names_created() {
    let mut game = game_with(
        vec![create("delta", 4, 4), create("alpha", 1, 1), create("charlie", 3, 3), create("bravo", 2, 2)],
        1_000,
    );
    game.execute();
    assert_eq!(sorted_names(&game), vec!["alpha", "bravo", "charlie", "delta"]);

    let mut other = game_with(
        vec![create("bravo", 2, 2), create("charlie", 3, 3), create("alpha", 1, 1), create("delta", 4, 4)],
        1_000,
    );
    other.execute();
    assert_eq!(sorted_names(&other), sorted_names(&game));
}

#[test]
fn commands_wait_until_the_tick() {
    let mut game = game_with(vec![create("u1", 1, 1)], 1_000);
    assert!(game.unit("u1").is_none());
    assert!(game.generate_game_state_cache().units.is_empty());
    game.execute();
    assert!(game.unit("u1").is_some());
}

#[test]
fn no_command_is_applied_twice() {
    let mut game = game_with(vec![create("u1", 0, 0), send("u1", 20_000, 0)], 1_000);
    game.execute();
    game.handle_commands(vec![send("u1", 5_000, 50_000)]);
    game.execute();
    game.execute();
    // Had the first destination been applied again, the unit would head for (20_000, 0).
    let unit = game.unit("u1").unwrap();
    assert_eq!(unit.destination, Some(Destination { x: 5_000, y: 50_000 }));
    assert_eq!(unit.position, Position { x: 5_000, y: 10_000 });
}

#[test]
fn a_destination_for_an_unknown_name_changes_nothing() {
    let mut game = game_with(vec![create("u1", 100, 200), send("u1", 50_000, 200)], 1_000);
    game.execute();
    let mut quiet = game_with(vec![create("u1", 100, 200), send("u1", 50_000, 200)], 1_000);
    quiet.execute();

    game.handle_commands(vec![send("nobody", 1, 1)]);
    game.execute();
    quiet.execute();

    let with_command = game.generate_game_state_cache();
    let without = quiet.generate_game_state_cache();
    assert_eq!(with_command.units.keys(), without.units.keys());
    let shown = with_command.units.get("u1").unwrap();
    let expected = without.units.get("u1").unwrap();
    assert_eq!(shown.position, expected.position);
    assert_eq!(shown.destination, expected.destination);
    assert_eq!(shown.id, expected.id);
    assert!(with_command.units.get("nobody").is_none());
    assert!(game.unit("nobody").is_none());
}

#[test]
fn a_second_unit_of_the_same_name_is_not_created() {
    let mut game = game_with(vec![create("twin", 1_000, 1_000), create("twin", 9_000, 9_000)], 1_000);
    game.execute();
    assert_eq!(game.generate_game_state_cache().units.len(), 1);
    assert_eq!(game.unit("twin").unwrap().position, Position { x: 1_000, y: 1_000 });
    game.handle_commands(vec![create("twin", 5_000, 5_000)]);
    game.execute();
    assert_eq!(game.generate_game_state_cache().units.len(), 1);
    assert_eq!(game.unit("twin").unwrap().position, Position { x: 1_000, y: 1_000 });
}

#[test]
fn a_new_destination_takes_the_place_of_the_old() {
    let mut game = game_with(vec![create("u1", 0, 0), send("u1", 100_000, 0)], 1_000);
    game.execute();
    game.handle_commands(vec![send("u1", 5_000, 50_000)]);
    game.execute();
    let unit = game.unit("u1").unwrap();
    assert_eq!(unit.destination, Some(Destination { x: 5_000, y: 50_000 }));
    assert_eq!(unit.position, Position { x: 5_000, y: 5_000 });
}

#[test]
fn a_unit_at_rest_shows_its_position_as_destination() {
    let mut game = game_with(vec![create("rests", 4_000, -2_000), create("walks", 0, 0), send("walks", 0, 30_000)], 1_000);
    game.execute();
    let cache = game.generate_game_state_cache();
    let rests = cache.units.get("rests").unwrap();
    assert_eq!(rests.position, (4_000, -2_000));
    assert_eq!(rests.destination, (4_000, -2_000));
    assert_eq!(rests.id, "rests");
    assert_eq!(rests.unit_type, UnitType::Normal);
    let walks = cache.units.get("walks").unwrap();
    assert_eq!(walks.position, (0, 5_000));
    assert_eq!(walks.destination, (0, 30_000));
}

#[test]
fn the_destination_asked_for_at_creation_is_not_taken_up() {
    let command = GameCommand::CreateUnitCommand {
        unit: Unit {
            position: (1_000, 1_000),
            destination: (90_000, 90_000),
            unit_type: UnitType::Normal,
            id: "u1".to_string(),
        },
    };
    let mut game = game_with(vec![command], 1_000);
    game.execute();
    let unit = game.unit("u1").unwrap();
    assert_eq!(unit.position, Position { x: 1_000, y: 1_000 });
    assert!(unit.destination.is_none());
}

#[test]
fn every_tick_counts() {
    let mut game = GameLogic::new();
    assert_eq!(game.ticks(), 0);
    game.execute();
    game.execute();
    game.execute();
    assert_eq!(game.ticks(), 3);
}

#[test]
fn a_tick_of_no_time_moves_nothing() {
    let mut game = game_with(vec![create("u1", 0, 0), send("u1", 10_000, 0)], 0);
    game.execute();
    let unit = game.unit("u1").unwrap();
    assert_eq!(unit.position, Position { x: 0, y: 0 });
    assert_eq!(unit.destination, Some(Destination { x: 10_000, y: 0 }));
}

#[test]
fn changed_units_are_told_once() {
    let mut game = game_with(vec![create("walks", 0, 0), send("walks", 20_000, 0), create("rests", 5, 5)], 1_000);
    game.execute();
    let mut first: Vec<String> = game.query_changed_units().into_iter().map(|change| change.2.id).collect();
    first.sort();
    assert_eq!(first, vec!["rests", "walks"]);
    assert!(game.query_changed_units().is_empty());

    game.execute();
    let second = game.query_changed_units();
    assert_eq!(second.len(), 1);
    assert_eq!(second[0].0, Position { x: 10_000, y: 0 });
    assert_eq!(second[0].1, Some(Destination { x: 20_000, y: 0 }));
    assert_eq!(second[0].2.id, "walks");
    assert!(game.query_changed_units().is_empty());
}

#[test]
fn a_new_destination_counts_as_a_change() {
    let mut game = game_with(vec![create("u1", 0, 0)], 0);
    game.execute();
    assert_eq!(game.query_changed_units().len(), 1);
    game.handle_commands(vec![send("u1", 10_000, 0)]);
    game.execute();
    let changed = game.query_changed_units();
    assert_eq!(changed.len(), 1);
    assert_eq!(changed[0].0, Position { x: 0, y: 0 });
    assert_eq!(changed[0].1, Some(Destination { x: 10_000, y: 0 }));
}

#[test]
fn a_unit_recreated_after_a_reset_is_told_again_only_if_it_differs() {
    let mut game = game_with(vec![create("same", 1, 1), create("moved", 2, 2), create("gone", 3, 3)], 1_000);
    game.execute();
    assert_eq!(game.query_changed_units().len(), 3);
    game.handle_commands(vec![GameCommand::ResetGameCommand]);
    game.handle_commands(vec![create("same", 1, 1), create("moved", 20, 20)]);
    game.execute();
    let changed = game.query_changed_units();
    assert_eq!(changed.len(), 1);
    assert_eq!(changed[0].2.id, "moved");
    // "gone" is forgotten: created anew where it stood, it is told again.
    game.handle_commands(vec![create("gone", 3, 3)]);
    game.execute();
    let changed = game.query_changed_units();
    assert_eq!(changed.len(), 1);
    assert_eq!(changed[0].2.id, "gone");
}

#[test]
fn many_units_walk_at_once() {
    let mut commands = Vec::new();
    for i in 1..=50 {
        let name = format!("{}", i);
        commands.push(create(&name, i * 1_000, 0));
        commands.push(send(&name, i * 1_000, 20_000));
    }
    let mut game = game_with(commands, 1_000);
    for _ in 0..4 {
        game.execute();
    }
    let cache = game.generate_game_state_cache();
    assert_eq!(cache.units.len(), 50);
    for i in 1..=50 {
        let name = format!("{}", i);
        let unit = game.unit(&name).unwrap();
        assert_eq!(unit.position, Position { x: i * 1_000, y: 20_000 });
        assert!(unit.destination.is_none());
        assert!(unit.velocity.is_none());
        assert_eq!(cache.units.get(&name).unwrap().destination, (i * 1_000, 20_000));
    }
}

/// Runs ticks, at least one, until the unit named `id` has no destination, and gives their
/// number.
fn ticks_until_arrival(game: &mut GameLogic, id: &str, limit: u32) -> u32 {
    let mut ticks = 0;
    loop {
        game.execute();
        ticks += 1;
        if game.unit(id).unwrap().destination.is_none() {
            return ticks;
        }
        assert!(ticks < limit, "the unit has not arrived after {} ticks", limit);
    }
}

#[test]
fn units_arrive_whatever_the_length_of_the_ticks_up_to_a_second() {
    for millis in [1, 2, 4, 5, 7, 44, 45, 100, 333, 500, 999, 1_000] {
        let mut game = game_with(vec![create("u", 0, 0), send("u", 1_234, -987)], millis);
        // The way is 1_234 + 987 long along the axes.
        ticks_until_arrival(&mut game, "u", 2_222);
        let unit = game.unit("u").unwrap();
        assert_eq!(unit.position, Position { x: 1_234, y: -987 });
        assert!(unit.velocity.is_none());
    }
}

#[test]
fn a_unit_never_steps_past_its_destination_in_ticks_of_up_to_a_second() {
    for millis in [10, 250, 600, 1_000] {
        let mut game = game_with(vec![create("u", -20_000, 30_000), send("u", 15_000, -5_000)], millis);
        let mut last = Position { x: -20_000, y: 30_000 };
        loop {
            game.execute();
            let unit = game.unit("u").unwrap();
            assert!(last.x <= unit.position.x && unit.position.x <= 15_000);
            assert!(last.y >= unit.position.y && unit.position.y >= -5_000);
            if unit.destination.is_none() {
                break;
            }
            last = unit.position;
        }
        assert_eq!(game.unit("u").unwrap().position, Position { x: 15_000, y: -5_000 });
    }
}

#[test]
fn the_number_of_ticks_of_a_straight_walk() {
    // 100 distance units at 5 a second: 20 ticks of a second.
    let mut game = game_with(vec![create("u", 0, 0), send("u", 100_000, 0)], 1_000);
    assert_eq!(ticks_until_arrival(&mut game, "u", 100), 20);
    // At half-second ticks the unit covers 2.5 a tick; after 39 ticks it is 2.5 away, and the
    // next step, which would reach the destination exactly, is taken at full speed.
    let mut game = game_with(vec![create("u", 0, 0), send("u", 100_000, 0)], 500);
    assert_eq!(ticks_until_arrival(&mut game, "u", 100), 40);
}

#[test]
fn a_tick_longer_than_a_second_does_not_carry_a_unit_past_its_destination() {
    // Full speed would cover 15 in three seconds, the way is 10: the velocity is the way
    // itself, and three seconds of it would carry the unit to 30.
    let mut game = game_with(vec![create("u", 0, 0), send("u", 10_000, 0)], 3_000);
    game.execute();
    let unit = game.unit("u").unwrap();
    assert_eq!(unit.position, Position { x: 10_000, y: 0 });
    assert!(unit.destination.is_none());
    assert!(unit.velocity.is_none());
}

#[test]
fn a_unit_does_not_swing_around_its_destination_in_long_ticks() {
    // With the arrival threshold at its least, only an exact landing counts.
    let config = GameConfig { arrival_threshold: 1, ..GameConfig::default() };
    for millis in [1_001, 1_500, 2_000, 2_500, 3_000, 60_000] {
        let mut game = GameLogic::with_config(config);
        game.set_elapsed_seconds(millis);
        game.handle_commands(vec![create("u", 0, 0), send("u", 100_000, 37_000)]);
        let mut last = i64::MAX;
        let mut ticks = 0;
        loop {
            game.execute();
            ticks += 1;
            let unit = game.unit("u").unwrap();
            let dx = i64::from(100_000 - unit.position.x);
            let dy = i64::from(37_000 - unit.position.y);
            let left = dx * dx + dy * dy;
            assert!(left < last, "the unit is no closer after tick {} of {} ms", ticks, millis);
            last = left;
            if unit.destination.is_none() {
                break;
            }
        }
        assert_eq!(game.unit("u").unwrap().position, Position { x: 100_000, y: 37_000 });
        assert!(ticks <= 22);
    }
}

#[test]
fn units_arrive_in_long_ticks_too() {
    for millis in [1_001, 1_999, 2_500, 10_000, 300_000] {
        let mut game = game_with(vec![create("u", -50_000, 80_000), send("u", 1_234, -987)], millis);
        ticks_until_arrival(&mut game, "u", 200);
        assert_eq!(game.unit("u").unwrap().position, Position { x: 1_234, y: -987 });
    }
}
