use game_logic::commands::GameCommand;
use game_logic::game_state::{GameStateCache, UnitType};
use game_logic::handler::{
    register_client, register_handler, unregister_handler, ws_handler, Client, Clients,
    RegisterRequest,
};
use game_logic::resources::{GameConfig, TimeResource};
use game_logic::string_map::StringMap;
use game_logic::vector::{integer_sqrt, truncated_div};
use game_logic::ws::{
    client_connection, handle_request, is_ping, CreateUnitRequest, RequestType, ResponseType,
    SetUnitDestinationRequest, SetUnitPositionRequest,
};

#[test]
fn square_roots_round_down() {
    assert_eq!(integer_sqrt(0), 0);
    assert_eq!(integer_sqrt(1), 1);
    assert_eq!(integer_sqrt(2), 1);
    assert_eq!(integer_sqrt(3), 1);
    assert_eq!(integer_sqrt(4), 2);
    assert_eq!(integer_sqrt(15), 3);
    assert_eq!(integer_sqrt(16), 4);
    assert_eq!(integer_sqrt(17), 4);
    assert_eq!(integer_sqrt(200_000_000), 14_142);
    assert_eq!(integer_sqrt(u64::MAX as u128), 4_294_967_295);
    assert_eq!(integer_sqrt(1u128 << 64), 4_294_967_296);
    assert_eq!(integer_sqrt(u128::MAX), 18_446_744_073_709_551_615);
}

#[test]
fn quotients_round_toward_zero() {
    assert_eq!(truncated_div(7, 2), 3);
    assert_eq!(truncated_div(-7, 2), -3);
    assert_eq!(truncated_div(-1, 1_000), 0);
    assert_eq!(truncated_div(999, 1_000), 0);
    assert_eq!(truncated_div(-1_000, 1_000), -1);
    assert_eq!(truncated_div(0, 5), 0);
    assert_eq!(truncated_div(i128::MAX, 1), i128::MAX);
    assert_eq!(truncated_div(i128::MIN + 1, 1), i128::MIN + 1);
}

#[test]
fn the_loop_rests_for_what_is_left_of_the_interval() {
    let config = GameConfig::default();
    assert_eq!(config.pause_after(0), 1_000);
    assert_eq!(config.pause_after(400), 600);
    assert_eq!(config.pause_after(1_000), 0);
    assert_eq!(config.pause_after(1_001), 0);
    assert_eq!(config.pause_after(u64::MAX), 0);
    let long = GameConfig { target_interval: u32::MAX, ..config };
    assert_eq!(long.pause_after(1), u32::MAX - 1);
    assert_eq!(long.pause_after(u32::MAX as u64 + 1), 0);
}

#[test]
fn the_clock_starts_at_zero() {
    let time = TimeResource::default();
    assert_eq!(time.elapsed_millis, 0);
    assert_eq!(time.ticks, 0);
}

#[test]
fn a_fresh_cache_is_empty() {
    let cache = GameStateCache::default();
    assert!(cache.units.is_empty());
    assert_eq!(cache.units.len(), 0);
    assert!(cache.units.keys().is_empty());
}

#[test]
fn a_string_map_holds_one_value_per_name() {
    let mut map: StringMap<u32> = StringMap::new();
    assert!(map.is_empty());
    assert!(map.get("a").is_none());
    map.insert("a".to_string(), 1);
    map.insert("b".to_string(), 2);
    map.insert("a".to_string(), 3);
    assert_eq!(map.len(), 2);
    assert!(!map.is_empty());
    assert_eq!(map.get("a"), Some(&3));
    assert_eq!(map.get("b"), Some(&2));
    assert!(map.contains_key("b"));
    assert!(!map.contains_key("c"));
    assert_eq!(map.keys(), vec!["a", "b"]);
}

#[test]
fn a_string_map_forgets_what_is_removed() {
    let mut map: StringMap<u32> = StringMap::new();
    map.insert("a".to_string(), 1);
    map.insert("b".to_string(), 2);
    map.insert("c".to_string(), 3);
    map.remove("b");
    map.remove("nobody");
    assert_eq!(map.keys(), vec!["a", "c"]);
    assert_eq!(map.get("a"), Some(&1));
    assert_eq!(map.get("c"), Some(&3));
    assert!(map.get("b").is_none());
    assert_eq!(map.len(), 2);
    map.clear();
    assert!(map.is_empty());
    assert!(map.get("a").is_none());
    assert_eq!(map.len(), 0);
}

#[test]
fn names_that_differ_in_one_character_are_different() {
    let mut map: StringMap<u32> = StringMap::new();
    map.insert("unit".to_string(), 1);
    map.insert("unit ".to_string(), 2);
    map.insert("Unit".to_string(), 3);
    map.insert("".to_string(), 4);
    assert_eq!(map.len(), 4);
    assert_eq!(map.get("unit"), Some(&1));
    assert_eq!(map.get(""), Some(&4));
}

#[test]
fn registering_gives_the_address_of_the_socket() {
    let mut clients = Clients::new();
    let response = register_handler(&RegisterRequest { user_id: 7 }, "abc123".to_string(), &mut clients);
    assert_eq!(response.url, "ws://127.0.0.1:8000/ws/abc123");
    assert_eq!(clients.get("abc123"), Some(&Client { user_id: 7, connected: false }));
    assert_eq!(clients.len(), 1);
}

#[test]
fn a_socket_opens_only_for_a_registered_client() {
    let mut clients = Clients::new();
    register_client("known".to_string(), 3, &mut clients);
    assert_eq!(ws_handler("known", &clients), Some(Client { user_id: 3, connected: false }));
    assert_eq!(ws_handler("unknown", &clients), None);
    client_connection("known".to_string(), Client { user_id: 3, connected: false }, &mut clients);
    assert_eq!(ws_handler("known", &clients), Some(Client { user_id: 3, connected: true }));
}

#[test]
fn unregistering_forgets_the_client() {
    let mut clients = Clients::new();
    register_client("one".to_string(), 1, &mut clients);
    register_client("two".to_string(), 2, &mut clients);
    unregister_handler("one", &mut clients);
    unregister_handler("never", &mut clients);
    assert_eq!(ws_handler("one", &clients), None);
    assert_eq!(ws_handler("two", &clients), Some(Client { user_id: 2, connected: false }));
}

#[test]
fn registering_again_starts_over() {
    let mut clients = Clients::new();
    register_client("one".to_string(), 1, &mut clients);
    client_connection("one".to_string(), Client { user_id: 1, connected: false }, &mut clients);
    register_client("one".to_string(), 9, &mut clients);
    assert_eq!(ws_handler("one", &clients), Some(Client { user_id: 9, connected: false }));
    assert_eq!(clients.len(), 1);
}

#[test]
fn only_the_keep_alive_is_a_ping() {
    assert!(is_ping("ping"));
    assert!(is_ping("ping\n"));
    assert!(!is_ping("ping "));
    assert!(!is_ping("Ping"));
    assert!(!is_ping(""));
    assert!(!is_ping("ping\n\n"));
    assert!(!is_ping("{\"CreateUnit\":{\"position\":[10.0,15.0]}}"));
}

#[test]
fn a_request_for_a_unit_creates_it_and_answers_with_it() {
    let request = RequestType::CreateUnit(CreateUnitRequest { position: (10_000, 15_000) });
    let handled = handle_request(request, "fresh".to_string());
    match handled.command {
        Some(GameCommand::CreateUnitCommand { unit }) => {
            assert_eq!(unit.position, (10_000, 15_000));
            assert_eq!(unit.destination, (10_000, 15_000));
            assert_eq!(unit.unit_type, UnitType::Normal);
            assert_eq!(unit.id, "fresh");
        }
        other => panic!("unexpected command {:?}", other),
    }
    match handled.response {
        Some(ResponseType::CreateUnit(unit)) => {
            assert_eq!(unit.position, (10_000, 15_000));
            assert_eq!(unit.destination, (10_000, 15_000));
            assert_eq!(unit.id, "fresh");
        }
        other => panic!("unexpected response {:?}", other),
    }
}

#[test]
fn a_request_for_a_destination_becomes_a_command_without_answer() {
    let request = RequestType::SetUnitDestination(SetUnitDestinationRequest {
        destination: (-1, 2),
        id: "u1".to_string(),
    });
    let handled = handle_request(request, "unused".to_string());
    match handled.command {
        Some(GameCommand::SetUnitDestinationCommand { position, uuid }) => {
            assert_eq!(position, (-1, 2));
            assert_eq!(uuid, "u1");
        }
        other => panic!("unexpected command {:?}", other),
    }
    assert!(handled.response.is_none());
}

#[test]
fn a_request_for_a_position_is_refused() {
    let request = RequestType::SetUnitPosition(SetUnitPositionRequest {
        position: (5, 5),
        id: "u1".to_string(),
    });
    let handled = handle_request(request, "unused".to_string());
    assert!(handled.command.is_none());
    match handled.response {
        Some(ResponseType::ErrorResponse(error)) => {
            assert_eq!(error.message, "a unit moves only by being sent to a destination");
        }
        other => panic!("unexpected response {:?}", other),
    }
}
