//! What clients send over their socket, and what the simulation makes of it.
use vstd::prelude::*;
use crate::commands::GameCommand;
use crate::game_state::{Unit, UnitType};
use crate::handler::{Client, Clients};

verus! {

/// A request for a new unit at `position`.
#[derive(Clone, Copy, Debug)]
pub struct CreateUnitRequest {
    pub position: (i32, i32),
}

/// The answer to a request that could not be served.
#[derive(Debug)]
pub struct ErrorResponse {
    pub message: String,
}

/// A request to put the unit named `id` at `position` at once.
#[derive(Debug)]
pub struct SetUnitPositionRequest {
    pub position: (i32, i32),
    pub id: String,
}

/// A request to send the unit named `id` to `destination`.
#[derive(Debug)]
pub struct SetUnitDestinationRequest {
    pub destination: (i32, i32),
    pub id: String,
}

/// What a client can ask for.
#[derive(Debug)]
pub enum RequestType {
    CreateUnit(CreateUnitRequest),
    SetUnitPosition(SetUnitPositionRequest),
    SetUnitDestination(SetUnitDestinationRequest),
}

/// What a client is answered.
#[derive(Debug)]
pub enum ResponseType {
    CreateUnit(Unit),
    ErrorResponse(ErrorResponse),
}

/// What comes of a request: the command to hand to the simulation, if any, and
/// the answer to send to the clients, if any. Without an answer the clients
/// are sent the request itself.
#[derive(Debug)]
pub struct Handled {
    pub command: Option<GameCommand>,
    pub response: Option<ResponseType>,
}

/// Why a unit's position cannot be set.
pub open spec fn position_refusal() -> Seq<char> {
    "a unit moves only by being sent to a destination"@
}

/// The unit that a request for a unit at `position` creates, under the name
/// `uuid`: it stands at `position` and heads nowhere else.
pub open spec fn requested_unit(position: (i32, i32), uuid: String) -> Unit {
    Unit { position, destination: position, unit_type: UnitType::Normal, id: uuid }
}

/// Whether `message` is the keep-alive that clients send, which is no request.
pub fn is_ping(message: &str) -> (ping: bool)
    ensures
        ping == (message@ == "ping"@ || message@ == "ping\n"@),
{
    let text = message.to_owned();
    text == "ping".to_owned() || text == "ping\n".to_owned()
}

/// Turns a request into a command. `uuid` is the name that a new unit gets.
/// A request for a unit creates it under that name and answers with the unit.
/// A request for a destination sends the unit there and has no answer. A
/// request for a position is refused: the simulation moves units only toward
/// destinations.
pub fn handle_request(request: RequestType, uuid: String) -> (handled: Handled)
    ensures
        match request {
            RequestType::CreateUnit(create) => {
                &&& handled.command == Some(
                    GameCommand::CreateUnitCommand { unit: requested_unit(create.position, uuid) },
                )
                &&& handled.response == Some(
                    ResponseType::CreateUnit(requested_unit(create.position, uuid)),
                )
            },
            RequestType::SetUnitDestination(set) => {
                &&& handled.command == Some(
                    GameCommand::SetUnitDestinationCommand {
                        position: set.destination,
                        uuid: set.id,
                    },
                )
                &&& handled.response is None
            },
            RequestType::SetUnitPosition(set) => {
                &&& handled.command is None
                &&& handled.response matches Some(ResponseType::ErrorResponse(error))
                &&& error.message@ == position_refusal()
            },
        },
{
    match request {
        RequestType::CreateUnit(create) => {
            let unit = Unit {
                position: create.position,
                destination: create.position,
                unit_type: UnitType::Normal,
                id: uuid,
            };
            Handled {
                command: Some(GameCommand::CreateUnitCommand { unit: unit.clone() }),
                response: Some(ResponseType::CreateUnit(unit)),
            }
        },
        RequestType::SetUnitDestination(set) => Handled {
            command: Some(
                GameCommand::SetUnitDestinationCommand { position: set.destination, uuid: set.id },
            ),
            response: None,
        },
        RequestType::SetUnitPosition(_) => Handled {
            command: None,
            response: Some(
                ResponseType::ErrorResponse(
                    ErrorResponse {
                        message: "a unit moves only by being sent to a destination".to_owned(),
                    },
                ),
            ),
        },
    }
}

/// Marks the client under `id` as connected, when its socket has opened.
pub fn client_connection(id: String, client: Client, clients: &mut Clients)
    requires
        old(clients).wf(),
    ensures
        final(clients).wf(),
        final(clients)@ == old(clients)@.insert(
            id@,
            (Client { user_id: client.user_id, connected: true }),
        ),
{
    clients.insert(id, Client { user_id: client.user_id, connected: true });
}

} // verus!
