//! Who is connected: clients register, get the address of their socket, and
//! are looked up when they open it.
use vstd::prelude::*;
use crate::string_map::StringMap;

verus! {

/// What a client is told when it has registered.
#[derive(Debug)]
pub struct RegisterResponse {
    /// The address at which the client opens its socket.
    pub url: String,
}

/// What a client sends to register.
#[derive(Clone, Copy, Debug)]
pub struct RegisterRequest {
    pub user_id: usize,
}

/// A registered client.
#[derive(Clone, Copy, Debug, PartialEq, Eq, Structural)]
pub struct Client {
    pub user_id: usize,
    /// Whether the client has opened its socket.
    pub connected: bool,
}

/// The registered clients, each under the name of its connection.
pub type Clients = StringMap<Client>;

/// The address of the socket of the connection named `id`.
pub open spec fn socket_url(id: Seq<char>) -> Seq<char> {
    "ws://127.0.0.1:8000/ws/"@ + id
}

/// Puts a client that has not opened its socket yet under `id`, in place of
/// the client that was there, if any.
pub fn register_client(id: String, user_id: usize, clients: &mut Clients)
    requires
        old(clients).wf(),
    ensures
        final(clients).wf(),
        final(clients)@ == old(clients)@.insert(id@, (Client { user_id, connected: false })),
{
    clients.insert(id, Client { user_id, connected: false });
}

/// Registers the client that sent `body` under the connection name `id` and
/// answers with the address of its socket.
pub fn register_handler(
    body: &RegisterRequest,
    id: String,
    clients: &mut Clients,
) -> (response: RegisterResponse)
    requires
        old(clients).wf(),
    ensures
        final(clients).wf(),
        final(clients)@ == old(clients)@.insert(
            id@,
            (Client { user_id: body.user_id, connected: false }),
        ),
        response.url@ == socket_url(id@),
{
    let url = "ws://127.0.0.1:8000/ws/".to_owned().concat(id.as_str());
    register_client(id, body.user_id, clients);
    RegisterResponse { url }
}

/// Forgets the client under `id`. Where there is none, nothing changes.
pub fn unregister_handler(id: &str, clients: &mut Clients)
    requires
        old(clients).wf(),
    ensures
        final(clients).wf(),
        final(clients)@ == old(clients)@.remove(id@),
{
    clients.remove(id);
}

/// The client that may open the socket of the connection named `id`: the one
/// registered under that name, or none, and then the socket is refused.
pub fn ws_handler(id: &str, clients: &Clients) -> (client: Option<Client>)
    requires
        clients.wf(),
    ensures
        client == (if clients@.contains_key(id@) {
            Some(clients@[id@])
        } else {
            None
        }),
{
    match clients.get(id) {
        Some(client) => Some(*client),
        None => None,
    }
}

} // verus!
