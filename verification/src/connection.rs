//! The life of one connection: the registration handshake, the relaying of
//! frames, and the teardown.
//!
//! The caller reads the connection and hands in what it read, one message
//! at a time. What is sent without waiting is sent here; what takes waiting
//! is handed back.

use crate::channel::Tx;
use crate::codec::{
    build_relay_msg, decimal_text, format_uuid, notice_of, push_decimal, read_identity, same_bytes,
    uuid_text,
};
use crate::listener::ServerManager;
use crate::relay::{
    client_frame, notify, relay_client_message, relay_server_message, server_frame_settled,
    ClientFrame, ClientRelay, Delivery, Notice, ServerRelay, MAX_PAYLOAD_LEN,
};
use crate::session::{IdPool, Role, Session, SessionAllocator};
use crate::states::{Registry, RelayState};
use std::sync::Arc;
use vstd::prelude::*;
use vstd::slice::slice_subrange;
use vstd::string::StringExecFns;

verus! {

/// The frames that may wait in a session's outbound channel.
pub const CHANNEL_CAPACITY: usize = 512;

/// How long a peer has to send its first message, in seconds.
pub const HANDSHAKE_TIMEOUT_SECS: u64 = 5;

/// How long a notice of registration may wait for room in a channel, in
/// seconds.
pub const NOTICE_TIMEOUT_SECS: u64 = 2;

/// A peer's request to register as the server.
pub const OP_REGISTER_SERVER: u8 = 0x01;

/// A peer's request to register as a client.
pub const OP_REGISTER_CLIENT: u8 = 0x02;

/// What came in on a connection.
pub enum Inbound {
    /// A binary message.
    Binary(Vec<u8>),
    /// The peer closed the connection.
    Close,
    /// A message of another kind.
    Other,
    /// The connection failed or ended.
    Failed,
    /// Nothing came in time.
    TimedOut,
}

/// Why a handshake failed.
#[derive(Debug, Clone, Copy, PartialEq, Eq, Structural)]
pub enum HandshakeError {
    Timeout,
    ChannelClosed,
    InvalidPacket,
    EmptyPacket,
    InvalidServerPacket,
    ServerExists,
    NoServerHandle,
    SecretMismatch,
    NoSessionId,
    InvalidClientPacket,
    DuplicateClient,
    NotRegisterPacket,
}

impl HandshakeError {
    /// The text of the error.
    pub open spec fn text(self) -> Seq<char> {
        match self {
            HandshakeError::Timeout => "Registry Timeout"@,
            HandshakeError::ChannelClosed => "Channel closed"@,
            HandshakeError::InvalidPacket => "Invalid register packet"@,
            HandshakeError::EmptyPacket => "Empty register packet"@,
            HandshakeError::InvalidServerPacket => "Invalid server register packet"@,
            HandshakeError::ServerExists => "Server already exists"@,
            HandshakeError::NoServerHandle => "No server handle"@,
            HandshakeError::SecretMismatch => "Server secret mismatch"@,
            HandshakeError::NoSessionId => "No session id allocated"@,
            HandshakeError::InvalidClientPacket => "Invalid client register packet"@,
            HandshakeError::DuplicateClient => "Duplicate client UUID"@,
            HandshakeError::NotRegisterPacket => "Not a register packet"@,
        }
    }

    /// The error as the log reports it.
    pub fn message(&self) -> (text: String)
        ensures
            text@ == self.text(),
    {
        match self {
            HandshakeError::Timeout => String::from_str("Registry Timeout"),
            HandshakeError::ChannelClosed => String::from_str("Channel closed"),
            HandshakeError::InvalidPacket => String::from_str("Invalid register packet"),
            HandshakeError::EmptyPacket => String::from_str("Empty register packet"),
            HandshakeError::InvalidServerPacket => String::from_str(
                "Invalid server register packet",
            ),
            HandshakeError::ServerExists => String::from_str("Server already exists"),
            HandshakeError::NoServerHandle => String::from_str("No server handle"),
            HandshakeError::SecretMismatch => String::from_str("Server secret mismatch"),
            HandshakeError::NoSessionId => String::from_str("No session id allocated"),
            HandshakeError::InvalidClientPacket => String::from_str(
                "Invalid client register packet",
            ),
            HandshakeError::DuplicateClient => String::from_str("Duplicate client UUID"),
            HandshakeError::NotRegisterPacket => String::from_str("Not a register packet"),
        }
    }

    /// The text that the refused peer is offered, for the errors that it is
    /// told of.
    pub open spec fn notice_text(self) -> Option<Seq<char>> {
        match self {
            HandshakeError::ServerExists => Some("ERR:Server already registered"@),
            HandshakeError::SecretMismatch => Some("ERR:Invalid secret"@),
            HandshakeError::InvalidClientPacket => Some("ERR:Invalid register packet"@),
            HandshakeError::DuplicateClient => Some("ERR:Duplicate Player"@),
            _ => None,
        }
    }

    /// The notice that the refused peer is offered, if it is told.
    pub fn notice(&self) -> (frame: Option<Vec<u8>>)
        ensures
            match (frame, self.notice_text()) {
                (Some(frame), Some(text)) => frame@ == notice_of(text),
                (None, None) => true,
                _ => false,
            },
    {
        match self {
            HandshakeError::ServerExists => Some(build_relay_msg("ERR:Server already registered")),
            HandshakeError::SecretMismatch => Some(build_relay_msg("ERR:Invalid secret")),
            HandshakeError::InvalidClientPacket => Some(
                build_relay_msg("ERR:Invalid register packet"),
            ),
            HandshakeError::DuplicateClient => Some(build_relay_msg("ERR:Duplicate Player")),
            _ => None,
        }
    }
}

/// The text that tells a peer that it is registered under transient
/// identifier `id`.
pub open spec fn greeting_text(id: u8) -> Seq<char> {
    "REGISTERED:"@ + decimal_text(id as nat)
}

/// The text that tells the server that the client with identity `uuid`
/// registered under transient identifier `id`.
pub open spec fn announcement_text(id: u8, uuid: Seq<u8>) -> Seq<char> {
    "INFO:CLIENT_REGISTERED:"@ + decimal_text(id as nat) + ":"@ + uuid_text(uuid)
}

/// The notice that tells a peer that it is registered.
pub fn greeting(id: u8) -> (frame: Vec<u8>)
    ensures
        frame@ == notice_of(greeting_text(id)),
{
    let mut text = String::from_str("REGISTERED:");
    push_decimal(&mut text, id as u64);
    build_relay_msg(text.as_str())
}

/// The notice that tells the server of a new client.
pub fn announcement(id: u8, uuid: &[u8; 16]) -> (frame: Vec<u8>)
    ensures
        frame@ == notice_of(announcement_text(id, uuid@)),
{
    let mut text = String::from_str("INFO:CLIENT_REGISTERED:");
    push_decimal(&mut text, id as u64);
    text.append(":");
    let uuid_text = format_uuid(uuid);
    text.append(uuid_text.as_str());
    build_relay_msg(text.as_str())
}

/// The secret of the active listener.
pub open spec fn listener_secret(manager: ServerManager) -> Option<Seq<u8>> {
    match manager.handle {
        Some(handle) => Some(handle.secret@),
        None => None,
    }
}

/// What a first message asks for, as far as it can be told before a
/// transient identifier is taken: the role that the peer may register in,
/// or why it may not.
///
/// A server presents the listener's secret, 32 bytes after the opcode, and
/// is admitted while no server is registered. A client presents its
/// identity, 16 bytes after the opcode, and is admitted while no other
/// client holds that identity.
pub open spec fn admission(registry: Registry, secret: Option<Seq<u8>>, first: Inbound) -> Result<
    Role,
    HandshakeError,
> {
    match first {
        Inbound::TimedOut => Err(HandshakeError::Timeout),
        Inbound::Close => Err(HandshakeError::ChannelClosed),
        Inbound::Other => Err(HandshakeError::InvalidPacket),
        Inbound::Failed => Err(HandshakeError::InvalidPacket),
        Inbound::Binary(payload) => if payload@.len() == 0 {
            Err(HandshakeError::EmptyPacket)
        } else if payload@[0] == OP_REGISTER_SERVER {
            if payload@.len() < 33 {
                Err(HandshakeError::InvalidServerPacket)
            } else if registry.server is Some {
                Err(HandshakeError::ServerExists)
            } else if secret is None {
                Err(HandshakeError::NoServerHandle)
            } else if payload@.subrange(1, 33) != secret.unwrap() {
                Err(HandshakeError::SecretMismatch)
            } else {
                Ok(Role::Server)
            }
        } else if payload@[0] == OP_REGISTER_CLIENT {
            if payload@.len() < 17 {
                Err(HandshakeError::InvalidClientPacket)
            } else if registry.by_identity.contains_key(payload@.subrange(1, 17)) {
                Err(HandshakeError::DuplicateClient)
            } else {
                Ok(Role::Client)
            }
        } else {
            Err(HandshakeError::NotRegisterPacket)
        },
    }
}

/// The outcome of a handshake: the role that the peer registers in, or why
/// it does not. An admitted peer still fails when no transient identifier
/// is left for it, or when the one it gets is in the registry already.
pub open spec fn handshake(
    registry: Registry,
    pool: IdPool,
    secret: Option<Seq<u8>>,
    first: Inbound,
) -> Result<Role, HandshakeError> {
    match admission(registry, secret, first) {
        Err(e) => Err(e),
        Ok(role) => match pool.allocate().1 {
            None => Err(HandshakeError::NoSessionId),
            Some(id) => if role == Role::Client && registry.by_transient_id.contains_key(id) {
                Err(HandshakeError::NoSessionId)
            } else {
                Ok(role)
            },
        },
    }
}

/// The pool of identifiers after a handshake: an admitted peer takes one,
/// whether or not it registers in the end.
pub open spec fn pool_after_handshake(
    registry: Registry,
    pool: IdPool,
    secret: Option<Seq<u8>>,
    first: Inbound,
) -> IdPool {
    if admission(registry, secret, first) is Ok {
        pool.allocate().0
    } else {
        pool
    }
}

/// While a server is registered, a request to register as the server is
/// refused, whatever secret it presents.
pub proof fn lemma_server_slot_taken(
    registry: Registry,
    pool: IdPool,
    secret: Option<Seq<u8>>,
    payload: Vec<u8>,
)
    requires
        registry.server is Some,
        payload@.len() >= 33,
        payload@[0] == OP_REGISTER_SERVER,
    ensures
        handshake(registry, pool, secret, Inbound::Binary(payload)) == Err::<Role, HandshakeError>(
            HandshakeError::ServerExists,
        ),
        pool_after_handshake(registry, pool, secret, Inbound::Binary(payload)) == pool,
{
}

/// A peer that was refused, and the notice that it was offered where the
/// refusal has one.
#[derive(Debug)]
pub struct Refused {
    pub error: HandshakeError,
    pub notice: Option<Notice>,
}

/// A peer that has registered, and what it and the server are to be told.
/// The caller pushes both notices with waiting, within a time limit.
#[derive(Debug)]
pub struct Registered {
    pub session: Arc<Session>,
    /// The notice for the new session.
    pub greeting: Vec<u8>,
    /// The notice for the server, where a client registered while a server
    /// was there.
    pub announcement: Option<Delivery>,
}

/// Checks a first message; returns the role that the peer may register in
/// and, for a client, its identity.
pub fn check_admission(state: &RelayState, manager: &ServerManager, first: &Inbound) -> (r: Result<
    (Role, Option<[u8; 16]>),
    HandshakeError,
>)
    ensures
        match r {
            Ok((role, uuid)) => {
                &&& admission(state@, listener_secret(*manager), *first) == Ok::<
                    Role,
                    HandshakeError,
                >(role)
                &&& match uuid {
                    Some(uuid) => {
                        &&& role == Role::Client
                        &&& first matches Inbound::Binary(payload)
                        &&& payload@.len() >= 17
                        &&& uuid@ == payload@.subrange(1, 17)
                    },
                    None => role == Role::Server,
                }
            },
            Err(e) => admission(state@, listener_secret(*manager), *first) == Err::<
                Role,
                HandshakeError,
            >(e),
        },
{
    let payload = match first {
        Inbound::Binary(payload) => payload,
        Inbound::Close => { return Err(HandshakeError::ChannelClosed); },
        Inbound::TimedOut => { return Err(HandshakeError::Timeout); },
        _ => { return Err(HandshakeError::InvalidPacket); },
    };
    if payload.len() == 0 {
        return Err(HandshakeError::EmptyPacket);
    }
    if payload[0] == OP_REGISTER_SERVER {
        if payload.len() < 33 {
            return Err(HandshakeError::InvalidServerPacket);
        }
        if state.get_server().is_some() {
            return Err(HandshakeError::ServerExists);
        }
        let provided = slice_subrange(payload.as_slice(), 1, 33);
        match &manager.handle {
            None => Err(HandshakeError::NoServerHandle),
            Some(handle) => if same_bytes(provided, handle.secret.as_slice()) {
                Ok((Role::Server, None))
            } else {
                Err(HandshakeError::SecretMismatch)
            },
        }
    } else if payload[0] == OP_REGISTER_CLIENT {
        if payload.len() < 17 {
            return Err(HandshakeError::InvalidClientPacket);
        }
        let uuid = read_identity(payload.as_slice(), 1);
        if state.client_by_uuid(&uuid).is_some() {
            return Err(HandshakeError::DuplicateClient);
        }
        Ok((Role::Client, Some(uuid)))
    } else {
        Err(HandshakeError::NotRegisterPacket)
    }
}

/// What a handshake leaves behind, given the registry and the pool before
/// it and its result.
pub open spec fn handshake_settled(
    before: Registry,
    pool: IdPool,
    after: Registry,
    tx: Tx,
    first: Inbound,
    registered: Registered,
) -> bool {
    let session = *registered.session;
    &&& session.tx == tx
    &&& pool.allocate().1 == Some(session.session_id)
    &&& registered.greeting@ == notice_of(greeting_text(session.session_id))
    &&& match session.role {
        Role::Server => {
            &&& session.client_id is None
            &&& after == before.with_server(Some(session))
            &&& registered.announcement is None
        },
        Role::Client => {
            &&& first matches Inbound::Binary(payload)
            &&& session.client_id matches Some(uuid)
            &&& payload@.len() >= 17
            &&& uuid@ == payload@.subrange(1, 17)
            &&& before.register_client(session) == (after, Ok::<(), crate::states::RegistryError>(()))
            &&& match (before.server, registered.announcement) {
                (Some(server), Some(told)) => *told.to == server && told.frame@ == notice_of(
                    announcement_text(session.session_id, uuid@),
                ),
                (None, None) => true,
                _ => false,
            }
        },
    }
}

/// Carries out the registration handshake on the first message of a
/// connection.
///
/// A peer that is refused leaves the registry as it was, and is offered a
/// notice where the refusal has one. A peer that registers gets a transient
/// identifier and a session, which is entered in the registry.
pub fn register_session(
    state: &mut RelayState,
    allocator: &mut SessionAllocator,
    manager: &ServerManager,
    tx: Tx,
    first: &Inbound,
) -> (r: Result<Registered, Refused>)
    requires
        old(state).wf(),
        old(allocator).wf(),
    ensures
        final(state).wf(),
        final(allocator).wf(),
        final(allocator)@ == pool_after_handshake(
            old(state)@,
            old(allocator)@,
            listener_secret(*manager),
            *first,
        ),
        match r {
            Ok(registered) => {
                &&& handshake(old(state)@, old(allocator)@, listener_secret(*manager), *first)
                    == Ok::<Role, HandshakeError>(registered.session.role)
                &&& handshake_settled(
                    old(state)@,
                    old(allocator)@,
                    final(state)@,
                    tx,
                    *first,
                    registered,
                )
            },
            Err(refused) => {
                &&& handshake(old(state)@, old(allocator)@, listener_secret(*manager), *first)
                    == Err::<Role, HandshakeError>(refused.error)
                &&& final(state)@ == old(state)@
                &&& match (refused.notice, refused.error.notice_text()) {
                    (Some(notice), Some(text)) => notice.frame@ == notice_of(text),
                    (None, None) => true,
                    _ => false,
                }
            },
        },
{
    let (role, uuid) = match check_admission(state, manager, first) {
        Ok(admitted) => admitted,
        Err(error) => {
            let notice = match error.notice() {
                Some(frame) => Some(notify(&tx, frame)),
                None => None,
            };
            return Err(Refused { error, notice });
        },
    };
    let session_id = match allocator.allocate() {
        Some(id) => id,
        None => { return Err(Refused { error: HandshakeError::NoSessionId, notice: None }); },
    };
    match uuid {
        None => {
            let session = Session::new(tx, Role::Server, None, session_id);
            let server = crate::session::share(&session);
            match state.register_server(server) {
                Ok(()) => Ok(
                    Registered { session, greeting: greeting(session_id), announcement: None },
                ),
                Err(_) => Err(Refused { error: HandshakeError::ServerExists, notice: None }),
            }
        },
        Some(uuid) => {
            let session = Session::new(tx, Role::Client, Some(uuid), session_id);
            let client = crate::session::share(&session);
            let server = state.get_server();
            match state.register_client(client) {
                Ok(()) => {
                    let announcement = match server {
                        Some(server) => Some(
                            Delivery { to: server, frame: announcement(session_id, &uuid) },
                        ),
                        None => None,
                    };
                    Ok(Registered { session, greeting: greeting(session_id), announcement })
                },
                Err(_) => Err(Refused { error: HandshakeError::NoSessionId, notice: None }),
            }
        },
    }
}

/// Whether the caller goes on reading the connection.
#[derive(Debug, Clone, Copy, PartialEq, Eq, Structural)]
pub enum Flow {
    Continue,
    Stop,
}

/// The notice that tells a peer that its payload is too large.
pub fn too_large_notice() -> (frame: Vec<u8>)
    ensures
        frame@ == notice_of("ERR:Payload too large"@),
{
    build_relay_msg("ERR:Payload too large")
}

/// Whether the relaying of a registered peer goes on after `msg`, for a
/// frame that is not taken for spoofed.
///
/// It ends once shutdown is scheduled, on a payload that is too large, when
/// the peer closes, and when the connection fails.
pub open spec fn flow_after(shutdown: bool, msg: Inbound) -> Flow {
    if shutdown {
        Flow::Stop
    } else {
        match msg {
            Inbound::Binary(payload) => if payload@.len() > MAX_PAYLOAD_LEN {
                Flow::Stop
            } else {
                Flow::Continue
            },
            Inbound::Close => Flow::Stop,
            Inbound::Failed => Flow::Stop,
            Inbound::Other => Flow::Continue,
            Inbound::TimedOut => Flow::Continue,
        }
    }
}

/// Whether `msg` holds a frame that is relayed.
pub open spec fn is_relayed(shutdown: bool, msg: Inbound) -> bool {
    &&& !shutdown
    &&& msg matches Inbound::Binary(payload)
    &&& payload@.len() <= MAX_PAYLOAD_LEN
}

/// Whether `msg` holds a payload that is too large to be relayed, which
/// its sender is told.
pub open spec fn is_too_large(shutdown: bool, msg: Inbound) -> bool {
    &&& !shutdown
    &&& msg matches Inbound::Binary(payload)
    &&& payload@.len() > MAX_PAYLOAD_LEN
}

/// Whether `notice` is what a peer is offered on `msg`: the notice of a
/// payload that is too large where the payload is, else none.
pub open spec fn oversize_answer(shutdown: bool, msg: Inbound, notice: Option<Notice>) -> bool {
    match notice {
        Some(notice) => is_too_large(shutdown, msg) && notice.frame@ == notice_of(
            "ERR:Payload too large"@,
        ),
        None => !is_too_large(shutdown, msg),
    }
}

/// What one message of a registered client came to.
#[derive(Debug)]
pub struct ClientStep {
    pub flow: Flow,
    /// What became of the frame, where one was relayed.
    pub relayed: Option<ClientRelay>,
    /// The notice that the client was offered.
    pub notice: Option<Notice>,
}

/// What one message of the registered server came to.
#[derive(Debug)]
pub struct ServerStep {
    pub flow: Flow,
    /// What became of the frame, where one was relayed.
    pub relayed: Option<ServerRelay>,
    /// The notice that the server was offered for the size of its payload.
    pub notice: Option<Notice>,
}

/// Takes in one message of a registered client.
///
/// A frame is relayed unless shutdown is scheduled or the payload is too
/// large; the latter is answered with a notice. Besides the ends that every
/// peer's relaying has, a client's ends on a frame that names another
/// session as its sender.
pub fn client_relay(state: &RelayState, session: &Session, msg: &Inbound) -> (step: ClientStep)
    ensures
        oversize_answer(state@.shutdown, *msg, step.notice),
        match step.relayed {
            Some(relayed) => {
                &&& is_relayed(state@.shutdown, *msg)
                &&& relayed.verdict == client_frame(state@, session.session_id, msg->Binary_0@)
                &&& relayed.accepted ==> relayed.verdict == ClientFrame::Forward
                &&& step.flow == if relayed.verdict == ClientFrame::Spoofed {
                    Flow::Stop
                } else {
                    Flow::Continue
                }
            },
            None => {
                &&& !is_relayed(state@.shutdown, *msg)
                &&& step.flow == flow_after(state@.shutdown, *msg)
            },
        },
{
    if state.is_shutdown() {
        return ClientStep { flow: Flow::Stop, relayed: None, notice: None };
    }
    match msg {
        Inbound::Binary(payload) => {
            if payload.len() > MAX_PAYLOAD_LEN {
                let notice = notify(&session.tx, too_large_notice());
                return ClientStep { flow: Flow::Stop, relayed: None, notice: Some(notice) };
            }
            let relayed = relay_client_message(state, session, payload.as_slice());
            let flow = match relayed.verdict {
                ClientFrame::Spoofed => Flow::Stop,
                _ => Flow::Continue,
            };
            ClientStep { flow, relayed: Some(relayed), notice: None }
        },
        Inbound::Close => ClientStep { flow: Flow::Stop, relayed: None, notice: None },
        Inbound::Failed => ClientStep { flow: Flow::Stop, relayed: None, notice: None },
        _ => ClientStep { flow: Flow::Continue, relayed: None, notice: None },
    }
}

/// Takes in one message of the registered server.
///
/// A frame is relayed unless shutdown is scheduled or the payload is too
/// large; the latter is answered with a notice.
pub fn server_relay(state: &mut RelayState, session: &Session, msg: &Inbound) -> (step: ServerStep)
    requires
        old(state).wf(),
    ensures
        final(state).wf(),
        step.flow == flow_after(old(state)@.shutdown, *msg),
        oversize_answer(old(state)@.shutdown, *msg, step.notice),
        match step.relayed {
            Some(relayed) => {
                &&& is_relayed(old(state)@.shutdown, *msg)
                &&& server_frame_settled(
                    old(state)@,
                    final(state)@,
                    session.session_id,
                    msg->Binary_0@,
                    relayed,
                )
            },
            None => !is_relayed(old(state)@.shutdown, *msg) && final(state)@ == old(state)@,
        },
{
    if state.is_shutdown() {
        return ServerStep { flow: Flow::Stop, relayed: None, notice: None };
    }
    match msg {
        Inbound::Binary(payload) => {
            if payload.len() > MAX_PAYLOAD_LEN {
                let notice = notify(&session.tx, too_large_notice());
                return ServerStep { flow: Flow::Stop, relayed: None, notice: Some(notice) };
            }
            let relayed = relay_server_message(state, session, payload.as_slice());
            ServerStep { flow: Flow::Continue, relayed: Some(relayed), notice: None }
        },
        Inbound::Close => ServerStep { flow: Flow::Stop, relayed: None, notice: None },
        Inbound::Failed => ServerStep { flow: Flow::Stop, relayed: None, notice: None },
        _ => ServerStep { flow: Flow::Continue, relayed: None, notice: None },
    }
}

/// Whether the end of a delivery to `target` alone evicts it: its channel
/// was closed, and it is still the client registered under its transient
/// identifier.
pub open spec fn unicast_evicts(registry: Registry, target: Session, delivered: bool) -> bool {
    &&& !delivered
    &&& registry.by_transient_id.contains_key(target.session_id)
    &&& match (registry.by_transient_id[target.session_id].client_id, target.client_id) {
        (Some(held), Some(wanted)) => held@ == wanted@,
        (None, None) => true,
        _ => false,
    }
}

/// Takes in how the delivery of a frame to `target` alone ended; returns
/// the identity of the client that left the registry.
pub fn settle_unicast(state: &mut RelayState, target: &Session, delivered: bool) -> (freed: Option<
    [u8; 16],
>)
    requires
        old(state).wf(),
    ensures
        final(state).wf(),
        final(state)@ == if unicast_evicts(old(state)@, *target, delivered) {
            old(state)@.without_client(target.session_id)
        } else {
            old(state)@
        },
        freed == if unicast_evicts(old(state)@, *target, delivered) {
            old(state)@.identity_of(target.session_id)
        } else {
            None
        },
{
    if delivered {
        return None;
    }
    let same = match state.client_by_id(target.session_id) {
        Some(session) => match (session.client_id, target.client_id) {
            (Some(held), Some(wanted)) => same_bytes(held.as_slice(), wanted.as_slice()),
            (None, None) => true,
            _ => false,
        },
        None => false,
    };
    if same {
        state.remove_by_id(target.session_id)
    } else {
        None
    }
}

/// The registry after the connection of `session` has ended: a client
/// leaves both indices; the server leaves its slot if it is still the one
/// in it.
pub open spec fn registry_after_close(registry: Registry, session: Session) -> Registry {
    match session.role {
        Role::Client => registry.without_client(session.session_id),
        Role::Server => match registry.server {
            Some(server) => if server.session_id == session.session_id {
                registry.with_server(None)
            } else {
                registry
            },
            None => registry,
        },
    }
}

/// Tears down the session of a connection that has ended: takes it out of
/// the registry and hands its transient identifier back. Returns the
/// identity of the client that left the registry.
pub fn close_session(state: &mut RelayState, allocator: &mut SessionAllocator, session: &Session) -> (freed:
    Option<[u8; 16]>)
    requires
        old(state).wf(),
        old(allocator).wf(),
    ensures
        final(state).wf(),
        final(allocator).wf(),
        final(state)@ == registry_after_close(old(state)@, *session),
        final(allocator)@ == old(allocator)@.deallocate(session.session_id),
        freed == match session.role {
            Role::Client => old(state)@.identity_of(session.session_id),
            Role::Server => None,
        },
{
    let freed = match session.role {
        Role::Client => state.remove_by_id(session.session_id),
        Role::Server => {
            let still_there = match state.get_server() {
                Some(server) => server.session_id == session.session_id,
                None => false,
            };
            if still_there {
                state.clear_server();
            }
            None
        },
    };
    allocator.deallocate(session.session_id);
    freed
}

} // verus!
