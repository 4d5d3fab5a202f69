//! The registry of live sessions: at most one server, and the clients under
//! their durable identity and under their transient identifier.

use crate::index::{
    id_index, id_index_clear, id_index_get, id_index_insert, id_index_keys, id_index_new,
    id_index_remove, uuid_index, uuid_index_clear, uuid_index_get, uuid_index_insert,
    uuid_index_new, uuid_index_remove, IdIndex, UuidIndex,
};
use crate::session::{held, share, Role, Session};
use std::sync::Arc;
use vstd::prelude::*;

verus! {

/// Why a session was not registered.
#[derive(Debug, Clone, Copy, PartialEq, Eq, Structural)]
pub enum RegistryError {
    /// A server is registered already.
    ServerExists,
    /// Another client holds the identity.
    DuplicateClient,
    /// Another client holds the transient identifier.
    SessionIdTaken,
    /// The session is not of the role that it was to register in, or it is
    /// to register as a client and has no identity.
    WrongRole,
}

/// What a [`RelayState`] holds.
#[verifier::ext_equal]
pub struct Registry {
    /// The server, if one is registered.
    pub server: Option<Session>,
    /// The clients by the bytes of their durable identity.
    pub by_identity: Map<Seq<u8>, Session>,
    /// The clients by their transient identifier.
    pub by_transient_id: Map<u8, Session>,
    /// Whether the listener is shutting down. Once set it stays set.
    pub shutdown: bool,
}

impl Registry {
    /// A registry without sessions that is not shutting down.
    pub open spec fn empty() -> Registry {
        Registry {
            server: None,
            by_identity: Map::empty(),
            by_transient_id: Map::empty(),
            shutdown: false,
        }
    }

    /// The server slot holds a server, the indices hold clients, and the
    /// two indices hold the same sessions: every client found under its
    /// transient identifier is found under its identity, and the other way
    /// round.
    pub open spec fn wf(self) -> bool {
        &&& self.server matches Some(server) ==> server.role == Role::Server
        &&& forall|id: u8| #[trigger]
            self.by_transient_id.contains_key(id) ==> {
                let s = self.by_transient_id[id];
                &&& s.session_id == id
                &&& s.role == Role::Client
                &&& s.client_id is Some
                &&& self.by_identity.contains_key(s.client_id.unwrap()@)
                &&& self.by_identity[s.client_id.unwrap()@] == s
            }
        &&& forall|uuid: Seq<u8>| #[trigger]
            self.by_identity.contains_key(uuid) ==> {
                let s = self.by_identity[uuid];
                &&& s.role == Role::Client
                &&& s.client_id is Some
                &&& s.client_id.unwrap()@ == uuid
                &&& self.by_transient_id.contains_key(s.session_id)
                &&& self.by_transient_id[s.session_id] == s
            }
    }

    /// Whether `session` is in the server slot or in an index.
    pub open spec fn holds(self, session: Session) -> bool {
        ||| self.server == Some(session)
        ||| self.by_transient_id.contains_value(session)
        ||| self.by_identity.contains_value(session)
    }

    /// The registry with `server` in the server slot.
    pub open spec fn with_server(self, server: Option<Session>) -> Registry {
        Registry { server, ..self }
    }

    /// The outcome of registering `session` as the server: refused while
    /// the slot is taken, whatever the session, and refused to a session
    /// that is not in the role of the server.
    pub open spec fn register_server(self, session: Session) -> (Registry, Result<
        (),
        RegistryError,
    >) {
        if self.server is Some {
            (self, Err(RegistryError::ServerExists))
        } else if session.role != Role::Server {
            (self, Err(RegistryError::WrongRole))
        } else {
            (self.with_server(Some(session)), Ok(()))
        }
    }

    /// The outcome of registering `session` as a client: refused to a
    /// session that is not in the role of a client or has no identity, and
    /// while its identity or its transient identifier is taken; else
    /// entered in both indices at once.
    pub open spec fn register_client(self, session: Session) -> (Registry, Result<
        (),
        RegistryError,
    >) {
        let uuid = session.client_id.unwrap()@;
        if session.role != Role::Client || session.client_id is None {
            (self, Err(RegistryError::WrongRole))
        } else if self.by_identity.contains_key(uuid) {
            (self, Err(RegistryError::DuplicateClient))
        } else if self.by_transient_id.contains_key(session.session_id) {
            (self, Err(RegistryError::SessionIdTaken))
        } else {
            (
                Registry {
                    by_identity: self.by_identity.insert(uuid, session),
                    by_transient_id: self.by_transient_id.insert(session.session_id, session),
                    ..self
                },
                Ok(()),
            )
        }
    }

    /// The registry without the client that holds transient identifier
    /// `id`: it leaves both indices at once.
    pub open spec fn without_client(self, id: u8) -> Registry {
        if self.by_transient_id.contains_key(id) {
            match self.by_transient_id[id].client_id {
                Some(uuid) => Registry {
                    by_identity: self.by_identity.remove(uuid@),
                    by_transient_id: self.by_transient_id.remove(id),
                    ..self
                },
                None => Registry { by_transient_id: self.by_transient_id.remove(id), ..self },
            }
        } else {
            self
        }
    }

    /// The identity of the client that holds transient identifier `id`.
    pub open spec fn identity_of(self, id: u8) -> Option<[u8; 16]> {
        if self.by_transient_id.contains_key(id) {
            self.by_transient_id[id].client_id
        } else {
            None
        }
    }

    /// The registry without any client.
    pub open spec fn without_clients(self) -> Registry {
        Registry { by_identity: Map::empty(), by_transient_id: Map::empty(), ..self }
    }

    /// The registry once shutdown is scheduled.
    pub open spec fn shutting_down(self) -> Registry {
        Registry { shutdown: true, ..self }
    }
    /// The identities of the clients that leave the registry when those
    /// that hold the transient identifiers `ids` are evicted, in the order
    /// of `ids`.
    pub open spec fn evicted_identities(self, ids: Seq<u8>) -> Seq<[u8; 16]>
        decreases ids.len(),
    {
        if ids.len() == 0 {
            Seq::empty()
        } else {
            let before = self.evicted_identities(ids.drop_last());
            match self.evict(ids.drop_last()).identity_of(ids.last()) {
                Some(uuid) => before.push(uuid),
                None => before,
            }
        }
    }

    /// The registry without the clients that hold the transient identifiers
    /// `ids`.
    pub open spec fn evict(self, ids: Seq<u8>) -> Registry
        decreases ids.len(),
    {
        if ids.len() == 0 {
            self
        } else {
            self.evict(ids.drop_last()).without_client(ids.last())
        }
    }
}

/// Removing a client keeps the indices in step.
pub proof fn lemma_without_client_wf(registry: Registry, id: u8)
    requires
        registry.wf(),
    ensures
        registry.without_client(id).wf(),
{
    let after = registry.without_client(id);
    if registry.by_transient_id.contains_key(id) {
        let gone = registry.by_transient_id[id];
        let uuid = gone.client_id.unwrap()@;
        assert(registry.by_identity.contains_key(uuid));
        assert forall|other: u8| #[trigger] after.by_transient_id.contains_key(other) implies {
            let s = after.by_transient_id[other];
            &&& s.session_id == other
            &&& s.role == Role::Client
            &&& s.client_id is Some
            &&& after.by_identity.contains_key(s.client_id.unwrap()@)
            &&& after.by_identity[s.client_id.unwrap()@] == s
        } by {
            assert(registry.by_transient_id.contains_key(other));
        }
        assert forall|other: Seq<u8>| #[trigger] after.by_identity.contains_key(other) implies {
            let s = after.by_identity[other];
            &&& s.role == Role::Client
            &&& s.client_id is Some
            &&& s.client_id.unwrap()@ == other
            &&& after.by_transient_id.contains_key(s.session_id)
            &&& after.by_transient_id[s.session_id] == s
        } by {
            assert(registry.by_identity.contains_key(other));
        }
    }
}

/// Registering a client keeps the indices in step.
pub proof fn lemma_register_client_wf(registry: Registry, session: Session)
    requires
        registry.wf(),
    ensures
        registry.register_client(session).0.wf(),
{
    let after = registry.register_client(session).0;
    let uuid = session.client_id.unwrap()@;
    if registry.register_client(session).1 is Ok {
        assert forall|other: u8| #[trigger] after.by_transient_id.contains_key(other) implies {
            let s = after.by_transient_id[other];
            &&& s.session_id == other
            &&& s.role == Role::Client
            &&& s.client_id is Some
            &&& after.by_identity.contains_key(s.client_id.unwrap()@)
            &&& after.by_identity[s.client_id.unwrap()@] == s
        } by {
            if other != session.session_id {
                assert(registry.by_transient_id.contains_key(other));
            }
        }
        assert forall|other: Seq<u8>| #[trigger] after.by_identity.contains_key(other) implies {
            let s = after.by_identity[other];
            &&& s.role == Role::Client
            &&& s.client_id is Some
            &&& s.client_id.unwrap()@ == other
            &&& after.by_transient_id.contains_key(s.session_id)
            &&& after.by_transient_id[s.session_id] == s
        } by {
            if other != uuid {
                assert(registry.by_identity.contains_key(other));
            }
        }
    }
}

/// Eviction takes each evicted client out of both indices and leaves every
/// other session, the server and the shutdown mark as they were.
pub proof fn lemma_evict(registry: Registry, ids: Seq<u8>)
    requires
        registry.wf(),
    ensures
        registry.evict(ids).wf(),
        registry.evict(ids).server == registry.server,
        registry.evict(ids).shutdown == registry.shutdown,
        forall|id: u8| #[trigger]
            registry.evict(ids).by_transient_id.contains_key(id) <==> (
            registry.by_transient_id.contains_key(id) && !ids.contains(id)),
        forall|id: u8| #[trigger]
            registry.evict(ids).by_transient_id.contains_key(id)
                ==> registry.evict(ids).by_transient_id[id] == registry.by_transient_id[id],
        forall|uuid: Seq<u8>| #[trigger]
            registry.evict(ids).by_identity.contains_key(uuid) <==> (
            registry.by_identity.contains_key(uuid) && !ids.contains(
                registry.by_identity[uuid].session_id,
            )),
        forall|uuid: Seq<u8>| #[trigger]
            registry.evict(ids).by_identity.contains_key(uuid) ==> registry.evict(
                ids,
            ).by_identity[uuid] == registry.by_identity[uuid],
    decreases ids.len(),
{
    if ids.len() > 0 {
        let head = ids.drop_last();
        let id = ids.last();
        let before = registry.evict(head);
        let after = registry.evict(ids);
        lemma_evict(registry, head);
        lemma_without_client_wf(before, id);
        assert forall|other: u8| ids.contains(other) <==> (head.contains(other) || other == id) by {
            if head.contains(other) {
                let i = choose|i: int| 0 <= i < head.len() && head[i] == other;
                assert(ids[i] == other);
            }
            if ids.contains(other) && other != id {
                let i = choose|i: int| 0 <= i < ids.len() && ids[i] == other;
                assert(head[i] == other);
            }
            assert(ids[ids.len() - 1] == id);
        }
        assert forall|uuid: Seq<u8>|
            after.by_identity.contains_key(uuid) <==> (registry.by_identity.contains_key(uuid)
                && !ids.contains(registry.by_identity[uuid].session_id)) by {
            if before.by_identity.contains_key(uuid) {
                assert(before.by_transient_id.contains_key(before.by_identity[uuid].session_id));
            }
            if before.by_transient_id.contains_key(id) {
                assert(before.by_identity.contains_key(
                    before.by_transient_id[id].client_id.unwrap()@,
                ));
            }
        }
    }
}

/// One change to a registry.
pub enum RegistryOp {
    RegisterServer(Session),
    ClearServer,
    RegisterClient(Session),
    RemoveClient(u8),
    ClearClients,
    ScheduleShutdown,
}

impl Registry {
    /// The registry after `op`.
    pub open spec fn step(self, op: RegistryOp) -> Registry {
        match op {
            RegistryOp::RegisterServer(session) => self.register_server(session).0,
            RegistryOp::ClearServer => self.with_server(None),
            RegistryOp::RegisterClient(session) => self.register_client(session).0,
            RegistryOp::RemoveClient(id) => self.without_client(id),
            RegistryOp::ClearClients => self.without_clients(),
            RegistryOp::ScheduleShutdown => self.shutting_down(),
        }
    }

    /// The registry after `ops`, in order.
    pub open spec fn run(self, ops: Seq<RegistryOp>) -> Registry
        decreases ops.len(),
    {
        if ops.len() == 0 {
            self
        } else {
            self.run(ops.drop_last()).step(ops.last())
        }
    }
}

/// While the indices are in step they hold the same sessions, and each
/// session once: the identities and the transient identifiers of the
/// registered clients correspond one to one.
pub proof fn lemma_same_sessions(registry: Registry)
    requires
        registry.wf(),
    ensures
        registry.by_identity.values() == registry.by_transient_id.values(),
        registry.by_identity.is_injective(),
        registry.by_transient_id.is_injective(),
{
    assert forall|s: Session|
        registry.by_identity.contains_value(s) == registry.by_transient_id.contains_value(s) by {
        if registry.by_identity.contains_value(s) {
            let uuid = choose|uuid: Seq<u8>|
                registry.by_identity.contains_key(uuid) && registry.by_identity[uuid] == s;
            assert(registry.by_transient_id.contains_key(s.session_id));
        }
        if registry.by_transient_id.contains_value(s) {
            let id = choose|id: u8|
                registry.by_transient_id.contains_key(id) && registry.by_transient_id[id] == s;
            assert(registry.by_identity.contains_key(s.client_id.unwrap()@));
        }
    }
    assert(registry.by_identity.values() =~= registry.by_transient_id.values());
    assert forall|a: u8, b: u8|
        a != b && registry.by_transient_id.contains_key(a) && registry.by_transient_id.contains_key(
            b,
        ) implies #[trigger] registry.by_transient_id[a] != #[trigger] registry.by_transient_id[b] by {
    }
    assert forall|a: Seq<u8>, b: Seq<u8>|
        a != b && registry.by_identity.contains_key(a) && registry.by_identity.contains_key(
            b,
        ) implies #[trigger] registry.by_identity[a] != #[trigger] registry.by_identity[b] by {
    }
}

/// Every change keeps the indices in step.
pub proof fn lemma_step_wf(registry: Registry, op: RegistryOp)
    requires
        registry.wf(),
    ensures
        registry.step(op).wf(),
        registry.shutdown ==> registry.step(op).shutdown,
{
    match op {
        RegistryOp::RegisterClient(session) => {
            lemma_register_client_wf(registry, session);
        },
        RegistryOp::RemoveClient(id) => {
            lemma_without_client_wf(registry, id);
        },
        _ => {},
    }
}

/// After any sequence of changes to a fresh registry, the index by identity
/// and the index by transient identifier hold the same sessions.
pub proof fn lemma_indices_agree(ops: Seq<RegistryOp>)
    ensures
        Registry::empty().run(ops).wf(),
        Registry::empty().run(ops).by_identity.values() == Registry::empty().run(
            ops,
        ).by_transient_id.values(),
    decreases ops.len(),
{
    if ops.len() > 0 {
        lemma_indices_agree(ops.drop_last());
        lemma_step_wf(Registry::empty().run(ops.drop_last()), ops.last());
    }
    lemma_same_sessions(Registry::empty().run(ops));
}

/// At most one registered session has the role of the server: the one in
/// the server slot.
pub proof fn lemma_one_server(registry: Registry, session: Session)
    requires
        registry.wf(),
        registry.holds(session),
        session.role == Role::Server,
    ensures
        registry.server == Some(session),
{
    if registry.by_transient_id.contains_value(session) {
        let id = choose|id: u8|
            registry.by_transient_id.contains_key(id) && registry.by_transient_id[id] == session;
        assert(registry.by_transient_id.contains_key(id));
    }
    if registry.by_identity.contains_value(session) {
        let uuid = choose|uuid: Seq<u8>|
            registry.by_identity.contains_key(uuid) && registry.by_identity[uuid] == session;
        assert(registry.by_identity.contains_key(uuid));
    }
}

/// While a server is registered, a second registration is refused,
/// whatever session asks for it, and leaves the registry, the first server
/// with it, as it was.
pub proof fn lemma_second_server_refused(registry: Registry, first: Session, second: Session)
    requires
        registry.server is None,
        first.role == Role::Server,
    ensures
        registry.register_server(first).1 is Ok,
        registry.register_server(first).0.server == Some(first),
        registry.register_server(first).0.register_server(second) == (
            registry.register_server(first).0,
            Err::<(), RegistryError>(RegistryError::ServerExists),
        ),
{
}

/// The shared registry of one listener.
pub struct RelayState {
    server: Option<Arc<Session>>,
    client_uuids: UuidIndex,
    client_ids: IdIndex,
    shutting_down: bool,
}

impl View for RelayState {
    type V = Registry;

    closed spec fn view(&self) -> Registry {
        Registry {
            server: match self.server {
                Some(session) => Some(*session),
                None => None,
            },
            by_identity: uuid_index(self.client_uuids),
            by_transient_id: id_index(self.client_ids),
            shutdown: self.shutting_down,
        }
    }
}

impl RelayState {
    /// Whether the two indices hold the same sessions.
    pub open spec fn wf(&self) -> bool {
        self@.wf()
    }

    pub fn new() -> (state: RelayState)
        ensures
            state.wf(),
            state@ == Registry::empty(),
    {
        RelayState {
            server: None,
            client_uuids: uuid_index_new(),
            client_ids: id_index_new(),
            shutting_down: false,
        }
    }

    /// Puts `session` in the server slot, unless the slot is taken or the
    /// session is not in the role of the server.
    pub fn register_server(&mut self, session: Arc<Session>) -> (r: Result<(), RegistryError>)
        requires
            old(self).wf(),
        ensures
            final(self).wf(),
            (final(self)@, r) == old(self)@.register_server(*session),
    {
        if self.server.is_some() {
            return Err(RegistryError::ServerExists);
        }
        match session.role {
            Role::Server => {},
            Role::Client => { return Err(RegistryError::WrongRole); },
        }
        self.server = Some(session);
        Ok(())
    }

    /// The registered server, if there is one.
    pub fn get_server(&self) -> (server: Option<Arc<Session>>)
        ensures
            match server {
                Some(session) => self@.server == Some(*session),
                None => self@.server is None,
            },
    {
        match &self.server {
            Some(session) => Some(share(session)),
            None => None,
        }
    }

    /// Vacates the server slot.
    pub fn clear_server(&mut self)
        requires
            old(self).wf(),
        ensures
            final(self).wf(),
            final(self)@ == old(self)@.with_server(None),
    {
        self.server = None;
    }

    /// Enters `session` under its identity and under its transient
    /// identifier, unless either is taken or the session is not a client
    /// with an identity.
    pub fn register_client(&mut self, session: Arc<Session>) -> (r: Result<(), RegistryError>)
        requires
            old(self).wf(),
        ensures
            final(self).wf(),
            (final(self)@, r) == old(self)@.register_client(*session),
    {
        let uuid = match (session.role, session.client_id) {
            (Role::Client, Some(uuid)) => uuid,
            _ => { return Err(RegistryError::WrongRole); },
        };
        if uuid_index_get(&self.client_uuids, &uuid).is_some() {
            return Err(RegistryError::DuplicateClient);
        }
        if id_index_get(&self.client_ids, session.session_id).is_some() {
            return Err(RegistryError::SessionIdTaken);
        }
        proof {
            lemma_register_client_wf(old(self)@, held(session));
        }
        uuid_index_insert(&mut self.client_uuids, uuid, share(&session));
        let id = session.session_id;
        id_index_insert(&mut self.client_ids, id, session);
        Ok(())
    }

    /// Removes the client that holds transient identifier `id` from both
    /// indices; returns its identity.
    pub fn remove_by_id(&mut self, id: u8) -> (freed: Option<[u8; 16]>)
        requires
            old(self).wf(),
        ensures
            final(self).wf(),
            final(self)@ == old(self)@.without_client(id),
            freed == old(self)@.identity_of(id),
    {
        proof {
            lemma_without_client_wf(old(self)@, id);
        }
        match id_index_remove(&mut self.client_ids, id) {
            Some(session) => {
                let client_id = session.client_id;
                if let Some(uuid) = client_id {
                    uuid_index_remove(&mut self.client_uuids, &uuid);
                }
                client_id
            },
            None => None,
        }
    }

    /// Empties both indices.
    pub fn clear_clients(&mut self)
        requires
            old(self).wf(),
        ensures
            final(self).wf(),
            final(self)@ == old(self)@.without_clients(),
    {
        uuid_index_clear(&mut self.client_uuids);
        id_index_clear(&mut self.client_ids);
    }

    /// Marks the listener as shutting down.
    pub fn schedule_shutdown(&mut self)
        requires
            old(self).wf(),
        ensures
            final(self).wf(),
            final(self)@ == old(self)@.shutting_down(),
    {
        self.shutting_down = true;
    }

    /// Whether shutdown was scheduled.
    pub fn is_shutdown(&self) -> (shutdown: bool)
        ensures
            shutdown == self@.shutdown,
    {
        self.shutting_down
    }

    /// The client that holds transient identifier `id`.
    pub fn client_by_id(&self, id: u8) -> (found: Option<Arc<Session>>)
        ensures
            match found {
                Some(session) => self@.by_transient_id.contains_key(id)
                    && *session == self@.by_transient_id[id],
                None => !self@.by_transient_id.contains_key(id),
            },
    {
        id_index_get(&self.client_ids, id)
    }

    /// The client that registered with identity `uuid`.
    pub fn client_by_uuid(&self, uuid: &[u8; 16]) -> (found: Option<Arc<Session>>)
        ensures
            match found {
                Some(session) => self@.by_identity.contains_key(uuid@)
                    && *session == self@.by_identity[uuid@],
                None => !self@.by_identity.contains_key(uuid@),
            },
    {
        uuid_index_get(&self.client_uuids, uuid)
    }

    /// Removes the clients that hold the transient identifiers `ids` from
    /// both indices; returns the identities of those that left.
    pub fn evict(&mut self, ids: &Vec<u8>) -> (freed: Vec<[u8; 16]>)
        requires
            old(self).wf(),
        ensures
            final(self).wf(),
            final(self)@ == old(self)@.evict(ids@),
            freed@ == old(self)@.evicted_identities(ids@),
    {
        let mut freed: Vec<[u8; 16]> = Vec::new();
        let mut k: usize = 0;
        while k < ids.len()
            invariant
                k <= ids@.len(),
                self.wf(),
                self@ == old(self)@.evict(ids@.take(k as int)),
                freed@ == old(self)@.evicted_identities(ids@.take(k as int)),
            decreases ids@.len() - k,
        {
            proof {
                assert(ids@.take(k + 1).drop_last() =~= ids@.take(k as int));
            }
            if let Some(uuid) = self.remove_by_id(ids[k]) {
                freed.push(uuid);
            }
            k += 1;
        }
        assert(ids@.take(k as int) =~= ids@);
        freed
    }

    /// The transient identifiers of the registered clients, each once, in no
    /// particular order.
    pub fn client_ids(&self) -> (ids: Vec<u8>)
        ensures
            ids@.no_duplicates(),
            forall|id: u8| ids@.contains(id) <==> self@.by_transient_id.contains_key(id),
    {
        id_index_keys(&self.client_ids)
    }
}

} // verus!
