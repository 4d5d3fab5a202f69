//! What the broker does with each frame of a registered peer.
//!
//! Every frame of a peer starts with an opcode. In a client's frame for the
//! server the sender's transient identifier follows it; in a server's frame
//! the address follows it, where the frame has one; what is left is the
//! tail. Frames go to their recipients through the recipients' channels:
//! without waiting where many are addressed, with waiting, which is left to
//! the caller, where one is.

use crate::channel::{offer, Tx};
use crate::codec::{
    build_delivery, build_relay_msg, delivery, exclusions, identity_at, identity_views, is_listed,
    is_nil, is_nil_uuid, lemma_var_uint_round_trip, listed_identities, notice_of, parse_excludes,
    read_identity, read_var_uint, var_uint, var_uint_encoding, WireError,
};
use crate::session::Session;
use crate::states::{Registry, RelayState};
use std::sync::Arc;
use vstd::prelude::*;
use vstd::slice::slice_subrange;
use vstd::string::StringExecFns;

verus! {

/// A client's frame for the server.
pub const OP_TO_SERVER: u8 = 0x10;

/// The server's frame for every client. A delivered frame bears the same
/// opcode.
pub const OP_BROADCAST: u8 = 0x11;

/// The server's frame for the client with a given transient identifier.
pub const OP_UNICAST_ID: u8 = 0x12;

/// The server's frame for the client with a given identity.
pub const OP_UNICAST_UUID: u8 = 0x13;

/// The server's frame for every client but those it lists.
pub const OP_BROADCAST_EXCLUDING: u8 = 0x14;

/// The longest payload that is relayed, in bytes.
pub const MAX_PAYLOAD_LEN: usize = 6144;

/// The longest list of exclusions that is accepted.
pub const MAX_EXCLUDES: u32 = 16;

/// What the broker makes of a client's frame.
#[derive(Debug, Clone, Copy, PartialEq, Eq, Structural)]
pub enum ClientFrame {
    /// Empty, or of an opcode that a client may not send: dropped.
    Ignored,
    /// The frame names another session as its sender. It is dropped, and the
    /// connection with it.
    Spoofed,
    /// Too short to hold the sender's identifier and a payload: dropped.
    TooShort,
    /// For the server, but none is registered: dropped.
    NoServer,
    /// Goes to the server as it stands.
    Forward,
}

/// The verdict on a frame `payload` of the client that holds transient
/// identifier `session_id`.
pub open spec fn client_frame(registry: Registry, session_id: u8, payload: Seq<u8>) -> ClientFrame {
    if payload.len() == 0 || payload[0] != OP_TO_SERVER {
        ClientFrame::Ignored
    } else if payload.len() >= 2 && payload[1] != session_id {
        ClientFrame::Spoofed
    } else if payload.len() < 3 {
        ClientFrame::TooShort
    } else if registry.server is None {
        ClientFrame::NoServer
    } else {
        ClientFrame::Forward
    }
}

/// A frame that names another session as its sender is never forwarded:
/// it is taken for spoofed, whether or not a server is registered.
pub proof fn lemma_spoofed_frame_not_forwarded(registry: Registry, session_id: u8, payload: Seq<u8>)
    requires
        payload.len() >= 2,
        payload[0] == OP_TO_SERVER,
        payload[1] != session_id,
    ensures
        client_frame(registry, session_id, payload) == ClientFrame::Spoofed,
        client_frame(registry, session_id, payload) != ClientFrame::Forward,
{
}

/// Decides on a client's frame; returns the server's session where the
/// frame is to be forwarded.
pub fn judge_client_frame(state: &RelayState, session: &Session, payload: &[u8]) -> (r: (
    ClientFrame,
    Option<Arc<Session>>,
))
    ensures
        r.0 == client_frame(state@, session.session_id, payload@),
        match r.1 {
            Some(server) => r.0 == ClientFrame::Forward && state@.server == Some(*server),
            None => r.0 != ClientFrame::Forward,
        },
{
    if payload.len() == 0 || payload[0] != OP_TO_SERVER {
        return (ClientFrame::Ignored, None);
    }
    if payload.len() >= 2 && payload[1] != session.session_id {
        return (ClientFrame::Spoofed, None);
    }
    if payload.len() < 3 {
        return (ClientFrame::TooShort, None);
    }
    match state.get_server() {
        Some(server) => (ClientFrame::Forward, Some(server)),
        None => (ClientFrame::NoServer, None),
    }
}

/// What became of a client's frame.
#[derive(Debug, Clone, Copy, PartialEq, Eq, Structural)]
pub struct ClientRelay {
    pub verdict: ClientFrame,
    /// Whether the server's channel took the frame. A frame that was not
    /// forwarded was not taken.
    pub accepted: bool,
}

/// Handles one frame of a client: a frame for the server is handed, whole
/// and unchanged, to the server's channel without waiting.
pub fn relay_client_message(state: &RelayState, session: &Session, payload: &[u8]) -> (outcome:
    ClientRelay)
    ensures
        outcome.verdict == client_frame(state@, session.session_id, payload@),
        outcome.accepted ==> outcome.verdict == ClientFrame::Forward,
{
    let (verdict, server) = judge_client_frame(state, session, payload);
    match server {
        Some(server) => ClientRelay { verdict, accepted: offer(&server.tx, payload) },
        None => ClientRelay { verdict, accepted: false },
    }
}

/// Why a server's frame was dropped.
#[derive(Debug, Clone, Copy, PartialEq, Eq, Structural)]
pub enum DropReason {
    /// The frame is empty.
    Empty,
    /// The opcode is none that a server may send.
    Opcode,
    /// The frame ends before its address does.
    TooShort,
    /// The frame is for no one who is registered, or for no one at all.
    NoTarget,
    /// The count of exclusions does not decode.
    Count(WireError),
    /// The frame ends before its list of exclusions does.
    ListTruncated,
}

impl DropReason {
    /// The text of the reason.
    pub open spec fn text(self) -> Seq<char> {
        match self {
            DropReason::Empty => "Empty message received"@,
            DropReason::Opcode => "Unknown opcode"@,
            DropReason::TooShort => "InvalidPacket: packet too short"@,
            DropReason::NoTarget => "Unknown target"@,
            DropReason::Count(WireError::Truncated) =>
                "Unexpected end of buffer while reading VarUInt"@,
            DropReason::Count(WireError::Overflow) => "VarUInt is too big"@,
            DropReason::ListTruncated => "Not enough bytes for excludes"@,
        }
    }

    /// The reason as the log reports it.
    pub fn message(&self) -> (text: String)
        ensures
            text@ == self.text(),
    {
        match self {
            DropReason::Empty => String::from_str("Empty message received"),
            DropReason::Opcode => String::from_str("Unknown opcode"),
            DropReason::TooShort => String::from_str("InvalidPacket: packet too short"),
            DropReason::NoTarget => String::from_str("Unknown target"),
            DropReason::Count(WireError::Truncated) => String::from_str(
                "Unexpected end of buffer while reading VarUInt",
            ),
            DropReason::Count(WireError::Overflow) => String::from_str("VarUInt is too big"),
            DropReason::ListTruncated => String::from_str("Not enough bytes for excludes"),
        }
    }
}

/// What the broker is to do with a server's frame.
pub enum ServerFrame {
    /// The frame is dropped.
    Ignore(DropReason),
    /// The list of exclusions is too long: dropped, and the sender is told.
    Reject,
    /// `frame` goes to each of the clients that hold `targets`, without
    /// waiting; a client whose channel refuses it is evicted.
    Broadcast { frame: Seq<u8>, targets: Set<u8> },
    /// `frame` goes to `target`, with waiting.
    Unicast { frame: Seq<u8>, target: Session },
}

/// Whether `session` registered with one of the identities in `list`.
pub open spec fn is_excluded(session: Session, list: Seq<Seq<u8>>) -> bool {
    match session.client_id {
        Some(uuid) => list.contains(uuid@),
        None => false,
    }
}

/// The transient identifiers of the registered clients whose identity is
/// not in `list`.
pub open spec fn everyone_but(registry: Registry, list: Seq<Seq<u8>>) -> Set<u8> {
    Set::new(
        |id: u8|
            registry.by_transient_id.contains_key(id) && !is_excluded(
                registry.by_transient_id[id],
                list,
            ),
    )
}

/// The plan for a broadcast that leaves out the identities listed at the
/// front of `body`: a variable-length count, that many identities, then
/// the payload.
pub open spec fn excluding_frame(registry: Registry, sender_id: u8, body: Seq<u8>) -> ServerFrame {
    match var_uint(body) {
        Err(e) => ServerFrame::Ignore(DropReason::Count(e)),
        Ok((count, used)) => {
            let list = body.skip(used as int);
            if count > MAX_EXCLUDES {
                ServerFrame::Reject
            } else if list.len() < 16 * count {
                ServerFrame::Ignore(DropReason::ListTruncated)
            } else {
                ServerFrame::Broadcast {
                    frame: delivery(sender_id, list.skip(16 * count)),
                    targets: everyone_but(registry, exclusions(list, count as nat)),
                }
            }
        },
    }
}

/// The plan for frame `payload` of the server that holds transient
/// identifier `sender_id`.
///
/// The address stands right after the opcode: nothing for a broadcast, one
/// byte for a transient identifier, sixteen for an identity, a count and
/// a list for exclusions. Every frame that is delivered is wrapped anew: the
/// delivery opcode, the sender's identifier, then the tail as it came in.
pub open spec fn server_frame(registry: Registry, sender_id: u8, payload: Seq<u8>) -> ServerFrame {
    if payload.len() == 0 {
        ServerFrame::Ignore(DropReason::Empty)
    } else if payload[0] == OP_BROADCAST {
        ServerFrame::Broadcast {
            frame: delivery(sender_id, payload.skip(1)),
            targets: registry.by_transient_id.dom(),
        }
    } else if payload[0] == OP_UNICAST_ID {
        if payload.len() < 3 {
            ServerFrame::Ignore(DropReason::TooShort)
        } else if payload[1] != 0 && registry.by_transient_id.contains_key(payload[1]) {
            ServerFrame::Unicast {
                frame: delivery(sender_id, payload.skip(2)),
                target: registry.by_transient_id[payload[1]],
            }
        } else {
            ServerFrame::Ignore(DropReason::NoTarget)
        }
    } else if payload[0] == OP_UNICAST_UUID {
        if payload.len() < 17 {
            ServerFrame::Ignore(DropReason::TooShort)
        } else if !is_nil(payload.subrange(1, 17)) && registry.by_identity.contains_key(
            payload.subrange(1, 17),
        ) {
            ServerFrame::Unicast {
                frame: delivery(sender_id, payload.skip(17)),
                target: registry.by_identity[payload.subrange(1, 17)],
            }
        } else {
            ServerFrame::Ignore(DropReason::NoTarget)
        }
    } else if payload[0] == OP_BROADCAST_EXCLUDING {
        if payload.len() >= 2 {
            excluding_frame(registry, sender_id, payload.skip(1))
        } else {
            ServerFrame::Ignore(DropReason::TooShort)
        }
    } else {
        ServerFrame::Ignore(DropReason::Opcode)
    }
}

/// A broadcast goes to registered clients only.
pub proof fn lemma_broadcast_targets_registered(registry: Registry, sender_id: u8, payload: Seq<u8>)
    ensures
        match server_frame(registry, sender_id, payload) {
            ServerFrame::Broadcast { frame, targets } => forall|id: u8|
                targets.contains(id) ==> registry.by_transient_id.contains_key(id),
            _ => true,
        },
{
}

/// A broadcast hands every registered client the tail unchanged, behind
/// the delivery opcode and the sender's identifier.
pub proof fn lemma_broadcast_reaches_all(registry: Registry, sender_id: u8, tail: Seq<u8>)
    ensures
        server_frame(registry, sender_id, seq![OP_BROADCAST] + tail) == (ServerFrame::Broadcast {
            frame: delivery(sender_id, tail),
            targets: registry.by_transient_id.dom(),
        }),
{
    let payload = seq![OP_BROADCAST] + tail;
    assert(payload.skip(1) =~= tail);
}

/// A frame for the client that holds transient identifier `target` hands
/// that client, and no one else, the tail behind the delivery opcode and
/// the sender's identifier.
pub proof fn lemma_unicast_reaches_its_target(
    registry: Registry,
    sender_id: u8,
    target: u8,
    tail: Seq<u8>,
)
    requires
        target != 0,
        registry.by_transient_id.contains_key(target),
        tail.len() > 0,
    ensures
        server_frame(registry, sender_id, seq![OP_UNICAST_ID, target] + tail) == (
        ServerFrame::Unicast {
            frame: delivery(sender_id, tail),
            target: registry.by_transient_id[target],
        }),
{
    let payload = seq![OP_UNICAST_ID, target] + tail;
    assert(payload.skip(2) =~= tail);
}

/// A frame for the nil identity is dropped, whatever follows it.
pub proof fn lemma_nil_target_ignored(registry: Registry, sender_id: u8, tail: Seq<u8>)
    ensures
        server_frame(
            registry,
            sender_id,
            seq![OP_UNICAST_UUID] + Seq::new(16, |i: int| 0u8) + tail,
        ) == ServerFrame::Ignore(DropReason::NoTarget),
{
    let payload = seq![OP_UNICAST_UUID] + Seq::new(16, |i: int| 0u8) + tail;
    assert(payload.subrange(1, 17) =~= Seq::new(16, |i: int| 0u8));
}

/// A broadcast that excludes the one identity `uuid` goes, wrapped anew, to
/// every registered client but the one that registered with `uuid`.
pub proof fn lemma_exclusion_of_one(registry: Registry, sender_id: u8, uuid: Seq<u8>, tail: Seq<u8>)
    requires
        uuid.len() == 16,
        !is_nil(uuid),
    ensures
        server_frame(registry, sender_id, seq![OP_BROADCAST_EXCLUDING, 1u8] + uuid + tail) == (
        ServerFrame::Broadcast {
            frame: delivery(sender_id, tail),
            targets: Set::new(
                |id: u8|
                    registry.by_transient_id.contains_key(id) && (
                    registry.by_transient_id[id].client_id matches Some(held) ==> held@ != uuid),
            ),
        }),
{
    let payload = seq![OP_BROADCAST_EXCLUDING, 1u8] + uuid + tail;
    let body = payload.skip(1);
    assert(body =~= var_uint_encoding(1) + (uuid + tail));
    lemma_var_uint_round_trip(1, uuid + tail);
    assert(var_uint_encoding(1) =~= seq![1u8]);
    let list = body.skip(1);
    assert(list =~= uuid + tail);
    assert(list.skip(16) =~= tail);
    let keep = |id: Seq<u8>| !is_nil(id);
    let listed = listed_identities(list, 1);
    assert(identity_at(list, 0) =~= uuid);
    assert(listed =~= Seq::<Seq<u8>>::empty().push(uuid));
    assert(listed.filter(keep) =~= seq![uuid]) by {
        reveal(Seq::filter);
        Seq::<Seq<u8>>::empty().lemma_filter_push(uuid, keep);
        assert(Seq::<Seq<u8>>::empty().filter(keep) =~= Seq::<Seq<u8>>::empty());
    }
    let only = seq![uuid];
    assert(exclusions(list, 1) == only);
    assert forall|other: Seq<u8>| only.contains(other) <==> other == uuid by {
        assert(only[0] == uuid);
    }
    let wanted = Set::new(
        |id: u8|
            registry.by_transient_id.contains_key(id) && (
            registry.by_transient_id[id].client_id matches Some(held) ==> held@ != uuid),
    );
    assert(everyone_but(registry, only) =~= wanted);
}

/// A broadcast that lists more exclusions than are accepted is delivered to
/// no one, whether or not the identities follow the count.
pub proof fn lemma_long_exclusion_rejected(
    registry: Registry,
    sender_id: u8,
    count: u32,
    rest: Seq<u8>,
)
    requires
        count > MAX_EXCLUDES,
    ensures
        server_frame(
            registry,
            sender_id,
            seq![OP_BROADCAST_EXCLUDING] + var_uint_encoding(count as nat) + rest,
        ) == ServerFrame::Reject,
{
    let payload = seq![OP_BROADCAST_EXCLUDING] + var_uint_encoding(count as nat) + rest;
    lemma_var_uint_round_trip(count, rest);
    assert(payload.skip(1) =~= var_uint_encoding(count as nat) + rest);
}

/// A plan for a server's frame, ready to be carried out.
#[derive(Debug)]
pub enum ServerPlan {
    Ignore(DropReason),
    Reject,
    /// The frame and the transient identifiers of its recipients, each
    /// once, in no particular order.
    Broadcast { frame: Vec<u8>, targets: Vec<u8> },
    Unicast { frame: Vec<u8>, target: Arc<Session> },
}

impl ServerPlan {
    /// Whether this plan is `frame`, made concrete.
    pub open spec fn fulfils(self, frame: ServerFrame) -> bool {
        match (self, frame) {
            (ServerPlan::Ignore(why), ServerFrame::Ignore(reason)) => why == reason,
            (ServerPlan::Reject, ServerFrame::Reject) => true,
            (
                ServerPlan::Broadcast { frame, targets },
                ServerFrame::Broadcast { frame: bytes, targets: ids },
            ) => {
                &&& frame@ == bytes
                &&& targets@.no_duplicates()
                &&& forall|id: u8| targets@.contains(id) <==> ids.contains(id)
            },
            (
                ServerPlan::Unicast { frame, target },
                ServerFrame::Unicast { frame: bytes, target: session },
            ) => frame@ == bytes && *target == session,
            _ => false,
        }
    }
}

/// The transient identifiers of the registered clients whose identity is
/// not in `excludes`, each once.
pub fn recipients_but(state: &RelayState, excludes: &Vec<[u8; 16]>) -> (targets: Vec<u8>)
    ensures
        targets@.no_duplicates(),
        forall|id: u8|
            targets@.contains(id) <==> everyone_but(state@, identity_views(excludes@)).contains(id),
{
    let ids = state.client_ids();
    let mut targets: Vec<u8> = Vec::new();
    let ghost list = identity_views(excludes@);
    let mut k: usize = 0;
    while k < ids.len()
        invariant
            k <= ids@.len(),
            ids@.no_duplicates(),
            list == identity_views(excludes@),
            forall|id: u8| ids@.contains(id) <==> state@.by_transient_id.contains_key(id),
            targets@.no_duplicates(),
            forall|j: int|
                0 <= j < targets@.len() ==> exists|i: int|
                    0 <= i < k && ids@[i] == #[trigger] targets@[j],
            forall|j: int|
                0 <= j < targets@.len() ==> everyone_but(state@, list).contains(
                    #[trigger] targets@[j],
                ),
            forall|i: int|
                0 <= i < k && everyone_but(state@, list).contains(#[trigger] ids@[i])
                    ==> targets@.contains(ids@[i]),
        decreases ids@.len() - k,
    {
        let id = ids[k];
        assert(ids@.contains(id));
        let keep = match state.client_by_id(id) {
            Some(session) => match session.client_id {
                Some(uuid) => !is_listed(&uuid, excludes),
                None => true,
            },
            None => false,
        };
        if keep {
            let ghost before = targets@;
            assert forall|j: int| 0 <= j < before.len() implies before[j] != id by {
                let i = choose|i: int| 0 <= i < k && ids@[i] == before[j];
                assert(ids@[i] != ids@[k as int]);
            }
            targets.push(id);
            assert forall|j: int| 0 <= j < targets@.len() implies exists|i: int|
                0 <= i < k + 1 && ids@[i] == #[trigger] targets@[j] by {
                if j < before.len() {
                    let i = choose|i: int| 0 <= i < k && ids@[i] == before[j];
                    assert(ids@[i] == targets@[j]);
                } else {
                    assert(ids@[k as int] == targets@[j]);
                }
            }
            assert forall|i: int|
                0 <= i < k + 1 && everyone_but(state@, list).contains(
                    #[trigger] ids@[i],
                ) implies targets@.contains(ids@[i]) by {
                if i < k {
                    assert(before.contains(ids@[i]));
                    let j = choose|j: int| 0 <= j < before.len() && before[j] == ids@[i];
                    assert(targets@[j] == ids@[i]);
                } else {
                    assert(targets@[before.len() as int] == id);
                }
            }
        }
        k += 1;
    }
    proof {
        assert forall|id: u8|
            targets@.contains(id) <==> everyone_but(state@, list).contains(id) by {
            if everyone_but(state@, list).contains(id) {
                assert(ids@.contains(id));
                let i = choose|i: int| 0 <= i < ids@.len() && ids@[i] == id;
                assert(targets@.contains(ids@[i]));
            }
        }
    }
    targets
}

/// Plans a broadcast that leaves out the identities listed at the front
/// of `body`.
fn plan_excluding(state: &RelayState, session: &Session, body: &[u8]) -> (plan: ServerPlan)
    ensures
        plan.fulfils(excluding_frame(state@, session.session_id, body@)),
{
    let (count, list) = match read_var_uint(body) {
        Ok(read) => read,
        Err(e) => { return ServerPlan::Ignore(DropReason::Count(e)); },
    };
    let ghost used = (body@.len() - list@.len()) as nat;
    assert(var_uint(body@) == Ok::<(u32, nat), WireError>((count, used)));
    assert(list@ == body@.skip(used as int));
    if count > MAX_EXCLUDES {
        return ServerPlan::Reject;
    }
    let (excludes, tail) = match parse_excludes(list, count) {
        Ok(parsed) => parsed,
        Err(_) => {
            assert(list@.len() < 16 * count);
            return ServerPlan::Ignore(DropReason::ListTruncated);
        },
    };
    let frame = build_delivery(session.session_id, tail);
    let targets = recipients_but(state, &excludes);
    assert(frame@ == delivery(session.session_id, list@.skip(16 * count)));
    assert(identity_views(excludes@) == exclusions(list@, count as nat));
    ServerPlan::Broadcast { frame, targets }
}

/// Plans what to do with one frame of the server.
pub fn plan_server_frame(state: &RelayState, session: &Session, payload: &[u8]) -> (plan:
    ServerPlan)
    ensures
        plan.fulfils(server_frame(state@, session.session_id, payload@)),
{
    let len = payload.len();
    if len == 0 {
        return ServerPlan::Ignore(DropReason::Empty);
    }
    let opcode = payload[0];
    if opcode == OP_BROADCAST {
        let frame = build_delivery(session.session_id, slice_subrange(payload, 1, len));
        let targets = state.client_ids();
        ServerPlan::Broadcast { frame, targets }
    } else if opcode == OP_UNICAST_ID {
        if len < 3 {
            return ServerPlan::Ignore(DropReason::TooShort);
        }
        if payload[1] == 0 {
            return ServerPlan::Ignore(DropReason::NoTarget);
        }
        match state.client_by_id(payload[1]) {
            Some(target) => {
                let tail = slice_subrange(payload, 2, len);
                ServerPlan::Unicast { frame: build_delivery(session.session_id, tail), target }
            },
            None => ServerPlan::Ignore(DropReason::NoTarget),
        }
    } else if opcode == OP_UNICAST_UUID {
        if len < 17 {
            return ServerPlan::Ignore(DropReason::TooShort);
        }
        let uuid = read_identity(payload, 1);
        if is_nil_uuid(uuid.as_slice()) {
            return ServerPlan::Ignore(DropReason::NoTarget);
        }
        match state.client_by_uuid(&uuid) {
            Some(target) => {
                let tail = slice_subrange(payload, 17, len);
                ServerPlan::Unicast { frame: build_delivery(session.session_id, tail), target }
            },
            None => ServerPlan::Ignore(DropReason::NoTarget),
        }
    } else if opcode == OP_BROADCAST_EXCLUDING {
        if len < 2 {
            return ServerPlan::Ignore(DropReason::TooShort);
        }
        plan_excluding(state, session, slice_subrange(payload, 1, len))
    } else {
        ServerPlan::Ignore(DropReason::Opcode)
    }
}

/// A frame that awaits its recipient: the caller pushes `frame` into the
/// channel of `to`, waiting for room, and reports how that ended.
#[derive(Debug)]
pub struct Delivery {
    pub to: Arc<Session>,
    pub frame: Vec<u8>,
}

/// A notice that a peer was offered without waiting.
#[derive(Debug)]
pub struct Notice {
    pub frame: Vec<u8>,
    /// Whether the peer's channel took the notice.
    pub accepted: bool,
}

/// Offers `frame` to `tx` without waiting; returns it with the answer.
pub fn notify(tx: &Tx, frame: Vec<u8>) -> (notice: Notice)
    ensures
        notice.frame == frame,
{
    let accepted = offer(tx, frame.as_slice());
    Notice { frame, accepted }
}

/// What became of a server's frame.
#[derive(Debug)]
pub enum ServerRelay {
    /// The frame was dropped.
    Ignored(DropReason),
    /// The frame was dropped for its list of exclusions, and the sender was
    /// offered a notice.
    Rejected { notice: Notice },
    /// The frame was offered to its recipients. The channels of `accepted`
    /// took it; those of `evicted` refused it, and their clients, whose
    /// identities are `freed`, left the registry.
    Broadcast { accepted: Vec<u8>, evicted: Vec<u8>, freed: Vec<[u8; 16]> },
    /// The frame is left to the caller to deliver.
    Unicast(Delivery),
}

/// The notice that tells a server that its list of exclusions is too long.
pub fn exclude_notice() -> (frame: Vec<u8>)
    ensures
        frame@ == notice_of("ERR:Exclude list too large"@),
{
    build_relay_msg("ERR:Exclude list too large")
}

/// Those of `targets` whose answer in `took` is `want`, in order. The two
/// sequences go together position by position.
pub open spec fn answered(targets: Seq<u8>, took: Seq<bool>, want: bool) -> Seq<u8>
    decreases targets.len(),
{
    if targets.len() == 0 || took.len() != targets.len() {
        Seq::empty()
    } else {
        let before = answered(targets.drop_last(), took.drop_last(), want);
        if took.last() == want {
            before.push(targets.last())
        } else {
            before
        }
    }
}

/// Sorting recipients by their answers loses none and doubles none: each
/// recipient whose channel took the frame is among the accepted, each
/// whose channel refused is among the refused, and no one else is in
/// either.
pub proof fn lemma_answered_partition(targets: Seq<u8>, took: Seq<bool>)
    requires
        took.len() == targets.len(),
    ensures
        forall|i: int|
            0 <= i < targets.len() ==> answered(targets, took, took[i]).contains(
                #[trigger] targets[i],
            ),
        forall|id: u8, want: bool| #[trigger]
            answered(targets, took, want).contains(id) ==> exists|i: int|
                0 <= i < targets.len() && targets[i] == id && took[i] == want,
        targets.no_duplicates() ==> answered(targets, took, true).no_duplicates() && answered(
            targets,
            took,
            false,
        ).no_duplicates(),
    decreases targets.len(),
{
    if targets.len() > 0 {
        let head = targets.drop_last();
        let head_took = took.drop_last();
        lemma_answered_partition(head, head_took);
        let n = targets.len() - 1;
        assert forall|i: int| 0 <= i < targets.len() implies answered(
            targets,
            took,
            took[i],
        ).contains(#[trigger] targets[i]) by {
            let now = answered(targets, took, took[i]);
            let before = answered(head, head_took, took[i]);
            if i < n {
                assert(head[i] == targets[i] && head_took[i] == took[i]);
                assert(before.contains(head[i]));
                let j = choose|j: int| 0 <= j < before.len() && before[j] == head[i];
                assert(now[j] == targets[i]);
            } else {
                assert(now[before.len() as int] == targets[i]);
            }
        }
        assert forall|id: u8, want: bool| #[trigger]
            answered(targets, took, want).contains(id) implies exists|i: int|
            0 <= i < targets.len() && targets[i] == id && took[i] == want by {
            let now = answered(targets, took, want);
            let before = answered(head, head_took, want);
            let j = choose|j: int| 0 <= j < now.len() && now[j] == id;
            if j < before.len() {
                assert(before[j] == id);
                assert(before.contains(id));
                let i = choose|i: int| 0 <= i < head.len() && head[i] == id && head_took[i] == want;
                assert(targets[i] == id && took[i] == want);
            } else {
                assert(targets[n] == id && took[n] == want);
            }
        }
        if targets.no_duplicates() {
            assert(head.no_duplicates());
            assert forall|want: bool| #[trigger] answered(targets, took, want).no_duplicates() by {
                let now = answered(targets, took, want);
                let before = answered(head, head_took, want);
                assert forall|a: int, b: int|
                    0 <= a < now.len() && 0 <= b < now.len() && a != b implies now[a]
                    != now[b] by {
                    if a < before.len() && b < before.len() {
                        assert(before[a] != before[b]);
                    } else {
                        let inner = if a < before.len() {
                            a
                        } else {
                            b
                        };
                        assert(before.contains(before[inner]));
                        let i = choose|i: int|
                            0 <= i < head.len() && head[i] == before[inner] && head_took[i]
                                == want;
                        assert(targets[i] != targets[n]);
                    }
                }
            }
        }
    }
}

/// A broadcast reaches every recipient but those that are evicted: each
/// recipient is among the accepted or among the evicted, never both, and
/// no one else is in either.
pub proof fn lemma_broadcast_sorts_all(order: Seq<u8>, took: Seq<bool>, targets: Set<u8>)
    requires
        took.len() == order.len(),
        order.no_duplicates(),
        forall|id: u8| order.contains(id) <==> targets.contains(id),
    ensures
        forall|id: u8|
            targets.contains(id) <==> (#[trigger] answered(order, took, true).contains(id)
                || answered(order, took, false).contains(id)),
        forall|id: u8|
            !(#[trigger] answered(order, took, true).contains(id) && answered(
                order,
                took,
                false,
            ).contains(id)),
{
    lemma_answered_partition(order, took);
    assert forall|id: u8|
        targets.contains(id) <==> (#[trigger] answered(order, took, true).contains(id) || answered(
            order,
            took,
            false,
        ).contains(id)) by {
        if targets.contains(id) {
            let i = choose|i: int| 0 <= i < order.len() && order[i] == id;
            assert(answered(order, took, took[i]).contains(order[i]));
        }
        if answered(order, took, true).contains(id) {
            let i = choose|i: int| 0 <= i < order.len() && order[i] == id && took[i] == true;
            assert(order.contains(id));
        }
        if answered(order, took, false).contains(id) {
            let i = choose|i: int| 0 <= i < order.len() && order[i] == id && took[i] == false;
            assert(order.contains(id));
        }
    }
    assert forall|id: u8|
        !(#[trigger] answered(order, took, true).contains(id) && answered(
            order,
            took,
            false,
        ).contains(id)) by {
        if answered(order, took, true).contains(id) && answered(order, took, false).contains(id) {
            let i = choose|i: int| 0 <= i < order.len() && order[i] == id && took[i] == true;
            let j = choose|j: int| 0 <= j < order.len() && order[j] == id && took[j] == false;
            assert(i != j);
        }
    }
}

/// Offers `frame` to the channel of each of `targets` without waiting;
/// returns the answers, one for each target in order. A target that is not
/// registered has no channel to take the frame, so its answer is no.
pub fn offer_each(state: &RelayState, frame: &[u8], targets: &Vec<u8>) -> (took: Vec<bool>)
    ensures
        took@.len() == targets@.len(),
        forall|k: int|
            0 <= k < targets@.len() && !state@.by_transient_id.contains_key(targets@[k])
                ==> !took@[k],
{
    let mut took: Vec<bool> = Vec::new();
    let mut k: usize = 0;
    while k < targets.len()
        invariant
            k <= targets@.len(),
            took@.len() == k,
            forall|j: int|
                0 <= j < k && !state@.by_transient_id.contains_key(targets@[j]) ==> !took@[j],
        decreases targets@.len() - k,
    {
        let answer = match state.client_by_id(targets[k]) {
            Some(session) => offer(&session.tx, frame),
            None => false,
        };
        took.push(answer);
        k += 1;
    }
    took
}

/// Takes in the answers of the recipients of a broadcast: those whose
/// channel refused the frame are evicted.
pub fn settle_broadcast(state: &mut RelayState, targets: &Vec<u8>, took: &Vec<bool>) -> (outcome:
    ServerRelay)
    requires
        old(state).wf(),
        took@.len() == targets@.len(),
    ensures
        final(state).wf(),
        match outcome {
            ServerRelay::Broadcast { accepted, evicted, freed } => {
                &&& accepted@ == answered(targets@, took@, true)
                &&& evicted@ == answered(targets@, took@, false)
                &&& final(state)@ == old(state)@.evict(evicted@)
                &&& freed@ == old(state)@.evicted_identities(evicted@)
            },
            _ => false,
        },
{
    let mut accepted: Vec<u8> = Vec::new();
    let mut evicted: Vec<u8> = Vec::new();
    let mut k: usize = 0;
    while k < targets.len()
        invariant
            k <= targets@.len(),
            took@.len() == targets@.len(),
            accepted@ == answered(targets@.take(k as int), took@.take(k as int), true),
            evicted@ == answered(targets@.take(k as int), took@.take(k as int), false),
        decreases targets@.len() - k,
    {
        proof {
            assert(targets@.take(k + 1).drop_last() =~= targets@.take(k as int));
            assert(took@.take(k + 1).drop_last() =~= took@.take(k as int));
        }
        if took[k] {
            accepted.push(targets[k]);
        } else {
            evicted.push(targets[k]);
        }
        k += 1;
    }
    proof {
        assert(targets@.take(k as int) =~= targets@);
        assert(took@.take(k as int) =~= took@);
    }
    let freed = state.evict(&evicted);
    ServerRelay::Broadcast { accepted, evicted, freed }
}

/// Whether `accepted` and `evicted` are the recipients `order`, sorted by
/// the answers `took`.
pub open spec fn sorted_by_answer(
    order: Seq<u8>,
    took: Seq<bool>,
    accepted: Seq<u8>,
    evicted: Seq<u8>,
) -> bool {
    &&& took.len() == order.len()
    &&& accepted == answered(order, took, true)
    &&& evicted == answered(order, took, false)
}

/// What a server's frame leaves behind: the outcome fits the plan for the
/// frame, and the registry changed by the evictions of a broadcast only.
///
/// The recipients of a broadcast were asked each once, in some order, and
/// sorted by their answers.
pub open spec fn server_frame_settled(
    before: Registry,
    after: Registry,
    sender_id: u8,
    payload: Seq<u8>,
    outcome: ServerRelay,
) -> bool {
    match (outcome, server_frame(before, sender_id, payload)) {
        (ServerRelay::Ignored(why), ServerFrame::Ignore(reason)) => why == reason && after == before,
        (ServerRelay::Rejected { notice }, ServerFrame::Reject) => {
            &&& notice.frame@ == notice_of("ERR:Exclude list too large"@)
            &&& after == before
        },
        (
            ServerRelay::Broadcast { accepted, evicted, freed },
            ServerFrame::Broadcast { frame, targets },
        ) => {
            &&& exists|order: Seq<u8>, took: Seq<bool>|
                {
                    &&& #[trigger] sorted_by_answer(order, took, accepted@, evicted@)
                    &&& order.no_duplicates()
                    &&& forall|id: u8| order.contains(id) <==> targets.contains(id)
                }
            &&& after == before.evict(evicted@)
            &&& freed@ == before.evicted_identities(evicted@)
        },
        (ServerRelay::Unicast(delivery), ServerFrame::Unicast { frame, target }) => {
            &&& delivery.frame@ == frame
            &&& *delivery.to == target
            &&& after == before
        },
        _ => false,
    }
}

/// Handles one frame of the server.
///
/// A broadcast is offered to every recipient without waiting, and those
/// whose channel refuses it are evicted once all were offered it. A frame
/// for one client is handed back for delivery with waiting.
pub fn relay_server_message(state: &mut RelayState, session: &Session, payload: &[u8]) -> (outcome:
    ServerRelay)
    requires
        old(state).wf(),
    ensures
        final(state).wf(),
        server_frame_settled(old(state)@, final(state)@, session.session_id, payload@, outcome),
{
    match plan_server_frame(state, session, payload) {
        ServerPlan::Ignore(why) => ServerRelay::Ignored(why),
        ServerPlan::Reject => ServerRelay::Rejected { notice: notify(&session.tx, exclude_notice()) },
        ServerPlan::Broadcast { frame, targets } => {
            let took = offer_each(state, frame.as_slice(), &targets);
            let outcome = settle_broadcast(state, &targets, &took);
            proof {
                let wanted = server_frame(old(state)@, session.session_id, payload@);
                assert(wanted is Broadcast);
                assert(outcome is Broadcast);
                assert(sorted_by_answer(
                    targets@,
                    took@,
                    outcome->accepted@,
                    outcome->evicted@,
                ));
            }
            outcome
        },
        ServerPlan::Unicast { frame, target } => ServerRelay::Unicast(
            Delivery { to: target, frame },
        ),
    }
}

} // verus!
