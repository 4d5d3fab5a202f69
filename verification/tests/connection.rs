use nova_relay::channel::Tx;
use nova_relay::connection::{
    announcement, check_admission, client_relay, close_session, greeting, register_session,
    server_relay, settle_unicast, too_large_notice, ClientStep, Flow, HandshakeError, Inbound,
    Refused, ServerStep,
};
use nova_relay::listener::{OpenFlag, ServerManager};
use nova_relay::relay::{ClientFrame, ServerRelay};
use nova_relay::session::{Role, Session, SessionAllocator};
use nova_relay::states::RelayState;
use std::sync::Arc;
use tokio::sync::mpsc::Receiver;

type Rx = Receiver<bytes::Bytes>;

fn channel(room: usize) -> (Tx, Rx) {
    tokio::sync::mpsc::channel(room)
}

fn received(rx: &mut Rx) -> Option<Vec<u8>> {
    rx.try_recv().ok().map(|frame| frame.to_vec())
}

fn notice(text: &str) -> Vec<u8> {
    let mut frame = vec![0x00, text.len() as u8, 0x00];
    frame.extend_from_slice(text.as_bytes());
    frame
}

fn listening() -> (ServerManager, [u8; 32]) {
    let mut manager = ServerManager::new();
    let (stop_tx, _stop_rx) = tokio::sync::oneshot::channel::<()>();
    manager.start_server(&mut OpenFlag::new(), 7000, stop_tx).unwrap();
    let secret = manager.listening(7000);
    (manager, secret)
}

fn server_request(secret: &[u8; 32]) -> Inbound {
    let mut payload = vec![0x01];
    payload.extend_from_slice(secret);
    Inbound::Binary(payload)
}

fn client_request(uuid: [u8; 16]) -> Inbound {
    let mut payload = vec![0x02];
    payload.extend_from_slice(&uuid);
    Inbound::Binary(payload)
}

fn sorted_ids(state: &RelayState) -> Vec<u8> {
    let mut ids = state.client_ids();
    ids.sort();
    ids
}

const U1: [u8; 16] = [
    0x12, 0x3e, 0x45, 0x67, 0xe8, 0x9b, 0x12, 0xd3, 0xa4, 0x56, 0x42, 0x66, 0x14, 0x17, 0x40, 0x00,
];

#[test]
fn greeting_names_the_identifier() {
    assert_eq!(greeting(1), notice("REGISTERED:1"));
    assert_eq!(greeting(42), notice("REGISTERED:42"));
    assert_eq!(greeting(255), notice("REGISTERED:255"));
    assert_eq!(greeting(0), notice("REGISTERED:0"));
}

#[test]
fn announcement_names_identifier_and_identity() {
    assert_eq!(
        announcement(7, &U1),
        notice("INFO:CLIENT_REGISTERED:7:123e4567-e89b-12d3-a456-426614174000")
    );
    assert_eq!(
        announcement(200, &[0; 16]),
        notice("INFO:CLIENT_REGISTERED:200:00000000-0000-0000-0000-000000000000")
    );
}

#[test]
fn server_then_clients_register() {
    let (manager, secret) = listening();
    let mut state = RelayState::new();
    let mut allocator = SessionAllocator::new();

    let (server_tx, mut server_rx) = channel(8);
    let registered =
        register_session(&mut state, &mut allocator, &manager, server_tx, &server_request(&secret))
            .unwrap();
    let server = registered.session.clone();
    assert_eq!(server.role, Role::Server);
    assert_eq!(server.client_id, None);
    assert_eq!(server.session_id, 1);
    assert_eq!(registered.greeting, notice("REGISTERED:1"));
    assert!(registered.announcement.is_none());
    assert!(Arc::ptr_eq(&state.get_server().unwrap(), &server));

    let (a_tx, mut a_rx) = channel(8);
    let registered =
        register_session(&mut state, &mut allocator, &manager, a_tx, &client_request(U1)).unwrap();
    let a = registered.session.clone();
    assert_eq!(a.role, Role::Client);
    assert_eq!(a.client_id, Some(U1));
    assert_eq!(a.session_id, 2);
    assert_eq!(registered.greeting, notice("REGISTERED:2"));
    let told = registered.announcement.unwrap();
    assert!(Arc::ptr_eq(&told.to, &server));
    assert_eq!(
        told.frame,
        notice("INFO:CLIENT_REGISTERED:2:123e4567-e89b-12d3-a456-426614174000")
    );
    assert!(Arc::ptr_eq(&state.client_by_id(2).unwrap(), &a));
    assert!(Arc::ptr_eq(&state.client_by_uuid(&U1).unwrap(), &a));

    let (b_tx, mut b_rx) = channel(8);
    let refused = register_session(&mut state, &mut allocator, &manager, b_tx, &client_request(U1));
    assert_eq!(refused.err().map(|r| r.error), Some(HandshakeError::DuplicateClient));
    assert_eq!(received(&mut b_rx), Some(notice("ERR:Duplicate Player")));
    assert_eq!(sorted_ids(&state), vec![2]);
    assert!(Arc::ptr_eq(&state.client_by_uuid(&U1).unwrap(), &a));
    assert!(state.client_by_id(3).is_none());
    assert_eq!(allocator.allocate(), Some(3));

    assert_eq!(received(&mut server_rx), None);
    assert_eq!(received(&mut a_rx), None);
}

#[test]
fn client_registers_without_a_server() {
    let (manager, _secret) = listening();
    let mut state = RelayState::new();
    let mut allocator = SessionAllocator::new();
    let (tx, _rx) = channel(8);
    let registered =
        register_session(&mut state, &mut allocator, &manager, tx, &client_request([9; 16]))
            .unwrap();
    assert_eq!(registered.session.session_id, 1);
    assert!(registered.announcement.is_none());
    assert_eq!(sorted_ids(&state), vec![1]);
}

#[test]
fn client_request_may_carry_more_than_the_identity() {
    let (manager, _secret) = listening();
    let mut state = RelayState::new();
    let mut allocator = SessionAllocator::new();
    let mut payload = vec![0x02];
    payload.extend_from_slice(&[7; 16]);
    payload.extend_from_slice(b"extra");
    let (tx, _rx) = channel(8);
    let registered =
        register_session(&mut state, &mut allocator, &manager, tx, &Inbound::Binary(payload))
            .unwrap();
    assert_eq!(registered.session.client_id, Some([7; 16]));
}

#[test]
fn secret_mismatch_leaves_the_server_slot_alone() {
    let (manager, secret) = listening();
    let mut state = RelayState::new();
    let mut allocator = SessionAllocator::new();
    let mut wrong = secret;
    wrong[31] ^= 1;
    let (tx, mut rx) = channel(8);
    let refused = register_session(&mut state, &mut allocator, &manager, tx, &server_request(&wrong));
    assert_eq!(refused.err().map(|r| r.error), Some(HandshakeError::SecretMismatch));
    assert_eq!(received(&mut rx), Some(notice("ERR:Invalid secret")));
    assert!(state.get_server().is_none());
    assert!(state.client_ids().is_empty());
    assert_eq!(allocator.allocate(), Some(1));
}

#[test]
fn second_server_is_refused_and_the_first_stays() {
    let (manager, secret) = listening();
    let mut state = RelayState::new();
    let mut allocator = SessionAllocator::new();
    let (tx, _rx) = channel(8);
    let first =
        register_session(&mut state, &mut allocator, &manager, tx, &server_request(&secret))
            .unwrap()
            .session;
    let (tx, mut rx) = channel(8);
    let refused =
        register_session(&mut state, &mut allocator, &manager, tx, &server_request(&secret));
    assert_eq!(refused.err().map(|r| r.error), Some(HandshakeError::ServerExists));
    assert_eq!(received(&mut rx), Some(notice("ERR:Server already registered")));
    assert!(Arc::ptr_eq(&state.get_server().unwrap(), &first));
    let (tx, _rx) = channel(8);
    let refused = register_session(&mut state, &mut allocator, &manager, tx, &server_request(&[0; 32]));
    assert_eq!(refused.err().map(|r| r.error), Some(HandshakeError::ServerExists));
    assert_eq!(allocator.allocate(), Some(2));
}

#[test]
fn server_request_without_a_listener_is_refused() {
    let manager = ServerManager::new();
    let mut state = RelayState::new();
    let mut allocator = SessionAllocator::new();
    let (tx, mut rx) = channel(8);
    let refused =
        register_session(&mut state, &mut allocator, &manager, tx, &server_request(&[0; 32]));
    assert_eq!(refused.err().map(|r| r.error), Some(HandshakeError::NoServerHandle));
    assert_eq!(received(&mut rx), None);
    assert!(state.get_server().is_none());
}

#[test]
fn short_requests_are_refused() {
    let (manager, secret) = listening();
    let mut state = RelayState::new();
    let mut allocator = SessionAllocator::new();

    let mut payload = vec![0x01];
    payload.extend_from_slice(&secret[..31]);
    let (tx, mut rx) = channel(8);
    let refused =
        register_session(&mut state, &mut allocator, &manager, tx, &Inbound::Binary(payload));
    assert_eq!(refused.err().map(|r| r.error), Some(HandshakeError::InvalidServerPacket));
    assert_eq!(received(&mut rx), None);

    let mut payload = vec![0x02];
    payload.extend_from_slice(&[7; 15]);
    let (tx, mut rx) = channel(8);
    let refused =
        register_session(&mut state, &mut allocator, &manager, tx, &Inbound::Binary(payload));
    assert_eq!(refused.err().map(|r| r.error), Some(HandshakeError::InvalidClientPacket));
    assert_eq!(received(&mut rx), Some(notice("ERR:Invalid register packet")));

    let (tx, _rx) = channel(8);
    let refused =
        register_session(&mut state, &mut allocator, &manager, tx, &Inbound::Binary(Vec::new()));
    assert_eq!(refused.err().map(|r| r.error), Some(HandshakeError::EmptyPacket));

    assert!(state.get_server().is_none());
    assert!(state.client_ids().is_empty());
    assert_eq!(allocator.allocate(), Some(1));
}

#[test]
fn first_message_of_another_kind_is_refused() {
    let (manager, _secret) = listening();
    let mut state = RelayState::new();
    let mut allocator = SessionAllocator::new();
    let cases = [
        (Inbound::TimedOut, HandshakeError::Timeout),
        (Inbound::Close, HandshakeError::ChannelClosed),
        (Inbound::Other, HandshakeError::InvalidPacket),
        (Inbound::Failed, HandshakeError::InvalidPacket),
        (Inbound::Binary(vec![0x10, 1, 2]), HandshakeError::NotRegisterPacket),
        (Inbound::Binary(vec![0x00]), HandshakeError::NotRegisterPacket),
        (Inbound::Binary(vec![0x03; 40]), HandshakeError::NotRegisterPacket),
    ];
    for (first, want) in cases {
        let (tx, mut rx) = channel(8);
        let refused = register_session(&mut state, &mut allocator, &manager, tx, &first);
        assert_eq!(refused.err().map(|r| r.error), Some(want));
        assert_eq!(received(&mut rx), None);
    }
    assert!(state.get_server().is_none());
    assert!(state.client_ids().is_empty());
    assert_eq!(allocator.allocate(), Some(1));
}

#[test]
fn registration_fails_when_identifiers_run_out() {
    let (manager, secret) = listening();
    let mut state = RelayState::new();
    let mut allocator = SessionAllocator::new();
    while allocator.allocate().is_some() {}
    let (tx, mut rx) = channel(8);
    let refused = register_session(&mut state, &mut allocator, &manager, tx, &client_request(U1));
    assert_eq!(refused.err().map(|r| r.error), Some(HandshakeError::NoSessionId));
    assert_eq!(received(&mut rx), None);
    assert!(state.client_ids().is_empty());
    let (tx, _rx) = channel(8);
    let refused =
        register_session(&mut state, &mut allocator, &manager, tx, &server_request(&secret));
    assert_eq!(refused.err().map(|r| r.error), Some(HandshakeError::NoSessionId));
    assert!(state.get_server().is_none());
}

#[test]
fn registration_fails_when_the_identifier_is_in_the_registry() {
    let (manager, _secret) = listening();
    let mut state = RelayState::new();
    let mut allocator = SessionAllocator::new();
    let (tx, _rx) = channel(8);
    state.register_client(Session::new(tx, Role::Client, Some([1; 16]), 1)).unwrap();
    let (tx, _rx) = channel(8);
    let refused = register_session(&mut state, &mut allocator, &manager, tx, &client_request(U1));
    assert_eq!(refused.err().map(|r| r.error), Some(HandshakeError::NoSessionId));
    assert_eq!(sorted_ids(&state), vec![1]);
    assert!(state.client_by_uuid(&U1).is_none());
    assert_eq!(allocator.allocate(), Some(2));
}

#[test]
fn check_admission_reads_the_identity() {
    let (manager, secret) = listening();
    let state = RelayState::new();
    assert_eq!(
        check_admission(&state, &manager, &client_request(U1)),
        Ok((Role::Client, Some(U1)))
    );
    assert_eq!(
        check_admission(&state, &manager, &server_request(&secret)),
        Ok((Role::Server, None))
    );
    assert_eq!(
        check_admission(&state, &manager, &server_request(&[1; 32])),
        Err(HandshakeError::SecretMismatch)
    );
}

#[test]
fn handshake_error_messages() {
    let cases = [
        (HandshakeError::Timeout, "Registry Timeout"),
        (HandshakeError::ChannelClosed, "Channel closed"),
        (HandshakeError::InvalidPacket, "Invalid register packet"),
        (HandshakeError::EmptyPacket, "Empty register packet"),
        (HandshakeError::InvalidServerPacket, "Invalid server register packet"),
        (HandshakeError::ServerExists, "Server already exists"),
        (HandshakeError::NoServerHandle, "No server handle"),
        (HandshakeError::SecretMismatch, "Server secret mismatch"),
        (HandshakeError::NoSessionId, "No session id allocated"),
        (HandshakeError::InvalidClientPacket, "Invalid client register packet"),
        (HandshakeError::DuplicateClient, "Duplicate client UUID"),
        (HandshakeError::NotRegisterPacket, "Not a register packet"),
    ];
    for (error, text) in cases {
        assert_eq!(error.message(), text);
    }
}

#[test]
fn handshake_error_notices() {
    assert_eq!(
        HandshakeError::ServerExists.notice(),
        Some(notice("ERR:Server already registered"))
    );
    assert_eq!(HandshakeError::SecretMismatch.notice(), Some(notice("ERR:Invalid secret")));
    assert_eq!(
        HandshakeError::InvalidClientPacket.notice(),
        Some(notice("ERR:Invalid register packet"))
    );
    assert_eq!(HandshakeError::DuplicateClient.notice(), Some(notice("ERR:Duplicate Player")));
    for silent in [
        HandshakeError::Timeout,
        HandshakeError::ChannelClosed,
        HandshakeError::InvalidPacket,
        HandshakeError::EmptyPacket,
        HandshakeError::InvalidServerPacket,
        HandshakeError::NoServerHandle,
        HandshakeError::NoSessionId,
        HandshakeError::NotRegisterPacket,
    ] {
        assert_eq!(silent.notice(), None);
    }
}

/// A server (id 1) and clients A (id 2) and B (id 3), registered by
/// handshake.
fn relaying() -> (RelayState, SessionAllocator, Vec<(Arc<Session>, Rx)>) {
    let (manager, secret) = listening();
    let mut state = RelayState::new();
    let mut allocator = SessionAllocator::new();
    let mut peers = Vec::new();
    for first in [server_request(&secret), client_request([0xaa; 16]), client_request([0xbb; 16])] {
        let (tx, rx) = channel(8);
        let registered =
            register_session(&mut state, &mut allocator, &manager, tx, &first).unwrap();
        peers.push((registered.session, rx));
    }
    (state, allocator, peers)
}

#[test]
fn unicast_after_handshake_reaches_only_its_target() {
    let (mut state, _allocator, mut peers) = relaying();
    let server = peers[0].0.clone();
    let a = peers[1].0.clone();
    let frame = Inbound::Binary(vec![0x12, a.session_id, b'h', b'i']);
    let ServerStep { flow, relayed, .. } = server_relay(&mut state, &server, &frame);
    assert_eq!(flow, Flow::Continue);
    match relayed {
        Some(ServerRelay::Unicast(delivery)) => {
            assert!(Arc::ptr_eq(&delivery.to, &a));
            assert_eq!(delivery.frame, vec![0x11, server.session_id, b'h', b'i']);
        },
        _ => panic!("not a unicast"),
    }
    assert_eq!(received(&mut peers[1].1), None);
    assert_eq!(received(&mut peers[2].1), None);
}

#[test]
fn client_relay_forwards_and_goes_on() {
    let (state, _allocator, mut peers) = relaying();
    let a = peers[1].0.clone();
    let ClientStep { flow, relayed, .. } = client_relay(&state, &a, &Inbound::Binary(vec![0x10, 2, 0x55]));
    assert_eq!(flow, Flow::Continue);
    let relayed = relayed.unwrap();
    assert_eq!(relayed.verdict, ClientFrame::Forward);
    assert!(relayed.accepted);
    assert_eq!(received(&mut peers[0].1), Some(vec![0x10, 2, 0x55]));
}

#[test]
fn client_relay_stops_on_a_spoofed_frame() {
    let (state, _allocator, mut peers) = relaying();
    let a = peers[1].0.clone();
    let ClientStep { flow, relayed, .. } = client_relay(&state, &a, &Inbound::Binary(vec![0x10, 3, 0x55]));
    assert_eq!(flow, Flow::Stop);
    assert_eq!(relayed.unwrap().verdict, ClientFrame::Spoofed);
    assert_eq!(received(&mut peers[0].1), None);
}

#[test]
fn client_relay_goes_on_after_a_dropped_frame() {
    let (state, _allocator, peers) = relaying();
    let a = peers[1].0.clone();
    for payload in [vec![], vec![0x10], vec![0x11, 2, 1], vec![0xff; 10]] {
        let ClientStep { flow, relayed, .. } = client_relay(&state, &a, &Inbound::Binary(payload));
        assert_eq!(flow, Flow::Continue);
        assert!(!relayed.unwrap().accepted);
    }
}

#[test]
fn relaying_stops_on_close_and_failure() {
    let (mut state, _allocator, peers) = relaying();
    let server = peers[0].0.clone();
    let a = peers[1].0.clone();
    assert_eq!(client_relay(&state, &a, &Inbound::Close).flow, Flow::Stop);
    assert_eq!(client_relay(&state, &a, &Inbound::Failed).flow, Flow::Stop);
    assert_eq!(client_relay(&state, &a, &Inbound::Other).flow, Flow::Continue);
    assert_eq!(client_relay(&state, &a, &Inbound::TimedOut).flow, Flow::Continue);
    assert_eq!(server_relay(&mut state, &server, &Inbound::Close).flow, Flow::Stop);
    assert_eq!(server_relay(&mut state, &server, &Inbound::Failed).flow, Flow::Stop);
    assert_eq!(server_relay(&mut state, &server, &Inbound::Other).flow, Flow::Continue);
    assert_eq!(server_relay(&mut state, &server, &Inbound::TimedOut).flow, Flow::Continue);
    assert!(client_relay(&state, &a, &Inbound::Close).relayed.is_none());
    assert!(server_relay(&mut state, &server, &Inbound::Other).relayed.is_none());
}

#[test]
fn oversize_payload_ends_the_relaying_with_a_notice() {
    let (mut state, _allocator, mut peers) = relaying();
    let server = peers[0].0.clone();
    let a = peers[1].0.clone();
    let mut big = vec![0x10, 2];
    big.resize(6145, 0);
    let ClientStep { flow, relayed, .. } = client_relay(&state, &a, &Inbound::Binary(big));
    assert_eq!(flow, Flow::Stop);
    assert!(relayed.is_none());
    assert_eq!(received(&mut peers[1].1), Some(notice("ERR:Payload too large")));
    assert_eq!(received(&mut peers[0].1), None);
    assert_eq!(too_large_notice(), notice("ERR:Payload too large"));

    let mut big = vec![0x11, 1];
    big.resize(6145, 0);
    let ServerStep { flow, relayed, .. } = server_relay(&mut state, &server, &Inbound::Binary(big));
    assert_eq!(flow, Flow::Stop);
    assert!(relayed.is_none());
    assert_eq!(received(&mut peers[0].1), Some(notice("ERR:Payload too large")));
    assert_eq!(received(&mut peers[2].1), None);
}

#[test]
fn payload_of_the_largest_size_is_relayed() {
    let (mut state, _allocator, mut peers) = relaying();
    let server = peers[0].0.clone();
    let a = peers[1].0.clone();
    let mut frame = vec![0x10, 2];
    frame.resize(6144, 7);
    let ClientStep { flow, relayed, .. } = client_relay(&state, &a, &Inbound::Binary(frame.clone()));
    assert_eq!(flow, Flow::Continue);
    assert!(relayed.unwrap().accepted);
    assert_eq!(received(&mut peers[0].1), Some(frame));
    let mut frame = vec![0x11];
    frame.resize(6144, 7);
    let ServerStep { flow, relayed, .. } =
        server_relay(&mut state, &server, &Inbound::Binary(frame.clone()));
    assert_eq!(flow, Flow::Continue);
    assert!(matches!(relayed, Some(ServerRelay::Broadcast { .. })));
    let mut want = vec![0x11, 1];
    want.extend_from_slice(&frame[1..]);
    assert_eq!(received(&mut peers[1].1), Some(want));
}

#[test]
fn relaying_stops_once_shutdown_is_scheduled() {
    let (mut state, _allocator, mut peers) = relaying();
    let server = peers[0].0.clone();
    let a = peers[1].0.clone();
    state.schedule_shutdown();
    let ClientStep { flow, relayed, .. } = client_relay(&state, &a, &Inbound::Binary(vec![0x10, 2, 1]));
    assert_eq!(flow, Flow::Stop);
    assert!(relayed.is_none());
    let ServerStep { flow, relayed, .. } = server_relay(&mut state, &server, &Inbound::Binary(vec![0x11, 1, 1]));
    assert_eq!(flow, Flow::Stop);
    assert!(relayed.is_none());
    assert_eq!(server_relay(&mut state, &server, &Inbound::Other).flow, Flow::Stop);
    for (_, rx) in peers.iter_mut() {
        assert_eq!(received(rx), None);
    }
}

#[test]
fn closing_a_client_frees_indices_and_identifier() {
    let (mut state, mut allocator, peers) = relaying();
    let a = peers[1].0.clone();
    assert_eq!(close_session(&mut state, &mut allocator, &a), Some([0xaa; 16]));
    assert_eq!(sorted_ids(&state), vec![3]);
    assert!(state.client_by_uuid(&[0xaa; 16]).is_none());
    assert!(state.get_server().is_some());
    assert_eq!(allocator.allocate(), Some(2));
}

#[test]
fn closing_an_evicted_client_still_frees_its_identifier() {
    let (mut state, mut allocator, peers) = relaying();
    let b = peers[2].0.clone();
    state.remove_by_id(3);
    assert_eq!(close_session(&mut state, &mut allocator, &b), None);
    assert_eq!(sorted_ids(&state), vec![2]);
    assert_eq!(allocator.allocate(), Some(3));
}

#[test]
fn closing_the_server_vacates_its_slot() {
    let (mut state, mut allocator, peers) = relaying();
    let server = peers[0].0.clone();
    assert_eq!(close_session(&mut state, &mut allocator, &server), None);
    assert!(state.get_server().is_none());
    assert_eq!(sorted_ids(&state), vec![2, 3]);
    assert_eq!(allocator.allocate(), Some(1));
}

#[test]
fn closing_a_stale_server_leaves_the_new_one() {
    let (mut state, mut allocator, peers) = relaying();
    let stale = peers[0].0.clone();
    state.clear_server();
    let (tx, _rx) = channel(1);
    let fresh = Session::new(tx, Role::Server, None, 9);
    state.register_server(fresh.clone()).unwrap();
    assert_eq!(close_session(&mut state, &mut allocator, &stale), None);
    assert!(Arc::ptr_eq(&state.get_server().unwrap(), &fresh));
    assert_eq!(allocator.allocate(), Some(1));
}

#[test]
fn delivered_unicast_leaves_the_registry_alone() {
    let (mut state, _allocator, peers) = relaying();
    let a = peers[1].0.clone();
    assert_eq!(settle_unicast(&mut state, &a, true), None);
    assert_eq!(sorted_ids(&state), vec![2, 3]);
}

#[test]
fn failed_unicast_evicts_its_target() {
    let (mut state, _allocator, peers) = relaying();
    let a = peers[1].0.clone();
    assert_eq!(settle_unicast(&mut state, &a, false), Some([0xaa; 16]));
    assert_eq!(sorted_ids(&state), vec![3]);
    assert!(state.client_by_uuid(&[0xaa; 16]).is_none());
    assert_eq!(settle_unicast(&mut state, &a, false), None);
    assert_eq!(sorted_ids(&state), vec![3]);
}

#[test]
fn failed_unicast_spares_a_successor_with_the_same_identifier() {
    let (mut state, _allocator, peers) = relaying();
    let a = peers[1].0.clone();
    state.remove_by_id(2);
    let (tx, _rx) = channel(1);
    state.register_client(Session::new(tx, Role::Client, Some([0xcc; 16]), 2)).unwrap();
    assert_eq!(settle_unicast(&mut state, &a, false), None);
    assert_eq!(sorted_ids(&state), vec![2, 3]);
    assert!(state.client_by_uuid(&[0xcc; 16]).is_some());
}

#[test]
fn refusal_carries_the_notice_that_was_offered() {
    let (manager, _secret) = listening();
    let mut state = RelayState::new();
    let mut allocator = SessionAllocator::new();
    let (tx, _rx) = channel(8);
    register_session(&mut state, &mut allocator, &manager, tx, &client_request(U1)).unwrap();
    let (tx, mut rx) = channel(8);
    let Refused { error, notice: offered } =
        register_session(&mut state, &mut allocator, &manager, tx, &client_request(U1))
            .err()
            .unwrap();
    assert_eq!(error, HandshakeError::DuplicateClient);
    let offered = offered.unwrap();
    assert!(offered.accepted);
    assert_eq!(offered.frame, notice("ERR:Duplicate Player"));
    assert_eq!(received(&mut rx), Some(notice("ERR:Duplicate Player")));
    let (tx, _rx) = channel(8);
    let refused = register_session(&mut state, &mut allocator, &manager, tx, &Inbound::Close)
        .err()
        .unwrap();
    assert_eq!(refused.error, HandshakeError::ChannelClosed);
    assert!(refused.notice.is_none());
}

#[test]
fn oversize_step_carries_its_notice() {
    let (mut state, _allocator, mut peers) = relaying();
    let server = peers[0].0.clone();
    let a = peers[1].0.clone();
    let step = client_relay(&state, &a, &Inbound::Binary(vec![0x10; 6145]));
    assert_eq!(step.flow, Flow::Stop);
    assert!(step.relayed.is_none());
    let offered = step.notice.unwrap();
    assert!(offered.accepted);
    assert_eq!(offered.frame, notice("ERR:Payload too large"));
    assert_eq!(received(&mut peers[1].1), Some(notice("ERR:Payload too large")));
    let step = server_relay(&mut state, &server, &Inbound::Binary(vec![0x11; 7000]));
    assert_eq!(step.notice.unwrap().frame, notice("ERR:Payload too large"));
    let step = client_relay(&state, &a, &Inbound::Binary(vec![0x10, 2, 1]));
    assert!(step.notice.is_none());
    let step = server_relay(&mut state, &server, &Inbound::Close);
    assert!(step.notice.is_none());
}

#[test]
fn spoofed_frame_ends_the_relaying_without_a_server_too() {
    let (mut state, _allocator, peers) = relaying();
    let a = peers[1].0.clone();
    state.clear_server();
    let step = client_relay(&state, &a, &Inbound::Binary(vec![0x10, 3, 0x55]));
    assert_eq!(step.flow, Flow::Stop);
    assert_eq!(step.relayed.unwrap().verdict, ClientFrame::Spoofed);
    let step = client_relay(&state, &a, &Inbound::Binary(vec![0x10, 3]));
    assert_eq!(step.flow, Flow::Stop);
    let step = client_relay(&state, &a, &Inbound::Binary(vec![0x10, 2, 0x55]));
    assert_eq!(step.flow, Flow::Continue);
    assert_eq!(step.relayed.unwrap().verdict, ClientFrame::NoServer);
}
