use ic_websocket_gateway::error::GatewayError;
use ic_websocket_gateway::handler::{ConnectionHandler, Phase};
use ic_websocket_gateway::handshake::Handshake;
use ic_websocket_gateway::ident::{BackendAddress, ClientId};
use ic_websocket_gateway::message::{Frame, Message};
use ic_websocket_gateway::registry::{Deregistration, GatewayState, PollerDirective};
use ring::signature::{Ed25519KeyPair, KeyPair};

const IDENTITY: [u8; 3] = [42, 43, 44];

fn pair(n: u8) -> Ed25519KeyPair {
    Ed25519KeyPair::from_seed_unchecked(&[n; 32]).unwrap()
}

fn client_of(n: u8) -> ClientId {
    ClientId::from_session_key(pair(n).public_key().as_ref())
}

fn canister(n: u8) -> BackendAddress {
    BackendAddress::new(b"http://127.0.0.1:4943", &[n; 10])
}

fn signed_handshake(n: u8, to: BackendAddress) -> Handshake {
    let key = pair(n);
    let mut handshake =
        Handshake { backend: to, session_key: key.public_key().as_ref().to_vec(), signature: vec![] };
    let payload = handshake.signed_payload().unwrap();
    handshake.signature = key.sign(&payload).as_ref().to_vec();
    handshake
}

fn handler() -> ConnectionHandler {
    ConnectionHandler::new(2, 4, IDENTITY.to_vec())
}

fn registered(n: u8, state: &mut GatewayState) -> ConnectionHandler {
    let mut h = handler();
    let reply = h.on_handshake(state, signed_handshake(n, canister(1)));
    assert!(reply.result.is_ok());
    h
}

fn to(n: u8, sequence: u64) -> Message {
    Message { client: client_of(n), sequence, payload: vec![sequence as u8], proof: vec![] }
}

fn frame(sequence: u64) -> Frame {
    Frame { sequence, payload: vec![sequence as u8] }
}

#[test]
fn a_signed_handshake_registers_the_client() {
    let mut state = GatewayState::new();
    let mut h = handler();
    assert_eq!(h.phase(), Phase::AwaitingHandshake);
    let reply = h.on_handshake(&mut state, signed_handshake(1, canister(1)));
    assert_eq!(reply.result, Ok(PollerDirective::Start));
    assert_eq!(reply.gateway_identity, IDENTITY.to_vec());
    assert_eq!(h.phase(), Phase::Registered);
    assert_eq!(h.reason(), None);
    assert!(state.is_registered(&client_of(1)));
    assert_eq!(state.backend_of(&client_of(1)), Some(canister(1)));
    assert!(state.has_poller(&canister(1)));
    let mut second = handler();
    let reply = second.on_handshake(&mut state, signed_handshake(2, canister(1)));
    assert_eq!(reply.result, Ok(PollerDirective::Reuse));
}

#[test]
fn a_handshake_with_a_wrong_signature_is_invalid() {
    let mut state = GatewayState::new();
    let mut forged = signed_handshake(1, canister(1));
    forged.signature[5] ^= 0x10;
    let mut h = handler();
    let reply = h.on_handshake(&mut state, forged);
    assert_eq!(reply.result, Err(GatewayError::InvalidHandshake));
    assert_eq!(h.phase(), Phase::Closed);
    assert_eq!(h.reason(), Some(GatewayError::InvalidHandshake));
    assert!(!state.is_registered(&client_of(1)));
    assert!(!state.has_poller(&canister(1)));
}

#[test]
fn a_signature_over_another_backend_is_invalid() {
    let mut state = GatewayState::new();
    let mut moved = signed_handshake(1, canister(1));
    moved.backend = canister(2);
    let mut h = handler();
    assert_eq!(h.on_handshake(&mut state, moved).result, Err(GatewayError::InvalidHandshake));
    assert!(!state.has_poller(&canister(2)));
}

#[test]
fn a_handshake_for_a_malformed_backend_is_invalid() {
    let mut state = GatewayState::new();
    let nowhere = BackendAddress::new(b"", &[1; 10]);
    let mut h = handler();
    let reply = h.on_handshake(&mut state, signed_handshake(1, nowhere));
    assert_eq!(reply.result, Err(GatewayError::InvalidHandshake));
    let nobody = BackendAddress::new(b"http://127.0.0.1:4943", &[1; 30]);
    let mut h = handler();
    let reply = h.complete_handshake(&mut state, signed_handshake(1, nobody), true);
    assert_eq!(reply.result, Err(GatewayError::InvalidHandshake));
    assert_eq!(h.phase(), Phase::Closed);
}

#[test]
fn the_verdict_follows_the_signature_check() {
    let mut state = GatewayState::new();
    let mut h = handler();
    let unsigned = Handshake { backend: canister(1), session_key: vec![1; 32], signature: vec![] };
    let reply = h.complete_handshake(&mut state, unsigned.clone(), false);
    assert_eq!(reply.result, Err(GatewayError::InvalidHandshake));
    let mut h = handler();
    let reply = h.complete_handshake(&mut state, unsigned, true);
    assert_eq!(reply.result, Ok(PollerDirective::Start));
    assert_eq!(h.phase(), Phase::Registered);
}

#[test]
fn a_late_handshake_is_invalid() {
    let mut state = GatewayState::new();
    let mut h = handler();
    h.on_handshake_timeout();
    assert_eq!(h.phase(), Phase::Closed);
    assert_eq!(h.reason(), Some(GatewayError::InvalidHandshake));
    let reply = h.on_handshake(&mut state, signed_handshake(1, canister(1)));
    assert_eq!(reply.result, Err(GatewayError::InvalidHandshake));
    assert!(!state.is_registered(&client_of(1)));
    assert_eq!(h.close(&mut state).code, Some(4001));
}

#[test]
fn a_timeout_after_the_handshake_means_nothing() {
    let mut state = GatewayState::new();
    let mut h = registered(1, &mut state);
    h.on_handshake_timeout();
    assert_eq!(h.phase(), Phase::Registered);
    assert_eq!(h.reason(), None);
}

#[test]
fn a_second_connection_of_a_client_is_a_duplicate() {
    let mut state = GatewayState::new();
    let mut first = registered(1, &mut state);
    let mut second = handler();
    let reply = second.on_handshake(&mut state, signed_handshake(1, canister(1)));
    assert_eq!(reply.result, Err(GatewayError::DuplicateClient));
    assert_eq!(second.phase(), Phase::Closed);
    assert_eq!(second.reason(), Some(GatewayError::DuplicateClient));
    let notice = second.close(&mut state);
    assert_eq!(notice.code, Some(4002));
    assert_eq!(notice.released, Deregistration::NotRegistered);
    assert!(state.is_registered(&client_of(1)));
    assert_eq!(state.route_to_client(to(1, 1)), Ok(()));
    assert_eq!(first.receive(&mut state), vec![frame(1)]);
}

#[test]
fn frames_reach_the_client_in_order() {
    let mut state = GatewayState::new();
    let mut h = registered(1, &mut state);
    for n in [2u64, 1, 3] {
        assert_eq!(state.route_to_client(to(1, n)), Ok(()));
    }
    assert_eq!(h.receive(&mut state), vec![]);
    assert_eq!(h.last_delivered(), 0);
    assert_eq!(h.receive(&mut state), vec![frame(1), frame(2)]);
    assert_eq!(h.receive(&mut state), vec![frame(3)]);
    assert_eq!(h.receive(&mut state), vec![]);
    assert_eq!(h.last_delivered(), 3);
    assert_eq!(h.phase(), Phase::Registered);
    assert_eq!(state.last_delivered(&client_of(1)), Some(3));
}

#[test]
fn a_gap_beyond_the_window_resets_the_connection() {
    let mut state = GatewayState::new();
    let mut h = registered(1, &mut state);
    assert_eq!(state.route_to_client(to(1, 4)), Ok(()));
    assert_eq!(h.receive(&mut state), vec![]);
    assert_eq!(h.phase(), Phase::Draining);
    assert_eq!(h.reason(), Some(GatewayError::SequenceGap));
    assert_eq!(h.receive(&mut state), vec![]);
    let notice = h.close(&mut state);
    assert_eq!(notice.code, Some(4003));
    assert_eq!(notice.released, Deregistration::Removed { backend: canister(1), stop_poller: true });
    assert_eq!(h.phase(), Phase::Closed);
    assert!(!state.is_registered(&client_of(1)));
}

#[test]
fn a_full_queue_closes_the_slow_consumer() {
    let mut state = GatewayState::new();
    let mut h = registered(1, &mut state);
    for n in 1..=4u64 {
        assert_eq!(state.route_to_client(to(1, n)), Ok(()));
    }
    assert_eq!(state.route_to_client(to(1, 5)), Err(GatewayError::SlowConsumer));
    assert_eq!(h.receive(&mut state), vec![]);
    assert_eq!(h.phase(), Phase::Draining);
    assert_eq!(h.reason(), Some(GatewayError::SlowConsumer));
    assert_eq!(h.close(&mut state).code, Some(4004));
}

#[test]
fn a_fault_of_one_client_does_not_reach_the_other() {
    let mut state = GatewayState::new();
    let mut a = registered(1, &mut state);
    let mut b = registered(2, &mut state);
    assert_eq!(state.route_to_client(to(2, 1)), Ok(()));
    assert_eq!(state.route_to_client(to(1, 9)), Ok(()));
    assert_eq!(a.receive(&mut state), vec![]);
    assert_eq!(a.reason(), Some(GatewayError::SequenceGap));
    let notice = a.close(&mut state);
    assert_eq!(notice.released, Deregistration::Removed { backend: canister(1), stop_poller: false });
    assert_eq!(state.route_to_client(to(2, 2)), Ok(()));
    assert_eq!(b.receive(&mut state), vec![frame(1)]);
    assert_eq!(b.receive(&mut state), vec![frame(2)]);
    assert_eq!(b.phase(), Phase::Registered);
    assert!(state.has_poller(&canister(1)));
    assert_eq!(state.snapshot(&canister(1)), vec![client_of(2)]);
}

#[test]
fn a_registration_that_is_gone_ends_the_connection() {
    let mut state = GatewayState::new();
    let mut h = registered(1, &mut state);
    assert!(matches!(state.deregister(&client_of(1)), Deregistration::Removed { .. }));
    assert_eq!(h.receive(&mut state), vec![]);
    assert_eq!(h.phase(), Phase::Draining);
    assert_eq!(h.reason(), None);
    let notice = h.close(&mut state);
    assert_eq!(notice.code, None);
    assert_eq!(notice.released, Deregistration::NotRegistered);
}

#[test]
fn a_stream_error_drains_and_closing_deregisters_once() {
    let mut state = GatewayState::new();
    let mut a = registered(1, &mut state);
    let _b = registered(2, &mut state);
    a.on_stream_error();
    assert_eq!(a.phase(), Phase::Draining);
    assert_eq!(a.on_client_frame(vec![1]), None);
    let notice = a.close(&mut state);
    assert_eq!(notice.code, None);
    assert_eq!(notice.released, Deregistration::Removed { backend: canister(1), stop_poller: false });
    let mut again = registered(1, &mut state);
    let second = a.close(&mut state);
    assert_eq!(second.released, Deregistration::NotRegistered);
    assert!(state.is_registered(&client_of(1)));
    assert_eq!(again.receive(&mut state), vec![]);
    assert_eq!(again.phase(), Phase::Registered);
}

#[test]
fn a_stream_error_before_the_handshake_closes_at_once() {
    let mut h = handler();
    h.on_stream_error();
    assert_eq!(h.phase(), Phase::Closed);
    assert_eq!(h.reason(), None);
    h.on_stream_error();
    assert_eq!(h.phase(), Phase::Closed);
}

#[test]
fn client_frames_are_forwarded_as_they_are() {
    let mut state = GatewayState::new();
    let mut h = handler();
    assert_eq!(h.on_client_frame(vec![1, 2]), None);
    h.on_handshake(&mut state, signed_handshake(1, canister(3)));
    let submission = h.on_client_frame(vec![1, 2, 3]).unwrap();
    assert_eq!(submission.backend, canister(3));
    assert_eq!(submission.client, client_of(1));
    assert_eq!(submission.payload, vec![1, 2, 3]);
    h.close(&mut state);
    assert_eq!(h.on_client_frame(vec![1, 2]), None);
}

#[test]
fn nothing_is_received_before_the_handshake() {
    let mut state = GatewayState::new();
    let mut other = registered(1, &mut state);
    assert_eq!(state.route_to_client(to(1, 1)), Ok(()));
    let mut h = handler();
    assert_eq!(h.receive(&mut state), vec![]);
    assert_eq!(h.phase(), Phase::AwaitingHandshake);
    assert_eq!(other.receive(&mut state), vec![frame(1)]);
}

#[test]
fn the_first_frame_is_read_as_a_handshake() {
    let mut state = GatewayState::new();
    let bytes = signed_handshake(1, canister(1)).encode().unwrap();
    let mut h = handler();
    let reply = h.on_first_frame(&mut state, &bytes);
    assert_eq!(reply.result, Ok(PollerDirective::Start));
    assert_eq!(reply.gateway_identity, IDENTITY.to_vec());
    assert_eq!(h.phase(), Phase::Registered);
    let held = h.registration().unwrap();
    assert_eq!(held.client, client_of(1));
    assert_eq!(held.backend, canister(1));
    assert!(state.is_registered(&client_of(1)));
}

#[test]
fn a_first_frame_that_holds_no_handshake_is_invalid() {
    let mut state = GatewayState::new();
    let mut bytes = signed_handshake(1, canister(1)).encode().unwrap();
    bytes.pop();
    for garbage in [bytes, vec![], vec![0, 1, 2, 3]] {
        let mut h = handler();
        let reply = h.on_first_frame(&mut state, &garbage);
        assert_eq!(reply.result, Err(GatewayError::InvalidHandshake));
        assert_eq!(reply.gateway_identity, IDENTITY.to_vec());
        assert_eq!(h.phase(), Phase::Closed);
        assert_eq!(h.reason(), Some(GatewayError::InvalidHandshake));
        assert!(h.registration().is_none());
    }
    assert!(!state.is_registered(&client_of(1)));
    assert!(!state.has_poller(&canister(1)));
}

#[test]
fn a_second_handshake_on_a_registered_connection_changes_nothing() {
    let mut state = GatewayState::new();
    let mut h = registered(1, &mut state);
    let reply = h.on_handshake(&mut state, signed_handshake(2, canister(2)));
    assert_eq!(reply.result, Err(GatewayError::InvalidHandshake));
    assert_eq!(h.phase(), Phase::Registered);
    assert_eq!(h.reason(), None);
    assert!(!state.is_registered(&client_of(2)));
    assert_eq!(h.registration().unwrap().client, client_of(1));
}
