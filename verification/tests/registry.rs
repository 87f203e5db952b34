use ic_websocket_gateway::error::GatewayError;
use ic_websocket_gateway::ident::{BackendAddress, ClientId};
use ic_websocket_gateway::message::Message;
use ic_websocket_gateway::registry::{Deregistration, GatewayState, Inbound, PollerDirective};

fn client(n: u8) -> ClientId {
    ClientId::from_session_key(&[n; 32])
}

fn backend(n: u8) -> BackendAddress {
    BackendAddress::new(b"http://127.0.0.1:4943", &[n; 10])
}

fn message(to: u8, sequence: u64) -> Message {
    Message { client: client(to), sequence, payload: vec![to, sequence as u8], proof: vec![] }
}

#[test]
fn first_client_starts_the_poller_and_the_second_reuses_it() {
    let mut state = GatewayState::new();
    let first = state.register(client(1), backend(1), 4).unwrap();
    assert_eq!(first.poller, PollerDirective::Start);
    assert_eq!(first.client, client(1));
    assert_eq!(first.backend, backend(1));
    let second = state.register(client(2), backend(1), 4).unwrap();
    assert_eq!(second.poller, PollerDirective::Reuse);
    let elsewhere = state.register(client(3), backend(2), 4).unwrap();
    assert_eq!(elsewhere.poller, PollerDirective::Start);
}

#[test]
fn registering_twice_is_refused() {
    let mut state = GatewayState::new();
    state.register(client(1), backend(1), 4).unwrap();
    assert_eq!(state.register(client(1), backend(2), 4), Err(GatewayError::AlreadyRegistered));
    assert_eq!(state.snapshot(&backend(1)), vec![client(1)]);
    assert_eq!(state.snapshot(&backend(2)), Vec::<ClientId>::new());
}

#[test]
fn deregistering_the_last_client_stops_the_poller() {
    let mut state = GatewayState::new();
    state.register(client(1), backend(1), 4).unwrap();
    state.register(client(2), backend(1), 4).unwrap();
    assert_eq!(
        state.deregister(&client(1)),
        Deregistration::Removed { backend: backend(1), stop_poller: false }
    );
    assert_eq!(
        state.deregister(&client(2)),
        Deregistration::Removed { backend: backend(1), stop_poller: true }
    );
    assert_eq!(state.snapshot(&backend(1)), Vec::<ClientId>::new());
    let again = state.register(client(1), backend(1), 4).unwrap();
    assert_eq!(again.poller, PollerDirective::Start);
}

#[test]
fn deregistering_twice_or_an_unknown_client_changes_nothing() {
    let mut state = GatewayState::new();
    state.register(client(1), backend(1), 4).unwrap();
    state.register(client(2), backend(1), 4).unwrap();
    assert_eq!(state.deregister(&client(9)), Deregistration::NotRegistered);
    assert!(matches!(state.deregister(&client(1)), Deregistration::Removed { .. }));
    assert_eq!(state.deregister(&client(1)), Deregistration::NotRegistered);
    assert_eq!(state.deregister(&client(1)), Deregistration::NotRegistered);
    assert_eq!(state.snapshot(&backend(1)), vec![client(2)]);
}

#[test]
fn routed_messages_wait_in_order() {
    let mut state = GatewayState::new();
    state.register(client(1), backend(1), 4).unwrap();
    assert_eq!(state.route_to_client(message(1, 1)), Ok(()));
    assert_eq!(state.route_to_client(message(1, 2)), Ok(()));
    match state.take_inbound(&client(1)) {
        Inbound::Frame(frame) => {
            assert_eq!(frame.sequence, 1);
            assert_eq!(frame.payload, vec![1, 1]);
        }
        other => panic!("{:?}", other),
    }
    assert!(matches!(state.take_inbound(&client(1)), Inbound::Frame(f) if f.sequence == 2));
    assert_eq!(state.take_inbound(&client(1)), Inbound::Empty);
}

#[test]
fn routing_to_an_unknown_client_is_reported() {
    let mut state = GatewayState::new();
    assert_eq!(state.route_to_client(message(1, 1)), Err(GatewayError::UnknownClient));
    assert_eq!(state.take_inbound(&client(1)), Inbound::Unregistered);
}

#[test]
fn a_full_queue_overflows() {
    let mut state = GatewayState::new();
    state.register(client(1), backend(1), 2).unwrap();
    assert_eq!(state.route_to_client(message(1, 1)), Ok(()));
    assert_eq!(state.route_to_client(message(1, 2)), Ok(()));
    assert_eq!(state.route_to_client(message(1, 3)), Err(GatewayError::SlowConsumer));
    assert_eq!(state.take_inbound(&client(1)), Inbound::Overflowed);
}

#[test]
fn an_overflow_of_one_client_leaves_the_other_alone() {
    let mut state = GatewayState::new();
    state.register(client(1), backend(1), 1).unwrap();
    state.register(client(2), backend(1), 1).unwrap();
    assert_eq!(state.route_to_client(message(1, 1)), Ok(()));
    assert_eq!(state.route_to_client(message(1, 2)), Err(GatewayError::SlowConsumer));
    assert_eq!(state.route_to_client(message(2, 1)), Ok(()));
    assert!(matches!(state.deregister(&client(1)), Deregistration::Removed { stop_poller: false, .. }));
    assert!(matches!(state.take_inbound(&client(2)), Inbound::Frame(f) if f.sequence == 1));
    assert_eq!(state.snapshot(&backend(1)), vec![client(2)]);
}

#[test]
fn a_shutdown_ends_every_registration_and_names_every_poller() {
    let mut state = GatewayState::new();
    assert_eq!(state.shutdown(), Vec::<BackendAddress>::new());
    state.register(client(1), backend(1), 4).unwrap();
    state.register(client(2), backend(1), 4).unwrap();
    state.register(client(3), backend(2), 4).unwrap();
    assert_eq!(state.shutdown(), vec![backend(1), backend(2)]);
    assert!(!state.is_registered(&client(1)));
    assert!(!state.has_poller(&backend(1)));
    assert_eq!(state.snapshot(&backend(2)), Vec::<ClientId>::new());
    assert_eq!(state.take_inbound(&client(3)), Inbound::Unregistered);
    assert_eq!(state.register(client(1), backend(1), 4).unwrap().poller, PollerDirective::Start);
}

#[test]
fn the_registry_answers_for_its_clients() {
    let mut state = GatewayState::new();
    state.register(client(1), backend(1), 4).unwrap();
    assert!(state.is_registered(&client(1)));
    assert!(!state.is_registered(&client(2)));
    assert!(state.has_poller(&backend(1)));
    assert!(!state.has_poller(&backend(2)));
    assert_eq!(state.backend_of(&client(1)), Some(backend(1)));
    assert_eq!(state.backend_of(&client(2)), None);
    assert_eq!(state.last_delivered(&client(1)), Some(0));
    assert_eq!(state.last_delivered(&client(2)), None);
    assert_eq!(state.route_to_client(message(1, 5)), Ok(()));
    assert_eq!(state.route_to_client(message(1, 3)), Ok(()));
    assert_eq!(state.last_delivered(&client(1)), Some(5));
}

#[test]
fn a_queue_of_no_capacity_overflows_at_once() {
    let mut state = GatewayState::new();
    state.register(client(1), backend(1), 0).unwrap();
    assert_eq!(state.take_inbound(&client(1)), Inbound::Empty);
    assert_eq!(state.route_to_client(message(1, 1)), Err(GatewayError::SlowConsumer));
    assert_eq!(state.take_inbound(&client(1)), Inbound::Overflowed);
}
