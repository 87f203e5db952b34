use ic_websocket_gateway::error::GatewayError;
use ic_websocket_gateway::handler::{ConnectionHandler, Phase};
use ic_websocket_gateway::handshake::Handshake;
use ic_websocket_gateway::ident::{BackendAddress, ClientId};
use ic_websocket_gateway::message::{Frame, Message};
use ic_websocket_gateway::poller::tick::{find_least, route_batch};
use ic_websocket_gateway::poller::{BatchOutcome, ClientBatch, Cursor, Poller, TickPlan};
use ic_websocket_gateway::registry::{
    Deregistration, GatewayState, Inbound, PollerDirective, RegistrationHandle,
};

fn client(n: u8) -> ClientId {
    ClientId::from_session_key(&[n; 32])
}

fn backend() -> BackendAddress {
    BackendAddress::new(b"http://127.0.0.1:4943", &[5; 10])
}

fn message(to: u8, sequence: u64) -> Message {
    Message { client: client(to), sequence, payload: vec![to, sequence as u8], proof: vec![1] }
}

fn frame(to: u8, sequence: u64) -> Frame {
    Frame { sequence, payload: vec![to, sequence as u8] }
}

fn batch(to: u8, sequences: &[u64]) -> ClientBatch {
    ClientBatch {
        client: client(to),
        messages: sequences.iter().map(|s| message(to, *s)).collect(),
        authentic: true,
    }
}

fn connect(n: u8, state: &mut GatewayState) -> ConnectionHandler {
    let mut handler = ConnectionHandler::new(4, 8, vec![]);
    let hello = Handshake { backend: backend(), session_key: vec![n; 32], signature: vec![] };
    assert!(handler.complete_handshake(state, hello, true).result.is_ok());
    handler
}

fn drain(handler: &mut ConnectionHandler, state: &mut GatewayState) -> Vec<Frame> {
    let mut out = Vec::new();
    for _ in 0..16 {
        out.extend(handler.receive(state));
    }
    out
}

#[test]
fn one_cycle_delivers_what_was_fetched_and_moves_the_cursor() {
    let mut state = GatewayState::new();
    let mut c1 = connect(1, &mut state);
    let mut poller = Poller::new(backend(), 3);
    let plan = poller.begin_tick(&state.snapshot(&backend()));
    assert_eq!(plan, TickPlan::Query(vec![Cursor { client: client(1), fetched: 0 }]));
    let outcomes = poller.process(&mut state, &vec![batch(1, &[1, 2, 3])]);
    assert_eq!(outcomes, vec![BatchOutcome::Routed { delivered: 3, refused: 0 }]);
    assert_eq!(poller.cursor(&client(1)), Some(3));
    assert_eq!(drain(&mut c1, &mut state), vec![frame(1, 1), frame(1, 2), frame(1, 3)]);
    assert_eq!(c1.last_delivered(), 3);
}

#[test]
fn a_client_that_left_mid_cycle_is_unknown_and_loses_its_cursor() {
    let mut state = GatewayState::new();
    let mut c1 = connect(1, &mut state);
    let _c2 = connect(2, &mut state);
    let mut poller = Poller::new(backend(), 3);
    poller.begin_tick(&state.snapshot(&backend()));
    poller.process(&mut state, &vec![batch(1, &[1, 2, 3])]);
    drain(&mut c1, &mut state);
    let plan = poller.begin_tick(&state.snapshot(&backend()));
    assert_eq!(
        plan,
        TickPlan::Query(vec![
            Cursor { client: client(1), fetched: 3 },
            Cursor { client: client(2), fetched: 0 },
        ])
    );
    c1.on_stream_error();
    assert!(matches!(c1.close(&mut state).released, Deregistration::Removed { .. }));
    assert_eq!(state.route_to_client(message(1, 4)), Err(GatewayError::UnknownClient));
    let outcomes = poller.process(&mut state, &vec![batch(1, &[4])]);
    assert_eq!(outcomes, vec![BatchOutcome::Routed { delivered: 0, refused: 1 }]);
    assert_eq!(poller.cursor(&client(1)), Some(4));
    let next = poller.begin_tick(&state.snapshot(&backend()));
    assert_eq!(next, TickPlan::Query(vec![Cursor { client: client(2), fetched: 0 }]));
    assert_eq!(poller.cursor(&client(1)), None);
    assert_eq!(poller.cursor(&client(2)), Some(0));
}

#[test]
fn a_failing_backend_delays_but_loses_nothing() {
    let mut state = GatewayState::new();
    let mut c1 = connect(1, &mut state);
    let mut poller = Poller::new(backend(), 2);
    poller.begin_tick(&state.snapshot(&backend()));
    poller.process(&mut state, &vec![batch(1, &[1, 2])]);
    assert_eq!(drain(&mut c1, &mut state), vec![frame(1, 1), frame(1, 2)]);
    let expected = TickPlan::Query(vec![Cursor { client: client(1), fetched: 2 }]);
    let mut reports = Vec::new();
    for failed in 1..=3u64 {
        assert_eq!(poller.begin_tick(&state.snapshot(&backend())), expected);
        reports.push(poller.on_query_failed());
        assert_eq!(poller.consecutive_failures(), failed);
        assert_eq!(poller.cursor(&client(1)), Some(2));
        assert_eq!(drain(&mut c1, &mut state), vec![]);
        assert_eq!(c1.phase(), Phase::Registered);
    }
    assert_eq!(reports, vec![None, None, Some(GatewayError::BackendUnavailable)]);
    assert_eq!(poller.begin_tick(&state.snapshot(&backend())), expected);
    let outcomes = poller.process(&mut state, &vec![batch(1, &[3, 4, 5])]);
    assert_eq!(outcomes, vec![BatchOutcome::Routed { delivered: 3, refused: 0 }]);
    assert_eq!(poller.consecutive_failures(), 0);
    assert_eq!(poller.cursor(&client(1)), Some(5));
    assert_eq!(drain(&mut c1, &mut state), vec![frame(1, 3), frame(1, 4), frame(1, 5)]);
    assert_eq!(c1.last_delivered(), 5);
}

#[test]
fn a_poller_without_clients_ends() {
    let mut state = GatewayState::new();
    let mut c1 = connect(1, &mut state);
    let mut poller = Poller::new(backend(), 3);
    assert!(matches!(poller.begin_tick(&state.snapshot(&backend())), TickPlan::Query(_)));
    assert_eq!(
        c1.close(&mut state).released,
        Deregistration::Removed { backend: backend(), stop_poller: true }
    );
    assert_eq!(poller.begin_tick(&state.snapshot(&backend())), TickPlan::Terminate);
    assert_eq!(poller.cursor(&client(1)), None);
    assert_eq!(Poller::new(backend(), 0).begin_tick(&vec![]), TickPlan::Terminate);
}

#[test]
fn a_batch_that_fails_verification_is_dropped_for_this_cycle() {
    let mut state = GatewayState::new();
    let mut c1 = connect(1, &mut state);
    let mut c2 = connect(2, &mut state);
    let mut poller = Poller::new(backend(), 3);
    poller.begin_tick(&state.snapshot(&backend()));
    let mut forged = batch(1, &[1, 2]);
    forged.authentic = false;
    let outcomes = poller.process(&mut state, &vec![forged, batch(2, &[1])]);
    assert_eq!(
        outcomes,
        vec![BatchOutcome::VerificationFailed, BatchOutcome::Routed { delivered: 1, refused: 0 }]
    );
    assert_eq!(outcomes[0].error(), Some(GatewayError::VerificationFailed));
    assert_eq!(poller.cursor(&client(1)), Some(0));
    assert_eq!(poller.cursor(&client(2)), Some(1));
    assert_eq!(drain(&mut c1, &mut state), vec![]);
    assert_eq!(drain(&mut c2, &mut state), vec![frame(2, 1)]);
    poller.begin_tick(&state.snapshot(&backend()));
    poller.process(&mut state, &vec![batch(1, &[1, 2])]);
    assert_eq!(drain(&mut c1, &mut state), vec![frame(1, 1), frame(1, 2)]);
}

#[test]
fn a_batch_that_was_not_asked_for_is_dropped() {
    let mut state = GatewayState::new();
    let _c1 = connect(1, &mut state);
    let mut poller = Poller::new(backend(), 3);
    let outcomes = poller.process(&mut state, &vec![batch(1, &[1])]);
    assert_eq!(outcomes, vec![BatchOutcome::NotRequested]);
    assert_eq!(state.take_inbound(&client(1)), Inbound::Empty);
    assert_eq!(poller.cursor(&client(1)), None);
}

#[test]
fn messages_are_routed_by_rising_sequence_number() {
    let mut state = GatewayState::new();
    let mut c1 = connect(1, &mut state);
    let mut poller = Poller::new(backend(), 3);
    poller.begin_tick(&state.snapshot(&backend()));
    let mut mixed = batch(1, &[3, 1, 2, 2, 1]);
    mixed.messages.push(message(2, 4));
    let outcomes = poller.process(&mut state, &vec![mixed]);
    assert_eq!(outcomes, vec![BatchOutcome::Routed { delivered: 3, refused: 0 }]);
    assert_eq!(poller.cursor(&client(1)), Some(3));
    assert_eq!(c1.receive(&mut state), vec![frame(1, 1)]);
    assert_eq!(c1.receive(&mut state), vec![frame(1, 2)]);
    assert_eq!(c1.receive(&mut state), vec![frame(1, 3)]);
    poller.begin_tick(&state.snapshot(&backend()));
    let again = poller.process(&mut state, &vec![batch(1, &[1, 2, 3])]);
    assert_eq!(again, vec![BatchOutcome::Routed { delivered: 0, refused: 0 }]);
    assert_eq!(state.take_inbound(&client(1)), Inbound::Empty);
}

#[test]
fn the_cursor_moves_even_where_the_queue_is_full() {
    let mut state = GatewayState::new();
    state.register(client(1), backend(), 2).unwrap();
    let mut poller = Poller::new(backend(), 3);
    poller.begin_tick(&state.snapshot(&backend()));
    let outcomes = poller.process(&mut state, &vec![batch(1, &[1, 2, 3, 4])]);
    assert_eq!(outcomes, vec![BatchOutcome::Routed { delivered: 2, refused: 2 }]);
    assert_eq!(poller.cursor(&client(1)), Some(4));
    assert_eq!(state.take_inbound(&client(1)), Inbound::Overflowed);
}

#[test]
fn the_next_message_is_the_first_of_the_lowest_above_the_cursor() {
    let messages = vec![message(1, 5), message(2, 1), message(1, 3), message(1, 3), message(1, 9)];
    assert_eq!(find_least(&messages, &client(1), 0), Some(2));
    assert_eq!(find_least(&messages, &client(1), 3), Some(0));
    assert_eq!(find_least(&messages, &client(1), 5), Some(4));
    assert_eq!(find_least(&messages, &client(1), 9), None);
    assert_eq!(find_least(&messages, &client(2), 0), Some(1));
    assert_eq!(find_least(&messages, &client(3), 0), None);
    assert_eq!(find_least(&vec![], &client(1), 0), None);
    assert_eq!(find_least(&vec![message(1, u64::MAX)], &client(1), u64::MAX - 1), Some(0));
}

#[test]
fn routing_a_batch_reports_cursor_and_counts() {
    let mut state = GatewayState::new();
    state.register(client(1), backend(), 8).unwrap();
    let messages = vec![message(1, 7), message(1, 5), message(1, 2)];
    assert_eq!(route_batch(&mut state, &messages, &client(1), 2), (7, 2, 0));
    assert!(matches!(state.take_inbound(&client(1)), Inbound::Frame(f) if f.sequence == 5));
    assert!(matches!(state.take_inbound(&client(1)), Inbound::Frame(f) if f.sequence == 7));
    assert_eq!(route_batch(&mut state, &messages, &client(1), 7), (7, 0, 0));
    assert_eq!(route_batch(&mut state, &messages, &client(9), 0), (0, 0, 0));
}

#[test]
fn a_forgotten_client_starts_at_zero_again() {
    let mut state = GatewayState::new();
    let mut c1 = connect(1, &mut state);
    let mut poller = Poller::new(backend(), 3);
    poller.begin_tick(&state.snapshot(&backend()));
    poller.process(&mut state, &vec![batch(1, &[1, 2])]);
    c1.close(&mut state);
    let mut back = connect(1, &mut state);
    poller.forget(&client(1));
    assert_eq!(poller.cursor(&client(1)), None);
    poller.forget(&client(7));
    let plan = poller.begin_tick(&state.snapshot(&backend()));
    assert_eq!(plan, TickPlan::Query(vec![Cursor { client: client(1), fetched: 0 }]));
    poller.process(&mut state, &vec![batch(1, &[1])]);
    assert_eq!(drain(&mut back, &mut state), vec![frame(1, 1)]);
    assert_eq!(poller.backend(), &backend());
}

#[test]
fn a_snapshot_that_names_a_client_twice_gives_one_cursor() {
    let mut poller = Poller::new(backend(), 3);
    let plan = poller.begin_tick(&vec![client(1), client(2), client(1)]);
    assert_eq!(
        plan,
        TickPlan::Query(vec![
            Cursor { client: client(1), fetched: 0 },
            Cursor { client: client(2), fetched: 0 },
        ])
    );
}

#[test]
fn failures_are_counted_up_to_the_threshold_and_beyond() {
    let mut poller = Poller::new(backend(), 0);
    assert_eq!(poller.on_query_failed(), Some(GatewayError::BackendUnavailable));
    let mut patient = Poller::new(backend(), u64::MAX);
    assert_eq!(patient.on_query_failed(), None);
    assert_eq!(patient.consecutive_failures(), 1);
}

#[test]
fn a_tick_follows_the_registry() {
    let mut state = GatewayState::new();
    let mut poller = Poller::new(backend(), 3);
    assert_eq!(poller.tick(&state), TickPlan::Terminate);
    let mut c1 = connect(1, &mut state);
    let elsewhere = BackendAddress::new(b"http://127.0.0.1:4943", &[6; 10]);
    state.register(client(2), elsewhere, 4).unwrap();
    assert_eq!(
        poller.tick(&state),
        TickPlan::Query(vec![Cursor { client: client(1), fetched: 0 }])
    );
    c1.close(&mut state);
    assert_eq!(poller.tick(&state), TickPlan::Terminate);
}

#[test]
fn an_answer_that_is_not_authentic_moves_nothing() {
    let mut state = GatewayState::new();
    let mut c1 = connect(1, &mut state);
    let mut poller = Poller::new(backend(), 0);
    poller.tick(&state);
    poller.process(&mut state, &vec![batch(1, &[1])]);
    assert_eq!(poller.on_query_failed(), Some(GatewayError::BackendUnavailable));
    assert_eq!(poller.on_answer_rejected(), GatewayError::VerificationFailed);
    assert_eq!(poller.consecutive_failures(), 0);
    assert_eq!(poller.cursor(&client(1)), Some(1));
    assert_eq!(drain(&mut c1, &mut state), vec![frame(1, 1)]);
    assert_eq!(state.take_inbound(&client(1)), Inbound::Empty);
}

#[test]
fn a_client_that_registers_anew_is_polled_for_from_the_start() {
    let mut state = GatewayState::new();
    let mut c1 = connect(1, &mut state);
    let _c2 = connect(2, &mut state);
    let mut poller = Poller::new(backend(), 3);
    poller.tick(&state);
    poller.process(&mut state, &vec![batch(1, &[1, 2]), batch(2, &[1])]);
    assert_eq!(poller.cursor(&client(1)), Some(2));
    c1.close(&mut state);
    let handle = state.register(client(1), backend(), 8).unwrap();
    assert_eq!(handle.poller, PollerDirective::Reuse);
    poller.on_registered(&handle);
    assert_eq!(poller.cursor(&client(1)), Some(0));
    assert_eq!(poller.cursor(&client(2)), Some(1));
    assert_eq!(
        poller.tick(&state),
        TickPlan::Query(vec![
            Cursor { client: client(2), fetched: 1 },
            Cursor { client: client(1), fetched: 0 },
        ])
    );
    assert_eq!(
        poller.process(&mut state, &vec![batch(1, &[1])]),
        vec![BatchOutcome::Routed { delivered: 1, refused: 0 }]
    );
    assert!(matches!(state.take_inbound(&client(1)), Inbound::Frame(f) if f.sequence == 1));
}

#[test]
fn a_registration_elsewhere_is_not_this_pollers() {
    let mut poller = Poller::new(backend(), 3);
    poller.begin_tick(&vec![client(1)]);
    let elsewhere = RegistrationHandle {
        client: client(2),
        backend: BackendAddress::new(b"http://127.0.0.1:4943", &[6; 10]),
        poller: PollerDirective::Start,
    };
    poller.on_registered(&elsewhere);
    assert_eq!(poller.cursor(&client(2)), None);
    let here =
        RegistrationHandle { client: client(2), backend: backend(), poller: PollerDirective::Reuse };
    poller.on_registered(&here);
    assert_eq!(poller.cursor(&client(2)), Some(0));
    assert_eq!(poller.cursor(&client(1)), Some(0));
}

#[test]
fn a_batch_is_authentic_only_if_every_proof_is_valid() {
    let messages = vec![message(1, 1), message(1, 2)];
    let good = ClientBatch::assemble(client(1), messages.clone(), &vec![true, true]);
    assert!(good.authentic);
    assert_eq!(good.client, client(1));
    assert_eq!(good.messages, messages);
    assert!(!ClientBatch::assemble(client(1), messages.clone(), &vec![true, false]).authentic);
    assert!(!ClientBatch::assemble(client(1), messages.clone(), &vec![false, true]).authentic);
    assert!(!ClientBatch::assemble(client(1), messages.clone(), &vec![true]).authentic);
    assert!(!ClientBatch::assemble(client(1), messages, &vec![true, true, true]).authentic);
    assert!(ClientBatch::assemble(client(1), vec![], &vec![]).authentic);
}
