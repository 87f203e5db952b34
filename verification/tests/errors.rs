use ic_websocket_gateway::config::{trace_file_name, GatewayConfig};
use ic_websocket_gateway::error::GatewayError;
use ic_websocket_gateway::ident::{BackendAddress, ClientId, MAX_PRINCIPAL_LEN};
use ic_websocket_gateway::message::Message;
use ic_websocket_gateway::poller::{delay_before_next_tick, BatchOutcome};

#[test]
fn a_client_is_told_only_what_concerns_it() {
    assert_eq!(GatewayError::InvalidHandshake.close_code(), Some(4001));
    assert_eq!(GatewayError::DuplicateClient.close_code(), Some(4002));
    assert_eq!(GatewayError::SequenceGap.close_code(), Some(4003));
    assert_eq!(GatewayError::SlowConsumer.close_code(), Some(4004));
    for hidden in [
        GatewayError::AlreadyRegistered,
        GatewayError::UnknownClient,
        GatewayError::BackendUnavailable,
        GatewayError::VerificationFailed,
        GatewayError::RegistryInconsistency,
    ] {
        assert_eq!(hidden.close_code(), None);
        assert!(!hidden.closes_connection());
    }
    assert!(GatewayError::SequenceGap.closes_connection());
}

#[test]
fn only_an_inconsistent_registry_aborts_a_task() {
    assert!(GatewayError::RegistryInconsistency.aborts_task());
    assert!(!GatewayError::BackendUnavailable.aborts_task());
    assert!(!GatewayError::VerificationFailed.aborts_task());
    assert!(!GatewayError::UnknownClient.aborts_task());
    assert!(!GatewayError::SequenceGap.aborts_task());
}

#[test]
fn a_dropped_batch_stands_for_a_failed_verification() {
    assert_eq!(BatchOutcome::VerificationFailed.error(), Some(GatewayError::VerificationFailed));
    assert_eq!(BatchOutcome::NotRequested.error(), None);
    assert_eq!(BatchOutcome::Routed { delivered: 1, refused: 0 }.error(), None);
}

#[test]
fn identifiers_compare_by_their_bytes() {
    let a = ClientId::from_session_key(&[1, 2, 3]);
    let b = ClientId::from_session_key(&[1, 2, 3]);
    let c = ClientId::from_session_key(&[1, 2]);
    let d = ClientId::from_session_key(&[1, 2, 4]);
    assert!(a.same(&b));
    assert!(!a.same(&c));
    assert!(!a.same(&d));
    assert!(a.duplicate().same(&a));
    let x = BackendAddress::new(b"here", &[1]);
    assert!(x.same(&x.duplicate()));
    assert!(!x.same(&BackendAddress::new(b"here", &[2])));
    assert!(!x.same(&BackendAddress::new(b"there", &[1])));
}

#[test]
fn a_backend_needs_a_location_and_a_principal_that_can_exist() {
    assert!(BackendAddress::new(b"x", &[1]).is_well_formed());
    assert!(BackendAddress::new(b"x", &[1; MAX_PRINCIPAL_LEN]).is_well_formed());
    assert!(!BackendAddress::new(b"x", &[1; MAX_PRINCIPAL_LEN + 1]).is_well_formed());
    assert!(!BackendAddress::new(b"x", &[]).is_well_formed());
    assert!(!BackendAddress::new(b"", &[1]).is_well_formed());
}

#[test]
fn a_message_becomes_the_frame_of_its_payload() {
    let message = Message {
        client: ClientId::from_session_key(&[1]),
        sequence: 7,
        payload: vec![1, 2, 3],
        proof: vec![9],
    };
    let frame = message.to_frame();
    assert_eq!(frame.sequence, 7);
    assert_eq!(frame.payload, vec![1, 2, 3]);
    assert_eq!(message.duplicate(), message);
    assert_eq!(frame.duplicate(), frame);
}

#[test]
fn the_default_deployment_is_local() {
    let config = GatewayConfig::default();
    assert_eq!(config.subnet_url, "http://127.0.0.1:4943");
    assert_eq!(config.gateway_address, "0.0.0.0:8080");
    assert_eq!(config.polling_interval, 200);
}

#[test]
fn the_trace_file_is_named_by_the_time() {
    assert_eq!(trace_file_name(0), "./data/traces/gateway_0.log");
    assert_eq!(trace_file_name(7), "./data/traces/gateway_7.log");
    assert_eq!(trace_file_name(10), "./data/traces/gateway_10.log");
    assert_eq!(trace_file_name(1698400000123), "./data/traces/gateway_1698400000123.log");
    assert_eq!(
        trace_file_name(u128::MAX),
        format!("./data/traces/gateway_{:?}.log", u128::MAX)
    );
}

#[test]
fn ticks_do_not_overlap() {
    assert_eq!(delay_before_next_tick(200, 0), 200);
    assert_eq!(delay_before_next_tick(200, 50), 150);
    assert_eq!(delay_before_next_tick(200, 200), 0);
    assert_eq!(delay_before_next_tick(200, 750), 0);
    assert_eq!(delay_before_next_tick(0, 0), 0);
}
