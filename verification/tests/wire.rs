use ic_websocket_gateway::error::GatewayError;
use ic_websocket_gateway::frames::{ServerFrame, CODE_ACK, CODE_INTERNAL, CODE_NORMAL};
use ic_websocket_gateway::handler::{CloseNotice, HandshakeReply};
use ic_websocket_gateway::handshake::{read_field, Handshake};
use ic_websocket_gateway::ident::BackendAddress;
use ic_websocket_gateway::message::Frame;
use ic_websocket_gateway::registry::{Deregistration, PollerDirective};
use ic_websocket_gateway::wire::{put_field, put_u16, put_u64, read_number, MAX_FIELD_LEN};

fn small_handshake() -> Handshake {
    Handshake {
        backend: BackendAddress { location: b"ab".to_vec(), principal: vec![1] },
        session_key: vec![9, 9],
        signature: vec![7],
    }
}

#[test]
fn numbers_are_written_most_significant_byte_first() {
    let mut out = vec![0xaa];
    put_u16(&mut out, 0x0102);
    put_u64(&mut out, 0x0a0b0c0d0e0f1011);
    assert_eq!(out, vec![0xaa, 1, 2, 0x0a, 0x0b, 0x0c, 0x0d, 0x0e, 0x0f, 0x10, 0x11]);
    assert_eq!(read_number(&out, 1, 2), 0x0102);
    assert_eq!(read_number(&out, 3, 8), 0x0a0b0c0d0e0f1011);
    assert_eq!(read_number(&out, 0, 0), 0);
    let mut top = Vec::new();
    put_u64(&mut top, u64::MAX);
    assert_eq!(top, vec![0xff; 8]);
    assert_eq!(read_number(&top, 0, 8), u64::MAX);
}

#[test]
fn a_field_is_its_length_and_its_bytes() {
    let mut out = Vec::new();
    put_field(&mut out, b"abc");
    put_field(&mut out, b"");
    assert_eq!(out, vec![0, 3, b'a', b'b', b'c', 0, 0]);
    assert_eq!(read_field(&out, 0), Some((b"abc".to_vec(), 5)));
    assert_eq!(read_field(&out, 5), Some((vec![], 7)));
    assert_eq!(read_field(&out, 6), None);
    assert_eq!(read_field(&out, 7), None);
    assert_eq!(read_field(&out, 8), None);
    assert_eq!(read_field(&[0, 4, 1, 2, 3], 0), None);
}

#[test]
fn a_handshake_has_four_fields() {
    let bytes = small_handshake().encode().unwrap();
    assert_eq!(bytes, vec![0, 2, 97, 98, 0, 1, 1, 0, 2, 9, 9, 0, 1, 7]);
    assert_eq!(
        small_handshake().signed_payload().unwrap(),
        vec![0, 2, 97, 98, 0, 1, 1, 0, 2, 9, 9]
    );
    assert_eq!(Handshake::decode(&bytes), Some(small_handshake()));
}

#[test]
fn a_handshake_with_anything_missing_or_left_over_is_not_read() {
    let bytes = small_handshake().encode().unwrap();
    for cut in 0..bytes.len() {
        assert_eq!(Handshake::decode(&bytes[..cut]), None);
    }
    let mut longer = bytes.clone();
    longer.push(0);
    assert_eq!(Handshake::decode(&longer), None);
    assert_eq!(Handshake::decode(&[]), None);
}

#[test]
fn a_handshake_with_a_part_too_long_for_a_field_has_no_bytes() {
    let mut big = small_handshake();
    big.signature = vec![0; MAX_FIELD_LEN + 1];
    assert_eq!(big.encode(), None);
    assert_eq!(big.signed_payload(), None);
    assert!(!big.is_well_formed());
    let mut full = small_handshake();
    full.session_key = vec![3; MAX_FIELD_LEN];
    let bytes = full.encode().unwrap();
    assert_eq!(bytes.len(), 4 + 3 + 2 + MAX_FIELD_LEN + 3);
    assert_eq!(Handshake::decode(&bytes), Some(full));
}

#[test]
fn server_frames_have_a_tag_and_fixed_heads() {
    let data = ServerFrame::Data { frame: Frame { sequence: 0x0102, payload: vec![5] } };
    assert_eq!(data.encode(), vec![2, 0, 0, 0, 0, 0, 0, 1, 2, 5]);
    let reply = ServerFrame::Reply { code: 4002, gateway_identity: vec![8, 8] };
    assert_eq!(reply.encode(), vec![1, 0x0f, 0xa2, 8, 8]);
    let close = ServerFrame::Close { code: 1000 };
    assert_eq!(close.encode(), vec![3, 0x03, 0xe8]);
    for frame in [data, reply, close] {
        assert_eq!(ServerFrame::decode(&frame.encode()), Some(frame));
    }
}

#[test]
fn malformed_server_frames_are_not_read() {
    assert_eq!(ServerFrame::decode(&[]), None);
    assert_eq!(ServerFrame::decode(&[1, 0]), None);
    assert_eq!(ServerFrame::decode(&[2, 0, 0, 0, 0, 0, 0, 1]), None);
    assert_eq!(ServerFrame::decode(&[3, 0, 1, 0]), None);
    assert_eq!(ServerFrame::decode(&[0, 0, 0]), None);
    assert_eq!(ServerFrame::decode(&[4, 0, 0]), None);
    assert_eq!(
        ServerFrame::decode(&[1, 0, 0]),
        Some(ServerFrame::Reply { code: 0, gateway_identity: vec![] })
    );
    assert_eq!(
        ServerFrame::decode(&[2, 0, 0, 0, 0, 0, 0, 0, 9]),
        Some(ServerFrame::Data { frame: Frame { sequence: 9, payload: vec![] } })
    );
}

#[test]
fn replies_and_notices_become_frames() {
    let ack = HandshakeReply { gateway_identity: vec![1, 2], result: Ok(PollerDirective::Start) };
    assert_eq!(ack.to_frame(), ServerFrame::Reply { code: CODE_ACK, gateway_identity: vec![1, 2] });
    let refused =
        HandshakeReply { gateway_identity: vec![1], result: Err(GatewayError::DuplicateClient) };
    assert_eq!(refused.to_frame(), ServerFrame::Reply { code: 4002, gateway_identity: vec![1] });
    let odd = HandshakeReply { gateway_identity: vec![], result: Err(GatewayError::UnknownClient) };
    assert_eq!(
        odd.to_frame(),
        ServerFrame::Reply { code: CODE_INTERNAL, gateway_identity: vec![] }
    );
    let gap = CloseNotice { code: Some(4003), released: Deregistration::NotRegistered };
    assert_eq!(gap.to_frame(), ServerFrame::Close { code: 4003 });
    let normal = CloseNotice { code: None, released: Deregistration::NotRegistered };
    assert_eq!(normal.to_frame(), ServerFrame::Close { code: CODE_NORMAL });
}
