//! The frames that the gateway sends to a client, and their bytes.
//!
//! Each frame starts with a byte that tells its kind. The answer to the
//! handshake carries a code of two bytes, zero for an acknowledgment, and
//! then the gateway's identity. A data frame carries the sequence number
//! in eight bytes and then the payload. A close frame carries a code of
//! two bytes.

use crate::bytes::copy_bytes;
use crate::error::GatewayError;
use crate::handler::{CloseNotice, HandshakeReply};
use crate::message::{Frame, FrameModel};
use crate::registry::PollerDirective;
use crate::wire::{
    be_bytes, be_value, lemma_be_bytes_len, lemma_be_bytes_of_value, lemma_be_round_trip,
    lemma_be_value_bound, lemma_spans, put_u16, put_u64, read_number,
};
use vstd::prelude::*;

verus! {

/// The first byte of the answer to a handshake.
pub const TAG_REPLY: u8 = 1;

/// The first byte of a data frame.
pub const TAG_DATA: u8 = 2;

/// The first byte of a close frame.
pub const TAG_CLOSE: u8 = 3;

/// The code of an acknowledgment.
pub const CODE_ACK: u16 = 0;

/// The code of a connection that ends without an error.
pub const CODE_NORMAL: u16 = 1000;

/// The code of a connection that ends for an error that the client is not
/// told of.
pub const CODE_INTERNAL: u16 = 4000;

/// A frame from the gateway, as plain values.
pub enum ServerFrameModel {
    Reply { code: u16, gateway_identity: Seq<u8> },
    Data { frame: FrameModel },
    Close { code: u16 },
}

/// A frame from the gateway to a client.
#[derive(Clone, Debug, PartialEq, Eq)]
pub enum ServerFrame {
    /// The answer to the handshake: `CODE_ACK`, or why it was refused.
    Reply { code: u16, gateway_identity: Vec<u8> },
    /// One message of the backend.
    Data { frame: Frame },
    /// The end of the connection, and why.
    Close { code: u16 },
}

impl View for ServerFrame {
    type V = ServerFrameModel;

    open spec fn view(&self) -> ServerFrameModel {
        match self {
            ServerFrame::Reply { code, gateway_identity } => ServerFrameModel::Reply {
                code: *code,
                gateway_identity: gateway_identity@,
            },
            ServerFrame::Data { frame } => ServerFrameModel::Data { frame: frame@ },
            ServerFrame::Close { code } => ServerFrameModel::Close { code: *code },
        }
    }
}

impl ServerFrameModel {
    /// Whether the frame can stand on the stream: its sequence number
    /// fits eight bytes.
    pub open spec fn fits(self) -> bool {
        match self {
            ServerFrameModel::Data { frame } => frame.sequence <= u64::MAX,
            _ => true,
        }
    }

    /// The bytes of the frame.
    pub open spec fn encoding(self) -> Seq<u8> {
        match self {
            ServerFrameModel::Reply { code, gateway_identity } => seq![TAG_REPLY] + be_bytes(
                code as nat,
                2,
            ) + gateway_identity,
            ServerFrameModel::Data { frame } => seq![TAG_DATA] + be_bytes(frame.sequence, 8)
                + frame.payload,
            ServerFrameModel::Close { code } => seq![TAG_CLOSE] + be_bytes(code as nat, 2),
        }
    }
}

/// The frame that `bytes` hold, if they hold one.
pub open spec fn parse_server_frame(bytes: Seq<u8>) -> Option<ServerFrameModel> {
    if bytes.len() >= 3 && bytes[0] == TAG_REPLY {
        Some(
            ServerFrameModel::Reply {
                code: be_value(bytes.subrange(1, 3)) as u16,
                gateway_identity: bytes.skip(3),
            },
        )
    } else if bytes.len() >= 9 && bytes[0] == TAG_DATA {
        Some(
            ServerFrameModel::Data {
                frame: FrameModel {
                    sequence: be_value(bytes.subrange(1, 9)),
                    payload: bytes.skip(9),
                },
            },
        )
    } else if bytes.len() == 3 && bytes[0] == TAG_CLOSE {
        Some(ServerFrameModel::Close { code: be_value(bytes.subrange(1, 3)) as u16 })
    } else {
        None
    }
}

/// Round trip: a frame is read back from its bytes.
pub proof fn lemma_server_frame_round_trip(frame: ServerFrameModel)
    requires
        frame.fits(),
    ensures
        parse_server_frame(frame.encoding()) == Some(frame),
{
    lemma_spans();
    let bytes = frame.encoding();
    match frame {
        ServerFrameModel::Reply { code, gateway_identity } => {
            lemma_be_bytes_len(code as nat, 2);
            lemma_be_round_trip(code as nat, 2);
            assert(bytes.subrange(1, 3) =~= be_bytes(code as nat, 2));
            assert(bytes.skip(3) =~= gateway_identity);
        },
        ServerFrameModel::Data { frame } => {
            lemma_be_bytes_len(frame.sequence, 8);
            lemma_be_round_trip(frame.sequence, 8);
            assert(bytes.subrange(1, 9) =~= be_bytes(frame.sequence, 8));
            assert(bytes.skip(9) =~= frame.payload);
        },
        ServerFrameModel::Close { code } => {
            lemma_be_bytes_len(code as nat, 2);
            lemma_be_round_trip(code as nat, 2);
            assert(bytes.subrange(1, 3) =~= be_bytes(code as nat, 2));
        },
    }
}

/// Only one byte string holds a given frame: what is read from bytes
/// encodes to those bytes again.
pub proof fn lemma_server_frame_canonical(bytes: Seq<u8>)
    requires
        parse_server_frame(bytes) is Some,
    ensures
        parse_server_frame(bytes)->Some_0.fits(),
        parse_server_frame(bytes)->Some_0.encoding() == bytes,
{
    lemma_spans();
    let frame = parse_server_frame(bytes)->Some_0;
    match frame {
        ServerFrameModel::Reply { code, gateway_identity } => {
            let head = bytes.subrange(1, 3);
            lemma_be_value_bound(head);
            lemma_be_bytes_of_value(head);
            assert(bytes =~= seq![TAG_REPLY] + head + bytes.skip(3));
        },
        ServerFrameModel::Data { frame } => {
            let head = bytes.subrange(1, 9);
            lemma_be_value_bound(head);
            lemma_be_bytes_of_value(head);
            assert(bytes =~= seq![TAG_DATA] + head + bytes.skip(9));
        },
        ServerFrameModel::Close { code } => {
            let head = bytes.subrange(1, 3);
            lemma_be_value_bound(head);
            lemma_be_bytes_of_value(head);
            assert(bytes =~= seq![TAG_CLOSE] + head);
        },
    }
}

/// Appends `bytes` to `out`.
fn put_bytes(out: &mut Vec<u8>, bytes: &[u8])
    ensures
        final(out)@ == old(out)@ + bytes@,
{
    let mut i: usize = 0;
    while i < bytes.len()
        invariant
            i <= bytes.len(),
            out@ == old(out)@ + bytes@.subrange(0, i as int),
        decreases bytes.len() - i,
    {
        out.push(bytes[i]);
        i += 1;
        assert(out@ =~= old(out)@ + bytes@.subrange(0, i as int));
    }
    assert(bytes@.subrange(0, bytes.len() as int) =~= bytes@);
}

/// The bytes of `bytes` from `from` on.
fn tail(bytes: &[u8], from: usize) -> (rest: Vec<u8>)
    requires
        from <= bytes.len(),
    ensures
        rest@ == bytes@.skip(from as int),
{
    let mut rest: Vec<u8> = Vec::new();
    let mut i: usize = from;
    while i < bytes.len()
        invariant
            from <= i <= bytes.len(),
            rest@ == bytes@.subrange(from as int, i as int),
        decreases bytes.len() - i,
    {
        rest.push(bytes[i]);
        i += 1;
        assert(rest@ =~= bytes@.subrange(from as int, i as int));
    }
    assert(bytes@.subrange(from as int, bytes.len() as int) =~= bytes@.skip(from as int));
    rest
}

impl ServerFrame {
    /// The bytes of the frame.
    pub fn encode(&self) -> (bytes: Vec<u8>)
        ensures
            bytes@ == self@.encoding(),
    {
        let mut out: Vec<u8> = Vec::new();
        match self {
            ServerFrame::Reply { code, gateway_identity } => {
                out.push(TAG_REPLY);
                put_u16(&mut out, *code);
                put_bytes(&mut out, gateway_identity.as_slice());
            },
            ServerFrame::Data { frame } => {
                out.push(TAG_DATA);
                put_u64(&mut out, frame.sequence);
                put_bytes(&mut out, frame.payload.as_slice());
            },
            ServerFrame::Close { code } => {
                out.push(TAG_CLOSE);
                put_u16(&mut out, *code);
            },
        }
        assert(out@ =~= self@.encoding());
        out
    }

    /// Reads a frame from its bytes.
    pub fn decode(bytes: &[u8]) -> (r: Option<ServerFrame>)
        ensures
            match r {
                Some(frame) => parse_server_frame(bytes@) == Some(frame@),
                None => parse_server_frame(bytes@) is None,
            },
    {
        if bytes.len() < 3 {
            return None;
        }
        let tag = bytes[0];
        proof {
            lemma_spans();
            lemma_be_value_bound(bytes@.subrange(1, 3));
        }
        if tag == TAG_REPLY {
            let code = read_number(bytes, 1, 2) as u16;
            Some(ServerFrame::Reply { code, gateway_identity: tail(bytes, 3) })
        } else if tag == TAG_DATA {
            if bytes.len() < 9 {
                return None;
            }
            let sequence = read_number(bytes, 1, 8);
            Some(ServerFrame::Data { frame: Frame { sequence, payload: tail(bytes, 9) } })
        } else if tag == TAG_CLOSE {
            if bytes.len() != 3 {
                return None;
            }
            let code = read_number(bytes, 1, 2) as u16;
            Some(ServerFrame::Close { code })
        } else {
            None
        }
    }
}

/// The code that stands for the result of a handshake.
pub open spec fn reply_code(result: Result<PollerDirective, GatewayError>) -> u16 {
    match result {
        Ok(_) => CODE_ACK,
        Err(e) => match e.spec_close_code() {
            Some(code) => code,
            None => CODE_INTERNAL,
        },
    }
}

/// The code that stands for the end of a connection.
pub open spec fn close_frame_code(code: Option<u16>) -> u16 {
    match code {
        Some(code) => code,
        None => CODE_NORMAL,
    }
}

impl HandshakeReply {
    /// The frame that tells the client the answer to its handshake.
    pub fn to_frame(&self) -> (frame: ServerFrame)
        ensures
            frame@ == (ServerFrameModel::Reply {
                code: reply_code(self.result),
                gateway_identity: self.gateway_identity@,
            }),
    {
        let code = match &self.result {
            Ok(_) => CODE_ACK,
            Err(e) => match e.close_code() {
                Some(code) => code,
                None => CODE_INTERNAL,
            },
        };
        ServerFrame::Reply { code, gateway_identity: copy_bytes(self.gateway_identity.as_slice()) }
    }
}

impl CloseNotice {
    /// The frame that tells the client that its connection ends.
    pub fn to_frame(&self) -> (frame: ServerFrame)
        ensures
            frame@ == (ServerFrameModel::Close { code: close_frame_code(self.code) }),
    {
        let code = match self.code {
            Some(code) => code,
            None => CODE_NORMAL,
        };
        ServerFrame::Close { code }
    }
}

} // verus!
