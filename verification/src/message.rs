//! Messages as the backend queues them and frames as a client receives them.

use crate::bytes::copy_bytes;
use crate::ident::ClientId;
use vstd::prelude::*;

verus! {

/// What a frame is, as plain values.
pub struct FrameModel {
    pub sequence: nat,
    pub payload: Seq<u8>,
}

/// One backend message on its way to a client stream.
#[derive(Clone, Debug, PartialEq, Eq)]
pub struct Frame {
    pub sequence: u64,
    pub payload: Vec<u8>,
}

impl View for Frame {
    type V = FrameModel;

    open spec fn view(&self) -> FrameModel {
        FrameModel { sequence: self.sequence as nat, payload: self.payload@ }
    }
}

impl Frame {
    /// A second frame with the same content.
    pub fn duplicate(&self) -> (copy: Frame)
        ensures
            copy@ == self@,
    {
        Frame { sequence: self.sequence, payload: copy_bytes(self.payload.as_slice()) }
    }
}

/// The views of a run of frames, in order.
pub open spec fn frames_view(frames: Seq<Frame>) -> Seq<FrameModel> {
    frames.map_values(|f: Frame| f@)
}

/// What a message is, as plain values.
pub struct MessageModel {
    pub client: Seq<u8>,
    pub sequence: nat,
    pub payload: Seq<u8>,
    pub proof: Seq<u8>,
}

/// One message that a backend queued for a client. The backend assigns the
/// sequence numbers; the gateway only reads them.
#[derive(Clone, Debug, PartialEq, Eq)]
pub struct Message {
    pub client: ClientId,
    pub sequence: u64,
    pub payload: Vec<u8>,
    pub proof: Vec<u8>,
}

impl View for Message {
    type V = MessageModel;

    open spec fn view(&self) -> MessageModel {
        MessageModel {
            client: self.client@,
            sequence: self.sequence as nat,
            payload: self.payload@,
            proof: self.proof@,
        }
    }
}

impl MessageModel {
    /// The frame that carries the message to its client.
    pub open spec fn frame(self) -> FrameModel {
        FrameModel { sequence: self.sequence, payload: self.payload }
    }
}

impl Message {
    /// A second message with the same content.
    pub fn duplicate(&self) -> (copy: Message)
        ensures
            copy@ == self@,
    {
        Message {
            client: self.client.duplicate(),
            sequence: self.sequence,
            payload: copy_bytes(self.payload.as_slice()),
            proof: copy_bytes(self.proof.as_slice()),
        }
    }

    /// The frame that carries the message to its client.
    pub fn to_frame(&self) -> (frame: Frame)
        ensures
            frame@ == self@.frame(),
    {
        Frame { sequence: self.sequence, payload: copy_bytes(self.payload.as_slice()) }
    }
}

} // verus!
