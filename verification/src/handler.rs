//! The state machine that owns one client's stream from accept to close.

pub mod laws;

use crate::bytes::copy_bytes;
use crate::error::GatewayError;
use crate::handshake::{parse_handshake, Handshake, HandshakeModel};
use crate::ident::{BackendAddress, BackendModel, ClientId};
use crate::message::{frames_view, Frame, FrameModel};
use crate::registry::{
    Deregistration, GatewayState, Inbound, InboundModel, PollerDirective, RegistrationHandle,
    RegistryModel,
};
use crate::reorder::{ReorderBuffer, ReorderModel};
use vstd::prelude::*;

verus! {

/// Where a connection stands.
#[derive(Clone, Copy, Debug, PartialEq, Eq, Structural)]
pub enum Phase {
    /// The client has not sent its handshake yet.
    AwaitingHandshake,
    /// The client is registered; frames flow both ways.
    Registered,
    /// The connection is ending: what is pending is flushed.
    Draining,
    /// The connection is over.
    Closed,
}

impl Phase {
    /// How far along a connection is: a connection never goes back.
    pub open spec fn rank(self) -> nat {
        match self {
            Phase::AwaitingHandshake => 0,
            Phase::Registered => 1,
            Phase::Draining => 2,
            Phase::Closed => 3,
        }
    }
}

/// A handler, as plain values.
pub struct HandlerModel {
    pub phase: Phase,
    /// The client and its backend, from the moment the handler registered
    /// them until it deregisters them.
    pub registration: Option<(Seq<u8>, BackendModel)>,
    /// What the registry said about the backend's poller when the handler
    /// registered, for as long as the handler holds its registration.
    pub directive: Option<PollerDirective>,
    pub reorder: ReorderModel,
    /// Why the connection ends, where it ends for an error.
    pub reason: Option<GatewayError>,
    /// How many frames the inbound queue of the client is to hold.
    pub inbox_capacity: nat,
    /// What the gateway tells a client of itself.
    pub gateway_identity: Seq<u8>,
}

/// What the gateway answers to a handshake: who it is, and either that the
/// client is registered, with what to do about the backend's poller, or
/// why it was refused.
#[derive(Debug, PartialEq, Eq)]
pub struct HandshakeReply {
    pub gateway_identity: Vec<u8>,
    pub result: Result<PollerDirective, GatewayError>,
}

/// A client's payload on its way to the backend, tagged with the client
/// it came from.
#[derive(Clone, Debug, PartialEq, Eq)]
pub struct Submission {
    pub backend: BackendAddress,
    pub client: ClientId,
    pub payload: Vec<u8>,
}

/// What closing a connection leaves to do.
#[derive(Clone, Debug, PartialEq, Eq)]
pub struct CloseNotice {
    /// The code to tell the client, where the connection ends for an
    /// error that a client is told of.
    pub code: Option<u16>,
    /// What became of the handler's registration.
    pub released: Deregistration,
}

impl HandlerModel {
    /// A handler that has just accepted a stream.
    pub open spec fn fresh(window: nat, inbox_capacity: nat, gateway_identity: Seq<u8>)
        -> HandlerModel {
        HandlerModel {
            phase: Phase::AwaitingHandshake,
            registration: None,
            directive: None,
            reorder: ReorderModel::fresh(window),
            reason: None,
            inbox_capacity,
            gateway_identity,
        }
    }

    /// What holds of every handler that started fresh: while the
    /// connection is registered or draining the handler knows its
    /// registration, and before the handshake it has none.
    pub open spec fn wf(self) -> bool {
        &&& self.phase == Phase::AwaitingHandshake ==> self.registration is None
        &&& self.directive is Some <==> self.registration is Some
        &&& self.reorder.wf()
        &&& (self.phase == Phase::Registered || self.phase == Phase::Draining)
            ==> self.registration is Some
    }

    /// What a handshake comes to. It is invalid unless it is awaited, well
    /// formed and signed; a valid one of a client that is registered
    /// already is a duplicate.
    pub open spec fn handshake_verdict(
        self,
        registry: RegistryModel,
        handshake: HandshakeModel,
        signature_ok: bool,
    ) -> Result<(), GatewayError> {
        if self.phase != Phase::AwaitingHandshake || !handshake.well_formed() || !signature_ok {
            Err(GatewayError::InvalidHandshake)
        } else if registry.is_registered(handshake.client()) {
            Err(GatewayError::DuplicateClient)
        } else {
            Ok(())
        }
    }

    /// The handler after a handshake. One that is not awaited changes
    /// nothing; an accepted one registers the connection; any other
    /// closes it.
    pub open spec fn after_handshake(
        self,
        registry: RegistryModel,
        handshake: HandshakeModel,
        signature_ok: bool,
    ) -> HandlerModel {
        if self.phase != Phase::AwaitingHandshake {
            self
        } else {
            match self.handshake_verdict(registry, handshake, signature_ok) {
                Ok(_) => HandlerModel {
                    phase: Phase::Registered,
                    registration: Some((handshake.client(), handshake.backend)),
                    directive: Some(
                        if registry.has_poller(handshake.backend) {
                            PollerDirective::Reuse
                        } else {
                            PollerDirective::Start
                        },
                    ),
                    ..self
                },
                Err(e) => HandlerModel { phase: Phase::Closed, reason: Some(e), ..self },
            }
        }
    }

    /// The registry after a handshake: an accepted one registers its
    /// client, any other changes nothing.
    pub open spec fn registry_after_handshake(
        self,
        registry: RegistryModel,
        handshake: HandshakeModel,
        signature_ok: bool,
    ) -> RegistryModel {
        match self.handshake_verdict(registry, handshake, signature_ok) {
            Ok(_) => registry.register(handshake.client(), handshake.backend, self.inbox_capacity),
            Err(_) => registry,
        }
    }

    /// What a handshake is answered with.
    pub open spec fn handshake_result(
        self,
        registry: RegistryModel,
        handshake: HandshakeModel,
        signature_ok: bool,
    ) -> Result<PollerDirective, GatewayError> {
        match self.handshake_verdict(registry, handshake, signature_ok) {
            Ok(_) => Ok(
                if registry.has_poller(handshake.backend) {
                    PollerDirective::Reuse
                } else {
                    PollerDirective::Start
                },
            ),
            Err(e) => Err(e),
        }
    }

    /// The handler after the first frame of its client: the handshake that
    /// the frame holds is handled; a frame that holds none is an invalid
    /// handshake.
    pub open spec fn after_first_frame(self, registry: RegistryModel, bytes: Seq<u8>)
        -> HandlerModel {
        match parse_handshake(bytes) {
            Some(handshake) => self.after_handshake(
                registry,
                handshake,
                handshake.fits() && handshake.signed(),
            ),
            None => self.after_timeout(),
        }
    }

    /// The registry after the first frame of a client.
    pub open spec fn registry_after_first_frame(self, registry: RegistryModel, bytes: Seq<u8>)
        -> RegistryModel {
        match parse_handshake(bytes) {
            Some(handshake) => self.registry_after_handshake(
                registry,
                handshake,
                handshake.fits() && handshake.signed(),
            ),
            None => registry,
        }
    }

    /// What the first frame of a client is answered with.
    pub open spec fn first_frame_result(self, registry: RegistryModel, bytes: Seq<u8>) -> Result<
        PollerDirective,
        GatewayError,
    > {
        match parse_handshake(bytes) {
            Some(handshake) => self.handshake_result(
                registry,
                handshake,
                handshake.fits() && handshake.signed(),
            ),
            None => Err(GatewayError::InvalidHandshake),
        }
    }

    /// The handler once the time for the handshake is over.
    pub open spec fn after_timeout(self) -> HandlerModel {
        if self.phase == Phase::AwaitingHandshake {
            HandlerModel {
                phase: Phase::Closed,
                reason: Some(GatewayError::InvalidHandshake),
                ..self
            }
        } else {
            self
        }
    }

    /// The handler once its stream has failed or was closed by the client.
    pub open spec fn after_stream_error(self) -> HandlerModel {
        match self.phase {
            Phase::AwaitingHandshake => HandlerModel { phase: Phase::Closed, ..self },
            Phase::Registered => HandlerModel { phase: Phase::Draining, ..self },
            _ => self,
        }
    }

    /// What the handler finds at the receiving end of its queue. A handler
    /// without a registration finds what one finds whose registration is
    /// gone.
    pub open spec fn inbound(self, registry: RegistryModel) -> InboundModel {
        match self.registration {
            Some((client, _)) => registry.next_inbound(client),
            None => InboundModel::Unregistered,
        }
    }

    /// The handler after it looked into its queue once.
    pub open spec fn after_receive(self, registry: RegistryModel) -> HandlerModel {
        if self.phase != Phase::Registered {
            self
        } else {
            match self.inbound(registry) {
                InboundModel::Frame(frame) => if self.reorder.is_gap(frame) {
                    HandlerModel {
                        phase: Phase::Draining,
                        reason: Some(GatewayError::SequenceGap),
                        ..self
                    }
                } else {
                    HandlerModel { reorder: self.reorder.accept(frame), ..self }
                },
                InboundModel::Empty => self,
                InboundModel::Overflowed => HandlerModel {
                    phase: Phase::Draining,
                    reason: Some(GatewayError::SlowConsumer),
                    ..self
                },
                InboundModel::Unregistered => HandlerModel { phase: Phase::Draining, ..self },
            }
        }
    }

    /// The registry after the handler looked into its queue once.
    pub open spec fn registry_after_receive(self, registry: RegistryModel) -> RegistryModel {
        match self.registration {
            Some((client, _)) if self.phase == Phase::Registered => registry.take(client),
            _ => registry,
        }
    }

    /// The frames that go to the client after the handler looked into its
    /// queue once.
    pub open spec fn received(self, registry: RegistryModel) -> Seq<FrameModel> {
        if self.phase != Phase::Registered {
            Seq::empty()
        } else {
            match self.inbound(registry) {
                InboundModel::Frame(frame) => if self.reorder.is_gap(frame) {
                    Seq::empty()
                } else {
                    self.reorder.released(frame)
                },
                _ => Seq::empty(),
            }
        }
    }

    /// The handler after it closed.
    pub open spec fn after_close(self) -> HandlerModel {
        HandlerModel { phase: Phase::Closed, registration: None, directive: None, ..self }
    }

    /// The registry after the handler closed: what the handler registered
    /// is deregistered.
    pub open spec fn registry_after_close(self, registry: RegistryModel) -> RegistryModel {
        match self.registration {
            Some((client, _)) => registry.deregister(client),
            None => registry,
        }
    }

    /// The code that a client is told when the handler closes.
    pub open spec fn close_code(self) -> Option<u16> {
        match self.reason {
            Some(e) => e.spec_close_code(),
            None => None,
        }
    }
}

/// The handler of one client stream.
pub struct ConnectionHandler {
    phase: Phase,
    registration: Option<RegistrationHandle>,
    reorder: ReorderBuffer,
    reason: Option<GatewayError>,
    inbox_capacity: usize,
    gateway_identity: Vec<u8>,
}

impl View for ConnectionHandler {
    type V = HandlerModel;

    closed spec fn view(&self) -> HandlerModel {
        HandlerModel {
            phase: self.phase,
            registration: match self.registration {
                Some(handle) => Some((handle.client@, handle.backend@)),
                None => None,
            },
            directive: match self.registration {
                Some(handle) => Some(handle.poller),
                None => None,
            },
            reorder: self.reorder@,
            reason: self.reason,
            inbox_capacity: self.inbox_capacity as nat,
            gateway_identity: self.gateway_identity@,
        }
    }
}

impl ConnectionHandler {
    /// The handler of a stream that was just accepted. Its reorder buffer
    /// takes frames up to `window` ahead; its client's inbound queue will
    /// hold `inbox_capacity` frames.
    pub fn new(window: usize, inbox_capacity: usize, gateway_identity: Vec<u8>) -> (handler:
        ConnectionHandler)
        ensures
            handler@ == HandlerModel::fresh(
                window as nat,
                inbox_capacity as nat,
                gateway_identity@,
            ),
            handler@.wf(),
    {
        ConnectionHandler {
            phase: Phase::AwaitingHandshake,
            registration: None,
            reorder: ReorderBuffer::new(window),
            reason: None,
            inbox_capacity,
            gateway_identity,
        }
    }

    /// Where the connection stands.
    pub fn phase(&self) -> (phase: Phase)
        ensures
            phase == self@.phase,
    {
        self.phase
    }

    /// Why the connection ends, where it ends for an error.
    pub fn reason(&self) -> (reason: Option<GatewayError>)
        ensures
            reason == self@.reason,
    {
        self.reason
    }

    /// What the handler registered and has not deregistered yet.
    pub fn registration(&self) -> (held: Option<&RegistrationHandle>)
        ensures
            match held {
                Some(handle) => self@.registration == Some((handle.client@, handle.backend@))
                    && self@.directive == Some(handle.poller),
                None => self@.registration is None && self@.directive is None,
            },
    {
        self.registration.as_ref()
    }

    /// The sequence number of the last frame that went to the client.
    pub fn last_delivered(&self) -> (last: u64)
        ensures
            last == self@.reorder.last_delivered,
    {
        self.reorder.last_delivered()
    }

    /// Handles the client's first frame, given whether its signature was
    /// found valid.
    pub fn complete_handshake(
        &mut self,
        state: &mut GatewayState,
        handshake: Handshake,
        signature_ok: bool,
    ) -> (reply: HandshakeReply)
        ensures
            final(self)@ == old(self)@.after_handshake(old(state)@, handshake@, signature_ok),
            old(self)@.wf() ==> final(self)@.wf(),
            final(state)@ == old(self)@.registry_after_handshake(
                old(state)@,
                handshake@,
                signature_ok,
            ),
            final(state)@.wf(),
            reply.gateway_identity@ == old(self)@.gateway_identity,
            reply.result == old(self)@.handshake_result(old(state)@, handshake@, signature_ok),
    {
        let gateway_identity = copy_bytes(self.gateway_identity.as_slice());
        state.note_wf();
        if self.phase != Phase::AwaitingHandshake {
            return HandshakeReply {
                gateway_identity,
                result: Err(GatewayError::InvalidHandshake),
            };
        }
        if !handshake.is_well_formed() || !signature_ok {
            self.phase = Phase::Closed;
            self.reason = Some(GatewayError::InvalidHandshake);
            return HandshakeReply {
                gateway_identity,
                result: Err(GatewayError::InvalidHandshake),
            };
        }
        let client = handshake.client();
        match state.register(client, handshake.backend, self.inbox_capacity) {
            Ok(handle) => {
                let directive = handle.poller;
                self.registration = Some(handle);
                self.phase = Phase::Registered;
                HandshakeReply { gateway_identity, result: Ok(directive) }
            },
            Err(_) => {
                self.phase = Phase::Closed;
                self.reason = Some(GatewayError::DuplicateClient);
                HandshakeReply { gateway_identity, result: Err(GatewayError::DuplicateClient) }
            },
        }
    }

    /// Handles the client's first frame: checks its signature, then goes
    /// on as `complete_handshake` does.
    pub fn on_handshake(&mut self, state: &mut GatewayState, handshake: Handshake) -> (reply:
        HandshakeReply)
        ensures
            final(self)@ == old(self)@.after_handshake(
                old(state)@,
                handshake@,
                handshake@.fits() && handshake@.signed(),
            ),
            old(self)@.wf() ==> final(self)@.wf(),
            final(state)@ == old(self)@.registry_after_handshake(
                old(state)@,
                handshake@,
                handshake@.fits() && handshake@.signed(),
            ),
            final(state)@.wf(),
            reply.gateway_identity@ == old(self)@.gateway_identity,
            reply.result == old(self)@.handshake_result(
                old(state)@,
                handshake@,
                handshake@.fits() && handshake@.signed(),
            ),
    {
        let signature_ok = handshake.is_signed();
        self.complete_handshake(state, handshake, signature_ok)
    }

    /// Handles the bytes of the client's first frame: reads the handshake
    /// from them and goes on as `on_handshake` does. Bytes that hold no
    /// handshake close the connection as an invalid handshake does.
    pub fn on_first_frame(&mut self, state: &mut GatewayState, bytes: &[u8]) -> (reply:
        HandshakeReply)
        ensures
            final(self)@ == old(self)@.after_first_frame(old(state)@, bytes@),
            old(self)@.wf() ==> final(self)@.wf(),
            final(state)@ == old(self)@.registry_after_first_frame(old(state)@, bytes@),
            final(state)@.wf(),
            reply.gateway_identity@ == old(self)@.gateway_identity,
            reply.result == old(self)@.first_frame_result(old(state)@, bytes@),
    {
        match Handshake::decode(bytes) {
            Some(handshake) => self.on_handshake(state, handshake),
            None => {
                state.note_wf();
                self.on_handshake_timeout();
                HandshakeReply {
                    gateway_identity: copy_bytes(self.gateway_identity.as_slice()),
                    result: Err(GatewayError::InvalidHandshake),
                }
            },
        }
    }

    /// Gives the handshake up: the client took too long over it.
    pub fn on_handshake_timeout(&mut self)
        ensures
            final(self)@ == old(self)@.after_timeout(),
            old(self)@.wf() ==> final(self)@.wf(),
    {
        if self.phase == Phase::AwaitingHandshake {
            self.phase = Phase::Closed;
            self.reason = Some(GatewayError::InvalidHandshake);
        }
    }

    /// Notes that the stream failed or that the client closed it.
    pub fn on_stream_error(&mut self)
        ensures
            final(self)@ == old(self)@.after_stream_error(),
            old(self)@.wf() ==> final(self)@.wf(),
    {
        match self.phase {
            Phase::AwaitingHandshake => {
                self.phase = Phase::Closed;
            },
            Phase::Registered => {
                self.phase = Phase::Draining;
            },
            _ => {},
        }
    }

    /// Looks into the client's inbound queue once and hands out, in
    /// order, the frames that go to the client now. A full queue, a gap
    /// beyond the window, or a registration that is gone start the end of
    /// the connection.
    pub fn receive(&mut self, state: &mut GatewayState) -> (frames: Vec<Frame>)
        ensures
            final(self)@ == old(self)@.after_receive(old(state)@),
            old(self)@.wf() ==> final(self)@.wf(),
            final(state)@ == old(self)@.registry_after_receive(old(state)@),
            final(state)@.wf(),
            frames_view(frames@) == old(self)@.received(old(state)@),
    {
        state.note_wf();
        let nothing: Vec<Frame> = Vec::new();
        assert(frames_view(nothing@) =~= Seq::<FrameModel>::empty());
        if self.phase != Phase::Registered {
            return nothing;
        }
        let next = match &self.registration {
            Some(handle) => state.take_inbound(&handle.client),
            None => Inbound::Unregistered,
        };
        match next {
            Inbound::Frame(frame) => match self.reorder.accept(frame) {
                Ok(frames) => frames,
                Err(_) => {
                    self.phase = Phase::Draining;
                    self.reason = Some(GatewayError::SequenceGap);
                    nothing
                },
            },
            Inbound::Empty => nothing,
            Inbound::Overflowed => {
                self.phase = Phase::Draining;
                self.reason = Some(GatewayError::SlowConsumer);
                nothing
            },
            Inbound::Unregistered => {
                self.phase = Phase::Draining;
                nothing
            },
        }
    }

    /// Tags a payload that the client sent with the client and its
    /// backend, to be submitted there as it is. Nothing is forwarded
    /// unless the connection is registered.
    pub fn on_client_frame(&self, payload: Vec<u8>) -> (submission: Option<Submission>)
        ensures
            match submission {
                Some(s) => self@.phase == Phase::Registered && self@.registration == Some(
                    (s.client@, s.backend@),
                ) && s.payload == payload,
                None => self@.phase != Phase::Registered || self@.registration is None,
            },
    {
        if self.phase != Phase::Registered {
            return None;
        }
        match &self.registration {
            Some(handle) => Some(
                Submission {
                    backend: handle.backend.duplicate(),
                    client: handle.client.duplicate(),
                    payload,
                },
            ),
            None => None,
        }
    }

    /// Ends the connection and deregisters what the handler registered.
    /// A handler that is closed a second time finds nothing left to
    /// deregister.
    pub fn close(&mut self, state: &mut GatewayState) -> (notice: CloseNotice)
        ensures
            final(self)@ == old(self)@.after_close(),
            old(self)@.wf() ==> final(self)@.wf(),
            final(state)@ == old(self)@.registry_after_close(old(state)@),
            final(state)@.wf(),
            notice.code == old(self)@.close_code(),
            match notice.released {
                Deregistration::NotRegistered => old(self)@.registration is None || !old(
                    state,
                )@.is_registered(old(self)@.registration->Some_0.0),
                Deregistration::Removed { backend, stop_poller } => {
                    &&& old(self)@.registration is Some
                    &&& old(state)@.is_registered(old(self)@.registration->Some_0.0)
                    &&& backend@ == old(state)@.clients[old(self)@.registration->Some_0.0].backend
                    &&& stop_poller == old(state)@.is_last_client(
                        old(self)@.registration->Some_0.0,
                    )
                },
            },
    {
        let code = match self.reason {
            Some(e) => e.close_code(),
            None => None,
        };
        self.phase = Phase::Closed;
        let mut held: Option<RegistrationHandle> = None;
        std::mem::swap(&mut held, &mut self.registration);
        let released = match held {
            Some(handle) => state.deregister(&handle.client),
            None => {
                state.note_wf();
                Deregistration::NotRegistered
            },
        };
        CloseNotice { code, released }
    }
}

} // verus!
