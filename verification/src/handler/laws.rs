//! What holds of a connection handler whatever happens to it.

use crate::handler::{HandlerModel, Phase};
use crate::handshake::HandshakeModel;
use crate::message::{FrameModel, MessageModel};
use crate::registry::laws::{lemma_deregister_isolated, lemma_take_keeps_wf};
use crate::registry::{InboundModel, RegistryModel};
use crate::reorder::lemma_accept_keeps_wf;
use vstd::prelude::*;

verus! {

/// One thing that happens to a handler. What the registry holds at that
/// moment is part of the event: pollers and other handlers change it in
/// between as they like.
pub enum HandlerEvent {
    FirstFrame { registry: RegistryModel, bytes: Seq<u8> },
    Handshake { registry: RegistryModel, handshake: HandshakeModel, signature_ok: bool },
    HandshakeTimeout,
    StreamError,
    Receive { registry: RegistryModel },
    Close,
}

impl HandlerModel {
    /// The handler after one event.
    pub open spec fn apply(self, event: HandlerEvent) -> HandlerModel {
        match event {
            HandlerEvent::FirstFrame { registry, bytes } => self.after_first_frame(registry, bytes),
            HandlerEvent::Handshake { registry, handshake, signature_ok } => self.after_handshake(
                registry,
                handshake,
                signature_ok,
            ),
            HandlerEvent::HandshakeTimeout => self.after_timeout(),
            HandlerEvent::StreamError => self.after_stream_error(),
            HandlerEvent::Receive { registry } => self.after_receive(registry),
            HandlerEvent::Close => self.after_close(),
        }
    }

    /// The frames that go to the client on one event.
    pub open spec fn emitted(self, event: HandlerEvent) -> Seq<FrameModel> {
        match event {
            HandlerEvent::Receive { registry } => self.received(registry),
            _ => Seq::empty(),
        }
    }

    /// The handler after a run of events, in order.
    pub open spec fn run(self, events: Seq<HandlerEvent>) -> HandlerModel
        decreases events.len(),
    {
        if events.len() == 0 {
            self
        } else {
            self.run(events.drop_last()).apply(events.last())
        }
    }

    /// All frames that went to the client during a run of events.
    pub open spec fn delivered(self, events: Seq<HandlerEvent>) -> Seq<FrameModel>
        decreases events.len(),
    {
        if events.len() == 0 {
            Seq::empty()
        } else {
            self.delivered(events.drop_last()) + self.run(events.drop_last()).emitted(
                events.last(),
            )
        }
    }
}

/// One event keeps a handler well formed, never takes its connection back
/// to an earlier phase, and sends the client the frames that follow the
/// last one sent, one by one.
pub proof fn lemma_event_step(h: HandlerModel, event: HandlerEvent)
    requires
        h.wf(),
    ensures
        h.apply(event).wf(),
        h.apply(event).phase.rank() >= h.phase.rank(),
        h.apply(event).reorder.slots.len() == h.reorder.slots.len(),
        h.apply(event).reorder.last_delivered == h.reorder.last_delivered + h.emitted(event).len(),
        forall|i: int|
            0 <= i < h.emitted(event).len() ==> (#[trigger] h.emitted(event)[i]).sequence
                == h.reorder.last_delivered + 1 + i,
{
    match event {
        HandlerEvent::Receive { registry } => {
            if h.phase == Phase::Registered {
                match h.inbound(registry) {
                    InboundModel::Frame(frame) => {
                        lemma_accept_keeps_wf(h.reorder, frame);
                    },
                    _ => {},
                }
            }
        },
        _ => {},
    }
}

/// Ordering: whatever happens to a handler, in whatever order, and
/// whatever the registry holds in between, the frames that go to its
/// client carry the sequence numbers 1, 2, 3 and so on, with no gap and
/// none twice.
pub proof fn lemma_delivery_in_order(
    window: nat,
    inbox_capacity: nat,
    gateway_identity: Seq<u8>,
    events: Seq<HandlerEvent>,
)
    ensures
        HandlerModel::fresh(window, inbox_capacity, gateway_identity).run(events).wf(),
        HandlerModel::fresh(window, inbox_capacity, gateway_identity).run(
            events,
        ).reorder.last_delivered == HandlerModel::fresh(
            window,
            inbox_capacity,
            gateway_identity,
        ).delivered(events).len(),
        forall|i: int|
            0 <= i < HandlerModel::fresh(window, inbox_capacity, gateway_identity).delivered(
                events,
            ).len() ==> (#[trigger] HandlerModel::fresh(
                window,
                inbox_capacity,
                gateway_identity,
            ).delivered(events)[i]).sequence == i + 1,
    decreases events.len(),
{
    let start = HandlerModel::fresh(window, inbox_capacity, gateway_identity);
    if events.len() > 0 {
        lemma_delivery_in_order(window, inbox_capacity, gateway_identity, events.drop_last());
        lemma_event_step(start.run(events.drop_last()), events.last());
    }
}

/// No frame goes to a client before its handshake was accepted, nor
/// after its connection started to end.
pub proof fn lemma_delivery_only_while_registered(h: HandlerModel, event: HandlerEvent)
    requires
        h.phase != Phase::Registered,
    ensures
        h.emitted(event).len() == 0,
{
}

/// A handler deregisters once: closing ends the connection and gives the
/// registration up, and closing again changes neither the handler nor the
/// registry.
pub proof fn lemma_close_releases_once(h: HandlerModel, registry: RegistryModel)
    ensures
        h.after_close().phase == Phase::Closed,
        h.after_close().registration is None,
        h.after_close().directive is None,
        h.after_close().after_close() == h.after_close(),
        h.after_close().registry_after_close(registry) == registry,
        h.registration is Some ==> !h.registry_after_close(registry).is_registered(
            h.registration->Some_0.0,
        ),
{
}

/// A handler whose first frame was refused never touches the registry,
/// not even when it closes: a second connection of a client leaves the
/// first one registered.
pub proof fn lemma_refused_handshake_registers_nothing(
    h: HandlerModel,
    registry: RegistryModel,
    handshake: HandshakeModel,
    signature_ok: bool,
)
    requires
        h.wf(),
        h.phase == Phase::AwaitingHandshake,
        h.handshake_verdict(registry, handshake, signature_ok) is Err,
    ensures
        h.registry_after_handshake(registry, handshake, signature_ok) == registry,
        h.after_handshake(registry, handshake, signature_ok).registration is None,
        h.after_handshake(registry, handshake, signature_ok).registry_after_close(registry)
            == registry,
{
}

/// Isolation: when one client's connection fails on a gap or on a full
/// queue and is closed, every other client keeps its registration and its
/// queue as they were, its backend keeps its poller, and what is routed to
/// it is taken as before.
pub proof fn lemma_fault_isolated(h: HandlerModel, registry: RegistryModel, other: Seq<u8>)
    requires
        h.wf(),
        registry.wf(),
        h.phase == Phase::Registered,
        h.registration->Some_0.0 != other,
        registry.is_registered(other),
    ensures
        ({
            let failing = h.after_receive(registry);
            let left = failing.registry_after_close(h.registry_after_receive(registry));
            &&& left.is_registered(other)
            &&& left.clients[other] == registry.clients[other]
            &&& left.has_poller(registry.clients[other].backend)
            &&& left.next_inbound(other) == registry.next_inbound(other)
            &&& forall|m: MessageModel|
                m.client == other ==> left.route_result(m) == registry.route_result(m)
        }),
{
    let client = h.registration->Some_0.0;
    let taken = h.registry_after_receive(registry);
    lemma_take_keeps_wf(registry, client);
    assert(taken.is_registered(other));
    assert(taken.clients[other] == registry.clients[other]);
    lemma_deregister_isolated(taken, client, other);
}

} // verus!
