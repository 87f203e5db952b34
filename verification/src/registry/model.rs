//! The registry as plain values, and what its operations hand back.

use crate::error::GatewayError;
use crate::ident::{BackendAddress, BackendModel, ClientId};
use crate::message::{Frame, FrameModel, MessageModel};
use vstd::prelude::*;

verus! {

/// One client's registration, as plain values.
pub struct RegistrationModel {
    /// The backend that the client is registered with.
    pub backend: BackendModel,
    /// How many frames the inbound queue can hold.
    pub capacity: nat,
    /// The frames that wait for the client's handler, oldest first.
    pub inbox: Seq<FrameModel>,
    /// Whether a frame was refused because the queue was full.
    pub overflowed: bool,
    /// The highest sequence number that was put into the queue.
    pub last_delivered: nat,
}

impl RegistrationModel {
    /// The registration of a client that has just registered with `backend`.
    pub open spec fn fresh(backend: BackendModel, capacity: nat) -> RegistrationModel {
        RegistrationModel {
            backend,
            capacity,
            inbox: Seq::empty(),
            overflowed: false,
            last_delivered: 0,
        }
    }

    /// The registration after `frame` was offered to its queue.
    pub open spec fn offer(self, frame: FrameModel) -> RegistrationModel {
        if self.inbox.len() < self.capacity {
            RegistrationModel {
                inbox: self.inbox.push(frame),
                last_delivered: if frame.sequence > self.last_delivered {
                    frame.sequence
                } else {
                    self.last_delivered
                },
                ..self
            }
        } else {
            RegistrationModel { overflowed: true, ..self }
        }
    }
}

/// The registry, as plain values.
pub struct RegistryModel {
    /// The registration of each registered client.
    pub clients: Map<Seq<u8>, RegistrationModel>,
    /// The backends that have a poller.
    pub pollers: Set<BackendModel>,
}

/// What `register` tells its caller to do about the backend's poller.
#[derive(Clone, Copy, Debug, PartialEq, Eq, Structural)]
pub enum PollerDirective {
    /// The backend had no client: a poller must be started for it.
    Start,
    /// The backend has a poller already.
    Reuse,
}

/// What a handler keeps of its registration, to deregister with later.
#[derive(Clone, Debug, PartialEq, Eq)]
pub struct RegistrationHandle {
    pub client: ClientId,
    pub backend: BackendAddress,
    pub poller: PollerDirective,
}

/// What `deregister` did.
#[derive(Clone, Debug, PartialEq, Eq)]
pub enum Deregistration {
    /// The client was not registered; nothing changed.
    NotRegistered,
    /// The client was removed from `backend`; where `stop_poller` holds it
    /// was the backend's last client and the backend's poller must stop.
    Removed { backend: BackendAddress, stop_poller: bool },
}

/// What the receiving end of a client's inbound queue yields.
#[derive(Clone, Debug, PartialEq, Eq)]
pub enum Inbound {
    /// The oldest frame that waited.
    Frame(Frame),
    /// Nothing waits.
    Empty,
    /// The queue overflowed: the client is too slow.
    Overflowed,
    /// The client is no longer registered.
    Unregistered,
}

/// What `Inbound` is, as plain values.
pub enum InboundModel {
    Frame(FrameModel),
    Empty,
    Overflowed,
    Unregistered,
}

impl View for Inbound {
    type V = InboundModel;

    open spec fn view(&self) -> InboundModel {
        match self {
            Inbound::Frame(f) => InboundModel::Frame(f@),
            Inbound::Empty => InboundModel::Empty,
            Inbound::Overflowed => InboundModel::Overflowed,
            Inbound::Unregistered => InboundModel::Unregistered,
        }
    }
}

impl RegistryModel {
    /// The registry in which nobody is registered.
    pub open spec fn empty() -> RegistryModel {
        RegistryModel { clients: Map::empty(), pollers: Set::empty() }
    }

    /// Whether `client` is registered.
    pub open spec fn is_registered(self, client: Seq<u8>) -> bool {
        self.clients.contains_key(client)
    }

    /// Whether some client is registered with `backend`.
    pub open spec fn in_use(self, backend: BackendModel) -> bool {
        exists|c: Seq<u8>| #[trigger] self.clients.contains_key(c) && self.clients[c].backend == backend
    }

    /// The clients that are registered with `backend`.
    pub open spec fn clients_of(self, backend: BackendModel) -> Set<Seq<u8>> {
        Set::new(|c: Seq<u8>| self.clients.contains_key(c) && self.clients[c].backend == backend)
    }

    /// Whether `backend` has a poller.
    pub open spec fn has_poller(self, backend: BackendModel) -> bool {
        self.pollers.contains(backend)
    }

    /// What holds of every registry: a backend has a poller exactly while
    /// a client is registered with it, and no queue holds more than its
    /// capacity.
    pub open spec fn wf(self) -> bool {
        &&& self.clients.dom().finite()
        &&& forall|b: BackendModel| #[trigger] self.pollers.contains(b) <==> self.in_use(b)
        &&& forall|c: Seq<u8>| #[trigger]
            self.clients.contains_key(c) ==> self.clients[c].inbox.len()
                <= self.clients[c].capacity
    }

    /// The registry after `client` asked to be registered with `backend`.
    pub open spec fn register(self, client: Seq<u8>, backend: BackendModel, capacity: nat)
        -> RegistryModel {
        if self.is_registered(client) {
            self
        } else {
            RegistryModel {
                clients: self.clients.insert(client, RegistrationModel::fresh(backend, capacity)),
                pollers: self.pollers.insert(backend),
            }
        }
    }

    /// The registry after `client` was deregistered.
    pub open spec fn deregister(self, client: Seq<u8>) -> RegistryModel {
        if self.is_registered(client) {
            let backend = self.clients[client].backend;
            let rest = RegistryModel { clients: self.clients.remove(client), pollers: self.pollers };
            RegistryModel {
                clients: rest.clients,
                pollers: if rest.in_use(backend) {
                    self.pollers
                } else {
                    self.pollers.remove(backend)
                },
            }
        } else {
            self
        }
    }

    /// Whether deregistering `client` leaves its backend without a client.
    pub open spec fn is_last_client(self, client: Seq<u8>) -> bool {
        &&& self.is_registered(client)
        &&& !self.deregister(client).in_use(self.clients[client].backend)
    }

    /// The registry after `message` was routed to its client.
    pub open spec fn route(self, message: MessageModel) -> RegistryModel {
        if self.is_registered(message.client) {
            RegistryModel {
                clients: self.clients.insert(
                    message.client,
                    self.clients[message.client].offer(message.frame()),
                ),
                pollers: self.pollers,
            }
        } else {
            self
        }
    }

    /// What routing `message` reports.
    pub open spec fn route_result(self, message: MessageModel) -> Result<(), GatewayError> {
        if !self.is_registered(message.client) {
            Err(GatewayError::UnknownClient)
        } else if self.clients[message.client].inbox.len()
            < self.clients[message.client].capacity {
            Ok(())
        } else {
            Err(GatewayError::SlowConsumer)
        }
    }

    /// What the receiving end of `client`'s queue yields next.
    pub open spec fn next_inbound(self, client: Seq<u8>) -> InboundModel {
        if !self.is_registered(client) {
            InboundModel::Unregistered
        } else if self.clients[client].overflowed {
            InboundModel::Overflowed
        } else if self.clients[client].inbox.len() == 0 {
            InboundModel::Empty
        } else {
            InboundModel::Frame(self.clients[client].inbox[0])
        }
    }

    /// The registry after the receiving end of `client`'s queue was read.
    pub open spec fn take(self, client: Seq<u8>) -> RegistryModel {
        match self.next_inbound(client) {
            InboundModel::Frame(_) => RegistryModel {
                clients: self.clients.insert(
                    client,
                    RegistrationModel {
                        inbox: self.clients[client].inbox.drop_first(),
                        ..self.clients[client]
                    },
                ),
                pollers: self.pollers,
            },
            _ => self,
        }
    }
}

} // verus!
