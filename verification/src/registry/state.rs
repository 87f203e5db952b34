//! The shared coordinator of handlers and pollers.

use crate::error::GatewayError;
use crate::ident::{BackendAddress, ClientId};
use crate::message::Message;
use crate::registry::model::{Deregistration, Inbound, PollerDirective, RegistrationHandle, RegistryModel};
use crate::registry::tables::{lemma_model_wf, Tables};
use vstd::prelude::*;

verus! {

/// The single owner of the registry. Handlers and pollers reach it only
/// through the operations below; none of them waits for a client or a
/// backend.
pub struct GatewayState {
    tables: Tables,
}

impl View for GatewayState {
    type V = RegistryModel;

    closed spec fn view(&self) -> RegistryModel {
        self.tables.model()
    }
}

impl GatewayState {
    #[verifier::type_invariant]
    spec fn inv(&self) -> bool {
        self.tables.wf()
    }

    /// A registry in which nobody is registered.
    pub fn new() -> (state: GatewayState)
        ensures
            state@ == RegistryModel::empty(),
            state@.wf(),
    {
        let tables = Tables::new();
        proof {
            lemma_model_wf(tables);
        }
        GatewayState { tables }
    }

    /// Lets a caller in this crate know that the registry it holds is well
    /// formed, as every registry is.
    pub(crate) fn note_wf(&self)
        ensures
            self@.wf(),
    {
        proof {
            use_type_invariant(self);
            lemma_model_wf(self.tables);
        }
    }

    /// Registers `client` with `backend` and gives it an inbound queue of
    /// `capacity` frames. A client that is registered already is refused
    /// and the registry stays as it is. The handle says whether the
    /// backend needs a poller started: it does exactly if it had no client.
    pub fn register(&mut self, client: ClientId, backend: BackendAddress, capacity: usize) -> (r:
        Result<RegistrationHandle, GatewayError>)
        ensures
            final(self)@ == old(self)@.register(client@, backend@, capacity as nat),
            final(self)@.wf(),
            old(self)@.is_registered(client@) ==> r == Err::<RegistrationHandle, GatewayError>(
                GatewayError::AlreadyRegistered,
            ),
            !old(self)@.is_registered(client@) ==> r is Ok && r->Ok_0.client@ == client@
                && r->Ok_0.backend@ == backend@ && r->Ok_0.poller == (if old(self)@.has_poller(
                backend@,
            ) {
                PollerDirective::Reuse
            } else {
                PollerDirective::Start
            }),
    {
        proof {
            use_type_invariant(&*self);
        }
        let mut tables = Tables::new();
        std::mem::swap(&mut tables, &mut self.tables);
        let r = tables.register(client, backend, capacity);
        proof {
            lemma_model_wf(tables);
        }
        self.tables = tables;
        r
    }

    /// Removes `client` from the registry, with whatever still waited in
    /// its queue. Says which backend it left and whether that backend's
    /// poller must stop, which it must exactly if no client is left there.
    /// For a client that is not registered nothing changes.
    pub fn deregister(&mut self, client: &ClientId) -> (done: Deregistration)
        ensures
            final(self)@ == old(self)@.deregister(client@),
            final(self)@.wf(),
            match done {
                Deregistration::NotRegistered => !old(self)@.is_registered(client@),
                Deregistration::Removed { backend, stop_poller } => {
                    &&& old(self)@.is_registered(client@)
                    &&& backend@ == old(self)@.clients[client@].backend
                    &&& stop_poller == old(self)@.is_last_client(client@)
                },
            },
    {
        proof {
            use_type_invariant(&*self);
        }
        let mut tables = Tables::new();
        std::mem::swap(&mut tables, &mut self.tables);
        let done = tables.deregister(client);
        proof {
            lemma_model_wf(tables);
        }
        self.tables = tables;
        done
    }

    /// Puts `message` into the queue of the client it is addressed to,
    /// without waiting. A message for a client that is not registered is
    /// dropped; one for a full queue is dropped too and marks the queue as
    /// overflowed.
    pub fn route_to_client(&mut self, message: Message) -> (r: Result<(), GatewayError>)
        ensures
            final(self)@ == old(self)@.route(message@),
            final(self)@.wf(),
            r == old(self)@.route_result(message@),
    {
        proof {
            use_type_invariant(&*self);
        }
        let mut tables = Tables::new();
        std::mem::swap(&mut tables, &mut self.tables);
        let r = tables.route(message);
        proof {
            lemma_model_wf(tables);
        }
        self.tables = tables;
        r
    }

    /// The receiving end of `client`'s queue: takes the oldest frame out,
    /// or says why there is none.
    pub fn take_inbound(&mut self, client: &ClientId) -> (next: Inbound)
        ensures
            final(self)@ == old(self)@.take(client@),
            final(self)@.wf(),
            next@ == old(self)@.next_inbound(client@),
    {
        proof {
            use_type_invariant(&*self);
        }
        let mut tables = Tables::new();
        std::mem::swap(&mut tables, &mut self.tables);
        let next = tables.take(client);
        proof {
            lemma_model_wf(tables);
        }
        self.tables = tables;
        next
    }

    /// Ends every registration at once, as a gateway does that shuts
    /// down, and hands out the backends whose pollers must stop: each
    /// backend that had one, once.
    pub fn shutdown(&mut self) -> (stopped: Vec<BackendAddress>)
        ensures
            final(self)@ == RegistryModel::empty(),
            final(self)@.wf(),
            forall|i: int, j: int|
                0 <= i < j < stopped.len() ==> (#[trigger] stopped@[i])@ != (#[trigger] stopped@[j])@,
            forall|b: crate::ident::BackendModel|
                old(self)@.has_poller(b) <==> exists|j: int|
                    0 <= j < stopped.len() && (#[trigger] stopped@[j])@ == b,
    {
        proof {
            use_type_invariant(&*self);
        }
        let mut tables = Tables::new();
        proof {
            lemma_model_wf(tables);
        }
        std::mem::swap(&mut tables, &mut self.tables);
        tables.into_pollers()
    }

    /// Whether `client` is registered.
    pub fn is_registered(&self, client: &ClientId) -> (registered: bool)
        ensures
            registered == self@.is_registered(client@),
    {
        proof {
            use_type_invariant(self);
        }
        self.tables.is_registered(client)
    }

    /// Whether `backend` has a poller.
    pub fn has_poller(&self, backend: &BackendAddress) -> (has: bool)
        ensures
            has == self@.has_poller(backend@),
    {
        self.tables.has_poller(backend)
    }

    /// The backend that `client` is registered with.
    pub fn backend_of(&self, client: &ClientId) -> (backend: Option<BackendAddress>)
        ensures
            match backend {
                Some(b) => self@.is_registered(client@) && b@ == self@.clients[client@].backend,
                None => !self@.is_registered(client@),
            },
    {
        proof {
            use_type_invariant(self);
        }
        self.tables.backend_of(client)
    }

    /// The highest sequence number that was put into `client`'s queue;
    /// zero where none was.
    pub fn last_delivered(&self, client: &ClientId) -> (last: Option<u64>)
        ensures
            match last {
                Some(n) => self@.is_registered(client@) && n
                    == self@.clients[client@].last_delivered,
                None => !self@.is_registered(client@),
            },
    {
        proof {
            use_type_invariant(self);
        }
        self.tables.last_delivered(client)
    }

    /// The clients that are registered with `backend` now, each once.
    pub fn snapshot(&self, backend: &BackendAddress) -> (clients: Vec<ClientId>)
        ensures
            self@.wf(),
            forall|i: int, j: int|
                0 <= i < j < clients.len() ==> (#[trigger] clients@[i])@ != (#[trigger] clients@[j])@,
            forall|c: Seq<u8>|
                self@.clients_of(backend@).contains(c) <==> exists|i: int|
                    0 <= i < clients.len() && (#[trigger] clients@[i])@ == c,
    {
        proof {
            use_type_invariant(self);
            lemma_model_wf(self.tables);
        }
        self.tables.snapshot(backend)
    }
}

} // verus!
