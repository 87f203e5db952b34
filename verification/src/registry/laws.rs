//! What holds of the registry in every state that its operations reach.

use crate::ident::BackendModel;
use crate::message::MessageModel;
use crate::registry::model::RegistryModel;
use vstd::prelude::*;

verus! {

/// One operation on the registry.
pub enum RegistryEvent {
    Register { client: Seq<u8>, backend: BackendModel, capacity: nat },
    Deregister { client: Seq<u8> },
    Route { message: MessageModel },
    Take { client: Seq<u8> },
}

impl RegistryModel {
    /// The registry after one operation.
    pub open spec fn apply(self, event: RegistryEvent) -> RegistryModel {
        match event {
            RegistryEvent::Register { client, backend, capacity } => self.register(
                client,
                backend,
                capacity,
            ),
            RegistryEvent::Deregister { client } => self.deregister(client),
            RegistryEvent::Route { message } => self.route(message),
            RegistryEvent::Take { client } => self.take(client),
        }
    }

    /// The registry after a run of operations, in order.
    pub open spec fn run(self, events: Seq<RegistryEvent>) -> RegistryModel
        decreases events.len(),
    {
        if events.len() == 0 {
            self
        } else {
            self.run(events.drop_last()).apply(events.last())
        }
    }
}

/// Registering keeps the registry well formed.
pub proof fn lemma_register_keeps_wf(
    s: RegistryModel,
    client: Seq<u8>,
    backend: BackendModel,
    capacity: nat,
)
    requires
        s.wf(),
    ensures
        s.register(client, backend, capacity).wf(),
{
    let t = s.register(client, backend, capacity);
    if !s.is_registered(client) {
        assert(t.clients.contains_key(client));
        assert forall|b: BackendModel| #[trigger] t.pollers.contains(b) <==> t.in_use(b) by {
            if t.pollers.contains(b) && b != backend {
                assert(s.in_use(b));
                let c = choose|c: Seq<u8>| #[trigger]
                    s.clients.contains_key(c) && s.clients[c].backend == b;
                assert(t.clients.contains_key(c) && t.clients[c].backend == b);
            }
            if t.in_use(b) && b != backend {
                let c = choose|c: Seq<u8>| #[trigger]
                    t.clients.contains_key(c) && t.clients[c].backend == b;
                assert(s.clients.contains_key(c) && s.clients[c].backend == b);
            }
        }
    }
}

/// Deregistering keeps the registry well formed.
pub proof fn lemma_deregister_keeps_wf(s: RegistryModel, client: Seq<u8>)
    requires
        s.wf(),
    ensures
        s.deregister(client).wf(),
{
    let t = s.deregister(client);
    if s.is_registered(client) {
        let gone = s.clients[client].backend;
        assert forall|b: BackendModel| #[trigger] t.pollers.contains(b) <==> t.in_use(b) by {
            if t.pollers.contains(b) && b != gone {
                assert(s.in_use(b));
                let c = choose|c: Seq<u8>| #[trigger]
                    s.clients.contains_key(c) && s.clients[c].backend == b;
                assert(t.clients.contains_key(c) && t.clients[c].backend == b);
            }
            if t.in_use(b) {
                let c = choose|c: Seq<u8>| #[trigger]
                    t.clients.contains_key(c) && t.clients[c].backend == b;
                assert(s.clients.contains_key(c) && s.clients[c].backend == b);
            }
        }
    }
}

/// Routing a message keeps the registry well formed.
pub proof fn lemma_route_keeps_wf(s: RegistryModel, message: MessageModel)
    requires
        s.wf(),
    ensures
        s.route(message).wf(),
{
    let t = s.route(message);
    if s.is_registered(message.client) {
        assert(t.clients.dom() =~= s.clients.dom());
        lemma_same_backends_same_use(s, t);
    }
}

/// Reading a queue keeps the registry well formed.
pub proof fn lemma_take_keeps_wf(s: RegistryModel, client: Seq<u8>)
    requires
        s.wf(),
    ensures
        s.take(client).wf(),
{
    let t = s.take(client);
    if t != s {
        assert(t.clients.dom() =~= s.clients.dom());
        lemma_same_backends_same_use(s, t);
    }
}

/// Two registries with the same clients on the same backends use the same
/// backends.
proof fn lemma_same_backends_same_use(s: RegistryModel, t: RegistryModel)
    requires
        s.clients.dom() == t.clients.dom(),
        forall|c: Seq<u8>| #[trigger]
            s.clients.contains_key(c) ==> s.clients[c].backend == t.clients[c].backend,
    ensures
        forall|b: BackendModel| s.in_use(b) <==> t.in_use(b),
{
    assert forall|b: BackendModel| s.in_use(b) <==> t.in_use(b) by {
        if s.in_use(b) {
            let c = choose|c: Seq<u8>| #[trigger]
                s.clients.contains_key(c) && s.clients[c].backend == b;
            assert(t.clients.contains_key(c) && t.clients[c].backend == b);
        }
        if t.in_use(b) {
            let c = choose|c: Seq<u8>| #[trigger]
                t.clients.contains_key(c) && t.clients[c].backend == b;
            assert(s.clients.contains_key(c) && s.clients[c].backend == b);
        }
    }
}

/// Poller lifecycle: however registrations, deregistrations, routings and
/// reads interleave, a backend has a poller exactly while at least one
/// client is registered with it.
pub proof fn lemma_poller_iff_clients(events: Seq<RegistryEvent>, backend: BackendModel)
    ensures
        RegistryModel::empty().run(events).wf(),
        RegistryModel::empty().run(events).has_poller(backend) <==> RegistryModel::empty().run(
            events,
        ).clients_of(backend).len() >= 1,
    decreases events.len(),
{
    let start = RegistryModel::empty();
    if events.len() == 0 {
        assert(!start.in_use(backend));
    } else {
        lemma_poller_iff_clients(events.drop_last(), backend);
        let before = start.run(events.drop_last());
        match events.last() {
            RegistryEvent::Register { client, backend: to, capacity } => {
                lemma_register_keeps_wf(before, client, to, capacity);
            },
            RegistryEvent::Deregister { client } => {
                lemma_deregister_keeps_wf(before, client);
            },
            RegistryEvent::Route { message } => {
                lemma_route_keeps_wf(before, message);
            },
            RegistryEvent::Take { client } => {
                lemma_take_keeps_wf(before, client);
            },
        }
    }
    lemma_in_use_counts(start.run(events), backend);
}

/// In a well-formed registry the clients of a backend are finitely many,
/// and the backend is in use exactly if they are at least one.
pub proof fn lemma_in_use_counts(s: RegistryModel, backend: BackendModel)
    requires
        s.wf(),
    ensures
        s.clients_of(backend).finite(),
        s.in_use(backend) <==> s.clients_of(backend).len() >= 1,
{
    let of = s.clients_of(backend);
    vstd::set_lib::lemma_len_subset(of, s.clients.dom());
    if s.in_use(backend) {
        let c = choose|c: Seq<u8>| #[trigger]
            s.clients.contains_key(c) && s.clients[c].backend == backend;
        assert(of.contains(c));
        if of.len() == 0 {
            assert(of =~= Set::empty());
        }
    }
    if of.len() >= 1 {
        let c = of.choose();
        assert(of.contains(c));
        assert(s.clients.contains_key(c) && s.clients[c].backend == backend);
    }
}

/// Registering the first client of a backend creates its poller, and
/// creates no other.
pub proof fn lemma_first_client_starts_poller(
    s: RegistryModel,
    client: Seq<u8>,
    backend: BackendModel,
    capacity: nat,
)
    requires
        s.wf(),
        !s.is_registered(client),
        s.clients_of(backend).len() == 0,
    ensures
        !s.has_poller(backend),
        s.register(client, backend, capacity).has_poller(backend),
        s.register(client, backend, capacity).clients_of(backend) == set![client],
        forall|other: BackendModel|
            other != backend ==> (s.register(client, backend, capacity).has_poller(other)
                <==> s.has_poller(other)),
{
    lemma_in_use_counts(s, backend);
    let t = s.register(client, backend, capacity);
    assert forall|c: Seq<u8>| t.clients_of(backend).contains(c) <==> set![client].contains(c) by {
        if t.clients_of(backend).contains(c) && c != client {
            assert(s.clients.contains_key(c) && s.clients[c].backend == backend);
        }
    }
    assert(t.clients_of(backend) =~= set![client]);
}

/// Deregistering the last client of a backend removes its poller, and
/// removes no other.
pub proof fn lemma_last_client_stops_poller(s: RegistryModel, client: Seq<u8>)
    requires
        s.wf(),
        s.is_registered(client),
        s.clients_of(s.clients[client].backend) == set![client],
    ensures
        s.is_last_client(client),
        s.has_poller(s.clients[client].backend),
        !s.deregister(client).has_poller(s.clients[client].backend),
        forall|other: BackendModel|
            other != s.clients[client].backend ==> (s.deregister(client).has_poller(other)
                <==> s.has_poller(other)),
{
    let backend = s.clients[client].backend;
    let t = s.deregister(client);
    if t.in_use(backend) {
        let c = choose|c: Seq<u8>| #[trigger]
            t.clients.contains_key(c) && t.clients[c].backend == backend;
        assert(s.clients_of(backend).contains(c));
    }
}

/// A client is registered with one backend at a time.
pub proof fn lemma_one_backend_per_client(
    s: RegistryModel,
    client: Seq<u8>,
    first: BackendModel,
    second: BackendModel,
)
    requires
        s.clients_of(first).contains(client),
        s.clients_of(second).contains(client),
    ensures
        first == second,
{
}

/// Idempotent deregistration: deregistering a client that is not
/// registered changes nothing, and so does deregistering a second time.
pub proof fn lemma_deregister_idempotent(s: RegistryModel, client: Seq<u8>)
    ensures
        !s.is_registered(client) ==> s.deregister(client) == s,
        !s.deregister(client).is_registered(client),
        s.deregister(client).deregister(client) == s.deregister(client),
{
}

/// Isolation: whatever is routed to one client, with whatever result, the
/// registration of every other client, the pollers, and what the other
/// client is given next stay as they were.
pub proof fn lemma_route_isolated(s: RegistryModel, message: MessageModel, other: Seq<u8>)
    requires
        other != message.client,
    ensures
        s.route(message).is_registered(other) == s.is_registered(other),
        s.is_registered(other) ==> s.route(message).clients[other] == s.clients[other],
        s.route(message).pollers == s.pollers,
        s.route(message).next_inbound(other) == s.next_inbound(other),
        forall|m: MessageModel|
            m.client == other ==> s.route(message).route_result(m) == s.route_result(m),
{
}

/// Isolation: closing one client's connection leaves the registration of
/// every other client as it was, keeps the poller of the other client's
/// backend, and changes nothing in what the other client is given.
pub proof fn lemma_deregister_isolated(s: RegistryModel, client: Seq<u8>, other: Seq<u8>)
    requires
        s.wf(),
        other != client,
        s.is_registered(other),
    ensures
        s.deregister(client).is_registered(other),
        s.deregister(client).clients[other] == s.clients[other],
        s.deregister(client).has_poller(s.clients[other].backend),
        s.deregister(client).next_inbound(other) == s.next_inbound(other),
        forall|m: MessageModel|
            m.client == other ==> s.deregister(client).route_result(m) == s.route_result(m),
        forall|m: MessageModel|
            m.client == other ==> s.deregister(client).route(m).clients[other] == s.route(
                m,
            ).clients[other],
{
    let t = s.deregister(client);
    if s.is_registered(client) {
        let rest = RegistryModel { clients: s.clients.remove(client), pollers: s.pollers };
        assert(rest.clients.contains_key(other));
        let b = s.clients[other].backend;
        assert(s.in_use(b));
        if b == s.clients[client].backend {
            assert(rest.clients.contains_key(other) && rest.clients[other].backend == b);
            assert(rest.in_use(b));
        }
    } else {
        assert(s.in_use(s.clients[other].backend));
    }
}

} // verus!
