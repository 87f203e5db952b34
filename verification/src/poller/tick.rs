//! The poller of one backend: what it does at each tick.

use crate::error::GatewayError;
use crate::ident::{BackendAddress, BackendModel, ClientId};
use crate::message::{Message, MessageModel};
use crate::poller::batch::{
    batches_view, count_new, cursor_after, is_least, least_above, least_in,
    lemma_count_new_falls, lemma_least_in_all, messages_view, route_order, BatchModel,
    ClientBatch,
};
use crate::poller::cursors::{
    cursor_map, distinct_cursors, find_cursor, has_cursor, lemma_cursor_at, lemma_cursor_push,
    lemma_cursor_remove, lemma_cursor_update, Cursor,
};
use crate::registry::{GatewayState, RegistrationHandle, RegistryModel};
use vstd::prelude::*;

verus! {

/// What became of one client's share of a poll response.
#[derive(Clone, Copy, Debug, PartialEq, Eq, Structural)]
pub enum BatchOutcome {
    /// The poller keeps no cursor for the client: the batch was not asked
    /// for and is dropped.
    NotRequested,
    /// The authenticity proof of the batch was not valid: the batch is
    /// dropped for this cycle and the cursor stays.
    VerificationFailed,
    /// The messages were routed: `delivered` reached the client's queue,
    /// `refused` did not, because the client is gone or its queue full.
    Routed { delivered: usize, refused: usize },
}

impl BatchOutcome {
    /// The error that the outcome stands for, where it stands for one.
    pub open spec fn spec_error(self) -> Option<GatewayError> {
        match self {
            BatchOutcome::VerificationFailed => Some(GatewayError::VerificationFailed),
            _ => None,
        }
    }

    /// The error that the outcome stands for, where it stands for one.
    #[verifier::when_used_as_spec(spec_error)]
    pub fn error(self) -> (error: Option<GatewayError>)
        ensures
            error == self.spec_error(),
    {
        match self {
            BatchOutcome::VerificationFailed => Some(GatewayError::VerificationFailed),
            _ => None,
        }
    }
}

/// What a poller does at the start of a tick.
#[derive(Clone, Debug, PartialEq, Eq)]
pub enum TickPlan {
    /// The backend has no client left: the poller ends.
    Terminate,
    /// Query the backend for the messages above these cursors.
    Query(Vec<Cursor>),
}

/// The clients that `ids` name.
pub open spec fn client_set(ids: Seq<ClientId>) -> Set<Seq<u8>> {
    Set::new(|c: Seq<u8>| exists|k: int| 0 <= k < ids.len() && (#[trigger] ids[k])@ == c)
}

/// A poller, as plain values.
pub struct PollerModel {
    pub backend: BackendModel,
    /// For each client that is polled for, the highest sequence number
    /// that was fetched.
    pub cursors: Map<Seq<u8>, nat>,
    /// How many queries failed in a row.
    pub failures: nat,
    /// How many failures in a row go unreported.
    pub threshold: nat,
}

impl PollerModel {
    /// The poller of `backend` before its first tick.
    pub open spec fn fresh(backend: BackendModel, threshold: nat) -> PollerModel {
        PollerModel { backend, cursors: Map::empty(), failures: 0, threshold }
    }

    /// How far `client`'s messages were fetched: zero for a client
    /// without a cursor.
    pub open spec fn cursor_of(self, client: Seq<u8>) -> nat {
        if self.cursors.contains_key(client) {
            self.cursors[client]
        } else {
            0
        }
    }

    /// The poller once its cursors follow the snapshot `clients`: a client
    /// that left loses its cursor, one that came starts at zero, the
    /// others keep theirs.
    pub open spec fn synced(self, clients: Set<Seq<u8>>) -> PollerModel {
        PollerModel {
            cursors: Map::new(|c: Seq<u8>| clients.contains(c), |c: Seq<u8>| self.cursor_of(c)),
            ..self
        }
    }

    /// The poller once `client` has registered with `backend`: where that
    /// is the backend that is polled, the client's cursor stands at zero,
    /// wherever it stood before; a registration elsewhere changes nothing.
    pub open spec fn after_registration(self, client: Seq<u8>, backend: BackendModel)
        -> PollerModel {
        if backend == self.backend {
            PollerModel { cursors: self.cursors.insert(client, 0), ..self }
        } else {
            self
        }
    }

    /// The poller once it forgot how far `client` was fetched.
    pub open spec fn after_forget(self, client: Seq<u8>) -> PollerModel {
        PollerModel { cursors: self.cursors.remove(client), ..self }
    }

    /// The poller after a query failed: the cursors stay, the failures
    /// are counted.
    pub open spec fn after_failure(self) -> PollerModel {
        PollerModel {
            failures: if self.failures < u64::MAX {
                self.failures + 1
            } else {
                self.failures
            },
            ..self
        }
    }

    /// The poller after a query succeeded.
    pub open spec fn after_success(self) -> PollerModel {
        PollerModel { failures: 0, ..self }
    }

    /// Whether `batch` is routed: it is if it was asked for and is
    /// authentic.
    pub open spec fn takes(self, batch: BatchModel) -> bool {
        self.cursors.contains_key(batch.client) && batch.authentic
    }

    /// The messages of `batch` in the order in which they are routed.
    pub open spec fn batch_order(self, batch: BatchModel) -> Seq<MessageModel> {
        route_order(batch.messages, batch.client, self.cursor_of(batch.client))
    }

    /// The poller after `batch`: the cursor of its client stands at the
    /// highest sequence number that was routed, whether or not the
    /// message reached the client.
    pub open spec fn after_batch(self, batch: BatchModel) -> PollerModel {
        if self.takes(batch) {
            PollerModel {
                cursors: self.cursors.insert(
                    batch.client,
                    cursor_after(self.batch_order(batch), self.cursor_of(batch.client)),
                ),
                ..self
            }
        } else {
            self
        }
    }

    /// The registry after `batch`.
    pub open spec fn registry_after_batch(self, registry: RegistryModel, batch: BatchModel)
        -> RegistryModel {
        if self.takes(batch) {
            registry.route_all(self.batch_order(batch))
        } else {
            registry
        }
    }

    /// What is reported of `batch`.
    pub open spec fn batch_outcome(self, registry: RegistryModel, batch: BatchModel)
        -> BatchOutcome {
        if !self.cursors.contains_key(batch.client) {
            BatchOutcome::NotRequested
        } else if !batch.authentic {
            BatchOutcome::VerificationFailed
        } else {
            BatchOutcome::Routed {
                delivered: registry.count_delivered(self.batch_order(batch)) as usize,
                refused: (self.batch_order(batch).len() - registry.count_delivered(
                    self.batch_order(batch),
                )) as usize,
            }
        }
    }
}

/// A poller and the registry in the course of one poll response.
pub struct TickModel {
    pub poller: PollerModel,
    pub registry: RegistryModel,
    pub outcomes: Seq<BatchOutcome>,
}

impl TickModel {
    /// The state after one more batch.
    pub open spec fn step(self, batch: BatchModel) -> TickModel {
        TickModel {
            poller: self.poller.after_batch(batch),
            registry: self.poller.registry_after_batch(self.registry, batch),
            outcomes: self.outcomes.push(self.poller.batch_outcome(self.registry, batch)),
        }
    }

    /// The state after `batches`, taken in order.
    pub open spec fn run(self, batches: Seq<BatchModel>) -> TickModel
        decreases batches.len(),
    {
        if batches.len() == 0 {
            self
        } else {
            self.run(batches.drop_last()).step(batches.last())
        }
    }
}

/// No more messages are new than there are messages.
pub proof fn lemma_count_new_bound(messages: Seq<MessageModel>, client: Seq<u8>, cursor: nat)
    ensures
        count_new(messages, client, cursor) <= messages.len(),
    decreases messages.len(),
{
    if messages.len() > 0 {
        lemma_count_new_bound(messages.drop_last(), client, cursor);
    }
}

/// Finds the next message to route.
pub fn find_least(messages: &Vec<Message>, client: &ClientId, cursor: u64) -> (found: Option<usize>)
    ensures
        match found {
            Some(at) => least_above(messages_view(messages@), client@, cursor as nat) == Some(
                at as int,
            ),
            None => least_above(messages_view(messages@), client@, cursor as nat) is None,
        },
{
    let ghost view = messages_view(messages@);
    let mut best: Option<usize> = None;
    let mut i: usize = 0;
    while i < messages.len()
        invariant
            i <= messages.len(),
            view == messages_view(messages@),
            match best {
                Some(at) => at < i && least_in(view, client@, cursor as nat, i as int) == Some(
                    at as int,
                ),
                None => least_in(view, client@, cursor as nat, i as int) is None,
            },
        decreases messages.len() - i,
    {
        let candidate = &messages[i];
        assert(view[i as int] == candidate@);
        if candidate.sequence > cursor && candidate.client.same(client) {
            let better = match best {
                Some(at) => {
                    assert(view[at as int] == messages@[at as int]@);
                    candidate.sequence < messages[at].sequence
                },
                None => true,
            };
            if better {
                best = Some(i);
            }
        }
        i += 1;
    }
    proof {
        lemma_least_in_all(view, client@, cursor as nat);
    }
    best
}

/// Routes the new messages of one batch, by rising sequence number, and
/// says where the cursor stands afterwards, how many messages reached the
/// client's queue and how many did not.
pub fn route_batch(
    state: &mut GatewayState,
    messages: &Vec<Message>,
    client: &ClientId,
    cursor: u64,
) -> (r: (u64, usize, usize))
    ensures
        final(state)@ == old(state)@.route_all(
            route_order(messages_view(messages@), client@, cursor as nat),
        ),
        final(state)@.wf(),
        r.0 == cursor_after(
            route_order(messages_view(messages@), client@, cursor as nat),
            cursor as nat,
        ),
        r.1 == old(state)@.count_delivered(
            route_order(messages_view(messages@), client@, cursor as nat),
        ),
        r.1 + r.2 == route_order(messages_view(messages@), client@, cursor as nat).len(),
{
    let ghost view = messages_view(messages@);
    let ghost order = route_order(view, client@, cursor as nat);
    let ghost mut done: Seq<MessageModel> = Seq::empty();
    let mut at_cursor: u64 = cursor;
    let mut delivered: usize = 0;
    let mut refused: usize = 0;
    state.note_wf();
    proof {
        lemma_count_new_bound(view, client@, cursor as nat);
        assert(done + route_order(view, client@, cursor as nat) =~= order);
    }
    loop
        invariant
            view == messages_view(messages@),
            order == route_order(view, client@, cursor as nat),
            done + route_order(view, client@, at_cursor as nat) == order,
            state@ == old(state)@.route_all(done),
            state@.wf(),
            at_cursor == cursor_after(done, cursor as nat),
            delivered == old(state)@.count_delivered(done),
            delivered + refused == done.len(),
            done.len() + count_new(view, client@, at_cursor as nat) <= messages.len(),
        decreases count_new(view, client@, at_cursor as nat),
    {
        let at = match find_least(messages, client, at_cursor) {
            Some(at) => at,
            None => {
                proof {
                    assert(done + Seq::<MessageModel>::empty() =~= done);
                }
                return (at_cursor, delivered, refused);
            },
        };
        let message = messages[at].duplicate();
        proof {
            assert(view[at as int] == message@);
            assert(is_least(view, client@, at_cursor as nat, at as int));
            lemma_count_new_falls(view, client@, at_cursor as nat, message@.sequence);
            let rest = route_order(view, client@, message@.sequence);
            assert(done.push(message@) + rest =~= done + (seq![message@] + rest));
            assert(done.push(message@).drop_last() =~= done);
        }
        let next = message.sequence;
        match state.route_to_client(message) {
            Ok(_) => {
                delivered += 1;
            },
            Err(_) => {
                refused += 1;
            },
        }
        at_cursor = next;
        proof {
            done = done.push(view[at as int]);
        }
    }
}

/// The poller of one backend.
pub struct Poller {
    backend: BackendAddress,
    cursors: Vec<Cursor>,
    failures: u64,
    threshold: u64,
}

impl View for Poller {
    type V = PollerModel;

    closed spec fn view(&self) -> PollerModel {
        PollerModel {
            backend: self.backend@,
            cursors: cursor_map(self.cursors@),
            failures: self.failures as nat,
            threshold: self.threshold as nat,
        }
    }
}

impl Poller {
    #[verifier::type_invariant]
    spec fn inv(&self) -> bool {
        distinct_cursors(self.cursors@)
    }

    /// The poller of `backend`, before its first tick. It reports a
    /// failing backend once more than `threshold` queries failed in a row.
    pub fn new(backend: BackendAddress, threshold: u64) -> (poller: Poller)
        ensures
            poller@ == PollerModel::fresh(backend@, threshold as nat),
    {
        let poller = Poller { backend, cursors: Vec::new(), failures: 0, threshold };
        assert(poller@.cursors =~= Map::<Seq<u8>, nat>::empty());
        poller
    }

    /// The backend that is polled.
    pub fn backend(&self) -> (backend: &BackendAddress)
        ensures
            backend@ == self@.backend,
    {
        &self.backend
    }

    /// How many queries failed in a row.
    pub fn consecutive_failures(&self) -> (failures: u64)
        ensures
            failures == self@.failures,
    {
        self.failures
    }

    /// How far `client`'s messages were fetched, if the poller keeps a
    /// cursor for it.
    pub fn cursor(&self, client: &ClientId) -> (fetched: Option<u64>)
        ensures
            match fetched {
                Some(n) => self@.cursors.contains_key(client@) && self@.cursors[client@] == n,
                None => !self@.cursors.contains_key(client@),
            },
    {
        proof {
            use_type_invariant(self);
        }
        match find_cursor(&self.cursors, client) {
            Some(at) => {
                proof {
                    lemma_cursor_at(self.cursors@, at as int);
                }
                Some(self.cursors[at].fetched)
            },
            None => None,
        }
    }

    /// Starts a tick: brings the cursors in line with `snapshot`, the
    /// clients that are registered now, and says what to ask the backend,
    /// or that the poller ends because nobody is registered.
    pub fn begin_tick(&mut self, snapshot: &Vec<ClientId>) -> (plan: TickPlan)
        ensures
            final(self)@ == old(self)@.synced(client_set(snapshot@)),
            match plan {
                TickPlan::Terminate => snapshot.len() == 0,
                TickPlan::Query(request) => snapshot.len() > 0 && distinct_cursors(request@)
                    && cursor_map(request@) == final(self)@.cursors,
            },
    {
        proof {
            use_type_invariant(&*self);
        }
        let ghost before = self@;
        let mut kept: Vec<Cursor> = Vec::new();
        std::mem::swap(&mut kept, &mut self.cursors);
        let mut fresh: Vec<Cursor> = Vec::new();
        let mut request: Vec<Cursor> = Vec::new();
        let mut i: usize = 0;
        assert(cursor_map(fresh@) =~= before.synced(client_set(snapshot@.take(0))).cursors);
        while i < snapshot.len()
            invariant
                i <= snapshot.len(),
                distinct_cursors(kept@),
                cursor_map(kept@) == before.cursors,
                distinct_cursors(fresh@),
                cursor_map(fresh@) == before.synced(client_set(snapshot@.take(i as int))).cursors,
                distinct_cursors(request@),
                cursor_map(request@) == cursor_map(fresh@),
            decreases snapshot.len() - i,
        {
            let client = &snapshot[i];
            let ghost seen = client_set(snapshot@.take(i as int));
            let ghost next = client_set(snapshot@.take(i + 1));
            proof {
                assert forall|c: Seq<u8>| next.contains(c) <==> seen.insert(client@).contains(c) by {
                    if next.contains(c) {
                        let k = choose|k: int|
                            0 <= k < i + 1 && (#[trigger] snapshot@.take(i + 1)[k])@ == c;
                        if k < i {
                            assert(snapshot@.take(i as int)[k]@ == c);
                        }
                    }
                    if seen.contains(c) {
                        let k = choose|k: int|
                            0 <= k < i && (#[trigger] snapshot@.take(i as int)[k])@ == c;
                        assert(snapshot@.take(i + 1)[k]@ == c);
                    }
                    if c == client@ {
                        assert(snapshot@.take(i + 1)[i as int]@ == c);
                    }
                }
                assert(next =~= seen.insert(client@));
            }
            let listed = find_cursor(&fresh, client);
            if listed.is_none() {
                let fetched = match find_cursor(&kept, client) {
                    Some(at) => {
                        proof {
                            lemma_cursor_at(kept@, at as int);
                        }
                        kept[at].fetched
                    },
                    None => 0,
                };
                proof {
                    assert(!cursor_map(fresh@).contains_key(client@));
                    assert(!cursor_map(request@).contains_key(client@));
                    assert(!has_cursor(request@, client@));
                }
                let ghost fresh_before = fresh@;
                let ghost request_before = request@;
                fresh.push(Cursor { client: client.duplicate(), fetched });
                request.push(Cursor { client: client.duplicate(), fetched });
                proof {
                    lemma_cursor_push(fresh_before, fresh@[fresh.len() - 1]);
                    lemma_cursor_push(request_before, request@[request.len() - 1]);
                    assert(fresh@ == fresh_before.push(fresh@[fresh.len() - 1]));
                    assert(request@ == request_before.push(request@[request.len() - 1]));
                    assert(cursor_map(fresh@) =~= before.synced(next).cursors);
                }
            } else {
                proof {
                    assert(fresh@[listed->Some_0 as int].client@ == client@);
                    assert(has_cursor(fresh@, client@));
                    assert(cursor_map(fresh@).contains_key(client@));
                    assert(seen.contains(client@));
                    assert(cursor_map(fresh@) =~= before.synced(next).cursors);
                }
            }
            i += 1;
        }
        assert(snapshot@.take(snapshot.len() as int) =~= snapshot@);
        self.cursors = fresh;
        if snapshot.len() == 0 {
            TickPlan::Terminate
        } else {
            TickPlan::Query(request)
        }
    }

    /// Starts a tick on the registry as it is now: takes the snapshot of
    /// the poller's backend and goes on as `begin_tick` does. The poller
    /// ends exactly if the registry holds no poller for its backend any
    /// more, which is when the backend's last client has deregistered.
    pub fn tick(&mut self, state: &GatewayState) -> (plan: TickPlan)
        ensures
            final(self)@ == old(self)@.synced(state@.clients_of(old(self)@.backend)),
            match plan {
                TickPlan::Terminate => !state@.has_poller(old(self)@.backend),
                TickPlan::Query(request) => state@.has_poller(old(self)@.backend)
                    && distinct_cursors(request@) && cursor_map(request@) == final(self)@.cursors,
            },
    {
        let snapshot = state.snapshot(&self.backend);
        proof {
            let of = state@.clients_of(self@.backend);
            assert(client_set(snapshot@) =~= of);
            if snapshot.len() > 0 {
                assert(of.contains(snapshot@[0]@));
                assert(state@.in_use(self@.backend));
            } else if state@.in_use(self@.backend) {
                let c = choose|c: Seq<u8>| #[trigger]
                    state@.clients.contains_key(c) && state@.clients[c].backend == self@.backend;
                assert(of.contains(c));
            }
        }
        self.begin_tick(&snapshot)
    }

    /// Notes that a client has registered, as `registration` says. If it
    /// registered with the backend that is polled, its cursor is set to
    /// zero, so that a client that comes back is polled for from the
    /// start; a registration with another backend is not this poller's.
    pub fn on_registered(&mut self, registration: &RegistrationHandle)
        ensures
            final(self)@ == old(self)@.after_registration(
                registration.client@,
                registration.backend@,
            ),
    {
        proof {
            use_type_invariant(&*self);
        }
        if !self.backend.same(&registration.backend) {
            return ;
        }
        let mut cursors: Vec<Cursor> = Vec::new();
        std::mem::swap(&mut cursors, &mut self.cursors);
        match find_cursor(&cursors, &registration.client) {
            Some(at) => {
                proof {
                    lemma_cursor_update(
                        cursors@,
                        at as int,
                        Cursor { client: cursors@[at as int].client, fetched: 0 },
                    );
                }
                let ghost held = cursors@;
                cursors[at].fetched = 0;
                proof {
                    assert(cursors@ =~= held.update(
                        at as int,
                        Cursor { client: held[at as int].client, fetched: 0 },
                    ));
                }
            },
            None => {
                let ghost held = cursors@;
                cursors.push(Cursor { client: registration.client.duplicate(), fetched: 0 });
                proof {
                    lemma_cursor_push(held, cursors@[cursors.len() - 1]);
                    assert(cursors@ == held.push(cursors@[cursors.len() - 1]));
                }
            },
        }
        self.cursors = cursors;
    }

    /// Forgets how far `client` was fetched, so that a client that
    /// registers anew starts at zero.
    pub fn forget(&mut self, client: &ClientId)
        ensures
            final(self)@ == old(self)@.after_forget(client@),
    {
        proof {
            use_type_invariant(&*self);
        }
        let mut cursors: Vec<Cursor> = Vec::new();
        std::mem::swap(&mut cursors, &mut self.cursors);
        match find_cursor(&cursors, client) {
            Some(at) => {
                proof {
                    lemma_cursor_remove(cursors@, at as int);
                }
                cursors.remove(at);
            },
            None => {
                assert(cursor_map(cursors@) =~= cursor_map(cursors@).remove(client@));
            },
        }
        self.cursors = cursors;
    }

    /// Notes that the query of this tick failed. The cursors stay as they
    /// are, so the next tick asks for the same messages again. Reports
    /// the backend as unavailable once the failures in a row are more
    /// than the threshold.
    pub fn on_query_failed(&mut self) -> (report: Option<GatewayError>)
        ensures
            final(self)@ == old(self)@.after_failure(),
            report == (if final(self)@.failures > final(self)@.threshold {
                Some(GatewayError::BackendUnavailable)
            } else {
                None
            }),
    {
        proof {
            use_type_invariant(&*self);
        }
        if self.failures < u64::MAX {
            self.failures = self.failures + 1;
        }
        if self.failures > self.threshold {
            Some(GatewayError::BackendUnavailable)
        } else {
            None
        }
    }

    /// Notes that the answer to this tick's query came but was not
    /// authentic as a whole. The backend is there, so the failures in a
    /// row end; nothing is routed and the cursors stay as they are, so the
    /// next tick asks for the same messages again.
    pub fn on_answer_rejected(&mut self) -> (error: GatewayError)
        ensures
            final(self)@ == old(self)@.after_success(),
            error == GatewayError::VerificationFailed,
    {
        proof {
            use_type_invariant(&*self);
        }
        self.failures = 0;
        GatewayError::VerificationFailed
    }

    /// Takes in the response to this tick's query: each batch that was
    /// asked for and is authentic is routed, by rising sequence number,
    /// and the cursor of its client moves to the highest sequence number
    /// routed. Says, batch by batch, what became of it.
    pub fn process(&mut self, state: &mut GatewayState, batches: &Vec<ClientBatch>) -> (outcomes:
        Vec<BatchOutcome>)
        ensures
            (TickModel { poller: final(self)@, registry: final(state)@, outcomes: outcomes@ }) == (
            TickModel {
                poller: old(self)@.after_success(),
                registry: old(state)@,
                outcomes: Seq::empty(),
            }).run(batches_view(batches@)),
            final(state)@.wf(),
    {
        proof {
            use_type_invariant(&*self);
        }
        let ghost start = TickModel {
            poller: self@.after_success(),
            registry: state@,
            outcomes: Seq::empty(),
        };
        let ghost all = batches_view(batches@);
        self.failures = 0;
        let mut cursors: Vec<Cursor> = Vec::new();
        std::mem::swap(&mut cursors, &mut self.cursors);
        let mut outcomes: Vec<BatchOutcome> = Vec::new();
        let mut b: usize = 0;
        state.note_wf();
        assert(all.take(0) =~= Seq::<BatchModel>::empty());
        while b < batches.len()
            invariant
                b <= batches.len(),
                all == batches_view(batches@),
                distinct_cursors(cursors@),
                state@.wf(),
                (TickModel {
                    poller: PollerModel { cursors: cursor_map(cursors@), ..start.poller },
                    registry: state@,
                    outcomes: outcomes@,
                }) == start.run(all.take(b as int)),
            decreases batches.len() - b,
        {
            let batch = &batches[b];
            let ghost now = start.run(all.take(b as int));
            proof {
                assert(all.take(b + 1).drop_last() =~= all.take(b as int));
                assert(all.take(b + 1).last() == batch@);
                assert(start.run(all.take(b + 1)) == now.step(batch@));
            }
            match find_cursor(&cursors, &batch.client) {
                None => {
                    outcomes.push(BatchOutcome::NotRequested);
                },
                Some(at) => {
                    proof {
                        lemma_cursor_at(cursors@, at as int);
                    }
                    if !batch.authentic {
                        outcomes.push(BatchOutcome::VerificationFailed);
                    } else {
                        let (moved, delivered, refused) = route_batch(
                            state,
                            &batch.messages,
                            &batch.client,
                            cursors[at].fetched,
                        );
                        proof {
                            lemma_cursor_update(
                                cursors@,
                                at as int,
                                Cursor { client: cursors@[at as int].client, fetched: moved },
                            );
                        }
                        let ghost held = cursors@;
                        cursors[at].fetched = moved;
                        proof {
                            assert(cursors@ =~= held.update(
                                at as int,
                                Cursor { client: held[at as int].client, fetched: moved },
                            ));
                        }
                        outcomes.push(BatchOutcome::Routed { delivered, refused });
                    }
                },
            }
            b += 1;
        }
        assert(all.take(batches.len() as int) =~= all);
        self.cursors = cursors;
        outcomes
    }
}

/// How long to wait before the next tick, when one tick is to start every
/// `interval` and this one took `elapsed`: what is left of the interval,
/// and nothing if the tick overran it. Ticks never overlap.
pub fn delay_before_next_tick(interval: u64, elapsed: u64) -> (delay: u64)
    ensures
        delay == (if elapsed < interval {
            interval - elapsed
        } else {
            0
        }),
{
    if elapsed < interval {
        interval - elapsed
    } else {
        0
    }
}

} // verus!
