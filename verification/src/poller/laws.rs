//! What holds of a poller from tick to tick.

use crate::error::GatewayError;
use crate::message::MessageModel;
use crate::poller::batch::{
    cursor_after, is_least, is_new, least_above, lemma_least_unique, lemma_route_order_covers,
    lemma_route_order_rises, route_order, BatchModel,
};
use crate::poller::tick::PollerModel;
use crate::registry::RegistryModel;
use vstd::prelude::*;

verus! {

impl PollerModel {
    /// The poller after `count` queries failed in a row.
    pub open spec fn after_failures(self, count: nat) -> PollerModel
        decreases count,
    {
        if count == 0 {
            self
        } else {
            self.after_failures((count - 1) as nat).after_failure()
        }
    }
}

/// A failing backend loses no message: however many queries fail in a
/// row, every cursor stays where it was, so that the query that succeeds
/// at last is answered and routed as the first would have been.
pub proof fn lemma_failures_keep_cursors(p: PollerModel, count: nat, batch: BatchModel)
    ensures
        p.after_failures(count).cursors == p.cursors,
        p.after_failures(count).backend == p.backend,
        p.after_failures(count).after_success().after_batch(batch) == p.after_success().after_batch(
            batch,
        ),
        p.after_failures(count).batch_order(batch) == p.batch_order(batch),
    decreases count,
{
    if count > 0 {
        lemma_failures_keep_cursors(p, (count - 1) as nat, batch);
    }
}

/// The cursors follow the snapshot: after a tick has begun the poller
/// keeps a cursor for exactly the clients of the snapshot, at zero for
/// those that are new and where it was for the others.
pub proof fn lemma_synced_follows_snapshot(p: PollerModel, clients: Set<Seq<u8>>, client: Seq<u8>)
    ensures
        p.synced(clients).cursors.contains_key(client) <==> clients.contains(client),
        clients.contains(client) && p.cursors.contains_key(client) ==> p.synced(
            clients,
        ).cursors[client] == p.cursors[client],
        clients.contains(client) && !p.cursors.contains_key(client) ==> p.synced(
            clients,
        ).cursors[client] == 0,
{
}

/// A client that registers is polled for from the start: once its
/// registration with the polled backend was noted, the tick that finds it
/// in the snapshot asks for its messages above zero, wherever its cursor
/// stood before; every other client keeps its cursor.
pub proof fn lemma_registration_resets_cursor(
    p: PollerModel,
    client: Seq<u8>,
    clients: Set<Seq<u8>>,
    other: Seq<u8>,
)
    requires
        clients.contains(client),
        other != client,
    ensures
        p.after_registration(client, p.backend).synced(clients).cursors.contains_key(client),
        p.after_registration(client, p.backend).synced(clients).cursors[client] == 0,
        p.after_registration(client, p.backend).cursor_of(other) == p.cursor_of(other),
        p.after_registration(client, p.backend).synced(clients).cursor_of(other) == p.synced(
            clients,
        ).cursor_of(other),
{
}

/// Whether `messages` are all for `client` and carry strictly rising
/// sequence numbers.
pub open spec fn rising_for(messages: Seq<MessageModel>, client: Seq<u8>) -> bool {
    &&& forall|i: int| 0 <= i < messages.len() ==> (#[trigger] messages[i]).client == client
    &&& forall|i: int, j: int|
        0 <= i < j < messages.len() ==> (#[trigger] messages[i]).sequence < (
        #[trigger] messages[j]).sequence
}

/// With the cursor at the sequence number of the message before `from`,
/// the messages from `from` on are routed as they stand.
proof fn lemma_rising_tail(messages: Seq<MessageModel>, client: Seq<u8>, cursor: nat, from: int)
    requires
        rising_for(messages, client),
        0 <= from <= messages.len(),
        from > 0 ==> cursor == messages[from - 1].sequence,
        from == 0 && messages.len() > 0 ==> cursor < messages[0].sequence,
    ensures
        route_order(messages, client, cursor) == messages.skip(from),
    decreases messages.len() - from,
{
    if from == messages.len() {
        if least_above(messages, client, cursor) is Some {
            let at = least_above(messages, client, cursor)->Some_0;
            assert(is_least(messages, client, cursor, at));
            if at < from - 1 {
                assert(messages[at].sequence < messages[from - 1].sequence);
            }
        }
        assert(messages.skip(from) =~= Seq::<MessageModel>::empty());
    } else {
        if from > 0 {
            assert(messages[from - 1].sequence < messages[from].sequence);
        }
        assert forall|j: int|
            0 <= j < messages.len() && is_new(#[trigger] messages[j], client, cursor) implies {
            ||| messages[from].sequence < messages[j].sequence
            ||| (messages[from].sequence == messages[j].sequence && from <= j)
        } by {
            if j < from {
                if j < from - 1 {
                    assert(messages[j].sequence < messages[from - 1].sequence);
                }
            } else if j > from {
                assert(messages[from].sequence < messages[j].sequence);
            }
        }
        assert(is_least(messages, client, cursor, from));
        lemma_least_unique(messages, client, cursor, from);
        lemma_rising_tail(messages, client, messages[from].sequence, from + 1);
        assert(seq![messages[from]] + messages.skip(from + 1) =~= messages.skip(from));
    }
}

/// One cycle: a batch whose messages are all for its client and rise
/// strictly from above the cursor is routed as it stands, message by
/// message in its own order, and the cursor ends at the sequence number
/// of the last one. So a client at cursor 0 whose batch holds the
/// messages 1, 2, 3 is routed 1, 2, 3 and stands at 3.
pub proof fn lemma_rising_batch_routed_as_it_stands(p: PollerModel, batch: BatchModel)
    requires
        p.takes(batch),
        rising_for(batch.messages, batch.client),
        batch.messages.len() > 0,
        p.cursor_of(batch.client) < batch.messages[0].sequence,
    ensures
        p.batch_order(batch) == batch.messages,
        p.after_batch(batch).cursors[batch.client] == batch.messages.last().sequence,
{
    lemma_rising_tail(batch.messages, batch.client, p.cursor_of(batch.client), 0);
    assert(batch.messages.skip(0) =~= batch.messages);
}

/// A client gone mid-cycle: a message for a client that has deregistered
/// is reported as for an unknown client and changes nothing in the
/// registry, and the tick that follows, whose snapshot no longer holds the
/// client, drops its cursor.
pub proof fn lemma_gone_client_is_unknown(
    p: PollerModel,
    registry: RegistryModel,
    message: MessageModel,
)
    requires
        !registry.is_registered(message.client),
    ensures
        registry.route_result(message) == Err::<(), GatewayError>(GatewayError::UnknownClient),
        registry.route(message) == registry,
        !p.synced(registry.clients_of(p.backend)).cursors.contains_key(message.client),
{
}

/// A cursor never falls: after a batch the cursor of every client stands
/// where it stood or higher, and only the cursor of the batch's client
/// moves.
pub proof fn lemma_cursor_never_falls(p: PollerModel, batch: BatchModel, client: Seq<u8>)
    ensures
        p.after_batch(batch).cursor_of(client) >= p.cursor_of(client),
        client != batch.client ==> p.after_batch(batch).cursor_of(client) == p.cursor_of(client),
        p.after_batch(batch).cursors.dom() == p.cursors.dom(),
{
    lemma_route_order_rises(batch.messages, batch.client, p.cursor_of(batch.client));
    if p.takes(batch) {
        assert(p.after_batch(batch).cursors.dom() =~= p.cursors.dom());
    }
}

/// Nothing is routed twice: once a batch was routed, none of its
/// messages is new any more, so that the same batch, answered again,
/// routes nothing.
pub proof fn lemma_batch_not_repeated(p: PollerModel, batch: BatchModel)
    requires
        p.takes(batch),
    ensures
        p.after_batch(batch).batch_order(batch).len() == 0,
        forall|i: int|
            0 <= i < batch.messages.len() ==> !is_new(
                #[trigger] batch.messages[i],
                batch.client,
                p.after_batch(batch).cursor_of(batch.client),
            ),
{
    let messages = batch.messages;
    let client = batch.client;
    let cursor = p.cursor_of(client);
    let order = route_order(messages, client, cursor);
    let top = cursor_after(order, cursor);
    assert(p.after_batch(batch).cursor_of(client) == top);
    lemma_route_order_rises(messages, client, cursor);
    assert forall|i: int| 0 <= i < messages.len() implies !is_new(
        #[trigger] messages[i],
        client,
        top,
    ) by {
        if is_new(messages[i], client, top) {
            assert(top >= cursor);
            lemma_route_order_covers(messages, client, cursor, i);
            let k = choose|k: int|
                0 <= k < order.len() && (#[trigger] order[k]).sequence == messages[i].sequence;
            if k < order.len() - 1 {
                assert(order[k].sequence < order[order.len() - 1].sequence);
            }
        }
    }
    if least_above(messages, client, top) is Some {
        let at = least_above(messages, client, top)->Some_0;
        assert(is_least(messages, client, top, at));
    }
}

} // verus!
