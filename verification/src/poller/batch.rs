//! One client's share of a poll response, and the order in which its
//! messages are routed.

use crate::ident::ClientId;
use crate::message::{Message, MessageModel};
use crate::registry::RegistryModel;
use vstd::prelude::*;

verus! {

/// One client's share of a poll response, as plain values.
pub struct BatchModel {
    pub client: Seq<u8>,
    pub messages: Seq<MessageModel>,
    pub authentic: bool,
}

/// What a poll response holds for one client: the messages, and whether
/// their authenticity proof was found valid.
#[derive(Clone, Debug, PartialEq, Eq)]
pub struct ClientBatch {
    pub client: ClientId,
    pub messages: Vec<Message>,
    pub authentic: bool,
}

/// The views of a run of messages, in order.
pub open spec fn messages_view(messages: Seq<Message>) -> Seq<MessageModel> {
    messages.map_values(|m: Message| m@)
}

impl View for ClientBatch {
    type V = BatchModel;

    open spec fn view(&self) -> BatchModel {
        BatchModel {
            client: self.client@,
            messages: messages_view(self.messages@),
            authentic: self.authentic,
        }
    }
}

impl ClientBatch {
    /// Puts together one client's share of a poll response from its
    /// messages and the outcome of the check of each message's proof. The
    /// batch is authentic exactly if every message has an outcome and
    /// every proof was found valid.
    pub fn assemble(client: ClientId, messages: Vec<Message>, proofs_valid: &Vec<bool>) -> (batch:
        ClientBatch)
        ensures
            batch.client == client,
            batch.messages == messages,
            batch.authentic == (proofs_valid.len() == messages.len() && forall|i: int|
                0 <= i < proofs_valid.len() ==> #[trigger] proofs_valid@[i]),
    {
        let mut authentic = proofs_valid.len() == messages.len();
        let mut i: usize = 0;
        while i < proofs_valid.len()
            invariant
                i <= proofs_valid.len(),
                authentic == (proofs_valid.len() == messages.len() && forall|k: int|
                    0 <= k < i ==> #[trigger] proofs_valid@[k]),
            decreases proofs_valid.len() - i,
        {
            if !proofs_valid[i] {
                authentic = false;
            }
            i += 1;
        }
        ClientBatch { client, messages, authentic }
    }
}

/// The views of a run of batches, in order.
pub open spec fn batches_view(batches: Seq<ClientBatch>) -> Seq<BatchModel> {
    batches.map_values(|b: ClientBatch| b@)
}

/// Whether `message` is for `client` and was not fetched before.
pub open spec fn is_new(message: MessageModel, client: Seq<u8>, cursor: nat) -> bool {
    message.client == client && message.sequence > cursor
}

/// Whether the message at `at` is the next to route: it is new, no new
/// message has a lower sequence number, and none before it has the same.
pub open spec fn is_least(messages: Seq<MessageModel>, client: Seq<u8>, cursor: nat, at: int)
    -> bool {
    &&& 0 <= at < messages.len()
    &&& is_new(messages[at], client, cursor)
    &&& forall|j: int|
        0 <= j < messages.len() && is_new(#[trigger] messages[j], client, cursor) ==> {
            ||| messages[at].sequence < messages[j].sequence
            ||| (messages[at].sequence == messages[j].sequence && at <= j)
        }
}

/// Where the next message to route stands, if there is one.
pub open spec fn least_above(messages: Seq<MessageModel>, client: Seq<u8>, cursor: nat) -> Option<
    int,
> {
    if exists|at: int| is_least(messages, client, cursor, at) {
        Some(choose|at: int| is_least(messages, client, cursor, at))
    } else {
        None
    }
}

/// How many of `messages` are new.
pub open spec fn count_new(messages: Seq<MessageModel>, client: Seq<u8>, cursor: nat) -> nat
    decreases messages.len(),
{
    if messages.len() == 0 {
        0
    } else {
        count_new(messages.drop_last(), client, cursor) + if is_new(
            messages.last(),
            client,
            cursor,
        ) {
            1nat
        } else {
            0nat
        }
    }
}

/// With a higher cursor no more messages are new, and fewer are if one
/// lies between the two cursors.
pub proof fn lemma_count_new_falls(
    messages: Seq<MessageModel>,
    client: Seq<u8>,
    low: nat,
    high: nat,
)
    requires
        low <= high,
    ensures
        count_new(messages, client, high) <= count_new(messages, client, low),
        (exists|i: int|
            0 <= i < messages.len() && is_new(#[trigger] messages[i], client, low) && !is_new(
                messages[i],
                client,
                high,
            )) ==> count_new(messages, client, high) < count_new(messages, client, low),
    decreases messages.len(),
{
    if messages.len() > 0 {
        let front = messages.drop_last();
        lemma_count_new_falls(front, client, low, high);
        if exists|i: int|
            0 <= i < messages.len() && is_new(#[trigger] messages[i], client, low) && !is_new(
                messages[i],
                client,
                high,
            ) {
            let i = choose|i: int|
                0 <= i < messages.len() && is_new(#[trigger] messages[i], client, low) && !is_new(
                    messages[i],
                    client,
                    high,
                );
            if i < messages.len() - 1 {
                assert(is_new(front[i], client, low) && !is_new(front[i], client, high));
            }
        }
    }
}

/// The messages of a batch in the order in which they are routed: by
/// rising sequence number, from the first above the cursor, each
/// sequence number once.
pub open spec fn route_order(messages: Seq<MessageModel>, client: Seq<u8>, cursor: nat) -> Seq<
    MessageModel,
>
    decreases count_new(messages, client, cursor),
{
    match least_above(messages, client, cursor) {
        Some(at) => {
            proof {
                assert(is_least(messages, client, cursor, at));
                lemma_count_new_falls(messages, client, cursor, messages[at].sequence);
            }
            seq![messages[at]] + route_order(messages, client, messages[at].sequence)
        },
        None => Seq::empty(),
    }
}

/// The cursor once `order` was routed: the sequence number of its last
/// message.
pub open spec fn cursor_after(order: Seq<MessageModel>, cursor: nat) -> nat {
    if order.len() == 0 {
        cursor
    } else {
        order.last().sequence
    }
}

impl RegistryModel {
    /// The registry after `messages` were routed in this order.
    pub open spec fn route_all(self, messages: Seq<MessageModel>) -> RegistryModel
        decreases messages.len(),
    {
        if messages.len() == 0 {
            self
        } else {
            self.route_all(messages.drop_last()).route(messages.last())
        }
    }

    /// How many of `messages`, routed in this order, reach a queue.
    pub open spec fn count_delivered(self, messages: Seq<MessageModel>) -> nat
        decreases messages.len(),
    {
        if messages.len() == 0 {
            0
        } else {
            self.count_delivered(messages.drop_last()) + if self.route_all(
                messages.drop_last(),
            ).route_result(messages.last()) is Ok {
                1nat
            } else {
                0nat
            }
        }
    }
}

/// The place that `is_least` singles out is the only one.
pub proof fn lemma_least_unique(
    messages: Seq<MessageModel>,
    client: Seq<u8>,
    cursor: nat,
    at: int,
)
    requires
        is_least(messages, client, cursor, at),
    ensures
        least_above(messages, client, cursor) == Some(at),
{
    let chosen = choose|i: int| is_least(messages, client, cursor, i);
    assert(is_least(messages, client, cursor, chosen));
    assert(is_new(messages[chosen], client, cursor));
    assert(is_new(messages[at], client, cursor));
}

/// Order of routing: the messages of a batch are routed by strictly
/// rising sequence number, all above the cursor, and each is a message
/// of the batch for the batch's client.
pub proof fn lemma_route_order_rises(messages: Seq<MessageModel>, client: Seq<u8>, cursor: nat)
    ensures
        forall|i: int|
            0 <= i < route_order(messages, client, cursor).len() ==> {
                &&& (#[trigger] route_order(messages, client, cursor)[i]).sequence > cursor
                &&& route_order(messages, client, cursor)[i].client == client
                &&& messages.contains(route_order(messages, client, cursor)[i])
            },
        forall|i: int, j: int|
            0 <= i < j < route_order(messages, client, cursor).len() ==> (#[trigger] route_order(
                messages,
                client,
                cursor,
            )[i]).sequence < (#[trigger] route_order(messages, client, cursor)[j]).sequence,
    decreases count_new(messages, client, cursor),
{
    match least_above(messages, client, cursor) {
        Some(at) => {
            assert(is_least(messages, client, cursor, at));
            let next = messages[at].sequence;
            lemma_count_new_falls(messages, client, cursor, next);
            lemma_route_order_rises(messages, client, next);
            let rest = route_order(messages, client, next);
            let all = route_order(messages, client, cursor);
            assert(all =~= seq![messages[at]] + rest);
            assert forall|i: int| 0 <= i < all.len() implies {
                &&& (#[trigger] all[i]).sequence > cursor
                &&& all[i].client == client
                &&& messages.contains(all[i])
            } by {
                if i > 0 {
                    assert(all[i] == rest[i - 1]);
                }
            }
            assert forall|i: int, j: int| 0 <= i < j < all.len() implies (#[trigger] all[i]).sequence
                < (#[trigger] all[j]).sequence by {
                assert(all[j] == rest[j - 1]);
                if i > 0 {
                    assert(all[i] == rest[i - 1]);
                }
            }
        },
        None => {},
    }
}

/// Nothing is left out: every new message of the batch has its sequence
/// number among those that are routed.
pub proof fn lemma_route_order_covers(
    messages: Seq<MessageModel>,
    client: Seq<u8>,
    cursor: nat,
    at: int,
)
    requires
        0 <= at < messages.len(),
        is_new(messages[at], client, cursor),
    ensures
        exists|i: int|
            0 <= i < route_order(messages, client, cursor).len() && (#[trigger] route_order(
                messages,
                client,
                cursor,
            )[i]).sequence == messages[at].sequence,
    decreases count_new(messages, client, cursor),
{
    lemma_least_exists(messages, client, cursor, at);
    let first = least_above(messages, client, cursor)->Some_0;
    assert(is_least(messages, client, cursor, first));
    let next = messages[first].sequence;
    let all = route_order(messages, client, cursor);
    let rest = route_order(messages, client, next);
    assert(all =~= seq![messages[first]] + rest);
    if messages[at].sequence == next {
        assert(all[0].sequence == messages[at].sequence);
    } else {
        lemma_count_new_falls(messages, client, cursor, next);
        lemma_route_order_covers(messages, client, next, at);
        let i = choose|i: int|
            0 <= i < rest.len() && (#[trigger] rest[i]).sequence == messages[at].sequence;
        assert(all[i + 1] == rest[i]);
    }
}

/// Where a message is new, one is the next to route.
pub proof fn lemma_least_exists(
    messages: Seq<MessageModel>,
    client: Seq<u8>,
    cursor: nat,
    at: int,
)
    requires
        0 <= at < messages.len(),
        is_new(messages[at], client, cursor),
    ensures
        least_above(messages, client, cursor) is Some,
{
    let best = least_in(messages, client, cursor, messages.len() as int);
    lemma_least_in(messages, client, cursor, messages.len() as int);
    assert(is_new(messages[at], client, cursor));
    assert(is_least(messages, client, cursor, best->Some_0));
}

/// The next message to route among the first `upto`.
pub open spec fn least_in(messages: Seq<MessageModel>, client: Seq<u8>, cursor: nat, upto: int)
    -> Option<int>
    decreases upto,
{
    if upto <= 0 {
        None
    } else {
        let before = least_in(messages, client, cursor, upto - 1);
        if upto <= messages.len() && is_new(messages[upto - 1], client, cursor) && (before is None
            || messages[upto - 1].sequence < messages[before->Some_0].sequence) {
            Some(upto - 1)
        } else {
            before
        }
    }
}

/// What `least_in` finds is new and first among the lowest of the first
/// `upto`; it finds nothing only if none of them is new.
pub proof fn lemma_least_in(messages: Seq<MessageModel>, client: Seq<u8>, cursor: nat, upto: int)
    requires
        0 <= upto <= messages.len(),
    ensures
        match least_in(messages, client, cursor, upto) {
            Some(best) => {
                &&& 0 <= best < upto
                &&& is_new(messages[best], client, cursor)
                &&& forall|j: int|
                    0 <= j < upto && is_new(#[trigger] messages[j], client, cursor) ==> {
                        ||| messages[best].sequence < messages[j].sequence
                        ||| (messages[best].sequence == messages[j].sequence && best <= j)
                    }
            },
            None => forall|j: int| 0 <= j < upto ==> !is_new(#[trigger] messages[j], client, cursor),
        },
    decreases upto,
{
    if upto > 0 {
        lemma_least_in(messages, client, cursor, upto - 1);
    }
}

/// Over all of a batch, `least_in` finds the next message to route.
pub proof fn lemma_least_in_all(messages: Seq<MessageModel>, client: Seq<u8>, cursor: nat)
    ensures
        least_in(messages, client, cursor, messages.len() as int) == least_above(
            messages,
            client,
            cursor,
        ),
{
    lemma_least_in(messages, client, cursor, messages.len() as int);
    match least_in(messages, client, cursor, messages.len() as int) {
        Some(best) => {
            assert(is_least(messages, client, cursor, best));
            lemma_least_unique(messages, client, cursor, best);
        },
        None => {
            if exists|at: int| is_least(messages, client, cursor, at) {
                let at = choose|at: int| is_least(messages, client, cursor, at);
                assert(is_new(messages[at], client, cursor));
            }
        },
    }
}

} // verus!
