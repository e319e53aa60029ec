//! The receiving side of channels.
//!
//! A receiver is handed each message that arrives on its channel and
//! decides what the application gets. On a sequenced channel only a
//! message newer than every one delivered so far is delivered. On an
//! ordered reliable channel every message is delivered, once and in the
//! order of the sequence numbers, so a message that arrives early waits
//! for those before it.

use crate::channel::message::{contents, Message, MessageData, MessageId};
use std::collections::HashMap;
use vstd::prelude::*;
use vstd::std_specs::hash::group_hash_axioms;

verus! {

broadcast use group_hash_axioms;

/// Whether a sequenced channel that has delivered nothing newer than
/// `most_recent` delivers a message numbered `id`: the message has a
/// number, and the number is strictly greater than `most_recent`.
pub open spec fn is_newer(most_recent: Option<MessageId>, id: Option<MessageId>) -> bool {
    match id {
        None => false,
        Some(id) => match most_recent {
            None => true,
            Some(most_recent) => id.0 > most_recent.0,
        },
    }
}

/// The numbers that a sequenced channel delivers when messages numbered
/// `incoming` arrive in that order, after it has delivered nothing newer
/// than `most_recent`.
pub open spec fn sequenced_deliveries(
    most_recent: Option<MessageId>,
    incoming: Seq<MessageId>,
) -> Seq<MessageId>
    decreases incoming.len(),
{
    if incoming.len() == 0 {
        Seq::empty()
    } else if is_newer(most_recent, Some(incoming[0])) {
        seq![incoming[0]] + sequenced_deliveries(Some(incoming[0]), incoming.drop_first())
    } else {
        sequenced_deliveries(most_recent, incoming.drop_first())
    }
}

/// Receiver of a sequenced unreliable channel: only the newest message
/// counts, and a message that arrives after a newer one is dropped.
pub struct SequencedUnreliableReceiver {
    /// Highest sequence number delivered so far.
    most_recent_message_id: Option<MessageId>,
}

impl View for SequencedUnreliableReceiver {
    type V = Option<MessageId>;

    closed spec fn view(&self) -> Option<MessageId> {
        self.most_recent_message_id
    }
}

impl SequencedUnreliableReceiver {
    /// A receiver that has delivered nothing.
    pub fn new() -> (receiver: SequencedUnreliableReceiver)
        ensures
            receiver@ is None,
    {
        SequencedUnreliableReceiver { most_recent_message_id: None }
    }

    /// The highest sequence number delivered so far.
    pub fn most_recent_message_id(&self) -> (id: Option<MessageId>)
        ensures
            id == self@,
    {
        self.most_recent_message_id
    }

    /// Takes a message that arrived. It is handed back for delivery where
    /// its number is strictly greater than every number delivered so far,
    /// and dropped otherwise.
    pub fn recv_message(&mut self, message: Message) -> (delivered: Option<Message>)
        ensures
            is_newer(old(self)@, message.id) ==> delivered == Some(message) && final(self)@
                == message.id,
            !is_newer(old(self)@, message.id) ==> delivered is None && final(self)@ == old(self)@,
    {
        let newer = match message.id {
            None => false,
            Some(id) => match self.most_recent_message_id {
                None => true,
                Some(most_recent) => id.0 > most_recent.0,
            },
        };
        if newer {
            self.most_recent_message_id = message.id;
            Some(message)
        } else {
            None
        }
    }
}

/// What an [`OrderedReliableReceiver`] knows.
#[verifier::ext_equal]
pub struct OrderedReliableState {
    /// The sequence number that is delivered next: every smaller one has
    /// been delivered.
    pub next_expected: u64,
    /// The payloads that arrived early and wait for those before them, by
    /// sequence number.
    pub waiting: Map<u64, Seq<u8>>,
}

impl OrderedReliableState {
    /// Whether the receiver keeps a message numbered `id`: it has a number
    /// that is neither delivered nor waiting already. (The number
    /// `u64::MAX` is given to no message.)
    pub open spec fn admits(self, id: Option<MessageId>) -> bool {
        match id {
            None => false,
            Some(id) => self.next_expected <= id.0 < u64::MAX && !self.waiting.contains_key(id.0),
        }
    }

    /// The messages that can be delivered: the unbroken run of waiting
    /// messages that starts at `next`.
    pub open spec fn ready(waiting: Map<u64, Seq<u8>>, next: u64) -> Seq<MessageData>
        decreases u64::MAX - next,
    {
        if next < u64::MAX && waiting.contains_key(next) {
            seq![MessageData { id: Some(MessageId(next)), payload: waiting[next] }]
                + OrderedReliableState::ready(waiting, (next + 1) as u64)
        } else {
            Seq::empty()
        }
    }

    /// The state after the waiting messages from `next_expected` up to, and
    /// not including, `upto` have been delivered.
    pub open spec fn delivered_upto(self, upto: u64) -> OrderedReliableState {
        OrderedReliableState {
            next_expected: upto,
            waiting: self.waiting.remove_keys(
                Set::new(|id: u64| self.next_expected <= id < upto),
            ),
        }
    }

    /// The state once the message `message` has arrived and is kept.
    pub open spec fn kept(self, message: MessageData) -> OrderedReliableState {
        match message.id {
            None => self,
            Some(id) => OrderedReliableState {
                next_expected: self.next_expected,
                waiting: self.waiting.insert(id.0, message.payload),
            },
        }
    }
}

/// Receiver of an ordered reliable channel: every message is delivered
/// exactly once, and in the order of the sequence numbers.
pub struct OrderedReliableReceiver {
    /// The sequence number that is delivered next.
    next_expected: u64,
    /// Payloads that arrived before their turn, by sequence number.
    waiting: HashMap<u64, Vec<u8>>,
}

impl View for OrderedReliableReceiver {
    type V = OrderedReliableState;

    closed spec fn view(&self) -> OrderedReliableState {
        OrderedReliableState {
            next_expected: self.next_expected,
            waiting: self.waiting@.map_values(|payload: Vec<u8>| payload@),
        }
    }
}

impl OrderedReliableReceiver {
    /// The receiver is well formed: no message that waits has had its turn
    /// already, and the one expected next does not wait. Every constructor
    /// establishes this and every method keeps it.
    pub closed spec fn wf(&self) -> bool {
        forall|id: u64| #[trigger]
            self.waiting@.contains_key(id) ==> self.next_expected < id < u64::MAX
    }

    /// A receiver that has delivered nothing and expects the message
    /// numbered 0.
    pub fn new() -> (receiver: OrderedReliableReceiver)
        ensures
            receiver.wf(),
            receiver@ == (OrderedReliableState { next_expected: 0, waiting: Map::empty() }),
    {
        let receiver = OrderedReliableReceiver { next_expected: 0, waiting: HashMap::new() };
        receiver
    }

    /// The sequence number that is delivered next.
    pub fn next_expected(&self) -> (id: MessageId)
        ensures
            id.0 == self@.next_expected,
    {
        MessageId(self.next_expected)
    }

    /// How many messages wait for their turn.
    pub fn waiting_len(&self) -> (len: usize)
        ensures
            len == self@.waiting.dom().len(),
    {
        assert(self@.waiting.dom() =~= self.waiting@.dom());
        self.waiting.len()
    }

    /// Takes a message that arrived and hands back the messages that can
    /// now be delivered, in the order of their numbers.
    ///
    /// A message without a number, or with a number that was delivered or
    /// waits already, changes nothing. Any other message is kept; if it is
    /// the one expected next, it is delivered together with the unbroken
    /// run of waiting messages that follows it.
    pub fn recv_message(&mut self, message: Message) -> (delivered: Vec<Message>)
        requires
            old(self).wf(),
        ensures
            final(self).wf(),
            !old(self)@.admits(message.id) ==> delivered@.len() == 0 && final(self)@ == old(self)@,
            old(self)@.admits(message.id) ==> {
                let kept = old(self)@.kept(message@);
                &&& contents(delivered@) == OrderedReliableState::ready(
                    kept.waiting,
                    kept.next_expected,
                )
                &&& final(self)@ == kept.delivered_upto(
                    (kept.next_expected + delivered@.len()) as u64,
                )
            },
    {
        let mut delivered: Vec<Message> = Vec::new();
        let id: u64 = match message.id {
            None => {
                return delivered;
            },
            Some(id) => id.0,
        };
        if id < self.next_expected || id == u64::MAX || self.waiting.contains_key(&id) {
            return delivered;
        }
        let ghost kept = old(self)@.kept(message@);
        self.waiting.insert(id, message.payload);
        // deliver the unbroken run that starts at the expected message
        loop
            invariant
                forall|k: u64| #[trigger]
                    self.waiting@.contains_key(k) ==> self.next_expected <= k < u64::MAX,
                kept.next_expected <= self.next_expected <= u64::MAX,
                self.next_expected == kept.next_expected + delivered@.len(),
                self@ == kept.delivered_upto(self.next_expected),
                contents(delivered@) + OrderedReliableState::ready(
                    kept.waiting,
                    self.next_expected,
                ) == OrderedReliableState::ready(kept.waiting, kept.next_expected),
            ensures
                self.wf(),
                self.next_expected == kept.next_expected + delivered@.len(),
                self@ == kept.delivered_upto(self.next_expected),
                contents(delivered@) == OrderedReliableState::ready(
                    kept.waiting,
                    kept.next_expected,
                ),
            decreases u64::MAX - self.next_expected,
        {
            if self.next_expected == u64::MAX {
                break ;
            }
            let next: u64 = self.next_expected;
            let ghost waiting_then = self.waiting@;
            let ghost state_then = self@;
            assert(kept.delivered_upto(next).waiting.contains_key(next)
                == kept.waiting.contains_key(next));
            assert(waiting_then.contains_key(next) ==> state_then.waiting[next]
                == waiting_then[next]@ && kept.waiting[next] == state_then.waiting[next]);
            match self.waiting.remove(&next) {
                None => {
                    break ;
                },
                Some(payload) => {
                    delivered.push(Message { id: Some(MessageId(next)), payload });
                    self.next_expected = next + 1;
                    proof {
                        let now = self@.waiting;
                        let goal = kept.delivered_upto(self.next_expected).waiting;
                        assert forall|k: u64| now.contains_key(k) == goal.contains_key(k) by {
                            assert(state_then.waiting.contains_key(k) == kept.delivered_upto(
                                next,
                            ).waiting.contains_key(k));
                        }
                        assert forall|k: u64| now.contains_key(k) implies now[k] == goal[k] by {
                            assert(state_then.waiting[k] == kept.delivered_upto(next).waiting[k]);
                        }
                    }
                },
            }
        }
        delivered
    }
}

/// Whether the message at `i` is newer than every message that arrived
/// before it.
pub open spec fn is_newest_so_far(incoming: Seq<MessageId>, i: int) -> bool {
    forall|j: int| 0 <= j < i ==> (#[trigger] incoming[j]).0 < incoming[i].0
}

/// A sequenced channel delivers exactly the messages that are newer than
/// all that came before: the numbers that it delivers increase, each is
/// greater than what was delivered earlier and greater than every number
/// that arrived before it, and every message of which this holds is
/// delivered.
pub proof fn lemma_sequenced_deliveries(most_recent: Option<MessageId>, incoming: Seq<MessageId>)
    ensures
        ({
            let delivered = sequenced_deliveries(most_recent, incoming);
            &&& delivered.len() <= incoming.len()
            &&& forall|a: int, b: int|
                0 <= a < b < delivered.len() ==> (#[trigger] delivered[a]).0 < (
                #[trigger] delivered[b]).0
            &&& forall|k: int|
                0 <= k < delivered.len() ==> is_newer(most_recent, Some(#[trigger] delivered[k]))
                    && exists|i: int|
                    0 <= i < incoming.len() && #[trigger] incoming[i] == delivered[k]
                        && is_newest_so_far(incoming, i)
            &&& forall|i: int|
                0 <= i < incoming.len() && is_newer(most_recent, Some(#[trigger] incoming[i]))
                    && is_newest_so_far(incoming, i) ==> delivered.contains(incoming[i])
        }),
    decreases incoming.len(),
{
    if incoming.len() > 0 {
        let first = incoming[0];
        let rest = incoming.drop_first();
        let delivered = sequenced_deliveries(most_recent, incoming);
        let then = if is_newer(most_recent, Some(first)) {
            Some(first)
        } else {
            most_recent
        };
        let later = sequenced_deliveries(then, rest);
        lemma_sequenced_deliveries(then, rest);
        let shift: int = if is_newer(most_recent, Some(first)) {
            1
        } else {
            0
        };
        assert(forall|k: int| 0 <= k < later.len() ==> delivered[k + shift] == #[trigger] later[k]);
        assert forall|k: int| 0 <= k < delivered.len() implies is_newer(
            most_recent,
            Some(#[trigger] delivered[k]),
        ) && exists|i: int|
            0 <= i < incoming.len() && #[trigger] incoming[i] == delivered[k] && is_newest_so_far(
                incoming,
                i,
            ) by {
            if k < shift {
                assert(incoming[0] == delivered[k] && is_newest_so_far(incoming, 0));
            } else {
                let at = k - shift;
                assert(delivered[k] == later[at]);
                assert(is_newer(then, Some(later[at])));
                let i = choose|i: int|
                    0 <= i < rest.len() && #[trigger] rest[i] == later[at] && is_newest_so_far(
                        rest,
                        i,
                    );
                assert(incoming[i + 1] == delivered[k]);
                assert forall|j: int| 0 <= j < i + 1 implies (#[trigger] incoming[j]).0
                    < incoming[i + 1].0 by {
                    if j > 0 {
                        assert(rest[j - 1] == incoming[j]);
                    }
                }
                assert(is_newest_so_far(incoming, i + 1));
            }
        }
        assert forall|a: int, b: int| 0 <= a < b < delivered.len() implies (
        #[trigger] delivered[a]).0 < (#[trigger] delivered[b]).0 by {
            if a < shift {
                assert(delivered[b] == later[b - shift]);
                assert(is_newer(then, Some(later[b - shift])));
            } else {
                assert(delivered[a] == later[a - shift]);
                assert(delivered[b] == later[b - shift]);
            }
        }
        assert forall|i: int|
            0 <= i < incoming.len() && is_newer(most_recent, Some(#[trigger] incoming[i]))
                && is_newest_so_far(incoming, i) implies delivered.contains(incoming[i]) by {
            if i == 0 {
                assert(delivered[0] == incoming[0]);
            } else {
                assert(rest[i - 1] == incoming[i]);
                assert(incoming[0].0 < incoming[i].0);
                assert forall|j: int| 0 <= j < i - 1 implies (#[trigger] rest[j]).0 < rest[i
                    - 1].0 by {
                    assert(rest[j] == incoming[j + 1]);
                }
                assert(is_newest_so_far(rest, i - 1));
                assert(later.contains(rest[i - 1]));
                let k = choose|k: int| 0 <= k < later.len() && later[k] == rest[i - 1];
                assert(delivered[k + shift] == incoming[i]);
            }
        }
    }
}

/// What an ordered reliable channel delivers is an unbroken run: the
/// messages numbered `next`, `next + 1` and so on, each with the payload
/// that waited under its number, up to the first number under which
/// nothing waits. So a message is withheld until every message before it
/// has been delivered.
pub proof fn lemma_ready_is_unbroken_run(waiting: Map<u64, Seq<u8>>, next: u64)
    ensures
        ({
            let run = OrderedReliableState::ready(waiting, next);
            &&& next + run.len() <= u64::MAX
            &&& forall|k: int|
                0 <= k < run.len() ==> waiting.contains_key((next + k) as u64) && #[trigger] run[k]
                    == (MessageData {
                    id: Some(MessageId((next + k) as u64)),
                    payload: waiting[(next + k) as u64],
                })
            &&& next + run.len() < u64::MAX ==> !waiting.contains_key((next + run.len()) as u64)
        }),
    decreases u64::MAX - next,
{
    if next < u64::MAX && waiting.contains_key(next) {
        lemma_ready_is_unbroken_run(waiting, (next + 1) as u64);
    }
}

/// An ordered reliable channel delivers every message once, and drops
/// none: a message that it keeps waits until it is delivered, and a message
/// that was delivered or waits is not kept a second time.
pub proof fn lemma_ordered_keeps_until_delivered(
    state: OrderedReliableState,
    number: u64,
    payload: Seq<u8>,
    upto: u64,
    id: u64,
)
    requires
        state.admits(Some(MessageId(number))),
        state.next_expected <= upto,
    ensures
        ({
            let kept = state.kept(MessageData { id: Some(MessageId(number)), payload });
            &&& kept.waiting.contains_key(number) && kept.waiting[number] == payload
            &&& state.waiting.contains_key(id) ==> kept.waiting.contains_key(id)
                && kept.waiting[id] == state.waiting[id]
            &&& id < upto ==> !kept.delivered_upto(upto).admits(Some(MessageId(id)))
            &&& id >= upto && kept.waiting.contains_key(id) ==> kept.delivered_upto(
                upto,
            ).waiting.contains_key(id) && kept.delivered_upto(upto).waiting[id]
                == kept.waiting[id] && !kept.delivered_upto(upto).admits(Some(MessageId(id)))
        }),
{
}

} // verus!
