//! The sending side of channels.
//!
//! Every sender queues messages and offers them for transmission. What
//! happens after a message was offered depends on the reliability mode of
//! the channel: an unreliable sender forgets it, a reliable sender keeps it
//! in flight and offers it again, each time its retransmission timer runs
//! out, until a packet that carried it is acknowledged.
//!
//! [`SenderState`] describes all three modes as one state machine, and
//! [`ChannelSend`] states each operation of a sender over it.

use crate::channel::message::{
    contents, ChannelError, Message, MessageData, MessageId, MAX_SEND_QUEUE_SIZE,
};
use crate::channel::senders::reliable::ReliableSender;
use crate::channel::senders::unreliable::{SequencedUnreliableSender, UnorderedUnreliableSender};
use crate::packet_id::PacketId;
use crate::time::spec_elapsed_exceeds;
use vstd::prelude::*;

pub mod reliable;
pub mod unreliable;

verus! {

/// The delivery contract of a channel.
#[derive(Clone, Copy, Debug, PartialEq, Eq, Structural)]
pub enum ChannelMode {
    /// Messages are sent once, and arrive in any order or not at all.
    UnorderedUnreliable,
    /// Messages are sent once, and a message that arrives after a newer one
    /// is dropped.
    SequencedUnreliable,
    /// Messages are sent until acknowledged, and delivered once and in
    /// order.
    OrderedReliable,
}

/// What a caller chooses for a channel.
#[derive(Clone, Copy, Debug, PartialEq, Eq, Structural)]
pub struct ChannelSettings {
    /// The delivery contract of the channel.
    pub mode: ChannelMode,
    /// How long a reliable sender waits for an acknowledgment before it
    /// offers a message again, in milliseconds. The other senders make no
    /// use of it.
    pub resend_delay: i64,
    /// How many messages the sender holds at most.
    pub max_send_queue_size: usize,
}

impl ChannelSettings {
    /// Settings for a channel of the given mode, with room for 255
    /// messages in the sender.
    pub fn new(mode: ChannelMode, resend_delay: i64) -> (settings: ChannelSettings)
        ensures
            settings == (ChannelSettings {
                mode,
                resend_delay,
                max_send_queue_size: MAX_SEND_QUEUE_SIZE,
            }),
    {
        ChannelSettings { mode, resend_delay, max_send_queue_size: MAX_SEND_QUEUE_SIZE }
    }
}

/// A message that was offered for transmission and is not known to have
/// arrived.
pub struct InFlightData {
    /// The message.
    pub message: MessageData,
    /// The packets that carried the message.
    pub carriers: Seq<PacketId>,
    /// The time at which the message was last offered for transmission.
    pub last_sent: i64,
}

impl InFlightData {
    /// Whether the retransmission timer has run out at `now`: more than
    /// `delay` has passed since the message was last offered.
    pub open spec fn is_due(self, now: i64, delay: i64) -> bool {
        spec_elapsed_exceeds(now, self.last_sent, delay)
    }

    /// Whether one of the packets `ids` carried the message.
    pub open spec fn carried_by_any(self, ids: Seq<PacketId>) -> bool {
        exists|i: int| 0 <= i < self.carriers.len() && ids.contains(#[trigger] self.carriers[i])
    }

    /// Whether the message is one of those numbered `ids`.
    pub open spec fn is_among(self, ids: Seq<MessageId>) -> bool {
        match self.message.id {
            None => false,
            Some(id) => ids.contains(id),
        }
    }

    /// The entry after the messages that are due at `now` were offered
    /// again: the timer of such a message starts anew.
    pub open spec fn offered_again(self, now: i64, delay: i64) -> InFlightData {
        if self.is_due(now, delay) {
            InFlightData { last_sent: now, ..self }
        } else {
            self
        }
    }

    /// The entry after the packet `packet_id` has carried the messages
    /// numbered `ids`.
    pub open spec fn carried_on(self, packet_id: PacketId, ids: Seq<MessageId>) -> InFlightData {
        if self.is_among(ids) {
            InFlightData { carriers: self.carriers.push(packet_id), ..self }
        } else {
            self
        }
    }

    /// The entry of a message that is offered for the first time at `now`.
    pub open spec fn first_offer(message: MessageData, now: i64) -> InFlightData {
        InFlightData { message, carriers: Seq::empty(), last_sent: now }
    }
}

/// The test for a message in flight whose retransmission timer has run out
/// at `now`.
pub open spec fn is_due_at(now: i64, delay: i64) -> spec_fn(InFlightData) -> bool {
    |entry: InFlightData| entry.is_due(now, delay)
}

/// The test for a message in flight that none of the packets `ids` carried.
pub open spec fn not_carried_by(ids: Seq<PacketId>) -> spec_fn(InFlightData) -> bool {
    |entry: InFlightData| !entry.carried_by_any(ids)
}

/// What a sender knows.
#[verifier::ext_equal]
pub struct SenderState {
    /// The delivery contract of the channel.
    pub mode: ChannelMode,
    /// The messages that were queued and not offered yet, oldest first.
    pub unsent: Seq<MessageData>,
    /// The messages that were offered and are not known to have arrived,
    /// oldest first. Only a reliable sender has any.
    pub in_flight: Seq<InFlightData>,
    /// The sequence number that the next message gets, on a channel that
    /// numbers its messages.
    pub next_id: u64,
    /// The time of the last update, on a reliable channel.
    pub now: i64,
    /// How long a reliable sender waits for an acknowledgment before it
    /// offers a message again. The delay is the same for every offer.
    pub resend_delay: i64,
    /// How many messages the sender holds at most.
    pub max_queue_size: usize,
}

impl SenderState {
    /// The state of a sender that has been handed nothing.
    pub open spec fn initial(settings: ChannelSettings) -> SenderState {
        SenderState {
            mode: settings.mode,
            unsent: Seq::empty(),
            in_flight: Seq::empty(),
            next_id: 0,
            now: 0,
            resend_delay: if settings.mode == ChannelMode::OrderedReliable {
                settings.resend_delay
            } else {
                0
            },
            max_queue_size: settings.max_send_queue_size,
        }
    }

    /// Whether the channel numbers its messages.
    pub open spec fn numbers(self) -> bool {
        self.mode != ChannelMode::UnorderedUnreliable
    }

    /// Whether the channel keeps a message after it was offered.
    pub open spec fn retains(self) -> bool {
        self.mode == ChannelMode::OrderedReliable
    }

    /// Whether `id` is what a message held by the channel has for its
    /// number: a number that was handed out where the channel numbers its
    /// messages, and none where it does not.
    pub open spec fn is_handed_out(self, id: Option<MessageId>) -> bool {
        match id {
            None => !self.numbers(),
            Some(id) => self.numbers() && id.0 < self.next_id,
        }
    }

    /// The number of the message `message`, or -1 where it has none.
    pub open spec fn number_of(message: MessageData) -> int {
        match message.id {
            None => -1,
            Some(id) => id.0 as int,
        }
    }

    /// The state is well formed: the sender holds no more messages than it
    /// may, none in flight unless it is reliable, and each is numbered as the
    /// channel numbers its messages. Where it does, the numbers increase
    /// from the oldest message in flight to the newest unsent one, so no
    /// two messages have the same.
    pub open spec fn wf(self) -> bool {
        &&& self.unsent.len() + self.in_flight.len() <= self.max_queue_size
        &&& !self.retains() ==> self.in_flight.len() == 0
        &&& forall|i: int|
            0 <= i < self.unsent.len() ==> self.is_handed_out((#[trigger] self.unsent[i]).id)
        &&& forall|i: int|
            0 <= i < self.in_flight.len() ==> self.is_handed_out(
                (#[trigger] self.in_flight[i]).message.id,
            )
        &&& self.numbers() ==> {
            &&& forall|i: int, j: int|
                0 <= i < j < self.unsent.len() ==> SenderState::number_of(
                    #[trigger] self.unsent[i],
                ) < SenderState::number_of(#[trigger] self.unsent[j])
            &&& forall|i: int, j: int|
                0 <= i < j < self.in_flight.len() ==> SenderState::number_of(
                    (#[trigger] self.in_flight[i]).message,
                ) < SenderState::number_of((#[trigger] self.in_flight[j]).message)
            &&& forall|i: int, j: int|
                0 <= i < self.in_flight.len() && 0 <= j < self.unsent.len()
                    ==> SenderState::number_of((#[trigger] self.in_flight[i]).message)
                    < SenderState::number_of(#[trigger] self.unsent[j])
        }
    }

    /// Whether the sender holds the message numbered `id`, unsent or in
    /// flight.
    pub open spec fn holds(self, id: MessageId) -> bool {
        ||| exists|i: int| 0 <= i < self.unsent.len() && (#[trigger] self.unsent[i]).id == Some(id)
        ||| exists|i: int|
            0 <= i < self.in_flight.len() && (#[trigger] self.in_flight[i]).message.id == Some(id)
    }

    /// Whether the sender takes one more message, and why not.
    pub open spec fn admission(self) -> Result<(), ChannelError> {
        if self.unsent.len() + self.in_flight.len() >= self.max_queue_size {
            Err(ChannelError::QueueFull)
        } else if self.numbers() && self.next_id == u64::MAX {
            Err(ChannelError::SequenceExhausted)
        } else {
            Ok(())
        }
    }

    /// The state after `payload` was queued: it is the newest unsent
    /// message, under the next sequence number where the channel gives
    /// one.
    pub open spec fn enqueued(self, payload: Seq<u8>) -> SenderState {
        if self.numbers() {
            SenderState {
                unsent: self.unsent.push(
                    MessageData { id: Some(MessageId(self.next_id)), payload },
                ),
                next_id: (self.next_id + 1) as u64,
                ..self
            }
        } else {
            SenderState { unsent: self.unsent.push(MessageData { id: None, payload }), ..self }
        }
    }

    /// The messages in flight whose retransmission timer has run out.
    pub open spec fn due(self) -> Seq<InFlightData> {
        self.in_flight.filter(is_due_at(self.now, self.resend_delay))
    }

    /// The messages to transmit now: those in flight whose timer has run
    /// out, then those that were never offered.
    pub open spec fn to_send(self) -> Seq<MessageData> {
        self.due().map_values(|entry: InFlightData| entry.message) + self.unsent
    }

    /// The state after the messages to transmit were collected. No message
    /// is unsent any more. A reliable sender keeps them all in flight, each
    /// with a timer that starts now; an unreliable sender keeps none.
    pub open spec fn after_collect(self) -> SenderState {
        if self.retains() {
            SenderState {
                unsent: Seq::empty(),
                in_flight: self.in_flight.map_values(
                    |entry: InFlightData| entry.offered_again(self.now, self.resend_delay),
                ) + self.unsent.map_values(
                    |message: MessageData| InFlightData::first_offer(message, self.now),
                ),
                ..self
            }
        } else {
            SenderState { unsent: Seq::empty(), ..self }
        }
    }

    /// The state after the packet `packet_id` was sent with the messages
    /// numbered `ids`: each of them that is in flight has one more carrier.
    pub open spec fn after_packet_sent(
        self,
        packet_id: PacketId,
        ids: Seq<MessageId>,
    ) -> SenderState {
        SenderState {
            in_flight: self.in_flight.map_values(
                |entry: InFlightData| entry.carried_on(packet_id, ids),
            ),
            ..self
        }
    }

    /// The state after the packets `ids` were acknowledged: a message that
    /// one of them carried has arrived and is in flight no longer.
    pub open spec fn after_packets_acked(self, ids: Seq<PacketId>) -> SenderState {
        SenderState {
            in_flight: self.in_flight.filter(not_carried_by(ids)),
            ..self
        }
    }

    /// The state at the time `now`. Only a reliable sender keeps the time.
    pub open spec fn at(self, now: i64) -> SenderState {
        if self.retains() {
            SenderState { now, ..self }
        } else {
            self
        }
    }

    /// The state after one call on the sender.
    pub open spec fn after(self, event: SenderEvent) -> SenderState {
        match event {
            SenderEvent::BufferSend(payload) => if self.admission() is Ok {
                self.enqueued(payload)
            } else {
                self
            },
            SenderEvent::Collect => self.after_collect(),
            SenderEvent::PacketSent(packet_id, ids) => self.after_packet_sent(packet_id, ids),
            SenderEvent::PacketsAcked(ids) => self.after_packets_acked(ids),
            SenderEvent::PacketsLost(ids) => self,
            SenderEvent::Update(now) => self.at(now),
        }
    }

    /// Whether acknowledging the packets `ids` finalizes the message
    /// numbered `id`: the message is in flight and one of the packets
    /// carried it.
    pub open spec fn is_acked_by(self, id: MessageId, ids: Seq<PacketId>) -> bool {
        exists|i: int|
            0 <= i < self.in_flight.len() && (#[trigger] self.in_flight[i]).message.id == Some(id)
                && self.in_flight[i].carried_by_any(ids)
    }

    /// Whether none of the calls `events`, made one after the other from
    /// this state on, acknowledges a packet that carried the message
    /// numbered `id`.
    pub open spec fn never_acks(self, id: MessageId, events: Seq<SenderEvent>) -> bool {
        forall|k: int|
            0 <= k < events.len() ==> (#[trigger] events[k] matches SenderEvent::PacketsAcked(ids)
                ==> !self.after_all(events.take(k)).is_acked_by(id, ids))
    }

    /// The state after a series of calls on the sender, the first call
    /// first.
    pub open spec fn after_all(self, events: Seq<SenderEvent>) -> SenderState
        decreases events.len(),
    {
        if events.len() == 0 {
            self
        } else {
            self.after_all(events.drop_last()).after(events.last())
        }
    }
}

/// A call on a sender, with what it was handed.
pub enum SenderEvent {
    /// `buffer_send`, with the payload of the message.
    BufferSend(Seq<u8>),
    /// `collect_messages_to_send`.
    Collect,
    /// `on_packet_sent`, with the packet and the numbers of the messages
    /// that it carried.
    PacketSent(PacketId, Seq<MessageId>),
    /// `on_packets_acked`, with the packets.
    PacketsAcked(Seq<PacketId>),
    /// `on_packets_lost`, with the packets.
    PacketsLost(Seq<PacketId>),
    /// `update`, with the time.
    Update(i64),
}

/// The numbers of the messages in `entries` increase from first to last.
pub open spec fn numbers_increase(entries: Seq<InFlightData>) -> bool {
    forall|i: int, j: int|
        0 <= i < j < entries.len() ==> SenderState::number_of((#[trigger] entries[i]).message)
            < SenderState::number_of((#[trigger] entries[j]).message)
}

/// Taking entries out of a sequence whose numbers increase leaves a
/// sequence whose numbers increase, and every entry left is one of the
/// sequence.
pub proof fn lemma_filter_keeps_numbers_increasing(
    entries: Seq<InFlightData>,
    keep: spec_fn(InFlightData) -> bool,
)
    requires
        numbers_increase(entries),
    ensures
        numbers_increase(entries.filter(keep)),
        entries.filter(keep).len() <= entries.len(),
        forall|k: int|
            0 <= k < entries.filter(keep).len() ==> entries.contains(
                #[trigger] entries.filter(keep)[k],
            ) && keep(entries.filter(keep)[k]),
    decreases entries.len(),
{
    reveal(Seq::filter);
    if entries.len() > 0 {
        lemma_filter_keeps_numbers_increasing(entries.drop_last(), keep);
    }
}

/// A well-formed state stays well formed when packets are acknowledged.
pub proof fn lemma_after_packets_acked_wf(state: SenderState, ids: Seq<PacketId>)
    requires
        state.wf(),
    ensures
        state.after_packets_acked(ids).wf(),
{
    if state.numbers() {
        lemma_filter_keeps_numbers_increasing(state.in_flight, not_carried_by(ids));
    } else {
        reveal(Seq::filter);
    }
    state.in_flight.lemma_filter_len(not_carried_by(ids));
}

/// A well-formed state stays well formed whatever is called on the sender.
pub proof fn lemma_after_wf(state: SenderState, event: SenderEvent)
    requires
        state.wf(),
    ensures
        state.after(event).wf(),
{
    match event {
        SenderEvent::PacketsAcked(ids) => {
            lemma_after_packets_acked_wf(state, ids);
        },
        _ => {},
    }
}

/// A message that is offered for transmission is one that the sender
/// holds.
pub proof fn lemma_offered_message_is_held(state: SenderState, k: int)
    requires
        0 <= k < state.to_send().len(),
        state.to_send()[k].id is Some,
    ensures
        state.holds(state.to_send()[k].id->0),
{
    let due = state.due();
    if k < due.len() {
        state.in_flight.lemma_filter_contains_rev(
            is_due_at(state.now, state.resend_delay),
            due[k],
        );
    }
}

/// A message that was queued and never offered is offered at the next
/// collection, whatever the mode of the channel. On a reliable channel it
/// is in flight afterwards, with a timer that starts at the time of the
/// collection.
pub proof fn lemma_unsent_message_is_offered(state: SenderState, k: int)
    requires
        0 <= k < state.unsent.len(),
    ensures
        state.to_send().contains(state.unsent[k]),
        state.after_collect().unsent.len() == 0,
        state.retains() ==> state.after_collect().in_flight.contains(
            InFlightData::first_offer(state.unsent[k], state.now),
        ),
{
    let due = state.due().map_values(|entry: InFlightData| entry.message);
    assert(state.to_send()[due.len() + k] == state.unsent[k]);
    if state.retains() {
        assert(state.after_collect().in_flight[state.in_flight.len() + k]
            == InFlightData::first_offer(state.unsent[k], state.now));
    }
}

/// A message in flight on a reliable channel is offered again at each
/// collection at which its retransmission timer has run out, and at no
/// other. Either way it stays in flight; where it was offered, with a timer
/// that starts at the time of the collection.
pub proof fn lemma_unacked_message_is_offered_again(state: SenderState, k: int)
    requires
        state.wf(),
        state.retains(),
        0 <= k < state.in_flight.len(),
    ensures
        state.to_send().contains(state.in_flight[k].message) <==> state.in_flight[k].is_due(
            state.now,
            state.resend_delay,
        ),
        state.after_collect().in_flight.len() >= state.in_flight.len(),
        state.after_collect().in_flight[k] == state.in_flight[k].offered_again(
            state.now,
            state.resend_delay,
        ),
        state.after_collect().in_flight[k].message == state.in_flight[k].message,
        state.after_collect().in_flight[k].carriers == state.in_flight[k].carriers,
{
    let test = is_due_at(state.now, state.resend_delay);
    let entry = state.in_flight[k];
    let due = state.due();
    if entry.is_due(state.now, state.resend_delay) {
        state.in_flight.lemma_filter_contains(test, k);
        let i = choose|i: int| 0 <= i < due.len() && due[i] == entry;
        assert(state.to_send()[i] == entry.message);
    }
    if state.to_send().contains(entry.message) {
        let i = choose|i: int| 0 <= i < state.to_send().len() && state.to_send()[i]
            == entry.message;
        if i < due.len() {
            state.in_flight.lemma_filter_pred(test, i);
            state.in_flight.lemma_filter_contains_rev(test, due[i]);
        }
    }
}

/// The first acknowledgment of any packet that carried a message finalizes
/// the message: the sender holds it no longer. A message in flight that
/// none of the acknowledged packets carried stays in flight.
pub proof fn lemma_acked_message_is_delivered(state: SenderState, ids: Seq<PacketId>, k: int)
    requires
        state.wf(),
        state.retains(),
        0 <= k < state.in_flight.len(),
    ensures
        state.in_flight[k].carried_by_any(ids) ==> !state.after_packets_acked(ids).holds(
            state.in_flight[k].message.id->0,
        ),
        !state.in_flight[k].carried_by_any(ids) ==> state.after_packets_acked(
            ids,
        ).in_flight.contains(state.in_flight[k]),
{
    let keep = not_carried_by(ids);
    let after = state.after_packets_acked(ids);
    let entry = state.in_flight[k];
    if entry.carried_by_any(ids) {
        lemma_filter_keeps_numbers_increasing(state.in_flight, keep);
    } else {
        state.in_flight.lemma_filter_contains(keep, k);
    }
}

/// A call on a reliable sender that acknowledges no packet that carried a
/// message leaves the message with the sender.
proof fn lemma_event_keeps_unacked(state: SenderState, id: MessageId, event: SenderEvent)
    requires
        state.retains(),
        state.holds(id),
        event matches SenderEvent::PacketsAcked(ids) ==> !state.is_acked_by(id, ids),
    ensures
        state.after(event).retains(),
        state.after(event).holds(id),
{
    let after = state.after(event);
    if exists|i: int| 0 <= i < state.unsent.len() && (#[trigger] state.unsent[i]).id == Some(id) {
        let i = choose|i: int|
            0 <= i < state.unsent.len() && (#[trigger] state.unsent[i]).id == Some(id);
        if event is Collect {
            assert(after.in_flight[state.in_flight.len() + i].message.id == Some(id));
        }
    } else {
        let i = choose|i: int|
            0 <= i < state.in_flight.len() && (#[trigger] state.in_flight[i]).message.id == Some(
                id,
            );
        match event {
            SenderEvent::PacketsAcked(ids) => {
                state.in_flight.lemma_filter_contains(not_carried_by(ids), i);
            },
            _ => {
                assert(after.in_flight[i].message.id == Some(id));
            },
        }
    }
}

/// A message on a reliable channel stays with the sender for as long as no
/// packet that carried it is acknowledged, whatever else is called on the
/// sender; so it is offered again each time its timer runs out.
pub proof fn lemma_unacked_message_stays(
    state: SenderState,
    id: MessageId,
    events: Seq<SenderEvent>,
)
    requires
        state.retains(),
        state.holds(id),
        state.never_acks(id, events),
    ensures
        state.after_all(events).retains(),
        state.after_all(events).holds(id),
    decreases events.len(),
{
    if events.len() > 0 {
        let earlier = events.drop_last();
        assert forall|k: int| 0 <= k < earlier.len() implies (
        #[trigger] earlier[k] matches SenderEvent::PacketsAcked(ids) ==> !state.after_all(
            earlier.take(k),
        ).is_acked_by(id, ids)) by {
            assert(earlier.take(k) =~= events.take(k));
        }
        lemma_unacked_message_stays(state, id, earlier);
        lemma_event_keeps_unacked(state.after_all(earlier), id, events.last());
    }
}

/// No call on a sender brings back a message that the sender has handed
/// out and holds no longer.
proof fn lemma_event_keeps_delivered(state: SenderState, id: MessageId, event: SenderEvent)
    requires
        id.0 < state.next_id,
        !state.holds(id),
    ensures
        id.0 < state.after(event).next_id,
        !state.after(event).holds(id),
{
    let after = state.after(event);
    if let SenderEvent::PacketsAcked(ids) = event {
        if exists|i: int|
            0 <= i < after.in_flight.len() && (#[trigger] after.in_flight[i]).message.id == Some(
                id,
            ) {
            let i = choose|i: int|
                0 <= i < after.in_flight.len() && (#[trigger] after.in_flight[i]).message.id
                    == Some(id);
            state.in_flight.lemma_filter_contains_rev(not_carried_by(ids), after.in_flight[i]);
        }
    }
}

/// A message that was delivered is never offered again: once the sender
/// holds a message no longer, no series of calls makes it hold the message
/// again, so no collection offers it.
pub proof fn lemma_delivered_message_never_returns(
    state: SenderState,
    id: MessageId,
    events: Seq<SenderEvent>,
)
    requires
        id.0 < state.next_id,
        !state.holds(id),
    ensures
        id.0 < state.after_all(events).next_id,
        !state.after_all(events).holds(id),
        forall|k: int|
            0 <= k < state.after_all(events).to_send().len() ==> (
            #[trigger] state.after_all(events).to_send()[k]).id != Some(id),
    decreases events.len(),
{
    if events.len() > 0 {
        lemma_delivered_message_never_returns(state, id, events.drop_last());
        lemma_event_keeps_delivered(state.after_all(events.drop_last()), id, events.last());
    }
    let last = state.after_all(events);
    assert forall|k: int| 0 <= k < last.to_send().len() implies (#[trigger] last.to_send()[k]).id
        != Some(id) by {
        if last.to_send()[k].id == Some(id) {
            lemma_offered_message_is_held(last, k);
        }
    }
}

/// A trait for sending messages to a channel.
/// A channel is a buffer over packets to be able to add ordering/reliability.
pub trait ChannelSend {
    /// What the sender knows.
    spec fn state(&self) -> SenderState;

    /// The sender is well formed. Every constructor establishes this and
    /// every method keeps it.
    spec fn wf(&self) -> bool;

    /// A well-formed sender is in a well-formed state.
    proof fn lemma_wf_state(&self)
        requires
            self.wf(),
        ensures
            self.state().wf(),
    ;

    /// Queues a message to be transmitted. The channel gives the message
    /// its sequence number, whatever number it came with.
    ///
    /// A sender that holds as many messages as it may, or that has no
    /// sequence number left, rejects the message and stays as it is.
    fn buffer_send(&mut self, message: Message) -> (accepted: Result<(), ChannelError>)
        requires
            old(self).wf(),
        ensures
            final(self).wf(),
            accepted == old(self).state().admission(),
            accepted is Ok ==> final(self).state() == old(self).state().enqueued(message@.payload),
            accepted is Err ==> final(self).state() == old(self).state(),
    ;

    /// Collect the list of messages that need to be sent, either because
    /// they have never been sent, or because they need to be resent (for
    /// reliability).
    fn collect_messages_to_send(&mut self) -> (messages: Vec<Message>)
        requires
            old(self).wf(),
        ensures
            final(self).wf(),
            contents(messages@) == old(self).state().to_send(),
            final(self).state() == old(self).state().after_collect(),
    ;

    /// Returns true if there are messages in the buffer that are ready to
    /// be sent.
    fn has_messages_to_send(&self) -> (ready: bool)
        requires
            self.wf(),
        ensures
            ready == (self.state().to_send().len() > 0),
    ;

    /// Records that the packet `packet_id` was sent with the messages
    /// numbered `message_ids`.
    fn on_packet_sent(&mut self, packet_id: PacketId, message_ids: &[MessageId])
        requires
            old(self).wf(),
        ensures
            final(self).wf(),
            final(self).state() == old(self).state().after_packet_sent(packet_id, message_ids@),
    ;

    /// Records that the peer has acknowledged the packets `ids`.
    fn on_packets_acked(&mut self, ids: &[PacketId])
        requires
            old(self).wf(),
        ensures
            final(self).wf(),
            final(self).state() == old(self).state().after_packets_acked(ids@),
    ;

    /// Records that the packets `ids` were given up as lost. A message that
    /// they carried is sent again when its timer runs out, and not before:
    /// the sender stays as it is.
    fn on_packets_lost(&mut self, ids: &[PacketId])
        requires
            old(self).wf(),
        ensures
            final(self).wf(),
            final(self).state() == old(self).state(),
    ;

    /// Takes `now` as the current time.
    fn update(&mut self, now: i64)
        requires
            old(self).wf(),
        ensures
            final(self).wf(),
            final(self).state() == old(self).state().at(now),
    ;
}

/// The sender of a channel, whatever its reliability mode: each operation
/// is that of the sender inside.
pub enum ChannelSender {
    /// The sender of an unordered unreliable channel.
    UnorderedUnreliable(UnorderedUnreliableSender),
    /// The sender of a sequenced unreliable channel.
    SequencedUnreliable(SequencedUnreliableSender),
    /// The sender of an ordered reliable channel.
    Reliable(ReliableSender),
}

impl ChannelSender {
    /// A sender for a channel with the given settings that has been handed
    /// nothing.
    pub fn new(settings: ChannelSettings) -> (sender: ChannelSender)
        ensures
            sender.wf(),
            sender.state() == SenderState::initial(settings),
    {
        match settings.mode {
            ChannelMode::UnorderedUnreliable => ChannelSender::UnorderedUnreliable(
                UnorderedUnreliableSender::new(settings.max_send_queue_size),
            ),
            ChannelMode::SequencedUnreliable => ChannelSender::SequencedUnreliable(
                SequencedUnreliableSender::new(settings.max_send_queue_size),
            ),
            ChannelMode::OrderedReliable => ChannelSender::Reliable(
                ReliableSender::new(settings.resend_delay, settings.max_send_queue_size),
            ),
        }
    }
}

impl ChannelSend for ChannelSender {
    open spec fn state(&self) -> SenderState {
        match self {
            ChannelSender::UnorderedUnreliable(sender) => sender.state(),
            ChannelSender::SequencedUnreliable(sender) => sender.state(),
            ChannelSender::Reliable(sender) => sender.state(),
        }
    }

    open spec fn wf(&self) -> bool {
        match self {
            ChannelSender::UnorderedUnreliable(sender) => sender.wf(),
            ChannelSender::SequencedUnreliable(sender) => sender.wf(),
            ChannelSender::Reliable(sender) => sender.wf(),
        }
    }

    proof fn lemma_wf_state(&self) {
        match self {
            ChannelSender::UnorderedUnreliable(sender) => sender.lemma_wf_state(),
            ChannelSender::SequencedUnreliable(sender) => sender.lemma_wf_state(),
            ChannelSender::Reliable(sender) => sender.lemma_wf_state(),
        }
    }

    fn buffer_send(&mut self, message: Message) -> (accepted: Result<(), ChannelError>) {
        match self {
            ChannelSender::UnorderedUnreliable(sender) => sender.buffer_send(message),
            ChannelSender::SequencedUnreliable(sender) => sender.buffer_send(message),
            ChannelSender::Reliable(sender) => sender.buffer_send(message),
        }
    }

    fn collect_messages_to_send(&mut self) -> (messages: Vec<Message>) {
        match self {
            ChannelSender::UnorderedUnreliable(sender) => sender.collect_messages_to_send(),
            ChannelSender::SequencedUnreliable(sender) => sender.collect_messages_to_send(),
            ChannelSender::Reliable(sender) => sender.collect_messages_to_send(),
        }
    }

    fn has_messages_to_send(&self) -> (ready: bool) {
        match self {
            ChannelSender::UnorderedUnreliable(sender) => sender.has_messages_to_send(),
            ChannelSender::SequencedUnreliable(sender) => sender.has_messages_to_send(),
            ChannelSender::Reliable(sender) => sender.has_messages_to_send(),
        }
    }

    fn on_packet_sent(&mut self, packet_id: PacketId, message_ids: &[MessageId]) {
        match self {
            ChannelSender::UnorderedUnreliable(sender) => sender.on_packet_sent(
                packet_id,
                message_ids,
            ),
            ChannelSender::SequencedUnreliable(sender) => sender.on_packet_sent(
                packet_id,
                message_ids,
            ),
            ChannelSender::Reliable(sender) => sender.on_packet_sent(packet_id, message_ids),
        }
    }

    fn on_packets_acked(&mut self, ids: &[PacketId]) {
        match self {
            ChannelSender::UnorderedUnreliable(sender) => sender.on_packets_acked(ids),
            ChannelSender::SequencedUnreliable(sender) => sender.on_packets_acked(ids),
            ChannelSender::Reliable(sender) => sender.on_packets_acked(ids),
        }
    }

    fn on_packets_lost(&mut self, ids: &[PacketId]) {
        match self {
            ChannelSender::UnorderedUnreliable(sender) => sender.on_packets_lost(ids),
            ChannelSender::SequencedUnreliable(sender) => sender.on_packets_lost(ids),
            ChannelSender::Reliable(sender) => sender.on_packets_lost(ids),
        }
    }

    fn update(&mut self, now: i64) {
        match self {
            ChannelSender::UnorderedUnreliable(sender) => sender.update(now),
            ChannelSender::SequencedUnreliable(sender) => sender.update(now),
            ChannelSender::Reliable(sender) => sender.update(now),
        }
    }
}

} // verus!
