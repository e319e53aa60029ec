//! Sender of an ordered reliable channel.
//!
//! A message stays with the sender until a packet that carried it is
//! acknowledged. Until then the sender offers it again whenever more than
//! the retransmission delay has passed since it was last offered.

use crate::channel::message::{contents, ChannelError, Message, MessageData, MessageId};
use crate::channel::senders::{
    is_due_at, lemma_after_packets_acked_wf, not_carried_by, ChannelMode, ChannelSend,
    ChannelSettings, InFlightData, SenderState,
};
use crate::packet_id::PacketId;
use crate::time::elapsed_exceeds;
use vstd::prelude::*;

verus! {

/// A message that was offered for transmission and is not known to have
/// arrived.
struct InFlightMessage {
    /// The message.
    message: Message,
    /// The packets that carried the message.
    carriers: Vec<PacketId>,
    /// The time at which the message was last offered for transmission.
    last_sent: i64,
}

impl View for InFlightMessage {
    type V = InFlightData;

    closed spec fn view(&self) -> InFlightData {
        InFlightData {
            message: self.message@,
            carriers: self.carriers@,
            last_sent: self.last_sent,
        }
    }
}

/// What each entry of a sequence holds.
spec fn entries(in_flight: Seq<InFlightMessage>) -> Seq<InFlightData> {
    in_flight.map_values(|entry: InFlightMessage| entry@)
}

/// Whether `ids` holds `id`.
fn contains_packet(ids: &[PacketId], id: PacketId) -> (found: bool)
    ensures
        found == ids@.contains(id),
{
    let mut i: usize = 0;
    while i < ids.len()
        invariant
            0 <= i <= ids@.len(),
            forall|k: int| 0 <= k < i ==> ids@[k] != id,
        decreases ids@.len() - i,
    {
        if ids[i] == id {
            return true;
        }
        i += 1;
    }
    false
}

/// Whether `ids` holds `id`.
fn contains_message(ids: &[MessageId], id: MessageId) -> (found: bool)
    ensures
        found == ids@.contains(id),
{
    let mut i: usize = 0;
    while i < ids.len()
        invariant
            0 <= i <= ids@.len(),
            forall|k: int| 0 <= k < i ==> ids@[k] != id,
        decreases ids@.len() - i,
    {
        if ids[i] == id {
            return true;
        }
        i += 1;
    }
    false
}

impl InFlightMessage {
    /// Whether one of the packets `ids` carried the message.
    fn carried_by_any(&self, ids: &[PacketId]) -> (carried: bool)
        ensures
            carried == self@.carried_by_any(ids@),
    {
        let mut i: usize = 0;
        while i < self.carriers.len()
            invariant
                0 <= i <= self.carriers@.len(),
                forall|k: int| 0 <= k < i ==> !ids@.contains(#[trigger] self.carriers@[k]),
            decreases self.carriers@.len() - i,
        {
            if contains_packet(ids, self.carriers[i]) {
                assert(ids@.contains(self@.carriers[i as int]));
                return true;
            }
            i += 1;
        }
        false
    }

    /// Whether the message is one of those numbered `ids`.
    fn is_among(&self, ids: &[MessageId]) -> (among: bool)
        ensures
            among == self@.is_among(ids@),
    {
        match self.message.id {
            None => false,
            Some(id) => contains_message(ids, id),
        }
    }
}

/// A sender that sends each message until a packet that carried it is
/// acknowledged.
pub struct ReliableSender {
    /// The messages that were queued and not offered yet, oldest first.
    unsent: Vec<Message>,
    /// The messages that were offered and are not known to have arrived,
    /// oldest first.
    in_flight: Vec<InFlightMessage>,
    /// Message id to use for the next message to be sent.
    next_send_message_id: u64,
    /// Copy of the current time, taken at the last update.
    current_time: i64,
    /// How long to wait for an acknowledgment before a message is offered
    /// again.
    resend_delay: i64,
    /// How many messages the sender holds at most, unsent and in flight.
    max_queue_size: usize,
}

impl ReliableSender {
    /// A sender that has been handed nothing, that offers a message again
    /// each time `resend_delay` milliseconds have passed without an
    /// acknowledgment, and that holds at most `max_queue_size` messages.
    pub fn new(resend_delay: i64, max_queue_size: usize) -> (sender: ReliableSender)
        ensures
            sender.wf(),
            sender.state() == SenderState::initial(
                ChannelSettings {
                    mode: ChannelMode::OrderedReliable,
                    resend_delay,
                    max_send_queue_size: max_queue_size,
                },
            ),
    {
        ReliableSender {
            unsent: Vec::new(),
            in_flight: Vec::new(),
            next_send_message_id: 0,
            current_time: 0,
            resend_delay,
            max_queue_size,
        }
    }

    /// How many messages are in flight.
    pub fn in_flight_len(&self) -> (len: usize)
        ensures
            len == self.state().in_flight.len(),
    {
        self.in_flight.len()
    }
}

impl ChannelSend for ReliableSender {
    closed spec fn state(&self) -> SenderState {
        SenderState {
            mode: ChannelMode::OrderedReliable,
            unsent: contents(self.unsent@),
            in_flight: entries(self.in_flight@),
            next_id: self.next_send_message_id,
            now: self.current_time,
            resend_delay: self.resend_delay,
            max_queue_size: self.max_queue_size,
        }
    }

    open spec fn wf(&self) -> bool {
        self.state().wf() && self.state().mode == ChannelMode::OrderedReliable
    }

    proof fn lemma_wf_state(&self) {
    }

    fn buffer_send(&mut self, message: Message) -> (accepted: Result<(), ChannelError>) {
        if self.unsent.len() >= self.max_queue_size || self.in_flight.len() >= self.max_queue_size
            - self.unsent.len() {
            return Err(ChannelError::QueueFull);
        }
        if self.next_send_message_id == u64::MAX {
            return Err(ChannelError::SequenceExhausted);
        }
        self.unsent.push(
            Message { id: Some(MessageId(self.next_send_message_id)), payload: message.payload },
        );
        self.next_send_message_id = self.next_send_message_id + 1;
        assert(self.state() =~= old(self).state().enqueued(message@.payload));
        Ok(())
    }

    fn collect_messages_to_send(&mut self) -> (messages: Vec<Message>) {
        let ghost before = old(self).state();
        let ghost due = is_due_at(before.now, before.resend_delay);
        let ghost message_of = |entry: InFlightData| entry.message;
        let mut messages: Vec<Message> = Vec::new();
        // the messages in flight that have waited long enough are offered again
        let mut i: usize = 0;
        proof {
            reveal(Seq::filter);
        }
        while i < self.in_flight.len()
            invariant
                0 <= i <= self.in_flight@.len(),
                self.in_flight@.len() == before.in_flight.len(),
                self.unsent == old(self).unsent,
                self.next_send_message_id == old(self).next_send_message_id,
                self.current_time == before.now,
                self.resend_delay == before.resend_delay,
                self.max_queue_size == before.max_queue_size,
                due == is_due_at(before.now, before.resend_delay),
                message_of == |entry: InFlightData| entry.message,
                contents(messages@) == before.in_flight.take(i as int).filter(due).map_values(
                    message_of,
                ),
                forall|k: int|
                    0 <= k < self.in_flight@.len() ==> (#[trigger] self.in_flight@[k])@ == (if k
                        < i {
                        before.in_flight[k].offered_again(before.now, before.resend_delay)
                    } else {
                        before.in_flight[k]
                    }),
            decreases self.in_flight@.len() - i,
        {
            let ghost entry = before.in_flight[i as int];
            proof {
                assert(before.in_flight.take(i + 1) =~= before.in_flight.take(i as int).push(
                    entry,
                ));
                before.in_flight.take(i as int).lemma_filter_push(entry, due);
            }
            if elapsed_exceeds(self.current_time, self.in_flight[i].last_sent, self.resend_delay) {
                messages.push(self.in_flight[i].message.duplicate());
                self.in_flight[i].last_sent = self.current_time;
                assert(before.in_flight.take(i as int).filter(due).push(entry).map_values(
                    message_of,
                ) =~= before.in_flight.take(i as int).filter(due).map_values(message_of).push(
                    entry.message,
                ));
            }
            i += 1;
        }
        assert(before.in_flight.take(i as int) =~= before.in_flight);
        // the messages that were never offered are, and are in flight from now on
        let mut unsent: Vec<Message> = Vec::new();
        std::mem::swap(&mut self.unsent, &mut unsent);
        let ghost offered_again = messages@;
        let ghost first = unsent@;
        let ghost stamped = self.in_flight@;
        for message in moved: unsent.into_iter()
            invariant
                moved.seq() == first,
                contents(first) == before.unsent,
                self.unsent@.len() == 0,
                self.next_send_message_id == old(self).next_send_message_id,
                self.current_time == before.now,
                self.resend_delay == before.resend_delay,
                self.max_queue_size == before.max_queue_size,
                contents(messages@) == contents(offered_again) + before.unsent.take(moved.index()),
                entries(self.in_flight@) == entries(stamped) + before.unsent.take(
                    moved.index(),
                ).map_values(|message: MessageData| InFlightData::first_offer(message, before.now)),
                moved.index() == moved.seq().len() ==> contents(messages@) == contents(
                    offered_again,
                ) + before.unsent && entries(self.in_flight@) == entries(stamped)
                    + before.unsent.map_values(
                    |message: MessageData| InFlightData::first_offer(message, before.now),
                ),
        {
            let ghost at = moved.index();
            let ghost messages_then = messages@;
            let ghost in_flight_then = self.in_flight@;
            messages.push(message.duplicate());
            self.in_flight.push(
                InFlightMessage { message, carriers: Vec::new(), last_sent: self.current_time },
            );
            proof {
                assert(contents(messages@) =~= contents(messages_then).push(before.unsent[at]));
                assert(entries(self.in_flight@) =~= entries(in_flight_then).push(
                    InFlightData::first_offer(before.unsent[at], before.now),
                ));
            }
        }
        messages
    }

    fn has_messages_to_send(&self) -> (ready: bool) {
        let ghost state = self.state();
        let ghost due = is_due_at(state.now, state.resend_delay);
        if self.unsent.len() > 0 {
            return true;
        }
        let mut i: usize = 0;
        while i < self.in_flight.len()
            invariant
                0 <= i <= self.in_flight@.len(),
                state == self.state(),
                due == is_due_at(state.now, state.resend_delay),
                forall|k: int| 0 <= k < i ==> !due(#[trigger] state.in_flight[k]),
            decreases self.in_flight@.len() - i,
        {
            if elapsed_exceeds(self.current_time, self.in_flight[i].last_sent, self.resend_delay) {
                proof {
                    state.in_flight.lemma_filter_contains(due, i as int);
                }
                return true;
            }
            i += 1;
        }
        proof {
            if state.due().len() > 0 {
                state.in_flight.lemma_filter_pred(due, 0);
                state.in_flight.lemma_filter_contains_rev(due, state.due()[0]);
            }
        }
        false
    }

    fn on_packet_sent(&mut self, packet_id: PacketId, message_ids: &[MessageId]) {
        let ghost before = old(self).state();
        let mut i: usize = 0;
        while i < self.in_flight.len()
            invariant
                0 <= i <= self.in_flight@.len(),
                self.in_flight@.len() == before.in_flight.len(),
                self.unsent == old(self).unsent,
                self.next_send_message_id == old(self).next_send_message_id,
                self.current_time == old(self).current_time,
                self.resend_delay == old(self).resend_delay,
                self.max_queue_size == old(self).max_queue_size,
                forall|k: int|
                    0 <= k < self.in_flight@.len() ==> (#[trigger] self.in_flight@[k])@ == (if k
                        < i {
                        before.in_flight[k].carried_on(packet_id, message_ids@)
                    } else {
                        before.in_flight[k]
                    }),
            decreases self.in_flight@.len() - i,
        {
            if self.in_flight[i].is_among(message_ids) {
                self.in_flight[i].carriers.push(packet_id);
            }
            i += 1;
        }
    }

    fn on_packets_acked(&mut self, ids: &[PacketId]) {
        let ghost before = old(self).state();
        let ghost kept = not_carried_by(ids@);
        let mut in_flight: Vec<InFlightMessage> = Vec::new();
        std::mem::swap(&mut self.in_flight, &mut in_flight);
        let ghost all = in_flight@;
        proof {
            reveal(Seq::filter);
        }
        for entry in waiting: in_flight.into_iter()
            invariant
                waiting.seq() == all,
                entries(all) == before.in_flight,
                kept == not_carried_by(ids@),
                self.unsent == old(self).unsent,
                self.next_send_message_id == old(self).next_send_message_id,
                self.current_time == old(self).current_time,
                self.resend_delay == old(self).resend_delay,
                self.max_queue_size == old(self).max_queue_size,
                entries(self.in_flight@) == before.in_flight.take(waiting.index()).filter(kept),
                waiting.index() == waiting.seq().len() ==> entries(self.in_flight@)
                    == before.in_flight.filter(kept),
        {
            let ghost at = waiting.index();
            proof {
                assert(before.in_flight.take(at + 1) =~= before.in_flight.take(at).push(entry@));
                before.in_flight.take(at).lemma_filter_push(entry@, kept);
                if at + 1 == all.len() {
                    assert(before.in_flight.take(at + 1) =~= before.in_flight);
                }
            }
            if !entry.carried_by_any(ids) {
                self.in_flight.push(entry);
            }
        }
        proof {
            lemma_after_packets_acked_wf(before, ids@);
        }
    }

    fn on_packets_lost(&mut self, ids: &[PacketId]) {
    }

    fn update(&mut self, now: i64) {
        self.current_time = now;
    }
}

} // verus!
