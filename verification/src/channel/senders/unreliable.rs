//! Senders of unreliable channels: every message is offered once.

use crate::channel::message::{contents, ChannelError, Message, MessageId};
use crate::channel::senders::{ChannelMode, ChannelSend, ChannelSettings, SenderState};
use crate::packet_id::PacketId;
use vstd::prelude::*;

verus! {

/// A sender with nothing in flight offers its unsent messages and no
/// other, and an acknowledgment changes nothing for it.
pub proof fn lemma_nothing_in_flight(state: SenderState, ids: Seq<PacketId>)
    requires
        state.in_flight.len() == 0,
    ensures
        state.due().len() == 0,
        state.to_send() == state.unsent,
        state.after_packets_acked(ids) == state,
{
    reveal(Seq::filter);
}

/// A sender that simply sends the messages in the order they were queued,
/// once, without any number on them.
pub struct UnorderedUnreliableSender {
    /// List of messages that we want to fit into packets and send.
    messages_to_send: Vec<Message>,
    /// How many messages the list holds at most.
    max_queue_size: usize,
}

impl UnorderedUnreliableSender {
    /// A sender that has been handed nothing and holds at most
    /// `max_queue_size` messages.
    pub fn new(max_queue_size: usize) -> (sender: UnorderedUnreliableSender)
        ensures
            sender.wf(),
            sender.state() == SenderState::initial(
                ChannelSettings {
                    mode: ChannelMode::UnorderedUnreliable,
                    resend_delay: 0,
                    max_send_queue_size: max_queue_size,
                },
            ),
    {
        UnorderedUnreliableSender { messages_to_send: Vec::new(), max_queue_size }
    }
}

impl ChannelSend for UnorderedUnreliableSender {
    closed spec fn state(&self) -> SenderState {
        SenderState {
            mode: ChannelMode::UnorderedUnreliable,
            unsent: contents(self.messages_to_send@),
            in_flight: Seq::empty(),
            next_id: 0,
            now: 0,
            resend_delay: 0,
            max_queue_size: self.max_queue_size,
        }
    }

    open spec fn wf(&self) -> bool {
        self.state().wf() && self.state().mode == ChannelMode::UnorderedUnreliable
    }

    proof fn lemma_wf_state(&self) {
    }

    fn buffer_send(&mut self, message: Message) -> (accepted: Result<(), ChannelError>) {
        if self.messages_to_send.len() >= self.max_queue_size {
            return Err(ChannelError::QueueFull);
        }
        self.messages_to_send.push(Message { id: None, payload: message.payload });
        assert(self.state() =~= old(self).state().enqueued(message@.payload));
        Ok(())
    }

    fn collect_messages_to_send(&mut self) -> (messages: Vec<Message>) {
        proof {
            lemma_nothing_in_flight(self.state(), Seq::empty());
        }
        let mut messages: Vec<Message> = Vec::new();
        std::mem::swap(&mut self.messages_to_send, &mut messages);
        messages
    }

    fn has_messages_to_send(&self) -> (ready: bool) {
        proof {
            lemma_nothing_in_flight(self.state(), Seq::empty());
        }
        self.messages_to_send.len() > 0
    }

    fn on_packet_sent(&mut self, packet_id: PacketId, message_ids: &[MessageId])
        ensures
            final(self).state() == old(self).state(),
    {
    }

    fn on_packets_acked(&mut self, ids: &[PacketId])
        ensures
            final(self).state() == old(self).state(),
    {
        proof {
            lemma_nothing_in_flight(self.state(), ids@);
        }
    }

    fn on_packets_lost(&mut self, ids: &[PacketId]) {
    }

    fn update(&mut self, now: i64)
        ensures
            final(self).state() == old(self).state(),
    {
    }
}

/// A sender that sends the messages once, each under a sequence number, so
/// that the receiver can tell which is the newest.
pub struct SequencedUnreliableSender {
    /// List of messages that we want to fit into packets and send.
    messages_to_send: Vec<Message>,
    /// Message id to use for the next message to be sent.
    next_send_message_id: u64,
    /// How many messages the list holds at most.
    max_queue_size: usize,
}

impl SequencedUnreliableSender {
    /// A sender that has been handed nothing and holds at most
    /// `max_queue_size` messages.
    pub fn new(max_queue_size: usize) -> (sender: SequencedUnreliableSender)
        ensures
            sender.wf(),
            sender.state() == SenderState::initial(
                ChannelSettings {
                    mode: ChannelMode::SequencedUnreliable,
                    resend_delay: 0,
                    max_send_queue_size: max_queue_size,
                },
            ),
    {
        SequencedUnreliableSender {
            messages_to_send: Vec::new(),
            next_send_message_id: 0,
            max_queue_size,
        }
    }
}

impl ChannelSend for SequencedUnreliableSender {
    closed spec fn state(&self) -> SenderState {
        SenderState {
            mode: ChannelMode::SequencedUnreliable,
            unsent: contents(self.messages_to_send@),
            in_flight: Seq::empty(),
            next_id: self.next_send_message_id,
            now: 0,
            resend_delay: 0,
            max_queue_size: self.max_queue_size,
        }
    }

    open spec fn wf(&self) -> bool {
        self.state().wf() && self.state().mode == ChannelMode::SequencedUnreliable
    }

    proof fn lemma_wf_state(&self) {
    }

    fn buffer_send(&mut self, message: Message) -> (accepted: Result<(), ChannelError>) {
        if self.messages_to_send.len() >= self.max_queue_size {
            return Err(ChannelError::QueueFull);
        }
        if self.next_send_message_id == u64::MAX {
            return Err(ChannelError::SequenceExhausted);
        }
        self.messages_to_send.push(
            Message { id: Some(MessageId(self.next_send_message_id)), payload: message.payload },
        );
        self.next_send_message_id = self.next_send_message_id + 1;
        assert(self.state() =~= old(self).state().enqueued(message@.payload));
        Ok(())
    }

    fn collect_messages_to_send(&mut self) -> (messages: Vec<Message>) {
        proof {
            lemma_nothing_in_flight(self.state(), Seq::empty());
        }
        let mut messages: Vec<Message> = Vec::new();
        std::mem::swap(&mut self.messages_to_send, &mut messages);
        messages
    }

    fn has_messages_to_send(&self) -> (ready: bool) {
        proof {
            lemma_nothing_in_flight(self.state(), Seq::empty());
        }
        self.messages_to_send.len() > 0
    }

    fn on_packet_sent(&mut self, packet_id: PacketId, message_ids: &[MessageId])
        ensures
            final(self).state() == old(self).state(),
    {
    }

    fn on_packets_acked(&mut self, ids: &[PacketId])
        ensures
            final(self).state() == old(self).state(),
    {
        proof {
            lemma_nothing_in_flight(self.state(), ids@);
        }
    }

    fn on_packets_lost(&mut self, ids: &[PacketId]) {
    }

    fn update(&mut self, now: i64)
        ensures
            final(self).state() == old(self).state(),
    {
    }
}

} // verus!
