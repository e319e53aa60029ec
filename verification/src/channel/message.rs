//! Messages, as channels see them: opaque bytes with a sequence number.

use vstd::prelude::*;

verus! {

/// How many messages a sender holds at most, unless its settings say
/// otherwise.
pub const MAX_SEND_QUEUE_SIZE: usize = 255;

/// Sequence number of a message on its channel. A channel hands them out
/// in increasing order, starting at 0.
#[derive(Clone, Copy, Debug, PartialEq, Eq, Hash, Structural)]
pub struct MessageId(pub u64);

/// Why a channel did not take a message.
#[derive(Clone, Copy, Debug, PartialEq, Eq, Structural)]
pub enum ChannelError {
    /// The channel holds as many messages as it may: the caller has to
    /// slow down, or drop messages of low priority.
    QueueFull,
    /// The channel has handed out every sequence number.
    SequenceExhausted,
}

/// What a [`Message`] holds.
pub struct MessageData {
    /// The sequence number, where the channel gave one.
    pub id: Option<MessageId>,
    /// The serialized payload.
    pub payload: Seq<u8>,
}

/// A serialized payload, with the sequence number that its channel gave
/// it. Channels do not look into the payload.
#[derive(Debug)]
pub struct Message {
    /// The sequence number; `None` before a channel has given one, and on
    /// channels that give none.
    pub id: Option<MessageId>,
    /// The serialized payload.
    pub payload: Vec<u8>,
}

impl View for Message {
    type V = MessageData;

    open spec fn view(&self) -> MessageData {
        MessageData { id: self.id, payload: self.payload@ }
    }
}

/// What each message of a sequence holds.
pub open spec fn contents(messages: Seq<Message>) -> Seq<MessageData> {
    messages.map_values(|message: Message| message@)
}

impl Message {
    /// A message that no channel has numbered yet.
    pub fn new(payload: Vec<u8>) -> (message: Message)
        ensures
            message@ == (MessageData { id: None, payload: payload@ }),
    {
        Message { id: None, payload }
    }

    /// A copy of the message.
    pub fn duplicate(&self) -> (copy: Message)
        ensures
            copy@ == self@,
    {
        let payload = self.payload.clone();
        Message { id: self.id, payload }
    }
}

} // verus!
