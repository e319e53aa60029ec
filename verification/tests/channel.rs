use lightyear::channel::message::{ChannelError, Message, MessageId, MAX_SEND_QUEUE_SIZE};
use lightyear::channel::receivers::{OrderedReliableReceiver, SequencedUnreliableReceiver};
use lightyear::channel::senders::reliable::ReliableSender;
use lightyear::channel::senders::unreliable::{
    SequencedUnreliableSender, UnorderedUnreliableSender,
};
use lightyear::channel::senders::{ChannelMode, ChannelSend, ChannelSender, ChannelSettings};
use lightyear::packet_id::PacketId;

fn message(text: &str) -> Message {
    Message::new(text.as_bytes().to_vec())
}

fn numbered(id: u64, text: &str) -> Message {
    Message {
        id: Some(MessageId(id)),
        payload: text.as_bytes().to_vec(),
    }
}

fn ids(messages: &[Message]) -> Vec<Option<u64>> {
    messages.iter().map(|m| m.id.map(|id| id.0)).collect()
}

fn payloads(messages: &[Message]) -> Vec<String> {
    messages
        .iter()
        .map(|m| String::from_utf8(m.payload.clone()).unwrap())
        .collect()
}

#[test]
fn message_new_and_duplicate() {
    let fresh = message("hello");
    assert_eq!(fresh.id, None);
    assert_eq!(fresh.payload, b"hello".to_vec());
    let stamped = numbered(4, "abc");
    let copy = stamped.duplicate();
    assert_eq!(copy.id, Some(MessageId(4)));
    assert_eq!(copy.payload, b"abc".to_vec());
    assert_eq!(message("").duplicate().payload, Vec::<u8>::new());
}

#[test]
fn unordered_sender_sends_once_without_numbers() {
    let mut sender = UnorderedUnreliableSender::new(MAX_SEND_QUEUE_SIZE);
    assert!(!sender.has_messages_to_send());
    assert_eq!(sender.buffer_send(numbered(9, "a")), Ok(()));
    assert_eq!(sender.buffer_send(message("b")), Ok(()));
    assert!(sender.has_messages_to_send());
    let sent = sender.collect_messages_to_send();
    assert_eq!(ids(&sent), vec![None, None]);
    assert_eq!(payloads(&sent), vec!["a", "b"]);
    // nothing is retained after collection
    assert!(!sender.has_messages_to_send());
    assert!(sender.collect_messages_to_send().is_empty());
    // ack and loss mean nothing to it
    sender.on_packet_sent(PacketId(0), &[]);
    sender.on_packets_acked(&[PacketId(0)]);
    sender.on_packets_lost(&[PacketId(0)]);
    sender.update(1_000_000);
    assert!(!sender.has_messages_to_send());
}

#[test]
fn sequenced_sender_numbers_its_messages() {
    let mut sender = SequencedUnreliableSender::new(MAX_SEND_QUEUE_SIZE);
    assert_eq!(sender.buffer_send(message("a")), Ok(()));
    assert_eq!(sender.buffer_send(numbered(77, "b")), Ok(()));
    let sent = sender.collect_messages_to_send();
    assert_eq!(ids(&sent), vec![Some(0), Some(1)]);
    assert_eq!(payloads(&sent), vec!["a", "b"]);
    assert_eq!(sender.buffer_send(message("c")), Ok(()));
    let sent = sender.collect_messages_to_send();
    assert_eq!(ids(&sent), vec![Some(2)]);
    // no retransmission
    sender.update(1_000_000);
    sender.on_packets_lost(&[PacketId(0)]);
    assert!(!sender.has_messages_to_send());
    assert!(sender.collect_messages_to_send().is_empty());
}

#[test]
fn send_queue_depth_is_a_rejection() {
    let mut unordered = UnorderedUnreliableSender::new(MAX_SEND_QUEUE_SIZE);
    let mut sequenced = SequencedUnreliableSender::new(MAX_SEND_QUEUE_SIZE);
    let mut reliable = ReliableSender::new(100, MAX_SEND_QUEUE_SIZE);
    assert_eq!(MAX_SEND_QUEUE_SIZE, 255);
    for _ in 0..255 {
        assert_eq!(unordered.buffer_send(message("x")), Ok(()));
        assert_eq!(sequenced.buffer_send(message("x")), Ok(()));
        assert_eq!(reliable.buffer_send(message("x")), Ok(()));
    }
    assert_eq!(
        unordered.buffer_send(message("y")),
        Err(ChannelError::QueueFull)
    );
    assert_eq!(
        sequenced.buffer_send(message("y")),
        Err(ChannelError::QueueFull)
    );
    assert_eq!(
        reliable.buffer_send(message("y")),
        Err(ChannelError::QueueFull)
    );
    // the rejected message was not queued
    assert_eq!(unordered.collect_messages_to_send().len(), 255);
    assert_eq!(sequenced.collect_messages_to_send().len(), 255);
    // an unreliable sender has room again once it has offered its messages
    assert_eq!(unordered.buffer_send(message("z")), Ok(()));
    assert_eq!(sequenced.buffer_send(message("z")), Ok(()));
    // a reliable sender holds its messages until they are acknowledged
    let offered = reliable.collect_messages_to_send();
    assert_eq!(offered.len(), 255);
    assert_eq!(reliable.in_flight_len(), 255);
    assert_eq!(
        reliable.buffer_send(message("z")),
        Err(ChannelError::QueueFull)
    );
    reliable.on_packet_sent(PacketId(3), &[MessageId(0), MessageId(254)]);
    reliable.on_packets_acked(&[PacketId(3)]);
    assert_eq!(reliable.in_flight_len(), 253);
    assert_eq!(reliable.buffer_send(message("z")), Ok(()));
    assert_eq!(ids(&reliable.collect_messages_to_send()), vec![Some(255)]);
}

#[test]
fn reliable_sender_offers_until_acked() {
    let mut sender = ReliableSender::new(100, MAX_SEND_QUEUE_SIZE);
    sender.update(1000);
    assert_eq!(sender.buffer_send(message("a")), Ok(()));
    assert!(sender.has_messages_to_send());
    let first = sender.collect_messages_to_send();
    assert_eq!(ids(&first), vec![Some(0)]);
    assert_eq!(payloads(&first), vec!["a"]);
    sender.on_packet_sent(PacketId(10), &[MessageId(0)]);
    assert_eq!(sender.in_flight_len(), 1);

    // the timer has not run out: nothing to send
    sender.update(1100);
    assert!(!sender.has_messages_to_send());
    assert!(sender.collect_messages_to_send().is_empty());

    // it has: the message is offered again, and the timer starts anew
    sender.update(1101);
    assert!(sender.has_messages_to_send());
    let second = sender.collect_messages_to_send();
    assert_eq!(ids(&second), vec![Some(0)]);
    assert_eq!(payloads(&second), vec!["a"]);
    sender.on_packet_sent(PacketId(11), &[MessageId(0)]);
    assert!(!sender.has_messages_to_send());
    sender.update(1201);
    assert!(!sender.has_messages_to_send());

    // and again, for as long as no acknowledgment comes
    sender.update(1202);
    assert_eq!(ids(&sender.collect_messages_to_send()), vec![Some(0)]);
    sender.on_packet_sent(PacketId(12), &[MessageId(0)]);
    sender.update(5000);
    assert_eq!(ids(&sender.collect_messages_to_send()), vec![Some(0)]);

    // the loss of a packet forces nothing
    sender.on_packets_lost(&[PacketId(10), PacketId(11)]);
    assert!(!sender.has_messages_to_send());
    assert_eq!(sender.in_flight_len(), 1);

    // the acknowledgment of any packet that carried it finalizes the message
    sender.on_packets_acked(&[PacketId(11)]);
    assert_eq!(sender.in_flight_len(), 0);
    sender.update(1_000_000);
    assert!(!sender.has_messages_to_send());
    assert!(sender.collect_messages_to_send().is_empty());
    // acknowledgments of the other copies change nothing
    sender.on_packets_acked(&[PacketId(10), PacketId(12)]);
    assert!(sender.collect_messages_to_send().is_empty());
}

#[test]
fn reliable_sender_acks_are_per_packet() {
    let mut sender = ReliableSender::new(50, MAX_SEND_QUEUE_SIZE);
    for text in ["a", "b", "c"] {
        assert_eq!(sender.buffer_send(message(text)), Ok(()));
    }
    let offered = sender.collect_messages_to_send();
    assert_eq!(ids(&offered), vec![Some(0), Some(1), Some(2)]);
    // a and b rode on packet 1, c on packet 2
    sender.on_packet_sent(PacketId(1), &[MessageId(0), MessageId(1)]);
    sender.on_packet_sent(PacketId(2), &[MessageId(2)]);
    // a packet that carried nothing of this channel
    sender.on_packets_acked(&[PacketId(7)]);
    assert_eq!(sender.in_flight_len(), 3);
    sender.on_packets_acked(&[PacketId(7), PacketId(1)]);
    assert_eq!(sender.in_flight_len(), 1);
    sender.update(51);
    let resent = sender.collect_messages_to_send();
    assert_eq!(ids(&resent), vec![Some(2)]);
    assert_eq!(payloads(&resent), vec!["c"]);
    sender.on_packets_acked(&[PacketId(2)]);
    assert_eq!(sender.in_flight_len(), 0);
}

#[test]
fn reliable_sender_offers_old_messages_before_new_ones() {
    let mut sender = ReliableSender::new(10, MAX_SEND_QUEUE_SIZE);
    assert_eq!(sender.buffer_send(message("a")), Ok(()));
    assert_eq!(sender.buffer_send(message("b")), Ok(()));
    assert_eq!(sender.collect_messages_to_send().len(), 2);
    sender.on_packet_sent(PacketId(0), &[MessageId(0)]);
    sender.on_packet_sent(PacketId(1), &[MessageId(1)]);
    sender.on_packets_acked(&[PacketId(0)]);
    assert_eq!(sender.buffer_send(message("c")), Ok(()));
    // b is not due yet
    sender.update(10);
    assert_eq!(ids(&sender.collect_messages_to_send()), vec![Some(2)]);
    // b is due since 11, c since 21
    sender.update(11);
    assert_eq!(ids(&sender.collect_messages_to_send()), vec![Some(1)]);
    sender.update(22);
    let offered = sender.collect_messages_to_send();
    assert_eq!(ids(&offered), vec![Some(1), Some(2)]);
    assert_eq!(payloads(&offered), vec!["b", "c"]);
}

#[test]
fn channel_sender_dispatches_by_mode() {
    let mut unordered =
        ChannelSender::new(ChannelSettings::new(ChannelMode::UnorderedUnreliable, 100));
    let mut sequenced =
        ChannelSender::new(ChannelSettings::new(ChannelMode::SequencedUnreliable, 100));
    let mut reliable = ChannelSender::new(ChannelSettings::new(ChannelMode::OrderedReliable, 100));
    assert!(matches!(unordered, ChannelSender::UnorderedUnreliable(_)));
    assert!(matches!(sequenced, ChannelSender::SequencedUnreliable(_)));
    assert!(matches!(reliable, ChannelSender::Reliable(_)));
    for sender in [&mut unordered, &mut sequenced, &mut reliable] {
        assert!(!sender.has_messages_to_send());
        assert_eq!(sender.buffer_send(message("m")), Ok(()));
        assert!(sender.has_messages_to_send());
    }
    assert_eq!(ids(&unordered.collect_messages_to_send()), vec![None]);
    assert_eq!(ids(&sequenced.collect_messages_to_send()), vec![Some(0)]);
    assert_eq!(ids(&reliable.collect_messages_to_send()), vec![Some(0)]);
    for sender in [&mut unordered, &mut sequenced, &mut reliable] {
        sender.on_packet_sent(PacketId(0), &[MessageId(0)]);
        sender.on_packets_lost(&[PacketId(0)]);
        sender.update(101);
    }
    assert!(!unordered.has_messages_to_send());
    assert!(!sequenced.has_messages_to_send());
    assert!(reliable.has_messages_to_send());
    assert_eq!(ids(&reliable.collect_messages_to_send()), vec![Some(0)]);
    for sender in [&mut unordered, &mut sequenced, &mut reliable] {
        sender.on_packets_acked(&[PacketId(0)]);
        sender.update(1000);
        assert!(!sender.has_messages_to_send());
        assert!(sender.collect_messages_to_send().is_empty());
    }
}

#[test]
fn sequenced_receiver_drops_stale_messages() {
    let mut receiver = SequencedUnreliableReceiver::new();
    assert_eq!(receiver.most_recent_message_id(), None);
    let mut delivered = Vec::new();
    for id in [1u64, 3, 2, 5] {
        if let Some(m) = receiver.recv_message(numbered(id, "p")) {
            delivered.push(m);
        }
    }
    assert_eq!(ids(&delivered), vec![Some(1), Some(3), Some(5)]);
    assert_eq!(receiver.most_recent_message_id(), Some(MessageId(5)));
}

#[test]
fn sequenced_receiver_drops_duplicates_and_unnumbered_messages() {
    let mut receiver = SequencedUnreliableReceiver::new();
    assert!(receiver.recv_message(message("no number")).is_none());
    assert_eq!(receiver.most_recent_message_id(), None);
    let first = receiver.recv_message(numbered(0, "zero")).unwrap();
    assert_eq!(first.payload, b"zero".to_vec());
    assert!(receiver.recv_message(numbered(0, "zero")).is_none());
    assert!(receiver.recv_message(message("no number")).is_none());
    assert_eq!(receiver.most_recent_message_id(), Some(MessageId(0)));
    assert!(receiver.recv_message(numbered(u64::MAX, "last")).is_some());
    assert!(receiver.recv_message(numbered(u64::MAX, "last")).is_none());
}

#[test]
fn ordered_receiver_withholds_until_the_gap_is_filled() {
    let mut receiver = OrderedReliableReceiver::new();
    assert_eq!(receiver.next_expected(), MessageId(0));
    assert!(receiver.recv_message(numbered(2, "c")).is_empty());
    assert!(receiver.recv_message(numbered(1, "b")).is_empty());
    assert!(receiver.recv_message(numbered(4, "e")).is_empty());
    assert_eq!(receiver.waiting_len(), 3);
    let delivered = receiver.recv_message(numbered(0, "a"));
    assert_eq!(ids(&delivered), vec![Some(0), Some(1), Some(2)]);
    assert_eq!(payloads(&delivered), vec!["a", "b", "c"]);
    assert_eq!(receiver.next_expected(), MessageId(3));
    assert_eq!(receiver.waiting_len(), 1);
    let delivered = receiver.recv_message(numbered(3, "d"));
    assert_eq!(payloads(&delivered), vec!["d", "e"]);
    assert_eq!(receiver.next_expected(), MessageId(5));
    assert_eq!(receiver.waiting_len(), 0);
}

#[test]
fn ordered_receiver_delivers_each_message_once() {
    let mut receiver = OrderedReliableReceiver::new();
    assert_eq!(payloads(&receiver.recv_message(numbered(0, "a"))), vec!["a"]);
    // a retransmission of what was delivered
    assert!(receiver.recv_message(numbered(0, "a")).is_empty());
    // two copies of what waits: the first one is kept
    assert!(receiver.recv_message(numbered(2, "first")).is_empty());
    assert!(receiver.recv_message(numbered(2, "second")).is_empty());
    assert_eq!(receiver.waiting_len(), 1);
    // a message without a number, and the number that no sender gives
    assert!(receiver.recv_message(message("?")).is_empty());
    assert!(receiver.recv_message(numbered(u64::MAX, "?")).is_empty());
    assert_eq!(receiver.waiting_len(), 1);
    let delivered = receiver.recv_message(numbered(1, "b"));
    assert_eq!(payloads(&delivered), vec!["b", "first"]);
    assert_eq!(receiver.next_expected(), MessageId(3));
}

#[test]
fn reliable_channel_end_to_end_with_loss() {
    let mut sender = ReliableSender::new(100, MAX_SEND_QUEUE_SIZE);
    let mut receiver = OrderedReliableReceiver::new();
    for text in ["a", "b", "c"] {
        assert_eq!(sender.buffer_send(message(text)), Ok(()));
    }
    // each message rides on a packet of its own; the first one is lost
    let offered = sender.collect_messages_to_send();
    let mut delivered = Vec::new();
    for (packet, m) in offered.into_iter().enumerate() {
        let id = m.id.unwrap();
        sender.on_packet_sent(PacketId(packet as u16), &[id]);
        if packet != 0 {
            delivered.extend(receiver.recv_message(m));
        }
    }
    assert!(delivered.is_empty());
    sender.on_packets_acked(&[PacketId(1), PacketId(2)]);
    sender.on_packets_lost(&[PacketId(0)]);
    // the timer brings the first message back
    sender.update(101);
    let offered = sender.collect_messages_to_send();
    assert_eq!(ids(&offered), vec![Some(0)]);
    for m in offered {
        sender.on_packet_sent(PacketId(3), &[m.id.unwrap()]);
        delivered.extend(receiver.recv_message(m));
    }
    assert_eq!(payloads(&delivered), vec!["a", "b", "c"]);
    sender.on_packets_acked(&[PacketId(3)]);
    sender.update(10_000);
    assert!(!sender.has_messages_to_send());
}

#[test]
fn channel_settings_default_to_a_queue_of_255() {
    let settings = ChannelSettings::new(ChannelMode::OrderedReliable, 40);
    assert_eq!(
        settings,
        ChannelSettings {
            mode: ChannelMode::OrderedReliable,
            resend_delay: 40,
            max_send_queue_size: 255,
        }
    );
}

#[test]
fn send_queue_depth_can_be_chosen() {
    let mut sender = ChannelSender::new(ChannelSettings {
        mode: ChannelMode::OrderedReliable,
        resend_delay: 5,
        max_send_queue_size: 2,
    });
    assert_eq!(sender.buffer_send(message("a")), Ok(()));
    assert_eq!(sender.buffer_send(message("b")), Ok(()));
    assert_eq!(sender.buffer_send(message("c")), Err(ChannelError::QueueFull));
    assert_eq!(sender.collect_messages_to_send().len(), 2);
    assert_eq!(sender.buffer_send(message("c")), Err(ChannelError::QueueFull));
    sender.on_packet_sent(PacketId(0), &[MessageId(1)]);
    sender.on_packets_acked(&[PacketId(0)]);
    assert_eq!(sender.buffer_send(message("c")), Ok(()));
    assert_eq!(ids(&sender.collect_messages_to_send()), vec![Some(2)]);

    let mut closed = UnorderedUnreliableSender::new(0);
    assert_eq!(closed.buffer_send(message("a")), Err(ChannelError::QueueFull));
    assert!(!closed.has_messages_to_send());
}
