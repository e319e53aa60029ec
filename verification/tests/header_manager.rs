use lightyear::header::{PacketHeader, PacketType, Tick, NO_PACKET_RECEIVED};
use lightyear::header_manager::PacketHeaderManager;
use lightyear::packet_id::PacketId;
use lightyear::stats::PacketStats;
use lightyear::time::{elapsed_exceeds, CLEAR_UNACKED_PACKETS_DELAY_MS};

fn incoming(packet_id: u16, last_ack: u16, ack_bitfield: u32) -> PacketHeader {
    PacketHeader {
        packet_type: PacketType::Data,
        packet_id: PacketId(packet_id),
        last_ack_packet_id: PacketId(last_ack),
        ack_bitfield,
        tick: Tick(0),
    }
}

fn manager_that_sent(count: u16) -> PacketHeaderManager {
    let mut manager = PacketHeaderManager::new();
    for _ in 0..count {
        manager.prepare_send_packet_header(PacketType::Data);
    }
    manager
}

fn sorted(mut ids: Vec<PacketId>) -> Vec<u16> {
    ids.sort_by_key(|id| id.0);
    ids.into_iter().map(|id| id.0).collect()
}

#[test]
fn new_manager_is_empty() {
    let manager = PacketHeaderManager::new();
    assert_eq!(manager.next_packet_id(), PacketId(0));
    assert!(manager.sent_packets_not_acked().is_empty());
    assert_eq!(manager.last_recv_packet_id(), None);
    assert_eq!(
        manager.stats(),
        PacketStats {
            packets_sent: 0,
            packets_received: 0,
            packets_acked: 0,
            packets_lost: 0
        }
    );
}

#[test]
fn first_header_carries_the_sentinel() {
    let mut manager = PacketHeaderManager::new();
    let header = manager.prepare_send_packet_header(PacketType::Ack);
    assert_eq!(
        header,
        PacketHeader {
            packet_type: PacketType::Ack,
            packet_id: PacketId(0),
            last_ack_packet_id: PacketId(NO_PACKET_RECEIVED),
            ack_bitfield: 0,
            tick: Tick(0),
        }
    );
    assert_eq!(NO_PACKET_RECEIVED, u16::MAX);
}

#[test]
fn prepare_records_the_packet_and_moves_on() {
    let mut manager = PacketHeaderManager::new();
    manager.update(1234);
    let first = manager.prepare_send_packet_header(PacketType::Data);
    let second = manager.prepare_send_packet_header(PacketType::Data);
    assert_eq!(first.packet_id, PacketId(0));
    assert_eq!(second.packet_id, PacketId(1));
    assert_eq!(manager.next_packet_id(), PacketId(2));
    let unacked = manager.sent_packets_not_acked();
    assert_eq!(unacked.len(), 2);
    assert_eq!(unacked.get(&0), Some(&1234));
    assert_eq!(unacked.get(&1), Some(&1234));
    assert_eq!(manager.stats().packets_sent, 2);
}

#[test]
fn prepare_acknowledges_what_was_received() {
    let mut manager = PacketHeaderManager::new();
    for id in [0u16, 1, 3, 6, 2] {
        manager.process_recv_packet_header(&incoming(id, NO_PACKET_RECEIVED, 0));
    }
    let header = manager.prepare_send_packet_header(PacketType::Data);
    assert_eq!(header.last_ack_packet_id, PacketId(6));
    assert_eq!(header.ack_bitfield, 0b0011_1100);
    assert_eq!(manager.last_recv_packet_id(), Some(PacketId(6)));
    assert_eq!(manager.stats().packets_received, 5);
}

#[test]
fn increment_next_packet_id_wraps() {
    let mut manager = PacketHeaderManager::new();
    manager.increment_next_packet_id();
    assert_eq!(manager.next_packet_id(), PacketId(1));
    for _ in 0..65535u32 {
        manager.increment_next_packet_id();
    }
    assert_eq!(manager.next_packet_id(), PacketId(0));
    assert!(manager.sent_packets_not_acked().is_empty());
}

#[test]
fn ack_confirmation_of_three_packets() {
    // packets 5, 6 and 7 wait for an acknowledgment
    let mut manager = PacketHeaderManager::new();
    for _ in 0..5 {
        manager.increment_next_packet_id();
    }
    for _ in 0..3 {
        manager.prepare_send_packet_header(PacketType::Data);
    }
    assert_eq!(
        sorted(manager.sent_packets_not_acked().keys().map(|k| PacketId(*k)).collect()),
        vec![5, 6, 7]
    );
    // the peer has received 7, and 6 and 5 before it
    let acked = manager.process_recv_packet_header(&incoming(0, 7, 0b11));
    assert_eq!(acked, vec![PacketId(7), PacketId(6), PacketId(5)]);
    assert!(manager.sent_packets_not_acked().is_empty());
    assert_eq!(manager.stats().packets_acked, 3);
    // a second copy of the header is no news
    let again = manager.process_recv_packet_header(&incoming(1, 7, 0b11));
    assert_eq!(again, vec![]);
    assert_eq!(manager.stats().packets_acked, 3);
    assert_eq!(manager.stats().packets_received, 2);
}

#[test]
fn ack_reports_only_what_was_waiting() {
    let mut manager = manager_that_sent(10);
    // 9 and 7 by the header, 8 is missing
    let acked = manager.process_recv_packet_header(&incoming(0, 9, 0b10));
    assert_eq!(acked, vec![PacketId(9), PacketId(7)]);
    // now 9 again, 8, and 7 again
    let acked = manager.process_recv_packet_header(&incoming(1, 9, 0b11));
    assert_eq!(acked, vec![PacketId(8)]);
    assert_eq!(
        sorted(manager.sent_packets_not_acked().keys().map(|k| PacketId(*k)).collect()),
        vec![0, 1, 2, 3, 4, 5, 6]
    );
}

#[test]
fn ack_bitfield_reaches_thirty_two_back() {
    let mut manager = manager_that_sent(40);
    // last ack 39: bit 31 is packet 7, nothing reaches packet 6
    let acked = manager.process_recv_packet_header(&incoming(0, 39, 1 << 31));
    assert_eq!(acked, vec![PacketId(39), PacketId(7)]);
    assert!(manager.sent_packets_not_acked().contains_key(&6));
    assert!(manager.sent_packets_not_acked().contains_key(&8));
}

#[test]
fn ack_bitfield_wraps_around() {
    let mut manager = PacketHeaderManager::new();
    for _ in 0..65534u32 {
        manager.increment_next_packet_id();
    }
    // packets 65534, 65535, 0, 1
    for _ in 0..4 {
        manager.prepare_send_packet_header(PacketType::Data);
    }
    let acked = manager.process_recv_packet_header(&incoming(0, 1, 0b101));
    assert_eq!(acked, vec![PacketId(1), PacketId(0), PacketId(65534)]);
    assert_eq!(
        sorted(manager.sent_packets_not_acked().keys().map(|k| PacketId(*k)).collect()),
        vec![65535]
    );
}

#[test]
fn header_of_a_peer_that_received_nothing_acks_nothing() {
    let mut peer = PacketHeaderManager::new();
    let header = peer.prepare_send_packet_header(PacketType::Data);
    let mut manager = manager_that_sent(3);
    let acked = manager.process_recv_packet_header(&header);
    assert_eq!(acked, vec![]);
    assert_eq!(manager.sent_packets_not_acked().len(), 3);
    assert_eq!(manager.stats().packets_acked, 0);
    assert_eq!(manager.last_recv_packet_id(), Some(PacketId(0)));
}

#[test]
fn two_managers_acknowledge_each_other() {
    let mut client = PacketHeaderManager::new();
    let mut server = PacketHeaderManager::new();
    let c0 = client.prepare_send_packet_header(PacketType::Data);
    let c1 = client.prepare_send_packet_header(PacketType::Data);
    let c2 = client.prepare_send_packet_header(PacketType::Data);
    // c1 is lost on the way
    assert_eq!(server.process_recv_packet_header(&c0), vec![]);
    assert_eq!(server.process_recv_packet_header(&c2), vec![]);
    let s0 = server.prepare_send_packet_header(PacketType::Data);
    assert_eq!(s0.last_ack_packet_id, PacketId(2));
    assert_eq!(s0.ack_bitfield, 0b10);
    assert_eq!(
        client.process_recv_packet_header(&s0),
        vec![PacketId(2), PacketId(0)]
    );
    assert_eq!(
        sorted(client.sent_packets_not_acked().keys().map(|k| PacketId(*k)).collect()),
        vec![1]
    );
    // the late packet arrives after all
    assert_eq!(server.process_recv_packet_header(&c1), vec![]);
    let s1 = server.prepare_send_packet_header(PacketType::Data);
    assert_eq!(s1.ack_bitfield, 0b11);
    assert_eq!(client.process_recv_packet_header(&s1), vec![PacketId(1)]);
    assert!(client.sent_packets_not_acked().is_empty());
    let c3 = client.prepare_send_packet_header(PacketType::Ack);
    assert_eq!(c3.last_ack_packet_id, PacketId(1));
    assert_eq!(c3.ack_bitfield, 0b1);
    assert_eq!(
        server.process_recv_packet_header(&c3),
        vec![PacketId(1), PacketId(0)]
    );
}

#[test]
fn expiry_removes_and_reports_once() {
    let mut manager = PacketHeaderManager::new();
    manager.update(1000);
    manager.prepare_send_packet_header(PacketType::Data);
    // exactly the delay later: not yet
    assert_eq!(manager.update(1000 + CLEAR_UNACKED_PACKETS_DELAY_MS), vec![]);
    assert_eq!(manager.sent_packets_not_acked().len(), 1);
    // one millisecond more
    assert_eq!(
        manager.update(1001 + CLEAR_UNACKED_PACKETS_DELAY_MS),
        vec![PacketId(0)]
    );
    assert!(manager.sent_packets_not_acked().is_empty());
    assert_eq!(manager.stats().packets_lost, 1);
    // later updates do not report it again
    assert_eq!(manager.update(100_000), vec![]);
    assert_eq!(manager.stats().packets_lost, 1);
    // nor does a late acknowledgment
    assert_eq!(
        manager.process_recv_packet_header(&incoming(0, 0, 0)),
        vec![]
    );
    assert_eq!(manager.stats().packets_acked, 0);
}

#[test]
fn expiry_takes_only_the_old_packets() {
    let mut manager = PacketHeaderManager::new();
    manager.update(0);
    manager.prepare_send_packet_header(PacketType::Data);
    manager.prepare_send_packet_header(PacketType::Data);
    manager.update(3000);
    manager.prepare_send_packet_header(PacketType::Data);
    let lost = manager.update(5001);
    assert_eq!(sorted(lost), vec![0, 1]);
    assert_eq!(
        sorted(manager.sent_packets_not_acked().keys().map(|k| PacketId(*k)).collect()),
        vec![2]
    );
    assert_eq!(manager.stats().packets_lost, 2);
    assert_eq!(manager.update(8001), vec![PacketId(2)]);
    assert_eq!(manager.stats().packets_lost, 3);
}

#[test]
fn expiry_with_a_delay_of_its_own() {
    let mut manager = PacketHeaderManager::with_unacked_delay(10);
    manager.update(100);
    manager.prepare_send_packet_header(PacketType::Data);
    assert_eq!(manager.update(110), vec![]);
    assert_eq!(manager.update(111), vec![PacketId(0)]);
}

#[test]
fn clock_that_runs_backwards_expires_nothing() {
    let mut manager = PacketHeaderManager::new();
    manager.update(10_000);
    manager.prepare_send_packet_header(PacketType::Data);
    assert_eq!(manager.update(0), vec![]);
    assert_eq!(manager.update(i64::MIN), vec![]);
    assert_eq!(manager.sent_packets_not_acked().len(), 1);
    assert_eq!(manager.update(i64::MAX), vec![PacketId(0)]);
}

#[test]
fn elapsed_exceeds_is_a_strict_comparison() {
    assert!(!elapsed_exceeds(5000, 0, 5000));
    assert!(elapsed_exceeds(5001, 0, 5000));
    assert!(!elapsed_exceeds(0, 5001, 5000));
    assert!(elapsed_exceeds(10, 20, -11));
    assert!(!elapsed_exceeds(10, 20, -10));
}

#[test]
fn elapsed_exceeds_at_the_limits_of_the_clock() {
    // spans that no 64-bit number holds
    assert!(elapsed_exceeds(i64::MAX, i64::MIN, i64::MAX));
    assert!(!elapsed_exceeds(i64::MIN, i64::MAX, i64::MIN));
    assert!(elapsed_exceeds(i64::MAX, -1, i64::MAX));
    // the span -2^63, and the delay -2^63
    assert!(!elapsed_exceeds(i64::MIN, 0, i64::MIN));
    assert!(!elapsed_exceeds(-1, i64::MAX, i64::MIN));
    assert!(elapsed_exceeds(0, i64::MAX, i64::MIN));
    assert!(elapsed_exceeds(0, 0, i64::MIN));
    assert!(!elapsed_exceeds(i64::MAX, 0, i64::MAX));
}

#[test]
fn stats_saturate() {
    let mut stats = PacketStats {
        packets_sent: u64::MAX - 1,
        packets_received: u64::MAX,
        packets_acked: 0,
        packets_lost: 7,
    };
    stats.sent_packet();
    stats.sent_packet();
    stats.received_packet();
    stats.sent_packet_acked();
    stats.sent_packet_lost();
    assert_eq!(
        stats,
        PacketStats {
            packets_sent: u64::MAX,
            packets_received: u64::MAX,
            packets_acked: 1,
            packets_lost: 8
        }
    );
    assert_eq!(
        PacketStats::new(),
        PacketStats {
            packets_sent: 0,
            packets_received: 0,
            packets_acked: 0,
            packets_lost: 0
        }
    );
}

#[test]
fn default_manager_is_a_new_manager() {
    let mut manager = PacketHeaderManager::default();
    assert_eq!(manager.next_packet_id(), PacketId(0));
    manager.update(0);
    manager.prepare_send_packet_header(PacketType::Data);
    assert_eq!(manager.update(5000), vec![]);
    assert_eq!(manager.update(5001), vec![PacketId(0)]);
}

fn manager_that_sent_the_last_id() -> PacketHeaderManager {
    let mut manager = PacketHeaderManager::new();
    for _ in 0..65535u32 {
        manager.increment_next_packet_id();
    }
    // packets 65535 and 0
    manager.prepare_send_packet_header(PacketType::Data);
    manager.prepare_send_packet_header(PacketType::Data);
    manager
}

#[test]
fn first_header_of_a_new_peer_does_not_ack_the_last_id() {
    let mut manager = manager_that_sent_the_last_id();
    assert!(manager.sent_packets_not_acked().contains_key(&65535));
    assert!(manager.sent_packets_not_acked().contains_key(&0));
    let mut peer = PacketHeaderManager::new();
    let header = peer.prepare_send_packet_header(PacketType::Data);
    assert!(header.is_without_ack());
    let acked = manager.process_recv_packet_header(&header);
    assert_eq!(acked, vec![]);
    assert_eq!(
        sorted(manager.sent_packets_not_acked().keys().map(|k| PacketId(*k)).collect()),
        vec![0, 65535]
    );
    assert_eq!(manager.stats().packets_acked, 0);
    assert_eq!(manager.stats().packets_received, 1);
    // only the arrival of the peer's packet is recorded
    assert_eq!(manager.last_recv_packet_id(), Some(PacketId(0)));
}

#[test]
fn a_lone_ack_of_the_last_id_waits_for_a_bit() {
    let mut manager = manager_that_sent_the_last_id();
    let mut peer = PacketHeaderManager::new();
    // the peer has received 65535 and nothing else: its header is that of a
    // peer that has received nothing
    peer.process_recv_packet_header(&incoming(65535, NO_PACKET_RECEIVED, 0));
    let header = peer.prepare_send_packet_header(PacketType::Data);
    assert_eq!(header.last_ack_packet_id, PacketId(65535));
    assert_eq!(header.ack_bitfield, 0);
    assert!(header.is_without_ack());
    assert_eq!(manager.process_recv_packet_header(&header), vec![]);
    assert!(manager.sent_packets_not_acked().contains_key(&65535));
    // once 0 has arrived too, 65535 is reported by its bit
    peer.process_recv_packet_header(&incoming(0, NO_PACKET_RECEIVED, 0));
    let header = peer.prepare_send_packet_header(PacketType::Data);
    assert_eq!(header.last_ack_packet_id, PacketId(0));
    assert_eq!(header.ack_bitfield, 0b1);
    assert!(!header.is_without_ack());
    assert_eq!(
        manager.process_recv_packet_header(&header),
        vec![PacketId(0), PacketId(65535)]
    );
    assert!(manager.sent_packets_not_acked().is_empty());
    assert_eq!(manager.stats().packets_acked, 2);
}

#[test]
fn the_last_id_is_acked_where_a_bit_is_set() {
    // last ack 65535 with any bit set is an ordinary acknowledgment
    let mut manager = PacketHeaderManager::new();
    for _ in 0..65534u32 {
        manager.increment_next_packet_id();
    }
    manager.prepare_send_packet_header(PacketType::Data);
    manager.prepare_send_packet_header(PacketType::Data);
    let header = incoming(0, 65535, 0b1);
    assert!(!header.is_without_ack());
    assert_eq!(
        manager.process_recv_packet_header(&header),
        vec![PacketId(65535), PacketId(65534)]
    );
    // and so is an empty bitfield behind any other id
    assert!(!incoming(0, 65534, 0).is_without_ack());
    assert!(!incoming(0, 0, 0).is_without_ack());
    assert!(incoming(7, 65535, 0).is_without_ack());
}
