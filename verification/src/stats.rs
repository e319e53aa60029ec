//! Counters of what happened to packets, for observability.

use vstd::prelude::*;

verus! {

/// `count + by`, held at the largest value that a counter can take.
pub open spec fn saturating_count(count: u64, by: int) -> u64 {
    if count + by > u64::MAX {
        u64::MAX
    } else {
        (count + by) as u64
    }
}

/// Counts of packets sent, received, acknowledged and lost on one
/// connection. A counter that reaches `u64::MAX` stays there.
#[derive(Clone, Copy, Debug, PartialEq, Eq, Structural)]
pub struct PacketStats {
    /// Packets for which a header was prepared.
    pub packets_sent: u64,
    /// Packets whose header was processed.
    pub packets_received: u64,
    /// Sent packets that the peer acknowledged.
    pub packets_acked: u64,
    /// Sent packets that were given up as lost.
    pub packets_lost: u64,
}

impl PacketStats {
    /// All counters at zero.
    pub open spec fn zero() -> PacketStats {
        PacketStats { packets_sent: 0, packets_received: 0, packets_acked: 0, packets_lost: 0 }
    }

    /// Counters at zero.
    pub fn new() -> (stats: PacketStats)
        ensures
            stats == PacketStats::zero(),
    {
        PacketStats { packets_sent: 0, packets_received: 0, packets_acked: 0, packets_lost: 0 }
    }

    /// Counts one packet sent.
    pub fn sent_packet(&mut self)
        ensures
            *final(self) == (PacketStats {
                packets_sent: saturating_count(old(self).packets_sent, 1),
                ..*old(self)
            }),
    {
        self.packets_sent = self.packets_sent.saturating_add(1);
    }

    /// Counts one packet received.
    pub fn received_packet(&mut self)
        ensures
            *final(self) == (PacketStats {
                packets_received: saturating_count(old(self).packets_received, 1),
                ..*old(self)
            }),
    {
        self.packets_received = self.packets_received.saturating_add(1);
    }

    /// Counts one sent packet acknowledged.
    pub fn sent_packet_acked(&mut self)
        ensures
            *final(self) == (PacketStats {
                packets_acked: saturating_count(old(self).packets_acked, 1),
                ..*old(self)
            }),
    {
        self.packets_acked = self.packets_acked.saturating_add(1);
    }

    /// Counts one sent packet lost.
    pub fn sent_packet_lost(&mut self)
        ensures
            *final(self) == (PacketStats {
                packets_lost: saturating_count(old(self).packets_lost, 1),
                ..*old(self)
            }),
    {
        self.packets_lost = self.packets_lost.saturating_add(1);
    }
}

} // verus!
