//! The coordinator of the acknowledgment protocol.
//!
//! It writes the header of every outgoing packet and reads the header of
//! every incoming one. From the first it remembers which packets are still
//! waiting for an acknowledgment; from the second it learns which of them
//! the peer has received, and which packets of the peer to acknowledge in
//! turn.

use crate::header::{PacketHeader, PacketType, Tick, NO_PACKET_RECEIVED};
use crate::packet_id::{spec_circular_diff, wrap_id, PacketId};
use crate::recv_buffer::{
    lemma_bitfield_of_no_flags, lemma_bitfield_renders, ReceiveBuffer, ReceiveWindow,
    ACK_BITFIELD_SIZE,
};
use crate::stats::{saturating_count, PacketStats};
use crate::time::{elapsed_exceeds, spec_elapsed_exceeds, CLEAR_UNACKED_PACKETS_DELAY_MS};
use std::collections::HashMap;
use vstd::prelude::*;
use vstd::std_specs::hash::group_hash_axioms;

verus! {

broadcast use group_hash_axioms;

/// What a [`PacketHeaderManager`] knows.
#[verifier::ext_equal]
pub struct HeaderManagerState {
    /// Identifier that the next outgoing packet gets.
    pub next_packet_id: PacketId,
    /// The packets that were sent and are neither acknowledged nor given
    /// up, each with the time at which it was sent.
    pub unacked: Map<u16, i64>,
    /// The packets of the peer that arrived.
    pub received: ReceiveWindow,
    /// The time of the last update.
    pub now: i64,
    /// Delay after which an unacknowledged packet is given up as lost.
    pub unacked_delay: i64,
    /// Counters of what happened so far.
    pub stats: PacketStats,
}

impl HeaderManagerState {
    /// The state of a manager that has sent and received nothing.
    pub open spec fn initial(unacked_delay: i64) -> HeaderManagerState {
        HeaderManagerState {
            next_packet_id: PacketId(0),
            unacked: Map::empty(),
            received: ReceiveWindow::empty(),
            now: 0,
            unacked_delay,
            stats: PacketStats::zero(),
        }
    }

    /// The identifier acknowledged as most recent in outgoing headers: the
    /// most recently received one, or [`NO_PACKET_RECEIVED`].
    pub open spec fn last_ack(self) -> PacketId {
        match self.received.last {
            Some(id) => id,
            None => PacketId(NO_PACKET_RECEIVED),
        }
    }

    /// Whether the packet `id` is waiting for an acknowledgment and was sent
    /// more than the delay before `now`.
    pub open spec fn is_expired(self, id: u16, now: i64) -> bool {
        self.unacked.contains_key(id) && spec_elapsed_exceeds(
            now,
            self.unacked[id],
            self.unacked_delay,
        )
    }

    /// The packets that are given up at `now`.
    pub open spec fn expired(self, now: i64) -> Set<u16> {
        Set::new(|id: u16| self.is_expired(id, now))
    }

    /// The packets that are given up at `now`, as packet ids.
    pub open spec fn expired_ids(self, now: i64) -> Set<PacketId> {
        Set::new(|id: PacketId| self.is_expired(id.0, now))
    }

    /// The state is well formed: the window of received packets is.
    pub open spec fn wf(self) -> bool {
        self.received.wf()
    }

    /// The header of the next outgoing packet: it carries the next packet
    /// id, acknowledges the most recent packet received and the 32 before
    /// it, and has tick 0.
    pub open spec fn outgoing_header(self, packet_type: PacketType) -> PacketHeader {
        PacketHeader {
            packet_type,
            packet_id: self.next_packet_id,
            last_ack_packet_id: self.last_ack(),
            ack_bitfield: self.received.bitfield(),
            tick: Tick(0),
        }
    }

    /// The state after a packet was sent: the packet waits for an
    /// acknowledgment since the time of the last update, and the next
    /// packet id has moved on by one.
    pub open spec fn after_send(self) -> HeaderManagerState {
        HeaderManagerState {
            next_packet_id: PacketId(wrap_id(self.next_packet_id.0 + 1)),
            unacked: self.unacked.insert(self.next_packet_id.0, self.now),
            stats: PacketStats {
                packets_sent: saturating_count(self.stats.packets_sent, 1),
                ..self.stats
            },
            ..self
        }
    }

    /// The state after a packet with the header `header` has arrived: the
    /// packet is recorded as received, and the packets that the header
    /// acknowledges wait no longer.
    pub open spec fn after_header(self, header: PacketHeader) -> HeaderManagerState {
        HeaderManagerState {
            received: self.received.record(header.packet_id),
            unacked: self.unacked.remove_keys(HeaderManagerState::acked_by(header)),
            stats: PacketStats {
                packets_received: saturating_count(self.stats.packets_received, 1),
                packets_acked: saturating_count(
                    self.stats.packets_acked,
                    self.newly_acked(header, 33).len() as int,
                ),
                ..self.stats
            },
            ..self
        }
    }

    /// The state after an update at the time `now`: the packets that are
    /// given up wait no longer.
    pub open spec fn after_update(self, now: i64) -> HeaderManagerState {
        HeaderManagerState {
            now,
            unacked: self.unacked.remove_keys(self.expired(now)),
            stats: PacketStats {
                packets_lost: saturating_count(
                    self.stats.packets_lost,
                    self.expired_ids(now).len() as int,
                ),
                ..self.stats
            },
            ..self
        }
    }

    /// The packets that `header` acknowledges.
    pub open spec fn acked_by(header: PacketHeader) -> Set<u16> {
        Set::new(|id: u16| header.acks(PacketId(id)))
    }

    /// The packets that `header` newly acknowledges, in the order in which
    /// they are reported: those among the first `count` identifiers,
    /// counted backwards from `header.last_ack_packet_id`, that the header
    /// reports as received and that are waiting for an acknowledgment.
    pub open spec fn newly_acked(self, header: PacketHeader, count: nat) -> Seq<PacketId>
        decreases count,
    {
        if count == 0 {
            Seq::empty()
        } else {
            let behind = (count - 1) as nat;
            let nearer = self.newly_acked(header, behind);
            let id = wrap_id(header.last_ack_packet_id.0 - behind);
            if header.reports(behind as int) && self.unacked.contains_key(id) {
                nearer.push(PacketId(id))
            } else {
                nearer
            }
        }
    }
}

/// The keys of `map`, each once, in the order in which the map hands them
/// out.
fn ids_of(map: &HashMap<u16, i64>) -> (ids: Vec<u16>)
    ensures
        ids@.no_duplicates(),
        ids@.to_set() == map@.dom(),
{
    let mut ids: Vec<u16> = Vec::new();
    for id in keys: map.keys()
        invariant
            keys.seq().no_duplicates(),
            keys.seq().unref().to_set() == map@.dom(),
            ids@.len() == keys.index(),
            forall|j: int| 0 <= j < keys.index() ==> #[trigger] ids@[j] == *keys.seq()[j],
            keys.index() == keys.seq().len() ==> ids@ == keys.seq().unref(),
    {
        ids.push(*id);
    }
    ids
}

/// Keeps track of sent and received packets to be able to write the packet
/// headers correctly.
pub struct PacketHeaderManager {
    /// Local packet id which we'll bump each time we send a new packet over
    /// the network (also when a lost packet is sent again).
    next_packet_id: PacketId,
    /// The packets we sent out that have not been acked yet, with the time
    /// at which each was sent.
    sent_packets_not_acked: HashMap<u16, i64>,
    /// Counters of the packets sent, received, acked and lost.
    stats: PacketStats,
    /// The packets that were received (last packet received and the 32
    /// packets before that).
    recv_buffer: ReceiveBuffer,
    /// Copy of the current time, taken at the last update.
    current_time: i64,
    /// Delay after which an unacknowledged packet is given up as lost.
    unacked_delay: i64,
}

impl View for PacketHeaderManager {
    type V = HeaderManagerState;

    closed spec fn view(&self) -> HeaderManagerState {
        HeaderManagerState {
            next_packet_id: self.next_packet_id,
            unacked: self.sent_packets_not_acked@,
            received: self.recv_buffer@,
            now: self.current_time,
            unacked_delay: self.unacked_delay,
            stats: self.stats,
        }
    }
}

impl PacketHeaderManager {
    /// The manager is well formed. Every constructor establishes this and
    /// every method keeps it.
    pub closed spec fn wf(&self) -> bool {
        self.recv_buffer.wf()
    }

    /// A well-formed manager is in a well-formed state.
    pub proof fn lemma_wf_state(&self)
        requires
            self.wf(),
        ensures
            self@.wf(),
    {
        self.recv_buffer.lemma_wf_view();
    }

    /// A manager that has sent and received nothing, with the default delay
    /// of 5000 ms before an unacknowledged packet is given up.
    pub fn new() -> (manager: PacketHeaderManager)
        ensures
            manager.wf(),
            manager@ == HeaderManagerState::initial(CLEAR_UNACKED_PACKETS_DELAY_MS),
    {
        PacketHeaderManager::with_unacked_delay(CLEAR_UNACKED_PACKETS_DELAY_MS)
    }

    /// A manager that has sent and received nothing and that gives up an
    /// unacknowledged packet after `unacked_delay` milliseconds.
    pub fn with_unacked_delay(unacked_delay: i64) -> (manager: PacketHeaderManager)
        ensures
            manager.wf(),
            manager@ == HeaderManagerState::initial(unacked_delay),
    {
        PacketHeaderManager {
            next_packet_id: PacketId(0),
            stats: PacketStats::new(),
            sent_packets_not_acked: HashMap::new(),
            recv_buffer: ReceiveBuffer::new(),
            current_time: 0,
            unacked_delay,
        }
    }

    /// Takes `now` as the current time and clears the sent packets that
    /// haven't received any ack for a while: those sent more than the delay
    /// before `now` stop waiting for an acknowledgment and are returned as
    /// lost, each once and in no particular order.
    pub fn update(&mut self, now: i64) -> (lost: Vec<PacketId>)
        requires
            old(self).wf(),
        ensures
            final(self).wf(),
            lost@.no_duplicates(),
            lost@.to_set() == old(self)@.expired_ids(now),
            final(self)@ == old(self)@.after_update(now),
    {
        self.current_time = now;
        let ghost before = old(self)@;
        let waiting = ids_of(&self.sent_packets_not_acked);
        let mut lost: Vec<PacketId> = Vec::new();
        let mut n: usize = 0;
        while n < waiting.len()
            invariant
                0 <= n <= waiting@.len(),
                self.wf(),
                waiting@.no_duplicates(),
                waiting@.to_set() == before.unacked.dom(),
                lost@.no_duplicates(),
                forall|id: PacketId|
                    lost@.contains(id) <==> before.is_expired(id.0, now) && exists|j: int|
                        0 <= j < n && waiting@[j] == id.0,
                self@ == (HeaderManagerState {
                    now,
                    unacked: before.unacked.remove_keys(
                        Set::new(
                            |id: u16|
                                before.is_expired(id, now) && exists|j: int|
                                    0 <= j < n && waiting@[j] == id,
                        ),
                    ),
                    stats: PacketStats {
                        packets_lost: saturating_count(
                            before.stats.packets_lost,
                            lost@.len() as int,
                        ),
                        ..before.stats
                    },
                    ..before
                }),
            decreases waiting@.len() - n,
        {
            let packet_id: u16 = waiting[n];
            let ghost lost_then = lost@;
            let expired = match self.sent_packets_not_acked.get(&packet_id) {
                Some(time_sent) => elapsed_exceeds(now, *time_sent, self.unacked_delay),
                None => false,
            };
            if expired {
                self.sent_packets_not_acked.remove(&packet_id);
                self.stats.sent_packet_lost();
                lost.push(PacketId(packet_id));
                assert(lost@[lost_then.len() as int] == PacketId(packet_id));
                assert(!lost_then.contains(PacketId(packet_id)));
                assert forall|id: PacketId|
                    lost@.contains(id) <==> before.is_expired(id.0, now) && exists|j: int|
                        0 <= j < n + 1 && waiting@[j] == id.0 by {
                    if lost@.contains(id) {
                        let k = choose|k: int| 0 <= k < lost@.len() && lost@[k] == id;
                        if k < lost_then.len() {
                            assert(lost_then.contains(id));
                        }
                    }
                    if before.is_expired(id.0, now) && exists|j: int|
                        0 <= j < n + 1 && waiting@[j] == id.0 {
                        if id.0 != packet_id {
                            assert(lost_then.contains(id));
                            let k = choose|k: int| 0 <= k < lost_then.len() && lost_then[k] == id;
                            assert(lost@[k] == id);
                        }
                    }
                }
            }
            n += 1;
        }
        proof {
            assert(lost@.to_set() =~= before.expired_ids(now));
            lost@.unique_seq_to_set();
        }
        lost
    }

    /// Return the packet id of the next packet to be sent.
    pub fn next_packet_id(&self) -> (id: PacketId)
        ensures
            id == self@.next_packet_id,
    {
        self.next_packet_id
    }

    /// The packets that were sent and not acked yet, with their send times.
    pub fn sent_packets_not_acked(&self) -> (unacked: &HashMap<u16, i64>)
        ensures
            unacked@ == self@.unacked,
    {
        &self.sent_packets_not_acked
    }

    /// The counters of what happened so far.
    pub fn stats(&self) -> (stats: PacketStats)
        ensures
            stats == self@.stats,
    {
        self.stats
    }

    /// The most recent packet id received from the peer, if any.
    pub fn last_recv_packet_id(&self) -> (last: Option<PacketId>)
        ensures
            last == self@.received.last,
    {
        self.recv_buffer.last_recv_packet_id()
    }

    /// Increment the packet id of the next packet to be sent.
    pub fn increment_next_packet_id(&mut self)
        requires
            old(self).wf(),
        ensures
            final(self).wf(),
            final(self)@ == (HeaderManagerState {
                next_packet_id: PacketId(wrap_id(old(self)@.next_packet_id.0 + 1)),
                ..old(self)@
            }),
    {
        self.next_packet_id = self.next_packet_id.increment();
    }

    /// Update the list of sent packets that have not been acked yet when we
    /// receive confirmation that `packet_id` was delivered: the packet
    /// leaves the list, and is returned where it was on it.
    fn update_sent_packets_not_acked(&mut self, packet_id: &PacketId) -> (confirmed: Option<
        PacketId,
    >)
        requires
            old(self).wf(),
        ensures
            final(self).wf(),
            final(self)@ == (HeaderManagerState {
                unacked: old(self)@.unacked.remove(packet_id.0),
                ..old(self)@
            }),
            confirmed == if old(self)@.unacked.contains_key(packet_id.0) {
                Some(*packet_id)
            } else {
                None
            },
    {
        if self.sent_packets_not_acked.contains_key(&packet_id.0) {
            self.sent_packets_not_acked.remove(&packet_id.0);
            return Some(*packet_id);
        }
        None
    }

    /// Process the header of a received packet (update ack metadata).
    ///
    /// The packet that carried the header is recorded as received. Every
    /// packet that the header acknowledges stops waiting for an
    /// acknowledgment. Returns the list of packets that have been newly
    /// acked by the remote: `last_ack_packet_id` first, where it was
    /// waiting, then those of the 32 before it whose bit is set and that
    /// were waiting, the nearest first.
    ///
    /// The header of a peer that has received nothing acknowledges nothing:
    /// the list is empty and every packet goes on waiting, the packet 65535
    /// too.
    pub fn process_recv_packet_header(&mut self, header: &PacketHeader) -> (newly_acked: Vec<
        PacketId,
    >)
        requires
            old(self).wf(),
        ensures
            final(self).wf(),
            newly_acked@ == old(self)@.newly_acked(*header, 33),
            final(self)@ == old(self)@.after_header(*header),
    {
        // update the receive buffer
        self.stats.received_packet();
        self.recv_buffer.recv_packet(header.packet_id);

        let mut newly_acked_packets: Vec<PacketId> = Vec::new();
        let ghost before = old(self)@;
        let ghost last = header.last_ack_packet_id.0;

        // the peer has not received anything yet: there is no ack information to read
        if header.is_without_ack() {
            proof {
                lemma_header_without_ack(before, *header);
            }
            return newly_acked_packets;
        }
        // read the ack information (ack id + ack bitfield) from the received header, and update
        // the list of our sent packets that have not been acked yet
        let mut i: u8 = 0;
        while i <= ACK_BITFIELD_SIZE
            invariant
                0 <= i <= 33,
                self.wf(),
                last == header.last_ack_packet_id.0,
                !header.conveys_no_ack(),
                newly_acked_packets@ == before.newly_acked(*header, i as nat),
                self@ == (HeaderManagerState {
                    received: before.received.record(header.packet_id),
                    unacked: before.unacked.remove_keys(
                        Set::new(
                            |id: u16|
                                header.acks(PacketId(id)) && spec_circular_diff(last, id) < i,
                        ),
                    ),
                    stats: PacketStats {
                        packets_received: saturating_count(before.stats.packets_received, 1),
                        packets_acked: saturating_count(
                            before.stats.packets_acked,
                            newly_acked_packets@.len() as int,
                        ),
                        ..before.stats
                    },
                    ..before
                }),
            decreases 33 - i,
        {
            let packet_id = header.last_ack_packet_id.preceding(i as u16);
            if i == 0 || header.get_bitfield_bit(i - 1) {
                if let Some(packet) = self.update_sent_packets_not_acked(&packet_id) {
                    self.stats.sent_packet_acked();
                    newly_acked_packets.push(packet);
                }
            }
            i += 1;
        }
        newly_acked_packets
    }

    /// Prepare the header of the next packet to send.
    ///
    /// The header carries the next packet id, acknowledges the most recent
    /// packet received and the 32 before it, and has tick 0. The packet is
    /// recorded as sent at the time of the last update and the next packet
    /// id moves on by one.
    pub fn prepare_send_packet_header(&mut self, packet_type: PacketType) -> (header: PacketHeader)
        requires
            old(self).wf(),
        ensures
            final(self).wf(),
            header == old(self)@.outgoing_header(packet_type),
            final(self)@ == old(self)@.after_send(),
    {
        // if we didn't have a last packet id, start with the maximum value
        // (so that receiving 0 counts as an update)
        let last_ack_packet_id = match self.recv_buffer.last_recv_packet_id() {
            Some(id) => id,
            None => PacketId(NO_PACKET_RECEIVED),
        };
        let outgoing_header = PacketHeader {
            packet_type,
            packet_id: self.next_packet_id,
            last_ack_packet_id,
            ack_bitfield: self.recv_buffer.get_bitfield(),
            tick: Tick(0),
        };
        // we build the header only when we actually send the packet, so computing the stats
        // here is valid
        self.stats.sent_packet();
        // keep track of when we sent the packet (so that if we don't get an ack after a
        // certain amount of time we can consider it lost)
        self.sent_packets_not_acked.insert(self.next_packet_id.0, self.current_time);
        self.increment_next_packet_id();
        outgoing_header
    }
}

impl Default for PacketHeaderManager {
    fn default() -> (manager: PacketHeaderManager)
        ensures
            manager.wf(),
            manager@ == HeaderManagerState::initial(CLEAR_UNACKED_PACKETS_DELAY_MS),
    {
        PacketHeaderManager::new()
    }
}

/// What [`HeaderManagerState::newly_acked`] lists among the first `count`
/// identifiers: packets that were waiting and that the header reports, in
/// the order of their distance from `last_ack_packet_id`, none left out.
proof fn lemma_newly_acked_upto(state: HeaderManagerState, header: PacketHeader, count: nat)
    requires
        count <= 33,
    ensures
        ({
            let last = header.last_ack_packet_id.0;
            let acked = state.newly_acked(header, count);
            &&& forall|k: int|
                0 <= k < acked.len() ==> {
                    let behind = spec_circular_diff(last, (#[trigger] acked[k]).0);
                    &&& 0 <= behind < count
                    &&& header.reports(behind)
                    &&& state.unacked.contains_key(acked[k].0)
                }
            &&& forall|a: int, b: int|
                0 <= a < b < acked.len() ==> spec_circular_diff(last, (#[trigger] acked[a]).0)
                    < spec_circular_diff(last, (#[trigger] acked[b]).0)
            &&& forall|id: PacketId|
                0 <= spec_circular_diff(last, id.0) < count && header.reports(
                    spec_circular_diff(last, id.0),
                ) && state.unacked.contains_key(id.0) ==> #[trigger] acked.contains(id)
        }),
    decreases count,
{
    if count > 0 {
        let behind = (count - 1) as nat;
        let last = header.last_ack_packet_id.0;
        let nearer = state.newly_acked(header, behind);
        let acked = state.newly_acked(header, count);
        lemma_newly_acked_upto(state, header, behind);
        assert forall|other: PacketId|
            0 <= spec_circular_diff(last, other.0) < count && header.reports(
                spec_circular_diff(last, other.0),
            ) && state.unacked.contains_key(other.0) implies #[trigger] acked.contains(other) by {
            if spec_circular_diff(last, other.0) < behind {
                assert(nearer.contains(other));
                let k = choose|k: int| 0 <= k < nearer.len() && nearer[k] == other;
                assert(acked[k] == other);
            } else {
                assert(acked[nearer.len() as int] == other);
            }
        }
    }
}

/// No packet is among the first `count` that a header without
/// acknowledgment newly acknowledges.
proof fn lemma_without_ack_upto(state: HeaderManagerState, header: PacketHeader, count: nat)
    requires
        header.conveys_no_ack(),
    ensures
        state.newly_acked(header, count) == Seq::<PacketId>::empty(),
    decreases count,
{
    if count > 0 {
        lemma_without_ack_upto(state, header, (count - 1) as nat);
    }
}

/// A header that conveys no acknowledgment changes nothing for the packets
/// that wait: the list of newly acked packets is empty, every packet goes
/// on waiting, whichever it is, and only the arrival of the packet that
/// carried the header is recorded and counted.
pub proof fn lemma_header_without_ack(state: HeaderManagerState, header: PacketHeader)
    requires
        header.conveys_no_ack(),
    ensures
        state.newly_acked(header, 33) == Seq::<PacketId>::empty(),
        forall|id: PacketId| !header.acks(id),
        state.after_header(header) == (HeaderManagerState {
            received: state.received.record(header.packet_id),
            stats: PacketStats {
                packets_received: saturating_count(state.stats.packets_received, 1),
                ..state.stats
            },
            ..state
        }),
{
    lemma_without_ack_upto(state, header, 33);
    assert(state.unacked.remove_keys(HeaderManagerState::acked_by(header)) =~= state.unacked);
}

/// The list of newly acked packets holds exactly the packets that were
/// waiting for an acknowledgment and that the header acknowledges, each
/// once, and the nearer to `last_ack_packet_id` the earlier; so
/// `last_ack_packet_id` itself comes first where it was waiting and the
/// header conveys an acknowledgment.
pub proof fn lemma_newly_acked(state: HeaderManagerState, header: PacketHeader)
    ensures
        state.newly_acked(header, 33).no_duplicates(),
        forall|id: PacketId| #[trigger]
            state.newly_acked(header, 33).contains(id) <==> state.unacked.contains_key(id.0)
                && header.acks(id),
        forall|a: int, b: int|
            0 <= a < b < state.newly_acked(header, 33).len() ==> spec_circular_diff(
                header.last_ack_packet_id.0,
                (#[trigger] state.newly_acked(header, 33)[a]).0,
            ) < spec_circular_diff(
                header.last_ack_packet_id.0,
                (#[trigger] state.newly_acked(header, 33)[b]).0,
            ),
        state.unacked.contains_key(header.last_ack_packet_id.0) && !header.conveys_no_ack()
            ==> state.newly_acked(header, 33).len() > 0 && state.newly_acked(header, 33)[0]
            == header.last_ack_packet_id,
{
    let acked = state.newly_acked(header, 33);
    let last = header.last_ack_packet_id.0;
    lemma_newly_acked_upto(state, header, 33);
    if state.unacked.contains_key(last) && !header.conveys_no_ack() {
        assert(acked.contains(header.last_ack_packet_id));
    }
}

/// A packet is reported as acknowledged once: after a header has
/// acknowledged it, it waits no longer, and no later header reports it.
pub proof fn lemma_acked_once(
    state: HeaderManagerState,
    header: PacketHeader,
    later: PacketHeader,
    id: PacketId,
)
    requires
        header.acks(id),
    ensures
        !state.after_header(header).unacked.contains_key(id.0),
        !state.after_header(header).newly_acked(later, 33).contains(id),
{
    lemma_newly_acked(state.after_header(header), later);
}

/// A packet is reported as lost once: after an update has given it up, it
/// waits no longer, so no later update gives it up and no later header
/// reports it as acknowledged.
pub proof fn lemma_lost_once(
    state: HeaderManagerState,
    now: i64,
    later: i64,
    header: PacketHeader,
    id: PacketId,
)
    requires
        state.is_expired(id.0, now),
    ensures
        !state.after_update(now).unacked.contains_key(id.0),
        !state.after_update(now).is_expired(id.0, later),
        !state.after_update(now).newly_acked(header, 33).contains(id),
{
    lemma_newly_acked(state.after_update(now), header);
}

/// A packet that was sent waits for an acknowledgment until a header
/// acknowledges it or an update gives it up: neither a header that does not
/// acknowledge it nor an update before its delay has passed removes it.
pub proof fn lemma_waits_until_acked_or_lost(
    state: HeaderManagerState,
    header: PacketHeader,
    now: i64,
    id: PacketId,
)
    requires
        state.unacked.contains_key(id.0),
    ensures
        !header.acks(id) ==> state.after_header(header).unacked.contains_key(id.0),
        !state.is_expired(id.0, now) ==> state.after_update(now).unacked.contains_key(id.0),
        state.after_send().unacked.contains_key(id.0),
{
}

/// The header of a sender acknowledges exactly the packets that its window
/// records as received, with one exception: a sender whose only received
/// packet is 65535 writes the header of a sender that has received nothing,
/// so that one packet is not acknowledged until a later packet arrives and
/// the header reports it by a bit.
pub proof fn lemma_outgoing_header_acks(
    state: HeaderManagerState,
    packet_type: PacketType,
    id: PacketId,
)
    requires
        state.wf(),
    ensures
        state.outgoing_header(packet_type).conveys_no_ack() <==> (state.received.last is None
            || (state.received.last == Some(PacketId(NO_PACKET_RECEIVED)) && forall|i: int|
            0 <= i < 32 ==> !state.received.received[i])),
        state.outgoing_header(packet_type).acks(id) <==> state.received.holds(id)
            && !state.outgoing_header(packet_type).conveys_no_ack(),
        state.outgoing_header(packet_type).conveys_no_ack() && state.received.holds(id) ==> id
            == PacketId(NO_PACKET_RECEIVED),
{
    lemma_bitfield_renders(state.received);
    lemma_bitfield_of_no_flags(state.received);
}

/// The header of a sender that has received nothing conveys no
/// acknowledgment to any receiver: the list of newly acked packets is
/// empty, every packet goes on waiting, and the count of acknowledged
/// packets stays.
pub proof fn lemma_nothing_received_acks_nothing(
    sender: HeaderManagerState,
    receiver: HeaderManagerState,
    packet_type: PacketType,
)
    requires
        sender.wf(),
        sender.received.last is None,
    ensures
        sender.outgoing_header(packet_type).conveys_no_ack(),
        receiver.newly_acked(sender.outgoing_header(packet_type), 33).len() == 0,
        receiver.after_header(sender.outgoing_header(packet_type)).unacked == receiver.unacked,
        receiver.after_header(sender.outgoing_header(packet_type)).stats.packets_acked
            == receiver.stats.packets_acked,
{
    lemma_bitfield_of_no_flags(sender.received);
    lemma_header_without_ack(receiver, sender.outgoing_header(packet_type));
}

} // verus!
