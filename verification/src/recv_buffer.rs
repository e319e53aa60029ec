//! Receive-side tracking: which of the identifiers just behind the most
//! recent one have arrived.
//!
//! The buffer remembers the most recently received identifier and one flag
//! for each of the 32 identifiers before it. It tolerates reordering (a late
//! packet sets its flag) and gaps (skipped identifiers get a cleared flag),
//! and it ignores duplicates of the most recent packet and packets that are
//! too old to be recorded.

use crate::packet_id::{spec_circular_diff, PacketId};
use crate::ring::{
    ring_fill, ring_get_mut_signed, ring_items, ring_new, ring_push, ring_to_vec, signed_position,
};
use ringbuffer::ConstGenericRingBuffer;
use vstd::prelude::*;

verus! {

/// Number of identifiers behind the most recent one whose receipt is
/// tracked and acknowledged.
pub const ACK_BITFIELD_SIZE: u8 = 32;

/// Whether bit `i` of an acknowledgment bitfield is set. Bit `i` stands for
/// the identifier `i + 1` steps behind the most recent one.
pub open spec fn bit_is_set(bitfield: u32, i: int) -> bool {
    bitfield & (1u32 << (i as u32)) != 0
}

/// The bitfield that has bit `i` set, for `i` from `from` to 31, exactly
/// where `received[i]` holds, and no bit below `from`.
pub open spec fn bits_from(received: Seq<bool>, from: nat) -> u32
    decreases 32 - from,
{
    if from >= 32 {
        0
    } else {
        let higher = bits_from(received, from + 1);
        if received[from as int] {
            higher | (1u32 << (from as u32))
        } else {
            higher
        }
    }
}

/// What a [`ReceiveBuffer`] knows.
#[verifier::ext_equal]
pub struct ReceiveWindow {
    /// The most recently received identifier, if any packet arrived yet.
    pub last: Option<PacketId>,
    /// 32 flags: `received[i]` says that the identifier `i + 1` steps behind
    /// `last` has arrived.
    pub received: Seq<bool>,
}

impl ReceiveWindow {
    /// The window before any packet has arrived.
    pub open spec fn empty() -> ReceiveWindow {
        ReceiveWindow { last: None, received: Seq::new(32, |i: int| false) }
    }

    /// The flag at index `i` after the window has moved `ahead` identifiers
    /// forward: the identifier that was the most recent is now `ahead` steps
    /// behind and counts as received, those that were tracked keep their
    /// flag at their new distance, and those that were skipped have none.
    pub open spec fn advanced_flag(self, ahead: int, i: int) -> bool {
        if i + 1 == ahead {
            true
        } else if i + 1 > ahead {
            self.received[i - ahead]
        } else {
            false
        }
    }

    /// The window after the packet `id` has arrived.
    ///
    /// - The first packet becomes the most recent one.
    /// - A duplicate of the most recent packet, or a packet more than 32
    ///   steps behind it, changes nothing.
    /// - A packet up to 32 steps behind sets its own flag.
    /// - A packet ahead becomes the most recent one and the flags move with
    ///   it, see [`Self::advanced_flag`]; beyond 32 steps none is left set.
    pub open spec fn record(self, id: PacketId) -> ReceiveWindow {
        match self.last {
            None => ReceiveWindow { last: Some(id), received: self.received },
            Some(last) => {
                let behind = spec_circular_diff(last.0, id.0);
                if behind > 32 || behind == 0 {
                    self
                } else if behind > 0 {
                    ReceiveWindow {
                        last: self.last,
                        received: self.received.update(behind - 1, true),
                    }
                } else {
                    ReceiveWindow {
                        last: Some(id),
                        received: Seq::new(32, |i: int| self.advanced_flag(-behind, i)),
                    }
                }
            },
        }
    }

    /// The window after the packets `ids` have arrived, the first one
    /// first.
    pub open spec fn record_all(self, ids: Seq<PacketId>) -> ReceiveWindow
        decreases ids.len(),
    {
        if ids.len() == 0 {
            self
        } else {
            self.record_all(ids.drop_last()).record(ids.last())
        }
    }

    /// The window is well formed: it has its 32 flags, and none is set
    /// before the first packet has arrived.
    pub open spec fn wf(self) -> bool {
        &&& self.received.len() == 32
        &&& self.last is None ==> forall|i: int| 0 <= i < 32 ==> !self.received[i]
    }

    /// Whether the window records the packet `id` as received: it is the
    /// most recent one, or one of the 32 before it whose flag is set.
    pub open spec fn holds(self, id: PacketId) -> bool {
        match self.last {
            None => false,
            Some(last) => {
                let behind = spec_circular_diff(last.0, id.0);
                behind == 0 || (1 <= behind <= 32 && self.received[behind - 1])
            },
        }
    }

    /// The bitfield that renders the flags, for the headers of outgoing
    /// packets: bit `i` is set exactly where `received[i]` holds.
    pub open spec fn bitfield(self) -> u32 {
        bits_from(self.received, 0)
    }

    /// Whether `bitfield` renders the flags: bit `i` is set exactly where
    /// `received[i]` holds.
    pub open spec fn rendered_by(self, bitfield: u32) -> bool {
        forall|i: int|
            #![trigger bit_is_set(bitfield, i)]
            #![trigger self.received[i]]
            0 <= i < 32 ==> bit_is_set(bitfield, i) == self.received[i]
    }
}

/// Data structure to keep track of the ids of the received packets.
pub struct ReceiveBuffer {
    /// The packet id of the most recent packet received.
    last_recv_packet_id: Option<PacketId>,
    /// Receipt flags of the 32 identifiers before the most recent one, the
    /// oldest identifier first.
    buffer: ConstGenericRingBuffer<bool, 32>,
}

impl View for ReceiveBuffer {
    type V = ReceiveWindow;

    closed spec fn view(&self) -> ReceiveWindow {
        ReceiveWindow {
            last: self.last_recv_packet_id,
            received: Seq::new(32, |i: int| ring_items(self.buffer)[31 - i]),
        }
    }
}

impl ReceiveBuffer {
    /// The buffer is well formed: it holds one flag for each of the 32
    /// tracked identifiers, and none is set before the first packet has
    /// arrived. Every constructor establishes this and every method keeps
    /// it.
    pub closed spec fn wf(&self) -> bool {
        &&& ring_items(self.buffer).len() == 32
        &&& self.last_recv_packet_id is None ==> forall|j: int|
            0 <= j < 32 ==> !ring_items(self.buffer)[j]
    }

    /// A well-formed buffer holds a well-formed window.
    pub proof fn lemma_wf_view(&self)
        requires
            self.wf(),
        ensures
            self@.wf(),
    {
    }

    /// A buffer that has seen no packet.
    pub fn new() -> (buffer: ReceiveBuffer)
        ensures
            buffer.wf(),
            buffer@ == ReceiveWindow::empty(),
    {
        let mut buffer = ring_new();
        // start with false (we haven't received any packet yet)
        ring_fill(&mut buffer, false);
        ReceiveBuffer { last_recv_packet_id: None, buffer }
    }

    /// The most recently received identifier, or `None` before the first
    /// packet.
    pub fn last_recv_packet_id(&self) -> (last: Option<PacketId>)
        ensures
            last == self@.last,
    {
        self.last_recv_packet_id
    }

    /// Receive a new packet id and update the receive buffer accordingly.
    pub fn recv_packet(&mut self, id: PacketId)
        requires
            old(self).wf(),
        ensures
            final(self).wf(),
            final(self)@ == old(self)@.record(id),
    {
        let last = match self.last_recv_packet_id {
            None => {
                // special case: this is the first packet we receive
                self.last_recv_packet_id = Some(id);
                return ;
            },
            Some(last) => last,
        };
        let diff: i16 = last.circular_diff(id);
        if diff > 32 {
            return ;
        }
        // the packet id is in the existing bitfield; update the corresponding bit
        if diff > 0 {
            match ring_get_mut_signed(&mut self.buffer, -(diff as isize)) {
                Some(recv_bit) => {
                    *recv_bit = true;
                },
                // the ring is full, so the flag is there
                None => {},
            }
        }
        // the packet id is the most recent
        if diff < 0 {
            // optimization: if the new message is very far ahead, we can reset the bitfield
            if diff < -33 {
                ring_fill(&mut self.buffer, false);
            } else {
                ring_push(&mut self.buffer, true);
                // add False for all the packets in between the old and new last_recv_packet_id
                let skipped: i16 = -diff - 1;
                let mut n: i16 = 0;
                while n < skipped
                    invariant
                        0 <= n <= skipped <= 32,
                        ring_items(old(self).buffer).len() == 32,
                        ring_items(self.buffer).len() == 32,
                        self.last_recv_packet_id == old(self).last_recv_packet_id,
                        forall|j: int|
                            0 <= j < 32 ==> #[trigger] ring_items(self.buffer)[j] == (if j + n + 1
                                < 32 {
                                ring_items(old(self).buffer)[j + n + 1]
                            } else {
                                j + n + 1 == 32
                            }),
                    decreases skipped - n,
                {
                    ring_push(&mut self.buffer, false);
                    n += 1;
                }
            }
            // update the most recent packet received
            self.last_recv_packet_id = Some(id);
        }
    }

    /// Convert the Receive Buffer to the bitfield that we need to send in the
    /// PacketHeader: bit `i` is set exactly where the identifier `i + 1`
    /// steps behind the most recent one has arrived.
    pub fn get_bitfield(&self) -> (ack_bitfield: u32)
        requires
            self.wf(),
        ensures
            ack_bitfield == self@.bitfield(),
    {
        let items = ring_to_vec(&self.buffer);
        let ghost received = self@.received;
        let mut ack_bitfield: u32 = 0;
        // mask starting from the left
        let mut mask: u32 = 1u32 << 31;
        let mut j: usize = 0;
        // iter goes from the item pushed the longest ago (to the left of the bitfield)
        // to the items pushed most recently (to the right of the bitfield)
        while j < 32
            invariant
                0 <= j <= 32,
                items@ == ring_items(self.buffer),
                items@.len() == 32,
                received == self@.received,
                j < 32 ==> mask == 1u32 << ((31 - j) as u32),
                ack_bitfield == bits_from(received, (32 - j) as nat),
            decreases 32 - j,
        {
            if items[j] {
                ack_bitfield |= mask;
            }
            proof {
                let p: u32 = (31 - j) as u32;
                assert(p > 0 ==> (1u32 << p) >> 1 == 1u32 << ((p - 1) as u32)) by (bit_vector)
                    requires
                        p < 32,
                ;
            }
            mask >>= 1;
            j += 1;
        }
        ack_bitfield
    }
}

impl Default for ReceiveBuffer {
    fn default() -> (buffer: ReceiveBuffer)
        ensures
            buffer.wf(),
            buffer@ == ReceiveWindow::empty(),
    {
        ReceiveBuffer::new()
    }
}

/// The bits of [`bits_from`]: bit `i` is set exactly where `i` is at least
/// `from` and `received[i]` holds.
pub proof fn lemma_bits_from(received: Seq<bool>, from: nat)
    requires
        received.len() == 32,
        from <= 32,
    ensures
        forall|i: int|
            0 <= i < 32 ==> #[trigger] bit_is_set(bits_from(received, from), i) == (i >= from
                && received[i]),
    decreases 32 - from,
{
    if from >= 32 {
        assert forall|i: int| 0 <= i < 32 implies !#[trigger] bit_is_set(0u32, i) by {
            let b: u32 = i as u32;
            assert(0u32 & (1u32 << b) == 0) by (bit_vector);
        }
    } else {
        lemma_bits_from(received, from + 1);
        let higher = bits_from(received, from + 1);
        let p: u32 = from as u32;
        assert forall|i: int| 0 <= i < 32 implies #[trigger] bit_is_set(
            bits_from(received, from),
            i,
        ) == (i >= from && received[i]) by {
            let b: u32 = i as u32;
            assert(((higher | (1u32 << p)) & (1u32 << b) != 0) == ((higher & (1u32 << b) != 0)
                || b == p)) by (bit_vector)
                requires
                    p < 32,
                    b < 32,
            ;
            assert(bit_is_set(higher, i) == (i >= from + 1 && received[i]));
        }
    }
}

/// The bitfield of a window renders its flags.
pub proof fn lemma_bitfield_renders(window: ReceiveWindow)
    requires
        window.wf(),
    ensures
        window.rendered_by(window.bitfield()),
{
    lemma_bits_from(window.received, 0);
}

/// The bitfield of a window is 0 exactly where no flag is set.
pub proof fn lemma_bitfield_of_no_flags(window: ReceiveWindow)
    requires
        window.received.len() == 32,
    ensures
        window.bitfield() == 0 <==> forall|i: int| 0 <= i < 32 ==> !window.received[i],
{
    if forall|i: int| 0 <= i < 32 ==> !window.received[i] {
        reveal_with_fuel(bits_from, 33);
    }
    if window.bitfield() == 0 {
        lemma_bits_from(window.received, 0);
        assert forall|i: int| 0 <= i < 32 implies !window.received[i] by {
            let b: u32 = i as u32;
            assert(0u32 & (1u32 << b) == 0) by (bit_vector);
            assert(!bit_is_set(0u32, i));
        }
    }
}

/// A window records nothing that did not arrive: what it holds after the
/// packet `id` has arrived, it held before, unless it is `id` itself.
pub proof fn lemma_record_is_sound(window: ReceiveWindow, id: PacketId, other: PacketId)
    requires
        window.wf(),
        window.record(id).holds(other),
    ensures
        window.holds(other) || other == id,
{
}

/// A well-formed window stays well formed when a packet arrives.
pub proof fn lemma_record_wf(window: ReceiveWindow, id: PacketId)
    requires
        window.wf(),
    ensures
        window.record(id).wf(),
{
}

/// A window forgets nothing that it can still track: after the packet `id`
/// has arrived it holds `id`, and every packet that it held before, as far
/// as they lie within 32 steps behind the most recent one.
pub proof fn lemma_record_is_complete(window: ReceiveWindow, id: PacketId, other: PacketId)
    requires
        window.wf(),
        window.holds(other) || other == id,
        window.record(id).last matches Some(last) && 0 <= spec_circular_diff(last.0, other.0)
            <= 32,
    ensures
        window.record(id).wf(),
        window.record(id).holds(other),
{
}

/// A window acknowledges no packet that did not arrive: whatever it holds
/// after a series of packets has arrived, starting from nothing, is one of
/// these packets.
pub proof fn lemma_holds_only_what_arrived(ids: Seq<PacketId>, id: PacketId)
    requires
        ReceiveWindow::empty().record_all(ids).holds(id),
    ensures
        ids.contains(id),
    decreases ids.len(),
{
    lemma_record_all_wf(ReceiveWindow::empty(), ids);
    if ids.len() > 0 {
        let earlier = ids.drop_last();
        let before = ReceiveWindow::empty().record_all(earlier);
        lemma_record_all_wf(ReceiveWindow::empty(), earlier);
        lemma_record_is_sound(before, ids.last(), id);
        if id != ids.last() {
            lemma_holds_only_what_arrived(earlier, id);
        }
    }
}

/// A well-formed window stays well formed whatever arrives.
pub proof fn lemma_record_all_wf(window: ReceiveWindow, ids: Seq<PacketId>)
    requires
        window.wf(),
    ensures
        window.record_all(ids).wf(),
    decreases ids.len(),
{
    if ids.len() > 0 {
        lemma_record_all_wf(window, ids.drop_last());
        lemma_record_wf(window.record_all(ids.drop_last()), ids.last());
    }
}

/// The most recent packet of a window never moves backwards: after a
/// packet has arrived, the most recent one is that packet or the one
/// before, whichever is ahead.
pub proof fn lemma_record_last(window: ReceiveWindow, id: PacketId)
    ensures
        window.record(id).last is Some,
        window.last is None ==> window.record(id).last == Some(id),
        window.last matches Some(last) ==> window.record(id).last == Some(
            if spec_circular_diff(last.0, id.0) < 0 {
                id
            } else {
                last
            },
        ),
{
}

} // verus!
