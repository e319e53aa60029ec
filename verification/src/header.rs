//! The header at the start of every packet, and its wire form.
//!
//! A header names the packet that carries it and acknowledges packets of
//! the peer: the most recent identifier that the sender has received, and
//! one bit for each of the 32 identifiers before that one.

use crate::packet_id::{spec_circular_diff, PacketId};
use crate::recv_buffer::bit_is_set;
use vstd::prelude::*;

verus! {

/// Number of bytes that a header takes on the wire.
pub const HEADER_SIZE: usize = 11;

/// The value of `last_ack_packet_id` in the headers of a sender that has
/// received no packet yet.
///
/// A header with this value and an empty bitfield conveys no
/// acknowledgment at all: it is not read as an acknowledgment of the packet
/// 65535. A sender whose only received packet is 65535 writes the same
/// header, so the acknowledgment of that one packet is deferred until a
/// later header reports it by a bit of its bitfield.
pub const NO_PACKET_RECEIVED: u16 = 65535;

/// Type of a packet.
#[derive(Clone, Copy, Debug, PartialEq, Eq, Structural)]
pub enum PacketType {
    /// A packet that carries messages.
    Data,
    /// A packet that only acknowledges packets of the peer.
    Ack,
    /// A packet sent to keep the connection alive.
    KeepAlive,
}

/// Application-level simulation tick.
#[derive(Clone, Copy, Debug, PartialEq, Eq, Structural)]
pub struct Tick(pub u16);

/// Why bytes were rejected as a header.
#[derive(Clone, Copy, Debug, PartialEq, Eq, Structural)]
pub enum HeaderError {
    /// Fewer than [`HEADER_SIZE`] bytes were given.
    Truncated,
    /// The first byte names no packet type.
    UnknownPacketType,
}

/// Header included at the start of all packets.
#[derive(Clone, Copy, Debug, PartialEq, Eq, Structural)]
pub struct PacketHeader {
    /// Type of the packet sent.
    pub packet_type: PacketType,
    /// Packet id from the sender's perspective.
    pub packet_id: PacketId,
    /// Last packet id received by the sender, or [`NO_PACKET_RECEIVED`]
    /// before it has received any.
    pub last_ack_packet_id: PacketId,
    /// Bitfield of the last 32 packet ids before `last_ack_packet_id`: bit
    /// `i` set means that the packet `i + 1` steps behind it was received
    /// as well (so one header acknowledges up to 33 packet ids).
    pub ack_bitfield: u32,
    /// Current tick.
    pub tick: Tick,
}

impl PacketType {
    /// The byte that stands for the type on the wire.
    pub open spec fn spec_code(self) -> u8 {
        match self {
            PacketType::Data => 0,
            PacketType::Ack => 1,
            PacketType::KeepAlive => 2,
        }
    }

    /// The type that a wire byte stands for, if any.
    pub open spec fn spec_from_code(code: u8) -> Option<PacketType> {
        if code == 0 {
            Some(PacketType::Data)
        } else if code == 1 {
            Some(PacketType::Ack)
        } else if code == 2 {
            Some(PacketType::KeepAlive)
        } else {
            None
        }
    }

    /// The byte that stands for the type on the wire.
    pub fn code(self) -> (code: u8)
        ensures
            code == self.spec_code(),
    {
        match self {
            PacketType::Data => 0,
            PacketType::Ack => 1,
            PacketType::KeepAlive => 2,
        }
    }

    /// The type that a wire byte stands for, or `None` for a byte that
    /// stands for none.
    pub fn from_code(code: u8) -> (packet_type: Option<PacketType>)
        ensures
            packet_type == PacketType::spec_from_code(code),
    {
        if code == 0 {
            Some(PacketType::Data)
        } else if code == 1 {
            Some(PacketType::Ack)
        } else if code == 2 {
            Some(PacketType::KeepAlive)
        } else {
            None
        }
    }
}

/// The two bytes of `x`, most significant first.
pub open spec fn be_bytes16(x: u16) -> Seq<u8> {
    seq![(x / 256) as u8, (x % 256) as u8]
}

/// The four bytes of `x`, most significant first.
pub open spec fn be_bytes32(x: u32) -> Seq<u8> {
    seq![
        (x / 16777216) as u8,
        (x / 65536 % 256) as u8,
        (x / 256 % 256) as u8,
        (x % 256) as u8,
    ]
}

/// The number whose two bytes, most significant first, stand at `at`.
pub open spec fn be_value16(bytes: Seq<u8>, at: int) -> u16 {
    (bytes[at] * 256 + bytes[at + 1]) as u16
}

/// The number whose four bytes, most significant first, stand at `at`.
pub open spec fn be_value32(bytes: Seq<u8>, at: int) -> u32 {
    (bytes[at] * 16777216 + bytes[at + 1] * 65536 + bytes[at + 2] * 256 + bytes[at + 3]) as u32
}

impl PacketHeader {
    /// Whether the header conveys no acknowledgment: it is the header of a
    /// sender that has received nothing, with [`NO_PACKET_RECEIVED`] for its
    /// `last_ack_packet_id` and no bit set.
    pub open spec fn conveys_no_ack(self) -> bool {
        self.last_ack_packet_id.0 == NO_PACKET_RECEIVED && self.ack_bitfield == 0
    }

    /// Whether the header reports the identifier `behind` steps before
    /// `last_ack_packet_id` as received: the identifier itself and the 32
    /// before it by their bit, unless the header conveys no acknowledgment.
    pub open spec fn reports(self, behind: int) -> bool {
        !self.conveys_no_ack() && (behind == 0 || (1 <= behind <= 32 && bit_is_set(
            self.ack_bitfield,
            behind - 1,
        )))
    }

    /// Whether the header acknowledges the packet `id`.
    pub open spec fn acks(self, id: PacketId) -> bool {
        self.reports(spec_circular_diff(self.last_ack_packet_id.0, id.0))
    }

    /// The wire form: the type's code, then `packet_id`,
    /// `last_ack_packet_id`, `ack_bitfield` and `tick`, each with its most
    /// significant byte first.
    pub open spec fn wire(self) -> Seq<u8> {
        seq![self.packet_type.spec_code()] + be_bytes16(self.packet_id.0) + be_bytes16(
            self.last_ack_packet_id.0,
        ) + be_bytes32(self.ack_bitfield) + be_bytes16(self.tick.0)
    }

    /// What the first [`HEADER_SIZE`] bytes of `bytes` say.
    pub open spec fn parse(bytes: Seq<u8>) -> Result<PacketHeader, HeaderError> {
        if bytes.len() < 11 {
            Err(HeaderError::Truncated)
        } else {
            match PacketType::spec_from_code(bytes[0]) {
                None => Err(HeaderError::UnknownPacketType),
                Some(packet_type) => Ok(
                    PacketHeader {
                        packet_type,
                        packet_id: PacketId(be_value16(bytes, 1)),
                        last_ack_packet_id: PacketId(be_value16(bytes, 3)),
                        ack_bitfield: be_value32(bytes, 5),
                        tick: Tick(be_value16(bytes, 9)),
                    },
                ),
            }
        }
    }

    /// Get the value of the i-th bit in the bitfield (starting from the
    /// right-most bit, which is one PacketId below `last_ack_packet_id`).
    ///
    /// i is 0-indexed. So 0 represents the first bit of the bitfield
    /// (starting from the right).
    pub fn get_bitfield_bit(&self, i: u8) -> (set: bool)
        requires
            i < 32,
        ensures
            set == bit_is_set(self.ack_bitfield, i as int),
    {
        self.ack_bitfield & (1u32 << (i as u32)) != 0
    }

    /// Whether the header conveys no acknowledgment: it is the header of a
    /// sender that has received nothing.
    pub fn is_without_ack(&self) -> (none: bool)
        ensures
            none == self.conveys_no_ack(),
    {
        self.last_ack_packet_id.0 == NO_PACKET_RECEIVED && self.ack_bitfield == 0
    }

    /// The type of the packet.
    pub fn get_packet_type(&self) -> (packet_type: PacketType)
        ensures
            packet_type == self.packet_type,
    {
        self.packet_type
    }

    /// Writes the header in its wire form.
    pub fn encode(&self) -> (bytes: Vec<u8>)
        ensures
            bytes@ == self.wire(),
    {
        let id: u16 = self.packet_id.0;
        let ack: u16 = self.last_ack_packet_id.0;
        let bits: u32 = self.ack_bitfield;
        let tick: u16 = self.tick.0;
        let mut bytes: Vec<u8> = Vec::with_capacity(HEADER_SIZE);
        bytes.push(self.packet_type.code());
        bytes.push((id / 256) as u8);
        bytes.push((id % 256) as u8);
        bytes.push((ack / 256) as u8);
        bytes.push((ack % 256) as u8);
        bytes.push((bits / 16777216) as u8);
        bytes.push((bits / 65536 % 256) as u8);
        bytes.push((bits / 256 % 256) as u8);
        bytes.push((bits % 256) as u8);
        bytes.push((tick / 256) as u8);
        bytes.push((tick % 256) as u8);
        bytes
    }

    /// Reads a header from the start of `bytes`. What follows the first
    /// [`HEADER_SIZE`] bytes is not looked at.
    pub fn decode(bytes: &[u8]) -> (header: Result<PacketHeader, HeaderError>)
        ensures
            header == PacketHeader::parse(bytes@),
    {
        if bytes.len() < HEADER_SIZE {
            return Err(HeaderError::Truncated);
        }
        let packet_type = match PacketType::from_code(bytes[0]) {
            None => {
                return Err(HeaderError::UnknownPacketType);
            },
            Some(packet_type) => packet_type,
        };
        let packet_id: u16 = bytes[1] as u16 * 256 + bytes[2] as u16;
        let last_ack: u16 = bytes[3] as u16 * 256 + bytes[4] as u16;
        let ack_bitfield: u32 = bytes[5] as u32 * 16777216 + bytes[6] as u32 * 65536
            + bytes[7] as u32 * 256 + bytes[8] as u32;
        let tick: u16 = bytes[9] as u16 * 256 + bytes[10] as u16;
        Ok(
            PacketHeader {
                packet_type,
                packet_id: PacketId(packet_id),
                last_ack_packet_id: PacketId(last_ack),
                ack_bitfield,
                tick: Tick(tick),
            },
        )
    }
}

/// Reading what [`PacketHeader::encode`] wrote gives the header back,
/// whatever its fields hold and whatever bytes follow it.
pub proof fn lemma_header_round_trip(header: PacketHeader, rest: Seq<u8>)
    ensures
        header.wire().len() == 11,
        PacketHeader::parse(header.wire() + rest) == Ok::<PacketHeader, HeaderError>(header),
{
}

/// Two bytes are the bytes of the number that they stand for.
proof fn lemma_be16_of_bytes(hi: u8, lo: u8)
    ensures
        be_bytes16((hi * 256 + lo) as u16) == seq![hi, lo],
{
}

/// Four bytes are the bytes of the number that they stand for.
proof fn lemma_be32_of_bytes(b3: u8, b2: u8, b1: u8, b0: u8)
    ensures
        be_bytes32((b3 * 16777216 + b2 * 65536 + b1 * 256 + b0) as u32) == seq![b3, b2, b1, b0],
{
    let x = (b3 * 16777216 + b2 * 65536 + b1 * 256 + b0) as u32;
    assert(x / 65536 == b3 * 256 + b2);
}

/// Bytes that are read as a header are the wire form of that header: no two
/// different prefixes of 11 bytes stand for the same header.
pub proof fn lemma_header_wire_is_canonical(bytes: Seq<u8>)
    requires
        PacketHeader::parse(bytes) is Ok,
    ensures
        PacketHeader::parse(bytes)->Ok_0.wire() == bytes.subrange(0, 11),
{
    lemma_be16_of_bytes(bytes[1], bytes[2]);
    lemma_be16_of_bytes(bytes[3], bytes[4]);
    lemma_be32_of_bytes(bytes[5], bytes[6], bytes[7], bytes[8]);
    lemma_be16_of_bytes(bytes[9], bytes[10]);
}

} // verus!
