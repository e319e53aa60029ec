//! Packet acknowledgment engine and channel reliability layer for a
//! message transport that runs over an unreliable datagram medium.
//!
//! Every packet carries a small header that tells the peer which of its
//! packets arrived. [`packet_id`] holds the wraparound arithmetic on packet
//! identifiers, [`recv_buffer`] the sliding window of received ids,
//! [`header`] the header and its wire form, and [`header_manager`] the
//! coordinator that writes outgoing headers and reads incoming ones.
//! [`channel`] holds the senders and receivers that turn acknowledgments
//! into delivery guarantees.
//!
//! The engine performs no I/O and reads no clock: every operation is a
//! short state update, and the caller supplies the time ([`time`]). What
//! happened to the packets is counted in [`stats`]. The window of received
//! ids is kept in a ring buffer of the `ringbuffer` crate ([`ring`]).

pub mod channel;
pub mod header;
pub mod header_manager;
pub mod packet_id;
pub mod recv_buffer;
pub mod ring;
pub mod stats;
pub mod time;
