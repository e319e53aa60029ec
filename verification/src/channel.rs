//! Channels: logical message streams, each with its own delivery contract,
//! multiplexed onto one stream of packets.
//!
//! A sender queues messages and offers them for transmission; a reliable
//! sender also keeps them until a packet that carried them is acknowledged.
//! A receiver decides which of the messages that arrive are handed to the
//! application, and when.

pub mod message;
pub mod receivers;
pub mod senders;
