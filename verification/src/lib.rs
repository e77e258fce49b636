//! A QUIC connection engine without I/O: stream multiplexing, flow control,
//! loss recovery, congestion control and the life of a connection, stated
//! over plain values and proved against mathematical models.
//!
//! The engine reads no clock and no socket. The caller hands in the time,
//! the packets that arrived and the events of the handshake, and takes out
//! the packets to send and the time at which to come back. The codec of the
//! wire and the engine of the handshake stand outside.
//!
//! From the leaves up:
//!
//! - [`stream_id`], [`flow`], [`runs`]: identifiers, windows of credit, and
//!   runs of flags;
//! - [`recv`], [`send`], [`delivery`], [`roundtrip`]: the two halves of a
//!   stream, and the proof that a reader gets what the writer wrote;
//! - [`streams`]: the table of the streams of a connection;
//! - [`rtt`], [`congestion`], [`recovery`]: the estimate of the round trip,
//!   the congestion window, and the ledger of packets sent;
//! - [`lifecycle`], [`config`], [`frame`], [`connection`]: the connection;
//! - [`endpoint`]: the connections of one socket;
//! - [`chunks`], [`echo`]: streams by chunks, and an echo service with its
//!   client.

pub mod stream_id;
pub mod flow;
pub mod runs;
pub mod error;
pub mod recv;
pub mod delivery;
pub mod send;
pub mod roundtrip;
pub mod frame;
pub mod streams;
pub mod rtt;
pub mod congestion;
pub mod recovery;
pub mod lifecycle;
pub mod config;
pub mod connection;
pub mod endpoint;
pub mod chunks;
pub mod echo;
