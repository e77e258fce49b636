//! What an application can tune: the timeouts, the windows and the numbers
//! of streams of a connection. Times are counted in microseconds.

use vstd::prelude::*;
use crate::stream_id::MAX_VARINT;
use crate::streams::{PerDir, StreamLimits};

verus! {

/// The smallest size that the largest datagram may have.
pub const MIN_DATAGRAM: u64 = 256;

/// The room that a packet needs beside the bytes of a stream that it
/// carries.
pub const PACKET_OVERHEAD: u64 = 64;

/// Why a configuration cannot be used.
#[derive(Clone, Copy, Debug, PartialEq, Eq, Structural)]
pub enum ConfigError {
    /// A window, a number of streams or a timeout is beyond what the
    /// protocol can express.
    OutOfRange,
    /// The largest datagram is too small to carry anything.
    DatagramTooSmall,
}

/// The tunables of a connection.
#[derive(Clone, Copy, Debug, PartialEq, Eq, Structural)]
pub struct TransportConfig {
    /// How long the peer may stay silent; `None` for ever.
    pub max_idle_timeout: Option<u64>,
    /// How often a frame is sent only to show the peer that this side is
    /// still there; `None` never.
    pub keep_alive_interval: Option<u64>,
    /// The round-trip time that is assumed before any was measured.
    pub initial_rtt: u64,
    /// How many bytes may arrive on the connection ahead of the readers.
    pub receive_window: u64,
    /// The same for each stream.
    pub stream_receive_window: u64,
    /// How many bidirectional streams the peer may have open at a time.
    pub max_concurrent_bidi_streams: u64,
    /// The same for unidirectional streams.
    pub max_concurrent_uni_streams: u64,
    /// The size of the largest datagram.
    pub max_datagram_size: u64,
    /// The first congestion window, in datagrams.
    pub initial_window_packets: u64,
    /// The largest factor by which the wait for an acknowledgment grows.
    pub pto_backoff_cap: u64,
    /// New credit is announced once less than the window divided by this is
    /// left.
    pub window_update_divisor: u64,
    /// A packet counts as lost once this many later ones are acknowledged.
    pub packet_threshold: u64,
    /// The longest time by which the peer may hold back an acknowledgment.
    pub max_ack_delay: u64,
    /// How often the close frame is sent again.
    pub close_resends: u64,
}

impl TransportConfig {
    /// The configuration that is used where nothing is said.
    pub open spec fn standard() -> TransportConfig {
        TransportConfig {
            max_idle_timeout: Some(10000000),
            keep_alive_interval: None,
            initial_rtt: 333000,
            receive_window: 1250000,
            stream_receive_window: 1250000,
            max_concurrent_bidi_streams: 100,
            max_concurrent_uni_streams: 100,
            max_datagram_size: 1200,
            initial_window_packets: 10,
            pto_backoff_cap: 64,
            window_update_divisor: 2,
            packet_threshold: 3,
            max_ack_delay: 25000,
            close_resends: 3,
        }
    }

    pub open spec fn spec_check(&self) -> Option<ConfigError> {
        if self.receive_window > MAX_VARINT || self.stream_receive_window > MAX_VARINT
            || self.max_concurrent_bidi_streams > MAX_VARINT || self.max_concurrent_uni_streams
            > MAX_VARINT || (self.max_idle_timeout matches Some(t) && t > MAX_VARINT) {
            Some(ConfigError::OutOfRange)
        } else if self.max_datagram_size < MIN_DATAGRAM {
            Some(ConfigError::DatagramTooSmall)
        } else if self.max_datagram_size > MAX_VARINT {
            Some(ConfigError::OutOfRange)
        } else {
            None
        }
    }

    /// Whether the configuration can be used.
    pub open spec fn valid(&self) -> bool {
        self.spec_check() is None
    }

    /// Finds what is wrong with the configuration, if anything is.
    #[verifier::when_used_as_spec(spec_check)]
    pub fn check(&self) -> (r: Option<ConfigError>)
        ensures
            r == self.spec_check(),
    {
        let idle_bad: bool = match self.max_idle_timeout {
            Some(t) => t > MAX_VARINT,
            None => false,
        };
        if self.receive_window > MAX_VARINT || self.stream_receive_window > MAX_VARINT
            || self.max_concurrent_bidi_streams > MAX_VARINT || self.max_concurrent_uni_streams
            > MAX_VARINT || idle_bad {
            Some(ConfigError::OutOfRange)
        } else if self.max_datagram_size < MIN_DATAGRAM {
            Some(ConfigError::DatagramTooSmall)
        } else if self.max_datagram_size > MAX_VARINT {
            Some(ConfigError::OutOfRange)
        } else {
            None
        }
    }

    /// What this configuration allows the peer.
    pub open spec fn spec_limits(&self) -> StreamLimits {
        StreamLimits {
            concurrent: PerDir {
                bi: self.max_concurrent_bidi_streams,
                uni: self.max_concurrent_uni_streams,
            },
            connection_window: self.receive_window,
            stream_window: self.stream_receive_window,
        }
    }

    #[verifier::when_used_as_spec(spec_limits)]
    pub fn limits(&self) -> (l: StreamLimits)
        ensures
            l == self.spec_limits(),
    {
        StreamLimits {
            concurrent: PerDir {
                bi: self.max_concurrent_bidi_streams,
                uni: self.max_concurrent_uni_streams,
            },
            connection_window: self.receive_window,
            stream_window: self.stream_receive_window,
        }
    }
}

impl Default for TransportConfig {
    fn default() -> (c: TransportConfig)
        ensures
            c == TransportConfig::standard(),
            c.valid(),
    {
        TransportConfig {
            max_idle_timeout: Some(10000000),
            keep_alive_interval: None,
            initial_rtt: 333000,
            receive_window: 1250000,
            stream_receive_window: 1250000,
            max_concurrent_bidi_streams: 100,
            max_concurrent_uni_streams: 100,
            max_datagram_size: 1200,
            initial_window_packets: 10,
            pto_backoff_cap: 64,
            window_update_divisor: 2,
            packet_threshold: 3,
            max_ack_delay: 25000,
            close_resends: 3,
        }
    }
}

} // verus!
