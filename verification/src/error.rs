//! The failures that the engine reports, each as a value on the operation
//! that it concerns.

use vstd::prelude::*;

verus! {

/// The rule of the protocol that a peer broke.
#[derive(Clone, Copy, Debug, PartialEq, Eq, Structural)]
pub enum TransportErrorCode {
    /// More data than the credit allowed.
    FlowControl,
    /// A stream beyond the number that was allowed.
    StreamLimit,
    /// A contradiction about the length of a stream.
    FinalSize,
    /// A frame for a half of a stream that the sender of the frame cannot use.
    StreamState,
    /// Any other breach.
    ProtocolViolation,
}

impl TransportErrorCode {
    /// The number that stands for the breach in a close frame.
    pub open spec fn spec_code(&self) -> u64 {
        match self {
            TransportErrorCode::FlowControl => 3,
            TransportErrorCode::StreamLimit => 4,
            TransportErrorCode::StreamState => 5,
            TransportErrorCode::FinalSize => 6,
            TransportErrorCode::ProtocolViolation => 10,
        }
    }

    #[verifier::when_used_as_spec(spec_code)]
    pub fn code(&self) -> (c: u64)
        ensures
            c == self.spec_code(),
    {
        match self {
            TransportErrorCode::FlowControl => 3,
            TransportErrorCode::StreamLimit => 4,
            TransportErrorCode::StreamState => 5,
            TransportErrorCode::FinalSize => 6,
            TransportErrorCode::ProtocolViolation => 10,
        }
    }

    /// The breach that a number in a close frame stands for; a number that
    /// is not known stands for a breach in general.
    pub open spec fn spec_from_code(code: u64) -> TransportErrorCode {
        if code == 3 {
            TransportErrorCode::FlowControl
        } else if code == 4 {
            TransportErrorCode::StreamLimit
        } else if code == 5 {
            TransportErrorCode::StreamState
        } else if code == 6 {
            TransportErrorCode::FinalSize
        } else {
            TransportErrorCode::ProtocolViolation
        }
    }

    #[verifier::when_used_as_spec(spec_from_code)]
    pub fn from_code(code: u64) -> (e: TransportErrorCode)
        ensures
            e == Self::spec_from_code(code),
            e.spec_code() == code || e == TransportErrorCode::ProtocolViolation,
    {
        if code == 3 {
            TransportErrorCode::FlowControl
        } else if code == 4 {
            TransportErrorCode::StreamLimit
        } else if code == 5 {
            TransportErrorCode::StreamState
        } else if code == 6 {
            TransportErrorCode::FinalSize
        } else {
            TransportErrorCode::ProtocolViolation
        }
    }
}

/// Every breach is found again from its number.
pub proof fn lemma_code_round_trip(e: TransportErrorCode)
    ensures
        TransportErrorCode::spec_from_code(e.spec_code()) == e,
{
}

/// Why a connection ended, or could not be made.
#[derive(Clone, Copy, Debug, PartialEq, Eq, Structural)]
pub enum ConnectionError {
    /// Nothing was heard from the peer for the idle timeout.
    TimedOut,
    /// The application on this side closed the connection or the endpoint.
    LocallyClosed,
    /// The application on the other side closed the connection, with its code.
    ApplicationClosed(u64),
    /// The peer no longer knows the connection.
    Reset,
    /// A breach of the protocol: always fatal to the connection.
    TransportError(TransportErrorCode),
    /// The peer speaks no version of the protocol that this side speaks.
    VersionMismatch,
}

/// Why an operation on the sending half of a stream failed.
#[derive(Clone, Copy, Debug, PartialEq, Eq, Structural)]
pub enum StreamError {
    /// The peer asked that sending stop, with its code.
    Stopped(u64),
    /// The connection of the stream has ended.
    ConnectionClosed,
    /// The stream does not exist, or no longer takes the operation.
    UnknownStream,
}

} // verus!
