//! Error taxonomy: network, parse and internal failures.
use vstd::prelude::*;
use crate::packet::ResponseType;

verus! {

/// What an I/O failure was, as far as the state machines care.
#[derive(Clone, Copy, Debug, PartialEq, Eq, Structural)]
pub enum IoFailure {
    /// The operation would have blocked; nothing was transferred.
    WouldBlock,
    /// The peer reset the connection.
    ConnectionReset,
    /// A signal interrupted the operation.
    Interrupted,
    /// Any other failure.
    Other,
}

/// A failure of the transport under a connection.
#[derive(Clone, Copy, Debug, PartialEq, Eq, Structural)]
pub enum NetworkError {
    /// The peer closed the stream cleanly while a response was awaited.
    ConnectionClosed,
    /// The peer reset the connection.
    ConnectionReset,
    /// A signal interrupted the operation.
    Interrupted,
    /// Any other I/O failure.
    Io(IoFailure),
}

impl NetworkError {
    /// The network error that an I/O failure stands for.
    pub open spec fn of(failure: IoFailure) -> NetworkError {
        match failure {
            IoFailure::ConnectionReset => NetworkError::ConnectionReset,
            IoFailure::Interrupted => NetworkError::Interrupted,
            _ => NetworkError::Io(failure),
        }
    }

    /// Classifies an I/O failure: resets and interruptions have variants of
    /// their own, everything else is carried as it came.
    pub fn from(failure: IoFailure) -> (e: NetworkError)
        ensures
            e == NetworkError::of(failure),
    {
        match failure {
            IoFailure::ConnectionReset => NetworkError::ConnectionReset,
            IoFailure::Interrupted => NetworkError::Interrupted,
            _ => NetworkError::Io(failure),
        }
    }
}

/// Why a frame could not be decoded.
#[derive(Clone, Debug, PartialEq, Eq)]
pub enum ParseError {
    /// A length differs from the one that the message class fixes, or more
    /// bytes arrived than the frame holds.
    UnexpectedLength { payload_len: usize, exp_len: usize },
    /// The frame is inconsistent in some other way.
    MalformedPacket(String),
    /// The first byte names no message class.
    InvalidMessageType(u8),
    /// The tag of an optional field is neither absent nor present.
    UnexpectedOptionType(u8),
    /// Fewer bytes than the header or the declared payload need.
    PacketTooShort,
    /// A response of one class arrived where another was awaited.
    UnexpectedMessageType { given_type: ResponseType, exp_type: ResponseType },
}

/// A broken state invariant of the open-loop bookkeeping.
#[derive(Clone, Copy, Debug, PartialEq, Eq, Structural)]
pub enum InternalFault {
    /// A request id was enqueued while still in flight.
    DuplicateRequestId(u64),
}

/// Any failure of the benchmark's core.
#[derive(Clone, Debug, PartialEq, Eq)]
pub enum AspenRsError {
    NetworkError(NetworkError),
    ParseError(ParseError),
    InternalError(InternalFault),
}

impl AspenRsError {
    /// Whether the error is the peer going away, by a reset or a clean
    /// close: a server worker ends on it without a diagnostic.
    pub fn is_disconnect(&self) -> (quiet: bool)
        ensures
            quiet == (*self matches AspenRsError::NetworkError(e) && (e
                == NetworkError::ConnectionReset || e == NetworkError::ConnectionClosed)),
    {
        match self {
            AspenRsError::NetworkError(NetworkError::ConnectionReset) => true,
            AspenRsError::NetworkError(NetworkError::ConnectionClosed) => true,
            _ => false,
        }
    }
}

} // verus!
