//! Errors reported to the HTTP/3 layer.
use vstd::prelude::*;

verus! {

/// Why a connection failed.
#[derive(Debug, PartialEq, Eq, Clone, Copy)]
pub enum ConnectionError {
    /// The peer does not speak a QUIC version that this endpoint offered.
    VersionMismatch,
    /// The peer broke the transport protocol; carries the transport error code.
    TransportError(u64),
    /// The peer closed the connection at transport level, with this code.
    ConnectionClosed(u64),
    /// The peer's application closed the connection, with this code.
    ApplicationClosed(u64),
    /// The peer reset the connection.
    Reset,
    /// The connection was idle for too long.
    TimedOut,
    /// This endpoint closed the connection.
    LocallyClosed,
}

/// What a failed read on a receive stream was caused by.
#[derive(Debug, PartialEq, Eq, Clone, Copy)]
pub enum ReadCause {
    /// The peer reset the stream with this application error code.
    Reset(u64),
    /// The connection was lost.
    ConnectionClosed(ConnectionError),
    /// The stream was already finished or stopped.
    UnknownStream,
    /// An ordered read was attempted after an unordered one.
    IllegalOrderedRead,
    /// The stream's 0-RTT data was rejected.
    ZeroRttRejected,
}

/// A failed read on a receive stream, with its cause kept for diagnostics.
#[derive(Debug, PartialEq, Eq, Clone, Copy)]
pub struct ReadError {
    pub cause: ReadCause,
}

/// What a failed write on a send stream was caused by.
#[derive(Debug, PartialEq, Eq, Clone, Copy)]
pub enum WriteError {
    /// The peer asked to stop sending, with this application error code.
    Stopped(u64),
    /// The connection was lost.
    ConnectionClosed(ConnectionError),
    /// The stream was already finished or reset.
    UnknownStream,
    /// The stream's 0-RTT data was rejected.
    ZeroRttRejected,
}

/// A failure of a send stream.
#[derive(Debug, PartialEq, Eq, Clone, Copy)]
pub enum SendStreamError {
    /// The transport failed to write.
    Write(WriteError),
    /// A buffer was handed over while the previous one was still being written.
    NotReady,
}

impl ReadError {
    /// Wraps a transport read failure.
    pub fn from_cause(cause: ReadCause) -> (r: ReadError)
        ensures
            r.cause == cause,
    {
        ReadError { cause }
    }

    /// A short human-readable description.
    pub fn message(&self) -> (r: String) {
        match self.cause {
            ReadCause::Reset(_) => String::from_str("stream reset by peer"),
            ReadCause::ConnectionClosed(_) => String::from_str("connection lost"),
            ReadCause::UnknownStream => String::from_str("unknown stream"),
            ReadCause::IllegalOrderedRead => String::from_str("ordered read after unordered read"),
            ReadCause::ZeroRttRejected => String::from_str("0-RTT rejected"),
        }
    }
}

impl SendStreamError {
    /// Wraps a transport write failure.
    pub fn from_write(e: WriteError) -> (r: SendStreamError)
        ensures
            r == SendStreamError::Write(e),
    {
        SendStreamError::Write(e)
    }
}

} // verus!
