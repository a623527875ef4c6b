//! Stream and connection adapters for an HTTP/3 layer over a QUIC transport.
//!
//! The transport itself stays outside: each adapter here is the decision logic
//! that sits between it and the HTTP/3 layer. A receive stream reassembles chunks
//! that arrive out of order, a send stream keeps a single pending write, and a
//! connection keeps at most one stream-open operation in flight per direction.
use vstd::prelude::*;

pub mod bidi;
pub mod code;
pub mod connection;
pub mod error;
pub mod poll;
pub mod reassembly;
pub mod recv;
pub mod send;

verus! {

} // verus!
