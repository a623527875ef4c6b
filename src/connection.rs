//! A connection: streams the peer opens are accepted, and streams this side
//! opens go through at most one open operation in flight per direction.
use vstd::prelude::*;

use crate::bidi::BidiStream;
use crate::error::ConnectionError;
use crate::poll::Polled;
use crate::recv::RecvStream;
use crate::send::SendStream;

verus! {

/// What polling the transport's source of incoming streams produced.
pub enum AcceptEvent {
    /// No new stream yet.
    Pending,
    /// The source is closed: no stream will come again.
    Exhausted,
    /// A new stream arrived.
    Accepted,
    /// The connection failed.
    Failed(ConnectionError),
}

/// What polling the in-flight open operation produced.
pub enum OpenEvent {
    /// The stream is not open yet.
    Pending,
    /// The stream is open.
    Opened,
    /// The connection failed.
    Failed(ConnectionError),
}

/// What to do before polling an open operation.
#[derive(Debug, PartialEq, Eq, Clone, Copy)]
pub enum OpenStep {
    /// No operation is in flight: start one on the transport.
    Issue,
    /// Keep polling the operation already in flight.
    Resume,
}

/// The abstract state of a connection: whether an open operation is in flight,
/// for bidirectional and for unidirectional streams.
pub struct ConnectionView {
    pub opening_bi: bool,
    pub opening_uni: bool,
}

/// Starting an open: one is issued exactly when none is in flight, and after it
/// one is in flight. Returns whether one was issued.
pub open spec fn begin_open(in_flight: bool) -> bool {
    !in_flight
}

/// Whether an open operation stays in flight after it was polled: only while it
/// is pending. Whether it opened the stream or failed, the slot is free again.
pub open spec fn still_opening(ev: OpenEvent) -> bool {
    ev is Pending
}

/// How many open operations are issued over a run of polls, starting with
/// `in_flight`, where each poll starts an open if needed and then polls it with
/// the next event.
pub open spec fn opens_issued(in_flight: bool, events: Seq<OpenEvent>) -> nat
    decreases events.len(),
{
    if events.len() == 0 {
        0
    } else {
        (if begin_open(in_flight) { 1nat } else { 0nat }) + opens_issued(
            still_opening(events[0]),
            events.drop_first(),
        )
    }
}

/// Polling for a new stream any number of times while the open stays pending
/// issues at most one open operation, and none when one was already in flight.
pub proof fn lemma_single_open_in_flight(in_flight: bool, events: Seq<OpenEvent>)
    requires
        forall|i: int| 0 <= i < events.len() ==> events[i] is Pending,
    ensures
        opens_issued(in_flight, events) <= 1,
        in_flight ==> opens_issued(in_flight, events) == 0,
    decreases events.len(),
{
    if events.len() > 0 {
        let rest = events.drop_first();
        assert forall|i: int| 0 <= i < rest.len() implies rest[i] is Pending by {
            assert(rest[i] == events[i + 1]);
        }
        lemma_single_open_in_flight(true, rest);
    }
}

/// A connection's stream bookkeeping.
pub struct Connection {
    opening_bi: bool,
    opening_uni: bool,
}

impl View for Connection {
    type V = ConnectionView;

    closed spec fn view(&self) -> ConnectionView {
        ConnectionView { opening_bi: self.opening_bi, opening_uni: self.opening_uni }
    }
}

impl Connection {
    /// A connection with no open operation in flight.
    pub fn new() -> (r: Connection)
        ensures
            !r@.opening_bi,
            !r@.opening_uni,
    {
        Connection { opening_bi: false, opening_uni: false }
    }

    /// Polls for a bidirectional stream the peer opened, given what the incoming
    /// source produced: a fresh stream, `None` once the source is closed, nothing
    /// yet, or the connection's error.
    pub fn poll_accept_bidi_stream(&mut self, event: AcceptEvent) -> (r: Polled<
        Result<Option<BidiStream>, ConnectionError>,
    >)
        ensures
            final(self)@ == old(self)@,
            match event {
                AcceptEvent::Pending => r is Pending,
                AcceptEvent::Exhausted => r matches Polled::Ready(Ok(None)),
                AcceptEvent::Accepted => r matches Polled::Ready(Ok(Some(b))) && b.is_fresh(),
                AcceptEvent::Failed(e) => r matches Polled::Ready(Err(x)) && x == e,
            },
    {
        match event {
            AcceptEvent::Pending => Polled::Pending,
            AcceptEvent::Exhausted => Polled::Ready(Ok(None)),
            AcceptEvent::Accepted => Polled::Ready(Ok(Some(BidiStream::new()))),
            AcceptEvent::Failed(e) => Polled::Ready(Err(e)),
        }
    }

    /// Polls for a unidirectional stream the peer opened, given what the incoming
    /// source produced: a fresh receive stream, `None` once the source is closed,
    /// nothing yet, or the connection's error.
    pub fn poll_accept_recv_stream(&mut self, event: AcceptEvent) -> (r: Polled<
        Result<Option<RecvStream>, ConnectionError>,
    >)
        ensures
            final(self)@ == old(self)@,
            match event {
                AcceptEvent::Pending => r is Pending,
                AcceptEvent::Exhausted => r matches Polled::Ready(Ok(None)),
                AcceptEvent::Accepted => r matches Polled::Ready(Ok(Some(s))) && s.is_fresh(),
                AcceptEvent::Failed(e) => r matches Polled::Ready(Err(x)) && x == e,
            },
    {
        match event {
            AcceptEvent::Pending => Polled::Pending,
            AcceptEvent::Exhausted => Polled::Ready(Ok(None)),
            AcceptEvent::Accepted => Polled::Ready(Ok(Some(RecvStream::new()))),
            AcceptEvent::Failed(e) => Polled::Ready(Err(e)),
        }
    }

    /// Starts opening a bidirectional stream: says whether to issue a new open
    /// operation on the transport (none is in flight) or to resume the one that is.
    pub fn begin_open_bidi_stream(&mut self) -> (r: OpenStep)
        ensures
            (r == OpenStep::Issue) == begin_open(old(self)@.opening_bi),
            final(self)@.opening_bi,
            final(self)@.opening_uni == old(self)@.opening_uni,
    {
        if self.opening_bi {
            OpenStep::Resume
        } else {
            self.opening_bi = true;
            OpenStep::Issue
        }
    }

    /// Polls for the bidirectional stream being opened, given what the in-flight
    /// operation produced: a fresh stream, nothing yet, or the connection's error.
    /// The operation stays in flight only while it is pending.
    pub fn poll_open_bidi_stream(&mut self, event: OpenEvent) -> (r: Polled<
        Result<BidiStream, ConnectionError>,
    >)
        ensures
            final(self)@.opening_bi == still_opening(event),
            final(self)@.opening_uni == old(self)@.opening_uni,
            match event {
                OpenEvent::Pending => r is Pending,
                OpenEvent::Opened => r matches Polled::Ready(Ok(b)) && b.is_fresh(),
                OpenEvent::Failed(e) => r matches Polled::Ready(Err(x)) && x == e,
            },
    {
        match event {
            OpenEvent::Pending => {
                self.opening_bi = true;
                Polled::Pending
            },
            OpenEvent::Opened => {
                self.opening_bi = false;
                Polled::Ready(Ok(BidiStream::new()))
            },
            OpenEvent::Failed(e) => {
                self.opening_bi = false;
                Polled::Ready(Err(e))
            },
        }
    }

    /// Starts opening a unidirectional stream: says whether to issue a new open
    /// operation on the transport (none is in flight) or to resume the one that is.
    pub fn begin_open_send_stream(&mut self) -> (r: OpenStep)
        ensures
            (r == OpenStep::Issue) == begin_open(old(self)@.opening_uni),
            final(self)@.opening_uni,
            final(self)@.opening_bi == old(self)@.opening_bi,
    {
        if self.opening_uni {
            OpenStep::Resume
        } else {
            self.opening_uni = true;
            OpenStep::Issue
        }
    }

    /// Polls for the unidirectional stream being opened, given what the in-flight
    /// operation produced: a fresh send stream, nothing yet, or the connection's
    /// error. The operation stays in flight only while it is pending.
    pub fn poll_open_send_stream(&mut self, event: OpenEvent) -> (r: Polled<
        Result<SendStream, ConnectionError>,
    >)
        ensures
            final(self)@.opening_uni == still_opening(event),
            final(self)@.opening_bi == old(self)@.opening_bi,
            match event {
                OpenEvent::Pending => r is Pending,
                OpenEvent::Opened => r matches Polled::Ready(Ok(s)) && s.is_fresh(),
                OpenEvent::Failed(e) => r matches Polled::Ready(Err(x)) && x == e,
            },
    {
        match event {
            OpenEvent::Pending => {
                self.opening_uni = true;
                Polled::Pending
            },
            OpenEvent::Opened => {
                self.opening_uni = false;
                Polled::Ready(Ok(SendStream::new()))
            },
            OpenEvent::Failed(e) => {
                self.opening_uni = false;
                Polled::Ready(Err(e))
            },
        }
    }
}

} // verus!
