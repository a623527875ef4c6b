//! A bidirectional stream: one send half and one receive half.
use vstd::prelude::*;

use crate::code::wire_code;
use crate::error::{ReadError, SendStreamError};
use crate::poll::Polled;
use crate::recv::{data_view, poll_step, ReadEvent, RecvStream};
use crate::send::{finish_result, ready_step, FinishEvent, SendStream, WriteEvent};

verus! {

/// A send half and a receive half that share nothing but their stream.
pub struct BidiStream {
    pub send: SendStream,
    pub recv: RecvStream,
}

impl BidiStream {
    pub open spec fn wf(&self) -> bool {
        self.send.wf() && self.recv.wf()
    }

    /// Nothing pending to send, nothing read.
    pub open spec fn is_fresh(&self) -> bool {
        self.send.is_fresh() && self.recv.is_fresh()
    }

    /// A fresh stream.
    pub fn new() -> (r: BidiStream)
        ensures
            r.is_fresh(),
    {
        BidiStream { send: SendStream::new(), recv: RecvStream::new() }
    }

    /// Parts the stream into its two halves, each used on its own from then on.
    pub fn split(self) -> (r: (SendStream, RecvStream))
        ensures
            r.0 == self.send,
            r.1 == self.recv,
    {
        (self.send, self.recv)
    }

    /// Polls the receive half; the send half is untouched.
    pub fn poll_data(&mut self, event: ReadEvent) -> (r: Polled<Result<Option<Vec<u8>>, ReadError>>)
        requires
            old(self).wf(),
            event.fits(),
        ensures
            final(self).wf(),
            (final(self).recv@, data_view(r)) == poll_step(old(self).recv@, event),
            final(self).send == old(self).send,
    {
        self.recv.poll_data(event)
    }

    /// Asks the peer to stop sending; the send half is untouched.
    pub fn stop_sending(&mut self, error_code: u64) -> (r: u64)
        ensures
            r == wire_code(error_code),
            final(self).recv@ == old(self).recv@,
            final(self).recv.wf() == old(self).recv.wf(),
            final(self).send == old(self).send,
    {
        self.recv.stop_sending(error_code)
    }

    /// Polls the send half for readiness; the receive half is untouched.
    pub fn poll_ready(&mut self, event: WriteEvent) -> (r: Polled<Result<(), SendStreamError>>)
        requires
            old(self).wf(),
            event matches WriteEvent::Wrote(n) ==> old(self).send@.pending matches Some(rest) && n
                <= rest.len(),
        ensures
            final(self).wf(),
            (final(self).send@, r) == ready_step(old(self).send@, event),
            final(self).recv == old(self).recv,
    {
        self.send.poll_ready(event)
    }

    /// Polls the send half's finish; the receive half is untouched.
    pub fn poll_finish(&mut self, event: FinishEvent) -> (r: Polled<Result<(), SendStreamError>>)
        ensures
            r == finish_result(event),
            final(self).send@ == old(self).send@,
            final(self).send.wf() == old(self).send.wf(),
            final(self).recv == old(self).recv,
    {
        self.send.poll_finish(event)
    }

    /// Resets the send half; the receive half is untouched.
    pub fn reset(&mut self, reset_code: u64) -> (r: u64)
        ensures
            r == wire_code(reset_code),
            final(self).send@ == old(self).send@,
            final(self).send.wf() == old(self).send.wf(),
            final(self).recv == old(self).recv,
    {
        self.send.reset(reset_code)
    }

    /// Hands a buffer to the send half; the receive half is untouched.
    pub fn send_data(&mut self, data: Vec<u8>) -> (r: Result<(), SendStreamError>)
        requires
            old(self).wf(),
        ensures
            final(self).wf(),
            old(self).send@.pending is Some ==> r == Err::<(), SendStreamError>(
                SendStreamError::NotReady,
            ) && final(self).send@ == old(self).send@,
            old(self).send@.pending is None ==> r is Ok && final(self).send@.pending == Some(data@),
            final(self).recv == old(self).recv,
    {
        self.send.send_data(data)
    }
}

} // verus!
