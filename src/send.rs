//! The send side of a stream: a single slot for the buffer being written.
use vstd::prelude::*;
use vstd::slice::slice_subrange;

use crate::code::{clamp_code, wire_code};
use crate::error::{SendStreamError, WriteError};
use crate::poll::Polled;

verus! {

/// What one write of the pending bytes on the transport stream produced.
pub enum WriteEvent {
    /// The transport cannot take bytes yet.
    Pending,
    /// The transport took this many of the bytes offered to it.
    Wrote(usize),
    /// The write failed.
    Failed(WriteError),
}

/// What polling the transport's finish operation produced.
pub enum FinishEvent {
    /// The peer has not acknowledged the end of the stream yet.
    Pending,
    /// The stream is finished.
    Finished,
    /// Finishing failed.
    Failed(WriteError),
}

/// The abstract state of a send stream: the bytes of the pending buffer that the
/// transport has not taken yet, if a buffer is pending.
pub struct SendView {
    pub pending: Option<Seq<u8>>,
}

/// One poll for write readiness, given what the write of the pending bytes
/// produced. With nothing (left) to write the stream is ready at once. Bytes that
/// the transport took leave the pending buffer; once none are left the slot is
/// free and the stream is ready. A failed write loses the buffer.
pub open spec fn ready_step(s: SendView, ev: WriteEvent) -> (SendView, Polled<Result<(), SendStreamError>>) {
    match s.pending {
        None => (SendView { pending: None }, Polled::Ready(Ok(()))),
        Some(rest) => {
            if rest.len() == 0 {
                (SendView { pending: None }, Polled::Ready(Ok(())))
            } else {
                match ev {
                    WriteEvent::Pending => (s, Polled::Pending),
                    WriteEvent::Failed(e) => (
                        SendView { pending: None },
                        Polled::Ready(Err(SendStreamError::Write(e))),
                    ),
                    WriteEvent::Wrote(n) => {
                        if n == rest.len() {
                            (SendView { pending: None }, Polled::Ready(Ok(())))
                        } else {
                            (SendView { pending: Some(rest.skip(n as int)) }, Polled::Pending)
                        }
                    },
                }
            }
        },
    }
}

/// What finishing the stream reports, given what the transport's finish produced.
pub open spec fn finish_result(ev: FinishEvent) -> Polled<Result<(), SendStreamError>> {
    match ev {
        FinishEvent::Pending => Polled::Pending,
        FinishEvent::Finished => Polled::Ready(Ok(())),
        FinishEvent::Failed(e) => Polled::Ready(Err(SendStreamError::Write(e))),
    }
}

/// The send half of a stream.
pub struct SendStream {
    writing: Option<Vec<u8>>,
    written: usize,
}

impl View for SendStream {
    type V = SendView;

    closed spec fn view(&self) -> SendView {
        match self.writing {
            None => SendView { pending: None },
            Some(v) => SendView { pending: Some(v@.subrange(self.written as int, v@.len() as int)) },
        }
    }
}

impl SendStream {
    pub closed spec fn wf(&self) -> bool {
        match self.writing {
            None => self.written == 0,
            Some(v) => self.written <= v@.len(),
        }
    }

    /// Well formed, with no pending buffer.
    pub open spec fn is_fresh(&self) -> bool {
        self.wf() && self@.pending is None
    }

    /// A stream with no pending buffer.
    pub fn new() -> (r: SendStream)
        ensures
            r.is_fresh(),
    {
        SendStream { writing: None, written: 0 }
    }

    /// The pending bytes that the transport has not taken yet, if any.
    pub fn unwritten(&self) -> (r: Option<&[u8]>)
        requires
            self.wf(),
        ensures
            match r {
                None => self@.pending is None,
                Some(b) => self@.pending == Some(b@),
            },
    {
        match &self.writing {
            None => None,
            Some(v) => Some(slice_subrange(v.as_slice(), self.written, v.len())),
        }
    }

    /// Hands a buffer over for writing. Fails with `NotReady`, and changes
    /// nothing, while a previous buffer is still pending.
    pub fn send_data(&mut self, data: Vec<u8>) -> (r: Result<(), SendStreamError>)
        requires
            old(self).wf(),
        ensures
            final(self).wf(),
            old(self)@.pending is Some ==> r == Err::<(), SendStreamError>(SendStreamError::NotReady)
                && final(self)@ == old(self)@,
            old(self)@.pending is None ==> r is Ok && final(self)@.pending == Some(data@),
    {
        if self.writing.is_some() {
            return Err(SendStreamError::NotReady);
        }
        self.writing = Some(data);
        self.written = 0;
        proof {
            let v = self.writing->Some_0;
            assert(v@.subrange(0, v@.len() as int) =~= data@);
        }
        Ok(())
    }

    /// Polls for readiness to take a new buffer, given what writing the pending
    /// bytes produced (ignored when there are none).
    pub fn poll_ready(&mut self, event: WriteEvent) -> (r: Polled<Result<(), SendStreamError>>)
        requires
            old(self).wf(),
            event matches WriteEvent::Wrote(n) ==> old(self)@.pending matches Some(rest) && n
                <= rest.len(),
        ensures
            final(self).wf(),
            (final(self)@, r) == ready_step(old(self)@, event),
    {
        let len: usize = match &self.writing {
            None => {
                return Polled::Ready(Ok(()));
            },
            Some(v) => v.len(),
        };
        if self.written == len {
            self.writing = None;
            self.written = 0;
            return Polled::Ready(Ok(()));
        }
        match event {
            WriteEvent::Pending => Polled::Pending,
            WriteEvent::Failed(e) => {
                self.writing = None;
                self.written = 0;
                Polled::Ready(Err(SendStreamError::Write(e)))
            },
            WriteEvent::Wrote(n) => {
                let ghost rest = self@.pending->Some_0;
                self.written = self.written + n;
                if self.written == len {
                    self.writing = None;
                    self.written = 0;
                    Polled::Ready(Ok(()))
                } else {
                    assert(self@.pending->Some_0 =~= rest.skip(n as int));
                    Polled::Pending
                }
            },
        }
    }

    /// Polls for the end of the stream, given what the transport's finish produced.
    pub fn poll_finish(&mut self, event: FinishEvent) -> (r: Polled<Result<(), SendStreamError>>)
        ensures
            r == finish_result(event),
            final(self)@ == old(self)@,
            final(self).wf() == old(self).wf(),
    {
        match event {
            FinishEvent::Pending => Polled::Pending,
            FinishEvent::Finished => Polled::Ready(Ok(())),
            FinishEvent::Failed(e) => Polled::Ready(Err(SendStreamError::Write(e))),
        }
    }

    /// Resets the stream; returns the error code to send, clamped to what the
    /// wire can carry. The pending buffer is left as it is.
    pub fn reset(&mut self, reset_code: u64) -> (r: u64)
        ensures
            r == wire_code(reset_code),
            final(self)@ == old(self)@,
            final(self).wf() == old(self).wf(),
    {
        clamp_code(reset_code)
    }
}

} // verus!
