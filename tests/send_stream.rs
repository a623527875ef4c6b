use h3_quinn::error::{ConnectionError, SendStreamError, WriteError};
use h3_quinn::poll::Polled;
use h3_quinn::send::{FinishEvent, SendStream, WriteEvent};

#[test]
fn second_buffer_while_first_pending_is_not_ready() {
    let mut s = SendStream::new();
    assert_eq!(s.send_data(vec![1, 2, 3]), Ok(()));
    assert_eq!(s.send_data(vec![4, 5]), Err(SendStreamError::NotReady));
    // The first buffer is still the one pending.
    assert_eq!(s.unwritten(), Some(&[1u8, 2, 3][..]));
}

#[test]
fn ready_when_nothing_pending() {
    let mut s = SendStream::new();
    assert_eq!(s.unwritten(), None);
    assert_eq!(s.poll_ready(WriteEvent::Pending), Polled::Ready(Ok(())));
}

#[test]
fn partial_writes_drain_the_buffer() {
    let mut s = SendStream::new();
    assert_eq!(s.send_data(vec![1, 2, 3, 4, 5]), Ok(()));
    assert_eq!(s.poll_ready(WriteEvent::Pending), Polled::Pending);
    assert_eq!(s.poll_ready(WriteEvent::Wrote(2)), Polled::Pending);
    assert_eq!(s.unwritten(), Some(&[3u8, 4, 5][..]));
    assert_eq!(s.send_data(vec![9]), Err(SendStreamError::NotReady));
    assert_eq!(s.poll_ready(WriteEvent::Wrote(3)), Polled::Ready(Ok(())));
    assert_eq!(s.unwritten(), None);
    assert_eq!(s.send_data(vec![9]), Ok(()));
    assert_eq!(s.unwritten(), Some(&[9u8][..]));
}

#[test]
fn empty_buffer_is_ready_at_once() {
    let mut s = SendStream::new();
    assert_eq!(s.send_data(Vec::new()), Ok(()));
    assert_eq!(s.poll_ready(WriteEvent::Pending), Polled::Ready(Ok(())));
    assert_eq!(s.unwritten(), None);
}

#[test]
fn failed_write_loses_the_buffer() {
    let mut s = SendStream::new();
    assert_eq!(s.send_data(vec![1, 2]), Ok(()));
    let e = WriteError::ConnectionClosed(ConnectionError::TimedOut);
    assert_eq!(
        s.poll_ready(WriteEvent::Failed(e)),
        Polled::Ready(Err(SendStreamError::Write(e)))
    );
    assert_eq!(s.unwritten(), None);
}

#[test]
fn finish_reports_transport_outcome() {
    let mut s = SendStream::new();
    assert_eq!(s.poll_finish(FinishEvent::Pending), Polled::Pending);
    assert_eq!(s.poll_finish(FinishEvent::Finished), Polled::Ready(Ok(())));
    let e = WriteError::Stopped(7);
    assert_eq!(
        s.poll_finish(FinishEvent::Failed(e)),
        Polled::Ready(Err(SendStreamError::from_write(e)))
    );
}

#[test]
fn reset_clamps_code_and_keeps_buffer() {
    let mut s = SendStream::new();
    assert_eq!(s.send_data(vec![1]), Ok(()));
    assert_eq!(s.reset(5), 5);
    assert_eq!(s.reset(u64::MAX), (1u64 << 62) - 1);
    assert_eq!(s.unwritten(), Some(&[1u8][..]));
}
