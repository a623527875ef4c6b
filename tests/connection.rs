use h3_quinn::bidi::BidiStream;
use h3_quinn::code::{clamp_code, VARINT_MAX};
use h3_quinn::connection::{AcceptEvent, Connection, OpenEvent, OpenStep};
use h3_quinn::error::ConnectionError;
use h3_quinn::poll::Polled;
use h3_quinn::recv::ReadEvent;
use h3_quinn::send::WriteEvent;

#[test]
fn pending_open_is_issued_once() {
    let mut conn = Connection::new();
    let mut issued = 0;
    for _ in 0..5 {
        if conn.begin_open_bidi_stream() == OpenStep::Issue {
            issued += 1;
        }
        assert!(matches!(conn.poll_open_bidi_stream(OpenEvent::Pending), Polled::Pending));
    }
    assert_eq!(issued, 1);
    assert_eq!(conn.begin_open_bidi_stream(), OpenStep::Resume);
    assert!(matches!(conn.poll_open_bidi_stream(OpenEvent::Opened), Polled::Ready(Ok(_))));
    // Once the stream is open the next request issues a new operation.
    assert_eq!(conn.begin_open_bidi_stream(), OpenStep::Issue);
}

#[test]
fn uni_and_bidi_opens_are_independent() {
    let mut conn = Connection::new();
    assert_eq!(conn.begin_open_bidi_stream(), OpenStep::Issue);
    assert_eq!(conn.begin_open_send_stream(), OpenStep::Issue);
    assert!(matches!(conn.poll_open_send_stream(OpenEvent::Pending), Polled::Pending));
    assert_eq!(conn.begin_open_send_stream(), OpenStep::Resume);
    let e = ConnectionError::LocallyClosed;
    assert!(matches!(
        conn.poll_open_send_stream(OpenEvent::Failed(e)),
        Polled::Ready(Err(ConnectionError::LocallyClosed))
    ));
    assert_eq!(conn.begin_open_send_stream(), OpenStep::Issue);
    assert_eq!(conn.begin_open_bidi_stream(), OpenStep::Resume);
}

#[test]
fn opened_send_stream_is_fresh() {
    let mut conn = Connection::new();
    assert_eq!(conn.begin_open_send_stream(), OpenStep::Issue);
    match conn.poll_open_send_stream(OpenEvent::Opened) {
        Polled::Ready(Ok(s)) => assert_eq!(s.unwritten(), None),
        _ => panic!("stream not opened"),
    }
}

#[test]
fn accept_maps_source_outcomes() {
    let mut conn = Connection::new();
    assert!(matches!(conn.poll_accept_bidi_stream(AcceptEvent::Pending), Polled::Pending));
    assert!(matches!(
        conn.poll_accept_bidi_stream(AcceptEvent::Exhausted),
        Polled::Ready(Ok(None))
    ));
    assert!(matches!(
        conn.poll_accept_bidi_stream(AcceptEvent::Failed(ConnectionError::Reset)),
        Polled::Ready(Err(ConnectionError::Reset))
    ));
    match conn.poll_accept_recv_stream(AcceptEvent::Accepted) {
        Polled::Ready(Ok(Some(r))) => {
            assert_eq!(r.offset(), 0);
            assert_eq!(r.buffered(), 0);
        }
        _ => panic!("stream not accepted"),
    }
    assert!(matches!(
        conn.poll_accept_recv_stream(AcceptEvent::Failed(ConnectionError::ApplicationClosed(9))),
        Polled::Ready(Err(ConnectionError::ApplicationClosed(9)))
    ));
}

#[test]
fn split_halves_are_independent() {
    let mut b = BidiStream::new();
    assert_eq!(b.poll_data(ReadEvent::Chunk(vec![1, 2], 0)), Polled::Ready(Ok(Some(vec![1, 2]))));
    assert_eq!(b.send_data(vec![7]), Ok(()));
    assert_eq!(b.reset(3), 3);
    assert_eq!(b.poll_data(ReadEvent::Chunk(vec![3], 2)), Polled::Ready(Ok(Some(vec![3]))));
    let (mut send, mut recv) = b.split();
    assert_eq!(send.reset(4), 4);
    assert_eq!(recv.poll_data(ReadEvent::Chunk(vec![4, 5], 3)), Polled::Ready(Ok(Some(vec![4, 5]))));
    assert_eq!(recv.stop_sending(1), 1);
    assert_eq!(send.unwritten(), Some(&[7u8][..]));
    assert_eq!(send.poll_ready(WriteEvent::Wrote(1)), Polled::Ready(Ok(())));
}

#[test]
fn bidi_stop_sending_keeps_send_half() {
    let mut b = BidiStream::new();
    assert_eq!(b.send_data(vec![1, 2]), Ok(()));
    assert_eq!(b.stop_sending(u64::MAX), VARINT_MAX);
    assert_eq!(b.poll_ready(WriteEvent::Wrote(2)), Polled::Ready(Ok(())));
    assert_eq!(b.poll_finish(h3_quinn::send::FinishEvent::Finished), Polled::Ready(Ok(())));
}

#[test]
fn clamp_code_bounds() {
    assert_eq!(clamp_code(0), 0);
    assert_eq!(clamp_code(VARINT_MAX), VARINT_MAX);
    assert_eq!(clamp_code(VARINT_MAX + 1), VARINT_MAX);
}
