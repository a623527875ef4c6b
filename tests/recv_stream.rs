use h3_quinn::error::{ReadCause, ReadError};
use h3_quinn::poll::Polled;
use h3_quinn::recv::{ReadEvent, RecvStream};

fn bytes(from: u8, to: u8) -> Vec<u8> {
    (from..to).collect()
}

fn chunk(from: u8, to: u8) -> ReadEvent {
    ReadEvent::Chunk(bytes(from, to), from as u64)
}

fn got(v: Vec<u8>) -> Polled<Result<Option<Vec<u8>>, ReadError>> {
    Polled::Ready(Ok(Some(v)))
}

#[test]
fn in_order_chunks_then_end() {
    let mut s = RecvStream::new();
    assert_eq!(s.poll_data(chunk(0, 10)), got(bytes(0, 10)));
    assert_eq!(s.poll_data(chunk(10, 20)), got(bytes(10, 20)));
    assert_eq!(s.poll_data(ReadEvent::Finished), Polled::Ready(Ok(None)));
    assert_eq!(s.offset(), 20);
}

#[test]
fn out_of_order_chunk_is_held_then_drained() {
    let mut s = RecvStream::new();
    assert_eq!(s.poll_data(chunk(10, 20)), Polled::Pending);
    assert_eq!(s.buffered(), 1);
    assert_eq!(s.poll_data(chunk(0, 10)), got(bytes(0, 10)));
    // The held chunk comes out without a new read.
    assert_eq!(s.poll_data(ReadEvent::Pending), got(bytes(10, 20)));
    assert_eq!(s.buffered(), 0);
    assert_eq!(s.poll_data(ReadEvent::Finished), Polled::Ready(Ok(None)));
}

#[test]
fn any_arrival_order_reassembles_the_stream() {
    let mut s = RecvStream::new();
    let mut out: Vec<u8> = Vec::new();
    let arrivals = vec![chunk(30, 40), chunk(10, 20), chunk(20, 30), chunk(0, 10)];
    for ev in arrivals {
        if let Polled::Ready(Ok(Some(b))) = s.poll_data(ev) {
            out.extend(b);
        }
    }
    for _ in 0..4 {
        if let Polled::Ready(Ok(Some(b))) = s.poll_data(ReadEvent::Pending) {
            out.extend(b);
        }
    }
    assert_eq!(out, bytes(0, 40));
    assert_eq!(s.offset(), 40);
    assert_eq!(s.buffered(), 0);
}

#[test]
fn overlapping_chunk_is_trimmed_to_cursor() {
    let mut s = RecvStream::new();
    assert_eq!(s.poll_data(chunk(0, 10)), got(bytes(0, 10)));
    assert_eq!(s.poll_data(chunk(5, 15)), got(bytes(10, 15)));
    assert_eq!(s.offset(), 15);
}

#[test]
fn chunk_below_cursor_yields_nothing() {
    let mut s = RecvStream::new();
    assert_eq!(s.poll_data(chunk(0, 10)), got(bytes(0, 10)));
    assert_eq!(s.poll_data(chunk(2, 6)), got(Vec::new()));
    assert_eq!(s.offset(), 10);
    assert_eq!(s.poll_data(chunk(0, 10)), got(Vec::new()));
    assert_eq!(s.offset(), 10);
}

#[test]
fn end_of_stream_still_drains_held_chunk() {
    let mut s = RecvStream::new();
    assert_eq!(s.poll_data(chunk(0, 4)), got(bytes(0, 4)));
    assert_eq!(s.poll_data(chunk(4, 8)), got(bytes(4, 8)));
    assert_eq!(s.poll_data(chunk(12, 16)), Polled::Pending);
    assert_eq!(s.poll_data(chunk(8, 12)), got(bytes(8, 12)));
    assert_eq!(s.poll_data(ReadEvent::Finished), got(bytes(12, 16)));
    assert_eq!(s.poll_data(ReadEvent::Finished), Polled::Ready(Ok(None)));
}

#[test]
fn held_overlapping_chunk_is_trimmed_when_drained() {
    let mut s = RecvStream::new();
    assert_eq!(s.poll_data(chunk(5, 12)), Polled::Pending);
    assert_eq!(s.poll_data(chunk(0, 8)), got(bytes(0, 8)));
    assert_eq!(s.poll_data(ReadEvent::Pending), got(bytes(8, 12)));
    assert_eq!(s.offset(), 12);
}

#[test]
fn chunk_with_same_start_replaces_held_one() {
    let mut s = RecvStream::new();
    assert_eq!(s.poll_data(chunk(10, 12)), Polled::Pending);
    assert_eq!(s.poll_data(chunk(10, 20)), Polled::Pending);
    assert_eq!(s.buffered(), 1);
    assert_eq!(s.poll_data(chunk(0, 10)), got(bytes(0, 10)));
    assert_eq!(s.poll_data(ReadEvent::Pending), got(bytes(10, 20)));
}

#[test]
fn held_chunks_come_out_in_offset_order() {
    let mut s = RecvStream::new();
    assert_eq!(s.poll_data(chunk(20, 30)), Polled::Pending);
    assert_eq!(s.poll_data(chunk(10, 20)), Polled::Pending);
    assert_eq!(s.buffered(), 2);
    assert_eq!(s.poll_data(chunk(0, 10)), got(bytes(0, 10)));
    assert_eq!(s.poll_data(ReadEvent::Pending), got(bytes(10, 20)));
    assert_eq!(s.poll_data(ReadEvent::Pending), got(bytes(20, 30)));
    assert_eq!(s.poll_data(ReadEvent::Pending), Polled::Pending);
}

#[test]
fn nothing_available_is_pending() {
    let mut s = RecvStream::new();
    assert_eq!(s.poll_data(ReadEvent::Pending), Polled::Pending);
    assert_eq!(s.offset(), 0);
}

#[test]
fn read_error_is_reported_and_drops_held_chunks() {
    let mut s = RecvStream::new();
    assert_eq!(s.poll_data(chunk(10, 20)), Polled::Pending);
    let e = ReadError::from_cause(ReadCause::Reset(3));
    assert_eq!(s.poll_data(ReadEvent::Failed(e)), Polled::Ready(Err(e)));
    assert_eq!(s.buffered(), 0);
    assert_eq!(s.offset(), 0);
}

#[test]
fn read_error_keeps_its_cause() {
    let e = ReadError::from_cause(ReadCause::UnknownStream);
    assert_eq!(e.cause, ReadCause::UnknownStream);
    assert_eq!(e.message(), "unknown stream");
}

#[test]
fn stop_sending_clamps_error_code() {
    let mut s = RecvStream::new();
    assert_eq!(s.stop_sending(42), 42);
    assert_eq!(s.stop_sending(u64::MAX), (1u64 << 62) - 1);
    assert_eq!(s.stop_sending(1u64 << 62), (1u64 << 62) - 1);
    assert_eq!(s.stop_sending((1u64 << 62) - 1), (1u64 << 62) - 1);
}
