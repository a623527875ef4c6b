//! The receive side of a stream: chunks that the transport delivers in any order
//! are handed to the caller as one contiguous byte sequence.
use vstd::prelude::*;

use crate::code::{clamp_code, wire_code};
use crate::error::ReadError;
use crate::poll::Polled;

verus! {

/// What one unordered read on the transport stream produced.
pub enum ReadEvent {
    /// No chunk is available yet.
    Pending,
    /// The peer finished the stream: no chunk will ever come again.
    Finished,
    /// The read failed.
    Failed(ReadError),
    /// A chunk of bytes, with the stream offset of its first byte.
    Chunk(Vec<u8>, u64),
}

impl ReadEvent {
    /// A chunk's end offset fits in 64 bits (transport offsets stay below 2^62).
    pub open spec fn fits(&self) -> bool {
        match self {
            ReadEvent::Chunk(data, start) => *start as int + data@.len() <= u64::MAX as int,
            _ => true,
        }
    }
}

/// The abstract state of a receive stream.
pub struct RecvView {
    /// How many bytes have been handed to the caller so far.
    pub offset: u64,
    /// Chunks held back because they start past `offset`, by start offset.
    pub chunks: Seq<(u64, Seq<u8>)>,
}

/// The buffered chunks are ordered by strictly increasing start offset, and each
/// one ends at an offset that fits in 64 bits.
pub open spec fn chunks_wf(chunks: Seq<(u64, Seq<u8>)>) -> bool {
    &&& forall|i: int, j: int| 0 <= i < j < chunks.len() ==> chunks[i].0 < chunks[j].0
    &&& forall|i: int|
        0 <= i < chunks.len() ==> chunks[i].0 as int + chunks[i].1.len() <= u64::MAX as int
}

/// The part of a chunk starting at `start` that lies at or past `cursor`
/// (which is at least `start`); empty when the whole chunk lies below it.
pub open spec fn trimmed(data: Seq<u8>, start: u64, cursor: u64) -> Seq<u8> {
    if start as int + data.len() <= cursor as int {
        Seq::empty()
    } else {
        data.subrange(cursor - start, data.len() as int)
    }
}

/// `i` is where a chunk starting at `start` belongs among the ordered `chunks`.
pub open spec fn is_slot(chunks: Seq<(u64, Seq<u8>)>, start: u64, i: int) -> bool {
    &&& 0 <= i <= chunks.len()
    &&& forall|j: int| 0 <= j < i ==> chunks[j].0 < start
    &&& i == chunks.len() || chunks[i].0 >= start
}

pub open spec fn slot(chunks: Seq<(u64, Seq<u8>)>, start: u64) -> int {
    choose|i: int| is_slot(chunks, start, i)
}

/// Buffers a chunk in order of start offset; it replaces a chunk with the same start.
pub open spec fn insert_chunk(chunks: Seq<(u64, Seq<u8>)>, start: u64, data: Seq<u8>) -> Seq<
    (u64, Seq<u8>),
> {
    let i = slot(chunks, start);
    if i < chunks.len() && chunks[i].0 == start {
        chunks.update(i, (start, data))
    } else {
        chunks.insert(i, (start, data))
    }
}

/// Hands out the chunk at `start` (at or below the cursor) trimmed to the cursor,
/// keeping `rest` buffered.
pub open spec fn deliver(
    s: RecvView,
    start: u64,
    data: Seq<u8>,
    rest: Seq<(u64, Seq<u8>)>,
) -> (RecvView, Polled<Result<Option<Seq<u8>>, ReadError>>) {
    let out = trimmed(data, start, s.offset);
    (RecvView { offset: (s.offset + out.len()) as u64, chunks: rest }, Polled::Ready(Ok(Some(out))))
}

/// One poll of a receive stream, given what the transport read produced.
///
/// A read error is reported at once and drops what was buffered. A chunk that
/// starts at or below the cursor is trimmed to it and handed out at once. A chunk
/// past the cursor is buffered. Then, if the first buffered chunk starts at or
/// below the cursor, it is handed out instead of what the read alone gave: nothing
/// yet, or the end of the stream.
pub open spec fn poll_step(s: RecvView, ev: ReadEvent) -> (
    RecvView,
    Polled<Result<Option<Seq<u8>>, ReadError>>,
) {
    match ev {
        ReadEvent::Failed(e) => (RecvView { offset: s.offset, chunks: Seq::empty() }, Polled::Ready(Err(e))),
        ReadEvent::Chunk(data, start) if start <= s.offset => deliver(s, start, data@, s.chunks),
        _ => {
            let (chunks, read) = match ev {
                ReadEvent::Chunk(data, start) => (
                    insert_chunk(s.chunks, start, data@),
                    Polled::Pending,
                ),
                ReadEvent::Finished => (s.chunks, Polled::Ready(Ok(None))),
                _ => (s.chunks, Polled::Pending),
            };
            if chunks.len() > 0 && chunks[0].0 <= s.offset {
                deliver(s, chunks[0].0, chunks[0].1, chunks.drop_first())
            } else {
                (RecvView { offset: s.offset, chunks }, read)
            }
        },
    }
}

/// The abstract value of what `poll_data` returns.
pub open spec fn data_view(r: Polled<Result<Option<Vec<u8>>, ReadError>>) -> Polled<
    Result<Option<Seq<u8>>, ReadError>,
> {
    match r {
        Polled::Pending => Polled::Pending,
        Polled::Ready(Err(e)) => Polled::Ready(Err(e)),
        Polled::Ready(Ok(None)) => Polled::Ready(Ok(None)),
        Polled::Ready(Ok(Some(v))) => Polled::Ready(Ok(Some(v@))),
    }
}

/// The bytes that a poll handed out: none unless it returned a chunk.
pub open spec fn yielded(r: Polled<Result<Option<Seq<u8>>, ReadError>>) -> Seq<u8> {
    match r {
        Polled::Ready(Ok(Some(b))) => b,
        _ => Seq::empty(),
    }
}

/// The state agrees with the stream's full contents `source`: the cursor lies
/// within it and every buffered chunk holds the bytes of `source` at its offset.
pub open spec fn agrees_with(s: RecvView, source: Seq<u8>) -> bool {
    &&& s.offset <= source.len()
    &&& forall|i: int|
        0 <= i < s.chunks.len() ==> s.chunks[i].0 as int + s.chunks[i].1.len() <= source.len()
            && s.chunks[i].1 == source.subrange(
            s.chunks[i].0 as int,
            s.chunks[i].0 as int + s.chunks[i].1.len(),
        )
}

/// A read event that the stream with contents `source` can produce: a chunk
/// holds the bytes of `source` at its offset.
pub open spec fn drawn_from(ev: ReadEvent, source: Seq<u8>) -> bool {
    match ev {
        ReadEvent::Chunk(data, start) => start as int + data@.len() <= source.len()
            && data@ == source.subrange(start as int, start as int + data@.len()),
        _ => true,
    }
}

/// Runs polls over a sequence of read events; gives the final state and all the
/// bytes handed out, one after the other.
pub open spec fn run(s: RecvView, events: Seq<ReadEvent>) -> (RecvView, Seq<u8>)
    decreases events.len(),
{
    if events.len() == 0 {
        (s, Seq::empty())
    } else {
        let (t, r) = poll_step(s, events[0]);
        let (u, out) = run(t, events.drop_first());
        (u, yielded(r) + out)
    }
}

proof fn lemma_slot_exists(chunks: Seq<(u64, Seq<u8>)>, start: u64)
    ensures
        is_slot(chunks, start, slot(chunks, start)),
    decreases chunks.len(),
{
    if chunks.len() == 0 {
        assert(is_slot(chunks, start, 0));
    } else {
        let init = chunks.drop_last();
        lemma_slot_exists(init, start);
        let k = slot(init, start);
        if k < init.len() {
            assert(init[k] == chunks[k]);
            assert forall|j: int| 0 <= j < k implies chunks[j].0 < start by {
                assert(init[j] == chunks[j]);
            }
            assert(is_slot(chunks, start, k));
        } else {
            assert forall|j: int| 0 <= j < k implies chunks[j].0 < start by {
                assert(init[j] == chunks[j]);
            }
            if chunks.last().0 >= start {
                assert(is_slot(chunks, start, k));
            } else {
                assert(is_slot(chunks, start, chunks.len() as int));
            }
        }
    }
}

pub(crate) proof fn lemma_insert_chunk(chunks: Seq<(u64, Seq<u8>)>, start: u64, data: Seq<u8>)
    requires
        chunks_wf(chunks),
        start as int + data.len() <= u64::MAX as int,
    ensures
        chunks_wf(insert_chunk(chunks, start, data)),
        forall|j: int|
            0 <= j < insert_chunk(chunks, start, data).len() ==> insert_chunk(chunks, start, data)[j]
                == (start, data) || chunks.contains(insert_chunk(chunks, start, data)[j]),
        insert_chunk(chunks, start, data).contains((start, data)),
        forall|j: int|
            0 <= j < chunks.len() && chunks[j].0 != start ==> insert_chunk(
                chunks,
                start,
                data,
            ).contains(#[trigger] chunks[j]),
{
    lemma_slot_exists(chunks, start);
    let i = slot(chunks, start);
    let r = insert_chunk(chunks, start, data);
    if i < chunks.len() && chunks[i].0 == start {
        assert(r[i] == (start, data));
        assert forall|j: int| 0 <= j < r.len() && j != i implies chunks.contains(r[j]) by {
            assert(r[j] == chunks[j]);
        }
        assert forall|j: int| 0 <= j < chunks.len() && chunks[j].0 != start implies r.contains(
            #[trigger] chunks[j],
        ) by {
            assert(r[j] == chunks[j]);
        }
    } else {
        assert(r[i] == (start, data));
        assert forall|j: int| 0 <= j < chunks.len() && chunks[j].0 != start implies r.contains(
            #[trigger] chunks[j],
        ) by {
            if j < i {
                assert(r[j] == chunks[j]);
            } else {
                assert(r[j + 1] == chunks[j]);
            }
        }
        assert forall|j: int| 0 <= j < r.len() && j != i implies chunks.contains(r[j]) by {
            if j < i {
                assert(r[j] == chunks[j]);
            } else {
                assert(r[j] == chunks[j - 1]);
            }
        }
        assert forall|a: int, b: int| 0 <= a < b < r.len() implies r[a].0 < r[b].0 by {
            if b < i {
            } else if b == i {
            } else if a < i {
                assert(chunks[a].0 < start);
                assert(r[b] == chunks[b - 1]);
            } else if a == i {
                assert(r[b] == chunks[b - 1]);
                assert(chunks[i].0 >= start);
                assert(chunks[i].0 != start);
            } else {
            }
        }
    }
}

proof fn lemma_agrees_after_insert(s: RecvView, start: u64, data: Seq<u8>, source: Seq<u8>)
    requires
        chunks_wf(s.chunks),
        agrees_with(s, source),
        start as int + data.len() <= source.len(),
        source.len() <= u64::MAX,
        data == source.subrange(start as int, start as int + data.len()),
    ensures
        agrees_with(RecvView { offset: s.offset, chunks: insert_chunk(s.chunks, start, data) }, source),
        chunks_wf(insert_chunk(s.chunks, start, data)),
{
    lemma_insert_chunk(s.chunks, start, data);
    let r = insert_chunk(s.chunks, start, data);
    assert forall|j: int| 0 <= j < r.len() implies r[j].0 as int + r[j].1.len() <= source.len()
        && r[j].1 == source.subrange(r[j].0 as int, r[j].0 as int + r[j].1.len()) by {
        if r[j] != (start, data) {
            let k = choose|k: int| 0 <= k < s.chunks.len() && s.chunks[k] == r[j];
        }
    }
}

/// Each poll hands out exactly the bytes of the stream that follow those handed
/// out before, whatever order the chunks arrive in, and keeps the state in
/// agreement with the stream's contents.
pub proof fn lemma_poll_hands_out_next_bytes(s: RecvView, ev: ReadEvent, source: Seq<u8>)
    requires
        chunks_wf(s.chunks),
        source.len() <= u64::MAX,
        agrees_with(s, source),
        drawn_from(ev, source),
    ensures
        chunks_wf(poll_step(s, ev).0.chunks),
        agrees_with(poll_step(s, ev).0, source),
        s.offset <= poll_step(s, ev).0.offset,
        yielded(poll_step(s, ev).1) == source.subrange(
            s.offset as int,
            poll_step(s, ev).0.offset as int,
        ),
{
    let (t, r) = poll_step(s, ev);
    match ev {
        ReadEvent::Failed(e) => {
            assert(yielded(r) =~= source.subrange(s.offset as int, t.offset as int));
        },
        ReadEvent::Chunk(data, start) => {
            if start <= s.offset {
                assert(yielded(r) =~= source.subrange(s.offset as int, t.offset as int));
            } else {
                lemma_agrees_after_insert(s, start, data@, source);
                let mid = insert_chunk(s.chunks, start, data@);
                if mid.len() > 0 && mid[0].0 <= s.offset {
                    lemma_drain(s, mid, source);
                } else {
                    assert(yielded(r) =~= source.subrange(s.offset as int, t.offset as int));
                }
            }
        },
        _ => {
            if s.chunks.len() > 0 && s.chunks[0].0 <= s.offset {
                lemma_drain(s, s.chunks, source);
            } else {
                assert(yielded(r) =~= source.subrange(s.offset as int, t.offset as int));
            }
        },
    }
}

proof fn lemma_drain(s: RecvView, mid: Seq<(u64, Seq<u8>)>, source: Seq<u8>)
    requires
        chunks_wf(mid),
        source.len() <= u64::MAX,
        agrees_with(RecvView { offset: s.offset, chunks: mid }, source),
        mid.len() > 0 && mid[0].0 <= s.offset,
    ensures
        ({
            let (t, r) = deliver(s, mid[0].0, mid[0].1, mid.drop_first());
            &&& chunks_wf(t.chunks)
            &&& agrees_with(t, source)
            &&& s.offset <= t.offset
            &&& yielded(r) == source.subrange(s.offset as int, t.offset as int)
        }),
{
    let (t, r) = deliver(s, mid[0].0, mid[0].1, mid.drop_first());
    let rest = mid.drop_first();
    assert forall|j: int| 0 <= j < rest.len() implies rest[j] == mid[j + 1] by {}
    let v = RecvView { offset: s.offset, chunks: mid };
    assert(v.chunks[0].0 as int + v.chunks[0].1.len() <= source.len());
    assert(mid[0].1 == source.subrange(mid[0].0 as int, mid[0].0 as int + mid[0].1.len()));
    assert(yielded(r) =~= source.subrange(s.offset as int, t.offset as int));
}

/// Over any sequence of polls, whatever order the chunks of the stream arrive
/// in, the bytes handed out one after the other are exactly the stream's bytes
/// from the starting cursor up to the final one: in order, with no gap and no
/// byte twice.
pub proof fn lemma_reassembly_in_order(s: RecvView, events: Seq<ReadEvent>, source: Seq<u8>)
    requires
        chunks_wf(s.chunks),
        source.len() <= u64::MAX,
        agrees_with(s, source),
        forall|i: int| 0 <= i < events.len() ==> drawn_from(#[trigger] events[i], source),
    ensures
        s.offset <= run(s, events).0.offset,
        agrees_with(run(s, events).0, source),
        run(s, events).1 == source.subrange(s.offset as int, run(s, events).0.offset as int),
    decreases events.len(),
{
    if events.len() > 0 {
        lemma_poll_hands_out_next_bytes(s, events[0], source);
        let (t, r) = poll_step(s, events[0]);
        let rest = events.drop_first();
        assert forall|i: int| 0 <= i < rest.len() implies drawn_from(#[trigger] rest[i], source) by {
            assert(rest[i] == events[i + 1]);
        }
        lemma_reassembly_in_order(t, rest, source);
        let (u, out) = run(t, rest);
        assert(run(s, events).1 =~= source.subrange(s.offset as int, u.offset as int));
    }
}

/// A chunk that starts below the cursor and reaches past it hands out exactly its
/// bytes from the cursor on; one that lies wholly below the cursor hands out
/// nothing and leaves the cursor and the buffer as they were.
pub proof fn lemma_overlap_trimmed(s: RecvView, data: Vec<u8>, start: u64)
    requires
        start < s.offset,
        start as int + data@.len() <= u64::MAX as int,
    ensures
        start as int + data@.len() > s.offset ==> poll_step(s, ReadEvent::Chunk(data, start))
            == (RecvView { offset: (start + data@.len()) as u64, chunks: s.chunks }, Polled::<
            Result<Option<Seq<u8>>, ReadError>,
        >::Ready(Ok(Some(data@.subrange(s.offset - start, data@.len() as int))))),
        start as int + data@.len() <= s.offset ==> poll_step(s, ReadEvent::Chunk(data, start))
            == (s, Polled::<Result<Option<Seq<u8>>, ReadError>>::Ready(Ok(Some(Seq::empty())))),
{
}

/// The receive half of a stream.
pub struct RecvStream {
    offset: u64,
    chunks: Vec<(u64, Vec<u8>)>,
}

pub open spec fn chunk_view(c: (u64, Vec<u8>)) -> (u64, Seq<u8>) {
    (c.0, c.1@)
}

impl View for RecvStream {
    type V = RecvView;

    closed spec fn view(&self) -> RecvView {
        RecvView { offset: self.offset, chunks: self.chunks@.map_values(|c| chunk_view(c)) }
    }
}

proof fn lemma_slot_unique(chunks: Seq<(u64, Seq<u8>)>, start: u64, i: int)
    requires
        is_slot(chunks, start, i),
    ensures
        slot(chunks, start) == i,
{
    let j = slot(chunks, start);
    assert(is_slot(chunks, start, j));
    if j < i {
        assert(chunks[j].0 < start);
    } else if i < j {
        assert(chunks[i].0 < start);
    }
}

impl RecvStream {
    pub closed spec fn wf(&self) -> bool {
        chunks_wf(self@.chunks)
    }

    /// Well formed, with nothing read and nothing buffered.
    pub open spec fn is_fresh(&self) -> bool {
        self.wf() && self@.offset == 0 && self@.chunks.len() == 0
    }

    /// A stream from which nothing has been read yet.
    pub fn new() -> (r: RecvStream)
        ensures
            r.is_fresh(),
    {
        let r = RecvStream { offset: 0, chunks: Vec::new() };
        assert(r@.chunks =~= Seq::empty());
        r
    }

    /// How many bytes have been handed out so far.
    pub fn offset(&self) -> (r: u64)
        ensures
            r == self@.offset,
    {
        self.offset
    }

    /// How many chunks are held back, waiting for the bytes before them.
    pub fn buffered(&self) -> (r: usize)
        ensures
            r == self@.chunks.len(),
    {
        self.chunks.len()
    }

    /// Trims a chunk at or below the cursor and moves the cursor past it.
    fn take(&mut self, data: Vec<u8>, start: u64) -> (r: Vec<u8>)
        requires
            start <= old(self).offset,
            start as int + data@.len() <= u64::MAX as int,
        ensures
            r@ == trimmed(data@, start, old(self).offset),
            final(self).offset == old(self).offset + r@.len(),
            final(self).chunks == old(self).chunks,
    {
        let skip: u64 = self.offset - start;
        let len: u64 = data.len() as u64;
        let mut out: Vec<u8> = Vec::new();
        if skip < len {
            let mut i: usize = skip as usize;
            while i < data.len()
                invariant
                    skip <= i <= data@.len(),
                    out@ == data@.subrange(skip as int, i as int),
                decreases data@.len() - i,
            {
                out.push(data[i]);
                i = i + 1;
            }
            self.offset = start + len;
        }
        out
    }

    /// Buffers a chunk that starts past the cursor.
    fn hold(&mut self, start: u64, data: Vec<u8>)
        requires
            old(self).wf(),
            start as int + data@.len() <= u64::MAX as int,
        ensures
            final(self).wf(),
            final(self).offset == old(self).offset,
            final(self)@.chunks == insert_chunk(old(self)@.chunks, start, data@),
    {
        let ghost before = self@.chunks;
        let mut i: usize = 0;
        while i < self.chunks.len() && self.chunks[i].0 < start
            invariant
                0 <= i <= self.chunks@.len(),
                self@.chunks == before,
                forall|j: int| 0 <= j < i ==> before[j].0 < start,
            decreases self.chunks@.len() - i,
        {
            i = i + 1;
        }
        proof {
            lemma_slot_unique(before, start, i as int);
        }
        if i < self.chunks.len() && self.chunks[i].0 == start {
            self.chunks.set(i, (start, data));
        } else {
            self.chunks.insert(i, (start, data));
        }
        assert(self@.chunks =~= insert_chunk(before, start, data@));
    }

    /// Polls for the next bytes of the stream, given what one unordered read on
    /// the transport produced: the next bytes after those already handed out, the
    /// end of the stream, nothing yet, or the read's error.
    pub fn poll_data(&mut self, event: ReadEvent) -> (r: Polled<Result<Option<Vec<u8>>, ReadError>>)
        requires
            old(self).wf(),
            event.fits(),
        ensures
            final(self).wf(),
            (final(self)@, data_view(r)) == poll_step(old(self)@, event),
    {
        let read = match event {
            ReadEvent::Failed(e) => {
                self.chunks = Vec::new();
                assert(self@.chunks =~= Seq::empty());
                return Polled::Ready(Err(e));
            },
            ReadEvent::Chunk(data, start) => {
                if start <= self.offset {
                    let out = self.take(data, start);
                    return Polled::Ready(Ok(Some(out)));
                }
                self.hold(start, data);
                Polled::Pending
            },
            ReadEvent::Finished => Polled::Ready(Ok(None)),
            ReadEvent::Pending => Polled::Pending,
        };
        if self.chunks.len() > 0 && self.chunks[0].0 <= self.offset {
            let ghost mid = self@.chunks;
            assert(mid[0].0 as int + mid[0].1.len() <= u64::MAX as int);
            assert(mid[0] == chunk_view(self.chunks@[0]));
            let (start, data) = self.chunks.remove(0);
            assert(self@.chunks =~= mid.drop_first());
            let out = self.take(data, start);
            return Polled::Ready(Ok(Some(out)));
        }
        read
    }

    /// Asks the peer to stop sending on this stream; returns the error code to
    /// send, clamped to what the wire can carry. Nothing buffered changes.
    pub fn stop_sending(&mut self, error_code: u64) -> (r: u64)
        ensures
            r == wire_code(error_code),
            final(self)@ == old(self)@,
            final(self).wf() == old(self).wf(),
    {
        clamp_code(error_code)
    }
}

} // verus!
