//! Completeness of reassembly: when the chunks of a stream all arrive, in any
//! order, enough polls hand out the whole stream.
use vstd::prelude::*;

use crate::recv::{
    chunks_wf, deliver, drawn_from, insert_chunk, lemma_insert_chunk, lemma_reassembly_in_order,
    poll_step, run, trimmed, ReadEvent, RecvView,
};

verus! {

/// `bounds` cuts the bytes `[0, n)` into non-empty consecutive parts: part `j`
/// covers `[bounds[j], bounds[j + 1])`.
pub open spec fn tiles(bounds: Seq<u64>, n: int) -> bool {
    &&& bounds.len() >= 1
    &&& bounds[0] == 0
    &&& bounds.last() == n
    &&& forall|i: int, j: int| 0 <= i < j < bounds.len() ==> bounds[i] < bounds[j]
}

/// Part `j` of the stream `source` cut by `bounds`, as a buffered chunk.
pub open spec fn part(source: Seq<u8>, bounds: Seq<u64>, j: int) -> (u64, Seq<u8>) {
    (bounds[j], source.subrange(bounds[j] as int, bounds[j + 1] as int))
}

/// `ev` is the arrival of part `j`.
pub open spec fn arrival(ev: ReadEvent, source: Seq<u8>, bounds: Seq<u64>, j: int) -> bool {
    match ev {
        ReadEvent::Chunk(data, start) => (start, data@) == part(source, bounds, j),
        _ => false,
    }
}

/// `c` is an arrived part from `p` on.
pub open spec fn arrived_part(
    c: (u64, Seq<u8>),
    source: Seq<u8>,
    bounds: Seq<u64>,
    arrived: Set<int>,
    p: int,
) -> bool {
    exists|j: int| p <= j < bounds.len() - 1 && arrived.contains(j) && c == part(source, bounds, j)
}

/// Some buffered chunk starts at `start`.
pub open spec fn buffered_at(chunks: Seq<(u64, Seq<u8>)>, start: u64) -> bool {
    exists|i: int| 0 <= i < chunks.len() && chunks[i].0 == start
}

/// Every buffered chunk is an arrived part from `p` on.
#[verifier::opaque]
pub open spec fn buffered_are_arrived(
    chunks: Seq<(u64, Seq<u8>)>,
    source: Seq<u8>,
    bounds: Seq<u64>,
    arrived: Set<int>,
    p: int,
) -> bool {
    forall|i: int| 0 <= i < chunks.len() ==> arrived_part(#[trigger] chunks[i], source, bounds, arrived, p)
}

/// Every arrived part from `p` on is buffered.
#[verifier::opaque]
pub open spec fn arrived_are_buffered(
    chunks: Seq<(u64, Seq<u8>)>,
    bounds: Seq<u64>,
    arrived: Set<int>,
    p: int,
) -> bool {
    forall|j: int|
        p <= j < bounds.len() - 1 && #[trigger] arrived.contains(j) ==> buffered_at(chunks, bounds[j])
}

/// The state of a receive stream while the parts in `arrived` have arrived: the
/// cursor ends part `p - 1`, every part before it has arrived, and the buffer
/// holds exactly the arrived parts from `p` on.
pub open spec fn holds_parts(
    s: RecvView,
    source: Seq<u8>,
    bounds: Seq<u64>,
    arrived: Set<int>,
    p: int,
) -> bool {
    &&& 0 <= p < bounds.len()
    &&& s.offset == bounds[p]
    &&& chunks_wf(s.chunks)
    &&& forall|j: int| 0 <= j < p ==> arrived.contains(j)
    &&& buffered_are_arrived(s.chunks, source, bounds, arrived, p)
    &&& arrived_are_buffered(s.chunks, bounds, arrived, p)
}

proof fn part_of(
    chunks: Seq<(u64, Seq<u8>)>,
    source: Seq<u8>,
    bounds: Seq<u64>,
    arrived: Set<int>,
    p: int,
    i: int,
) -> (j: int)
    requires
        buffered_are_arrived(chunks, source, bounds, arrived, p),
        0 <= i < chunks.len(),
    ensures
        p <= j < bounds.len() - 1,
        arrived.contains(j),
        chunks[i] == part(source, bounds, j),
{
    reveal(buffered_are_arrived);
    assert(arrived_part(chunks[i], source, bounds, arrived, p));
    choose|j: int|
        p <= j < bounds.len() - 1 && arrived.contains(j) && chunks[i] == part(source, bounds, j)
}

proof fn index_of(
    chunks: Seq<(u64, Seq<u8>)>,
    bounds: Seq<u64>,
    arrived: Set<int>,
    p: int,
    j: int,
) -> (i: int)
    requires
        arrived_are_buffered(chunks, bounds, arrived, p),
        p <= j < bounds.len() - 1,
        arrived.contains(j),
    ensures
        0 <= i < chunks.len(),
        chunks[i].0 == bounds[j],
{
    reveal(arrived_are_buffered);
    assert(buffered_at(chunks, bounds[j]));
    choose|i: int| 0 <= i < chunks.len() && chunks[i].0 == bounds[j]
}

proof fn lemma_part_facts(source: Seq<u8>, bounds: Seq<u64>, j: int)
    requires
        tiles(bounds, source.len() as int),
        0 <= j < bounds.len() - 1,
    ensures
        bounds[j] < bounds[j + 1],
        bounds[j + 1] <= source.len(),
        part(source, bounds, j).1.len() == bounds[j + 1] - bounds[j],
{
    if j + 1 < bounds.len() - 1 {
        assert(bounds[j + 1] < bounds[bounds.len() - 1]);
    }
}

/// Drains the first buffered chunk if it starts at or below the cursor.
proof fn lemma_drain_parts(
    s: RecvView,
    mid: Seq<(u64, Seq<u8>)>,
    source: Seq<u8>,
    bounds: Seq<u64>,
    arrived: Set<int>,
    p: int,
) -> (p2: int)
    requires
        source.len() <= u64::MAX,
        tiles(bounds, source.len() as int),
        holds_parts(RecvView { offset: s.offset, chunks: mid }, source, bounds, arrived, p),
    ensures
        ({
            let t = if mid.len() > 0 && mid[0].0 <= s.offset {
                deliver(s, mid[0].0, mid[0].1, mid.drop_first()).0
            } else {
                RecvView { offset: s.offset, chunks: mid }
            };
            holds_parts(t, source, bounds, arrived, p2)
        }),
        p <= p2,
        (forall|j: int| 0 <= j < bounds.len() - 1 ==> arrived.contains(j)) && p < bounds.len() - 1
            ==> p2 == p + 1,
{
    let m = bounds.len() - 1;
    if (forall|j: int| 0 <= j < m ==> arrived.contains(j)) && p < m {
        assert(arrived.contains(p));
        let i = index_of(mid, bounds, arrived, p, p);
        if i > 0 {
            assert(mid[0].0 < mid[i].0);
        }
    }
    if mid.len() > 0 && mid[0].0 <= s.offset {
        let j0 = part_of(mid, source, bounds, arrived, p, 0);
        if j0 > p {
            assert(bounds[p] < bounds[j0]);
        }
        assert(j0 == p);
        lemma_part_facts(source, bounds, p);
        let t = deliver(s, mid[0].0, mid[0].1, mid.drop_first()).0;
        assert(trimmed(mid[0].1, mid[0].0, s.offset) =~= mid[0].1);
        assert(t.offset == bounds[p + 1]);
        let rest = mid.drop_first();
        assert forall|i: int| 0 <= i < rest.len() implies rest[i] == mid[i + 1] by {}
        assert(chunks_wf(rest));
        assert(buffered_are_arrived(rest, source, bounds, arrived, p + 1)) by {
            reveal(buffered_are_arrived);
            assert forall|i: int| 0 <= i < rest.len() implies arrived_part(
                #[trigger] rest[i],
                source,
                bounds,
                arrived,
                p + 1,
            ) by {
                let j = part_of(mid, source, bounds, arrived, p, i + 1);
                assert(mid[0].0 < mid[i + 1].0);
                assert(rest[i] == part(source, bounds, j));
                assert(p + 1 <= j);
            }
        }
        assert(arrived_are_buffered(rest, bounds, arrived, p + 1)) by {
            reveal(arrived_are_buffered);
            assert forall|j: int| p + 1 <= j < m && #[trigger] arrived.contains(j) implies buffered_at(
                rest,
                bounds[j],
            ) by {
                let i = index_of(mid, bounds, arrived, p, j);
                assert(bounds[p] < bounds[j]);
                assert(i != 0);
                assert(rest[i - 1] == mid[i]);
                assert(rest[i - 1].0 == bounds[j]);
            }
        }
        p + 1
    } else {
        p
    }
}

/// One poll that sees part `q` arrive.
proof fn lemma_arrival_step(
    s: RecvView,
    ev: ReadEvent,
    source: Seq<u8>,
    bounds: Seq<u64>,
    arrived: Set<int>,
    p: int,
    q: int,
) -> (p2: int)
    requires
        source.len() <= u64::MAX,
        tiles(bounds, source.len() as int),
        holds_parts(s, source, bounds, arrived, p),
        0 <= q < bounds.len() - 1,
        !arrived.contains(q),
        arrival(ev, source, bounds, q),
    ensures
        holds_parts(poll_step(s, ev).0, source, bounds, arrived.insert(q), p2),
        p <= p2,
{
    let m = bounds.len() - 1;
    let arrived2 = arrived.insert(q);
    lemma_part_facts(source, bounds, q);
    let (start, data) = part(source, bounds, q);
    if q < p {
        assert(arrived.contains(q));
    }
    assert forall|j: int| 0 <= j < p implies arrived2.contains(j) by {
        assert(arrived.contains(j));
    }
    if start <= s.offset {
        if q > p {
            assert(bounds[p] < bounds[q]);
        }
        assert(q == p);
        let t = poll_step(s, ev).0;
        assert(trimmed(data, start, s.offset) =~= data);
        assert(t.offset == bounds[p + 1]);
        assert(t.chunks == s.chunks);
        assert(buffered_are_arrived(t.chunks, source, bounds, arrived2, p + 1)) by {
            reveal(buffered_are_arrived);
            assert forall|i: int| 0 <= i < t.chunks.len() implies arrived_part(
                #[trigger] t.chunks[i],
                source,
                bounds,
                arrived2,
                p + 1,
            ) by {
                let j = part_of(s.chunks, source, bounds, arrived, p, i);
                assert(arrived2.contains(j));
                assert(j != p);
            }
        }
        assert(arrived_are_buffered(t.chunks, bounds, arrived2, p + 1)) by {
            reveal(arrived_are_buffered);
            assert forall|j: int| p + 1 <= j < m && #[trigger] arrived2.contains(j) implies buffered_at(
                t.chunks,
                bounds[j],
            ) by {
                assert(arrived.contains(j));
                let i = index_of(s.chunks, bounds, arrived, p, j);
                assert(t.chunks[i].0 == bounds[j]);
            }
        }
        p + 1
    } else {
        lemma_insert_chunk(s.chunks, start, data);
        let mid = insert_chunk(s.chunks, start, data);
        assert(q >= p);
        assert(buffered_are_arrived(mid, source, bounds, arrived2, p)) by {
            reveal(buffered_are_arrived);
            assert forall|i: int| 0 <= i < mid.len() implies arrived_part(
                #[trigger] mid[i],
                source,
                bounds,
                arrived2,
                p,
            ) by {
                if mid[i] != (start, data) {
                    let k = choose|k: int| 0 <= k < s.chunks.len() && s.chunks[k] == mid[i];
                    let j = part_of(s.chunks, source, bounds, arrived, p, k);
                    assert(arrived2.contains(j));
                } else {
                    assert(arrived2.contains(q));
                }
            }
        }
        assert(arrived_are_buffered(mid, bounds, arrived2, p)) by {
            reveal(arrived_are_buffered);
            assert forall|j: int| p <= j < m && #[trigger] arrived2.contains(j) implies buffered_at(
                mid,
                bounds[j],
            ) by {
                if j == q {
                    let i = choose|i: int| 0 <= i < mid.len() && mid[i] == (start, data);
                    assert(mid[i].0 == bounds[j]);
                } else {
                    assert(arrived.contains(j));
                    let k = index_of(s.chunks, bounds, arrived, p, j);
                    let jk = part_of(s.chunks, source, bounds, arrived, p, k);
                    assert(s.chunks[k].0 != start) by {
                        if jk < q {
                            assert(bounds[jk] < bounds[q]);
                        } else if jk > q {
                            assert(bounds[q] < bounds[jk]);
                        }
                    }
                    assert(mid.contains(s.chunks[k]));
                    let i = choose|i: int| 0 <= i < mid.len() && mid[i] == s.chunks[k];
                    assert(mid[i].0 == bounds[j]);
                }
            }
        }
        lemma_drain_parts(s, mid, source, bounds, arrived2, p)
    }
}

/// Runs the polls: first the arrivals of the parts listed in `order`, then
/// pending reads. Each pending read after all parts have arrived moves the cursor
/// over one more part.
proof fn lemma_run_parts(
    s: RecvView,
    source: Seq<u8>,
    bounds: Seq<u64>,
    order: Seq<int>,
    events: Seq<ReadEvent>,
    arrived: Set<int>,
    p: int,
) -> (p_end: int)
    requires
        source.len() <= u64::MAX,
        tiles(bounds, source.len() as int),
        holds_parts(s, source, bounds, arrived, p),
        order.len() <= events.len(),
        forall|i: int|
            0 <= i < order.len() ==> 0 <= #[trigger] order[i] < bounds.len() - 1 && !arrived.contains(
                order[i],
            ) && arrival(events[i], source, bounds, order[i]),
        forall|i: int, j: int| 0 <= i < j < order.len() ==> order[i] != order[j],
        forall|i: int| order.len() <= i < events.len() ==> #[trigger] events[i] is Pending,
        forall|j: int| 0 <= j < bounds.len() - 1 ==> arrived.contains(j) || order.contains(j),
    ensures
        p <= p_end < bounds.len(),
        run(s, events).0.offset == bounds[p_end],
        p_end >= bounds.len() - 1 || p_end >= p + (events.len() - order.len()),
    decreases events.len(),
{
    if events.len() == 0 {
        p
    } else {
        let t = poll_step(s, events[0]).0;
        let rest = events.drop_first();
        assert forall|i: int| 0 <= i < rest.len() implies rest[i] == events[i + 1] by {}
        if order.len() > 0 {
            let q = order[0];
            let p1 = lemma_arrival_step(s, events[0], source, bounds, arrived, p, q);
            let order1 = order.drop_first();
            let arrived1 = arrived.insert(q);
            assert forall|i: int| 0 <= i < order1.len() implies 0 <= #[trigger] order1[i] < bounds.len()
                - 1 && !arrived1.contains(order1[i]) && arrival(rest[i], source, bounds, order1[i]) by {
                assert(order1[i] == order[i + 1]);
                assert(order[0] != order[i + 1]);
            }
            assert forall|j: int| 0 <= j < bounds.len() - 1 implies arrived1.contains(j)
                || order1.contains(j) by {
                if !arrived.contains(j) {
                    let k = choose|k: int| 0 <= k < order.len() && order[k] == j;
                    if k > 0 {
                        assert(order1[k - 1] == j);
                    }
                }
            }
            assert forall|i: int| order1.len() <= i < rest.len() implies #[trigger] rest[i] is Pending by {
                assert(events[i + 1] is Pending);
            }
            lemma_run_parts(t, source, bounds, order1, rest, arrived1, p1)
        } else {
            assert(events[0] is Pending);
            assert forall|j: int| 0 <= j < bounds.len() - 1 implies arrived.contains(j) by {
                if !arrived.contains(j) {
                    assert(order.contains(j));
                }
            }
            let p1 = lemma_drain_parts(s, s.chunks, source, bounds, arrived, p);
            assert forall|i: int| order.len() <= i < rest.len() implies #[trigger] rest[i] is Pending by {
                assert(events[i + 1] is Pending);
            }
            lemma_run_parts(t, source, bounds, order, rest, arrived, p1)
        }
    }
}

/// Whatever order the parts of a stream arrive in, once each has arrived and
/// as many more polls have found nothing new to read as there are parts, the
/// bytes handed out, one after the other, are exactly the whole stream.
pub proof fn lemma_reassembly_complete(
    source: Seq<u8>,
    bounds: Seq<u64>,
    order: Seq<int>,
    events: Seq<ReadEvent>,
)
    requires
        source.len() <= u64::MAX,
        tiles(bounds, source.len() as int),
        forall|i: int|
            0 <= i < order.len() ==> 0 <= #[trigger] order[i] < bounds.len() - 1 && arrival(
                events[i],
                source,
                bounds,
                order[i],
            ),
        forall|i: int, j: int| 0 <= i < j < order.len() ==> order[i] != order[j],
        forall|j: int| 0 <= j < bounds.len() - 1 ==> order.contains(j),
        events.len() == order.len() + bounds.len() - 1,
        forall|i: int| order.len() <= i < events.len() ==> #[trigger] events[i] is Pending,
    ensures
        run(RecvView { offset: 0, chunks: Seq::empty() }, events).1 == source,
{
    let s = RecvView { offset: 0, chunks: Seq::empty() };
    let none = Set::<int>::empty();
    assert(buffered_are_arrived(s.chunks, source, bounds, none, 0)) by {
        reveal(buffered_are_arrived);
    }
    assert(arrived_are_buffered(s.chunks, bounds, none, 0)) by {
        reveal(arrived_are_buffered);
    }
    let p_end = lemma_run_parts(s, source, bounds, order, events, none, 0);
    assert(p_end == bounds.len() - 1);
    assert forall|i: int| 0 <= i < events.len() implies drawn_from(#[trigger] events[i], source) by {
        if i < order.len() {
            lemma_part_facts(source, bounds, order[i]);
        }
    }
    lemma_reassembly_in_order(s, events, source);
    assert(run(s, events).1 =~= source);
}

} // verus!
