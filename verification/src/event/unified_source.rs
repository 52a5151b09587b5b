//! The event source over the one ring buffer that carries every kind of
//! event: chunks go in as they are read from the ring, events come out in
//! the same order.

use crate::common::{lemma_frame_round_trip, CrashTracerEvent, FrameError};
use crate::event::{decodable, event_of_chunk, Event, EventSource};
use crate::programs::{CaptureState, CaptureView};
use std::collections::VecDeque;
use vstd::prelude::*;

verus! {

/// How many chunks at the head of `chunks` are no frames.
pub open spec fn leading_rejects(chunks: Seq<Vec<u8>>) -> int
    decreases chunks.len(),
{
    if chunks.len() == 0 || decodable(chunks[0]@) {
        0
    } else {
        1 + leading_rejects(chunks.drop_first())
    }
}

/// The chunks of `chunks` that are frames, in order.
pub open spec fn frames_among(chunks: Seq<Vec<u8>>) -> Seq<Vec<u8>> {
    chunks.filter(|c: Vec<u8>| decodable(c@))
}

/// The event source over the unified ring.
pub struct UnifiedEventSource {
    chunks: VecDeque<Vec<u8>>,
}

impl View for UnifiedEventSource {
    type V = Seq<Vec<u8>>;

    /// The chunks that were read from the ring and not yet consumed, oldest
    /// first.
    closed spec fn view(&self) -> Seq<Vec<u8>> {
        self.chunks@
    }
}

impl UnifiedEventSource {
    /// A source with nothing queued.
    pub fn new() -> (source: UnifiedEventSource)
        ensures
            source@ == Seq::<Vec<u8>>::empty(),
    {
        UnifiedEventSource { chunks: VecDeque::new() }
    }

    /// Queues one chunk as it was read from the ring.
    pub fn push_chunk(&mut self, chunk: Vec<u8>)
        ensures
            final(self)@ == old(self)@.push(chunk),
    {
        self.chunks.push_back(chunk);
    }

    /// How many chunks are queued.
    pub fn len(&self) -> (n: usize)
        ensures
            n == self@.len(),
    {
        self.chunks.len()
    }

    /// Takes the oldest chunk and decodes it: `None` when nothing is queued,
    /// else the event of the chunk or the reason why it is no frame.
    pub fn next_frame(&mut self) -> (r: Option<Result<Event, FrameError>>)
        ensures
            old(self)@.len() == 0 ==> r is None && final(self)@ == old(self)@,
            old(self)@.len() > 0 ==> r is Some && final(self)@ == old(self)@.drop_first() && (
            match crate::common::parse_frame(old(self)@[0]@) {
                Err(e) => r->0 == Err::<Event, FrameError>(e),
                Ok(_) => r->0 is Ok && event_of_chunk(r->0->Ok_0, old(self)@[0]@),
            }),
    {
        match self.chunks.pop_front() {
            None => None,
            Some(chunk) => {
                assert(self.chunks@ =~= old(self).chunks@.drop_first());
                Some(Event::decode(chunk.as_slice()))
            },
        }
    }
}

impl UnifiedEventSource {
    /// Consumes everything that is queued: the events of the chunks that are
    /// frames, in the order in which the chunks were queued.
    pub fn drain(&mut self) -> (events: Vec<Event>)
        ensures
            final(self)@ == Seq::<Vec<u8>>::empty(),
            events@.len() == frames_among(old(self)@).len(),
            forall|k: int|
                0 <= k < events@.len() ==> event_of_chunk(
                    #[trigger] events@[k],
                    frames_among(old(self)@)[k]@,
                ),
    {
        let ghost all = self@;
        let ghost mut taken: int = 0;
        let mut events: Vec<Event> = Vec::new();
        assert(all.skip(0) =~= all);
        assert(frames_among(all.take(0)).len() == 0) by {
            reveal(Seq::filter);
        }
        loop
            invariant
                0 <= taken <= all.len(),
                all == old(self)@,
                self@ == all.skip(taken),
                events@.len() == frames_among(all.take(taken)).len(),
                forall|k: int|
                    0 <= k < events@.len() ==> event_of_chunk(
                        #[trigger] events@[k],
                        frames_among(all.take(taken))[k]@,
                    ),
            decreases all.len() - taken,
        {
            let ghost rest = self@;
            let ghost seen = frames_among(all.take(taken));
            match self.next_frame() {
                None => {
                    assert(self@ =~= Seq::<Vec<u8>>::empty());
                    assert(all.take(taken) =~= all);
                    return events;
                },
                Some(r) => {
                    proof {
                        reveal(Seq::filter);
                        assert(rest[0] == all[taken]);
                        assert(rest.drop_first() =~= all.skip(taken + 1));
                        assert(all.take(taken + 1).drop_last() =~= all.take(taken));
                        assert(all.take(taken + 1).last() == all[taken]);
                    }
                    match r {
                        Ok(event) => {
                            events.push(event);
                            assert(frames_among(all.take(taken + 1)) == seen.push(all[taken]));
                        },
                        Err(_) => {
                            assert(frames_among(all.take(taken + 1)) == seen);
                        },
                    }
                    proof {
                        taken = taken + 1;
                    }
                },
            }
        }
    }
}

/// Whether `chunks` are the frames `ring` as they are read from the ring:
/// one chunk for each frame, in order, with the bytes of the frame.
pub open spec fn chunks_of_ring(chunks: Seq<Vec<u8>>, ring: Seq<CrashTracerEvent>) -> bool {
    &&& chunks.len() == ring.len()
    &&& forall|k: int| 0 <= k < ring.len() ==> (#[trigger] chunks[k])@ == ring[k].frame_bytes()
}

impl UnifiedEventSource {
    /// Reads the ring empty: every frame that waits in the ring of `kernel`
    /// is queued as the chunk of its bytes, oldest first, behind what is
    /// queued already.
    pub fn read_ring(&mut self, kernel: &mut CaptureState)
        ensures
            final(kernel)@ == (CaptureView {
                ring: Seq::<CrashTracerEvent>::empty(),
                ..old(kernel)@
            }),
            final(self)@.len() == old(self)@.len() + old(kernel)@.ring.len(),
            final(self)@.take(old(self)@.len() as int) == old(self)@,
            chunks_of_ring(final(self)@.skip(old(self)@.len() as int), old(kernel)@.ring),
    {
        let ghost ring = kernel@.ring;
        let ghost queued = self@;
        let ghost mut taken: int = 0;
        assert(ring.skip(0) =~= ring);
        loop
            invariant
                0 <= taken <= ring.len(),
                ring == old(kernel)@.ring,
                queued == old(self)@,
                kernel@ == (CaptureView { ring: ring.skip(taken), ..old(kernel)@ }),
                self@.len() == queued.len() + taken,
                self@.take(queued.len() as int) == queued,
                forall|k: int|
                    0 <= k < taken ==> (#[trigger] self@[queued.len() + k])@
                        == ring[k].frame_bytes(),
            decreases ring.len() - taken,
        {
            let ghost before = self@;
            match kernel.take_frame() {
                None => {
                    proof {
                        assert(ring.skip(taken).len() == 0);
                        assert(kernel@.ring =~= Seq::<CrashTracerEvent>::empty());
                        let tail = self@.skip(queued.len() as int);
                        assert forall|k: int| 0 <= k < ring.len() implies (#[trigger] tail[k])@
                            == ring[k].frame_bytes() by {
                            assert(tail[k] == self@[queued.len() + k]);
                        }
                    }
                    return ;
                },
                Some(frame) => {
                    self.push_chunk(frame.to_bytes());
                    proof {
                        assert(ring.skip(taken)[0] == ring[taken]);
                        assert(ring.skip(taken).drop_first() =~= ring.skip(taken + 1));
                        assert(self@.take(queued.len() as int) =~= queued);
                        assert forall|k: int| 0 <= k < taken + 1 implies (
                        #[trigger] self@[queued.len() + k])@ == ring[k].frame_bytes() by {
                            if k < taken {
                                assert(self@[queued.len() + k] == before[queued.len() + k]);
                            }
                        }
                        taken = taken + 1;
                    }
                },
            }
        }
    }
}

/// What is read from the ring comes out of the source as it went into the
/// ring: chunks read from a ring are all frames, so the events of a source
/// that holds nothing else are the events of the frames of the ring, one for
/// one and in the order of submission.
pub proof fn lemma_ring_order_is_kept(
    chunks: Seq<Vec<u8>>,
    ring: Seq<CrashTracerEvent>,
    events: Seq<Event>,
)
    requires
        chunks_of_ring(chunks, ring),
        events.len() == frames_among(chunks).len(),
        forall|k: int|
            0 <= k < events.len() ==> event_of_chunk(
                #[trigger] events[k],
                frames_among(chunks)[k]@,
            ),
    ensures
        frames_among(chunks) == chunks,
        events.len() == ring.len(),
        forall|k: int|
            0 <= k < ring.len() ==> crate::event::event_of_frame(
                #[trigger] events[k],
                ring[k].tag,
                ring[k].payload@,
            ),
{
    lemma_all_frames(chunks, ring);
    assert forall|k: int| 0 <= k < ring.len() implies crate::event::event_of_frame(
        #[trigger] events[k],
        ring[k].tag,
        ring[k].payload@,
    ) by {
        lemma_frame_round_trip(ring[k]);
        assert(chunks[k]@ == ring[k].frame_bytes());
    }
}

/// Chunks read from a ring are all frames.
proof fn lemma_all_frames(chunks: Seq<Vec<u8>>, ring: Seq<CrashTracerEvent>)
    requires
        chunks_of_ring(chunks, ring),
    ensures
        frames_among(chunks) == chunks,
    decreases chunks.len(),
{
    reveal(Seq::filter);
    if chunks.len() > 0 {
        let c = chunks.drop_last();
        let r = ring.drop_last();
        assert forall|k: int| 0 <= k < r.len() implies (#[trigger] c[k])@
            == r[k].frame_bytes() by {
            assert(c[k] == chunks[k]);
        }
        lemma_all_frames(c, r);
        lemma_frame_round_trip(ring.last());
        assert(chunks.last() == chunks[chunks.len() - 1]);
        assert(chunks.last()@ == ring[ring.len() - 1].frame_bytes());
        assert(decodable(chunks.last()@));
        assert(c.push(chunks.last()) =~= chunks);
    }
}

impl EventSource for UnifiedEventSource {
    /// The event of the oldest queued chunk that is a frame; the chunks
    /// before it, which are no frames, are dropped. `None`, with nothing left
    /// queued, when no queued chunk is a frame.
    fn next_event(&mut self) -> (r: Option<Event>)
        ensures
            ({
                let skip = leading_rejects(old(self)@);
                if skip >= old(self)@.len() {
                    r is None && final(self)@ == Seq::<Vec<u8>>::empty()
                } else {
                    r is Some && event_of_chunk(r->0, old(self)@[skip]@) && final(self)@ == old(
                        self,
                    )@.skip(skip + 1)
                }
            }),
    {
        let ghost all = self@;
        let ghost mut dropped: int = 0;
        assert(all.skip(0) =~= all);
        loop
            invariant
                0 <= dropped <= all.len(),
                all == old(self)@,
                self@ == all.skip(dropped),
                leading_rejects(all) == dropped + leading_rejects(all.skip(dropped)),
            decreases all.len() - dropped,
        {
            let ghost rest = self@;
            match self.next_frame() {
                None => {
                    assert(rest.len() == 0);
                    assert(leading_rejects(rest) == 0);
                    assert(self@ =~= Seq::<Vec<u8>>::empty());
                    return None;
                },
                Some(Ok(event)) => {
                    assert(rest[0] == all[dropped]);
                    assert(decodable(rest[0]@));
                    assert(leading_rejects(rest) == 0);
                    assert(rest.drop_first() =~= all.skip(dropped + 1));
                    return Some(event);
                },
                Some(Err(_)) => {
                    proof {
                        assert(rest[0] == all[dropped]);
                        assert(!decodable(rest[0]@));
                        assert(leading_rejects(rest) == 1 + leading_rejects(rest.drop_first()));
                        assert(rest.drop_first() =~= all.skip(dropped + 1));
                        dropped = dropped + 1;
                    }
                },
            }
        }
    }
}

} // verus!
