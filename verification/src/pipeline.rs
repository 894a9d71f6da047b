//! One direction of a connection from end to end, as a model: the chunk that
//! the shuttle has read and not yet handed on, the chunks that wait in the
//! observer's queue, and the bytes that the framer holds. The model says how
//! much memory the three can take together, however long the stream is.
//!
//! The queue itself belongs to the program around this crate. What the model
//! takes from it is its one rule: it takes a chunk only while it has room.

use vstd::prelude::*;
use crate::framer::{FramerState, fresh_state, lemma_push_keeps_wf, push_state, state_wf};
use crate::shuttle::{CHUNK, OBSERVER_QUEUE_CAPACITY};
use crate::wire::HEADER_LEN;

verus! {

/// One direction of a connection.
pub struct Pipeline {
    /// The chunk that was read and is being written and offered; empty
    /// between two reads.
    pub reading: Seq<u8>,
    /// The chunks that wait in the observer's queue, oldest first.
    pub queue: Seq<Seq<u8>>,
    /// The observer's framer.
    pub framer: FramerState,
}

/// What happens in a pipeline.
pub enum PipelineEvent {
    /// The shuttle's read returned this chunk.
    Read(Seq<u8>),
    /// The chunk was written and offered to the observer; `queued` says
    /// whether the queue took it. It does not where the observer is gone.
    Offered { queued: bool },
    /// The observer took the oldest chunk from its queue and framed it.
    Taken,
}

/// A pipeline before the first read.
pub open spec fn idle() -> Pipeline {
    Pipeline { reading: Seq::empty(), queue: Seq::empty(), framer: fresh_state() }
}

/// Whether `event` can happen in `p`: a read returns at most `CHUNK` bytes
/// and comes only after the chunk before it was handed on; the queue takes a
/// chunk only while it holds fewer than its capacity; the observer takes a
/// chunk only if one waits.
pub open spec fn enabled(p: Pipeline, event: PipelineEvent) -> bool {
    match event {
        PipelineEvent::Read(chunk) => p.reading.len() == 0 && chunk.len() <= CHUNK,
        PipelineEvent::Offered { queued } => p.reading.len() > 0 && (queued ==> p.queue.len()
            < OBSERVER_QUEUE_CAPACITY),
        PipelineEvent::Taken => p.queue.len() > 0,
    }
}

/// The pipeline after `event`.
pub open spec fn after(p: Pipeline, event: PipelineEvent, max: int) -> Pipeline {
    match event {
        PipelineEvent::Read(chunk) => Pipeline { reading: chunk, ..p },
        PipelineEvent::Offered { queued } => Pipeline {
            reading: Seq::empty(),
            queue: if queued {
                p.queue.push(p.reading)
            } else {
                p.queue
            },
            ..p
        },
        PipelineEvent::Taken => Pipeline {
            queue: p.queue.drop_first(),
            framer: push_state(p.framer, p.queue.first(), max),
            ..p
        },
    }
}

/// Whether `events` can happen one after the other, from an idle pipeline.
pub open spec fn possible(events: Seq<PipelineEvent>, max: int) -> bool
    decreases events.len(),
{
    events.len() == 0 || (possible(events.drop_last(), max) && enabled(
        pipeline_after(events.drop_last(), max),
        events.last(),
    ))
}

/// The pipeline after `events`, from an idle pipeline.
pub open spec fn pipeline_after(events: Seq<PipelineEvent>, max: int) -> Pipeline
    decreases events.len(),
{
    if events.len() == 0 {
        idle()
    } else {
        after(pipeline_after(events.drop_last(), max), events.last(), max)
    }
}

/// The bytes that wait in a queue.
pub open spec fn queued_bytes(queue: Seq<Seq<u8>>) -> nat
    decreases queue.len(),
{
    if queue.len() == 0 {
        0
    } else {
        queued_bytes(queue.drop_last()) + queue.last().len()
    }
}

/// The bytes that a pipeline holds.
pub open spec fn memory(p: Pipeline) -> nat {
    p.reading.len() + queued_bytes(p.queue) + p.framer.pending.len()
}

/// The most that a pipeline ever holds: one chunk being handed on, a full
/// queue of chunks, and one message at the ceiling `max` (or one header,
/// where the ceiling is below that).
pub open spec fn memory_bound(max: int) -> int {
    CHUNK + OBSERVER_QUEUE_CAPACITY * CHUNK + if max > HEADER_LEN {
        max
    } else {
        HEADER_LEN as int
    }
}

/// What holds of every pipeline that can come about.
pub open spec fn within_limits(p: Pipeline, max: int) -> bool {
    &&& p.reading.len() <= CHUNK
    &&& p.queue.len() <= OBSERVER_QUEUE_CAPACITY
    &&& forall|i: int| 0 <= i < p.queue.len() ==> (#[trigger] p.queue[i]).len() <= CHUNK
    &&& state_wf(p.framer, max)
}

/// A queue of chunks holds at most a chunk's worth of bytes for each.
proof fn lemma_queued_bytes(queue: Seq<Seq<u8>>)
    requires
        forall|i: int| 0 <= i < queue.len() ==> (#[trigger] queue[i]).len() <= CHUNK,
    ensures
        queued_bytes(queue) <= queue.len() * CHUNK,
    decreases queue.len(),
{
    if queue.len() > 0 {
        let head = queue.drop_last();
        assert forall|i: int| 0 <= i < head.len() implies (#[trigger] head[i]).len() <= CHUNK by {
            assert(head[i] == queue[i]);
        }
        lemma_queued_bytes(head);
        assert(queue.last() == queue[queue.len() - 1]);
    }
}

/// Every event that can happen keeps a pipeline within its limits.
proof fn lemma_limits_are_kept(p: Pipeline, event: PipelineEvent, max: int)
    requires
        within_limits(p, max),
        enabled(p, event),
    ensures
        within_limits(after(p, event, max), max),
{
    let q = after(p, event, max);
    match event {
        PipelineEvent::Read(chunk) => {},
        PipelineEvent::Offered { queued } => {
            assert forall|i: int| 0 <= i < q.queue.len() implies (#[trigger] q.queue[i]).len()
                <= CHUNK by {
                if i < p.queue.len() {
                    assert(q.queue[i] == p.queue[i]);
                }
            }
        },
        PipelineEvent::Taken => {
            lemma_push_keeps_wf(p.framer, p.queue.first(), max);
            assert forall|i: int| 0 <= i < q.queue.len() implies (#[trigger] q.queue[i]).len()
                <= CHUNK by {
                assert(q.queue[i] == p.queue[i + 1]);
            }
        },
    }
}

/// Bounded memory: whatever is read, and however long the stream, one
/// direction of a connection never holds more than one chunk, a full queue
/// of chunks and one message.
pub proof fn lemma_memory_is_bounded(events: Seq<PipelineEvent>, max: int)
    requires
        possible(events, max),
    ensures
        within_limits(pipeline_after(events, max), max),
        memory(pipeline_after(events, max)) <= memory_bound(max),
    decreases events.len(),
{
    if events.len() > 0 {
        lemma_memory_is_bounded(events.drop_last(), max);
        lemma_limits_are_kept(pipeline_after(events.drop_last(), max), events.last(), max);
    }
    let p = pipeline_after(events, max);
    lemma_queued_bytes(p.queue);
    assert(p.queue.len() * CHUNK <= OBSERVER_QUEUE_CAPACITY * CHUNK);
}

} // verus!
