//! The observer: the far end of a shuttle's queue. It frames the chunks it is
//! sent and ends when the queue closes, when it is told that the other
//! direction's observer has failed, or when the stream stops making sense.

use vstd::prelude::*;
use crate::chunk::{chunk_bytes, chunk_slice};
use crate::framer::{FrameError, Framer, FramerState, push_frames, push_state, state_end};
use crate::wire::{Frame, WireMessage, frames_view};

verus! {

/// What travels on an observer's queue.
pub enum QueueItem {
    /// The next chunk of the stream.
    Chunk(bytes::Bytes),
    /// The observer of the other direction has failed: stop.
    Poison,
}

/// What an observer does after one item.
pub enum ObserverStep {
    /// Hand these messages to the tracker and wait for the next item.
    Continue(Vec<WireMessage>),
    /// Hand these messages to the tracker and end with the given result.
    Stop(Vec<WireMessage>, Result<(), FrameError>),
}

/// The messages that a step yields.
pub open spec fn step_frames(step: ObserverStep) -> Seq<Frame> {
    match step {
        ObserverStep::Continue(messages) => frames_view(messages@),
        ObserverStep::Stop(messages, result) => frames_view(messages@),
    }
}

/// The observer of one direction.
pub struct Observer {
    framer: Framer,
}

impl View for Observer {
    type V = FramerState;

    closed spec fn view(&self) -> FramerState {
        self.framer@
    }
}

impl Observer {
    /// The ceiling on a message's length.
    pub closed spec fn max(&self) -> int {
        self.framer.max()
    }

    /// An observer that has seen nothing and refuses messages longer than
    /// `max_message_size`.
    pub fn new(max_message_size: usize) -> (o: Observer)
        ensures
            o@ == crate::framer::fresh_state(),
            o.max() == max_message_size,
    {
        Observer { framer: Framer::new(max_message_size) }
    }

    /// Takes what the queue delivered: `None` where the queue has closed.
    ///
    /// A chunk is framed, and the observer goes on unless a header was
    /// refused, now or before. A closed queue ends the observer as the
    /// stream ends: cleanly between two messages, with `UnexpectedEof` inside
    /// one. Poison ends it at once and without an error of its own.
    pub fn on_item(&mut self, item: Option<QueueItem>) -> (step: ObserverStep)
        ensures
            final(self).max() == old(self).max(),
            match item {
                Some(QueueItem::Chunk(b)) => {
                    &&& final(self)@ == push_state(old(self)@, chunk_bytes(b), old(self).max())
                    &&& step_frames(step) == push_frames(
                        old(self)@,
                        chunk_bytes(b),
                        old(self).max(),
                    )
                    &&& if final(self)@.poisoned {
                        step matches ObserverStep::Stop(_, r) && r == Err::<(), FrameError>(
                            FrameError::ProtocolError,
                        )
                    } else {
                        step is Continue
                    }
                },
                Some(QueueItem::Poison) => {
                    &&& final(self)@ == old(self)@
                    &&& step_frames(step) == Seq::<Frame>::empty()
                    &&& step matches ObserverStep::Stop(_, r) && r == Ok::<(), FrameError>(())
                },
                None => {
                    &&& final(self)@ == old(self)@
                    &&& step_frames(step) == Seq::<Frame>::empty()
                    &&& step matches ObserverStep::Stop(_, r) && r == state_end(old(self)@)
                },
            },
    {
        match item {
            Some(QueueItem::Chunk(b)) => {
                let out = self.framer.push(chunk_slice(&b));
                match out.error {
                    Some(e) => ObserverStep::Stop(out.messages, Err(e)),
                    None => ObserverStep::Continue(out.messages),
                }
            },
            Some(QueueItem::Poison) => {
                let messages: Vec<WireMessage> = Vec::new();
                assert(frames_view(messages@) =~= Seq::<Frame>::empty());
                ObserverStep::Stop(messages, Ok(()))
            },
            None => {
                let messages: Vec<WireMessage> = Vec::new();
                assert(frames_view(messages@) =~= Seq::<Frame>::empty());
                ObserverStep::Stop(messages, self.framer.finish())
            },
        }
    }
}

} // verus!
