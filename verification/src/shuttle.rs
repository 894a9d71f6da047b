//! The shuttle: one direction of a proxied connection. It reads a chunk from
//! one socket, writes it whole to the other and then offers a copy to the
//! observer of that direction.
//!
//! The sockets and queues belong to the program around this crate. What is
//! decided here is what to do with each chunk that was read, and what an
//! observer that has gone away changes: nothing, for the bytes forwarded.
//!
//! The observer is served without waiting. Its queue is bounded, and a
//! shuttle never blocks on it: a chunk that the queue does not take at once,
//! because it is full or because its receiver is gone, is dropped, and with
//! it the observer. From then on the shuttle only forwards. A slow observer
//! thus costs the metrics of its connection and never the throughput.

use vstd::prelude::*;
use crate::chunk::{chunk_bytes, copy_chunk};

verus! {

/// The read unit: a shuttle reads at most this many bytes at a time.
pub const CHUNK: usize = 1024;

/// How many chunks an observer's queue holds. A chunk offered to a full
/// queue is refused.
pub const OBSERVER_QUEUE_CAPACITY: usize = 32;

/// What to do with the result of one read.
pub enum ReadStep<'a> {
    /// Nothing was read: the peer has closed. The shuttle ends, cleanly.
    Eof,
    /// Write all of `bytes` to the opposite socket; only when that is done,
    /// send `offer`, where there is one, to the observer.
    Forward { bytes: &'a [u8], offer: Option<bytes::Bytes> },
}

/// The bytes that a step has written to the opposite socket.
pub open spec fn written_by(step: ReadStep) -> Seq<u8> {
    match step {
        ReadStep::Eof => Seq::empty(),
        ReadStep::Forward { bytes, offer } => bytes@,
    }
}

/// The bytes that a step offers to the observer, if any.
pub open spec fn offered_by(step: ReadStep) -> Option<Seq<u8>> {
    match step {
        ReadStep::Eof => None,
        ReadStep::Forward { bytes, offer } => match offer {
            Some(b) => Some(chunk_bytes(b)),
            None => None,
        },
    }
}

/// One direction of a connection. All it remembers is whether its observer
/// is still there.
pub struct Shuttle {
    observer_ok: bool,
}

impl Shuttle {
    /// Whether the observer of this direction still takes chunks.
    pub closed spec fn observer_ok(&self) -> bool {
        self.observer_ok
    }

    /// A shuttle whose observer is listening.
    pub fn new() -> (s: Shuttle)
        ensures
            s.observer_ok(),
    {
        Shuttle { observer_ok: true }
    }

    /// Whether chunks are still offered to the observer.
    pub fn is_observed(&self) -> (b: bool)
        ensures
            b == self.observer_ok(),
    {
        self.observer_ok
    }

    /// Decides what to do with the chunk that a read returned. An empty chunk
    /// is the end of the stream. Any other chunk is forwarded as it is,
    /// whatever has become of the observer; the observer is offered a copy as
    /// long as it is there.
    pub fn on_read<'a>(&self, chunk: &'a [u8]) -> (step: ReadStep<'a>)
        ensures
            step is Eof <==> chunk@.len() == 0,
            written_by(step) == chunk@,
            offered_by(step) == (if self.observer_ok() && chunk@.len() > 0 {
                Some(chunk@)
            } else {
                None::<Seq<u8>>
            }),
    {
        if chunk.len() == 0 {
            ReadStep::Eof
        } else if self.observer_ok {
            ReadStep::Forward { bytes: chunk, offer: Some(copy_chunk(chunk)) }
        } else {
            ReadStep::Forward { bytes: chunk, offer: None }
        }
    }

    /// The observer's queue refused a chunk: it is full, or its receiver is
    /// gone. From now on nothing is offered. Returns whether the other
    /// direction's observer is to be told, which is the case the first time
    /// only.
    pub fn on_offer_rejected(&mut self) -> (notify_peer: bool)
        ensures
            !final(self).observer_ok(),
            notify_peer == old(self).observer_ok(),
    {
        let notify_peer = self.observer_ok;
        self.observer_ok = false;
        notify_peer
    }
}

/// One turn of a shuttle's loop, as the outside world determines it: the
/// chunk that the read returned, and whether the observer's queue took the
/// copy at once (which matters only if one was offered).
pub struct Turn {
    pub chunk: Seq<u8>,
    pub accepted: bool,
}

/// What a shuttle has done so far.
pub struct Trace {
    /// Every byte written to the opposite socket, in order.
    pub written: Seq<u8>,
    /// Every byte that the observer's queue took, in order.
    pub observed: Seq<u8>,
    /// How often the other direction was told that this observer is gone.
    pub notices: nat,
    /// Whether the observer is still there.
    pub observer_ok: bool,
    /// Whether the shuttle has ended.
    pub closed: bool,
}

/// A shuttle that has not read yet.
pub open spec fn start() -> Trace {
    Trace { written: Seq::empty(), observed: Seq::empty(), notices: 0, observer_ok: true, closed: false }
}

/// One turn: `on_read` on the chunk, the write, the offer, and
/// `on_offer_rejected` where the queue refused it.
pub open spec fn turn(t: Trace, x: Turn) -> Trace {
    if t.closed {
        t
    } else if x.chunk.len() == 0 {
        Trace { closed: true, ..t }
    } else if !t.observer_ok {
        Trace { written: t.written + x.chunk, ..t }
    } else if x.accepted {
        Trace { written: t.written + x.chunk, observed: t.observed + x.chunk, ..t }
    } else {
        Trace {
            written: t.written + x.chunk,
            notices: t.notices + 1,
            observer_ok: false,
            ..t
        }
    }
}

/// A shuttle's loop over the given turns.
pub open spec fn run(turns: Seq<Turn>) -> Trace
    decreases turns.len(),
{
    if turns.len() == 0 {
        start()
    } else {
        turn(run(turns.drop_last()), turns.last())
    }
}

/// The stream that the reads returned, up to the first empty read.
pub open spec fn stream_read(turns: Seq<Turn>) -> Seq<u8>
    decreases turns.len(),
{
    if turns.len() == 0 {
        Seq::empty()
    } else if ended(turns.drop_last()) {
        stream_read(turns.drop_last())
    } else {
        stream_read(turns.drop_last()) + turns.last().chunk
    }
}

/// Whether one of the reads was empty.
pub open spec fn ended(turns: Seq<Turn>) -> bool {
    exists|i: int| 0 <= i < turns.len() && (#[trigger] turns[i]).chunk.len() == 0
}

/// `turn` is what the shuttle's two decisions do: the bytes written are those
/// that `on_read` hands on, and the observer takes what `on_read` offers
/// unless its queue refuses, which `on_offer_rejected` records.
pub proof fn lemma_turn_follows_the_shuttle(t: Trace, x: Turn, step: ReadStep)
    requires
        !t.closed,
        step is Eof <==> x.chunk.len() == 0,
        written_by(step) == x.chunk,
        offered_by(step) == (if t.observer_ok && x.chunk.len() > 0 {
            Some(x.chunk)
        } else {
            None::<Seq<u8>>
        }),
    ensures
        turn(t, x).closed == (step is Eof),
        turn(t, x).written == t.written + written_by(step),
        turn(t, x).observed == (if offered_by(step) is Some && x.accepted {
            t.observed + offered_by(step)->Some_0
        } else {
            t.observed
        }),
        turn(t, x).observer_ok == (t.observer_ok && !(offered_by(step) is Some && !x.accepted)),
{
    assert(t.written + Seq::<u8>::empty() =~= t.written);
}

/// Byte-exact forwarding: what a shuttle has written is the stream that it
/// read, byte for byte and in order, however the stream was cut into chunks
/// and whatever the observer did.
pub proof fn lemma_forwarding_is_exact(turns: Seq<Turn>)
    ensures
        run(turns).written == stream_read(turns),
        run(turns).closed == ended(turns),
    decreases turns.len(),
{
    if turns.len() > 0 {
        let head = turns.drop_last();
        lemma_forwarding_is_exact(head);
        if ended(head) {
            let i = choose|i: int| 0 <= i < head.len() && (#[trigger] head[i]).chunk.len() == 0;
            assert(turns[i] == head[i]);
        } else if turns.last().chunk.len() == 0 {
            assert(turns[turns.len() - 1].chunk.len() == 0);
        } else {
            assert forall|i: int| 0 <= i < turns.len() implies (#[trigger] turns[i]).chunk.len()
                != 0 by {
                if i < head.len() {
                    assert(head[i] == turns[i]);
                }
            }
        }
    }
}

/// Observer isolation: two runs that read the same chunks write the same
/// bytes and end at the same point, though the observer fails in one and not
/// in the other.
pub proof fn lemma_observer_cannot_disturb(a: Seq<Turn>, b: Seq<Turn>)
    requires
        a.len() == b.len(),
        forall|i: int| 0 <= i < a.len() ==> (#[trigger] a[i]).chunk == b[i].chunk,
    ensures
        run(a).written == run(b).written,
        run(a).closed == run(b).closed,
    decreases a.len(),
{
    if a.len() > 0 {
        let ha = a.drop_last();
        let hb = b.drop_last();
        assert forall|i: int| 0 <= i < ha.len() implies (#[trigger] ha[i]).chunk
            == hb[i].chunk by {
            assert(ha[i] == a[i]);
            assert(hb[i] == b[i]);
        }
        lemma_observer_cannot_disturb(ha, hb);
        assert(a.last() == a[a.len() - 1]);
        assert(a.last().chunk == b.last().chunk);
    }
}

/// The observer never runs ahead: what it has taken is a prefix of what has
/// been written. And the other direction is told at most once that this
/// observer is gone: exactly once if it is.
pub proof fn lemma_observer_sees_a_prefix(turns: Seq<Turn>)
    ensures
        run(turns).observed.len() <= run(turns).written.len(),
        run(turns).observed == run(turns).written.take(run(turns).observed.len() as int),
        run(turns).observer_ok ==> run(turns).observed == run(turns).written,
        run(turns).notices == (if run(turns).observer_ok {
            0nat
        } else {
            1nat
        }),
    decreases turns.len(),
{
    if turns.len() > 0 {
        let head = turns.drop_last();
        lemma_observer_sees_a_prefix(head);
        let t = run(head);
        let next = turn(t, turns.last());
        assert(next.observed =~= next.written.take(next.observed.len() as int));
    } else {
        assert(start().observed =~= start().written.take(0));
    }
}

} // verus!
