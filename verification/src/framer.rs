//! The framer: reassembles whole messages from a stream of bytes that arrives
//! in chunks of any size.
//!
//! What a stream holds is defined once, on the whole stream (`frames_of`,
//! `remainder`, `stream_end`). The `Framer` is fed chunk by chunk and is held
//! to that definition: how the stream was cut into chunks never shows.

use vstd::prelude::*;
use vstd::slice::{slice_subrange, slice_to_vec};
use crate::wire::{
    Frame, WireHeader, WireMessage, frame_bytes, frame_valid, frames_view, header_of, le_i32,
    lemma_header_agree, lemma_header_bytes_round_trip, lemma_header_round_trip,
    lemma_le_i32_range, HEADER_LEN,
};

verus! {

/// Why a stream stopped yielding messages.
#[derive(Clone, Copy, Debug, PartialEq, Eq, Structural)]
pub enum FrameError {
    /// The stream ended inside a message.
    UnexpectedEof,
    /// A header gave a length below the header's own or above the ceiling.
    ProtocolError,
}

/// A length that a header may give: at least the header itself, at most the
/// ceiling.
pub open spec fn length_ok(total_length: int, max: int) -> bool {
    HEADER_LEN <= total_length <= max
}

/// `s` starts with a whole message of acceptable length.
pub open spec fn starts_with_frame(s: Seq<u8>, max: int) -> bool {
    &&& s.len() >= HEADER_LEN
    &&& length_ok(le_i32(s, 0), max)
    &&& s.len() >= le_i32(s, 0)
}

/// `s` starts with a header whose length is refused.
pub open spec fn starts_with_bad_header(s: Seq<u8>, max: int) -> bool {
    s.len() >= HEADER_LEN && !length_ok(le_i32(s, 0), max)
}

/// The message that `s` starts with, where it starts with one.
pub open spec fn first_frame(s: Seq<u8>) -> Frame {
    Frame { header: header_of(s), payload: s.subrange(HEADER_LEN as int, le_i32(s, 0)) }
}

/// The whole messages at the start of `s`, in order, up to the first place
/// where no whole acceptable message stands.
pub open spec fn frames_of(s: Seq<u8>, max: int) -> Seq<Frame>
    decreases s.len(),
{
    if starts_with_frame(s, max) {
        seq![first_frame(s)] + frames_of(s.skip(le_i32(s, 0)), max)
    } else {
        Seq::empty()
    }
}

/// How many bytes the messages of `frames_of` take.
pub open spec fn framed_len(s: Seq<u8>, max: int) -> int
    decreases s.len(),
{
    if starts_with_frame(s, max) {
        le_i32(s, 0) + framed_len(s.skip(le_i32(s, 0)), max)
    } else {
        0
    }
}

/// What is left of `s` behind its whole messages.
pub open spec fn remainder(s: Seq<u8>, max: int) -> Seq<u8> {
    s.skip(framed_len(s, max))
}

/// How a stream that closes after `s` ends: cleanly where `s` stops between
/// two messages, with a protocol error where the next header is refused, and
/// otherwise inside a message.
pub open spec fn stream_end(s: Seq<u8>, max: int) -> Result<(), FrameError> {
    let rest = remainder(s, max);
    if rest.len() == 0 {
        Ok(())
    } else if starts_with_bad_header(rest, max) {
        Err(FrameError::ProtocolError)
    } else {
        Err(FrameError::UnexpectedEof)
    }
}

/// The framed part is a prefix of the stream, and nothing whole is left
/// behind it.
pub proof fn lemma_framed_len(s: Seq<u8>, max: int)
    ensures
        0 <= framed_len(s, max) <= s.len(),
        !starts_with_frame(remainder(s, max), max),
        frames_of(remainder(s, max), max) == Seq::<Frame>::empty(),
        framed_len(remainder(s, max), max) == 0,
    decreases s.len(),
{
    if starts_with_frame(s, max) {
        let n = le_i32(s, 0);
        let t = s.skip(n);
        lemma_framed_len(t, max);
        assert(t.skip(framed_len(t, max)) =~= s.skip(n + framed_len(t, max)));
    } else {
        assert(s.skip(0) =~= s);
    }
}

/// Bytes that arrive later never change the messages already there: the
/// stream `a + b` holds the messages of `a`, then those of what `a` left
/// over followed by `b`.
pub proof fn lemma_frames_append(a: Seq<u8>, b: Seq<u8>, max: int)
    ensures
        frames_of(a + b, max) == frames_of(a, max) + frames_of(remainder(a, max) + b, max),
        framed_len(a + b, max) == framed_len(a, max) + framed_len(remainder(a, max) + b, max),
        remainder(a + b, max) == remainder(remainder(a, max) + b, max),
    decreases a.len(),
{
    lemma_framed_len(a, max);
    if starts_with_frame(a, max) {
        let n = le_i32(a, 0);
        let t = a.skip(n);
        let ab = a + b;
        lemma_header_agree(ab, a);
        assert(ab.subrange(HEADER_LEN as int, n) =~= a.subrange(HEADER_LEN as int, n));
        assert(first_frame(ab) == first_frame(a));
        assert(ab.skip(n) =~= t + b);
        lemma_frames_append(t, b, max);
        lemma_framed_len(t, max);
        assert(remainder(t, max) =~= remainder(a, max)) by {
            assert(t.skip(framed_len(t, max)) =~= a.skip(n + framed_len(t, max)));
        }
        assert(frames_of(ab, max) =~= frames_of(a, max) + frames_of(remainder(a, max) + b, max));
        let r = remainder(a, max) + b;
        lemma_framed_len(r, max);
        assert(ab.skip(framed_len(ab, max)) =~= r.skip(framed_len(r, max)));
    } else {
        assert(a.skip(0) =~= a);
        assert(frames_of(a + b, max) =~= frames_of(a, max) + frames_of(a + b, max));
    }
}

/// What a framer holds between two chunks.
pub struct FramerState {
    /// Bytes that have arrived and belong to a message not yet whole.
    pub pending: Seq<u8>,
    /// Whether a refused header has stopped the framer for good.
    pub poisoned: bool,
}

/// The state of a framer before any byte.
pub open spec fn fresh_state() -> FramerState {
    FramerState { pending: Seq::empty(), poisoned: false }
}

/// The messages that a chunk completes.
pub open spec fn push_frames(st: FramerState, chunk: Seq<u8>, max: int) -> Seq<Frame> {
    if st.poisoned {
        Seq::empty()
    } else {
        frames_of(st.pending + chunk, max)
    }
}

/// The state that a chunk leaves: the bytes behind the last whole message
/// stay pending, unless a refused header stands there, which stops the framer
/// and frees what it held.
pub open spec fn push_state(st: FramerState, chunk: Seq<u8>, max: int) -> FramerState {
    if st.poisoned {
        st
    } else {
        let rest = remainder(st.pending + chunk, max);
        if starts_with_bad_header(rest, max) {
            FramerState { pending: Seq::empty(), poisoned: true }
        } else {
            FramerState { pending: rest, poisoned: false }
        }
    }
}

/// A state that `push_state` can leave: nothing whole is pending, nor a
/// refused header, and a stopped framer holds nothing.
pub open spec fn state_wf(st: FramerState, max: int) -> bool {
    if st.poisoned {
        st.pending.len() == 0
    } else {
        !starts_with_frame(st.pending, max) && !starts_with_bad_header(st.pending, max)
    }
}

/// How the stream ends if it closes in state `st`: cleanly between two
/// messages, with `UnexpectedEof` inside one, with `ProtocolError` once a
/// header has been refused.
pub open spec fn state_end(st: FramerState) -> Result<(), FrameError> {
    if st.poisoned {
        Err(FrameError::ProtocolError)
    } else if st.pending.len() == 0 {
        Ok(())
    } else {
        Err(FrameError::UnexpectedEof)
    }
}

/// What one call of `Framer::push` yields.
#[derive(Debug)]
pub struct Framed {
    /// The messages that the chunk completed, in stream order.
    pub messages: Vec<WireMessage>,
    /// `Some(ProtocolError)` once a refused header has been met.
    pub error: Option<FrameError>,
}

/// Reassembles messages from chunks. Holds at most the bytes of one message
/// that is not yet whole: every framer is in a state that `state_wf`
/// admits.
pub struct Framer {
    buf: Vec<u8>,
    max_message_size: usize,
    poisoned: bool,
}

impl View for Framer {
    type V = FramerState;

    closed spec fn view(&self) -> FramerState {
        FramerState { pending: self.buf@, poisoned: self.poisoned }
    }
}

impl Framer {
    /// The ceiling on a message's length.
    pub closed spec fn max(&self) -> int {
        self.max_message_size as int
    }

    /// What holds of every framer: nothing whole is pending.
    #[verifier::type_invariant]
    spec fn inv(self) -> bool {
        state_wf(self@, self.max())
    }

    /// A framer that has seen no byte and refuses messages longer than
    /// `max_message_size`.
    pub fn new(max_message_size: usize) -> (framer: Framer)
        ensures
            state_wf(framer@, framer.max()),
            framer@ == fresh_state(),
            framer.max() == max_message_size,
    {
        Framer { buf: Vec::new(), max_message_size, poisoned: false }
    }

    /// Number of bytes held for a message that is not yet whole: fewer than
    /// a header has, or fewer than the ceiling admits.
    pub fn buffered(&self) -> (n: usize)
        ensures
            n == self@.pending.len(),
            n < HEADER_LEN || n < self.max(),
    {
        proof {
            use_type_invariant(self);
        }
        self.buf.len()
    }

    /// Whether a refused header has stopped this framer.
    pub fn is_poisoned(&self) -> (b: bool)
        ensures
            b == self@.poisoned,
    {
        self.poisoned
    }

    /// Takes the next chunk of the stream and yields the messages it
    /// completes. A header with a refused length stops the framer: the
    /// messages before it are still yielded, together with the error, and
    /// every later chunk yields nothing but the error.
    pub fn push(&mut self, chunk: &[u8]) -> (out: Framed)
        ensures
            state_wf(old(self)@, old(self).max()),
            state_wf(final(self)@, final(self).max()),
            final(self).max() == old(self).max(),
            final(self)@ == push_state(old(self)@, chunk@, old(self).max()),
            frames_view(out.messages@) == push_frames(old(self)@, chunk@, old(self).max()),
            out.error == if final(self)@.poisoned {
                Some(FrameError::ProtocolError)
            } else {
                None::<FrameError>
            },
    {
        proof {
            use_type_invariant(&*self);
        }
        let mut messages: Vec<WireMessage> = Vec::new();
        if self.poisoned {
            assert(frames_view(messages@) =~= Seq::<Frame>::empty());
            return Framed { messages, error: Some(FrameError::ProtocolError) };
        }
        let ghost max = self.max();
        let ghost input = old(self)@.pending + chunk@;
        let mut work: Vec<u8> = Vec::new();
        core::mem::swap(&mut self.buf, &mut work);
        work.extend_from_slice(chunk);
        assert(work@ =~= input);
        let limit = self.max_message_size;
        let mut off: usize = 0;
        let mut bad = false;
        assert(input.skip(0) =~= input);
        assert(frames_view(messages@) =~= Seq::<Frame>::empty());
        loop
            invariant_except_break
                !bad,
            invariant
                work@ == input,
                limit as int == max,
                off <= input.len(),
                frames_of(input, max) == frames_view(messages@) + frames_of(input.skip(off as int), max),
                framed_len(input, max) == off + framed_len(input.skip(off as int), max),
            ensures
                !starts_with_frame(input.skip(off as int), max),
                bad == starts_with_bad_header(input.skip(off as int), max),
            decreases input.len() - off,
        {
            let ghost tail = input.skip(off as int);
            let rest = slice_subrange(work.as_slice(), off, work.len());
            assert(rest@ =~= tail);
            let header = match WireHeader::parse(rest) {
                Some(h) => h,
                None => {
                    break ;
                },
            };
            proof {
                lemma_le_i32_range(tail, 0);
            }
            let total = header.total_length;
            if total < 16 || total as usize > limit {
                bad = true;
                break ;
            }
            let n = total as usize;
            if rest.len() < n {
                break ;
            }
            let payload = slice_to_vec(slice_subrange(rest, HEADER_LEN, n));
            let message = WireMessage { header, payload };
            proof {
                assert(starts_with_frame(tail, max));
                assert(message@ == first_frame(tail));
                assert(tail.skip(n as int) =~= input.skip(off + n));
                assert(frames_view(messages@.push(message)) =~= frames_view(messages@).push(
                    message@,
                ));
                assert(frames_view(messages@).push(message@) + frames_of(
                    input.skip(off + n),
                    max,
                ) =~= frames_view(messages@) + frames_of(tail, max));
            }
            messages.push(message);
            off = off + n;
        }
        proof {
            lemma_framed_len(input.skip(off as int), max);
            assert(frames_of(input, max) =~= frames_view(messages@));
            assert(remainder(input, max) == input.skip(off as int));
        }
        if bad {
            self.poisoned = true;
            Framed { messages, error: Some(FrameError::ProtocolError) }
        } else {
            if off > 0 {
                let tail = work.split_off(off);
                assert(tail@ =~= input.skip(off as int));
                self.buf = tail;
            } else {
                assert(work@ =~= input.skip(off as int));
                self.buf = work;
            }
            Framed { messages, error: None }
        }
    }

    /// How the stream ends if it closes now: cleanly between two messages,
    /// with `UnexpectedEof` inside one, with `ProtocolError` once a header
    /// has been refused.
    pub fn finish(&self) -> (r: Result<(), FrameError>)
        ensures
            r == state_end(self@),
    {
        if self.poisoned {
            Err(FrameError::ProtocolError)
        } else if self.buf.len() == 0 {
            Ok(())
        } else {
            Err(FrameError::UnexpectedEof)
        }
    }
}

/// A state that `state_wf` admits is followed by one that it admits,
/// whatever the chunk.
pub proof fn lemma_push_keeps_wf(st: FramerState, chunk: Seq<u8>, max: int)
    requires
        state_wf(st, max),
    ensures
        state_wf(push_state(st, chunk, max), max),
{
    lemma_framed_len(st.pending + chunk, max);
}

/// A framer never holds a whole message: what is pending is shorter than a
/// header, or shorter than the ceiling.
pub proof fn lemma_pending_is_bounded(st: FramerState, max: int)
    requires
        state_wf(st, max),
    ensures
        st.pending.len() < HEADER_LEN || st.pending.len() < max,
{
}

/// The chunks of a stream, put together again.
pub open spec fn joined(chunks: Seq<Seq<u8>>) -> Seq<u8>
    decreases chunks.len(),
{
    if chunks.len() == 0 {
        Seq::empty()
    } else {
        joined(chunks.drop_last()) + chunks.last()
    }
}

/// The state of a framer that was fed `chunks`, one after the other.
pub open spec fn feed_state(chunks: Seq<Seq<u8>>, max: int) -> FramerState
    decreases chunks.len(),
{
    if chunks.len() == 0 {
        fresh_state()
    } else {
        push_state(feed_state(chunks.drop_last(), max), chunks.last(), max)
    }
}

/// All the messages that a framer yields while it is fed `chunks`.
pub open spec fn feed_frames(chunks: Seq<Seq<u8>>, max: int) -> Seq<Frame>
    decreases chunks.len(),
{
    if chunks.len() == 0 {
        Seq::empty()
    } else {
        feed_frames(chunks.drop_last(), max) + push_frames(
            feed_state(chunks.drop_last(), max),
            chunks.last(),
            max,
        )
    }
}

/// Chunk boundaries never show. However a stream is cut into chunks, a framer
/// fed with them yields the messages of the whole stream, keeps what the
/// stream leaves over, and ends as the stream ends.
pub proof fn lemma_chunking_is_invisible(chunks: Seq<Seq<u8>>, max: int)
    ensures
        feed_frames(chunks, max) == frames_of(joined(chunks), max),
        state_wf(feed_state(chunks, max), max),
        feed_state(chunks, max).poisoned == starts_with_bad_header(
            remainder(joined(chunks), max),
            max,
        ),
        !feed_state(chunks, max).poisoned ==> feed_state(chunks, max).pending == remainder(
            joined(chunks),
            max,
        ),
        state_end(feed_state(chunks, max)) == stream_end(joined(chunks), max),
    decreases chunks.len(),
{
    if chunks.len() == 0 {
        assert(joined(chunks).skip(0) =~= joined(chunks));
    } else {
        let head = chunks.drop_last();
        let a = joined(head);
        let b = chunks.last();
        let st = feed_state(head, max);
        lemma_chunking_is_invisible(head, max);
        lemma_frames_append(a, b, max);
        let r = remainder(a, max) + b;
        lemma_framed_len(r, max);
        if st.poisoned {
            lemma_header_agree(r, remainder(a, max));
            assert(starts_with_bad_header(r, max));
            assert(r.skip(0) =~= r);
            assert(frames_of(a + b, max) =~= frames_of(a, max));
        }
    }
}

/// The bytes of a sequence of messages, one behind the other.
pub open spec fn encode_all(frames: Seq<Frame>) -> Seq<u8>
    decreases frames.len(),
{
    if frames.len() == 0 {
        Seq::empty()
    } else {
        frame_bytes(frames.first()) + encode_all(frames.drop_first())
    }
}

/// Every message of `frames` tells its true length, which `max` admits.
pub open spec fn all_valid(frames: Seq<Frame>, max: int) -> bool {
    forall|i: int| 0 <= i < frames.len() ==> frame_valid(#[trigger] frames[i], max)
}

/// How many of `frames`, from the first on, lie whole within the first `n`
/// bytes of their encoding.
pub open spec fn whole_within(frames: Seq<Frame>, n: int) -> int
    decreases frames.len(),
{
    if frames.len() == 0 || frame_bytes(frames.first()).len() > n {
        0
    } else {
        1 + whole_within(frames.drop_first(), n - frame_bytes(frames.first()).len())
    }
}

/// Framing neither adds nor loses a byte: every message found tells its true
/// length, which the ceiling admits, and the messages found, written out
/// again one behind the other, are the framed part of the stream.
pub proof fn lemma_frames_are_the_stream(s: Seq<u8>, max: int)
    ensures
        all_valid(frames_of(s, max), max),
        0 <= framed_len(s, max) <= s.len(),
        encode_all(frames_of(s, max)) == s.take(framed_len(s, max)),
    decreases s.len(),
{
    lemma_framed_len(s, max);
    let frames = frames_of(s, max);
    if starts_with_frame(s, max) {
        let n = le_i32(s, 0);
        let f = first_frame(s);
        let rest = s.skip(n);
        lemma_frames_are_the_stream(rest, max);
        lemma_framed_len(rest, max);
        lemma_le_i32_range(s, 0);
        assert(frame_valid(f, max));
        assert(frames.first() == f);
        assert(frames.drop_first() =~= frames_of(rest, max));
        assert forall|i: int| 0 <= i < frames.len() implies frame_valid(
            #[trigger] frames[i],
            max,
        ) by {
            if i > 0 {
                assert(frames[i] == frames_of(rest, max)[i - 1]);
            }
        }
        lemma_header_bytes_round_trip(s);
        assert(frame_bytes(f) =~= s.take(n));
        assert(s.take(n) + rest.take(framed_len(rest, max)) =~= s.take(framed_len(s, max)));
    } else {
        assert(s.take(0) =~= Seq::<u8>::empty());
    }
}

/// A stream that starts with the bytes of a valid message starts with that
/// message.
proof fn lemma_starts_with_encoded(f: Frame, after: Seq<u8>, max: int)
    requires
        frame_valid(f, max),
    ensures
        frame_bytes(f).len() == f.header.total_length,
        starts_with_frame(frame_bytes(f) + after, max),
        le_i32(frame_bytes(f) + after, 0) == f.header.total_length,
        first_frame(frame_bytes(f) + after) == f,
        (frame_bytes(f) + after).skip(f.header.total_length as int) == after,
{
    let s = frame_bytes(f) + after;
    lemma_header_round_trip(f.header, f.payload + after);
    assert(s =~= crate::wire::header_bytes(f.header) + (f.payload + after));
    assert(s.subrange(HEADER_LEN as int, f.header.total_length as int) =~= f.payload);
    assert(s.skip(f.header.total_length as int) =~= after);
}

/// A stream that is the start of a valid message, but not all of it, holds
/// no message and no refused header.
proof fn lemma_cut_inside_first(f: Frame, after: Seq<u8>, max: int, n: int)
    requires
        frame_valid(f, max),
        0 <= n < frame_bytes(f).len(),
    ensures
        !starts_with_frame((frame_bytes(f) + after).take(n), max),
        !starts_with_bad_header((frame_bytes(f) + after).take(n), max),
        frames_of((frame_bytes(f) + after).take(n), max) == Seq::<Frame>::empty(),
        remainder((frame_bytes(f) + after).take(n), max) == (frame_bytes(f) + after).take(n),
{
    let whole = frame_bytes(f) + after;
    let cut = whole.take(n);
    lemma_starts_with_encoded(f, after, max);
    if n >= HEADER_LEN {
        lemma_header_agree(cut, whole);
    }
    assert(cut.skip(0) =~= cut);
}

/// A stream that starts with all of a valid message holds that message, then
/// what the rest of the stream holds.
proof fn lemma_cut_behind_first(f: Frame, tail: Seq<u8>, max: int)
    requires
        frame_valid(f, max),
    ensures
        frames_of(frame_bytes(f) + tail, max) == seq![f] + frames_of(tail, max),
        remainder(frame_bytes(f) + tail, max) == remainder(tail, max),
{
    let s = frame_bytes(f) + tail;
    let len = frame_bytes(f).len() as int;
    lemma_starts_with_encoded(f, tail, max);
    lemma_framed_len(tail, max);
    assert(framed_len(s, max) == len + framed_len(tail, max));
    assert(s.skip(len + framed_len(tail, max)) =~= tail.skip(framed_len(tail, max)));
}

/// Valid messages that were sent are found again, whatever follows them: the
/// stream holds them, in order, and then what the bytes behind them hold.
pub proof fn lemma_frames_of_encoded_then(frames: Seq<Frame>, tail: Seq<u8>, max: int)
    requires
        all_valid(frames, max),
    ensures
        frames_of(encode_all(frames) + tail, max) == frames + frames_of(tail, max),
        remainder(encode_all(frames) + tail, max) == remainder(tail, max),
        stream_end(encode_all(frames) + tail, max) == stream_end(tail, max),
    decreases frames.len(),
{
    if frames.len() == 0 {
        assert(encode_all(frames) + tail =~= tail);
        assert(frames + frames_of(tail, max) =~= frames_of(tail, max));
    } else {
        let f = frames.first();
        let rest = frames.drop_first();
        let behind = encode_all(rest) + tail;
        assert(frame_valid(f, max));
        assert forall|i: int| 0 <= i < rest.len() implies frame_valid(#[trigger] rest[i], max) by {
            assert(rest[i] == frames[i + 1]);
        }
        lemma_frames_of_encoded_then(rest, tail, max);
        lemma_cut_behind_first(f, behind, max);
        assert(encode_all(frames) + tail =~= frame_bytes(f) + behind);
        assert(seq![f] + (rest + frames_of(tail, max)) =~= frames + frames_of(tail, max));
    }
}

/// The framer yields exactly the messages that were sent: the encoding of
/// valid messages holds those messages, in order, and ends cleanly.
pub proof fn lemma_frames_of_encoded(frames: Seq<Frame>, max: int)
    requires
        all_valid(frames, max),
    ensures
        frames_of(encode_all(frames), max) == frames,
        remainder(encode_all(frames), max) == Seq::<u8>::empty(),
        stream_end(encode_all(frames), max) == Ok::<(), FrameError>(()),
{
    let e = Seq::<u8>::empty();
    lemma_frames_of_encoded_then(frames, e, max);
    assert(encode_all(frames) + e =~= encode_all(frames));
    assert(frames_of(e, max) =~= Seq::<Frame>::empty());
    assert(frames + Seq::<Frame>::empty() =~= frames);
    assert(remainder(e, max) =~= e);
}

/// Where a cut after `n` bytes falls: behind the first `whole_within`
/// messages, and before the end of the next one.
pub proof fn lemma_truncation_point(frames: Seq<Frame>, n: int)
    requires
        0 <= n <= encode_all(frames).len(),
    ensures
        ({
            let k = whole_within(frames, n);
            let used = encode_all(frames.take(k)).len();
            &&& 0 <= k <= frames.len()
            &&& used <= n
            &&& k == frames.len() ==> n == used && encode_all(frames).take(n) == encode_all(
                frames.take(k),
            )
            &&& k < frames.len() ==> n - used < frame_bytes(frames[k]).len() && encode_all(
                frames,
            ).take(n) == encode_all(frames.take(k)) + (frame_bytes(frames[k]) + encode_all(
                frames.skip(k + 1),
            )).take(n - used)
        }),
    decreases frames.len(),
{
    let whole = encode_all(frames);
    if frames.len() == 0 {
        assert(frames.take(0) =~= frames);
        assert(whole.take(0) =~= whole);
    } else {
        let f = frames.first();
        let rest = frames.drop_first();
        let len = frame_bytes(f).len() as int;
        if len > n {
            assert(frames.take(0) =~= Seq::<Frame>::empty());
            assert(frames.skip(1) =~= rest);
            assert(encode_all(frames.take(0)) + whole.take(n) =~= whole.take(n));
        } else {
            let k = whole_within(rest, n - len);
            let used = encode_all(rest.take(k)).len() as int;
            lemma_truncation_point(rest, n - len);
            assert(frames.take(k + 1).first() == f);
            assert(frames.take(k + 1).drop_first() =~= rest.take(k));
            assert(encode_all(frames.take(k + 1)) == frame_bytes(f) + encode_all(rest.take(k)));
            assert(whole.take(n) =~= frame_bytes(f) + encode_all(rest).take(n - len));
            if k < rest.len() {
                assert(rest[k] == frames[k + 1]);
                assert(rest.skip(k + 1) =~= frames.skip(k + 2));
                let part = (frame_bytes(rest[k]) + encode_all(rest.skip(k + 1))).take(
                    n - len - used,
                );
                assert(frame_bytes(f) + (encode_all(rest.take(k)) + part) =~= (frame_bytes(f)
                    + encode_all(rest.take(k))) + part);
            }
        }
    }
}

/// A stream cut short holds the longest run of whole messages that fits, and
/// then ends: cleanly where the cut falls between two messages, inside a
/// message otherwise. Cutting valid messages never gives a protocol error.
pub proof fn lemma_frames_of_truncated(frames: Seq<Frame>, max: int, n: int)
    requires
        all_valid(frames, max),
        0 <= n <= encode_all(frames).len(),
    ensures
        ({
            let cut = encode_all(frames).take(n);
            let k = whole_within(frames, n);
            let used = encode_all(frames.take(k)).len();
            &&& 0 <= k <= frames.len()
            &&& used <= n
            &&& k < frames.len() ==> n < used + frame_bytes(frames[k]).len()
            &&& frames_of(cut, max) == frames.take(k)
            &&& remainder(cut, max) == cut.skip(used as int)
            &&& stream_end(cut, max) == if n == used {
                Ok::<(), FrameError>(())
            } else {
                Err::<(), FrameError>(FrameError::UnexpectedEof)
            }
        }),
{
    let cut = encode_all(frames).take(n);
    let k = whole_within(frames, n);
    let sent = frames.take(k);
    let used = encode_all(sent).len() as int;
    lemma_truncation_point(frames, n);
    assert forall|i: int| 0 <= i < sent.len() implies frame_valid(#[trigger] sent[i], max) by {
        assert(sent[i] == frames[i]);
    }
    if k == frames.len() {
        lemma_frames_of_encoded(sent, max);
        assert(cut.skip(used) =~= Seq::<u8>::empty());
        assert(sent =~= frames);
    } else {
        let f = frames[k];
        let after = encode_all(frames.skip(k + 1));
        let part = (frame_bytes(f) + after).take(n - used);
        assert(frame_valid(f, max));
        lemma_cut_inside_first(f, after, max, n - used);
        lemma_frames_of_encoded_then(sent, part, max);
        assert(cut == encode_all(sent) + part);
        assert(sent + Seq::<Frame>::empty() =~= sent);
        assert(cut.skip(used) =~= part);
        assert(part.len() == n - used);
    }
}

} // verus!
