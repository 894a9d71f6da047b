//! The wire format: the sixteen-byte header that starts every message and the
//! little-endian integers it is made of.

use vstd::prelude::*;

verus! {

/// Length of the header that starts every message.
pub const HEADER_LEN: usize = 16;

/// The largest message the protocol documents: 48 MiB.
pub const MAX_MESSAGE_SIZE: usize = 50331648;

/// The header of a message, as sent: four little-endian signed integers.
#[derive(Clone, Copy, Debug, PartialEq, Eq, Structural)]
pub struct WireHeader {
    /// Length of the whole message, header included.
    pub total_length: i32,
    /// Identifier chosen by the sender.
    pub request_id: i32,
    /// In a reply, the `request_id` of the request it answers; else 0.
    pub response_to: i32,
    /// Kind of message.
    pub op_code: i32,
}

/// A message as a value: its header and the bytes that follow it.
pub struct Frame {
    pub header: WireHeader,
    pub payload: Seq<u8>,
}

/// A message taken off the wire.
#[derive(Clone, Debug, PartialEq, Eq)]
pub struct WireMessage {
    pub header: WireHeader,
    pub payload: Vec<u8>,
}

impl View for WireMessage {
    type V = Frame;

    open spec fn view(&self) -> Frame {
        Frame { header: self.header, payload: self.payload@ }
    }
}

/// The messages of a vector, as values.
pub open spec fn frames_view(messages: Seq<WireMessage>) -> Seq<Frame> {
    messages.map_values(|m: WireMessage| m@)
}

/// The unsigned number that the four bytes of `s` from `at` spell, lowest
/// byte first.
#[verifier::opaque]
pub open spec fn le_u32(s: Seq<u8>, at: int) -> int {
    s[at] as int + 256 * (s[at + 1] as int) + 65536 * (s[at + 2] as int) + 16777216 * (s[at
        + 3] as int)
}

/// The signed number that the four bytes of `s` from `at` spell, lowest byte
/// first, in two's complement.
pub open spec fn le_i32(s: Seq<u8>, at: int) -> int {
    let u = le_u32(s, at);
    if u < 2147483648 {
        u
    } else {
        u - 4294967296
    }
}

/// The signed number that the eight bytes of `s` from `at` spell, lowest
/// byte first, in two's complement.
pub open spec fn le_i64(s: Seq<u8>, at: int) -> int {
    le_u32(s, at) + 4294967296 * le_i32(s, at + 4)
}

/// The four bytes that spell `v`, lowest byte first, in two's complement.
#[verifier::opaque]
pub open spec fn i32_le_bytes(v: int) -> Seq<u8> {
    let u = if v >= 0 {
        v
    } else {
        v + 4294967296
    };
    seq![
        (u % 256) as u8,
        ((u / 256) % 256) as u8,
        ((u / 65536) % 256) as u8,
        ((u / 16777216) % 256) as u8,
    ]
}

/// The header that the first sixteen bytes of `s` spell.
pub open spec fn header_of(s: Seq<u8>) -> WireHeader {
    WireHeader {
        total_length: le_i32(s, 0) as i32,
        request_id: le_i32(s, 4) as i32,
        response_to: le_i32(s, 8) as i32,
        op_code: le_i32(s, 12) as i32,
    }
}

/// The sixteen bytes that spell `h`.
pub open spec fn header_bytes(h: WireHeader) -> Seq<u8> {
    i32_le_bytes(h.total_length as int) + i32_le_bytes(h.request_id as int) + i32_le_bytes(
        h.response_to as int,
    ) + i32_le_bytes(h.op_code as int)
}

/// The bytes of a whole message: header, then payload.
pub open spec fn frame_bytes(f: Frame) -> Seq<u8> {
    header_bytes(f.header) + f.payload
}

/// A message whose header tells its true length, which `max` admits.
pub open spec fn frame_valid(f: Frame, max: int) -> bool {
    &&& f.header.total_length == HEADER_LEN + f.payload.len()
    &&& f.header.total_length <= max
}

/// Four bytes always spell a number that fits an `i32`.
pub proof fn lemma_le_i32_range(s: Seq<u8>, at: int)
    ensures
        -2147483648 <= le_i32(s, at) <= 2147483647,
{
    reveal(le_u32);
}

/// The number read at `at` depends on the four bytes there and on nothing
/// else.
pub proof fn lemma_le_i32_agree(s: Seq<u8>, t: Seq<u8>, at: int)
    requires
        forall|i: int| at <= i < at + 4 ==> s[i] == t[i],
    ensures
        le_i32(s, at) == le_i32(t, at),
{
    reveal(le_u32);
}

/// The header read from `s` depends on the first sixteen bytes of `s` and on
/// nothing else.
pub proof fn lemma_header_agree(s: Seq<u8>, t: Seq<u8>)
    requires
        forall|i: int| 0 <= i < HEADER_LEN ==> s[i] == t[i],
    ensures
        header_of(s) == header_of(t),
        le_i32(s, 0) == le_i32(t, 0),
{
    lemma_le_i32_agree(s, t, 0);
    lemma_le_i32_agree(s, t, 4);
    lemma_le_i32_agree(s, t, 8);
    lemma_le_i32_agree(s, t, 12);
}

/// Reading back the four bytes written for `v` gives `v`, whatever follows
/// them and wherever they stand.
pub proof fn lemma_le_i32_round_trip(before: Seq<u8>, v: i32, after: Seq<u8>)
    ensures
        i32_le_bytes(v as int).len() == 4,
        le_i32(before + i32_le_bytes(v as int) + after, before.len() as int) == v,
{
    reveal(le_u32);
    reveal(i32_le_bytes);
    let b = i32_le_bytes(v as int);
    let s = before + b + after;
    let at = before.len() as int;
    let u: int = if v >= 0 {
        v as int
    } else {
        v + 4294967296
    };
    assert(s[at] == b[0]);
    assert(s[at + 1] == b[1]);
    assert(s[at + 2] == b[2]);
    assert(s[at + 3] == b[3]);
    assert(u == u % 256 + 256 * ((u / 256) % 256) + 65536 * ((u / 65536) % 256) + 16777216 * ((u
        / 16777216) % 256));
}

/// Writing the number read from four bytes gives those four bytes again.
pub proof fn lemma_i32_bytes_round_trip(s: Seq<u8>, at: int)
    requires
        0 <= at,
        at + 4 <= s.len(),
    ensures
        i32_le_bytes(le_i32(s, at)) == s.subrange(at, at + 4),
{
    reveal(le_u32);
    reveal(i32_le_bytes);
    let b0 = s[at] as int;
    let b1 = s[at + 1] as int;
    let b2 = s[at + 2] as int;
    let b3 = s[at + 3] as int;
    let u = b0 + 256 * b1 + 65536 * b2 + 16777216 * b3;
    assert(u % 256 == b0);
    assert((u / 256) % 256 == b1);
    assert((u / 65536) % 256 == b2);
    assert((u / 16777216) % 256 == b3);
    assert(i32_le_bytes(le_i32(s, at)) =~= s.subrange(at, at + 4));
}

/// Writing the header read from sixteen bytes gives those sixteen bytes
/// again.
pub proof fn lemma_header_bytes_round_trip(s: Seq<u8>)
    requires
        s.len() >= HEADER_LEN,
    ensures
        header_bytes(header_of(s)) == s.take(HEADER_LEN as int),
{
    lemma_le_i32_range(s, 0);
    lemma_le_i32_range(s, 4);
    lemma_le_i32_range(s, 8);
    lemma_le_i32_range(s, 12);
    lemma_i32_bytes_round_trip(s, 0);
    lemma_i32_bytes_round_trip(s, 4);
    lemma_i32_bytes_round_trip(s, 8);
    lemma_i32_bytes_round_trip(s, 12);
    assert(s.subrange(0, 4) + s.subrange(4, 8) + s.subrange(8, 12) + s.subrange(12, 16) =~= s.take(
        HEADER_LEN as int,
    ));
}

/// A header is read back from its own bytes, whatever follows them.
pub proof fn lemma_header_round_trip(h: WireHeader, after: Seq<u8>)
    ensures
        header_bytes(h).len() == HEADER_LEN,
        header_of(header_bytes(h) + after) == h,
        le_i32(header_bytes(h) + after, 0) == h.total_length,
{
    let e = Seq::<u8>::empty();
    let t = i32_le_bytes(h.total_length as int);
    let q = i32_le_bytes(h.request_id as int);
    let r = i32_le_bytes(h.response_to as int);
    let o = i32_le_bytes(h.op_code as int);
    let s = header_bytes(h) + after;
    lemma_le_i32_round_trip(e, h.total_length, q + r + o + after);
    lemma_le_i32_round_trip(t, h.request_id, r + o + after);
    lemma_le_i32_round_trip(t + q, h.response_to, o + after);
    lemma_le_i32_round_trip(t + q + r, h.op_code, after);
    assert(s =~= e + t + (q + r + o + after));
    assert(s =~= t + q + (r + o + after));
    assert(s =~= (t + q) + r + (o + after));
    assert(s =~= (t + q + r) + o + after);
}

/// Reads the unsigned little-endian number in the four bytes from `at`.
pub(crate) fn read_u32_le(bytes: &[u8], at: usize) -> (v: u32)
    requires
        at + 4 <= bytes@.len(),
    ensures
        v == le_u32(bytes@, at as int),
{
    proof {
        reveal(le_u32);
    }
    let b0: u32 = bytes[at] as u32;
    let b1: u32 = bytes[at + 1] as u32;
    let b2: u32 = bytes[at + 2] as u32;
    let b3: u32 = bytes[at + 3] as u32;
    b0 + b1 * 256 + b2 * 65536 + b3 * 16777216
}

/// Reads the signed little-endian number in the eight bytes from `at`.
pub(crate) fn read_i64_le(bytes: &[u8], at: usize) -> (v: i64)
    requires
        at + 8 <= bytes@.len(),
    ensures
        v == le_i64(bytes@, at as int),
{
    let len = bytes.len();
    assert(at + 8 <= len);
    let low: i64 = read_u32_le(bytes, at) as i64;
    let high: i64 = read_i32_le(bytes, at + 4) as i64;
    high * 4294967296 + low
}

/// Reads the signed little-endian number in the four bytes from `at`.
pub(crate) fn read_i32_le(bytes: &[u8], at: usize) -> (v: i32)
    requires
        at + 4 <= bytes@.len(),
    ensures
        v == le_i32(bytes@, at as int),
{
    let u: u32 = read_u32_le(bytes, at);
    if u < 2147483648 {
        u as i32
    } else {
        let low: i32 = (u - 2147483648) as i32;
        low - 2147483647 - 1
    }
}

/// Appends the four bytes that spell `v` to `out`.
pub(crate) fn write_i32_le(out: &mut Vec<u8>, v: i32)
    ensures
        final(out)@ == old(out)@ + i32_le_bytes(v as int),
{
    proof {
        reveal(i32_le_bytes);
    }
    let u: u32 = if v >= 0 {
        v as u32
    } else {
        let low: u32 = (v + 2147483647 + 1) as u32;
        low + 2147483648
    };
    out.push((u % 256) as u8);
    out.push(((u / 256) % 256) as u8);
    out.push(((u / 65536) % 256) as u8);
    out.push(((u / 16777216) % 256) as u8);
    assert(out@ =~= old(out)@ + i32_le_bytes(v as int));
}

impl WireHeader {
    /// Reads a header from the start of `bytes`; `None` where fewer than
    /// sixteen bytes are there. Any sixteen bytes spell a header: whether its
    /// length is acceptable is for the framer to say.
    pub fn parse(bytes: &[u8]) -> (r: Option<WireHeader>)
        ensures
            r is Some <==> bytes@.len() >= HEADER_LEN,
            r is Some ==> r->Some_0 == header_of(bytes@),
    {
        if bytes.len() < HEADER_LEN {
            return None;
        }
        proof {
            lemma_le_i32_range(bytes@, 0);
            lemma_le_i32_range(bytes@, 4);
            lemma_le_i32_range(bytes@, 8);
            lemma_le_i32_range(bytes@, 12);
        }
        Some(
            WireHeader {
                total_length: read_i32_le(bytes, 0),
                request_id: read_i32_le(bytes, 4),
                response_to: read_i32_le(bytes, 8),
                op_code: read_i32_le(bytes, 12),
            },
        )
    }

    /// The sixteen bytes of this header, as sent.
    pub fn to_bytes(&self) -> (out: Vec<u8>)
        ensures
            out@ == header_bytes(*self),
    {
        let mut out: Vec<u8> = Vec::new();
        write_i32_le(&mut out, self.total_length);
        write_i32_le(&mut out, self.request_id);
        write_i32_le(&mut out, self.response_to);
        write_i32_le(&mut out, self.op_code);
        assert(out@ =~= header_bytes(*self));
        out
    }
}

impl WireMessage {
    /// A message with the given identifiers and payload, its length set to
    /// what it takes on the wire; `None` where that length does not fit the
    /// header's signed 32 bits.
    pub fn new(request_id: i32, response_to: i32, op_code: i32, payload: Vec<u8>) -> (r: Option<
        WireMessage,
    >)
        ensures
            r is Some <==> HEADER_LEN + payload@.len() <= i32::MAX,
            r is Some ==> r->Some_0@ == (Frame {
                header: WireHeader {
                    total_length: (HEADER_LEN + payload@.len()) as i32,
                    request_id,
                    response_to,
                    op_code,
                },
                payload: payload@,
            }),
    {
        if payload.len() > 2147483647 - HEADER_LEN {
            return None;
        }
        let total_length: i32 = (payload.len() + HEADER_LEN) as i32;
        Some(
            WireMessage {
                header: WireHeader { total_length, request_id, response_to, op_code },
                payload,
            },
        )
    }

    /// The bytes of this message, as sent: header, then payload.
    pub fn to_bytes(&self) -> (out: Vec<u8>)
        ensures
            out@ == frame_bytes(self@),
    {
        let mut out = self.header.to_bytes();
        out.extend_from_slice(self.payload.as_slice());
        assert(out@ =~= frame_bytes(self@));
        out
    }
}

} // verus!
