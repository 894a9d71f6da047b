//! Compressed messages. An `OP_COMPRESSED` payload is an envelope, which
//! names the compressor and the message that was compressed, and behind it
//! the compressed payload of that message.
//!
//! The three compressors are those of the `snap`, `flate2` and `ruzstd`
//! crates. What they return is trusted, and named rather than described:
//! everything around the calls is proved for whatever they return. Each call
//! gets a buffer of the length that the envelope announces, which is never
//! more than the ceiling on a message's length.

use vstd::prelude::*;
use vstd::slice::slice_to_vec;
use crate::bson::name_view;
use crate::decoder::{
    CompressedEnvelope, DecodedMessage, OpKind, Summary, bare, compressed_parts, decode_payload,
    envelope_of, op_kind_of, summary_of, ENVELOPE_LEN,
};

verus! {

/// The compressor that leaves the payload as it is.
pub const COMPRESSOR_NOOP: u8 = 0;

/// Snappy, in its raw format.
pub const COMPRESSOR_SNAPPY: u8 = 1;

/// zlib.
pub const COMPRESSOR_ZLIB: u8 = 2;

/// Zstandard.
pub const COMPRESSOR_ZSTD: u8 = 3;

/// What raw Snappy data decompresses to in `room` bytes; `None` where the
/// data is invalid or decompresses to more than that.
pub uninterp spec fn snappy_decoded(data: Seq<u8>, room: int) -> Option<Seq<u8>>;

/// What a zlib stream decompresses to in one step and in `room` bytes;
/// `None` where the stream is invalid, incomplete or longer than that.
pub uninterp spec fn zlib_decoded(data: Seq<u8>, room: int) -> Option<Seq<u8>>;

/// What Zstandard frames decompress to in `room` bytes, by a decoder that
/// refuses a frame whose window is above `window`; `None` where the frames
/// are invalid, incomplete, longer than `room` or refused.
pub uninterp spec fn zstd_decoded(data: Seq<u8>, room: int, window: int) -> Option<Seq<u8>>;

/// Calls `snap::raw::Decoder::decompress` with a buffer of `room` bytes and
/// keeps what was written. Trusted: the result depends on the data and on
/// `room` alone.
#[verifier::external_body]
fn snappy_decompress(data: &[u8], room: usize) -> (out: Option<Vec<u8>>)
    ensures
        name_view(out) == snappy_decoded(data@, room as int),
{
    let mut out = vec![0u8; room];
    match snap::raw::Decoder::new().decompress(data, &mut out) {
        Ok(written) => {
            out.truncate(written);
            Some(out)
        },
        Err(_) => None,
    }
}

/// Calls `flate2::Decompress::decompress` once, on a stream with a zlib
/// header, with a buffer of `room` bytes and the instruction to finish, and
/// keeps what was written if the end of the stream was reached. Trusted: the
/// result depends on the data and on `room` alone.
#[verifier::external_body]
fn zlib_decompress(data: &[u8], room: usize) -> (out: Option<Vec<u8>>)
    ensures
        name_view(out) == zlib_decoded(data@, room as int),
{
    let mut out = vec![0u8; room];
    let mut inflater = flate2::Decompress::new(true);
    match inflater.decompress(data, &mut out, flate2::FlushDecompress::Finish) {
        Ok(flate2::Status::StreamEnd) => {
            out.truncate(inflater.total_out() as usize);
            Some(out)
        },
        Ok(flate2::Status::Ok) => None,
        Ok(flate2::Status::BufError) => None,
        Err(_) => None,
    }
}

/// Calls `ruzstd::decoding::FrameDecoder::decode_all` with a buffer of
/// `room` bytes, on a decoder whose largest window was set to `window` by
/// `set_max_window_size`, and keeps what was written. Trusted: the result
/// depends on the data, on `room` and on `window` alone.
#[verifier::external_body]
fn zstd_decompress(data: &[u8], room: usize, window: usize) -> (out: Option<Vec<u8>>)
    ensures
        name_view(out) == zstd_decoded(data@, room as int, window as int),
{
    let mut out = vec![0u8; room];
    let mut decoder = ruzstd::decoding::FrameDecoder::new();
    decoder.set_max_window_size(window as u64);
    match decoder.decode_all(data, &mut out) {
        Ok(written) => {
            out.truncate(written);
            Some(out)
        },
        Err(_) => None,
    }
}

/// What a compressor returned, if it has the length that the envelope
/// announced.
pub open spec fn checked(out: Option<Seq<u8>>, size: int) -> Option<Seq<u8>> {
    match out {
        Some(bytes) => if bytes.len() == size {
            Some(bytes)
        } else {
            None
        },
        None => None,
    }
}

/// The payload that was compressed: what the envelope's compressor makes of
/// `data`, if that has the length that the envelope announces. `None` where
/// that length is negative or above `max`, where the compressor is not
/// known, where the data is invalid, and where it decompresses to another
/// length. No compressor is given room for more than the envelope
/// announces, and a Zstandard frame is only opened if its window is no larger
/// than `max`.
pub open spec fn inflated(envelope: CompressedEnvelope, data: Seq<u8>, max: int) -> Option<
    Seq<u8>,
> {
    let size = envelope.uncompressed_size as int;
    let id = envelope.compressor_id;
    if size < 0 || size > max {
        None
    } else if id == COMPRESSOR_NOOP {
        checked(Some(data), size)
    } else if id == COMPRESSOR_SNAPPY {
        checked(snappy_decoded(data, size), size)
    } else if id == COMPRESSOR_ZLIB {
        checked(zlib_decoded(data, size), size)
    } else if id == COMPRESSOR_ZSTD {
        checked(zstd_decoded(data, size, max), size)
    } else {
        None
    }
}

/// The summary of a message that was found inside a compressed one. A
/// compressed message inside a compressed message is not opened.
pub open spec fn inner_summary(op_code: i32, payload: Seq<u8>) -> Summary {
    if op_kind_of(op_code) is Compressed {
        bare(OpKind::Compressed)
    } else {
        summary_of(op_code, payload)
    }
}

/// The summary of a compressed message, given what its data decompressed
/// to: that of the message inside, or nothing but the kind where the data
/// could not be decompressed.
pub open spec fn opened_summary(envelope: CompressedEnvelope, payload: Option<Seq<u8>>) -> Summary {
    match payload {
        Some(bytes) => inner_summary(envelope.original_opcode, bytes),
        None => bare(OpKind::Compressed),
    }
}

/// The summary of an `OP_COMPRESSED` payload.
pub open spec fn compressed_summary(payload: Seq<u8>, max: int) -> Summary {
    if payload.len() < ENVELOPE_LEN {
        bare(OpKind::Compressed)
    } else {
        opened_summary(
            envelope_of(payload),
            inflated(envelope_of(payload), payload.skip(ENVELOPE_LEN as int), max),
        )
    }
}

/// The summary of any message: that of the message inside where it is
/// compressed, its own otherwise.
pub open spec fn message_summary(op_code: i32, payload: Seq<u8>, max: int) -> Summary {
    if op_kind_of(op_code) is Compressed {
        compressed_summary(payload, max)
    } else {
        summary_of(op_code, payload)
    }
}

/// Keeps what a compressor returned if it has the length `size`.
pub fn accept_inflated(out: Option<Vec<u8>>, size: usize) -> (kept: Option<Vec<u8>>)
    ensures
        name_view(kept) == checked(name_view(out), size as int),
{
    match out {
        Some(bytes) => {
            if bytes.len() == size {
                Some(bytes)
            } else {
                None
            }
        },
        None => None,
    }
}

/// Decompresses the data behind an envelope, into at most `max` bytes.
pub fn inflate(envelope: &CompressedEnvelope, data: &[u8], max: usize) -> (out: Option<Vec<u8>>)
    ensures
        name_view(out) == inflated(*envelope, data@, max as int),
{
    if envelope.uncompressed_size < 0 {
        return None;
    }
    let size = envelope.uncompressed_size as usize;
    if size > max {
        return None;
    }
    let id = envelope.compressor_id;
    if id == COMPRESSOR_NOOP {
        accept_inflated(Some(slice_to_vec(data)), size)
    } else if id == COMPRESSOR_SNAPPY {
        accept_inflated(snappy_decompress(data, size), size)
    } else if id == COMPRESSOR_ZLIB {
        accept_inflated(zlib_decompress(data, size), size)
    } else if id == COMPRESSOR_ZSTD {
        accept_inflated(zstd_decompress(data, size, max), size)
    } else {
        None
    }
}

/// Summarises a compressed message, given what its data decompressed to.
pub fn decode_inflated(envelope: &CompressedEnvelope, payload: Option<Vec<u8>>) -> (d:
    DecodedMessage)
    ensures
        d@ == opened_summary(*envelope, name_view(payload)),
{
    match payload {
        Some(bytes) => {
            if envelope.original_opcode == crate::decoder::OP_COMPRESSED {
                DecodedMessage::bare(OpKind::Compressed)
            } else {
                decode_payload(envelope.original_opcode, bytes.as_slice())
            }
        },
        None => DecodedMessage::bare(OpKind::Compressed),
    }
}

/// Summarises the message inside an `OP_COMPRESSED` payload, which it
/// decompresses into at most `max` bytes.
pub fn decode_compressed(payload: &[u8], max: usize) -> (d: DecodedMessage)
    ensures
        d@ == compressed_summary(payload@, max as int),
{
    match compressed_parts(payload) {
        Some((envelope, data)) => {
            let opened = inflate(&envelope, data, max);
            decode_inflated(&envelope, opened)
        },
        None => DecodedMessage::bare(OpKind::Compressed),
    }
}

} // verus!
