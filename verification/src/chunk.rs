//! Chunks of the stream as they travel to an observer: reference-counted byte
//! buffers of the `bytes` crate. The two calls into that crate are the only
//! code here that is trusted rather than proved.

use vstd::prelude::*;

verus! {

/// `bytes::Bytes`, a cheaply cloneable slice of bytes. Nothing inside a value
/// is visible here: what it holds is named by `chunk_bytes`.
#[verifier::external_type_specification]
#[verifier::external_body]
pub struct ExBytes(bytes::Bytes);

/// The bytes that a buffer holds, in order.
pub uninterp spec fn chunk_bytes(b: bytes::Bytes) -> Seq<u8>;

/// Calls `bytes::Bytes::copy_from_slice`, which copies `data` into a vector
/// and turns that vector into a buffer. Trusted: the buffer holds exactly the
/// bytes of `data`.
#[verifier::external_body]
pub(crate) fn copy_chunk(data: &[u8]) -> (b: bytes::Bytes)
    ensures
        chunk_bytes(b) == data@,
{
    bytes::Bytes::copy_from_slice(data)
}

/// Calls `<bytes::Bytes as AsRef<[u8]>>::as_ref`, which hands out the
/// buffer's bytes as a slice. Trusted: the slice is what the buffer holds.
#[verifier::external_body]
pub(crate) fn chunk_slice(b: &bytes::Bytes) -> (s: &[u8])
    ensures
        s@ == chunk_bytes(*b),
{
    b.as_ref()
}

} // verus!
