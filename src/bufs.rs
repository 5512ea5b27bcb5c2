//! The byte buffers of the `bytes` crate, as this library uses them.
use vstd::prelude::*;

verus! {

/// The growable byte buffer of the `bytes` crate, opaque here.
#[verifier::external_type_specification]
#[verifier::external_body]
pub struct ExBytesMut(bytes::BytesMut);

/// The immutable byte buffer of the `bytes` crate, opaque here.
#[verifier::external_type_specification]
#[verifier::external_body]
pub struct ExBytes(bytes::Bytes);

/// The bytes that a `BytesMut` holds, first to last.
pub uninterp spec fn bytes_mut_contents(b: bytes::BytesMut) -> Seq<u8>;

/// The bytes that a `Bytes` holds, first to last.
pub uninterp spec fn bytes_contents(b: bytes::Bytes) -> Seq<u8>;

/// Relies on `BytesMut::new`: a new buffer is empty.
#[verifier::external_body]
pub(crate) fn buf_new() -> (r: bytes::BytesMut)
    ensures
        bytes_mut_contents(r) == Seq::<u8>::empty(),
{
    bytes::BytesMut::new()
}

/// Relies on `BytesMut::len`: the number of bytes held.
#[verifier::external_body]
pub(crate) fn buf_len(b: &bytes::BytesMut) -> (r: usize)
    ensures
        r == bytes_mut_contents(*b).len(),
{
    b.len()
}

/// Relies on indexing through `BytesMut`'s `Deref` to `[u8]`: the byte at `i`.
#[verifier::external_body]
pub(crate) fn buf_byte(b: &bytes::BytesMut, i: usize) -> (r: u8)
    requires
        i < bytes_mut_contents(*b).len(),
    ensures
        r == bytes_mut_contents(*b)[i as int],
{
    b[i]
}

/// Relies on `Buf::advance` for `BytesMut`: drops the first `n` bytes; it
/// panics when `n` exceeds the length.
#[verifier::external_body]
pub(crate) fn buf_advance(b: &mut bytes::BytesMut, n: usize)
    requires
        n <= bytes_mut_contents(*old(b)).len(),
    ensures
        bytes_mut_contents(*final(b)) == bytes_mut_contents(*old(b)).subrange(
            n as int,
            bytes_mut_contents(*old(b)).len() as int,
        ),
{
    bytes::Buf::advance(b, n)
}

/// Relies on `BytesMut::extend_from_slice`: appends `s`; the buffer's
/// capacity may not pass `isize::MAX`.
#[verifier::external_body]
pub(crate) fn buf_extend(b: &mut bytes::BytesMut, s: &[u8])
    requires
        bytes_mut_contents(*old(b)).len() + s@.len() <= isize::MAX,
    ensures
        bytes_mut_contents(*final(b)) == bytes_mut_contents(*old(b)) + s@,
{
    b.extend_from_slice(s)
}

/// Relies on `BytesMut::freeze`: the same bytes, now immutable.
#[verifier::external_body]
pub(crate) fn buf_freeze(b: bytes::BytesMut) -> (r: bytes::Bytes)
    ensures
        bytes_contents(r) == bytes_mut_contents(b),
{
    b.freeze()
}

} // verus!
