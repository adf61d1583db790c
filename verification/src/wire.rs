//! The byte buffers of the `bytes` crate, as the codec sees them.
//!
//! Nothing here is proved: each item states what the `bytes` crate does, and
//! the codec is verified against these statements.

use vstd::prelude::*;
use bytes::{BufMut, Bytes, BytesMut};

verus! {

/// `bytes::Bytes`, a shared view of a run of bytes. Its inside is not looked at.
#[verifier::external_type_specification]
#[verifier::external_body]
pub struct ExBytes(Bytes);

/// `bytes::BytesMut`, a growable run of bytes. Its inside is not looked at.
#[verifier::external_type_specification]
#[verifier::external_body]
pub struct ExBytesMut(BytesMut);

/// The bytes that a `Bytes` gives access to, in order.
pub uninterp spec fn bytes_view(b: Bytes) -> Seq<u8>;

/// The bytes that a `BytesMut` holds, in order.
pub uninterp spec fn bytes_mut_view(b: BytesMut) -> Seq<u8>;

/// `Bytes::len` returns the number of bytes in view.
pub assume_specification[ Bytes::len ](b: &Bytes) -> (n: usize)
    ensures
        n == bytes_view(*b).len(),
;

/// `Bytes::is_empty` tells whether no byte is in view.
pub assume_specification[ Bytes::is_empty ](b: &Bytes) -> (r: bool)
    ensures
        r == (bytes_view(*b).len() == 0),
;

/// `Bytes::split_to` returns the first `at` bytes and leaves the others
/// behind. It panics where `at` is beyond the end, so that is ruled out.
pub assume_specification[ Bytes::split_to ](b: &mut Bytes, at: usize) -> (head: Bytes)
    requires
        at <= bytes_view(*old(b)).len(),
    ensures
        bytes_view(head) == bytes_view(*old(b)).subrange(0, at as int),
        bytes_view(*final(b)) == bytes_view(*old(b)).subrange(
            at as int,
            bytes_view(*old(b)).len() as int,
        ),
;

/// Dereferencing a `Bytes` gives the bytes in view as a slice.
pub assume_specification[ <Bytes as core::ops::Deref>::deref ](b: &Bytes) -> (s: &[u8])
    ensures
        s@ == bytes_view(*b),
;

/// `BytesMut::with_capacity` returns a buffer that holds no byte yet. The
/// allocation behind it panics on a capacity beyond `isize::MAX`.
pub assume_specification[ BytesMut::with_capacity ](capacity: usize) -> (b: BytesMut)
    requires
        capacity <= isize::MAX,
    ensures
        bytes_mut_view(b) == Seq::<u8>::empty(),
;

/// `BytesMut::len` returns the number of bytes held.
pub assume_specification[ BytesMut::len ](b: &BytesMut) -> (n: usize)
    ensures
        n == bytes_mut_view(*b).len(),
;

/// `BytesMut::freeze` turns the buffer into a `Bytes` over the same bytes.
pub assume_specification[ BytesMut::freeze ](b: BytesMut) -> (r: Bytes)
    ensures
        bytes_view(r) == bytes_mut_view(b),
;

/// Calls `BufMut::put` on a `BytesMut` with a slice: the bytes of the slice
/// are appended, the buffer growing as needed. Growing panics where the
/// length would pass `isize::MAX`, so that is ruled out.
#[verifier::external_body]
pub(crate) fn put_slice(buf: &mut BytesMut, src: &[u8])
    requires
        bytes_mut_view(*old(buf)).len() + src@.len() <= isize::MAX,
    ensures
        bytes_mut_view(*final(buf)) == bytes_mut_view(*old(buf)) + src@,
{
    buf.put(src);
}

} // verus!
