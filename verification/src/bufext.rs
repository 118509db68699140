//! Trusted surface over the `bytes` and `memchr` crates.
//!
//! The decoder hands out zero-copy views into the receive buffer, so the
//! buffer types themselves come from the `bytes` crate. Verus sees them as
//! opaque values whose contents are named by the two spec functions below;
//! every operation the library needs is wrapped with a contract taken from
//! the crate's documented behaviour.
use vstd::prelude::*;

verus! {

#[verifier::external_type_specification]
#[verifier::external_body]
pub struct ExBytes(bytes::Bytes);

#[verifier::external_type_specification]
#[verifier::external_body]
pub struct ExBytesMut(bytes::BytesMut);

/// The byte sequence a `bytes::Bytes` value holds.
pub uninterp spec fn bytes_content(b: bytes::Bytes) -> Seq<u8>;

/// The byte sequence a `bytes::BytesMut` value holds.
pub uninterp spec fn buf_content(b: bytes::BytesMut) -> Seq<u8>;

/// Relies on `<Bytes as Deref>::deref`: a slice of all bytes held.
#[verifier::external_body]
pub fn bytes_as_slice(b: &bytes::Bytes) -> (r: &[u8])
    ensures
        r@ == bytes_content(*b),
{
    &b[..]
}

/// Relies on `Bytes::slice`: a zero-copy view of the range `[start, end)`.
#[verifier::external_body]
pub fn bytes_slice_range(b: &bytes::Bytes, start: usize, end: usize) -> (r: bytes::Bytes)
    requires
        start <= end <= bytes_content(*b).len(),
    ensures
        bytes_content(r) == bytes_content(*b).subrange(start as int, end as int),
{
    b.slice(start..end)
}

/// Relies on `<Bytes as Clone>::clone`: a second zero-copy handle on the
/// same bytes.
pub assume_specification[ <bytes::Bytes as Clone>::clone ](b: &bytes::Bytes) -> (r: bytes::Bytes)
    ensures
        bytes_content(r) == bytes_content(*b),
;

/// Relies on `<Bytes as PartialEq>::eq`: byte-wise content equality.
pub assume_specification[ <bytes::Bytes as PartialEq>::eq ](a: &bytes::Bytes, b: &bytes::Bytes) -> (r:
    bool)
    ensures
        r == (bytes_content(*a) == bytes_content(*b)),
;

/// Relies on `BytesMut::len`: the number of bytes the buffer holds.
#[verifier::external_body]
pub fn buf_len(b: &bytes::BytesMut) -> (r: usize)
    ensures
        r == buf_content(*b).len(),
{
    b.len()
}

/// Relies on `<BytesMut as Deref>::deref`: a slice of all bytes held.
#[verifier::external_body]
pub fn buf_as_slice(b: &bytes::BytesMut) -> (r: &[u8])
    ensures
        r@ == buf_content(*b),
{
    &b[..]
}

/// Relies on `BytesMut::split_to`: removes and returns the first `at`
/// bytes; the buffer keeps the rest. Panics only when `at` exceeds the
/// length, which the precondition rules out.
#[verifier::external_body]
pub fn buf_split_to(b: &mut bytes::BytesMut, at: usize) -> (r: bytes::BytesMut)
    requires
        at <= buf_content(*old(b)).len(),
    ensures
        buf_content(r) == buf_content(*old(b)).subrange(0, at as int),
        buf_content(*final(b)) == buf_content(*old(b)).subrange(
            at as int,
            buf_content(*old(b)).len() as int,
        ),
{
    b.split_to(at)
}

/// Relies on `<BytesMut as Buf>::advance`: drops the first `cnt` bytes.
/// Panics only when `cnt` exceeds the length, which the precondition
/// rules out.
#[verifier::external_body]
pub fn buf_advance(b: &mut bytes::BytesMut, cnt: usize)
    requires
        cnt <= buf_content(*old(b)).len(),
    ensures
        buf_content(*final(b)) == buf_content(*old(b)).subrange(
            cnt as int,
            buf_content(*old(b)).len() as int,
        ),
{
    bytes::Buf::advance(b, cnt)
}

/// Relies on `BytesMut::freeze`: converts the buffer into an immutable
/// `Bytes` holding the same content.
#[verifier::external_body]
pub fn buf_freeze(b: bytes::BytesMut) -> (r: bytes::Bytes)
    ensures
        bytes_content(r) == buf_content(b),
{
    b.freeze()
}

/// Relies on `<BytesMut as BufMut>::put_slice`: appends the slice,
/// growing the buffer as needed.
#[verifier::external_body]
pub fn buf_put_slice(b: &mut bytes::BytesMut, s: &[u8])
    requires
        buf_content(*old(b)).len() + s@.len() <= usize::MAX,
    ensures
        buf_content(*final(b)) == buf_content(*old(b)) + s@,
{
    bytes::BufMut::put_slice(b, s)
}

/// Relies on `memchr::memchr`: the index of the first occurrence of
/// `needle` in `haystack`, or `None` when it does not occur.
#[verifier::external_body]
pub fn find_byte(haystack: &[u8], needle: u8) -> (r: Option<usize>)
    ensures
        match r {
            Some(i) => i < haystack@.len() && haystack@[i as int] == needle && (forall|j: int|
                0 <= j < i ==> haystack@[j] != needle),
            None => forall|j: int| 0 <= j < haystack@.len() ==> haystack@[j] != needle,
        },
{
    memchr::memchr(needle, haystack)
}

} // verus!
