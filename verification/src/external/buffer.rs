//! The byte buffers of the `bytes` crate.
//!
//! Two handles are used: [`BytesMut`], which the connection fills and the
//! decoders consume from the front, and [`Bytes`], the immutable slices they
//! hand out. To the proofs either one is the sequence of bytes it holds, as
//! its `Deref` implementation shows them; capacity and sharing are invisible.

use std::ops::Deref;

use bytes::{Bytes, BytesMut};
use vstd::prelude::*;

verus! {

/// `bytes::BytesMut`, an opaque buffer; see [`buffered`].
#[verifier::external_type_specification]
#[verifier::external_body]
pub struct ExBytesMut(BytesMut);

/// `bytes::Bytes`, an opaque immutable slice; see [`frozen`].
#[verifier::external_type_specification]
#[verifier::external_body]
pub struct ExBytes(Bytes);

/// The bytes that a `BytesMut` holds, first to last.
pub uninterp spec fn buffered(b: BytesMut) -> Seq<u8>;

/// The bytes that a `Bytes` holds, first to last.
pub uninterp spec fn frozen(b: Bytes) -> Seq<u8>;

/// `BytesMut::deref` shows the contents as a slice.
pub assume_specification[ <BytesMut as Deref>::deref ](b: &BytesMut) -> (r: &[u8])
    ensures
        r@ == buffered(*b),
;

/// `BytesMut::len` counts the bytes held.
pub assume_specification[ BytesMut::len ](b: &BytesMut) -> (r: usize)
    ensures
        r == buffered(*b).len(),
;

/// `BytesMut::is_empty` tells whether no byte is held.
pub assume_specification[ BytesMut::is_empty ](b: &BytesMut) -> (r: bool)
    ensures
        r == (buffered(*b).len() == 0),
;

/// `BytesMut::split_to` removes the first `at` bytes and returns them in a
/// buffer of their own. It panics past the end.
pub assume_specification[ BytesMut::split_to ](b: &mut BytesMut, at: usize) -> (r: BytesMut)
    requires
        at <= buffered(*old(b)).len(),
    ensures
        buffered(r) == buffered(*old(b)).take(at as int),
        buffered(*final(b)) == buffered(*old(b)).skip(at as int),
;

/// `BytesMut::take` removes everything and returns it in a buffer of its own.
pub assume_specification[ BytesMut::take ](b: &mut BytesMut) -> (r: BytesMut)
    ensures
        buffered(r) == buffered(*old(b)),
        buffered(*final(b)) == Seq::<u8>::empty(),
;

/// `BytesMut::freeze` keeps the contents and gives up mutability.
pub assume_specification[ BytesMut::freeze ](b: BytesMut) -> (r: Bytes)
    ensures
        frozen(r) == buffered(b),
;

/// `Bytes::deref` shows the contents as a slice.
pub assume_specification[ <Bytes as Deref>::deref ](b: &Bytes) -> (r: &[u8])
    ensures
        r@ == frozen(*b),
;

/// `Bytes::clone` holds the same bytes.
pub assume_specification[ <Bytes as Clone>::clone ](b: &Bytes) -> (r: Bytes)
    ensures
        frozen(r) == frozen(*b),
;

/// `Bytes::slice` returns the bytes from `begin` up to `end`. It panics if
/// `begin` lies behind `end` or `end` behind the last byte.
pub assume_specification[ Bytes::slice ](b: &Bytes, begin: usize, end: usize) -> (r: Bytes)
    requires
        begin <= end <= frozen(*b).len(),
    ensures
        frozen(r) == frozen(*b).subrange(begin as int, end as int),
;

} // verus!
