//! The growable octet buffer behind the streaming record decoder.

use bytes::BytesMut;
use vstd::prelude::*;

verus! {

/// `bytes::BytesMut`. Nothing inside it is visible to the verifier; what it
/// holds goes by the name `held`.
#[verifier::external_type_specification]
#[verifier::external_body]
pub struct ExBytesMut(BytesMut);

/// The octets that a buffer holds, oldest first.
pub uninterp spec fn held(buf: &BytesMut) -> Seq<u8>;

/// `BytesMut::with_capacity`: a buffer that holds nothing yet, whatever the
/// capacity asked for.
pub assume_specification[ BytesMut::with_capacity ](capacity: usize) -> (buf: BytesMut)
    ensures
        held(&buf) == Seq::<u8>::empty(),
;

/// `BytesMut::len`: how many octets the buffer holds.
pub assume_specification[ BytesMut::len ](buf: &BytesMut) -> (n: usize)
    ensures
        n == held(buf).len(),
;

/// `BytesMut::extend_from_slice`: the given octets are appended.
pub assume_specification[ BytesMut::extend_from_slice ](buf: &mut BytesMut, extend: &[u8])
    ensures
        held(final(buf)) == held(old(buf)) + extend@,
;

/// `BytesMut::clear`: nothing is held afterwards.
pub assume_specification[ BytesMut::clear ](buf: &mut BytesMut)
    ensures
        held(final(buf)) == Seq::<u8>::empty(),
;

/// `BytesMut::split_to`: the first `at` octets are handed out and the rest
/// stays. It panics when `at` exceeds the length, so that is excluded.
pub assume_specification[ BytesMut::split_to ](buf: &mut BytesMut, at: usize) -> (front: BytesMut)
    requires
        at <= held(old(buf)).len(),
    ensures
        held(&front) == held(old(buf)).subrange(0, at as int),
        held(final(buf)) == held(old(buf)).subrange(at as int, held(old(buf)).len() as int),
;

/// `Deref::deref` of a `BytesMut`: the held octets as a slice.
pub assume_specification<'a>[ <BytesMut as core::ops::Deref>::deref ](buf: &'a BytesMut) -> (s:
    &'a [u8])
    ensures
        s@ == held(buf),
;

} // verus!
