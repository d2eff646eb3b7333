use vstd::prelude::*;
use bytes::Bytes;

verus! {

/// `bytes::Bytes`, the buffer type every encoded key is handed out in.
#[verifier::external_type_specification]
#[verifier::external_body]
pub struct ExBytes(bytes::Bytes);

/// The bytes a buffer holds, in order.
pub uninterp spec fn bytes_view(b: Bytes) -> Seq<u8>;

/// `Bytes::with_capacity`: a buffer that holds nothing yet. Beyond
/// `isize::MAX` the allocation behind it panics.
pub assume_specification[ Bytes::with_capacity ](capacity: usize) -> (b: Bytes)
    requires
        capacity <= isize::MAX,
    ensures
        bytes_view(b) == Seq::<u8>::empty(),
;

/// `Bytes::extend_from_slice`: appends `extend` to what the buffer holds.
/// It panics when the new length would not fit an allocation.
pub assume_specification[ Bytes::extend_from_slice ](b: &mut Bytes, extend: &[u8])
    requires
        bytes_view(*old(b)).len() + extend@.len() <= isize::MAX,
    ensures
        bytes_view(*final(b)) == bytes_view(*old(b)) + extend@,
;

/// `Bytes::clone`: a second handle on the same bytes.
pub assume_specification[ <Bytes as Clone>::clone ](b: &Bytes) -> (c: Bytes)
    ensures
        bytes_view(c) == bytes_view(*b),
;

/// `Bytes::from(Vec<u8>)`: a buffer holding the vector's bytes.
#[verifier::external_body]
pub(crate) fn bytes_from_vec(v: Vec<u8>) -> (b: Bytes)
    ensures
        bytes_view(b) == v@,
{
    Bytes::from(v)
}

/// `Bytes::from(&[u8])`: a buffer holding a copy of the slice.
#[verifier::external_body]
pub(crate) fn bytes_from_slice(s: &[u8]) -> (b: Bytes)
    ensures
        bytes_view(b) == s@,
{
    Bytes::from(s)
}

/// `Bytes::as_ref`: the bytes held, as a slice.
#[verifier::external_body]
pub(crate) fn bytes_as_slice(b: &Bytes) -> (s: &[u8])
    ensures
        s@ == bytes_view(*b),
{
    b.as_ref()
}

} // verus!
