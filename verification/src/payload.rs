//! The octets that DATA frames carry, held as [`bytes::Bytes`].
//!
//! `Bytes` is a cheaply shared, immutable octet string. To the proofs it is
//! opaque: [`octets`] names what a value holds, and the items below say what
//! each call of the `bytes` crate does in terms of that name.

use bytes::Bytes;
use vstd::prelude::*;

verus! {

/// The type `bytes::Bytes`, of which the proofs see nothing but [`octets`].
#[verifier::external_type_specification]
#[verifier::external_body]
pub struct ExBytes(bytes::Bytes);

/// The octets that a `Bytes` holds, first to last.
pub uninterp spec fn octets(b: Bytes) -> Seq<u8>;

/// `Bytes::len`: how many octets the value holds.
pub assume_specification[ bytes::Bytes::len ](b: &Bytes) -> (n: usize)
    ensures
        n == octets(*b).len(),
;

/// `Bytes::new`: a value that holds nothing.
pub assume_specification[ bytes::Bytes::new ]() -> (b: Bytes)
    ensures
        octets(b) == Seq::<u8>::empty(),
;

/// `Bytes::copy_from_slice`: a value that holds a copy of `data`.
pub assume_specification[ bytes::Bytes::copy_from_slice ](data: &[u8]) -> (b: Bytes)
    ensures
        octets(b) == data@,
;

/// `Bytes::clone`: a value that holds the same octets.
pub assume_specification[ <bytes::Bytes as Clone>::clone ](b: &Bytes) -> (c: Bytes)
    ensures
        octets(c) == octets(*b),
;

/// `Bytes::slice` on the half-open range from `from` to `to`: a value that
/// holds the octets in that range. The call panics where the range does not
/// lie within the value, so such a range is left out.
#[verifier::external_body]
pub(crate) fn slice(b: &Bytes, from: usize, to: usize) -> (part: Bytes)
    requires
        from <= to <= octets(*b).len(),
    ensures
        octets(part) == octets(*b).subrange(from as int, to as int),
{
    b.slice(from..to)
}

/// `Bytes::as_ref`: the octets as a slice.
#[verifier::external_body]
pub(crate) fn contents(b: &Bytes) -> (s: &[u8])
    ensures
        s@ == octets(*b),
{
    b.as_ref()
}

/// `Bytes::from` on a vector: the octets of the vector.
#[verifier::external_body]
pub(crate) fn of_vec(v: Vec<u8>) -> (b: Bytes)
    ensures
        octets(b) == v@,
{
    Bytes::from(v)
}

} // verus!
