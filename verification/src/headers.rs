//! Header fields, held in an [`http::HeaderMap`].
//!
//! A `HeaderMap`, a `HeaderName` and a `HeaderValue` are opaque to the proofs:
//! [`fields`], [`name_octets`] and [`value_octets`] name what they hold, and
//! the items below say what each call of the `http` crate does in terms of
//! those names.

use crate::frame::Fields;
use http::{HeaderMap, HeaderName, HeaderValue};
use vstd::prelude::*;
#[allow(unused_imports)]
use vstd::utf8::encode_utf8;

verus! {

/// The type `http::HeaderMap`, of which the proofs see nothing but [`fields`].
#[verifier::external_type_specification]
#[verifier::external_body]
#[verifier::reject_recursive_types(T)]
pub struct ExHeaderMap<T>(http::HeaderMap<T>);

/// The type `http::HeaderName`, of which the proofs see nothing but
/// [`name_octets`].
#[verifier::external_type_specification]
#[verifier::external_body]
pub struct ExHeaderName(http::HeaderName);

/// The type `http::HeaderValue`, of which the proofs see nothing but
/// [`value_octets`].
#[verifier::external_type_specification]
#[verifier::external_body]
pub struct ExHeaderValue(http::HeaderValue);

/// The error of `HeaderName::from_bytes`.
#[verifier::external_type_specification]
#[verifier::external_body]
pub struct ExInvalidHeaderName(http::header::InvalidHeaderName);

/// The error of `HeaderValue::from_bytes`.
#[verifier::external_type_specification]
#[verifier::external_body]
pub struct ExInvalidHeaderValue(http::header::InvalidHeaderValue);

/// The error of `HeaderMap::try_append`.
#[verifier::external_type_specification]
#[verifier::external_body]
pub struct ExMaxSizeReached(http::header::MaxSizeReached);

/// What a header map holds: for each field name, in lower case, its values in
/// the order in which they were added.
pub uninterp spec fn fields(m: HeaderMap) -> Map<Seq<u8>, Seq<Seq<u8>>>;

/// The octets of a header name.
pub uninterp spec fn name_octets(n: HeaderName) -> Seq<u8>;

/// The octets of a header value.
pub uninterp spec fn value_octets(v: HeaderValue) -> Seq<u8>;

/// A header map that holds fewer names than this takes another one, whatever
/// they are.
pub const ROOM_FOR_NAMES: usize = 6554;

/// The octet that stands in a header name for `b`, which is `b` in lower case;
/// `None` if `b` may not occur in one.
pub open spec fn name_octet(b: u8) -> Option<u8> {
    if 0x41 <= b <= 0x5a {
        Some((b + 0x20) as u8)
    } else if 0x61 <= b <= 0x7a || 0x30 <= b <= 0x39 || b == 0x21 || 0x23 <= b <= 0x27 || b == 0x2a
        || b == 0x2b || b == 0x2d || b == 0x2e || 0x5e <= b <= 0x60 || b == 0x7c || b == 0x7e {
        Some(b)
    } else {
        None
    }
}

/// Whether a header may be called `s`.
pub open spec fn valid_name(s: Seq<u8>) -> bool {
    &&& 1 <= s.len() <= 0xffff
    &&& forall|i: int| 0 <= i < s.len() ==> name_octet(#[trigger] s[i]) is Some
}

/// A header name in lower case.
pub open spec fn lower_name(s: Seq<u8>) -> Seq<u8> {
    s.map_values(|b: u8| name_octet(b)->0)
}

/// Whether an octet may occur in a header value.
pub open spec fn value_octet(b: u8) -> bool {
    b >= 0x20 && b != 0x7f || b == 0x09
}

/// Whether a header may have the value `s`.
pub open spec fn valid_value(s: Seq<u8>) -> bool {
    forall|i: int| 0 <= i < s.len() ==> value_octet(#[trigger] s[i])
}

/// The fields after one more value has been added under `name`.
pub open spec fn added(f: Fields, name: Seq<u8>, value: Seq<u8>) -> Fields {
    if f.contains_key(name) {
        f.insert(name, f[name].push(value))
    } else {
        f.insert(name, seq![value])
    }
}

/// A pair of octet strings as the proofs see it.
pub open spec fn pair_view(p: (Vec<u8>, Vec<u8>)) -> (Seq<u8>, Seq<u8>) {
    (p.0@, p.1@)
}

/// The fields that come of adding name and value pairs one after the other.
pub open spec fn gathered(pairs: Seq<(Seq<u8>, Seq<u8>)>) -> Fields
    decreases pairs.len(),
{
    if pairs.len() == 0 {
        Map::empty()
    } else {
        added(gathered(pairs.drop_last()), pairs.last().0, pairs.last().1)
    }
}

/// `HeaderMap::new`: a map that holds nothing.
#[verifier::external_body]
pub(crate) fn no_fields() -> (m: HeaderMap)
    ensures
        fields(m) == gathered(Seq::empty()),
{
    HeaderMap::new()
}

/// `HeaderMap::clone`: a map that holds the same names and values.
#[verifier::external_body]
pub(crate) fn copy_of(m: &HeaderMap) -> (c: HeaderMap)
    ensures
        fields(c) == fields(*m),
{
    m.clone()
}

/// `HeaderName::from_bytes`: accepts what [`valid_name`] describes and turns
/// it to lower case; refuses everything else.
pub assume_specification[ http::HeaderName::from_bytes ](src: &[u8]) -> (r: Result<
    HeaderName,
    http::header::InvalidHeaderName,
>)
    ensures
        r is Ok <==> valid_name(src@),
        r matches Ok(n) ==> name_octets(n) == lower_name(src@),
;

/// `HeaderName::clone`: the same name.
pub assume_specification[ <http::HeaderName as Clone>::clone ](n: &HeaderName) -> (c: HeaderName)
    ensures
        name_octets(c) == name_octets(*n),
;

/// `HeaderValue::from_bytes`: accepts what [`valid_value`] describes and keeps
/// it as it is; refuses everything else.
pub assume_specification[ http::HeaderValue::from_bytes ](src: &[u8]) -> (r: Result<
    HeaderValue,
    http::header::InvalidHeaderValue,
>)
    ensures
        r is Ok <==> valid_value(src@),
        r matches Ok(v) ==> value_octets(v) == src@,
;

/// `HeaderValue::from_str`: accepts what [`valid_value`] says of the text's
/// UTF-8 octets and keeps them as they are; refuses everything else.
pub assume_specification[ http::HeaderValue::from_str ](src: &str) -> (r: Result<
    HeaderValue,
    http::header::InvalidHeaderValue,
>)
    ensures
        r is Ok <==> valid_value(encode_utf8(src@)),
        r matches Ok(v) ==> value_octets(v) == encode_utf8(src@),
;

/// `HeaderMap::try_append`: adds the value behind those that the map already
/// holds under that name, and says whether it held any. It fails, and leaves
/// the map's contents alone, only where the table cannot grow: the table has at
/// most 32768 places and does not grow beyond a fifth of them unasked, so a
/// failing map holds at least [`ROOM_FOR_NAMES`] names. Whether it fails then
/// depends on how the names hash, which is not stated.
#[verifier::external_body]
pub(crate) fn append(m: &mut HeaderMap, name: HeaderName, value: HeaderValue) -> (r: Result<
    bool,
    http::header::MaxSizeReached,
>)
    ensures
        r matches Ok(known) ==> {
            &&& known == fields(*old(m)).contains_key(name_octets(name))
            &&& fields(*final(m)) == added(
                fields(*old(m)),
                name_octets(name),
                value_octets(value),
            )
        },
        r is Err ==> {
            &&& fields(*final(m)) == fields(*old(m))
            &&& fields(*old(m)).dom().len() >= ROOM_FOR_NAMES
        },
{
    m.try_append(name, value)
}

/// `HeaderMap::try_insert`: puts the value in the place of all those that the
/// map holds under that name, and returns the first of them. It fails where
/// [`append`] does.
#[verifier::external_body]
pub(crate) fn replace(m: &mut HeaderMap, name: HeaderName, value: HeaderValue) -> (r: Result<
    Option<HeaderValue>,
    http::header::MaxSizeReached,
>)
    ensures
        r matches Ok(first) ==> {
            &&& first is Some <==> fields(*old(m)).contains_key(name_octets(name))
            &&& first is Some ==> value_octets(first->0) == fields(*old(m))[name_octets(name)][0]
            &&& fields(*final(m)) == fields(*old(m)).insert(
                name_octets(name),
                seq![value_octets(value)],
            )
        },
        r is Err ==> {
            &&& fields(*final(m)) == fields(*old(m))
            &&& fields(*old(m)).dom().len() >= ROOM_FOR_NAMES
        },
{
    m.try_insert(name, value)
}

/// `HeaderMap::iter`, with each name and value as octets: every value under
/// its name, the values of one name in the order in which they were added. In
/// which order the names come is not stated.
#[verifier::external_body]
pub(crate) fn pairs(m: &HeaderMap) -> (v: Vec<(Vec<u8>, Vec<u8>)>)
    ensures
        gathered(v@.map_values(|p: (Vec<u8>, Vec<u8>)| pair_view(p))) == fields(*m),
{
    m.iter().map(|(n, v)| (n.as_str().as_bytes().to_vec(), v.as_bytes().to_vec())).collect()
}

/// The `Display` text of the error of `HeaderName::from_bytes`.
#[verifier::external_body]
pub(crate) fn name_error_text(e: &http::header::InvalidHeaderName) -> (s: String)
    ensures
        s@ == "invalid HTTP header name"@,
{
    e.to_string()
}

/// The `Display` text of the error of `HeaderValue::from_bytes`.
#[verifier::external_body]
pub(crate) fn value_error_text(e: &http::header::InvalidHeaderValue) -> (s: String)
    ensures
        s@ == "failed to parse header value"@,
{
    e.to_string()
}

} // verus!
