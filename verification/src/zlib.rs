//! Compression of header blocks, done by the `flate2` crate.
//!
//! A `Compress` and a `Decompress` are opaque to the proofs. [`deflation`] and
//! [`inflation`] name what has gone through one so far, and [`inflated`] names
//! what a compressed stream expands to. The items below say what each call of
//! the crate does in terms of those names.

use flate2::{Compress, Compression, Decompress, FlushCompress, FlushDecompress, Status};
use vstd::prelude::*;

verus! {

/// The type `flate2::Compress`, of which the proofs see nothing but
/// [`deflation`].
#[verifier::external_type_specification]
#[verifier::external_body]
pub struct ExCompress(flate2::Compress);

/// The type `flate2::Decompress`, of which the proofs see nothing but
/// [`inflation`].
#[verifier::external_type_specification]
#[verifier::external_body]
pub struct ExDecompress(flate2::Decompress);

/// What has gone through a compressor.
pub ghost struct Deflation {
    /// The dictionary that it was given; empty if it was given none.
    pub dictionary: Seq<u8>,
    /// Every octet that it has taken in.
    pub taken: Seq<u8>,
    /// Every octet that it has given out.
    pub given: Seq<u8>,
}

/// What has gone through a decompressor.
pub ghost struct Inflation {
    /// The dictionary that it was given; empty if it was given none.
    pub dictionary: Seq<u8>,
    /// Whether it has stopped to ask for a dictionary.
    pub asking: bool,
    /// Whether it has come to the end of its stream.
    pub ended: bool,
    /// Every octet that it has taken in.
    pub taken: Seq<u8>,
    /// Every octet that it has given out.
    pub given: Seq<u8>,
}

/// What has gone through a compressor so far.
pub uninterp spec fn deflation(c: Compress) -> Deflation;

/// What has gone through a decompressor so far.
pub uninterp spec fn inflation(d: Decompress) -> Inflation;

/// What the front of a zlib stream that calls for `dictionary` expands to, as
/// far as the octets that are there tell; `None` if they are no such front. A
/// stream calls for a dictionary that has the checksum in its header. The empty
/// dictionary stands for a stream that calls for none.
pub uninterp spec fn inflated(dictionary: Seq<u8>, stream: Seq<u8>) -> Option<Seq<u8>>;

/// How far a call of a compressor or decompressor came.
#[derive(Debug, Clone, Copy, PartialEq, Eq, Structural)]
pub enum Flow {
    /// It got ahead.
    Going,
    /// It could not get ahead.
    Stuck,
    /// It reached the end of the stream.
    Ended,
}

/// Why a decompressor stopped.
#[derive(Debug, PartialEq, Eq)]
pub enum Setback {
    /// The stream calls for a dictionary.
    Dictionary,
    /// The stream is no zlib stream; the text describes the error.
    Fault(String),
}

/// `Compress::new` at the best level, with a zlib header: a compressor that
/// nothing has gone through yet. Nothing expands to nothing, whatever the
/// dictionary.
#[verifier::external_body]
pub(crate) fn new_compressor() -> (c: Compress)
    ensures
        deflation(c) == (Deflation {
            dictionary: Seq::empty(),
            taken: Seq::empty(),
            given: Seq::empty(),
        }),
        forall|dictionary: Seq<u8>| #[trigger]
            inflated(dictionary, deflation(c).given) == Some(deflation(c).taken),
{
    Compress::new(Compression::best(), true)
}

/// `Compress::set_dictionary`: a compressor that nothing has gone through yet
/// takes a dictionary.
#[verifier::external_body]
pub(crate) fn give_dictionary(c: &mut Compress, dictionary: &[u8]) -> (r: Result<u32, String>)
    requires
        deflation(*old(c)) == (Deflation {
            dictionary: Seq::empty(),
            taken: Seq::empty(),
            given: Seq::empty(),
        }),
    ensures
        r is Ok,
        deflation(*final(c)) == (Deflation {
            dictionary: dictionary@,
            taken: Seq::empty(),
            given: Seq::empty(),
        }),
{
    c.set_dictionary(dictionary).map_err(|e| e.to_string())
}

/// `Compress::total_out`: how many octets the compressor has given out.
pub assume_specification[ flate2::Compress::total_out ](c: &Compress) -> (n: u64)
    ensures
        n == deflation(*c).given.len(),
;

/// `Compress::compress` with a sync flush, into a buffer of `room` octets.
///
/// What the compressor gives out is at the front of the buffer. The call
/// succeeds where there is something to compress and room to put it. Where it
/// leaves room in the buffer, the flush is complete: everything has been taken
/// in, and everything taken in so far can be had from what has been given out.
/// The crate hands at most 2^32 - 1 octets on at a time, so longer buffers are
/// left out of that claim. A buffer beyond `isize::MAX` octets cannot be made.
#[verifier::external_body]
pub(crate) fn deflate(c: &mut Compress, raw: &[u8], room: usize) -> (r: (
    Result<Flow, String>,
    Vec<u8>,
))
    requires
        room <= isize::MAX,
    ensures
        r.1@.len() == room,
        deflation(*final(c)).dictionary == deflation(*old(c)).dictionary,
        deflation(*old(c)).given.len() <= deflation(*final(c)).given.len() <= deflation(
            *old(c),
        ).given.len() + room,
        deflation(*final(c)).given == deflation(*old(c)).given + r.1@.take(
            deflation(*final(c)).given.len() - deflation(*old(c)).given.len(),
        ),
        deflation(*old(c)).taken.is_prefix_of(deflation(*final(c)).taken),
        deflation(*final(c)).taken.is_prefix_of(deflation(*old(c)).taken + raw@),
        raw@.len() > 0 && room > 0 ==> r.0 is Ok && r.0->Ok_0 is Going,
        r.0 is Ok && r.0->Ok_0 is Going && raw@.len() < 0x1_0000_0000 && room < 0x1_0000_0000
            && deflation(*final(c)).given.len() < deflation(*old(c)).given.len() + room ==> {
            &&& deflation(*final(c)).taken == deflation(*old(c)).taken + raw@
            &&& inflated(deflation(*final(c)).dictionary, deflation(*final(c)).given) == Some(
                deflation(*final(c)).taken,
            )
        },
{
    let mut out = vec![0u8; room];
    let flow = match c.compress(raw, &mut out, FlushCompress::Sync) {
        Ok(Status::Ok) => Ok(Flow::Going),
        Ok(Status::BufError) => Ok(Flow::Stuck),
        Ok(Status::StreamEnd) => Ok(Flow::Ended),
        Err(e) => Err(e.to_string()),
    };
    (flow, out)
}

/// `Decompress::new`, with a zlib header: a decompressor that nothing has gone
/// through yet.
#[verifier::external_body]
pub(crate) fn new_decompressor() -> (d: Decompress)
    ensures
        inflation(d) == fresh_inflation(),
{
    Decompress::new(true)
}

/// What has gone through a decompressor that has just been made.
pub open spec fn fresh_inflation() -> Inflation {
    Inflation {
        dictionary: Seq::empty(),
        asking: false,
        ended: false,
        taken: Seq::empty(),
        given: Seq::empty(),
    }
}

/// `Decompress::set_dictionary`. A decompressor that asks for a dictionary
/// takes one that its stream calls for, and no other. What has gone through it
/// does not change. It must not be called twice without a need: it would add
/// the dictionary to the decompressor's history again.
#[verifier::external_body]
pub(crate) fn answer_dictionary(d: &mut Decompress, dictionary: &[u8]) -> (r: Result<u32, String>)
    requires
        inflation(*old(d)).asking,
        dictionary@.len() > 0,
    ensures
        r is Ok <==> inflated(dictionary@, inflation(*old(d)).taken) is Some,
        r is Ok ==> inflation(*final(d)) == (Inflation {
            dictionary: dictionary@,
            asking: false,
            ..inflation(*old(d))
        }),
        r is Err ==> inflation(*final(d)) == inflation(*old(d)),
{
    d.set_dictionary(dictionary).map_err(|e| e.to_string())
}

/// `Decompress::total_in`: how many octets the decompressor has taken in.
pub assume_specification[ flate2::Decompress::total_in ](d: &Decompress) -> (n: u64)
    ensures
        n == inflation(*d).taken.len(),
;

/// Whether a decompressor in state `a`, given `input`, has before it a stream
/// that calls for `dictionary`, with nothing held back from earlier.
pub open spec fn continues(a: Inflation, input: Seq<u8>, dictionary: Seq<u8>) -> bool {
    &&& inflated(dictionary, a.taken) == Some(a.given)
    &&& inflated(dictionary, a.taken + input) is Some
    &&& a.given.is_prefix_of(inflated(dictionary, a.taken + input)->0)
}

/// Whether what `input` adds to the stream fits into a buffer of `room` octets,
/// with room to spare.
pub open spec fn fits(a: Inflation, input: Seq<u8>, room: nat, dictionary: Seq<u8>) -> bool {
    &&& (inflated(dictionary, a.taken + input)->0).len() < a.given.len() + room
    &&& input.len() < 0x1_0000_0000
    &&& room < 0x1_0000_0000
}

/// Whether a decompressor that has the dictionary gets from `a` to `b` as it
/// should on a stream that continues with `input`: what it gives out is the
/// front of what the stream expands to, and all of it where there is room.
pub open spec fn expands(
    a: Inflation,
    input: Seq<u8>,
    room: nat,
    dictionary: Seq<u8>,
    b: Inflation,
) -> bool {
    &&& b.dictionary == dictionary
    &&& !b.asking
    &&& b.given.is_prefix_of(inflated(dictionary, a.taken + input)->0)
    &&& fits(a, input, room, dictionary) ==> {
        &&& b.taken == a.taken + input
        &&& inflated(dictionary, b.taken) == Some(b.given)
    }
}

/// `Decompress::decompress_vec` with a sync flush, into an empty vector with
/// room for `room` octets.
///
/// The vector holds what the call gave out. Where the input continues a stream,
/// a decompressor that has the dictionary gives out the front of what the stream
/// expands to; where there is room, it takes all of the input in and gives out
/// all that it expands to. One that has taken nothing in yet stops in the
/// stream's header to ask for the dictionary, if the input goes beyond the
/// header. The dictionary is asked for in no other way.
///
/// Whatever the input, a call that succeeds and leaves room has taken all of it
/// in, unless the stream has come to its end. What has been taken in is then the
/// front of a stream that calls for the decompressor's dictionary; if it has
/// none, the six octets of a header that calls for one must have come in, for
/// the call to tell. So an input that is no such front is an error. Where the
/// vector is filled, octets may be taken in that have not been looked at, so
/// that is not stated then. A vector beyond `isize::MAX` octets cannot be made.
#[verifier::external_body]
pub(crate) fn inflate(d: &mut Decompress, input: &[u8], room: usize) -> (r: (
    Result<Flow, Setback>,
    Vec<u8>,
))
    requires
        room <= isize::MAX,
    ensures
        inflation(*final(d)).dictionary == inflation(*old(d)).dictionary,
        inflation(*final(d)).given == inflation(*old(d)).given + r.1@,
        inflation(*old(d)).taken.is_prefix_of(inflation(*final(d)).taken),
        inflation(*final(d)).taken.is_prefix_of(inflation(*old(d)).taken + input@),
        r.0 is Ok ==> inflation(*final(d)).ended == r.0->Ok_0 is Ended,
        r.0 is Ok && r.1@.len() < room && room < 0x1_0000_0000 && input@.len() < 0x1_0000_0000
            ==> inflation(*final(d)).ended || inflation(*final(d)).taken == inflation(
            *old(d),
        ).taken + input@,
        r.0 is Ok && r.1@.len() < room && room < 0x1_0000_0000 && input@.len() < 0x1_0000_0000
            && inflation(*final(d)).taken == inflation(*old(d)).taken + input@ && (inflation(
            *final(d),
        ).dictionary.len() > 0 || inflation(*final(d)).taken.len() >= 6) ==> inflated(
            inflation(*final(d)).dictionary,
            inflation(*final(d)).taken,
        ) is Some,
        r.0 is Err && r.0->Err_0 is Dictionary ==> inflation(*final(d)).asking,
        forall|dictionary: Seq<u8>| #[trigger]
            continues(inflation(*old(d)), input@, dictionary) && inflation(*old(d)).dictionary
                == dictionary && !inflation(*old(d)).asking ==> {
                &&& r.0 is Ok
                &&& expands(
                    inflation(*old(d)),
                    input@,
                    room as nat,
                    dictionary,
                    inflation(*final(d)),
                )
            },
        forall|dictionary: Seq<u8>| #[trigger]
            continues(inflation(*old(d)), input@, dictionary) && dictionary.len() > 0 && inflation(
                *old(d),
            ) == fresh_inflation() && (inflated(dictionary, input@)->0).len() > 0 ==> {
                &&& r.0 is Err
                &&& r.0->Err_0 is Dictionary
                &&& r.1@.len() == 0
                &&& inflated(dictionary, inflation(*final(d)).taken) == Some(
                    inflation(*final(d)).given,
                )
            },
{
    let mut out = Vec::with_capacity(room);
    let flow = match d.decompress_vec(input, &mut out, FlushDecompress::Sync) {
        Ok(Status::Ok) => Ok(Flow::Going),
        Ok(Status::BufError) => Ok(Flow::Stuck),
        Ok(Status::StreamEnd) => Ok(Flow::Ended),
        Err(e) => match e.needs_dictionary() {
            Some(_) => Err(Setback::Dictionary),
            None => Err(Setback::Fault(e.to_string())),
        },
    };
    (flow, out)
}

} // verus!
