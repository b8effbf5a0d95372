//! Frames with their header blocks compressed.
//!
//! All header blocks that one end of a connection sends form one compressed
//! stream, and so do those that it receives. A [`Framer`] holds both streams of
//! one end. It turns frames into octets and octets into frames; the host does
//! the sending and the reading.

use crate::codec::{
    data_frame, headers_frame, parse_plain_control_frame, syn_reply_frame, syn_stream_frame,
    write_data_frame, write_goaway, write_headers, write_ping, write_rst_stream, write_settings,
    write_syn_reply, write_syn_stream, write_window_update, FrameHeader, TYPE_HEADERS,
    TYPE_SYN_REPLY, TYPE_SYN_STREAM,
};
#[allow(unused_imports)]
use crate::codec::{
    block_start, control_read, fields_of, flags_of, frame_octets, frame_reported, header_read,
    law_control_frames_are_read_back, law_frame_headers_are_read_back,
    law_payloads_hold_their_fields, payload_octets, representable, type_of, FrameFault,
};
use crate::dictionary::SPDY_DICT;
#[allow(unused_imports)]
use crate::error::is_protocol;
use crate::error::{protocol, Error, IoError, IoErrorKind};
use crate::frame::Frame;
#[allow(unused_imports)]
use crate::frame::{Fields, FrameModel};
#[allow(unused_imports)]
use crate::header_block::{
    block_crowds, block_read, fits_a_block, is_block_of, joined, law_blocks_are_read_back,
    law_few_names_do_not_crowd, law_short_blocks_do_not_crowd, reports, too_many_names,
    valid_fields,
};
use crate::header_block::{encode_headers, parse_header_block};
#[allow(unused_imports)]
use crate::headers::{fields, lower_name, valid_name, valid_value};
use crate::zlib::{
    answer_dictionary, deflate, give_dictionary, inflate, new_compressor, new_decompressor, Flow,
    Setback,
};
#[allow(unused_imports)]
use crate::zlib::{
    continues, deflation, expands, fresh_inflation, inflated, inflation, Deflation, Inflation,
};
use flate2::{Compress, Decompress};
use http::HeaderMap;
use vstd::prelude::*;

verus! {

broadcast use crate::wire::group_wire;

/// How much room a compressor is given for a block of `n` octets.
pub open spec fn deflate_room(n: nat) -> nat {
    n * 2 + 512
}

/// How much room a decompressor is given for a compressed block of `n` octets.
pub open spec fn inflate_room(n: nat) -> nat {
    n * 4 + 512
}

/// Whether compressing `raw` leads from `a` to `b` and to the result `r`.
///
/// A block that is too long for a buffer to be made is refused. Any other is
/// compressed, and where the buffer has been large enough, which shows in room
/// that is left, the other end can expand it again.
pub open spec fn compresses(
    a: Deflation,
    raw: Seq<u8>,
    b: Deflation,
    r: Result<Seq<u8>, Error>,
) -> bool {
    match r {
        Err(e) => deflate_room(raw.len()) > isize::MAX && b == a && (e matches Error::Compression(m)
            && m@ == "header block too long"@),
        Ok(z) => {
            &&& deflate_room(raw.len()) <= isize::MAX
            &&& z.len() <= deflate_room(raw.len())
            &&& b.dictionary == a.dictionary
            &&& b.given == a.given + z
            &&& a.taken.is_prefix_of(b.taken)
            &&& b.taken.is_prefix_of(a.taken + raw)
            &&& z.len() < deflate_room(raw.len()) < 0x1_0000_0000 ==> {
                &&& b.taken == a.taken + raw
                &&& inflated(b.dictionary, b.given) == Some(b.taken)
            }
        },
    }
}

/// Whether a decompressor in state `a` is ready for a stream that calls for
/// `dictionary` and continues with `input`.
pub open spec fn ready(a: Inflation, input: Seq<u8>, dictionary: Seq<u8>) -> bool {
    ||| a.dictionary == dictionary && !a.asking
    ||| a == fresh_inflation() && (inflated(dictionary, input)->0).len() > 0
}

/// Whether decompressing `z` leads from `a` to `b` and to the result `r`.
///
/// Whatever the input, the result is what was given out, or a compression
/// error. Where it is what was given out and the buffer has room left, all of
/// the input has been taken in, unless the stream has come to its end, and it
/// continues a stream that can be expanded: a block that does not is a
/// compression error. Where the input continues a stream that calls for the
/// dictionary, or one that calls for none, it is expanded: as far as the buffer
/// goes, and whole where that has room.
pub open spec fn decompresses(
    a: Inflation,
    z: Seq<u8>,
    b: Inflation,
    r: Result<Seq<u8>, Error>,
) -> bool {
    &&& b.taken.is_prefix_of(a.taken + z)
    &&& match r {
        Ok(out) => {
            &&& b.given == a.given + out
            &&& out.len() < inflate_room(z.len()) < 0x1_0000_0000 ==> {
                &&& b.ended || b.taken == a.taken + z
                &&& b.taken == a.taken + z && (b.dictionary.len() > 0 || b.taken.len() >= 6)
                    ==> inflated(b.dictionary, b.taken) is Some
            }
        },
        Err(e) => e is Compression,
    }
    &&& continues(a, z, SPDY_DICT@) && ready(a, z, SPDY_DICT@) ==> r is Ok && expands(
        a,
        z,
        inflate_room(z.len()),
        SPDY_DICT@,
        b,
    )
    &&& continues(a, z, Seq::empty()) && a.dictionary.len() == 0 && !a.asking ==> r is Ok
        && expands(a, z, inflate_room(z.len()), Seq::empty(), b)
}

/// A result with the octets that it holds.
pub open spec fn octets_of(r: Result<Vec<u8>, Error>) -> Result<Seq<u8>, Error> {
    match r {
        Ok(v) => Ok(v@),
        Err(e) => Err(e),
    }
}

/// Compresses a header block.
fn deflate_block(c: &mut Compress, raw: &[u8]) -> (r: Result<Vec<u8>, Error>)
    requires
        raw@.len() > 0,
    ensures
        compresses(deflation(*old(c)), raw@, deflation(*final(c)), octets_of(r)),
{
    if raw.len() > (isize::MAX as usize - 512) / 2 {
        return Err(Error::Compression("header block too long".to_owned()));
    }
    let room: usize = raw.len() * 2 + 512;
    let before: u64 = c.total_out();
    let (flow, mut out) = deflate(c, raw, room);
    match flow {
        Err(text) => {
            return Err(Error::Compression(text));
        },
        Ok(Flow::Stuck) => {
            return Err(Error::Compression("compress buffer error".to_owned()));
        },
        Ok(_) => {},
    }
    let produced: usize = (c.total_out() - before) as usize;
    out.truncate(produced);
    Ok(out)
}

/// Expands a compressed header block.
fn inflate_block(d: &mut Decompress, z: &[u8]) -> (r: Result<Vec<u8>, Error>)
    requires
        z@.len() < 0x100_0000,
        inflation(*old(d)).dictionary.len() == 0 || inflation(*old(d)).dictionary == SPDY_DICT@,
    ensures
        inflation(*final(d)).dictionary.len() == 0 || inflation(*final(d)).dictionary == SPDY_DICT@,
        decompresses(inflation(*old(d)), z@, inflation(*final(d)), octets_of(r)),
{
    let ghost a = inflation(*d);
    let ghost steady = continues(a, z@, SPDY_DICT@) && ready(a, z@, SPDY_DICT@);
    assert(a.dictionary.len() == 0 ==> a.dictionary =~= Seq::empty());
    assert(a == fresh_inflation() ==> a.taken + z@ =~= z@);
    assert(SPDY_DICT@.len() == 1423);
    let room: usize = z.len() * 4 + 512;
    let before: u64 = d.total_in();
    let (flow, mut out) = inflate(d, z, room);
    match flow {
        Ok(_) => {
            return Ok(out);
        },
        Err(Setback::Fault(text)) => {
            return Err(Error::Compression(text));
        },
        Err(Setback::Dictionary) => {},
    }
    let ghost asked = inflation(*d);
    let pos: usize = (d.total_in() - before) as usize;
    if let Err(text) = answer_dictionary(d, SPDY_DICT.as_slice()) {
        return Err(Error::Compression(text));
    }
    assert(asked.taken =~= a.taken + z@.take(pos as int));
    if pos >= z.len() {
        assert(z@.take(pos as int) =~= z@);
        return Ok(out);
    }
    let rest = vstd::slice::slice_subrange(z, pos, z.len());
    assert(asked.taken + rest@ =~= a.taken + z@);
    let ghost answered = inflation(*d);
    assert(steady ==> continues(answered, rest@, SPDY_DICT@));
    let (flow, more) = inflate(d, rest, room);
    match flow {
        Ok(_) => {},
        Err(Setback::Fault(text)) => {
            return Err(Error::Compression(text));
        },
        Err(Setback::Dictionary) => {
            return Err(Error::Compression("requires a dictionary".to_owned()));
        },
    }
    out.extend_from_slice(more.as_slice());
    assert(inflation(*d).given =~= a.given + out@);
    Ok(out)
}

/// Both compressed streams of one end of a connection.
pub struct Framer {
    compressor: Compress,
    decompressor: Option<Decompress>,
}

/// Whether `r` holds the fields of a block whose decompression has the result
/// `out`, or reports what is wrong with it.
pub open spec fn obtained(r: Result<HeaderMap, Error>, out: Result<Seq<u8>, Error>) -> bool {
    match out {
        Ok(raw) => {
            ||| reports(r, block_read(raw))
            ||| block_crowds(raw) && (r matches Err(e) && is_protocol(e, too_many_names()))
        },
        Err(e) => r == Err::<HeaderMap, Error>(e),
    }
}

/// Whether `r` is the frame that a payload and its expanded header block `raw`
/// hold, or reports what is wrong with the block.
pub open spec fn assembled(
    frame_type: u16,
    flags: u8,
    payload: Seq<u8>,
    raw: Seq<u8>,
    r: Result<Frame, Error>,
) -> bool {
    ||| match block_read(raw) {
        Ok(f) => frame_reported(r, control_read(frame_type, flags, payload, f)),
        Err(fault) => r matches Err(e) && is_protocol(e, fault.text()),
    }
    ||| block_crowds(raw) && (r matches Err(e) && is_protocol(e, too_many_names()))
}

/// Whether reading a control frame leads from `a` to `b` and to the result `r`,
/// where decompressing the header block, if there is one, has the result `out`.
pub open spec fn parses_with(
    a: Inflation,
    frame_type: u16,
    flags: u8,
    payload: Seq<u8>,
    b: Inflation,
    r: Result<Frame, Error>,
    out: Result<Seq<u8>, Error>,
) -> bool {
    if block_start(frame_type) is Some && payload.len() >= block_start(frame_type)->0 {
        &&& decompresses(a, payload.skip(block_start(frame_type)->0), b, out)
        &&& match out {
            Ok(raw) => assembled(frame_type, flags, payload, raw, r),
            Err(e) => r == Err::<Frame, Error>(e),
        }
    } else {
        &&& b == a
        &&& forall|headers: Fields|
            frame_reported(r, #[trigger] control_read(frame_type, flags, payload, headers))
    }
}

/// Whether reading a control frame leads from `a` to `b` and to the result `r`.
pub open spec fn parses(
    a: Inflation,
    frame_type: u16,
    flags: u8,
    payload: Seq<u8>,
    b: Inflation,
    r: Result<Frame, Error>,
) -> bool {
    exists|out: Result<Seq<u8>, Error>| #[trigger]
        parses_with(a, frame_type, flags, payload, b, r, out)
}

/// Whether a frame is of a type with a header block.
pub open spec fn has_block(f: FrameModel) -> bool {
    block_start(type_of(f)) is Some
}

/// Whether writing `f` leads from `a` to `b` and to the result `r`, where `raw`
/// is the frame's header block before compression and `z` after it.
pub open spec fn writes_with(
    a: Deflation,
    f: FrameModel,
    b: Deflation,
    r: Result<Seq<u8>, Error>,
    raw: Seq<u8>,
    z: Result<Seq<u8>, Error>,
) -> bool {
    if has_block(f) {
        &&& is_block_of(raw, fields_of(f))
        &&& compresses(a, raw, b, z)
        &&& match z {
            Ok(block) => r == Ok::<Seq<u8>, Error>(frame_octets(f, block)),
            Err(e) => r == Err::<Seq<u8>, Error>(e),
        }
    } else {
        &&& b == a
        &&& r == Ok::<Seq<u8>, Error>(frame_octets(f, Seq::empty()))
    }
}

/// Whether writing `f` leads from `a` to `b` and to the result `r`.
pub open spec fn writes(
    a: Deflation,
    f: FrameModel,
    b: Deflation,
    r: Result<Seq<u8>, Error>,
) -> bool {
    exists|raw: Seq<u8>, z: Result<Seq<u8>, Error>| #[trigger] writes_with(a, f, b, r, raw, z)
}

impl Framer {
    /// The stream of header blocks that this end has sent.
    pub closed spec fn sent(&self) -> Deflation {
        deflation(self.compressor)
    }

    /// The stream of header blocks that this end has received.
    pub closed spec fn received(&self) -> Inflation {
        match self.decompressor {
            Some(d) => inflation(d),
            None => fresh_inflation(),
        }
    }

    /// Whether both streams use the right dictionary.
    pub open spec fn wf(&self) -> bool {
        &&& self.sent().dictionary == SPDY_DICT@
        &&& self.received().dictionary.len() == 0 || self.received().dictionary == SPDY_DICT@
    }

    /// A framer at the start of a connection.
    pub fn new() -> (f: Framer)
        ensures
            f.wf(),
            f.sent() == (Deflation {
                dictionary: SPDY_DICT@,
                taken: Seq::empty(),
                given: Seq::empty(),
            }),
            f.received() == fresh_inflation(),
            in_step(f.sent(), f.received()),
    {
        let mut compressor = new_compressor();
        let ghost start = deflation(compressor);
        assert(inflated(SPDY_DICT@, start.given) == Some(start.taken));
        let _ = give_dictionary(&mut compressor, SPDY_DICT.as_slice());
        Framer { compressor, decompressor: None }
    }

    /// Writes header fields as a block and compresses it.
    pub fn compress_headers(&mut self, headers: &HeaderMap) -> (r: Result<Vec<u8>, Error>)
        requires
            old(self).wf(),
        ensures
            final(self).wf(),
            final(self).received() == old(self).received(),
            exists|raw: Seq<u8>| #[trigger]
                is_block_of(raw, fields(*headers)) && compresses(
                    old(self).sent(),
                    raw,
                    final(self).sent(),
                    octets_of(r),
                ),
    {
        let raw = encode_headers(headers);
        assert(raw@.len() > 0);
        let r = deflate_block(&mut self.compressor, raw.as_slice());
        assert(is_block_of(raw@, fields(*headers)));
        r
    }

    /// Expands a compressed header block and reads the fields that it holds.
    pub fn decompress_headers(&mut self, compressed: &[u8]) -> (r: Result<HeaderMap, Error>)
        requires
            old(self).wf(),
            compressed@.len() < 0x100_0000,
        ensures
            final(self).wf(),
            final(self).sent() == old(self).sent(),
            exists|out: Result<Seq<u8>, Error>| #[trigger]
                decompresses(old(self).received(), compressed@, final(self).received(), out)
                    && obtained(r, out),
    {
        let mut d = match self.decompressor.take() {
            Some(d) => d,
            None => new_decompressor(),
        };
        let out = inflate_block(&mut d, compressed);
        self.decompressor = Some(d);
        assert(decompresses(
            old(self).received(),
            compressed@,
            self.received(),
            octets_of(out),
        ));
        match out {
            Ok(raw) => parse_header_block(raw.as_slice()),
            Err(e) => Err(e),
        }
    }

    /// Writes any frame.
    pub fn write_frame(&mut self, frame: &Frame) -> (r: Result<Vec<u8>, Error>)
        requires
            old(self).wf(),
        ensures
            final(self).wf(),
            final(self).received() == old(self).received(),
            writes(old(self).sent(), frame@, final(self).sent(), octets_of(r)),
    {
        let ghost a = self.sent();
        match header_fields(frame) {
            Some(headers) => {
                let z = self.compress_headers(headers);
                let ghost compressed = octets_of(z);
                let r = match z {
                    Ok(block) => Ok(write_block_frame(frame, block.as_slice())),
                    Err(e) => Err(e),
                };
                proof {
                    let raw = choose|raw: Seq<u8>| #[trigger]
                        is_block_of(raw, fields(*headers)) && compresses(
                            a,
                            raw,
                            self.sent(),
                            compressed,
                        );
                    assert(writes_with(a, frame@, self.sent(), octets_of(r), raw, compressed));
                }
                r
            },
            None => {
                let out = write_plain_frame(frame);
                let ghost none = Ok::<Seq<u8>, Error>(Seq::empty());
                assert(writes_with(a, frame@, a, Ok(out@), Seq::empty(), none));
                Ok(out)
            },
        }
    }

    /// Reads a control frame.
    pub fn parse_control_frame(&mut self, frame_type: u16, flags: u8, payload: &[u8]) -> (r: Result<
        Frame,
        Error,
    >)
        requires
            old(self).wf(),
            payload@.len() < 0x100_0000,
        ensures
            final(self).wf(),
            final(self).sent() == old(self).sent(),
            parses(
                old(self).received(),
                frame_type,
                flags,
                payload@,
                final(self).received(),
                r,
            ),
    {
        if frame_type == TYPE_SYN_STREAM {
            self.parse_syn_stream(flags, payload)
        } else if frame_type == TYPE_SYN_REPLY {
            self.parse_syn_reply(flags, payload)
        } else if frame_type == TYPE_HEADERS {
            self.parse_headers(flags, payload)
        } else {
            let r = parse_plain_control_frame(frame_type, flags, payload);
            proof {
                lemma_parses_without_block(self.received(), frame_type, flags, payload@, r);
            }
            r
        }
    }

    fn parse_syn_stream(&mut self, flags: u8, payload: &[u8]) -> (r: Result<Frame, Error>)
        requires
            old(self).wf(),
            payload@.len() < 0x100_0000,
        ensures
            final(self).wf(),
            final(self).sent() == old(self).sent(),
            parses(old(self).received(), TYPE_SYN_STREAM, flags, payload@, final(self).received(), r),
    {
        if payload.len() < 10 {
            let r = Err(protocol("SynStream too short"));
            proof {
                lemma_parses_without_block(self.received(), TYPE_SYN_STREAM, flags, payload@, r);
            }
            return r;
        }
        self.parse_block_frame(TYPE_SYN_STREAM, flags, payload, 10)
    }

    fn parse_syn_reply(&mut self, flags: u8, payload: &[u8]) -> (r: Result<Frame, Error>)
        requires
            old(self).wf(),
            payload@.len() < 0x100_0000,
        ensures
            final(self).wf(),
            final(self).sent() == old(self).sent(),
            parses(old(self).received(), TYPE_SYN_REPLY, flags, payload@, final(self).received(), r),
    {
        if payload.len() < 4 {
            let r = Err(protocol("SynReply too short"));
            proof {
                lemma_parses_without_block(self.received(), TYPE_SYN_REPLY, flags, payload@, r);
            }
            return r;
        }
        self.parse_block_frame(TYPE_SYN_REPLY, flags, payload, 4)
    }

    fn parse_headers(&mut self, flags: u8, payload: &[u8]) -> (r: Result<Frame, Error>)
        requires
            old(self).wf(),
            payload@.len() < 0x100_0000,
        ensures
            final(self).wf(),
            final(self).sent() == old(self).sent(),
            parses(old(self).received(), TYPE_HEADERS, flags, payload@, final(self).received(), r),
    {
        if payload.len() < 4 {
            let r = Err(protocol("Headers frame too short"));
            proof {
                lemma_parses_without_block(self.received(), TYPE_HEADERS, flags, payload@, r);
            }
            return r;
        }
        self.parse_block_frame(TYPE_HEADERS, flags, payload, 4)
    }

    /// Reads a control frame whose header block starts at `start`.
    fn parse_block_frame(
        &mut self,
        frame_type: u16,
        flags: u8,
        payload: &[u8],
        start: usize,
    ) -> (r: Result<Frame, Error>)
        requires
            old(self).wf(),
            payload@.len() < 0x100_0000,
            block_start(frame_type) == Some(start as int),
            start <= payload@.len(),
        ensures
            final(self).wf(),
            final(self).sent() == old(self).sent(),
            parses(
                old(self).received(),
                frame_type,
                flags,
                payload@,
                final(self).received(),
                r,
            ),
    {
        let ghost a = self.received();
        let block = vstd::slice::slice_subrange(payload, start, payload.len());
        assert(block@ =~= payload@.skip(start as int));
        let headers = self.decompress_headers(block);
        let ghost out = choose|out: Result<Seq<u8>, Error>| #[trigger]
            decompresses(a, block@, self.received(), out) && obtained(headers, out);
        let r = match headers {
            Ok(headers) => Ok(block_frame(frame_type, flags, payload, headers)),
            Err(e) => Err(e),
        };
        assert(parses_with(a, frame_type, flags, payload@, self.received(), r, out));
        r
    }

    /// Reads the frame that a header announces from the payload that follows
    /// it.
    pub fn parse_frame(&mut self, header: FrameHeader, payload: Vec<u8>) -> (r: Result<
        Frame,
        Error,
    >)
        requires
            old(self).wf(),
            payload@.len() < 0x100_0000,
        ensures
            final(self).wf(),
            final(self).sent() == old(self).sent(),
            match header {
                FrameHeader::Data { stream_id, flags, .. } => {
                    &&& final(self).received() == old(self).received()
                    &&& r matches Ok(frame) && frame@ == (FrameModel::Data {
                        stream_id,
                        flags,
                        data: payload@,
                    })
                },
                FrameHeader::Control { frame_type, flags, .. } => parses(
                    old(self).received(),
                    frame_type,
                    flags,
                    payload@,
                    final(self).received(),
                    r,
                ),
            },
    {
        match header {
            FrameHeader::Data { stream_id, flags, .. } => Ok(data_frame(stream_id, flags, payload)),
            FrameHeader::Control { frame_type, flags, .. } => self.parse_control_frame(
                frame_type,
                flags,
                payload.as_slice(),
            ),
        }
    }
}

/// The header fields of a frame that has a header block.
fn header_fields(frame: &Frame) -> (h: Option<&HeaderMap>)
    ensures
        h is Some <==> has_block(frame@),
        h matches Some(m) ==> fields(*m) == fields_of(frame@),
{
    match frame {
        Frame::SynStream(f) => Some(&f.headers),
        Frame::SynReply(f) => Some(&f.headers),
        Frame::Headers(f) => Some(&f.headers),
        _ => None,
    }
}

/// Writes a frame around its compressed header block.
fn write_block_frame(frame: &Frame, block: &[u8]) -> (out: Vec<u8>)
    requires
        has_block(frame@),
    ensures
        out@ == frame_octets(frame@, block@),
{
    match frame {
        Frame::SynStream(f) => write_syn_stream(f, block),
        Frame::SynReply(f) => write_syn_reply(f, block),
        Frame::Headers(f) => write_headers(f, block),
        _ => Vec::new(),
    }
}

/// A frame with a header block, from its payload and what the block holds.
fn block_frame(frame_type: u16, flags: u8, payload: &[u8], headers: HeaderMap) -> (f: Frame)
    requires
        block_start(frame_type) is Some,
        payload@.len() >= block_start(frame_type)->0,
    ensures
        frame_reported(
            Ok(f),
            control_read(frame_type, flags, payload@, fields(headers)),
        ),
{
    if frame_type == TYPE_SYN_STREAM {
        syn_stream_frame(flags, payload, headers)
    } else if frame_type == TYPE_SYN_REPLY {
        syn_reply_frame(flags, payload, headers)
    } else {
        headers_frame(flags, payload, headers)
    }
}

proof fn lemma_parses_without_block(
    a: Inflation,
    frame_type: u16,
    flags: u8,
    payload: Seq<u8>,
    r: Result<Frame, Error>,
)
    requires
        block_start(frame_type) matches Some(at) ==> payload.len() < at,
        forall|headers: Fields|
            frame_reported(r, #[trigger] control_read(frame_type, flags, payload, headers)),
    ensures
        parses(a, frame_type, flags, payload, a, r),
{
    let none = Ok::<Seq<u8>, Error>(Seq::empty());
    assert(parses_with(a, frame_type, flags, payload, a, r, none));
}

/// Writes a frame without a header block.
fn write_plain_frame(frame: &Frame) -> (out: Vec<u8>)
    requires
        !has_block(frame@),
    ensures
        out@ == frame_octets(frame@, Seq::empty()),
{
    match frame {
        Frame::RstStream(f) => write_rst_stream(f),
        Frame::Settings(f) => write_settings(f),
        Frame::Ping(f) => write_ping(f),
        Frame::GoAway(f) => write_goaway(f),
        Frame::WindowUpdate(f) => write_window_update(f),
        Frame::Data(f) => write_data_frame(f),
        _ => Vec::new(),
    }
}

/// What it means that no frame header could be read: a transport that ends
/// between frames, or within a header, has closed the connection.
pub fn header_error(e: IoError) -> (r: Error)
    ensures
        r == if e.kind == IoErrorKind::UnexpectedEof {
            Error::ConnectionClosed
        } else {
            Error::Io(e)
        },
{
    if e.kind == IoErrorKind::UnexpectedEof {
        Error::ConnectionClosed
    } else {
        Error::Io(e)
    }
}

/// Whether the header blocks that one end has received are those that the
/// other has sent.
pub open spec fn in_step(sender: Deflation, receiver: Inflation) -> bool {
    &&& sender.dictionary == SPDY_DICT@
    &&& inflated(SPDY_DICT@, sender.given) == Some(sender.taken)
    &&& receiver.taken == sender.given
    &&& receiver.given == sender.taken
    &&& receiver == fresh_inflation() || (receiver.dictionary == SPDY_DICT@ && !receiver.asking)
}

/// A header block that is compressed at one end is expanded to the same octets
/// at the other, and the two ends stay in step, as long as both buffers have
/// room: twice the block and 512 octets at the sender, four times the compressed
/// block and 512 octets at the receiver.
pub proof fn law_header_blocks_arrive(
    sender: Deflation,
    raw: Seq<u8>,
    sender_after: Deflation,
    z: Seq<u8>,
    receiver: Inflation,
    receiver_after: Inflation,
    r: Result<Seq<u8>, Error>,
)
    requires
        in_step(sender, receiver),
        raw.len() > 0,
        compresses(sender, raw, sender_after, Ok(z)),
        z.len() < 2 * raw.len() + 512 < 0x1_0000_0000,
        raw.len() < 4 * z.len() + 512 < 0x1_0000_0000,
        decompresses(receiver, z, receiver_after, r),
    ensures
        r == Ok::<Seq<u8>, Error>(raw),
        in_step(sender_after, receiver_after),
{
    assert(receiver.taken + z == sender_after.given);
    assert(receiver == fresh_inflation() ==> receiver.taken + z =~= z);
    assert(continues(receiver, z, SPDY_DICT@));
    assert(ready(receiver, z, SPDY_DICT@));
    assert(r is Ok);
    assert(receiver_after.given == sender.taken + raw);
    assert(r->Ok_0 =~= raw) by {
        assert(r->Ok_0 =~= receiver_after.given.skip(sender.taken.len() as int));
        assert(raw =~= (sender.taken + raw).skip(sender.taken.len() as int));
    }
}

/// A frame that one end writes is the frame that the other reads, and the two
/// ends stay in step: for frames whose fields can be written as they are, and
/// whose header block, if they have one, can be read back and leaves room in
/// both buffers.
pub proof fn law_frames_arrive(
    sender: Deflation,
    f: FrameModel,
    sender_after: Deflation,
    written: Seq<u8>,
    raw: Seq<u8>,
    z: Seq<u8>,
    receiver: Inflation,
    receiver_after: Inflation,
    r: Result<Frame, Error>,
)
    requires
        in_step(sender, receiver),
        !(f is Data),
        writes_with(sender, f, sender_after, Ok(written), raw, Ok(z)),
        representable(f, z),
        has_block(f) ==> {
            &&& valid_fields(fields_of(f))
            &&& fits_a_block(fields_of(f))
            &&& fields_of(f).dom().len() < 6554
            &&& z.len() < 2 * raw.len() + 512 < 0x1_0000_0000
            &&& raw.len() < 4 * z.len() + 512 < 0x1_0000_0000
        },
        parses(receiver, type_of(f), flags_of(f), written.skip(8), receiver_after, r),
    ensures
        r matches Ok(frame) && frame@ == f,
        in_step(sender_after, receiver_after),
{
    if has_block(f) {
        law_frame_headers_are_read_back(f, z);
        law_control_frames_are_read_back(f, z);
        let out = choose|out: Result<Seq<u8>, Error>| #[trigger]
            parses_with(
                receiver,
                type_of(f),
                flags_of(f),
                written.skip(8),
                receiver_after,
                r,
                out,
            );
        law_header_blocks_arrive(sender, raw, sender_after, z, receiver, receiver_after, out);
        law_blocks_are_read_back(raw, fields_of(f));
        law_few_names_do_not_crowd(raw, fields_of(f));
    } else {
        lemma_plain_frames_ignore_the_block(f, z);
        law_frame_headers_are_read_back(f, Seq::empty());
        law_control_frames_are_read_back(f, Seq::empty());
        let out = choose|out: Result<Seq<u8>, Error>| #[trigger]
            parses_with(
                receiver,
                type_of(f),
                flags_of(f),
                written.skip(8),
                receiver_after,
                r,
                out,
            );
        assert(frame_reported(
            r,
            control_read(type_of(f), flags_of(f), written.skip(8), fields_of(f)),
        ));
    }
}

proof fn lemma_plain_frames_ignore_the_block(f: FrameModel, z: Seq<u8>)
    requires
        !has_block(f),
    ensures
        payload_octets(f, z) == payload_octets(f, Seq::empty()),
        representable(f, z) == representable(f, Seq::empty()),
{
}

/// Every header block shorter than 512 octets arrives whole, however well it was
/// compressed.
pub proof fn law_short_header_blocks_arrive(
    sender: Deflation,
    raw: Seq<u8>,
    sender_after: Deflation,
    z: Seq<u8>,
    receiver: Inflation,
    receiver_after: Inflation,
    r: Result<Seq<u8>, Error>,
)
    requires
        in_step(sender, receiver),
        0 < raw.len() < 512,
        compresses(sender, raw, sender_after, Ok(z)),
        z.len() < 2 * raw.len() + 512,
        decompresses(receiver, z, receiver_after, r),
    ensures
        r == Ok::<Seq<u8>, Error>(raw),
        in_step(sender_after, receiver_after),
{
    law_header_blocks_arrive(sender, raw, sender_after, z, receiver, receiver_after, r);
}

/// Every header block is compressed unless twice its length and 512 octets are
/// more than a buffer can hold; what comes out continues the stream that was
/// sent before.
pub proof fn law_header_blocks_are_compressed(
    a: Deflation,
    raw: Seq<u8>,
    b: Deflation,
    r: Result<Seq<u8>, Error>,
)
    requires
        compresses(a, raw, b, r),
    ensures
        r is Ok <==> 2 * raw.len() + 512 <= isize::MAX,
        r matches Ok(z) ==> b.given == a.given + z && z.len() <= 2 * raw.len() + 512,
        r is Err ==> b == a,
        b.dictionary == a.dictionary,
{
}

/// A block that is expanded with room to spare has been taken in whole and
/// continues a stream that can be expanded, unless the stream has come to its
/// end; a block that does not is a compression error.
pub proof fn law_faulty_header_blocks_are_refused(
    a: Inflation,
    z: Seq<u8>,
    b: Inflation,
    r: Result<Seq<u8>, Error>,
)
    requires
        decompresses(a, z, b, r),
        4 * z.len() + 512 < 0x1_0000_0000,
    ensures
        r matches Err(e) ==> e is Compression,
        r matches Ok(out) ==> b.given == a.given + out,
        r matches Ok(out) ==> out.len() >= 4 * z.len() + 512 || b.ended || (b.taken == a.taken + z
            && (b.dictionary.len() > 0 ==> inflated(b.dictionary, b.taken) is Some)),
{
}

/// A frame without a header block is always written, and leaves the stream of
/// header blocks as it is. One with a header block is written unless the block
/// is too long for a buffer.
pub proof fn law_frames_are_written(
    a: Deflation,
    f: FrameModel,
    b: Deflation,
    r: Result<Seq<u8>, Error>,
    raw: Seq<u8>,
    z: Result<Seq<u8>, Error>,
)
    requires
        writes_with(a, f, b, r, raw, z),
    ensures
        !(f is SynStream || f is SynReply || f is Headers) ==> r is Ok && b == a,
        f is SynStream || f is SynReply || f is Headers ==> (r is Ok <==> 2 * raw.len() + 512
            <= isize::MAX) && is_block_of(raw, fields_of(f)) && compresses(a, raw, b, z),
        r is Err ==> b == a,
{
}

/// A frame that one end writes is read at the other from the octets alone: its
/// header gives the type, the flags and the length of the payload, and header
/// and payload together the frame. It holds for identifiers of 31 bits,
/// priorities below 8, setting identifiers of 24 bits and payloads shorter than
/// 16 MiB, and for header fields that can be read back and leave room in both
/// buffers. The two ends stay in step.
pub proof fn law_written_frames_are_read(
    sender: Deflation,
    f: FrameModel,
    sender_after: Deflation,
    written: Seq<u8>,
    raw: Seq<u8>,
    z: Seq<u8>,
    receiver: Inflation,
    receiver_after: Inflation,
    r: Result<Frame, Error>,
)
    requires
        in_step(sender, receiver),
        writes_with(sender, f, sender_after, Ok(written), raw, Ok(z)),
        written.len() < 0x100_0008,
        match f {
            FrameModel::SynStream {
                stream_id,
                associated_stream_id,
                priority,
                headers,
                ..
            } => stream_id < 0x8000_0000 && associated_stream_id < 0x8000_0000 && priority < 8
                && arrives(headers, raw, z),
            FrameModel::SynReply { stream_id, headers, .. } => stream_id < 0x8000_0000 && arrives(
                headers,
                raw,
                z,
            ),
            FrameModel::RstStream { stream_id, .. } => stream_id < 0x8000_0000,
            FrameModel::Settings { settings, .. } => forall|i: int|
                0 <= i < settings.len() ==> (#[trigger] settings[i]).id < 0x100_0000,
            FrameModel::Ping { .. } => true,
            FrameModel::GoAway { last_good_stream_id, .. } => last_good_stream_id < 0x8000_0000,
            FrameModel::Headers { stream_id, headers, .. } => stream_id < 0x8000_0000 && arrives(
                headers,
                raw,
                z,
            ),
            FrameModel::WindowUpdate { stream_id, delta } => stream_id < 0x8000_0000 && delta
                < 0x8000_0000,
            FrameModel::Data { .. } => false,
        },
        header_read(written.take(8)) matches Ok(FrameHeader::Control { frame_type, flags, .. })
            ==> parses(receiver, frame_type, flags, written.skip(8), receiver_after, r),
    ensures
        header_read(written.take(8)) matches Ok(FrameHeader::Control { length, .. }) && length
            == written.len() - 8,
        r matches Ok(frame) && frame@ == f,
        in_step(sender_after, receiver_after),
{
    let block = if has_block(f) {
        z
    } else {
        Seq::empty()
    };
    law_payloads_hold_their_fields(f, block);
    lemma_plain_or_block(f, z, written);
    law_frame_headers_are_read_back(f, block);
    if !has_block(f) {
        lemma_plain_frames_ignore_the_block(f, z);
    }
    law_frames_arrive(sender, f, sender_after, written, raw, z, receiver, receiver_after, r);
}

/// Whether header fields can be read back from their block, and the block and
/// what it is compressed to leave room in the buffers of both ends.
pub open spec fn arrives(headers: Fields, raw: Seq<u8>, z: Seq<u8>) -> bool {
    &&& headers.dom().len() < 6554
    &&& forall|name: Seq<u8>| #[trigger]
        headers.contains_key(name) ==> {
            &&& valid_name(name)
            &&& lower_name(name) == name
            &&& headers[name].len() > 0
            &&& forall|i: int|
                0 <= i < headers[name].len() ==> valid_value(#[trigger] headers[name][i])
            &&& joined(headers[name]).len() < 0x1_0000_0000
        }
    &&& z.len() < 2 * raw.len() + 512 < 0x1_0000_0000
    &&& raw.len() < 4 * z.len() + 512 < 0x1_0000_0000
}

proof fn lemma_plain_or_block(f: FrameModel, z: Seq<u8>, written: Seq<u8>)
    requires
        !(f is Data),
        written == frame_octets(
            f,
            if has_block(f) {
                z
            } else {
                Seq::empty()
            },
        ),
    ensures
        written.len() == 8 + payload_octets(
            f,
            if has_block(f) {
                z
            } else {
                Seq::empty()
            },
        ).len(),
{
}

/// A data frame is read from its octets alone: its header gives the stream, the
/// flags and the length, and its payload is the data.
pub proof fn law_written_data_is_read(
    a: Deflation,
    stream_id: u32,
    flags: u8,
    data: Seq<u8>,
    b: Deflation,
    written: Seq<u8>,
    raw: Seq<u8>,
    z: Result<Seq<u8>, Error>,
)
    requires
        writes_with(a, FrameModel::Data { stream_id, flags, data }, b, Ok(written), raw, z),
        stream_id < 0x8000_0000,
        data.len() < 0x100_0000,
    ensures
        header_read(written.take(8)) == Ok::<FrameHeader, FrameFault>(
            FrameHeader::Data { stream_id, flags, length: data.len() as u32 },
        ),
        written.skip(8) == data,
        b == a,
{
    law_frame_headers_are_read_back(FrameModel::Data { stream_id, flags, data }, Seq::empty());
}

/// A frame that is reported holds what its payload and its header block hold,
/// and nothing is reported of a block that could not be expanded but that.
pub proof fn law_unreadable_header_blocks_are_reported(
    a: Inflation,
    frame_type: u16,
    flags: u8,
    payload: Seq<u8>,
    b: Inflation,
    r: Result<Frame, Error>,
)
    requires
        parses(a, frame_type, flags, payload, b, r),
    ensures
        frame_type != 1 && frame_type != 2 && frame_type != 8 ==> b == a,
        frame_type == 1 && payload.len() < 10 ==> r is Err && b == a,
        (frame_type == 2 || frame_type == 8) && payload.len() < 4 ==> r is Err && b == a,
        frame_type == 1 && payload.len() >= 10 ==> exists|out: Result<Seq<u8>, Error>| #[trigger]
            decompresses(a, payload.skip(10), b, out) && match out {
                Ok(raw) => assembled(frame_type, flags, payload, raw, r),
                Err(e) => r == Err::<Frame, Error>(e),
            },
        (frame_type == 2 || frame_type == 8) && payload.len() >= 4 ==> exists|
            out: Result<Seq<u8>, Error>,
        | #[trigger]
            decompresses(a, payload.skip(4), b, out) && match out {
                Ok(raw) => assembled(frame_type, flags, payload, raw, r),
                Err(e) => r == Err::<Frame, Error>(e),
            },
{
    let out = choose|out: Result<Seq<u8>, Error>| #[trigger]
        parses_with(a, frame_type, flags, payload, b, r, out);
    assert(frame_type == 1 && payload.len() >= 10 ==> decompresses(a, payload.skip(10), b, out));
    assert((frame_type == 2 || frame_type == 8) && payload.len() >= 4 ==> decompresses(
        a,
        payload.skip(4),
        b,
        out,
    ));
    let none = Map::<Seq<u8>, Seq<Seq<u8>>>::empty();
    assert(block_start(frame_type) is None || payload.len() < block_start(frame_type)->0
        ==> frame_reported(r, control_read(frame_type, flags, payload, none)));
}

/// A header block that was expanded gives its fields or its fault, and a frame
/// with it the same; one that could not be expanded gives the compression error.
pub proof fn law_header_blocks_decide(
    r: Result<HeaderMap, Error>,
    frame_type: u16,
    flags: u8,
    payload: Seq<u8>,
    raw: Seq<u8>,
    frame: Result<Frame, Error>,
    e: Error,
)
    requires
        raw.len() < 58990,
    ensures
        obtained(r, Ok(raw)) <==> match block_read(raw) {
            Ok(f) => r is Ok && fields(r->Ok_0) == f,
            Err(fault) => r matches Err(Error::Protocol(m)) && m@ == fault.text(),
        },
        obtained(r, Err(e)) <==> r == Err::<HeaderMap, Error>(e),
        assembled(frame_type, flags, payload, raw, frame) <==> match block_read(raw) {
            Ok(f) => frame_reported(frame, control_read(frame_type, flags, payload, f)),
            Err(fault) => frame matches Err(Error::Protocol(m)) && m@ == fault.text(),
        },
{
    law_short_blocks_do_not_crowd(raw);
}

} // verus!
