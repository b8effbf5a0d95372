//! Frames as octets, apart from the compression of their header blocks.
//!
//! A frame is eight octets of header, the last three of them the length of
//! what follows, and a payload. The first bit of the header tells a control
//! frame from a data frame.

use crate::error::{protocol, Error};
#[allow(unused_imports)]
use crate::error::is_protocol;
#[allow(unused_imports)]
use crate::frame::{Fields, FrameModel};
use crate::frame::{
    DataFrame, Frame, GoAwayFrame, GoAwayStatus, HeadersFrame, PingFrame, RstStatus,
    RstStreamFrame, Setting, SettingsFrame, SynReplyFrame, SynStreamFrame, WindowUpdateFrame,
};
#[allow(unused_imports)]
use crate::headers::fields;
#[allow(unused_imports)]
use crate::payload::octets;
use crate::payload::{contents, of_vec};
#[allow(unused_imports)]
use crate::text::decimal;
use crate::text::labelled;
#[allow(unused_imports)]
use crate::wire::{
    be16, be16_at, be24, be24_at, be32, be32_at, law_be16_is_read_back, law_be24_is_read_back,
    law_be32_is_read_back, law_numbers_are_big_endian, quad,
};
use crate::wire::{get16, get24, get32, put16, put24, put32, put_octets};
use http::HeaderMap;
use vstd::prelude::*;

verus! {

broadcast use crate::wire::group_wire;

pub const SPDY_VERSION: u16 = 3;

pub const TYPE_SYN_STREAM: u16 = 1;

pub const TYPE_SYN_REPLY: u16 = 2;

pub const TYPE_RST_STREAM: u16 = 3;

pub const TYPE_SETTINGS: u16 = 4;

pub const TYPE_PING: u16 = 6;

pub const TYPE_GOAWAY: u16 = 7;

pub const TYPE_HEADERS: u16 = 8;

pub const TYPE_WINDOW_UPDATE: u16 = 9;

/// A number as it is written where its highest bit is reserved.
pub open spec fn be31(v: u32) -> Seq<u8> {
    be32((v % 0x8000_0000) as u32)
}

/// One setting as it is written: the flags above the low 24 bits of its
/// identifier, then the value.
pub open spec fn setting_octets(s: Setting) -> Seq<u8> {
    be32((s.flags * 0x100_0000 + s.id % 0x100_0000) as u32) + be32(s.value)
}

/// Settings as they are written, one after the other.
pub open spec fn settings_octets(settings: Seq<Setting>) -> Seq<u8>
    decreases settings.len(),
{
    if settings.len() == 0 {
        Seq::empty()
    } else {
        settings_octets(settings.drop_last()) + setting_octets(settings.last())
    }
}

/// The payload of a frame. `block` is the frame's compressed header block, for
/// those frames that have one.
pub open spec fn payload_octets(f: FrameModel, block: Seq<u8>) -> Seq<u8> {
    match f {
        FrameModel::SynStream { stream_id, associated_stream_id, priority, .. } => be31(stream_id)
            + be31(associated_stream_id) + seq![((priority % 8) * 32) as u8, 0u8] + block,
        FrameModel::SynReply { stream_id, .. } => be31(stream_id) + block,
        FrameModel::RstStream { stream_id, status } => be31(stream_id) + be32(status.spec_code()),
        FrameModel::Settings { settings, .. } => be32((settings.len() % 0x1_0000_0000) as u32)
            + settings_octets(settings),
        FrameModel::Ping { id } => be32(id),
        FrameModel::GoAway { last_good_stream_id, status } => be31(last_good_stream_id) + be32(
            status.spec_code(),
        ),
        FrameModel::Headers { stream_id, .. } => be31(stream_id) + block,
        FrameModel::WindowUpdate { stream_id, delta } => be31(stream_id) + be31(delta),
        FrameModel::Data { data, .. } => data,
    }
}

/// The flags of a frame; frames without flags have none set.
pub open spec fn flags_of(f: FrameModel) -> u8 {
    match f {
        FrameModel::SynStream { flags, .. } => flags,
        FrameModel::SynReply { flags, .. } => flags,
        FrameModel::Settings { flags, .. } => flags,
        FrameModel::Headers { flags, .. } => flags,
        FrameModel::Data { flags, .. } => flags,
        _ => 0,
    }
}

/// The number that stands for the type of a control frame.
pub open spec fn type_of(f: FrameModel) -> u16 {
    match f {
        FrameModel::SynStream { .. } => TYPE_SYN_STREAM,
        FrameModel::SynReply { .. } => TYPE_SYN_REPLY,
        FrameModel::RstStream { .. } => TYPE_RST_STREAM,
        FrameModel::Settings { .. } => TYPE_SETTINGS,
        FrameModel::Ping { .. } => TYPE_PING,
        FrameModel::GoAway { .. } => TYPE_GOAWAY,
        FrameModel::Headers { .. } => TYPE_HEADERS,
        FrameModel::WindowUpdate { .. } => TYPE_WINDOW_UPDATE,
        FrameModel::Data { .. } => 0,
    }
}

/// A control frame: version with the control bit, type, flags, length and
/// payload.
pub open spec fn control_octets(frame_type: u16, flags: u8, payload: Seq<u8>) -> Seq<u8> {
    be16(0x8003) + be16(frame_type) + seq![flags] + be24(payload.len()) + payload
}

/// A data frame: stream, flags, length and payload.
pub open spec fn data_octets(stream_id: u32, flags: u8, data: Seq<u8>) -> Seq<u8> {
    be31(stream_id) + seq![flags] + be24(data.len()) + data
}

/// A frame as it is written.
pub open spec fn frame_octets(f: FrameModel, block: Seq<u8>) -> Seq<u8> {
    match f {
        FrameModel::Data { stream_id, flags, data } => data_octets(stream_id, flags, data),
        _ => control_octets(type_of(f), flags_of(f), payload_octets(f, block)),
    }
}

/// Appends a number whose highest bit is reserved.
fn put31(out: &mut Vec<u8>, v: u32)
    ensures
        final(out)@ == old(out)@ + be31(v),
{
    put32(out, v % 0x8000_0000);
}

/// Writes a control frame.
pub fn write_control_frame(frame_type: u16, flags: u8, payload: &[u8]) -> (out: Vec<u8>)
    ensures
        out@ == control_octets(frame_type, flags, payload@),
{
    let mut out: Vec<u8> = Vec::new();
    put16(&mut out, 0x8000 + SPDY_VERSION);
    put16(&mut out, frame_type);
    out.push(flags);
    put24(&mut out, payload.len());
    put_octets(&mut out, payload);
    assert(out@ =~= control_octets(frame_type, flags, payload@));
    out
}

/// Writes a data frame.
pub fn write_data_frame(f: &DataFrame) -> (out: Vec<u8>)
    ensures
        out@ == frame_octets(Frame::Data(*f)@, Seq::empty()),
{
    let data = contents(&f.data);
    let mut out: Vec<u8> = Vec::new();
    put31(&mut out, f.stream_id);
    out.push(f.flags);
    put24(&mut out, data.len());
    put_octets(&mut out, data);
    assert(out@ =~= data_octets(f.stream_id, f.flags, data@));
    out
}

/// Writes a SYN_STREAM frame around its compressed header block.
pub fn write_syn_stream(f: &SynStreamFrame, block: &[u8]) -> (out: Vec<u8>)
    ensures
        out@ == frame_octets(Frame::SynStream(*f)@, block@),
{
    let mut payload: Vec<u8> = Vec::new();
    put31(&mut payload, f.stream_id);
    put31(&mut payload, f.associated_stream_id);
    payload.push((f.priority % 8) * 32);
    payload.push(0);
    put_octets(&mut payload, block);
    assert(payload@ =~= payload_octets(Frame::SynStream(*f)@, block@));
    write_control_frame(TYPE_SYN_STREAM, f.flags, payload.as_slice())
}

/// Writes a SYN_REPLY frame around its compressed header block.
pub fn write_syn_reply(f: &SynReplyFrame, block: &[u8]) -> (out: Vec<u8>)
    ensures
        out@ == frame_octets(Frame::SynReply(*f)@, block@),
{
    let mut payload: Vec<u8> = Vec::new();
    put31(&mut payload, f.stream_id);
    put_octets(&mut payload, block);
    assert(payload@ =~= payload_octets(Frame::SynReply(*f)@, block@));
    write_control_frame(TYPE_SYN_REPLY, f.flags, payload.as_slice())
}

/// Writes a HEADERS frame around its compressed header block.
pub fn write_headers(f: &HeadersFrame, block: &[u8]) -> (out: Vec<u8>)
    ensures
        out@ == frame_octets(Frame::Headers(*f)@, block@),
{
    let mut payload: Vec<u8> = Vec::new();
    put31(&mut payload, f.stream_id);
    put_octets(&mut payload, block);
    assert(payload@ =~= payload_octets(Frame::Headers(*f)@, block@));
    write_control_frame(TYPE_HEADERS, f.flags, payload.as_slice())
}

/// Writes an RST_STREAM frame.
pub fn write_rst_stream(f: &RstStreamFrame) -> (out: Vec<u8>)
    ensures
        out@ == frame_octets(Frame::RstStream(*f)@, Seq::empty()),
{
    let mut payload: Vec<u8> = Vec::new();
    put31(&mut payload, f.stream_id);
    put32(&mut payload, f.status.code());
    assert(payload@ =~= payload_octets(Frame::RstStream(*f)@, Seq::empty()));
    write_control_frame(TYPE_RST_STREAM, 0, payload.as_slice())
}

/// Writes a SETTINGS frame.
pub fn write_settings(f: &SettingsFrame) -> (out: Vec<u8>)
    ensures
        out@ == frame_octets(Frame::Settings(*f)@, Seq::empty()),
{
    let mut payload: Vec<u8> = Vec::new();
    put32(&mut payload, (f.settings.len() as u64 % 0x1_0000_0000) as u32);
    let ghost head = payload@;
    let mut i: usize = 0;
    assert(f.settings@.take(0) == Seq::<Setting>::empty());
    while i < f.settings.len()
        invariant
            i <= f.settings@.len(),
            payload@ == head + settings_octets(f.settings@.take(i as int)),
        decreases f.settings.len() - i,
    {
        let s = f.settings[i];
        assert(f.settings@.take(i + 1).drop_last() == f.settings@.take(i as int));
        put32(&mut payload, (s.flags as u32) * 0x100_0000 + s.id % 0x100_0000);
        put32(&mut payload, s.value);
        assert(payload@ =~= head + (settings_octets(f.settings@.take(i as int)) + setting_octets(
            s,
        )));
        i += 1;
    }
    assert(f.settings@.take(i as int) == f.settings@);
    assert(payload@ =~= payload_octets(Frame::Settings(*f)@, Seq::empty()));
    write_control_frame(TYPE_SETTINGS, f.flags, payload.as_slice())
}

/// Writes a PING frame.
pub fn write_ping(f: &PingFrame) -> (out: Vec<u8>)
    ensures
        out@ == frame_octets(Frame::Ping(*f)@, Seq::empty()),
{
    let mut payload: Vec<u8> = Vec::new();
    put32(&mut payload, f.id);
    assert(payload@ =~= be32(f.id));
    write_control_frame(TYPE_PING, 0, payload.as_slice())
}

/// Writes a GOAWAY frame.
pub fn write_goaway(f: &GoAwayFrame) -> (out: Vec<u8>)
    ensures
        out@ == frame_octets(Frame::GoAway(*f)@, Seq::empty()),
{
    let mut payload: Vec<u8> = Vec::new();
    put31(&mut payload, f.last_good_stream_id);
    put32(&mut payload, f.status.code());
    assert(payload@ =~= payload_octets(Frame::GoAway(*f)@, Seq::empty()));
    write_control_frame(TYPE_GOAWAY, 0, payload.as_slice())
}

/// Writes a WINDOW_UPDATE frame.
pub fn write_window_update(f: &WindowUpdateFrame) -> (out: Vec<u8>)
    ensures
        out@ == frame_octets(Frame::WindowUpdate(*f)@, Seq::empty()),
{
    let mut payload: Vec<u8> = Vec::new();
    put31(&mut payload, f.stream_id);
    put31(&mut payload, f.delta);
    assert(payload@ =~= payload_octets(Frame::WindowUpdate(*f)@, Seq::empty()));
    write_control_frame(TYPE_WINDOW_UPDATE, 0, payload.as_slice())
}

/// The header of a frame: what its first eight octets say.
#[derive(Debug, Clone, Copy, PartialEq, Eq, Structural)]
pub enum FrameHeader {
    Control { frame_type: u16, flags: u8, length: u32 },
    Data { stream_id: u32, flags: u8, length: u32 },
}

impl FrameHeader {
    /// The length of the payload that follows the header.
    pub open spec fn spec_length(self) -> u32 {
        match self {
            FrameHeader::Control { length, .. } => length,
            FrameHeader::Data { length, .. } => length,
        }
    }

    /// The length of the payload that follows the header.
    #[verifier::when_used_as_spec(spec_length)]
    pub fn length(self) -> (n: u32)
        ensures
            n == self.spec_length(),
    {
        match self {
            FrameHeader::Control { length, .. } => length,
            FrameHeader::Data { length, .. } => length,
        }
    }
}

/// What can be wrong with a frame.
pub ghost enum FrameFault {
    Protocol(Seq<char>),
    UnknownType(u16),
}

/// Whether `e` reports the fault.
pub open spec fn is_fault(e: Error, fault: FrameFault) -> bool {
    match fault {
        FrameFault::Protocol(text) => is_protocol(e, text),
        FrameFault::UnknownType(t) => e == Error::UnknownFrameType(t),
    }
}

/// What the eight octets of a frame header say.
pub open spec fn header_read(h: Seq<u8>) -> Result<FrameHeader, FrameFault> {
    let length = be24_at(h, 5) as u32;
    if h[0] < 0x80 {
        Ok(FrameHeader::Data { stream_id: be32_at(h, 0) as u32, flags: h[4], length })
    } else if be16_at(h, 0) - 0x8000 != SPDY_VERSION {
        Err(
            FrameFault::Protocol(
                "unsupported SPDY version: "@ + decimal((be16_at(h, 0) - 0x8000) as nat),
            ),
        )
    } else {
        Ok(FrameHeader::Control { frame_type: be16_at(h, 2) as u16, flags: h[4], length })
    }
}

/// Reads a frame header.
pub fn parse_frame_header(header: &[u8]) -> (r: Result<FrameHeader, Error>)
    requires
        header@.len() == 8,
    ensures
        match header_read(header@) {
            Ok(h) => r == Ok::<FrameHeader, Error>(h),
            Err(fault) => r matches Err(e) && is_fault(e, fault),
        },
{
    proof {
        reveal(be16_at);
        reveal(be32_at);
    }
    let flags: u8 = header[4];
    let length: u32 = get24(header, 5);
    if header[0] < 0x80 {
        return Ok(FrameHeader::Data { stream_id: get32(header, 0), flags, length });
    }
    let version: u16 = get16(header, 0) - 0x8000;
    if version != SPDY_VERSION {
        let text = labelled("unsupported SPDY version: ", version as u32);
        return Err(protocol(text.as_str()));
    }
    Ok(FrameHeader::Control { frame_type: get16(header, 2), flags, length })
}

/// A number whose highest bit is reserved, and ignored.
pub open spec fn be31_at(s: Seq<u8>, at: int) -> u32 {
    (be32_at(s, at) % 0x8000_0000) as u32
}

/// The setting that stands at `at`.
pub open spec fn setting_at(s: Seq<u8>, at: int) -> Setting {
    Setting { id: be24_at(s, at + 1) as u32, flags: s[at], value: be32_at(s, at + 4) as u32 }
}

/// Where the compressed header block of a control frame starts, for those
/// types that have one.
pub open spec fn block_start(frame_type: u16) -> Option<int> {
    if frame_type == TYPE_SYN_STREAM {
        Some(10)
    } else if frame_type == TYPE_SYN_REPLY || frame_type == TYPE_HEADERS {
        Some(4)
    } else {
        None
    }
}

/// The control frame that a payload holds. `headers` is what the frame's
/// header block holds, for those types that have one.
pub open spec fn control_read(frame_type: u16, flags: u8, p: Seq<u8>, headers: Fields) -> Result<
    FrameModel,
    FrameFault,
> {
    let stream_id = be31_at(p, 0);
    let code = be32_at(p, 4) as u32;
    if frame_type == TYPE_SYN_STREAM {
        if p.len() < 10 {
            Err(FrameFault::Protocol("SynStream too short"@))
        } else {
            Ok(
                FrameModel::SynStream {
                    stream_id,
                    associated_stream_id: be31_at(p, 4),
                    priority: (p[8] / 32) as u8,
                    headers,
                    flags,
                },
            )
        }
    } else if frame_type == TYPE_SYN_REPLY {
        if p.len() < 4 {
            Err(FrameFault::Protocol("SynReply too short"@))
        } else {
            Ok(FrameModel::SynReply { stream_id, headers, flags })
        }
    } else if frame_type == TYPE_RST_STREAM {
        if p.len() < 8 {
            Err(FrameFault::Protocol("RstStream too short"@))
        } else {
            match RstStatus::of_code(code) {
                Some(status) => Ok(FrameModel::RstStream { stream_id, status }),
                None => Err(
                    FrameFault::Protocol("unknown RST_STREAM status: "@ + decimal(code as nat)),
                ),
            }
        }
    } else if frame_type == TYPE_SETTINGS {
        if p.len() < 4 {
            Err(FrameFault::Protocol("Settings too short"@))
        } else if p.len() < 4 + be32_at(p, 0) * 8 {
            Err(FrameFault::Protocol("Settings payload truncated"@))
        } else {
            Ok(
                FrameModel::Settings {
                    settings: Seq::new(be32_at(p, 0) as nat, |i: int| setting_at(p, 4 + i * 8)),
                    flags,
                },
            )
        }
    } else if frame_type == TYPE_PING {
        if p.len() < 4 {
            Err(FrameFault::Protocol("Ping too short"@))
        } else {
            Ok(FrameModel::Ping { id: be32_at(p, 0) as u32 })
        }
    } else if frame_type == TYPE_GOAWAY {
        if p.len() < 8 {
            Err(FrameFault::Protocol("GoAway too short"@))
        } else {
            Ok(
                FrameModel::GoAway {
                    last_good_stream_id: stream_id,
                    status: GoAwayStatus::of_code(code),
                },
            )
        }
    } else if frame_type == TYPE_HEADERS {
        if p.len() < 4 {
            Err(FrameFault::Protocol("Headers frame too short"@))
        } else {
            Ok(FrameModel::Headers { stream_id, headers, flags })
        }
    } else if frame_type == TYPE_WINDOW_UPDATE {
        if p.len() < 8 {
            Err(FrameFault::Protocol("WindowUpdate too short"@))
        } else {
            Ok(FrameModel::WindowUpdate { stream_id, delta: be31_at(p, 4) })
        }
    } else {
        Err(FrameFault::UnknownType(frame_type))
    }
}

/// Whether `r` reports what `control_read` says.
pub open spec fn frame_reported(
    r: Result<Frame, Error>,
    read: Result<FrameModel, FrameFault>,
) -> bool {
    match read {
        Ok(f) => r matches Ok(frame) && frame@ == f,
        Err(fault) => r matches Err(e) && is_fault(e, fault),
    }
}

/// Reads a number whose highest bit is reserved.
fn get31(s: &[u8], at: usize) -> (v: u32)
    requires
        at + 4 <= s@.len(),
    ensures
        v == be31_at(s@, at as int),
{
    get32(s, at) % 0x8000_0000
}

fn parse_rst_stream(payload: &[u8]) -> (r: Result<Frame, Error>)
    ensures
        forall|flags: u8, headers: Fields|
            frame_reported(r, #[trigger] control_read(TYPE_RST_STREAM, flags, payload@, headers)),
{
    if payload.len() < 8 {
        return Err(protocol("RstStream too short"));
    }
    let stream_id: u32 = get31(payload, 0);
    let code: u32 = get32(payload, 4);
    match RstStatus::try_from(code) {
        Ok(status) => Ok(Frame::RstStream(RstStreamFrame { stream_id, status })),
        Err(_) => {
            let text = labelled("unknown RST_STREAM status: ", code);
            Err(protocol(text.as_str()))
        },
    }
}

fn parse_settings(flags: u8, payload: &[u8]) -> (r: Result<Frame, Error>)
    ensures
        forall|headers: Fields|
            frame_reported(r, #[trigger] control_read(TYPE_SETTINGS, flags, payload@, headers)),
{
    if payload.len() < 4 {
        return Err(protocol("Settings too short"));
    }
    let len: usize = payload.len();
    let count: u32 = get32(payload, 0);
    if (len as u64) < 4 + (count as u64) * 8 {
        return Err(protocol("Settings payload truncated"));
    }
    let mut settings: Vec<Setting> = Vec::new();
    let mut i: u32 = 0;
    while i < count
        invariant
            i <= count,
            len == payload@.len(),
            len >= 4 + count * 8,
            settings@ == Seq::new(i as nat, |j: int| setting_at(payload@, 4 + j * 8)),
        decreases count - i,
    {
        let at: usize = 4 + i as usize * 8;
        settings.push(
            Setting { id: get24(payload, at + 1), flags: payload[at], value: get32(payload, at + 4) },
        );
        i += 1;
        assert(settings@ =~= Seq::new(i as nat, |j: int| setting_at(payload@, 4 + j * 8)));
    }
    Ok(Frame::Settings(SettingsFrame { settings, flags }))
}

fn parse_ping(payload: &[u8]) -> (r: Result<Frame, Error>)
    ensures
        forall|flags: u8, headers: Fields|
            frame_reported(r, #[trigger] control_read(TYPE_PING, flags, payload@, headers)),
{
    if payload.len() < 4 {
        return Err(protocol("Ping too short"));
    }
    Ok(Frame::Ping(PingFrame { id: get32(payload, 0) }))
}

fn parse_goaway(payload: &[u8]) -> (r: Result<Frame, Error>)
    ensures
        forall|flags: u8, headers: Fields|
            frame_reported(r, #[trigger] control_read(TYPE_GOAWAY, flags, payload@, headers)),
{
    if payload.len() < 8 {
        return Err(protocol("GoAway too short"));
    }
    let last_good_stream_id: u32 = get31(payload, 0);
    let code: u32 = get32(payload, 4);
    match GoAwayStatus::try_from(code) {
        Ok(status) => Ok(Frame::GoAway(GoAwayFrame { last_good_stream_id, status })),
        Err(_) => {
            let text = labelled("unknown GOAWAY status: ", code);
            Err(protocol(text.as_str()))
        },
    }
}

fn parse_window_update(payload: &[u8]) -> (r: Result<Frame, Error>)
    ensures
        forall|flags: u8, headers: Fields|
            frame_reported(r, #[trigger] control_read(TYPE_WINDOW_UPDATE, flags, payload@, headers)),
{
    if payload.len() < 8 {
        return Err(protocol("WindowUpdate too short"));
    }
    Ok(
        Frame::WindowUpdate(
            WindowUpdateFrame { stream_id: get31(payload, 0), delta: get31(payload, 4) },
        ),
    )
}

/// Reads a control frame of a type without a header block.
pub fn parse_plain_control_frame(frame_type: u16, flags: u8, payload: &[u8]) -> (r: Result<
    Frame,
    Error,
>)
    requires
        block_start(frame_type) is None,
    ensures
        forall|headers: Fields|
            frame_reported(r, #[trigger] control_read(frame_type, flags, payload@, headers)),
{
    if frame_type == TYPE_RST_STREAM {
        parse_rst_stream(payload)
    } else if frame_type == TYPE_SETTINGS {
        parse_settings(flags, payload)
    } else if frame_type == TYPE_PING {
        parse_ping(payload)
    } else if frame_type == TYPE_GOAWAY {
        parse_goaway(payload)
    } else if frame_type == TYPE_WINDOW_UPDATE {
        parse_window_update(payload)
    } else {
        Err(Error::UnknownFrameType(frame_type))
    }
}

/// A SYN_STREAM frame from its payload and what its header block holds.
pub fn syn_stream_frame(flags: u8, payload: &[u8], headers: HeaderMap) -> (f: Frame)
    requires
        payload@.len() >= 10,
    ensures
        control_read(TYPE_SYN_STREAM, flags, payload@, fields(headers)) == Ok::<
            FrameModel,
            FrameFault,
        >(f@),
{
    Frame::SynStream(
        SynStreamFrame {
            stream_id: get31(payload, 0),
            associated_stream_id: get31(payload, 4),
            priority: payload[8] / 32,
            headers,
            flags,
        },
    )
}

/// A SYN_REPLY frame from its payload and what its header block holds.
pub fn syn_reply_frame(flags: u8, payload: &[u8], headers: HeaderMap) -> (f: Frame)
    requires
        payload@.len() >= 4,
    ensures
        control_read(TYPE_SYN_REPLY, flags, payload@, fields(headers)) == Ok::<
            FrameModel,
            FrameFault,
        >(f@),
{
    Frame::SynReply(SynReplyFrame { stream_id: get31(payload, 0), headers, flags })
}

/// A HEADERS frame from its payload and what its header block holds.
pub fn headers_frame(flags: u8, payload: &[u8], headers: HeaderMap) -> (f: Frame)
    requires
        payload@.len() >= 4,
    ensures
        control_read(TYPE_HEADERS, flags, payload@, fields(headers)) == Ok::<
            FrameModel,
            FrameFault,
        >(f@),
{
    Frame::Headers(HeadersFrame { stream_id: get31(payload, 0), headers, flags })
}

/// A DATA frame from its header and payload.
pub fn data_frame(stream_id: u32, flags: u8, data: Vec<u8>) -> (f: Frame)
    ensures
        f@ == (FrameModel::Data { stream_id, flags, data: data@ }),
{
    Frame::Data(DataFrame { stream_id, flags, data: of_vec(data) })
}

/// Whether every field of `f` can be written as it is, given the frame's
/// compressed header block.
pub open spec fn representable(f: FrameModel, block: Seq<u8>) -> bool {
    &&& payload_octets(f, block).len() < 0x100_0000
    &&& match f {
        FrameModel::SynStream { stream_id, associated_stream_id, priority, .. } => stream_id
            < 0x8000_0000 && associated_stream_id < 0x8000_0000 && priority < 8,
        FrameModel::SynReply { stream_id, .. } => stream_id < 0x8000_0000,
        FrameModel::RstStream { stream_id, .. } => stream_id < 0x8000_0000,
        FrameModel::Settings { settings, .. } => forall|i: int|
            0 <= i < settings.len() ==> (#[trigger] settings[i]).id < 0x100_0000,
        FrameModel::Ping { .. } => true,
        FrameModel::GoAway { last_good_stream_id, .. } => last_good_stream_id < 0x8000_0000,
        FrameModel::Headers { stream_id, .. } => stream_id < 0x8000_0000,
        FrameModel::WindowUpdate { stream_id, delta } => stream_id < 0x8000_0000 && delta
            < 0x8000_0000,
        FrameModel::Data { stream_id, .. } => stream_id < 0x8000_0000,
    }
}

/// The header that a written frame starts with.
pub open spec fn header_of(f: FrameModel, block: Seq<u8>) -> FrameHeader {
    let length = payload_octets(f, block).len() as u32;
    match f {
        FrameModel::Data { stream_id, flags, .. } => FrameHeader::Data { stream_id, flags, length },
        _ => FrameHeader::Control { frame_type: type_of(f), flags: flags_of(f), length },
    }
}

/// The header fields of a frame; none for frames without a header block.
pub open spec fn fields_of(f: FrameModel) -> Fields {
    match f {
        FrameModel::SynStream { headers, .. } => headers,
        FrameModel::SynReply { headers, .. } => headers,
        FrameModel::Headers { headers, .. } => headers,
        _ => Map::empty(),
    }
}

/// The header of a written frame is read back, with the length of what follows
/// it.
pub proof fn law_frame_headers_are_read_back(f: FrameModel, block: Seq<u8>)
    requires
        representable(f, block),
    ensures
        frame_octets(f, block).len() == 8 + payload_octets(f, block).len(),
        frame_octets(f, block).skip(8) == payload_octets(f, block),
        header_read(frame_octets(f, block).take(8)) == Ok::<FrameHeader, FrameFault>(
            header_of(f, block),
        ),
{
    let p = payload_octets(f, block);
    let all = frame_octets(f, block);
    assert(all.skip(8) =~= p);
    let h = all.take(8);
    assert(h.subrange(5, 8) =~= be24(p.len()));
    law_be24_is_read_back(p.len(), h, 5);
    match f {
        FrameModel::Data { stream_id, flags, .. } => {
            assert(h.subrange(0, 4) =~= be31(stream_id));
            law_be32_is_read_back(stream_id, h, 0);
            assert(h[0] < 0x80) by {
                reveal(be32_at);
            }
            assert(h[4] == flags);
        },
        _ => {
            assert(h.subrange(0, 2) =~= be16(0x8003));
            assert(h.subrange(2, 4) =~= be16(type_of(f)));
            law_be16_is_read_back(0x8003, h, 0);
            law_be16_is_read_back(type_of(f), h, 2);
            assert(h[0] >= 0x80) by {
                reveal(be16_at);
            }
            assert(h[4] == flags_of(f));
        },
    }
}

proof fn lemma_settings_octets(settings: Seq<Setting>, i: int)
    requires
        0 <= i < settings.len(),
    ensures
        settings_octets(settings).len() == settings.len() * 8,
        settings_octets(settings).subrange(i * 8, i * 8 + 8) == setting_octets(settings[i]),
    decreases settings.len(),
{
    let front = settings.drop_last();
    if front.len() > 0 {
        lemma_settings_octets(front, if i < front.len() { i } else { 0 });
    }
    assert(settings_octets(front).len() == front.len() * 8);
    if i < front.len() {
        assert(settings_octets(settings).subrange(i * 8, i * 8 + 8) =~= settings_octets(
            front,
        ).subrange(i * 8, i * 8 + 8));
    } else {
        assert(settings_octets(settings).subrange(i * 8, i * 8 + 8) =~= setting_octets(
            settings[i],
        ));
    }
}

proof fn lemma_setting_is_read_back(s: Setting, p: Seq<u8>, at: int)
    requires
        s.id < 0x100_0000,
        0 <= at <= p.len() - 8,
        p.subrange(at, at + 8) == setting_octets(s),
    ensures
        setting_at(p, at) == s,
{
    let word = (s.flags * 0x100_0000 + s.id % 0x100_0000) as u32;
    assert(p.subrange(at, at + 4) =~= p.subrange(at, at + 8).take(4));
    assert(setting_octets(s).take(4) =~= be32(word));
    assert(p.subrange(at + 4, at + 8) =~= p.subrange(at, at + 8).skip(4));
    assert(setting_octets(s).skip(4) =~= be32(s.value));
    law_be32_is_read_back(word, p, at);
    law_be32_is_read_back(s.value, p, at + 4);
    assert(p[at] == s.flags && be24_at(p, at + 1) == s.id) by {
        reveal(be32_at);
        reveal(be24_at);
    }
}

proof fn lemma_settings_are_read_back(settings: Seq<Setting>, flags: u8, headers: Fields)
    requires
        representable(FrameModel::Settings { settings, flags }, Seq::empty()),
    ensures
        control_read(
            TYPE_SETTINGS,
            flags,
            payload_octets(FrameModel::Settings { settings, flags }, Seq::empty()),
            headers,
        ) == Ok::<FrameModel, FrameFault>(FrameModel::Settings { settings, flags }),
{
    let p = payload_octets(FrameModel::Settings { settings, flags }, Seq::empty());
    if settings.len() > 0 {
        lemma_settings_octets(settings, 0);
    }
    assert(p.len() == 4 + settings.len() * 8);
    assert(p.subrange(0, 4) =~= be32(settings.len() as u32));
    law_be32_is_read_back(settings.len() as u32, p, 0);
    let read = Seq::new(settings.len(), |i: int| setting_at(p, 4 + i * 8));
    assert forall|i: int| 0 <= i < settings.len() implies read[i] == settings[i] by {
        lemma_settings_octets(settings, i);
        assert(p.subrange(4 + i * 8, 4 + i * 8 + 8) =~= settings_octets(settings).subrange(
            i * 8,
            i * 8 + 8,
        ));
        lemma_setting_is_read_back(settings[i], p, 4 + i * 8);
    }
    assert(read =~= settings);
}

/// The payload of a written control frame is read back, its header block
/// aside.
pub proof fn law_control_frames_are_read_back(f: FrameModel, block: Seq<u8>)
    requires
        representable(f, block),
        !(f is Data),
    ensures
        control_read(type_of(f), flags_of(f), payload_octets(f, block), fields_of(f)) == Ok::<
            FrameModel,
            FrameFault,
        >(f),
        block_start(type_of(f)) matches Some(at) ==> payload_octets(f, block).skip(at) == block,
{
    let p = payload_octets(f, block);
    match f {
        FrameModel::SynStream { stream_id, associated_stream_id, priority, .. } => {
            assert(p.subrange(0, 4) =~= be31(stream_id));
            assert(p.subrange(4, 8) =~= be31(associated_stream_id));
            law_be32_is_read_back(stream_id, p, 0);
            law_be32_is_read_back(associated_stream_id, p, 4);
            assert(p[8] == priority * 32);
            assert(p.skip(10) =~= block);
        },
        FrameModel::SynReply { stream_id, .. } => {
            assert(p.subrange(0, 4) =~= be31(stream_id));
            law_be32_is_read_back(stream_id, p, 0);
            assert(p.skip(4) =~= block);
        },
        FrameModel::Headers { stream_id, .. } => {
            assert(p.subrange(0, 4) =~= be31(stream_id));
            law_be32_is_read_back(stream_id, p, 0);
            assert(p.skip(4) =~= block);
        },
        FrameModel::RstStream { stream_id, status } => {
            assert(p.subrange(0, 4) =~= be31(stream_id));
            assert(p.subrange(4, 8) =~= be32(status.spec_code()));
            law_be32_is_read_back(stream_id, p, 0);
            law_be32_is_read_back(status.spec_code(), p, 4);
        },
        FrameModel::GoAway { last_good_stream_id, status } => {
            assert(p.subrange(0, 4) =~= be31(last_good_stream_id));
            assert(p.subrange(4, 8) =~= be32(status.spec_code()));
            law_be32_is_read_back(last_good_stream_id, p, 0);
            law_be32_is_read_back(status.spec_code(), p, 4);
        },
        FrameModel::WindowUpdate { stream_id, delta } => {
            assert(p.subrange(0, 4) =~= be31(stream_id));
            assert(p.subrange(4, 8) =~= be31(delta));
            law_be32_is_read_back(stream_id, p, 0);
            law_be32_is_read_back(delta, p, 4);
        },
        FrameModel::Ping { id } => {
            assert(p.subrange(0, 4) =~= be32(id));
            law_be32_is_read_back(id, p, 0);
        },
        FrameModel::Settings { settings, flags } => {
            lemma_settings_are_read_back(settings, flags, fields_of(f));
        },
        FrameModel::Data { .. } => {},
    }
}

/// A control frame starts with the version under the control bit, the number of
/// its type, its flags and the length of its payload; a data frame with its
/// stream, flags and length. The payload follows.
pub proof fn law_frames_start_with_their_header(f: FrameModel, block: Seq<u8>)
    requires
        payload_octets(f, block).len() < 0x100_0000,
    ensures
        ({
            let o = frame_octets(f, block);
            let p = payload_octets(f, block);
            &&& o.len() == 8 + p.len()
            &&& o.skip(8) == p
            &&& quad(0, o[5], o[6], o[7]) == p.len()
            &&& match f {
                FrameModel::SynStream { flags, .. } => o.take(5) == seq![0x80u8, 3, 0, 1, flags],
                FrameModel::SynReply { flags, .. } => o.take(5) == seq![0x80u8, 3, 0, 2, flags],
                FrameModel::RstStream { .. } => o.take(5) == seq![0x80u8, 3, 0, 3, 0],
                FrameModel::Settings { flags, .. } => o.take(5) == seq![0x80u8, 3, 0, 4, flags],
                FrameModel::Ping { .. } => o.take(5) == seq![0x80u8, 3, 0, 6, 0],
                FrameModel::GoAway { .. } => o.take(5) == seq![0x80u8, 3, 0, 7, 0],
                FrameModel::Headers { flags, .. } => o.take(5) == seq![0x80u8, 3, 0, 8, flags],
                FrameModel::WindowUpdate { .. } => o.take(5) == seq![0x80u8, 3, 0, 9, 0],
                FrameModel::Data { stream_id, flags, data } => {
                    &&& quad(o[0], o[1], o[2], o[3]) == stream_id % 0x8000_0000
                    &&& o[4] == flags
                    &&& p == data
                },
            }
        }),
{
    let o = frame_octets(f, block);
    let p = payload_octets(f, block);
    assert(o.skip(8) =~= p);
    assert(o.subrange(5, 8) =~= be24(p.len()));
    law_numbers_are_big_endian(0, 0x8003, p.len(), o, 0);
    assert(o[5] == be24(p.len())[0] && o[6] == be24(p.len())[1] && o[7] == be24(p.len())[2]) by {
        assert(o[5] == o.subrange(5, 8)[0]);
        assert(o[6] == o.subrange(5, 8)[1]);
        assert(o[7] == o.subrange(5, 8)[2]);
    }
    match f {
        FrameModel::Data { stream_id, .. } => {
            let id = (stream_id % 0x8000_0000) as u32;
            assert(o.take(4) =~= be32(id));
            law_numbers_are_big_endian(id, 0, 0, o, 0);
            assert(o[0] == o.take(4)[0] && o[1] == o.take(4)[1] && o[2] == o.take(4)[2] && o[3]
                == o.take(4)[3]);
        },
        _ => {
            reveal(be16);
            assert(o.take(5) =~= be16(0x8003) + be16(type_of(f)) + seq![flags_of(f)]);
            assert(o.take(5) =~= seq![0x80u8, 3, 0, type_of(f) as u8, flags_of(f)]);
        },
    }
}

proof fn lemma_number_in_front(v: u32, p: Seq<u8>, at: int)
    requires
        0 <= at <= p.len() - 4,
        p.subrange(at, at + 4) == be32(v),
    ensures
        quad(p[at], p[at + 1], p[at + 2], p[at + 3]) == v,
{
    law_be32_is_read_back(v, p, at);
    law_numbers_are_big_endian(v, 0, 0, p, at);
}

/// Every number of a payload stands at its place, most significant octet first.
/// An identifier takes 31 bits, the priority the three highest bits of an octet,
/// and the compressed header block all of the rest.
pub proof fn law_payloads_hold_their_fields(f: FrameModel, block: Seq<u8>)
    ensures
        ({
            let p = payload_octets(f, block);
            let first = quad(p[0], p[1], p[2], p[3]);
            let second = quad(p[4], p[5], p[6], p[7]);
            match f {
                FrameModel::SynStream { stream_id, associated_stream_id, priority, .. } => {
                    &&& p.len() == 10 + block.len()
                    &&& first == stream_id % 0x8000_0000
                    &&& second == associated_stream_id % 0x8000_0000
                    &&& p[8] == (priority % 8) * 32
                    &&& p[9] == 0
                    &&& p.skip(10) == block
                },
                FrameModel::SynReply { stream_id, .. } => {
                    &&& p.len() == 4 + block.len()
                    &&& first == stream_id % 0x8000_0000
                    &&& p.skip(4) == block
                },
                FrameModel::Headers { stream_id, .. } => {
                    &&& p.len() == 4 + block.len()
                    &&& first == stream_id % 0x8000_0000
                    &&& p.skip(4) == block
                },
                FrameModel::RstStream { stream_id, status } => {
                    &&& p.len() == 8
                    &&& first == stream_id % 0x8000_0000
                    &&& RstStatus::of_code(second as u32) == Some(status)
                },
                FrameModel::Settings { settings, .. } => {
                    &&& p.len() == 4 + settings.len() * 8
                    &&& settings.len() < 0x1_0000_0000 ==> first == settings.len()
                },
                FrameModel::Ping { id } => p.len() == 4 && first == id,
                FrameModel::GoAway { last_good_stream_id, status } => {
                    &&& p.len() == 8
                    &&& first == last_good_stream_id % 0x8000_0000
                    &&& GoAwayStatus::of_code(second as u32) == status
                },
                FrameModel::WindowUpdate { stream_id, delta } => {
                    &&& p.len() == 8
                    &&& first == stream_id % 0x8000_0000
                    &&& second == delta % 0x8000_0000
                },
                FrameModel::Data { data, .. } => p == data,
            }
        }),
{
    let p = payload_octets(f, block);
    match f {
        FrameModel::SynStream { stream_id, associated_stream_id, .. } => {
            assert(p.subrange(0, 4) =~= be31(stream_id));
            assert(p.subrange(4, 8) =~= be31(associated_stream_id));
            lemma_number_in_front((stream_id % 0x8000_0000) as u32, p, 0);
            lemma_number_in_front((associated_stream_id % 0x8000_0000) as u32, p, 4);
            assert(p.skip(10) =~= block);
        },
        FrameModel::SynReply { stream_id, .. } => {
            assert(p.subrange(0, 4) =~= be31(stream_id));
            lemma_number_in_front((stream_id % 0x8000_0000) as u32, p, 0);
            assert(p.skip(4) =~= block);
        },
        FrameModel::Headers { stream_id, .. } => {
            assert(p.subrange(0, 4) =~= be31(stream_id));
            lemma_number_in_front((stream_id % 0x8000_0000) as u32, p, 0);
            assert(p.skip(4) =~= block);
        },
        FrameModel::RstStream { stream_id, status } => {
            assert(p.subrange(0, 4) =~= be31(stream_id));
            assert(p.subrange(4, 8) =~= be32(status.spec_code()));
            lemma_number_in_front((stream_id % 0x8000_0000) as u32, p, 0);
            lemma_number_in_front(status.spec_code(), p, 4);
        },
        FrameModel::Settings { settings, .. } => {
            if settings.len() > 0 {
                lemma_settings_octets(settings, 0);
            }
            assert(p.subrange(0, 4) =~= be32((settings.len() % 0x1_0000_0000) as u32));
            lemma_number_in_front((settings.len() % 0x1_0000_0000) as u32, p, 0);
        },
        FrameModel::Ping { id } => {
            assert(p.subrange(0, 4) =~= be32(id));
            lemma_number_in_front(id, p, 0);
        },
        FrameModel::GoAway { last_good_stream_id, status } => {
            assert(p.subrange(0, 4) =~= be31(last_good_stream_id));
            assert(p.subrange(4, 8) =~= be32(status.spec_code()));
            lemma_number_in_front((last_good_stream_id % 0x8000_0000) as u32, p, 0);
            lemma_number_in_front(status.spec_code(), p, 4);
        },
        FrameModel::WindowUpdate { stream_id, delta } => {
            assert(p.subrange(0, 4) =~= be31(stream_id));
            assert(p.subrange(4, 8) =~= be31(delta));
            lemma_number_in_front((stream_id % 0x8000_0000) as u32, p, 0);
            lemma_number_in_front((delta % 0x8000_0000) as u32, p, 4);
        },
        FrameModel::Data { .. } => {},
    }
}

/// Each setting takes eight octets: its flags, the low 24 bits of its identifier
/// and its value.
pub proof fn law_settings_hold_their_values(
    settings: Seq<Setting>,
    flags: u8,
    block: Seq<u8>,
    i: int,
)
    requires
        0 <= i < settings.len(),
    ensures
        ({
            let p = payload_octets(FrameModel::Settings { settings, flags }, block);
            let at = 4 + i * 8;
            &&& p[at] == settings[i].flags
            &&& quad(0, p[at + 1], p[at + 2], p[at + 3]) == settings[i].id % 0x100_0000
            &&& quad(p[at + 4], p[at + 5], p[at + 6], p[at + 7]) == settings[i].value
        }),
{
    let p = payload_octets(FrameModel::Settings { settings, flags }, block);
    let at = 4 + i * 8;
    let s = settings[i];
    let word = (s.flags * 0x100_0000 + s.id % 0x100_0000) as u32;
    lemma_settings_octets(settings, i);
    assert(p.subrange(at, at + 8) =~= settings_octets(settings).subrange(i * 8, i * 8 + 8));
    assert(p.subrange(at, at + 4) =~= p.subrange(at, at + 8).take(4));
    assert(setting_octets(s).take(4) =~= be32(word));
    assert(p.subrange(at + 4, at + 8) =~= p.subrange(at, at + 8).skip(4));
    assert(setting_octets(s).skip(4) =~= be32(s.value));
    lemma_number_in_front(word, p, at);
    lemma_number_in_front(s.value, p, at + 4);
}

/// The first eight octets of a frame say all of its header. The first bit tells
/// a control frame, which must be of version 3, from a data frame.
pub proof fn law_headers_are_read(h: Seq<u8>)
    requires
        h.len() == 8,
    ensures
        header_read(h) is Ok <==> h[0] < 0x80 || (h[0] == 0x80 && h[1] == 3),
        header_read(h) matches Ok(header) ==> header.spec_length() == quad(0, h[5], h[6], h[7]),
        header_read(h) matches Ok(FrameHeader::Data { stream_id, flags, .. }) ==> h[0] < 0x80
            && stream_id == quad(h[0], h[1], h[2], h[3]) && flags == h[4],
        header_read(h) matches Ok(FrameHeader::Control { frame_type, flags, .. }) ==> h[0] >= 0x80
            && frame_type == quad(0, 0, h[2], h[3]) && flags == h[4],
        header_read(h) matches Err(fault) ==> fault == FrameFault::Protocol(
            "unsupported SPDY version: "@ + decimal(quad(0, 0, (h[0] - 0x80) as u8, h[1]) as nat),
        ),
{
    law_numbers_are_big_endian(0, 0, 0, h, 0);
    law_numbers_are_big_endian(0, 0, 0, h, 2);
    law_numbers_are_big_endian(0, 0, 0, h, 5);
}

/// Whether a payload is long enough for its type, and complete: which is all
/// that a control frame of a known type needs, but for the status of a reset.
pub open spec fn is_complete(frame_type: u16, p: Seq<u8>) -> bool {
    match frame_type {
        1 => p.len() >= 10,
        2 => p.len() >= 4,
        3 => p.len() >= 8,
        4 => p.len() >= 4 && p.len() >= 4 + quad(p[0], p[1], p[2], p[3]) * 8,
        6 => p.len() >= 4,
        7 => p.len() >= 8,
        8 => p.len() >= 4,
        9 => p.len() >= 8,
        _ => false,
    }
}

/// A control frame is read exactly when its type is known, its payload is
/// complete and, for a reset, its status is one of those from 1 to 11.
pub proof fn law_complete_payloads_are_read(
    frame_type: u16,
    flags: u8,
    p: Seq<u8>,
    headers: Fields,
)
    ensures
        control_read(frame_type, flags, p, headers) is Ok <==> is_complete(frame_type, p) && (
        frame_type == 3 ==> 1 <= quad(p[4], p[5], p[6], p[7]) <= 11),
        control_read(frame_type, flags, p, headers) == Err::<FrameModel, FrameFault>(
            FrameFault::UnknownType(frame_type),
        ) <==> frame_type == 0 || frame_type == 5 || frame_type >= 10,
        frame_type == 3 && p.len() >= 8 && !(1 <= quad(p[4], p[5], p[6], p[7]) <= 11)
            ==> control_read(frame_type, flags, p, headers) == Err::<FrameModel, FrameFault>(
            FrameFault::Protocol(
                "unknown RST_STREAM status: "@ + decimal(quad(p[4], p[5], p[6], p[7]) as nat),
            ),
        ),
{
    law_numbers_are_big_endian(0, 0, 0, p, 0);
    law_numbers_are_big_endian(0, 0, 0, p, 4);
}

proof fn lemma_highest_bit(a: u8, b: u8, c: u8, d: u8)
    ensures
        quad(a, b, c, d) % 0x8000_0000 == quad((a % 0x80) as u8, b, c, d),
{
    let rest = quad(0, b, c, d);
    assert(quad(a, b, c, d) == (a / 0x80) * 0x8000_0000 + quad((a % 0x80) as u8, b, c, d));
}

/// A control frame that is read holds what stands in its payload: the highest
/// bit of an identifier is ignored, and so are the five lower bits beside the
/// priority. Flags and header fields are those that came with it.
pub proof fn law_control_payloads_are_read(
    frame_type: u16,
    flags: u8,
    p: Seq<u8>,
    headers: Fields,
    f: FrameModel,
)
    requires
        control_read(frame_type, flags, p, headers) == Ok::<FrameModel, FrameFault>(f),
    ensures
        ({
            let first = quad((p[0] % 0x80) as u8, p[1], p[2], p[3]);
            let second = quad((p[4] % 0x80) as u8, p[5], p[6], p[7]);
            let code = quad(p[4], p[5], p[6], p[7]);
            match f {
                FrameModel::SynStream {
                    stream_id,
                    associated_stream_id,
                    priority,
                    headers: h,
                    flags: g,
                } => {
                    &&& frame_type == 1
                    &&& stream_id == first
                    &&& associated_stream_id == second
                    &&& priority == p[8] / 32
                    &&& h == headers
                    &&& g == flags
                },
                FrameModel::SynReply { stream_id, headers: h, flags: g } => frame_type == 2
                    && stream_id == first && h == headers && g == flags,
                FrameModel::RstStream { stream_id, status } => frame_type == 3 && stream_id == first
                    && status.spec_code() == code,
                FrameModel::Settings { settings, flags: g } => {
                    &&& frame_type == 4
                    &&& g == flags
                    &&& settings.len() == quad(p[0], p[1], p[2], p[3])
                    &&& forall|i: int|
                        0 <= i < settings.len() ==> {
                            let at = 4 + i * 8;
                            &&& (#[trigger] settings[i]).flags == p[at]
                            &&& settings[i].id == quad(0, p[at + 1], p[at + 2], p[at + 3])
                            &&& settings[i].value == quad(p[at + 4], p[at + 5], p[at + 6], p[at + 7])
                        }
                },
                FrameModel::Ping { id } => frame_type == 6 && id == quad(p[0], p[1], p[2], p[3]),
                FrameModel::GoAway { last_good_stream_id, status } => {
                    &&& frame_type == 7
                    &&& last_good_stream_id == first
                    &&& status == GoAwayStatus::of_code(code as u32)
                },
                FrameModel::Headers { stream_id, headers: h, flags: g } => frame_type == 8
                    && stream_id == first && h == headers && g == flags,
                FrameModel::WindowUpdate { stream_id, delta } => frame_type == 9 && stream_id
                    == first && delta == second,
                FrameModel::Data { .. } => false,
            }
        }),
{
    law_numbers_are_big_endian(0, 0, 0, p, 0);
    law_numbers_are_big_endian(0, 0, 0, p, 4);
    lemma_highest_bit(p[0], p[1], p[2], p[3]);
    lemma_highest_bit(p[4], p[5], p[6], p[7]);
    if let FrameModel::Settings { settings, .. } = f {
        assert forall|i: int| 0 <= i < settings.len() implies {
            let at = 4 + i * 8;
            &&& (#[trigger] settings[i]).flags == p[at]
            &&& settings[i].id == quad(0, p[at + 1], p[at + 2], p[at + 3])
            &&& settings[i].value == quad(p[at + 4], p[at + 5], p[at + 6], p[at + 7])
        } by {
            let at = 4 + i * 8;
            assert(settings[i] == setting_at(p, at));
            law_numbers_are_big_endian(0, 0, 0, p, at + 1);
            law_numbers_are_big_endian(0, 0, 0, p, at + 4);
        }
    }
}

/// What a result reports is what was read: the frame, or the fault with its text
/// or with the number of the unknown type.
pub proof fn law_reports_are_faithful(r: Result<Frame, Error>, f: FrameModel, fault: FrameFault)
    ensures
        frame_reported(r, Ok(f)) <==> r is Ok && r->Ok_0@ == f,
        frame_reported(r, Err(fault)) <==> match r {
            Err(Error::Protocol(m)) => fault == FrameFault::Protocol(m@),
            Err(Error::UnknownFrameType(t)) => fault == FrameFault::UnknownType(t),
            _ => false,
        },
{
}

} // verus!
