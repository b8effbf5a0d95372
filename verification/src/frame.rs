//! The frames of SPDY/3.1.
//!
//! Each frame type has an executable form, which carries `http` headers and
//! shared payloads, and is seen by the proofs as a [`FrameModel`] of plain
//! values.

use crate::headers::{copy_of, fields};
use crate::payload::octets;
use bytes::Bytes;
use http::HeaderMap;
use vstd::prelude::*;

verus! {

pub const FLAG_FIN: u8 = 0x01;

pub const FLAG_UNIDIRECTIONAL: u8 = 0x02;

pub const DATA_FLAG_FIN: u8 = 0x01;

/// Why a stream is reset.
#[derive(Debug, Clone, Copy, PartialEq, Eq, Structural)]
pub enum RstStatus {
    ProtocolError,
    InvalidStream,
    RefusedStream,
    UnsupportedVersion,
    Cancel,
    InternalError,
    FlowControlError,
    StreamInUse,
    StreamAlreadyClosed,
    InvalidCredentials,
    FrameTooLarge,
}

impl RstStatus {
    /// The number that stands for this status on the wire.
    pub open spec fn spec_code(self) -> u32 {
        match self {
            RstStatus::ProtocolError => 1,
            RstStatus::InvalidStream => 2,
            RstStatus::RefusedStream => 3,
            RstStatus::UnsupportedVersion => 4,
            RstStatus::Cancel => 5,
            RstStatus::InternalError => 6,
            RstStatus::FlowControlError => 7,
            RstStatus::StreamInUse => 8,
            RstStatus::StreamAlreadyClosed => 9,
            RstStatus::InvalidCredentials => 10,
            RstStatus::FrameTooLarge => 11,
        }
    }

    /// The status that a number on the wire stands for, if it stands for one.
    pub open spec fn of_code(v: u32) -> Option<RstStatus> {
        match v {
            1 => Some(RstStatus::ProtocolError),
            2 => Some(RstStatus::InvalidStream),
            3 => Some(RstStatus::RefusedStream),
            4 => Some(RstStatus::UnsupportedVersion),
            5 => Some(RstStatus::Cancel),
            6 => Some(RstStatus::InternalError),
            7 => Some(RstStatus::FlowControlError),
            8 => Some(RstStatus::StreamInUse),
            9 => Some(RstStatus::StreamAlreadyClosed),
            10 => Some(RstStatus::InvalidCredentials),
            11 => Some(RstStatus::FrameTooLarge),
            _ => None,
        }
    }

    /// The number that stands for this status on the wire.
    #[verifier::when_used_as_spec(spec_code)]
    pub fn code(self) -> (v: u32)
        ensures
            v == self.spec_code(),
    {
        match self {
            RstStatus::ProtocolError => 1,
            RstStatus::InvalidStream => 2,
            RstStatus::RefusedStream => 3,
            RstStatus::UnsupportedVersion => 4,
            RstStatus::Cancel => 5,
            RstStatus::InternalError => 6,
            RstStatus::FlowControlError => 7,
            RstStatus::StreamInUse => 8,
            RstStatus::StreamAlreadyClosed => 9,
            RstStatus::InvalidCredentials => 10,
            RstStatus::FrameTooLarge => 11,
        }
    }
}

impl TryFrom<u32> for RstStatus {
    type Error = u32;

    /// The status that `v` stands for; `v` itself where it stands for none.
    fn try_from(v: u32) -> (r: Result<Self, u32>) {
        match v {
            1 => Ok(RstStatus::ProtocolError),
            2 => Ok(RstStatus::InvalidStream),
            3 => Ok(RstStatus::RefusedStream),
            4 => Ok(RstStatus::UnsupportedVersion),
            5 => Ok(RstStatus::Cancel),
            6 => Ok(RstStatus::InternalError),
            7 => Ok(RstStatus::FlowControlError),
            8 => Ok(RstStatus::StreamInUse),
            9 => Ok(RstStatus::StreamAlreadyClosed),
            10 => Ok(RstStatus::InvalidCredentials),
            11 => Ok(RstStatus::FrameTooLarge),
            _ => Err(v),
        }
    }
}

impl vstd::std_specs::convert::TryFromSpecImpl<u32> for RstStatus {
    open spec fn obeys_try_from_spec() -> bool {
        true
    }

    open spec fn try_from_spec(v: u32) -> Result<Self, u32> {
        match RstStatus::of_code(v) {
            Some(s) => Ok(s),
            None => Err(v),
        }
    }
}

/// Why a connection is closing.
#[derive(Debug, Clone, Copy, PartialEq, Eq, Structural)]
pub enum GoAwayStatus {
    Okay,
    ProtocolError,
    InternalError,
}

impl GoAwayStatus {
    /// The number that stands for this status on the wire.
    pub open spec fn spec_code(self) -> u32 {
        match self {
            GoAwayStatus::Okay => 0,
            GoAwayStatus::ProtocolError => 1,
            GoAwayStatus::InternalError => 2,
        }
    }

    /// The status that a number on the wire stands for: an unknown number
    /// counts as `Okay`.
    pub open spec fn of_code(v: u32) -> GoAwayStatus {
        if v == 1 {
            GoAwayStatus::ProtocolError
        } else if v == 2 {
            GoAwayStatus::InternalError
        } else {
            GoAwayStatus::Okay
        }
    }

    /// The number that stands for this status on the wire.
    #[verifier::when_used_as_spec(spec_code)]
    pub fn code(self) -> (v: u32)
        ensures
            v == self.spec_code(),
    {
        match self {
            GoAwayStatus::Okay => 0,
            GoAwayStatus::ProtocolError => 1,
            GoAwayStatus::InternalError => 2,
        }
    }
}

impl TryFrom<u32> for GoAwayStatus {
    type Error = u32;

    /// The status that `v` stands for: never an error.
    fn try_from(v: u32) -> (r: Result<Self, u32>) {
        match v {
            0 => Ok(GoAwayStatus::Okay),
            1 => Ok(GoAwayStatus::ProtocolError),
            2 => Ok(GoAwayStatus::InternalError),
            _ => Ok(GoAwayStatus::Okay),
        }
    }
}

impl vstd::std_specs::convert::TryFromSpecImpl<u32> for GoAwayStatus {
    open spec fn obeys_try_from_spec() -> bool {
        true
    }

    open spec fn try_from_spec(v: u32) -> Result<Self, u32> {
        Ok(GoAwayStatus::of_code(v))
    }
}

/// Opens a stream.
#[derive(Debug, PartialEq)]
pub struct SynStreamFrame {
    pub stream_id: u32,
    pub associated_stream_id: u32,
    pub priority: u8,
    pub headers: HeaderMap,
    pub flags: u8,
}

/// Answers a SYN_STREAM.
#[derive(Debug, PartialEq)]
pub struct SynReplyFrame {
    pub stream_id: u32,
    pub headers: HeaderMap,
    pub flags: u8,
}

/// Ends a stream at once.
#[derive(Debug, Clone, Copy, PartialEq)]
pub struct RstStreamFrame {
    pub stream_id: u32,
    pub status: RstStatus,
}

/// Announces values by which the sender will abide.
#[derive(Debug, PartialEq)]
pub struct SettingsFrame {
    pub settings: Vec<Setting>,
    pub flags: u8,
}

/// One announced value.
#[derive(Debug, Clone, Copy, PartialEq, Eq, Structural)]
pub struct Setting {
    pub id: u32,
    pub flags: u8,
    pub value: u32,
}

/// Asks for an echo, or is one.
#[derive(Debug, Clone, Copy, PartialEq)]
pub struct PingFrame {
    pub id: u32,
}

/// Announces that no further stream will be accepted.
#[derive(Debug, Clone, Copy, PartialEq)]
pub struct GoAwayFrame {
    pub last_good_stream_id: u32,
    pub status: GoAwayStatus,
}

/// Adds header fields to an open stream.
#[derive(Debug, PartialEq)]
pub struct HeadersFrame {
    pub stream_id: u32,
    pub headers: HeaderMap,
    pub flags: u8,
}

/// Enlarges a flow-control window.
#[derive(Debug, Clone, Copy, PartialEq)]
pub struct WindowUpdateFrame {
    pub stream_id: u32,
    pub delta: u32,
}

/// Carries payload on a stream.
#[derive(Debug, PartialEq)]
pub struct DataFrame {
    pub stream_id: u32,
    pub flags: u8,
    pub data: Bytes,
}

#[derive(Debug, PartialEq)]
pub enum Frame {
    SynStream(SynStreamFrame),
    SynReply(SynReplyFrame),
    RstStream(RstStreamFrame),
    Settings(SettingsFrame),
    Ping(PingFrame),
    GoAway(GoAwayFrame),
    Headers(HeadersFrame),
    WindowUpdate(WindowUpdateFrame),
    Data(DataFrame),
}

/// Header fields as the proofs see them: for each name its values, in order.
pub type Fields = Map<Seq<u8>, Seq<Seq<u8>>>;

/// A frame as the proofs see it.
#[allow(inconsistent_fields)]
pub ghost enum FrameModel {
    SynStream { stream_id: u32, associated_stream_id: u32, priority: u8, headers: Fields, flags: u8 },
    SynReply { stream_id: u32, headers: Fields, flags: u8 },
    RstStream { stream_id: u32, status: RstStatus },
    Settings { settings: Seq<Setting>, flags: u8 },
    Ping { id: u32 },
    GoAway { last_good_stream_id: u32, status: GoAwayStatus },
    Headers { stream_id: u32, headers: Fields, flags: u8 },
    WindowUpdate { stream_id: u32, delta: u32 },
    Data { stream_id: u32, flags: u8, data: Seq<u8> },
}

impl View for Frame {
    type V = FrameModel;

    open spec fn view(&self) -> FrameModel {
        match *self {
            Frame::SynStream(f) => FrameModel::SynStream {
                stream_id: f.stream_id,
                associated_stream_id: f.associated_stream_id,
                priority: f.priority,
                headers: fields(f.headers),
                flags: f.flags,
            },
            Frame::SynReply(f) => FrameModel::SynReply {
                stream_id: f.stream_id,
                headers: fields(f.headers),
                flags: f.flags,
            },
            Frame::RstStream(f) => FrameModel::RstStream {
                stream_id: f.stream_id,
                status: f.status,
            },
            Frame::Settings(f) => FrameModel::Settings { settings: f.settings@, flags: f.flags },
            Frame::Ping(f) => FrameModel::Ping { id: f.id },
            Frame::GoAway(f) => FrameModel::GoAway {
                last_good_stream_id: f.last_good_stream_id,
                status: f.status,
            },
            Frame::Headers(f) => FrameModel::Headers {
                stream_id: f.stream_id,
                headers: fields(f.headers),
                flags: f.flags,
            },
            Frame::WindowUpdate(f) => FrameModel::WindowUpdate {
                stream_id: f.stream_id,
                delta: f.delta,
            },
            Frame::Data(f) => FrameModel::Data {
                stream_id: f.stream_id,
                flags: f.flags,
                data: octets(f.data),
            },
        }
    }
}

/// Whether a flags octet marks the sender's last frame on its stream.
pub open spec fn has_fin(flags: u8) -> bool {
    flags & FLAG_FIN != 0
}

/// The flags octet that marks, or does not mark, a last frame.
pub open spec fn fin_flags(fin: bool) -> u8 {
    if fin {
        FLAG_FIN
    } else {
        0
    }
}

impl Clone for SynStreamFrame {
    /// A frame that holds the same values.
    fn clone(&self) -> (c: SynStreamFrame)
        ensures
            Frame::SynStream(c)@ == Frame::SynStream(*self)@,
    {
        SynStreamFrame {
            stream_id: self.stream_id,
            associated_stream_id: self.associated_stream_id,
            priority: self.priority,
            headers: copy_of(&self.headers),
            flags: self.flags,
        }
    }
}

impl Clone for SynReplyFrame {
    /// A frame that holds the same values.
    fn clone(&self) -> (c: SynReplyFrame)
        ensures
            Frame::SynReply(c)@ == Frame::SynReply(*self)@,
    {
        SynReplyFrame {
            stream_id: self.stream_id,
            headers: copy_of(&self.headers),
            flags: self.flags,
        }
    }
}

impl Clone for SettingsFrame {
    /// A frame that holds the same values.
    fn clone(&self) -> (c: SettingsFrame)
        ensures
            Frame::Settings(c)@ == Frame::Settings(*self)@,
    {
        SettingsFrame { settings: self.settings.clone(), flags: self.flags }
    }
}

impl Clone for HeadersFrame {
    /// A frame that holds the same values.
    fn clone(&self) -> (c: HeadersFrame)
        ensures
            Frame::Headers(c)@ == Frame::Headers(*self)@,
    {
        HeadersFrame {
            stream_id: self.stream_id,
            headers: copy_of(&self.headers),
            flags: self.flags,
        }
    }
}

impl Clone for DataFrame {
    /// A frame that holds the same values.
    fn clone(&self) -> (c: DataFrame)
        ensures
            Frame::Data(c)@ == Frame::Data(*self)@,
    {
        DataFrame { stream_id: self.stream_id, flags: self.flags, data: self.data.clone() }
    }
}

impl Clone for Frame {
    /// A frame that holds the same values.
    fn clone(&self) -> (c: Frame)
        ensures
            c@ == self@,
    {
        match self {
            Frame::SynStream(f) => Frame::SynStream(f.clone()),
            Frame::SynReply(f) => Frame::SynReply(f.clone()),
            Frame::RstStream(f) => Frame::RstStream(*f),
            Frame::Settings(f) => Frame::Settings(f.clone()),
            Frame::Ping(f) => Frame::Ping(*f),
            Frame::GoAway(f) => Frame::GoAway(*f),
            Frame::Headers(f) => Frame::Headers(f.clone()),
            Frame::WindowUpdate(f) => Frame::WindowUpdate(*f),
            Frame::Data(f) => Frame::Data(f.clone()),
        }
    }
}

/// The lowest flag is the FIN, and it alone.
pub proof fn law_fin_is_the_lowest_flag(flags: u8)
    ensures
        has_fin(flags) <==> flags % 2 == 1,
        fin_flags(true) == 1,
        fin_flags(false) == 0,
{
    assert(flags & 1 != 0 <==> flags % 2 == 1) by (bit_vector);
}

/// Every number of a reset status stands for that status and for no other, and
/// the numbers from 1 to 11 are those that stand for one.
pub proof fn law_reset_numbers_are_unambiguous(s: RstStatus, v: u32)
    ensures
        RstStatus::of_code(v) == Some(s) <==> s.spec_code() == v,
        RstStatus::of_code(v) is Some <==> 1 <= v <= 11,
        s.spec_code() == 1 <==> s is ProtocolError,
        s.spec_code() == 2 <==> s is InvalidStream,
        s.spec_code() == 3 <==> s is RefusedStream,
        s.spec_code() == 4 <==> s is UnsupportedVersion,
        s.spec_code() == 5 <==> s is Cancel,
        s.spec_code() == 6 <==> s is InternalError,
        s.spec_code() == 7 <==> s is FlowControlError,
        s.spec_code() == 8 <==> s is StreamInUse,
        s.spec_code() == 9 <==> s is StreamAlreadyClosed,
        s.spec_code() == 10 <==> s is InvalidCredentials,
        s.spec_code() == 11 <==> s is FrameTooLarge,
{
}

/// Every number of a closing status stands for that status; a number that is
/// none of theirs counts as the first, which is 0.
pub proof fn law_goaway_numbers_are_unambiguous(s: GoAwayStatus, v: u32)
    ensures
        GoAwayStatus::of_code(s.spec_code()) == s,
        GoAwayStatus::of_code(v) != GoAwayStatus::Okay ==> GoAwayStatus::of_code(v).spec_code()
            == v,
        GoAwayStatus::of_code(v) == GoAwayStatus::Okay <==> v != 1 && v != 2,
        s.spec_code() == 0 <==> s is Okay,
        s.spec_code() == 1 <==> s is ProtocolError,
        s.spec_code() == 2 <==> s is InternalError,
{
}

/// Frames that look the same to the proofs are of one type and agree in every
/// field.
pub proof fn law_frames_show_every_field(a: Frame, b: Frame)
    requires
        a@ == b@,
    ensures
        match (a, b) {
            (Frame::SynStream(x), Frame::SynStream(y)) => x.stream_id == y.stream_id
                && x.associated_stream_id == y.associated_stream_id && x.priority == y.priority
                && fields(x.headers) == fields(y.headers) && x.flags == y.flags,
            (Frame::SynReply(x), Frame::SynReply(y)) => x.stream_id == y.stream_id && fields(
                x.headers,
            ) == fields(y.headers) && x.flags == y.flags,
            (Frame::RstStream(x), Frame::RstStream(y)) => x == y,
            (Frame::Settings(x), Frame::Settings(y)) => x.settings@ == y.settings@ && x.flags
                == y.flags,
            (Frame::Ping(x), Frame::Ping(y)) => x == y,
            (Frame::GoAway(x), Frame::GoAway(y)) => x == y,
            (Frame::Headers(x), Frame::Headers(y)) => x.stream_id == y.stream_id && fields(
                x.headers,
            ) == fields(y.headers) && x.flags == y.flags,
            (Frame::WindowUpdate(x), Frame::WindowUpdate(y)) => x == y,
            (Frame::Data(x), Frame::Data(y)) => x.stream_id == y.stream_id && x.flags == y.flags
                && octets(x.data) == octets(y.data),
            _ => false,
        },
{
}

} // verus!
