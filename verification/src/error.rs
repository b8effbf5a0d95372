//! What can go wrong on a connection.

#[allow(unused_imports)]
use crate::text::decimal;
use crate::text::labelled;
use vstd::prelude::*;
use vstd::string::StringExecFns;

verus! {

/// The kinds of transport failure that the library tells apart.
#[derive(Debug, Clone, Copy, PartialEq, Eq, Structural)]
pub enum IoErrorKind {
    UnexpectedEof,
    BrokenPipe,
    Other,
}

/// A transport failure: its kind and the text that describes it.
#[derive(Debug, PartialEq, Eq)]
pub struct IoError {
    pub kind: IoErrorKind,
    pub message: String,
}

#[derive(Debug, PartialEq, Eq)]
pub enum Error {
    Io(IoError),
    Protocol(String),
    Compression(String),
    UnknownFrameType(u16),
    StreamClosed,
    ConnectionClosed,
}

impl Error {
    /// The text that describes the error to a reader.
    pub open spec fn text(self) -> Seq<char> {
        match self {
            Error::Io(e) => "I/O error: "@ + e.message@,
            Error::Protocol(m) => "protocol error: "@ + m@,
            Error::Compression(m) => "compression error: "@ + m@,
            Error::UnknownFrameType(t) => "unknown frame type: "@ + decimal(t as nat),
            Error::StreamClosed => "stream closed"@,
            Error::ConnectionClosed => "connection closed"@,
        }
    }

    /// The text that describes the error to a reader.
    pub fn message(&self) -> (s: String)
        ensures
            s@ == self.text(),
    {
        match self {
            Error::Io(e) => "I/O error: ".to_owned().concat(e.message.as_str()),
            Error::Protocol(m) => "protocol error: ".to_owned().concat(m.as_str()),
            Error::Compression(m) => "compression error: ".to_owned().concat(m.as_str()),
            Error::UnknownFrameType(t) => labelled("unknown frame type: ", *t as u32),
            Error::StreamClosed => "stream closed".to_owned(),
            Error::ConnectionClosed => "connection closed".to_owned(),
        }
    }
}

/// Whether `e` is a protocol error with the message `text`.
pub open spec fn is_protocol(e: Error, text: Seq<char>) -> bool {
    e matches Error::Protocol(m) && m@ == text
}

/// A protocol error with the message `text`.
pub fn protocol(text: &str) -> (e: Error)
    ensures
        is_protocol(e, text@),
{
    Error::Protocol(text.to_owned())
}

/// The text of an error carries the whole of the message that it was made with,
/// behind a label that tells the kinds of error apart.
pub proof fn law_errors_say_what_went_wrong(e: Error)
    ensures
        e matches Error::Io(io) ==> e.text() == "I/O error: "@ + io.message@,
        e matches Error::Protocol(m) ==> e.text() == "protocol error: "@ + m@,
        e matches Error::Compression(m) ==> e.text() == "compression error: "@ + m@,
        e matches Error::UnknownFrameType(t) ==> e.text() == "unknown frame type: "@ + decimal(
            t as nat,
        ),
{
}

} // verus!
