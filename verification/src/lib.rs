//! The accepting side of SPDY/3.1: frames, streams and connections.
//!
//! The library decides and keeps state; it does no input or output. A host
//! reads octets and hands them in, and sends the frames that come back.

pub mod codec;
pub mod connection;
pub mod dictionary;
pub mod error;
pub mod frame;
pub mod framer;
pub mod header_block;
pub mod headers;
pub mod payload;
pub mod server;
pub mod stream;
pub mod text;
pub mod wire;
pub mod zlib;

pub use connection::Connection;
pub use error::Error;
pub use frame::{Frame, GoAwayStatus, RstStatus};
pub use framer::Framer;
pub use server::UpgradeRequest;
pub use stream::Stream;
