//! Query the status of Minecraft servers of both editions: Java Edition
//! (TCP, length-prefixed frames with variable-length integers) and Bedrock
//! Edition (UDP, RakNet unconnected ping).
//!
//! This crate holds the wire-protocol logic: the variable-length integer
//! codec, the length-prefixed string codec, the frame codec with its
//! direction-sensitive parser, the session buffer that turns a byte stream
//! into frames, and the Bedrock request/response formats with the
//! semicolon-separated server description. Each codec carries a contract
//! that pins its output down to the byte, and encode/decode round trips are
//! proved as lemmas.
//!
//! Sockets, DNS and JSON decoding live outside this crate; callers hand the
//! library plain bytes and get frames and structured data back.
use vstd::prelude::*;

pub mod bedrock;
pub mod mc_string;
pub mod parse;
pub mod protocol;
pub mod varint;
pub mod wire;

pub use parse::JavaServerInfo;
pub use protocol::SlpProtocol;

verus! {

/// Why a whole Java Edition status query failed.
#[derive(Debug, PartialEq, Eq)]
pub enum PingError {
    /// The underlying protocol exchange failed.
    Protocol { source: protocol::ProtocolError },
    /// The query did not finish in time.
    Timeout,
}

} // verus!
