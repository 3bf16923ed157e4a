//! The Java Edition session layer: frame serialization, and the buffered
//! inbound byte stream that frames are parsed out of. A session owns the
//! host name and port it was opened for and an inbound buffer; the caller
//! feeds bytes read from the transport and takes parsed frames out.
use vstd::prelude::*;

pub mod frame;

pub use frame::{Frame, FrameError, FrameView, ServerState};

use crate::mc_string::{encode_mc_string, McStringError};
use crate::varint::encode_varint;
use crate::wire::push_be16;
use frame::{
    frame_body, frame_check_spec, frame_packet, frame_parse_spec, frame_str_ok, frame_wf,
    PROTOCOL_VERSION,
};

verus! {

/// Why a session operation failed.
#[derive(Debug, PartialEq, Eq)]
pub enum ProtocolError {
    /// A socket operation failed.
    Io,
    /// A string field could not be encoded.
    StringEncodeFailed { source: McStringError },
    /// The frame body is longer than a non-negative 32-bit length can
    /// describe.
    PacketTooLong,
    /// The peer closed the connection in the middle of a frame.
    ConnectionClosed,
    /// The inbound bytes do not hold a well-formed frame.
    ParseFailed { source: FrameError },
    /// The system's resolver configuration could not be loaded.
    SrvResolveError,
    /// A frame arrived that the exchange does not expect at this point.
    FrameOutOfOrder,
    /// The status response's JSON document could not be decoded.
    JsonParse,
    /// No address could be resolved for the host.
    DNSLookupFailed { address: String },
}

/// The state a handshake asks the server to enter next.
pub enum ProtocolState {
    Status,
    Login,
}

impl ProtocolState {
    /// The wire number of this state.
    pub fn code(&self) -> (r: i32)
        ensures
            self is Status ==> r == 1,
            self is Login ==> r == 2,
    {
        match self {
            ProtocolState::Status => 1,
            ProtocolState::Login => 2,
        }
    }
}

impl Frame {
    /// Serialise this frame to its complete wire form: the body length as
    /// a varint, then the id and the fields. Fails with
    /// `StringEncodeFailed` when a string field is too long, and with
    /// `PacketTooLong` when the body as a whole is.
    pub fn to_bytes(&self) -> (r: Result<Vec<u8>, ProtocolError>)
        ensures
            frame_wf(self@) ==> (r matches Ok(v) && v@ == frame_packet(self@)),
            !frame_str_ok(self@) ==> (r matches Err(e) && e matches
                ProtocolError::StringEncodeFailed { source } && source matches
                McStringError::TooLong { .. }),
            frame_str_ok(self@) && !frame_wf(self@) ==> r == Err::<Vec<u8>, _>(
                ProtocolError::PacketTooLong,
            ),
    {
        let mut body: Vec<u8>;
        match self {
            Frame::Handshake { protocol, address, port, state } => {
                body = encode_varint(0);
                let mut pv = encode_varint(*protocol);
                body.append(&mut pv);
                let addr_bytes = match encode_mc_string(address.as_str()) {
                    Ok(b) => b,
                    Err(e) => {
                        return Err(ProtocolError::StringEncodeFailed { source: e });
                    },
                };
                body.extend_from_slice(addr_bytes.as_slice());
                push_be16(&mut body, *port);
                let mut sv = encode_varint(*state);
                body.append(&mut sv);
                proof {
                    assert(body@ =~= frame_body(self@));
                }
            },
            Frame::StatusRequest => {
                body = encode_varint(0);
                proof {
                    assert(body@ =~= frame_body(self@));
                }
            },
            Frame::StatusResponse { json } => {
                body = encode_varint(0);
                let json_bytes = match encode_mc_string(json.as_str()) {
                    Ok(b) => b,
                    Err(e) => {
                        return Err(ProtocolError::StringEncodeFailed { source: e });
                    },
                };
                body.extend_from_slice(json_bytes.as_slice());
                proof {
                    assert(body@ =~= frame_body(self@));
                }
            },
            Frame::PingRequest { payload } => {
                body = encode_varint(1);
                let bits = crate::varint::i64_to_bits(*payload);
                crate::wire::push_be64(&mut body, bits);
                proof {
                    assert(body@ =~= frame_body(self@));
                }
            },
            Frame::PingResponse { payload } => {
                body = encode_varint(1);
                let bits = crate::varint::i64_to_bits(*payload);
                crate::wire::push_be64(&mut body, bits);
                proof {
                    assert(body@ =~= frame_body(self@));
                }
            },
        }
        let len = body.len();
        if len > 0x7fff_ffff {
            return Err(ProtocolError::PacketTooLong);
        }
        let mut packet = encode_varint(len as i32);
        packet.extend_from_slice(body.as_slice());
        proof {
            assert(packet@ =~= frame_packet(self@));
        }
        Ok(packet)
    }

    /// The JSON payload of a status response; any other frame is out of
    /// order when a status answer is awaited.
    pub fn into_status_json(self) -> (r: Result<String, ProtocolError>)
        ensures
            self@ matches FrameView::StatusResponse { json } ==> (r matches Ok(s) && s@ == json),
            !(self@ is StatusResponse) ==> r == Err::<String, _>(ProtocolError::FrameOutOfOrder),
    {
        match self {
            Frame::StatusResponse { json } => Ok(json),
            _ => Err(ProtocolError::FrameOutOfOrder),
        }
    }

    /// Whether this frame answers a ping.
    pub fn is_ping_response(&self) -> (r: bool)
        ensures
            r == (self@ is PingResponse),
    {
        match self {
            Frame::PingResponse { .. } => true,
            _ => false,
        }
    }
}

/// A Java Edition status session: the host name and port the caller
/// opened, and the inbound bytes not yet parsed into frames. The caller
/// moves bytes between this buffer and its transport.
pub struct SlpProtocol {
    pub hostname: String,
    pub port: u16,
    pub buffer: Vec<u8>,
}

impl SlpProtocol {
    /// A fresh session for the given host and port, with an empty inbound
    /// buffer.
    pub fn new(hostname: String, port: u16) -> (r: Self)
        ensures
            r.hostname == hostname,
            r.port == port,
            r.buffer@ == Seq::<u8>::empty(),
    {
        SlpProtocol { hostname, port, buffer: Vec::new() }
    }

    /// The handshake frame that opens this session: the stored host name
    /// and port, the supported protocol version, and a request for the
    /// status state.
    pub fn create_handshake_frame(&self) -> (r: Frame)
        ensures
            r@ == (FrameView::Handshake {
                protocol: PROTOCOL_VERSION,
                address: self.hostname@,
                port: self.port,
                state: 1,
            }),
    {
        Frame::Handshake {
            protocol: PROTOCOL_VERSION,
            address: self.hostname.clone(),
            port: self.port,
            state: ProtocolState::Status.code(),
        }
    }

    /// Append bytes read from the transport to the inbound buffer.
    pub fn feed(&mut self, data: &[u8])
        ensures
            final(self).hostname == old(self).hostname,
            final(self).port == old(self).port,
            final(self).buffer@ == old(self).buffer@ + data@,
    {
        self.buffer.extend_from_slice(data);
        proof {
            assert(final(self).buffer@ =~= old(self).buffer@ + data@);
        }
    }

    /// Take the frame at the front of the inbound buffer, under the given
    /// direction hint, and discard exactly the bytes the frame's length
    /// header declares. An incomplete frame is not an error: the caller
    /// reads more bytes and tries again.
    pub fn parse_frame(&mut self, server_state: Option<ServerState>) -> (r: Result<
        Option<Frame>,
        ProtocolError,
    >)
        ensures
            final(self).hostname == old(self).hostname,
            final(self).port == old(self).port,
            match frame_check_spec(old(self).buffer@) {
                Ok(p) => match frame_parse_spec(old(self).buffer@.skip(p.0 as int), server_state) {
                    Ok(q) => (r matches Ok(o) && o matches Some(f) && f@ == q.0
                        && final(self).buffer@ == old(self).buffer@.skip((p.0 + p.1) as int)),
                    Err(e) => r == Err::<Option<Frame>, _>(ProtocolError::ParseFailed {
                        source: e,
                    }) && final(self).buffer@ == old(self).buffer@,
                },
                Err(FrameError::Incomplete) => (r matches Ok(o) && o is None && final(self).buffer@
                    == old(self).buffer@),
                Err(e) => r == Err::<Option<Frame>, _>(ProtocolError::ParseFailed { source: e })
                    && final(self).buffer@ == old(self).buffer@,
            },
    {
        let n = self.buffer.len();
        let (header, body_len) = match Frame::check(self.buffer.as_slice()) {
            Ok(p) => p,
            Err(FrameError::Incomplete) => {
                return Ok(None);
            },
            Err(e) => {
                return Err(ProtocolError::ParseFailed { source: e });
            },
        };
        let frame = match Frame::parse(self.buffer.as_slice(), header, server_state) {
            Ok(p) => p.0,
            Err(e) => {
                return Err(ProtocolError::ParseFailed { source: e });
            },
        };
        let total = header + body_len;
        let rest = vstd::slice::slice_to_vec(
            vstd::slice::slice_subrange(self.buffer.as_slice(), total, n),
        );
        self.buffer = rest;
        Ok(Some(frame))
    }

    /// The outcome of an end of stream: a clean close when the buffer
    /// holds no partial frame, the `ConnectionClosed` error otherwise.
    pub fn eof_outcome(&self) -> (r: Result<Option<Frame>, ProtocolError>)
        ensures
            self.buffer@.len() == 0 ==> (r matches Ok(o) && o is None),
            self.buffer@.len() > 0 ==> r == Err::<Option<Frame>, _>(
                ProtocolError::ConnectionClosed,
            ),
    {
        if self.buffer.is_empty() {
            Ok(None)
        } else {
            Err(ProtocolError::ConnectionClosed)
        }
    }
}

/// The payload a ping request carries in this library.
pub const PING_PAYLOAD: i64 = 54321;

} // verus!
