//! The Java Edition frame codec. A frame travels as `len | id | body`,
//! where `len` is a varint counting the id and body bytes. The same id
//! decodes to different frames depending on the direction hint the caller
//! supplies: a server in the handshake or status state reads requests, a
//! client reads responses.
use vstd::prelude::*;

use crate::mc_string::{decode_mc_string, mc_string_dec, mc_string_enc, McStringError};
use crate::varint::{
    bits_i32, bits_i64, decode_varint, i32_bits, i64_bits, lemma_varint_enc_dec,
    lemma_varint_enc_len, lemma_varint_enc_prefix, varint_dec, varint_enc, VarIntDec, VarIntError,
};
use crate::wire::{be16, be16_val, be64, be64_val, read_be16, read_be64};
use vstd::utf8::encode_utf8;

verus! {

/// Why a frame could not be read from a buffer.
#[derive(Debug, PartialEq, Eq)]
pub enum FrameError {
    /// The buffer does not yet hold a complete frame.
    Incomplete,
    /// A varint field was negative where a length is needed, or ran
    /// past five continuation bytes.
    InvalidLength,
    /// The id does not name a frame readable in the given direction.
    InvalidFrameId { id: i32 },
    /// A string field could not be decoded.
    StringDecodeFailed { source: McStringError },
}

/// One logical Java Edition protocol message.
#[derive(Debug, PartialEq, Eq)]
pub enum Frame {
    Handshake {
        protocol: i32,
        address: String,
        port: u16,
        /// The state the client asks to enter next; 1 asks for status.
        state: i32,
    },
    StatusRequest,
    StatusResponse { json: String },
    PingRequest { payload: i64 },
    PingResponse { payload: i64 },
}

/// Which kinds of frame a server-side reader accepts.
#[derive(Clone, Copy, Debug, PartialEq, Eq, Structural)]
pub enum ServerState {
    /// Waiting for the handshake frame.
    Handshake,
    /// Ready to read status and ping requests.
    Status,
}

/// The mathematical shape of a frame: strings as character sequences.
pub enum FrameView {
    Handshake { protocol: i32, address: Seq<char>, port: u16, state: i32 },
    StatusRequest,
    StatusResponse { json: Seq<char> },
    PingRequest { payload: i64 },
    PingResponse { payload: i64 },
}

impl View for Frame {
    type V = FrameView;

    open spec fn view(&self) -> FrameView {
        match self {
            Frame::Handshake { protocol, address, port, state } => FrameView::Handshake {
                protocol: *protocol,
                address: address@,
                port: *port,
                state: *state,
            },
            Frame::StatusRequest => FrameView::StatusRequest,
            Frame::StatusResponse { json } => FrameView::StatusResponse { json: json@ },
            Frame::PingRequest { payload } => FrameView::PingRequest { payload: *payload },
            Frame::PingResponse { payload } => FrameView::PingResponse { payload: *payload },
        }
    }
}

/// The protocol version written into handshakes.
pub const PROTOCOL_VERSION: i32 = 767;

/// The packet id shared by handshakes, status requests and status
/// responses; direction tells them apart.
pub const STATUS_ID: i32 = 0;

/// The packet id shared by ping requests and ping responses.
pub const PING_ID: i32 = 1;

/// The id and field bytes of a frame, without the length prefix.
pub open spec fn frame_body(f: FrameView) -> Seq<u8> {
    match f {
        FrameView::Handshake { protocol, address, port, state } => varint_enc(0) + varint_enc(
            i32_bits(protocol) as nat,
        ) + mc_string_enc(address) + be16(port) + varint_enc(i32_bits(state) as nat),
        FrameView::StatusRequest => varint_enc(0),
        FrameView::StatusResponse { json } => varint_enc(0) + mc_string_enc(json),
        FrameView::PingRequest { payload } => varint_enc(1) + be64(i64_bits(payload)),
        FrameView::PingResponse { payload } => varint_enc(1) + be64(i64_bits(payload)),
    }
}

/// The complete wire form of a frame: its body length as a varint, then
/// the body.
pub open spec fn frame_packet(f: FrameView) -> Seq<u8> {
    varint_enc(frame_body(f).len()) + frame_body(f)
}

/// Whether a whole frame is available at the front of a buffer: the
/// length header's size and the declared body length when it is, the
/// error otherwise. A malformed leading varint counts as incomplete; a
/// negative length is `InvalidLength`.
pub open spec fn frame_check_spec(bytes: Seq<u8>) -> Result<(nat, nat), FrameError> {
    match varint_dec(bytes) {
        VarIntDec::Done { value, size } => {
            let bits = value % 0x1_0000_0000;
            if bits >= 0x8000_0000 {
                Err(FrameError::InvalidLength)
            } else if bytes.len() >= size + bits {
                Ok((size, bits))
            } else {
                Err(FrameError::Incomplete)
            }
        },
        _ => Err(FrameError::Incomplete),
    }
}

/// The fields of a handshake frame, read after an id of `idsz` bytes.
pub open spec fn handshake_fields_spec(bytes: Seq<u8>, idsz: nat) -> Result<
    (FrameView, nat),
    FrameError,
> {
    match varint_dec(bytes.skip(idsz as int)) {
        VarIntDec::Done { value: pv, size: psz } => {
            let protocol = bits_i32((pv % 0x1_0000_0000) as u32);
            match mc_string_dec(bytes.skip((idsz + psz) as int)) {
                Some((address, ssz)) => {
                    let base = idsz + psz + ssz;
                    if base + 2 <= bytes.len() {
                        let port = be16_val(bytes.subrange(base as int, base as int + 2));
                        match varint_dec(bytes.skip((base + 2) as int)) {
                            VarIntDec::Done { value: sv, size: stsz } => Ok(
                                (
                                    FrameView::Handshake {
                                        protocol,
                                        address,
                                        port,
                                        state: bits_i32((sv % 0x1_0000_0000) as u32),
                                    },
                                    base + 2 + stsz,
                                ),
                            ),
                            VarIntDec::Incomplete => Err(FrameError::Incomplete),
                            VarIntDec::TooLong => Err(FrameError::InvalidLength),
                        }
                    } else {
                        Err(FrameError::Incomplete)
                    }
                },
                None => Err(
                    FrameError::StringDecodeFailed { source: McStringError::InvalidFormat },
                ),
            }
        },
        VarIntDec::Incomplete => Err(FrameError::Incomplete),
        VarIntDec::TooLong => Err(FrameError::InvalidLength),
    }
}

/// Parse the frame whose body starts at the front of `bytes`, under the
/// given direction hint: the frame and the bytes consumed, or the exact
/// error. The direction alone picks which frames an id maps to.
pub open spec fn frame_parse_spec(bytes: Seq<u8>, dir: Option<ServerState>) -> Result<
    (FrameView, nat),
    FrameError,
> {
    match varint_dec(bytes) {
        VarIntDec::Done { value: idv, size: idsz } => {
            let id = bits_i32((idv % 0x1_0000_0000) as u32);
            match dir {
                Some(ServerState::Handshake) => {
                    if id == 0 {
                        handshake_fields_spec(bytes, idsz)
                    } else {
                        Err(FrameError::InvalidFrameId { id })
                    }
                },
                Some(ServerState::Status) => {
                    if id == 0 {
                        Ok((FrameView::StatusRequest, idsz))
                    } else if id == 1 {
                        if idsz + 8 <= bytes.len() {
                            Ok(
                                (
                                    FrameView::PingRequest {
                                        payload: bits_i64(
                                            be64_val(
                                                bytes.subrange(idsz as int, idsz as int + 8),
                                            ),
                                        ),
                                    },
                                    idsz + 8,
                                ),
                            )
                        } else {
                            Err(FrameError::Incomplete)
                        }
                    } else {
                        Err(FrameError::InvalidFrameId { id })
                    }
                },
                None => {
                    if id == 0 {
                        match mc_string_dec(bytes.skip(idsz as int)) {
                            Some((json, n)) => Ok(
                                (FrameView::StatusResponse { json }, idsz + n),
                            ),
                            None => Err(
                                FrameError::StringDecodeFailed {
                                    source: McStringError::InvalidFormat,
                                },
                            ),
                        }
                    } else if id == 1 {
                        if idsz + 8 <= bytes.len() {
                            Ok(
                                (
                                    FrameView::PingResponse {
                                        payload: bits_i64(
                                            be64_val(
                                                bytes.subrange(idsz as int, idsz as int + 8),
                                            ),
                                        ),
                                    },
                                    idsz + 8,
                                ),
                            )
                        } else {
                            Err(FrameError::Incomplete)
                        }
                    } else {
                        Err(FrameError::InvalidFrameId { id })
                    }
                },
            }
        },
        VarIntDec::Incomplete => Err(FrameError::Incomplete),
        VarIntDec::TooLong => Err(FrameError::InvalidLength),
    }
}

impl Frame {
    /// Test whether `buf` starts with a whole frame. On success the
    /// returned pair gives the length header's size and the declared body
    /// length; the buffer holds at least their sum.
    pub fn check(buf: &[u8]) -> (r: Result<(usize, usize), FrameError>)
        ensures
            r is Ok <==> frame_check_spec(buf@) is Ok,
            r matches Ok(p) ==> (frame_check_spec(buf@) matches Ok(q) && p.0 == q.0 && p.1 == q.1
                && p.0 + p.1 <= buf@.len()),
            r matches Err(e) ==> frame_check_spec(buf@) == Err::<(nat, nat), _>(e),
    {
        let n = buf.len();
        match decode_varint(buf) {
            Ok((len_val, size)) => {
                if len_val < 0 {
                    return Err(FrameError::InvalidLength);
                }
                let len = len_val as usize;
                if n - size >= len {
                    Ok((size, len))
                } else {
                    Err(FrameError::Incomplete)
                }
            },
            Err(_) => Err(FrameError::Incomplete),
        }
    }

    /// Read the handshake fields that follow an id of `idsz` bytes at
    /// `pos + idsz`.
    fn parse_handshake_fields(buf: &[u8], pos: usize, idsz: usize) -> (r: Result<
        (Frame, usize),
        FrameError,
    >)
        requires
            pos + idsz <= buf@.len(),
        ensures
            r is Ok <==> handshake_fields_spec(buf@.skip(pos as int), idsz as nat) is Ok,
            r matches Ok(p) ==> (handshake_fields_spec(buf@.skip(pos as int), idsz as nat)
                matches Ok(q) && p.0@ == q.0 && p.1 == pos + q.1 && pos <= p.1 <= buf@.len()),
            r matches Err(e) ==> handshake_fields_spec(buf@.skip(pos as int), idsz as nat)
                == Err::<(FrameView, nat), _>(e),
    {
        let n = buf.len();
        let ghost bytes = buf@.skip(pos as int);
        let cur = pos + idsz;
        let tail2 = vstd::slice::slice_subrange(buf, cur, n);
        assert(tail2@ =~= bytes.skip(idsz as int));
        let (protocol, psz) = match decode_varint(tail2) {
            Ok(p) => p,
            Err(VarIntError::Incomplete) => {
                return Err(FrameError::Incomplete);
            },
            Err(VarIntError::TooLong) => {
                return Err(FrameError::InvalidLength);
            },
        };
        proof {
            crate::varint::lemma_bits_round_trip();
        }
        let cur2 = cur + psz;
        assert(buf@.skip(cur2 as int) =~= bytes.skip((idsz + psz) as int));
        let (address, cur3) = match decode_mc_string(buf, cur2) {
            Ok(p) => p,
            Err(_) => {
                return Err(
                    FrameError::StringDecodeFailed { source: McStringError::InvalidFormat },
                );
            },
        };
        if n - cur3 < 2 {
            return Err(FrameError::Incomplete);
        }
        let port = read_be16(buf, cur3);
        assert(buf@.subrange(cur3 as int, cur3 as int + 2) =~= bytes.subrange(
            (cur3 - pos) as int,
            (cur3 - pos) as int + 2,
        ));
        let tail3 = vstd::slice::slice_subrange(buf, cur3 + 2, n);
        assert(tail3@ =~= bytes.skip((cur3 + 2 - pos) as int));
        let (state, stsz) = match decode_varint(tail3) {
            Ok(p) => p,
            Err(VarIntError::Incomplete) => {
                return Err(FrameError::Incomplete);
            },
            Err(VarIntError::TooLong) => {
                return Err(FrameError::InvalidLength);
            },
        };
        Ok((Frame::Handshake { protocol, address, port, state }, cur3 + 2 + stsz))
    }

    /// Read the eight-byte ping payload that follows an id of `idsz`
    /// bytes at `pos + idsz`.
    fn parse_payload(buf: &[u8], pos: usize, idsz: usize) -> (r: Result<(i64, usize), FrameError>)
        requires
            pos + idsz <= buf@.len(),
        ensures
            r is Ok <==> idsz + 8 <= buf@.skip(pos as int).len(),
            r matches Ok(p) ==> p.0 == bits_i64(
                be64_val(buf@.skip(pos as int).subrange(idsz as int, idsz as int + 8)),
            ) && p.1 == pos + idsz + 8 && p.1 <= buf@.len(),
            r matches Err(e) ==> e == FrameError::Incomplete,
    {
        let n = buf.len();
        let cur = pos + idsz;
        if n - cur < 8 {
            return Err(FrameError::Incomplete);
        }
        let raw = read_be64(buf, cur);
        assert(buf@.subrange(cur as int, cur as int + 8) =~= buf@.skip(pos as int).subrange(
            idsz as int,
            idsz as int + 8,
        ));
        let payload = crate::varint::i64_from_bits(raw);
        Ok((payload, cur + 8))
    }

    /// Parse the frame whose body starts at `pos`, just past the length
    /// header, under the given direction hint. Returns the frame and the
    /// position just past the bytes it consumed.
    pub fn parse(buf: &[u8], pos: usize, server_state: Option<ServerState>) -> (r: Result<
        (Frame, usize),
        FrameError,
    >)
        requires
            pos <= buf@.len(),
        ensures
            r is Ok <==> frame_parse_spec(buf@.skip(pos as int), server_state) is Ok,
            r matches Ok(p) ==> (frame_parse_spec(buf@.skip(pos as int), server_state) matches Ok(
                q,
            ) && p.0@ == q.0 && p.1 == pos + q.1 && pos <= p.1 <= buf@.len()),
            r matches Err(e) ==> frame_parse_spec(buf@.skip(pos as int), server_state) == Err::<
                (FrameView, nat),
                _,
            >(e),
    {
        let n = buf.len();
        let ghost bytes = buf@.skip(pos as int);
        let tail = vstd::slice::slice_subrange(buf, pos, n);
        assert(tail@ =~= bytes);
        let (id, idsz) = match decode_varint(tail) {
            Ok(p) => p,
            Err(VarIntError::Incomplete) => {
                return Err(FrameError::Incomplete);
            },
            Err(VarIntError::TooLong) => {
                return Err(FrameError::InvalidLength);
            },
        };
        proof {
            crate::varint::lemma_bits_round_trip();
        }
        let cur = pos + idsz;
        match server_state {
            Some(ServerState::Handshake) => {
                if id == 0 {
                    Self::parse_handshake_fields(buf, pos, idsz)
                } else {
                    Err(FrameError::InvalidFrameId { id })
                }
            },
            Some(ServerState::Status) => {
                if id == 0 {
                    Ok((Frame::StatusRequest, cur))
                } else if id == 1 {
                    match Self::parse_payload(buf, pos, idsz) {
                        Ok((payload, end)) => Ok((Frame::PingRequest { payload }, end)),
                        Err(e) => Err(e),
                    }
                } else {
                    Err(FrameError::InvalidFrameId { id })
                }
            },
            None => {
                if id == 0 {
                    assert(buf@.skip(cur as int) =~= bytes.skip(idsz as int));
                    match decode_mc_string(buf, cur) {
                        Ok((json, end)) => Ok((Frame::StatusResponse { json }, end)),
                        Err(_) => Err(
                            FrameError::StringDecodeFailed {
                                source: McStringError::InvalidFormat,
                            },
                        ),
                    }
                } else if id == 1 {
                    match Self::parse_payload(buf, pos, idsz) {
                        Ok((payload, end)) => Ok((Frame::PingResponse { payload }, end)),
                        Err(e) => Err(e),
                    }
                } else {
                    Err(FrameError::InvalidFrameId { id })
                }
            },
        }
    }
}

/// Whether the string fields of a frame fit a non-negative 32-bit byte
/// length.
pub open spec fn frame_str_ok(f: FrameView) -> bool {
    match f {
        FrameView::Handshake { address, .. } => encode_utf8(address).len() <= 0x7fff_ffff,
        FrameView::StatusResponse { json } => encode_utf8(json).len() <= 0x7fff_ffff,
        _ => true,
    }
}

/// Whether a frame can be written at all: its strings and its whole body
/// fit a non-negative 32-bit length.
pub open spec fn frame_wf(f: FrameView) -> bool {
    frame_str_ok(f) && frame_body(f).len() <= 0x7fff_ffff
}

/// Which frames a direction hint admits: a server in the handshake state
/// reads handshakes, a server in the status state reads requests, and a
/// client reads responses.
pub open spec fn direction_admits(dir: Option<ServerState>, f: FrameView) -> bool {
    match f {
        FrameView::Handshake { .. } => dir == Some(ServerState::Handshake),
        FrameView::StatusRequest => dir == Some(ServerState::Status),
        FrameView::PingRequest { .. } => dir == Some(ServerState::Status),
        FrameView::StatusResponse { .. } => dir is None,
        FrameView::PingResponse { .. } => dir is None,
    }
}

/// The body of a handshake parses back to the handshake.
proof fn lemma_parse_handshake_body(protocol: i32, address: Seq<char>, port: u16, state: i32)
    requires
        encode_utf8(address).len() <= 0x7fff_ffff,
    ensures
        ({
            let f = FrameView::Handshake { protocol, address, port, state };
            frame_parse_spec(frame_body(f), Some(ServerState::Handshake)) == Ok::<_, FrameError>(
                (f, frame_body(f).len()),
            )
        }),
{
    crate::varint::lemma_bits_round_trip();
    let f = FrameView::Handshake { protocol, address, port, state };
    let body = frame_body(f);
    let pb = varint_enc(i32_bits(protocol) as nat);
    let ab = mc_string_enc(address);
    let sb = varint_enc(i32_bits(state) as nat);
    let rest1 = pb + ab + be16(port) + sb;
    assert(body =~= varint_enc(0) + rest1);
    lemma_varint_enc_dec(0, rest1, 0);
    assert(varint_enc(0).len() == 1);
    lemma_varint_enc_len(i32_bits(protocol) as nat);
    assert(body.skip(1) =~= pb + (ab + be16(port) + sb));
    lemma_varint_enc_dec(i32_bits(protocol) as nat, ab + be16(port) + sb, 0);
    let psz = pb.len();
    assert(body.skip(1 + psz as int) =~= ab + (be16(port) + sb));
    crate::mc_string::lemma_mc_string_dec_prefix(address, be16(port) + sb);
    let ssz = ab.len();
    let base = 1 + psz + ssz;
    assert(base + 2 + sb.len() == body.len());
    assert(body.subrange(base as int, base as int + 2) =~= be16(port));
    crate::wire::lemma_be16_round(port);
    assert(body.skip(base as int + 2) =~= sb + Seq::<u8>::empty());
    lemma_varint_enc_len(i32_bits(state) as nat);
    lemma_varint_enc_dec(i32_bits(state) as nat, Seq::<u8>::empty(), 0);
    assert(sb + Seq::<u8>::empty() =~= sb);
    assert(handshake_fields_spec(body, 1) == Ok::<_, FrameError>((f, base + 2 + sb.len())));
}

/// The body of a status response parses back to the status response.
proof fn lemma_parse_status_response_body(json: Seq<char>)
    requires
        encode_utf8(json).len() <= 0x7fff_ffff,
    ensures
        ({
            let f = FrameView::StatusResponse { json };
            frame_parse_spec(frame_body(f), None) == Ok::<_, FrameError>(
                (f, frame_body(f).len()),
            )
        }),
{
    crate::varint::lemma_bits_round_trip();
    let f = FrameView::StatusResponse { json };
    let body = frame_body(f);
    let jb = mc_string_enc(json);
    assert(body =~= varint_enc(0) + jb);
    lemma_varint_enc_dec(0, jb, 0);
    assert(varint_enc(0).len() == 1);
    assert(body.skip(1) =~= jb + Seq::<u8>::empty());
    assert(jb + Seq::<u8>::empty() =~= jb);
    crate::mc_string::lemma_mc_string_round_trip(json);
}

/// The body of a ping frame parses back to the frame.
proof fn lemma_parse_ping_body(payload: i64, dir: Option<ServerState>, f: FrameView)
    requires
        f == (FrameView::PingRequest { payload }) && dir == Some(ServerState::Status) || f == (
        FrameView::PingResponse { payload }) && dir is None,
    ensures
        frame_parse_spec(frame_body(f), dir) == Ok::<_, FrameError>((f, frame_body(f).len())),
{
    crate::varint::lemma_bits_round_trip();
    let body = frame_body(f);
    let wb = be64(i64_bits(payload));
    assert(body =~= varint_enc(1) + wb);
    lemma_varint_enc_dec(1, wb, 0);
    assert(varint_enc(1).len() == 1);
    assert(body.subrange(1, 9) =~= wb);
    crate::wire::lemma_be64_round(i64_bits(payload));
}

/// Round trip: every writable frame survives serialization. The check of
/// its packet succeeds and splits it into header and body, and parsing
/// the body under a direction that admits the frame yields the frame
/// back, consuming the whole body. Together with the direction hypothesis
/// this is also the state machine's reading of ids: after a handshake a
/// server-side reader maps ids to the requests, and a client-side reader
/// maps them to the responses whatever was sent before.
#[verifier::rlimit(100)]
pub proof fn lemma_frame_round_trip(f: FrameView, dir: Option<ServerState>)
    requires
        frame_wf(f),
        direction_admits(dir, f),
    ensures
        frame_check_spec(frame_packet(f)) == Ok::<_, FrameError>(
            (varint_enc(frame_body(f).len()).len(), frame_body(f).len()),
        ),
        frame_packet(f).skip(varint_enc(frame_body(f).len()).len() as int) == frame_body(f),
        frame_parse_spec(frame_body(f), dir) == Ok::<_, FrameError>((f, frame_body(f).len())),
{
    crate::varint::lemma_bits_round_trip();
    let body = frame_body(f);
    let bl = body.len();
    let header = varint_enc(bl);
    lemma_varint_enc_len(bl);
    lemma_varint_enc_dec(bl, body, 0);
    assert(frame_packet(f).skip(header.len() as int) =~= body);
    match f {
        FrameView::Handshake { protocol, address, port, state } => {
            lemma_parse_handshake_body(protocol, address, port, state);
        },
        FrameView::StatusRequest => {
            assert(body =~= varint_enc(0) + Seq::<u8>::empty());
            lemma_varint_enc_dec(0, Seq::<u8>::empty(), 0);
            assert(varint_enc(0).len() == 1);
        },
        FrameView::StatusResponse { json } => {
            lemma_parse_status_response_body(json);
        },
        FrameView::PingRequest { payload } => {
            lemma_parse_ping_body(payload, dir, f);
        },
        FrameView::PingResponse { payload } => {
            lemma_parse_ping_body(payload, dir, f);
        },
    }
}

/// Partial input: every strict prefix of a serialised frame fails the
/// readiness check with `Incomplete`, and the check consumes nothing.
pub proof fn lemma_frame_check_partial(f: FrameView, k: int)
    requires
        frame_wf(f),
        0 <= k < frame_packet(f).len(),
    ensures
        frame_check_spec(frame_packet(f).take(k)) == Err::<(nat, nat), _>(FrameError::Incomplete),
{
    let body = frame_body(f);
    let bl = body.len();
    let header = varint_enc(bl);
    let hl = header.len();
    lemma_varint_enc_len(bl);
    if k < hl {
        assert(frame_packet(f).take(k) =~= header.take(k));
        lemma_varint_enc_prefix(bl, k, 0);
    } else {
        assert(frame_packet(f).take(k) =~= header + body.take(k - hl));
        lemma_varint_enc_dec(bl, body.take(k - hl), 0);
    }
}

/// The state machine's reading of inbound ids. A server that has taken
/// the handshake accepts the status and ping requests, and a client
/// accepts a status response whatever was sent before: the direction
/// hint alone, never session history, picks the mapping.
pub proof fn lemma_status_state_mappings(payload: i64, json: Seq<char>)
    requires
        frame_wf(FrameView::StatusResponse { json }),
    ensures
        frame_parse_spec(frame_body(FrameView::StatusRequest), Some(ServerState::Status))
            == Ok::<_, FrameError>((FrameView::StatusRequest, 1nat)),
        frame_parse_spec(
            frame_body(FrameView::PingRequest { payload }),
            Some(ServerState::Status),
        ) == Ok::<_, FrameError>((FrameView::PingRequest { payload }, 9nat)),
        frame_parse_spec(frame_body(FrameView::StatusResponse { json }), None)
            == Ok::<_, FrameError>(
            (
                FrameView::StatusResponse { json },
                frame_body(FrameView::StatusResponse { json }).len(),
            ),
        ),
{
    lemma_frame_round_trip(FrameView::StatusRequest, Some(ServerState::Status));
    lemma_frame_round_trip(FrameView::PingRequest { payload }, Some(ServerState::Status));
    lemma_frame_round_trip(FrameView::StatusResponse { json }, None);
    assert(frame_body(FrameView::StatusRequest).len() == 1) by {
        assert(varint_enc(0) =~= seq![0u8]);
    }
    assert(frame_body(FrameView::PingRequest { payload }).len() == 9) by {
        assert(varint_enc(1) =~= seq![1u8]);
    }
}

} // verus!
