use elytra_ping::protocol::frame::{Frame, FrameError, ServerState};
use elytra_ping::protocol::{ProtocolError, SlpProtocol};

fn handshake_example() -> Frame {
    Frame::Handshake {
        protocol: 754,
        address: "mc.example.com".to_string(),
        port: 25565,
        state: 1,
    }
}

#[test]
fn handshake_frame_bytes() {
    let expected_body: Vec<u8> = vec![
        0x00, 0xF2, 0x05, 0x0E, 0x6D, 0x63, 0x2E, 0x65, 0x78, 0x61, 0x6D, 0x70, 0x6C, 0x65, 0x2E,
        0x63, 0x6F, 0x6D, 0x63, 0xDD, 0x01,
    ];
    let packet = handshake_example().to_bytes().unwrap();
    assert_eq!(packet[0], 0x15);
    assert_eq!(packet[0], 21);
    assert_eq!(&packet[1..], expected_body.as_slice());
}

#[test]
fn handshake_round_trip() {
    let packet = handshake_example().to_bytes().unwrap();
    let (header, body_len) = Frame::check(packet.as_slice()).unwrap();
    assert_eq!(header + body_len, packet.len());
    let (frame, end) = Frame::parse(packet.as_slice(), header, Some(ServerState::Handshake))
        .unwrap();
    assert_eq!(frame, handshake_example());
    assert_eq!(end, packet.len());
}

#[test]
fn status_and_ping_round_trips() {
    let cases: Vec<(Frame, Option<ServerState>)> = vec![
        (Frame::StatusRequest, Some(ServerState::Status)),
        (Frame::PingRequest { payload: 54321 }, Some(ServerState::Status)),
        (Frame::PingRequest { payload: -7 }, Some(ServerState::Status)),
        (Frame::StatusResponse { json: "{}".to_string() }, None),
        (Frame::PingResponse { payload: 54321 }, None),
        (Frame::PingResponse { payload: i64::MIN }, None),
    ];
    for (frame, direction) in cases {
        let packet = frame.to_bytes().unwrap();
        let (header, body_len) = Frame::check(packet.as_slice()).unwrap();
        assert_eq!(header + body_len, packet.len());
        let (parsed, end) = Frame::parse(packet.as_slice(), header, direction).unwrap();
        assert_eq!(parsed, frame);
        assert_eq!(end, packet.len());
    }
}

#[test]
fn check_incomplete_on_every_strict_prefix() {
    let packet = handshake_example().to_bytes().unwrap();
    for k in 0..packet.len() {
        let r = Frame::check(&packet[..k]);
        assert!(matches!(r, Err(FrameError::Incomplete)));
    }
}

#[test]
fn check_rejects_negative_length() {
    let r = Frame::check(&[0xFF, 0xFF, 0xFF, 0xFF, 0x0F, 0x00]);
    assert!(matches!(r, Err(FrameError::InvalidLength)));
}

#[test]
fn parse_rejects_unknown_id() {
    // Body: id 5 and nothing else.
    let r = Frame::parse(&[0x05], 0, None);
    assert!(matches!(r, Err(FrameError::InvalidFrameId { id: 5 })));
    let r = Frame::parse(&[0x05], 0, Some(ServerState::Status));
    assert!(matches!(r, Err(FrameError::InvalidFrameId { id: 5 })));
}

#[test]
fn direction_governs_decode() {
    // The same id decodes differently per direction: id 0 with an empty
    // body is a status request server-side, and fails string decoding
    // client-side.
    let body = [0x00u8];
    let (frame, _) = Frame::parse(&body, 0, Some(ServerState::Status)).unwrap();
    assert_eq!(frame, Frame::StatusRequest);
    let r = Frame::parse(&body, 0, None);
    assert!(matches!(r, Err(FrameError::StringDecodeFailed { .. })));
}

#[test]
fn status_response_before_any_write() {
    // A client-side reader maps id 0 to a status response regardless of
    // session history: only the direction hint governs.
    let json = "{\"players\":{\"online\":3,\"max\":20}}";
    let reply = Frame::StatusResponse { json: json.to_string() }.to_bytes().unwrap();
    let mut session = SlpProtocol::new("mc.example.com".to_string(), 25565);
    session.feed(reply.as_slice());
    let frame = session.parse_frame(None).unwrap().unwrap();
    assert_eq!(frame, Frame::StatusResponse { json: json.to_string() });
}

#[test]
fn session_parses_frames_across_feeds() {
    let json = "{\"players\":{\"online\":3,\"max\":20}}";
    let reply = Frame::StatusResponse { json: json.to_string() }.to_bytes().unwrap();
    let mut session = SlpProtocol::new("mc.example.com".to_string(), 25565);
    // Feed the reply one byte at a time: incomplete until the last byte.
    for byte in &reply[..reply.len() - 1] {
        session.feed(&[*byte]);
        assert!(session.parse_frame(None).unwrap().is_none());
    }
    session.feed(&[reply[reply.len() - 1]]);
    let frame = session.parse_frame(None).unwrap().unwrap();
    assert_eq!(frame.into_status_json().unwrap(), json);
    // The buffer is drained afterwards.
    assert!(session.parse_frame(None).unwrap().is_none());
    assert!(session.eof_outcome().unwrap().is_none());
}

#[test]
fn session_parses_two_frames_in_one_feed() {
    let mut bytes = Frame::PingResponse { payload: 1 }.to_bytes().unwrap();
    bytes.extend_from_slice(&Frame::PingResponse { payload: 2 }.to_bytes().unwrap());
    let mut session = SlpProtocol::new("example.org".to_string(), 25565);
    session.feed(bytes.as_slice());
    assert_eq!(session.parse_frame(None).unwrap().unwrap(), Frame::PingResponse { payload: 1 });
    assert_eq!(session.parse_frame(None).unwrap().unwrap(), Frame::PingResponse { payload: 2 });
    assert!(session.parse_frame(None).unwrap().is_none());
}

#[test]
fn eof_mid_frame_is_connection_closed() {
    let mut session = SlpProtocol::new("example.org".to_string(), 25565);
    session.feed(&[0x15, 0x00]);
    let r = session.eof_outcome();
    assert!(matches!(r, Err(ProtocolError::ConnectionClosed)));
}

#[test]
fn create_handshake_frame_uses_stored_address() {
    let session = SlpProtocol::new("mc.example.com".to_string(), 25565);
    let frame = session.create_handshake_frame();
    assert_eq!(
        frame,
        Frame::Handshake {
            protocol: 767,
            address: "mc.example.com".to_string(),
            port: 25565,
            state: 1,
        }
    );
}

#[test]
fn into_status_json_rejects_other_frames() {
    let r = (Frame::PingResponse { payload: 3 }).into_status_json();
    assert!(matches!(r, Err(ProtocolError::FrameOutOfOrder)));
    assert!((Frame::PingResponse { payload: 3 }).is_ping_response());
    assert!(!Frame::StatusRequest.is_ping_response());
}

#[test]
fn parse_frame_reports_bad_frames() {
    let mut session = SlpProtocol::new("example.org".to_string(), 25565);
    // A complete frame whose id maps to nothing client-side.
    session.feed(&[0x01, 0x05]);
    let r = session.parse_frame(None);
    assert!(matches!(
        r,
        Err(ProtocolError::ParseFailed { source: FrameError::InvalidFrameId { id: 5 } })
    ));
}
