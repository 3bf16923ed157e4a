use elytra_ping::bedrock::{
    ping_outcome, response_latency_millis, BedrockPingError, BedrockServerInfo, PingRequestFrame,
    PingResponseFrame, MAGIC,
};
use elytra_ping::parse::{JavaServerInfo, TextComponent};

const MAGIC_BYTES: [u8; 16] = [
    0x00, 0xFF, 0xFF, 0x00, 0xFE, 0xFE, 0xFE, 0xFE, 0xFD, 0xFD, 0xFD, 0xFD, 0x12, 0x34, 0x56,
    0x78,
];

#[test]
fn motd_with_all_components() {
    let motd = "MCPE;Dedicated Server;390;1.14.60;0;10;13253860892328930865;Bedrock level;Survival;1;19132;19133";
    let info = BedrockServerInfo::from_str(motd).unwrap();
    assert_eq!(info.edition, "MCPE");
    assert_eq!(info.name, "Dedicated Server");
    assert_eq!(info.protocol_version, 390);
    assert_eq!(info.mc_version, "1.14.60");
    assert_eq!(info.online_players, 0);
    assert_eq!(info.max_players, 10);
    assert_eq!(info.server_id, Some(13253860892328930865));
    assert_eq!(info.map_name.as_deref(), Some("Bedrock level"));
    assert_eq!(info.game_mode.as_deref(), Some("Survival"));
    assert_eq!(info.numeric_game_mode, Some(1));
    assert_eq!(info.ipv4_port, Some(19132));
    assert_eq!(info.ipv6_port, Some(19133));
    assert!(info.extra.is_empty());
}

#[test]
fn motd_with_six_components_has_no_optionals() {
    let info = BedrockServerInfo::from_str("MCPE;Name;390;1.14.60;0;10").unwrap();
    assert_eq!(info.edition, "MCPE");
    assert_eq!(info.server_id, None);
    assert_eq!(info.map_name, None);
    assert_eq!(info.game_mode, None);
    assert_eq!(info.numeric_game_mode, None);
    assert_eq!(info.ipv4_port, None);
    assert_eq!(info.ipv6_port, None);
    assert!(info.extra.is_empty());
}

#[test]
fn motd_with_too_few_components_fails() {
    assert!(BedrockServerInfo::from_str("MCPE;Name").is_err());
    assert!(BedrockServerInfo::from_str("").is_err());
}

#[test]
fn motd_with_bad_mandatory_number_fails() {
    assert!(BedrockServerInfo::from_str("MCPE;Name;x390;1.14.60;0;10").is_err());
    assert!(BedrockServerInfo::from_str("MCPE;Name;390;1.14.60;;10").is_err());
    assert!(BedrockServerInfo::from_str("MCPE;Name;390;1.14.60;0;4294967296").is_err());
}

#[test]
fn motd_with_bad_optional_number_reads_as_absent() {
    let info = BedrockServerInfo::from_str("MCPE;Name;390;1.14.60;0;10;not-a-number").unwrap();
    assert_eq!(info.server_id, None);
}

#[test]
fn motd_keeps_extra_components() {
    let info =
        BedrockServerInfo::from_str("MCPE;Name;390;1.14.60;0;10;1;map;Survival;1;19132;19133;a;b")
            .unwrap();
    assert_eq!(info.extra, vec!["a".to_string(), "b".to_string()]);
}

#[test]
fn motd_accepts_plus_signed_numbers() {
    let info = BedrockServerInfo::from_str("MCPE;Name;+390;1.14.60;0;10").unwrap();
    assert_eq!(info.protocol_version, 390);
}

#[test]
fn ping_request_datagram() {
    let frame = PingRequestFrame { time: 2, magic: MAGIC, guid: -1 };
    let bytes = frame.to_vec();
    assert_eq!(bytes.len(), 33);
    assert_eq!(bytes[0], 0x01);
    assert_eq!(&bytes[1..9], &[0, 0, 0, 0, 0, 0, 0, 2]);
    assert_eq!(&bytes[9..25], &MAGIC_BYTES);
    assert_eq!(&bytes[25..33], &[0xFF; 8]);
}

fn pong_datagram(time: i64, motd: &str) -> Vec<u8> {
    let mut bytes: Vec<u8> = Vec::new();
    bytes.push(0x1C);
    bytes.extend_from_slice(&time.to_be_bytes());
    bytes.extend_from_slice(&777i64.to_be_bytes());
    bytes.extend_from_slice(&MAGIC_BYTES);
    bytes.extend_from_slice(&(motd.len() as u16).to_be_bytes());
    bytes.extend_from_slice(motd.as_bytes());
    bytes
}

#[test]
fn pong_parses_valid_datagram() {
    let datagram = pong_datagram(12345, "MCPE;Name;390;1.14.60;0;10");
    let frame = PingResponseFrame::from_bytes(datagram.as_slice()).unwrap();
    assert_eq!(frame.time, 12345);
    assert_eq!(frame.motd, "MCPE;Name;390;1.14.60;0;10");
}

#[test]
fn pong_rejects_malformed_datagrams() {
    let good = pong_datagram(1, "MCPE");
    // Too short.
    assert!(PingResponseFrame::from_bytes(&good[..30]).is_none());
    // Wrong id byte.
    let mut bad_id = good.clone();
    bad_id[0] = 0x1D;
    assert!(PingResponseFrame::from_bytes(bad_id.as_slice()).is_none());
    // Corrupted magic.
    let mut bad_magic = good.clone();
    bad_magic[17] ^= 0xFF;
    assert!(PingResponseFrame::from_bytes(bad_magic.as_slice()).is_none());
    // Declared length disagrees with the remaining bytes.
    let mut bad_len = good.clone();
    bad_len[34] += 1;
    assert!(PingResponseFrame::from_bytes(bad_len.as_slice()).is_none());
    // Description is not UTF-8.
    let mut bad_utf8 = good.clone();
    let end = bad_utf8.len() - 1;
    bad_utf8[end] = 0xFF;
    assert!(PingResponseFrame::from_bytes(bad_utf8.as_slice()).is_none());
}

#[test]
fn latency_is_the_wrapping_difference() {
    assert_eq!(response_latency_millis(1000, 400), 600);
    assert_eq!(response_latency_millis(5, 10), u64::MAX - 4);
    assert_eq!(response_latency_millis(-5, -10), 5);
}

#[test]
fn outcome_without_any_reply_is_no_response() {
    let r = ping_outcome(None);
    assert!(matches!(r, Err(BedrockPingError::NoResponse)));
}

#[test]
fn outcome_with_reply_parses_the_motd() {
    let frame = PingResponseFrame { time: 0, motd: "MCPE;Name;390;1.14.60;3;20".to_string() };
    let (info, latency) = ping_outcome(Some((frame, 42))).unwrap();
    assert_eq!(info.name, "Name");
    assert_eq!(info.online_players, 3);
    assert_eq!(latency, 42);

    let bad = PingResponseFrame { time: 0, motd: "MCPE".to_string() };
    let r = ping_outcome(Some((bad, 42)));
    assert!(matches!(r, Err(BedrockPingError::ServerInfoParse { .. })));
}

#[test]
fn java_info_from_bedrock() {
    let info = BedrockServerInfo::from_str(
        "MCPE;Dedicated Server;390;1.14.60;3;20;1;Bedrock level",
    )
    .unwrap();
    let java = JavaServerInfo::from_bedrock(info);
    assert!(java.version.is_none());
    let players = java.players.unwrap();
    assert_eq!(players.online, 3);
    assert_eq!(players.max, 20);
    assert!(players.sample.is_none());
    assert_eq!(
        java.description,
        TextComponent::Plain("Dedicated Server\n\u{a7}rBedrock level".to_string())
    );

    let plain = BedrockServerInfo::from_str("MCPE;Name;390;1.14.60;0;10").unwrap();
    let java = JavaServerInfo::from_bedrock(plain);
    assert_eq!(java.description, TextComponent::Plain("Name".to_string()));
}
