use elytra_ping::mc_string::{decode_mc_string, encode_mc_string, McStringError};
use elytra_ping::varint::{decode_varint, encode_varint, VarIntError};

#[test]
fn encode_and_decode_mc_string() {
    const STRING: &str = "hello world!!";
    let bytes = encode_mc_string(STRING).unwrap();
    let (decoded_string, _) = decode_mc_string(bytes.as_slice(), 0).unwrap();
    assert_eq!(decoded_string, STRING);
}

#[test]
fn varint_three_hundred() {
    assert_eq!(encode_varint(300), vec![0xAC, 0x02]);
    assert_eq!(decode_varint(&[0xAC, 0x02]).unwrap(), (300, 2));
}

#[test]
fn varint_zero_is_one_byte() {
    assert_eq!(encode_varint(0), vec![0x00]);
    assert_eq!(decode_varint(&[0x00]).unwrap(), (0, 1));
}

#[test]
fn varint_extremes_are_five_bytes() {
    let max = encode_varint(i32::MAX);
    assert_eq!(max, vec![0xFF, 0xFF, 0xFF, 0xFF, 0x07]);
    assert_eq!(decode_varint(max.as_slice()).unwrap(), (i32::MAX, 5));

    let min = encode_varint(i32::MIN);
    assert_eq!(min, vec![0x80, 0x80, 0x80, 0x80, 0x08]);
    assert_eq!(decode_varint(min.as_slice()).unwrap(), (i32::MIN, 5));

    let minus_one = encode_varint(-1);
    assert_eq!(minus_one, vec![0xFF, 0xFF, 0xFF, 0xFF, 0x0F]);
    assert_eq!(decode_varint(minus_one.as_slice()).unwrap(), (-1, 5));
}

#[test]
fn varint_rejects_six_continuations() {
    let r = decode_varint(&[0x80, 0x80, 0x80, 0x80, 0x80, 0x01]);
    assert!(matches!(r, Err(VarIntError::TooLong)));
}

#[test]
fn varint_incomplete_input() {
    assert!(matches!(decode_varint(&[]), Err(VarIntError::Incomplete)));
    assert!(matches!(decode_varint(&[0x80, 0x80]), Err(VarIntError::Incomplete)));
}

#[test]
fn varint_round_trip_samples() {
    for v in [0, 1, 127, 128, 255, 300, 16383, 16384, 2097151, -1, -300, i32::MAX, i32::MIN] {
        let bytes = encode_varint(v);
        let (decoded, used) = decode_varint(bytes.as_slice()).unwrap();
        assert_eq!(decoded, v);
        assert_eq!(used, bytes.len());
    }
}

#[test]
fn string_hello() {
    assert_eq!(encode_mc_string("hello").unwrap(), vec![0x05, 0x68, 0x65, 0x6C, 0x6C, 0x6F]);
}

#[test]
fn string_empty_is_single_zero_byte() {
    assert_eq!(encode_mc_string("").unwrap(), vec![0x00]);
    let (s, used) = decode_mc_string(&[0x00], 0).unwrap();
    assert_eq!(s, "");
    assert_eq!(used, 1);
}

#[test]
fn string_decode_advances_past_exactly_the_encoding() {
    let mut bytes = encode_mc_string("first").unwrap();
    let first_len = bytes.len();
    bytes.extend_from_slice(&encode_mc_string("second").unwrap());
    let (a, mid) = decode_mc_string(bytes.as_slice(), 0).unwrap();
    assert_eq!(a, "first");
    assert_eq!(mid, first_len);
    let (b, end) = decode_mc_string(bytes.as_slice(), mid).unwrap();
    assert_eq!(b, "second");
    assert_eq!(end, bytes.len());
}

#[test]
fn string_decode_multibyte_utf8() {
    // "héllo": five characters in six bytes.
    let bytes = [0x06, 0x68, 0xC3, 0xA9, 0x6C, 0x6C, 0x6F];
    let (s, used) = decode_mc_string(&bytes, 0).unwrap();
    assert_eq!(s, "h\u{e9}llo");
    assert_eq!(s.chars().count(), 5);
    assert_eq!(used, 7);
}

#[test]
fn string_decode_rejects_bad_input() {
    // Length runs past the buffer.
    assert!(matches!(decode_mc_string(&[0x05, 0x68], 0), Err(McStringError::InvalidFormat)));
    // Negative length.
    assert!(matches!(
        decode_mc_string(&[0xFF, 0xFF, 0xFF, 0xFF, 0x0F], 0),
        Err(McStringError::InvalidFormat)
    ));
    // Not UTF-8.
    assert!(matches!(decode_mc_string(&[0x02, 0xFF, 0xFE], 0), Err(McStringError::InvalidFormat)));
    // Truncated length prefix.
    assert!(matches!(decode_mc_string(&[0x80], 0), Err(McStringError::InvalidFormat)));
}
