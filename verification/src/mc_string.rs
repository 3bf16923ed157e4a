//! Codec for Minecraft's length-prefixed strings: the UTF-8 byte length as
//! a varint, followed by the UTF-8 bytes themselves.
use vstd::prelude::*;

use crate::varint::{decode_varint, encode_varint, varint_dec, varint_enc, VarIntDec};
use vstd::utf8::{decode_utf8, encode_utf8, valid_utf8};

verus! {

/// Why a string could not be encoded or decoded.
#[derive(Debug, PartialEq, Eq)]
pub enum McStringError {
    /// The string's UTF-8 form is longer than a non-negative 32-bit length
    /// can describe.
    TooLong { length: usize },
    /// The bytes do not hold a well-formed length-prefixed string.
    InvalidFormat,
}

/// The wire form of the character sequence `s`: the length of its UTF-8
/// encoding as a varint, then the encoding itself.
pub open spec fn mc_string_enc(s: Seq<char>) -> Seq<u8> {
    varint_enc(encode_utf8(s).len()) + encode_utf8(s)
}

/// Decode a length-prefixed string from the front of `bytes`: the decoded
/// characters and the number of bytes consumed, or nothing when the prefix
/// is malformed, negative, longer than the remaining bytes, or not valid
/// UTF-8.
pub open spec fn mc_string_dec(bytes: Seq<u8>) -> Option<(Seq<char>, nat)> {
    match varint_dec(bytes) {
        VarIntDec::Done { value, size } => {
            let bits = value % 0x1_0000_0000;
            if bits >= 0x8000_0000 {
                None
            } else if size + bits <= bytes.len() && valid_utf8(
                bytes.subrange(size as int, (size + bits) as int),
            ) {
                Some(
                    (
                        decode_utf8(bytes.subrange(size as int, (size + bits) as int)),
                        size + bits,
                    ),
                )
            } else {
                None
            }
        },
        _ => None,
    }
}

/// Relies on `String::from_utf8`: it returns the string whose UTF-8
/// encoding is the given bytes, and rejects bytes that are not valid
/// UTF-8.
#[verifier::external_body]
pub(crate) fn utf8_to_string(bytes: Vec<u8>) -> (r: Option<String>)
    ensures
        r is Some <==> valid_utf8(bytes@),
        r matches Some(s) ==> encode_utf8(s@) == bytes@,
{
    String::from_utf8(bytes).ok()
}

/// Encode a string in the Minecraft wire form: a varint byte length, then
/// the UTF-8 bytes. Fails with `TooLong` exactly when the byte length does
/// not fit a non-negative 32-bit integer.
pub fn encode_mc_string(string: &str) -> (r: Result<Vec<u8>, McStringError>)
    ensures
        encode_utf8(string@).len() <= 0x7fff_ffff ==> (r matches Ok(v) && v@ == mc_string_enc(
            string@,
        )),
        encode_utf8(string@).len() > 0x7fff_ffff ==> (r matches Err(e) && e matches
            McStringError::TooLong { length } && length == encode_utf8(string@).len()),
{
    let utf8 = string.as_bytes();
    let len = utf8.len();
    if len > 0x7fff_ffff {
        return Err(McStringError::TooLong { length: len });
    }
    let mut out = encode_varint(len as i32);
    out.extend_from_slice(utf8);
    proof {
        assert(out@ =~= mc_string_enc(string@));
    }
    Ok(out)
}

/// Decode a length-prefixed string that starts at `pos` in `bytes`,
/// returning the string and the position just past it. Fails with
/// `InvalidFormat` exactly when no well-formed string starts there: a
/// malformed or negative length, fewer remaining bytes than the length
/// declares, or bytes that are not valid UTF-8.
pub fn decode_mc_string(bytes: &[u8], pos: usize) -> (r: Result<(String, usize), McStringError>)
    requires
        pos <= bytes@.len(),
    ensures
        r is Ok <==> mc_string_dec(bytes@.skip(pos as int)) is Some,
        r matches Ok(p) ==> (mc_string_dec(bytes@.skip(pos as int)) matches Some(q) && p.0@ == q.0
            && p.1 == pos + q.1 && pos <= p.1 <= bytes@.len()),
        r matches Err(e) ==> e == McStringError::InvalidFormat,
{
    let tail = vstd::slice::slice_subrange(bytes, pos, bytes.len());
    assert(tail@ =~= bytes@.skip(pos as int));
    let (len_val, len_size) = match decode_varint(tail) {
        Ok(p) => p,
        Err(_) => {
            return Err(McStringError::InvalidFormat);
        },
    };
    if len_val < 0 {
        return Err(McStringError::InvalidFormat);
    }
    let len = len_val as usize;
    let avail = bytes.len() - pos;
    if len > avail - len_size {
        return Err(McStringError::InvalidFormat);
    }
    let body = vstd::slice::slice_subrange(bytes, pos + len_size, pos + len_size + len);
    assert(body@ =~= bytes@.skip(pos as int).subrange(
        len_size as int,
        len_size as int + len as int,
    ));
    let body_vec = vstd::slice::slice_to_vec(body);
    match utf8_to_string(body_vec) {
        Some(s) => {
            proof {
                vstd::utf8::encode_utf8_decode_utf8(s@);
            }
            Ok((s, pos + len_size + len))
        },
        None => Err(McStringError::InvalidFormat),
    }
}

/// A buffer that starts with the encoding of `s` decodes to exactly `s`,
/// consuming exactly the encoded bytes, whatever follows them.
pub proof fn lemma_mc_string_dec_prefix(s: Seq<char>, rest: Seq<u8>)
    requires
        encode_utf8(s).len() <= 0x7fff_ffff,
    ensures
        mc_string_dec(mc_string_enc(s) + rest) == Some((s, mc_string_enc(s).len() as nat)),
{
    let utf8 = encode_utf8(s);
    let e = mc_string_enc(s) + rest;
    crate::varint::lemma_varint_enc_len(utf8.len());
    crate::varint::lemma_varint_enc_dec(utf8.len(), utf8 + rest, 0);
    assert(e =~= varint_enc(utf8.len()) + (utf8 + rest));
    let size = varint_enc(utf8.len()).len();
    assert(e.subrange(size as int, (size + utf8.len()) as int) =~= utf8);
    vstd::utf8::encode_utf8_valid_utf8(s);
    vstd::utf8::encode_utf8_decode_utf8(s);
}

/// Round trip: every encodable string survives encoding and decoding, and
/// decoding consumes exactly the encoded bytes.
pub proof fn lemma_mc_string_round_trip(s: Seq<char>)
    requires
        encode_utf8(s).len() <= 0x7fff_ffff,
    ensures
        mc_string_dec(mc_string_enc(s)) == Some((s, mc_string_enc(s).len() as nat)),
{
    lemma_mc_string_dec_prefix(s, Seq::<u8>::empty());
    assert(mc_string_enc(s) + Seq::<u8>::empty() =~= mc_string_enc(s));
}

} // verus!
