//! Codec for the Minecraft variable-length integer: a 32-bit signed value
//! carried in 1 to 5 bytes, 7 value bits per byte, least significant group
//! first, with the high bit of every byte but the last set as a
//! continuation flag.
use vstd::prelude::*;

verus! {

/// Why a varint could not be decoded.
#[derive(Debug, PartialEq, Eq)]
pub enum VarIntError {
    /// The buffer ended before a byte without the continuation flag.
    Incomplete,
    /// Five continuation bytes were read without a terminator.
    TooLong,
}

/// The unsigned 32-bit value that carries the same bits as `v`.
pub open spec fn i32_bits(v: i32) -> u32 {
    if v >= 0 {
        v as u32
    } else {
        (v + 0x1_0000_0000) as u32
    }
}

/// The signed 32-bit value that carries the same bits as `u`.
pub open spec fn bits_i32(u: u32) -> i32 {
    if u < 0x8000_0000 {
        u as i32
    } else {
        (u - 0x1_0000_0000) as i32
    }
}

/// The unsigned 64-bit value that carries the same bits as `v`.
pub open spec fn i64_bits(v: i64) -> u64 {
    if v >= 0 {
        v as u64
    } else {
        (v + 0x1_0000_0000_0000_0000) as u64
    }
}

/// The signed 64-bit value that carries the same bits as `u`.
pub open spec fn bits_i64(u: u64) -> i64 {
    if u < 0x8000_0000_0000_0000 {
        u as i64
    } else {
        (u - 0x1_0000_0000_0000_0000) as i64
    }
}

/// The wire form of the value `v`: 7-bit groups, least significant first,
/// continuation flag on every byte but the last.
pub open spec fn varint_enc(v: nat) -> Seq<u8>
    decreases v,
{
    if v < 0x80 {
        seq![v as u8]
    } else {
        seq![(0x80 + v % 0x80) as u8] + varint_enc(v / 0x80)
    }
}

/// Outcome of decoding a varint from the front of a byte sequence.
pub enum VarIntDec {
    /// A terminator was found: the accumulated value and the bytes consumed.
    Done { value: nat, size: nat },
    /// Five continuation bytes passed without a terminator.
    TooLong,
    /// The bytes ended before a terminator.
    Incomplete,
}

/// Decode a varint from the front of `bytes`, with `depth` continuation
/// bytes already consumed.
pub open spec fn varint_dec_at(bytes: Seq<u8>, depth: nat) -> VarIntDec
    decreases bytes.len(),
{
    if depth >= 5 {
        VarIntDec::TooLong
    } else if bytes.len() == 0 {
        VarIntDec::Incomplete
    } else if bytes[0] < 0x80 {
        VarIntDec::Done { value: bytes[0] as nat, size: 1 }
    } else {
        match varint_dec_at(bytes.drop_first(), depth + 1) {
            VarIntDec::Done { value, size } => VarIntDec::Done {
                value: (bytes[0] - 0x80) as nat + 0x80 * value,
                size: size + 1,
            },
            e => e,
        }
    }
}

/// Decode a varint from the front of `bytes`.
pub open spec fn varint_dec(bytes: Seq<u8>) -> VarIntDec {
    varint_dec_at(bytes, 0)
}

/// `0x80` raised to the power `k`.
pub open spec fn p128(k: nat) -> nat
    decreases k,
{
    if k == 0 {
        1
    } else {
        0x80 * p128((k - 1) as nat)
    }
}

proof fn lemma_p128_values()
    ensures
        p128(0) == 1,
        p128(1) == 0x80,
        p128(2) == 0x4000,
        p128(3) == 0x20_0000,
        p128(4) == 0x1000_0000,
        p128(5) == 0x8_0000_0000,
{
    assert(p128(0) == 1);
    assert(p128(1) == 0x80 * p128(0));
    assert(p128(2) == 0x80 * p128(1));
    assert(p128(3) == 0x80 * p128(2));
    assert(p128(4) == 0x80 * p128(3));
    assert(p128(5) == 0x80 * p128(4));
}

proof fn lemma_varint_enc_len_bound(v: nat, k: nat)
    requires
        1 <= k,
        v < p128(k),
    ensures
        1 <= varint_enc(v).len() <= k,
    decreases v,
{
    if v >= 0x80 {
        assert(p128(k) == 0x80 * p128((k - 1) as nat));
        assert(p128((k - 1) as nat) >= 1) by {
            lemma_p128_pos((k - 1) as nat);
        }
        assert(v / 0x80 < p128((k - 1) as nat)) by {
            vstd::arithmetic::div_mod::lemma_fundamental_div_mod(v as int, 0x80);
        }
        lemma_varint_enc_len_bound(v / 0x80, (k - 1) as nat);
    }
}

proof fn lemma_p128_pos(k: nat)
    ensures
        p128(k) >= 1,
    decreases k,
{
    if k > 0 {
        lemma_p128_pos((k - 1) as nat);
    }
}

/// The encoding of a 32-bit value never exceeds five bytes.
pub proof fn lemma_varint_enc_len(v: nat)
    requires
        v < 0x1_0000_0000,
    ensures
        1 <= varint_enc(v).len() <= 5,
{
    lemma_p128_values();
    lemma_varint_enc_len_bound(v, 5);
}

/// Every decoded value fits in 35 bits, and at most five bytes are consumed.
pub proof fn lemma_varint_dec_bound(bytes: Seq<u8>, depth: nat)
    requires
        varint_dec_at(bytes, depth) is Done,
    ensures
        varint_dec_at(bytes, depth) matches VarIntDec::Done { value, size } && value < p128(
            (5 - depth) as nat,
        ) && value < 0x8_0000_0000 && 1 <= size <= 5 - depth && size <= bytes.len(),
    decreases bytes.len(),
{
    lemma_p128_values();
    if depth >= 5 || bytes.len() == 0 {
    } else if bytes[0] < 0x80 {
        assert(p128((5 - depth) as nat) >= p128(1)) by {
            lemma_p128_mono(1, (5 - depth) as nat);
        }
    } else {
        lemma_varint_dec_bound(bytes.drop_first(), depth + 1);
        match varint_dec_at(bytes.drop_first(), depth + 1) {
            VarIntDec::Done { value, size } => {
                assert(p128((5 - depth) as nat) == 0x80 * p128((4 - depth) as nat));
                assert((bytes[0] - 0x80) as nat + 0x80 * value < p128((5 - depth) as nat));
                assert(p128((5 - depth) as nat) <= p128(5)) by {
                    lemma_p128_mono((5 - depth) as nat, 5);
                }
            },
            _ => {},
        }
    }
}

proof fn lemma_p128_mono(a: nat, b: nat)
    requires
        a <= b,
    ensures
        p128(a) <= p128(b),
    decreases b,
{
    if a < b {
        lemma_p128_mono(a, (b - 1) as nat);
        assert(p128(b) == 0x80 * p128((b - 1) as nat));
        lemma_p128_pos((b - 1) as nat);
    }
}

/// Decoding inverts encoding: a byte sequence that starts with the
/// encoding of `v` decodes to exactly `v`, consuming exactly the encoding.
pub proof fn lemma_varint_enc_dec(v: nat, rest: Seq<u8>, depth: nat)
    requires
        varint_enc(v).len() + depth <= 5,
    ensures
        varint_dec_at(varint_enc(v) + rest, depth) == (VarIntDec::Done {
            value: v,
            size: varint_enc(v).len(),
        }),
    decreases v,
{
    let e = varint_enc(v);
    if v < 0x80 {
        assert((e + rest)[0] == v as u8);
    } else {
        let b0: u8 = (0x80 + v % 0x80) as u8;
        assert((e + rest)[0] == b0);
        assert((e + rest).drop_first() =~= varint_enc(v / 0x80) + rest);
        lemma_varint_enc_dec(v / 0x80, rest, depth + 1);
        assert((b0 - 0x80) as nat + 0x80 * (v / 0x80) == v) by {
            vstd::arithmetic::div_mod::lemma_fundamental_div_mod(v as int, 0x80);
        }
    }
}

/// Any strict prefix of an encoding is incomplete.
pub proof fn lemma_varint_enc_prefix(v: nat, k: int, depth: nat)
    requires
        varint_enc(v).len() + depth <= 5,
        0 <= k < varint_enc(v).len(),
    ensures
        varint_dec_at(varint_enc(v).take(k), depth) is Incomplete,
    decreases v,
{
    let e = varint_enc(v);
    if k == 0 {
    } else {
        assert(v >= 0x80);
        assert(e.take(k)[0] == (0x80 + v % 0x80) as u8);
        assert(e.take(k).drop_first() =~= varint_enc(v / 0x80).take(k - 1));
        lemma_varint_enc_prefix(v / 0x80, k - 1, depth + 1);
    }
}

/// Encode a 32-bit signed value in the Minecraft varint wire form.
pub fn encode_varint(value: i32) -> (r: Vec<u8>)
    ensures
        r@ == varint_enc(i32_bits(value) as nat),
        1 <= r@.len() <= 5,
{
    let bits: u32 = if value >= 0 {
        value as u32
    } else {
        ((value as i64) + 0x1_0000_0000i64) as u32
    };
    proof {
        lemma_varint_enc_len(bits as nat);
    }
    let mut out: Vec<u8> = Vec::new();
    let mut rest: u32 = bits;
    while rest >= 0x80
        invariant
            varint_enc(bits as nat) =~= out@ + varint_enc(rest as nat),
        decreases rest,
    {
        proof {
            assert(varint_enc(rest as nat) =~= seq![(0x80 + rest % 0x80) as u8] + varint_enc(
                (rest / 0x80) as nat,
            ));
        }
        let ghost old_out = out@;
        let ghost old_rest = rest;
        out.push((0x80 + rest % 0x80) as u8);
        rest = rest / 0x80;
        proof {
            assert(out@ =~= old_out + seq![(0x80 + old_rest % 0x80) as u8]);
            assert(varint_enc(bits as nat) =~= out@ + varint_enc(rest as nat));
        }
    }
    out.push(rest as u8);
    proof {
        assert(varint_enc(rest as nat) =~= seq![rest as u8]);
        assert(out@ =~= varint_enc(bits as nat));
    }
    out
}

/// Decode a varint from the front of `bytes`, after `depth` continuation
/// bytes have already been taken in.
fn decode_varint_groups(bytes: &[u8], depth: usize) -> (r: Result<(u64, usize), VarIntError>)
    requires
        depth <= 5,
    ensures
        match r {
            Ok(p) => varint_dec_at(bytes@, depth as nat) == (VarIntDec::Done {
                value: p.0 as nat,
                size: p.1 as nat,
            }) && p.0 < 0x8_0000_0000 && 1 <= p.1 <= 5 && p.1 <= bytes@.len(),
            Err(VarIntError::Incomplete) => varint_dec_at(bytes@, depth as nat) is Incomplete,
            Err(VarIntError::TooLong) => varint_dec_at(bytes@, depth as nat) is TooLong,
        },
    decreases bytes@.len(),
{
    if depth >= 5 {
        return Err(VarIntError::TooLong);
    }
    if bytes.len() == 0 {
        return Err(VarIntError::Incomplete);
    }
    let b0 = *vstd::slice::slice_index_get(bytes, 0);
    if b0 < 0x80 {
        return Ok((b0 as u64, 1));
    }
    let tail = vstd::slice::slice_subrange(bytes, 1, bytes.len());
    assert(tail@ =~= bytes@.drop_first());
    match decode_varint_groups(tail, depth + 1) {
        Ok((value, size)) => {
            proof {
                lemma_varint_dec_bound(tail@, depth as nat + 1);
                lemma_p128_values();
                lemma_p128_mono((4 - depth) as nat, 4);
                assert(value < 0x1000_0000);
                assert(varint_dec_at(bytes@, depth as nat) == (VarIntDec::Done {
                    value: (bytes@[0] - 0x80) as nat + 0x80 * (value as nat),
                    size: (size + 1) as nat,
                }));
            }
            Ok(((b0 - 0x80) as u64 + 0x80 * value, size + 1))
        },
        Err(e) => Err(e),
    }
}

/// Decode a 32-bit signed varint from the front of `bytes`, returning the
/// value and the number of bytes consumed. Fails with `Incomplete` when the
/// buffer ends before a terminator, and with `TooLong` when five
/// continuation bytes pass without one.
pub fn decode_varint(bytes: &[u8]) -> (r: Result<(i32, usize), VarIntError>)
    ensures
        r is Ok <==> varint_dec(bytes@) is Done,
        r matches Ok(p) ==> varint_dec(bytes@) matches VarIntDec::Done { value, size } && i32_bits(
            p.0,
        ) == value % 0x1_0000_0000 && p.1 == size && 1 <= p.1 <= 5 && p.1 <= bytes@.len(),
        r == Err::<(i32, usize), _>(VarIntError::Incomplete) <==> varint_dec(bytes@) is Incomplete,
        r == Err::<(i32, usize), _>(VarIntError::TooLong) <==> varint_dec(bytes@) is TooLong,
{
    match decode_varint_groups(bytes, 0) {
        Ok((raw, size)) => {
            let bits: u32 = (raw % 0x1_0000_0000) as u32;
            let value: i32 = if bits < 0x8000_0000 {
                bits as i32
            } else {
                ((bits as i64) - 0x1_0000_0000i64) as i32
            };
            Ok((value, size))
        },
        Err(e) => Err(e),
    }
}

/// Round trip: every 32-bit signed value survives encoding and decoding,
/// and decoding consumes exactly the encoded bytes.
pub proof fn lemma_varint_round_trip(v: i32)
    ensures
        varint_dec(varint_enc(i32_bits(v) as nat)) == (VarIntDec::Done {
            value: i32_bits(v) as nat,
            size: varint_enc(i32_bits(v) as nat).len(),
        }),
        bits_i32(i32_bits(v)) == v,
{
    let bits = i32_bits(v) as nat;
    lemma_varint_enc_len(bits);
    lemma_varint_enc_dec(bits, Seq::<u8>::empty(), 0);
    assert(varint_enc(bits) + Seq::<u8>::empty() =~= varint_enc(bits));
}

/// The bit reinterpretations between signed and unsigned invert each other.
pub proof fn lemma_bits_round_trip()
    ensures
        forall|v: i32| #[trigger] bits_i32(i32_bits(v)) == v,
        forall|u: u32| #[trigger] i32_bits(bits_i32(u)) == u,
        forall|v: i64| #[trigger] bits_i64(i64_bits(v)) == v,
        forall|u: u64| #[trigger] i64_bits(bits_i64(u)) == u,
{
}

/// The signed 64-bit value that carries the same bits as `u`.
pub fn i64_from_bits(u: u64) -> (r: i64)
    ensures
        r == bits_i64(u),
{
    if u < 0x8000_0000_0000_0000 {
        u as i64
    } else {
        ((u as i128) - 0x1_0000_0000_0000_0000i128) as i64
    }
}

/// The unsigned 64-bit value that carries the same bits as `v`.
pub fn i64_to_bits(v: i64) -> (r: u64)
    ensures
        r == i64_bits(v),
{
    if v >= 0 {
        v as u64
    } else {
        ((v as i128) + 0x1_0000_0000_0000_0000i128) as u64
    }
}

} // verus!
