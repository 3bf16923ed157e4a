//! Big-endian byte forms of the fixed-width integers that appear inside
//! frames: `u16` ports and lengths, `i64` ping payloads and timestamps,
//! and the 128-bit RakNet magic constant.
use vstd::prelude::*;

verus! {

/// The two big-endian bytes of `v`.
pub open spec fn be16(v: u16) -> Seq<u8> {
    seq![(v / 0x100) as u8, (v % 0x100) as u8]
}

/// The value carried by two big-endian bytes.
pub open spec fn be16_val(s: Seq<u8>) -> u16
    recommends
        s.len() == 2,
{
    (s[0] * 0x100 + s[1]) as u16
}

/// The eight big-endian bytes of `v`.
pub open spec fn be64(v: u64) -> Seq<u8> {
    seq![
        (v / 0x100_0000_0000_0000 % 0x100) as u8,
        (v / 0x1_0000_0000_0000 % 0x100) as u8,
        (v / 0x100_0000_0000 % 0x100) as u8,
        (v / 0x1_0000_0000 % 0x100) as u8,
        (v / 0x100_0000 % 0x100) as u8,
        (v / 0x1_0000 % 0x100) as u8,
        (v / 0x100 % 0x100) as u8,
        (v % 0x100) as u8,
    ]
}

/// The value carried by eight big-endian bytes.
pub open spec fn be64_val(s: Seq<u8>) -> u64
    recommends
        s.len() == 8,
{
    (s[0] * 0x100_0000_0000_0000 + s[1] * 0x1_0000_0000_0000 + s[2] * 0x100_0000_0000 + s[3]
        * 0x1_0000_0000 + s[4] * 0x100_0000 + s[5] * 0x1_0000 + s[6] * 0x100 + s[7]) as u64
}

/// The sixteen big-endian bytes of `v`.
pub open spec fn be128(v: u128) -> Seq<u8> {
    seq![
        (v / 0x100_0000_0000_0000_0000_0000_0000_0000 % 0x100) as u8,
        (v / 0x1_0000_0000_0000_0000_0000_0000_0000 % 0x100) as u8,
        (v / 0x100_0000_0000_0000_0000_0000_0000 % 0x100) as u8,
        (v / 0x1_0000_0000_0000_0000_0000_0000 % 0x100) as u8,
        (v / 0x100_0000_0000_0000_0000_0000 % 0x100) as u8,
        (v / 0x1_0000_0000_0000_0000_0000 % 0x100) as u8,
        (v / 0x100_0000_0000_0000_0000 % 0x100) as u8,
        (v / 0x1_0000_0000_0000_0000 % 0x100) as u8,
        (v / 0x100_0000_0000_0000 % 0x100) as u8,
        (v / 0x1_0000_0000_0000 % 0x100) as u8,
        (v / 0x100_0000_0000 % 0x100) as u8,
        (v / 0x1_0000_0000 % 0x100) as u8,
        (v / 0x100_0000 % 0x100) as u8,
        (v / 0x1_0000 % 0x100) as u8,
        (v / 0x100 % 0x100) as u8,
        (v % 0x100) as u8,
    ]
}

/// The value carried by sixteen big-endian bytes.
pub open spec fn be128_val(s: Seq<u8>) -> u128
    recommends
        s.len() == 16,
{
    (s[0] * 0x100_0000_0000_0000_0000_0000_0000_0000 + s[1] * 0x1_0000_0000_0000_0000_0000_0000_0000
        + s[2] * 0x100_0000_0000_0000_0000_0000_0000 + s[3] * 0x1_0000_0000_0000_0000_0000_0000 + s[4]
        * 0x100_0000_0000_0000_0000_0000 + s[5] * 0x1_0000_0000_0000_0000_0000 + s[6]
        * 0x100_0000_0000_0000_0000 + s[7] * 0x1_0000_0000_0000_0000 + s[8] * 0x100_0000_0000_0000
        + s[9] * 0x1_0000_0000_0000 + s[10] * 0x100_0000_0000 + s[11] * 0x1_0000_0000 + s[12]
        * 0x100_0000 + s[13] * 0x1_0000 + s[14] * 0x100 + s[15]) as u128
}

/// Reading back the two big-endian bytes of a value yields the value.
pub proof fn lemma_be16_round(v: u16)
    ensures
        be16_val(be16(v)) == v,
{
    vstd::arithmetic::div_mod::lemma_fundamental_div_mod(v as int, 0x100);
}

/// Reading back the eight big-endian bytes of a value yields the value.
pub proof fn lemma_be64_round(v: u64)
    ensures
        be64_val(be64(v)) == v,
{
    let x = v as int;
    vstd::arithmetic::div_mod::lemma_small_mod(v as nat, 0x1_0000_0000_0000_0000);
    vstd::arithmetic::div_mod::lemma_breakdown(x, 0x100_0000_0000_0000, 0x100);
    vstd::arithmetic::div_mod::lemma_breakdown(x, 0x1_0000_0000_0000, 0x100);
    vstd::arithmetic::div_mod::lemma_breakdown(x, 0x100_0000_0000, 0x100);
    vstd::arithmetic::div_mod::lemma_breakdown(x, 0x1_0000_0000, 0x100);
    vstd::arithmetic::div_mod::lemma_breakdown(x, 0x100_0000, 0x100);
    vstd::arithmetic::div_mod::lemma_breakdown(x, 0x1_0000, 0x100);
    vstd::arithmetic::div_mod::lemma_breakdown(x, 0x100, 0x100);
}

/// Append the two big-endian bytes of `v`.
pub fn push_be16(out: &mut Vec<u8>, v: u16)
    ensures
        final(out)@ == old(out)@ + be16(v),
{
    out.push((v / 0x100) as u8);
    out.push((v % 0x100) as u8);
    proof {
        assert(final(out)@ =~= old(out)@ + be16(v));
    }
}

/// Append the eight big-endian bytes of `v`.
pub fn push_be64(out: &mut Vec<u8>, v: u64)
    ensures
        final(out)@ == old(out)@ + be64(v),
{
    out.push((v / 0x100_0000_0000_0000 % 0x100) as u8);
    out.push((v / 0x1_0000_0000_0000 % 0x100) as u8);
    out.push((v / 0x100_0000_0000 % 0x100) as u8);
    out.push((v / 0x1_0000_0000 % 0x100) as u8);
    out.push((v / 0x100_0000 % 0x100) as u8);
    out.push((v / 0x1_0000 % 0x100) as u8);
    out.push((v / 0x100 % 0x100) as u8);
    out.push((v % 0x100) as u8);
    proof {
        assert(final(out)@ =~= old(out)@ + be64(v));
    }
}

/// Append the sixteen big-endian bytes of `v`.
pub fn push_be128(out: &mut Vec<u8>, v: u128)
    ensures
        final(out)@ == old(out)@ + be128(v),
{
    out.push((v / 0x100_0000_0000_0000_0000_0000_0000_0000 % 0x100) as u8);
    out.push((v / 0x1_0000_0000_0000_0000_0000_0000_0000 % 0x100) as u8);
    out.push((v / 0x100_0000_0000_0000_0000_0000_0000 % 0x100) as u8);
    out.push((v / 0x1_0000_0000_0000_0000_0000_0000 % 0x100) as u8);
    out.push((v / 0x100_0000_0000_0000_0000_0000 % 0x100) as u8);
    out.push((v / 0x1_0000_0000_0000_0000_0000 % 0x100) as u8);
    out.push((v / 0x100_0000_0000_0000_0000 % 0x100) as u8);
    out.push((v / 0x1_0000_0000_0000_0000 % 0x100) as u8);
    out.push((v / 0x100_0000_0000_0000 % 0x100) as u8);
    out.push((v / 0x1_0000_0000_0000 % 0x100) as u8);
    out.push((v / 0x100_0000_0000 % 0x100) as u8);
    out.push((v / 0x1_0000_0000 % 0x100) as u8);
    out.push((v / 0x100_0000 % 0x100) as u8);
    out.push((v / 0x1_0000 % 0x100) as u8);
    out.push((v / 0x100 % 0x100) as u8);
    out.push((v % 0x100) as u8);
    proof {
        assert(final(out)@ =~= old(out)@ + be128(v));
    }
}

/// Read the `u16` carried by the two big-endian bytes at `pos`.
pub fn read_be16(bytes: &[u8], pos: usize) -> (r: u16)
    requires
        pos + 2 <= bytes@.len(),
    ensures
        r == be16_val(bytes@.subrange(pos as int, pos as int + 2)),
{
    let n = bytes.len();
    let b0 = *vstd::slice::slice_index_get(bytes, pos);
    let b1 = *vstd::slice::slice_index_get(bytes, pos + 1);
    (b0 as u16) * 0x100 + (b1 as u16)
}

/// Read the `u64` carried by the eight big-endian bytes at `pos`.
pub fn read_be64(bytes: &[u8], pos: usize) -> (r: u64)
    requires
        pos + 8 <= bytes@.len(),
    ensures
        r == be64_val(bytes@.subrange(pos as int, pos as int + 8)),
{
    let n = bytes.len();
    let b0 = *vstd::slice::slice_index_get(bytes, pos);
    let b1 = *vstd::slice::slice_index_get(bytes, pos + 1);
    let b2 = *vstd::slice::slice_index_get(bytes, pos + 2);
    let b3 = *vstd::slice::slice_index_get(bytes, pos + 3);
    let b4 = *vstd::slice::slice_index_get(bytes, pos + 4);
    let b5 = *vstd::slice::slice_index_get(bytes, pos + 5);
    let b6 = *vstd::slice::slice_index_get(bytes, pos + 6);
    let b7 = *vstd::slice::slice_index_get(bytes, pos + 7);
    (b0 as u64) * 0x100_0000_0000_0000 + (b1 as u64) * 0x1_0000_0000_0000 + (b2 as u64)
        * 0x100_0000_0000 + (b3 as u64) * 0x1_0000_0000 + (b4 as u64) * 0x100_0000 + (b5 as u64)
        * 0x1_0000 + (b6 as u64) * 0x100 + (b7 as u64)
}

/// Read the `u128` carried by the sixteen big-endian bytes at `pos`.
pub fn read_be128(bytes: &[u8], pos: usize) -> (r: u128)
    requires
        pos + 16 <= bytes@.len(),
    ensures
        r == be128_val(bytes@.subrange(pos as int, pos as int + 16)),
{
    let n = bytes.len();
    let hi = read_be64(bytes, pos);
    let lo = read_be64(bytes, pos + 8);
    let r = (hi as u128) * 0x1_0000_0000_0000_0000 + (lo as u128);
    proof {
        let s = bytes@.subrange(pos as int, pos as int + 16);
        let a = bytes@.subrange(pos as int, pos as int + 8);
        let b = bytes@.subrange(pos as int + 8, pos as int + 16);
        assert forall|i: int| 0 <= i < 8 implies a[i] == s[i] && b[i] == s[i + 8] by {}
        assert(r == be128_val(s));
    }
    r
}

} // verus!
