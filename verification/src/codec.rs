//! Canonical binary serialization of the store's key types.
//!
//! Internal ids and the numeric parts of external identifiers are written
//! big-endian, so that the byte-wise lexicographic order that an ordered
//! key-value store applies to keys coincides with the numeric order.

use vstd::prelude::*;

verus! {

/// The eight bytes of `x`, most significant first.
pub open spec fn u64_be_bytes(x: u64) -> Seq<u8> {
    seq![
        (x >> 56) as u8,
        (x >> 48) as u8,
        (x >> 40) as u8,
        (x >> 32) as u8,
        (x >> 24) as u8,
        (x >> 16) as u8,
        (x >> 8) as u8,
        x as u8,
    ]
}

/// The value read back from eight big-endian bytes.
pub open spec fn u64_from_be_bytes(b: Seq<u8>) -> u64
    recommends
        b.len() == 8,
{
    (((b[0] as u64) << 56) | ((b[1] as u64) << 48) | ((b[2] as u64) << 40) | ((b[3] as u64) << 32)
        | ((b[4] as u64) << 24) | ((b[5] as u64) << 16) | ((b[6] as u64) << 8) | (b[7] as u64))
}

/// Decoding inverts encoding for every value.
pub proof fn lemma_u64_codec_roundtrip(x: u64)
    ensures
        u64_from_be_bytes(u64_be_bytes(x)) == x,
{
    let b = u64_be_bytes(x);
    assert(((((x >> 56) as u8) as u64) << 56) | ((((x >> 48) as u8) as u64) << 48) | ((((x
        >> 40) as u8) as u64) << 40) | ((((x >> 32) as u8) as u64) << 32) | ((((x
        >> 24) as u8) as u64) << 24) | ((((x >> 16) as u8) as u64) << 16) | ((((x
        >> 8) as u8) as u64) << 8) | ((x as u8) as u64) == x) by (bit_vector);
}

/// Two distinct values never share an encoding.
pub proof fn lemma_u64_codec_injective(x: u64, y: u64)
    requires
        u64_be_bytes(x) == u64_be_bytes(y),
    ensures
        x == y,
{
    lemma_u64_codec_roundtrip(x);
    lemma_u64_codec_roundtrip(y);
}

/// Encodes an internal id as its eight-byte big-endian key.
pub fn encode_u64(x: u64) -> (r: Vec<u8>)
    ensures
        r@ == u64_be_bytes(x),
        r@.len() == 8,
{
    let mut v: Vec<u8> = Vec::new();
    v.push((x >> 56) as u8);
    v.push((x >> 48) as u8);
    v.push((x >> 40) as u8);
    v.push((x >> 32) as u8);
    v.push((x >> 24) as u8);
    v.push((x >> 16) as u8);
    v.push((x >> 8) as u8);
    v.push(x as u8);
    proof {
        assert(v@ =~= u64_be_bytes(x));
    }
    v
}

/// Reads an internal id back from its key; fails on any other length.
pub fn decode_u64(b: &[u8]) -> (r: Option<u64>)
    ensures
        b@.len() == 8 ==> r == Some(u64_from_be_bytes(b@)),
        b@.len() != 8 ==> r is None,
{
    if b.len() != 8 {
        return None;
    }
    let x: u64 = (((b[0] as u64) << 56) | ((b[1] as u64) << 48) | ((b[2] as u64) << 40) | ((b[3]
        as u64) << 32) | ((b[4] as u64) << 24) | ((b[5] as u64) << 16) | ((b[6] as u64) << 8) | (
    b[7] as u64));
    Some(x)
}

/// The sixteen bytes of `x`, most significant first.
pub open spec fn u128_be_bytes(x: u128) -> Seq<u8> {
    seq![
        (x >> 120) as u8,
        (x >> 112) as u8,
        (x >> 104) as u8,
        (x >> 96) as u8,
        (x >> 88) as u8,
        (x >> 80) as u8,
        (x >> 72) as u8,
        (x >> 64) as u8,
        (x >> 56) as u8,
        (x >> 48) as u8,
        (x >> 40) as u8,
        (x >> 32) as u8,
        (x >> 24) as u8,
        (x >> 16) as u8,
        (x >> 8) as u8,
        x as u8,
    ]
}

/// The value read back from sixteen big-endian bytes.
pub open spec fn u128_from_be_bytes(b: Seq<u8>) -> u128
    recommends
        b.len() == 16,
{
    (((b[0] as u128) << 120) | ((b[1] as u128) << 112) | ((b[2] as u128) << 104) | ((b[3]
        as u128) << 96) | ((b[4] as u128) << 88) | ((b[5] as u128) << 80) | ((b[6] as u128) << 72)
        | ((b[7] as u128) << 64) | ((b[8] as u128) << 56) | ((b[9] as u128) << 48) | ((b[10]
        as u128) << 40) | ((b[11] as u128) << 32) | ((b[12] as u128) << 24) | ((b[13]
        as u128) << 16) | ((b[14] as u128) << 8) | (b[15] as u128))
}

/// Decoding inverts encoding for every value.
pub proof fn lemma_u128_codec_roundtrip(x: u128)
    ensures
        u128_from_be_bytes(u128_be_bytes(x)) == x,
{
    assert(((((x >> 120) as u8) as u128) << 120) | ((((x >> 112) as u8) as u128) << 112) | ((((x
        >> 104) as u8) as u128) << 104) | ((((x >> 96) as u8) as u128) << 96) | ((((x
        >> 88) as u8) as u128) << 88) | ((((x >> 80) as u8) as u128) << 80) | ((((x
        >> 72) as u8) as u128) << 72) | ((((x >> 64) as u8) as u128) << 64) | ((((x
        >> 56) as u8) as u128) << 56) | ((((x >> 48) as u8) as u128) << 48) | ((((x
        >> 40) as u8) as u128) << 40) | ((((x >> 32) as u8) as u128) << 32) | ((((x
        >> 24) as u8) as u128) << 24) | ((((x >> 16) as u8) as u128) << 16) | ((((x
        >> 8) as u8) as u128) << 8) | ((x as u8) as u128) == x) by (bit_vector);
}

/// Encodes an external identifier's numeric half as sixteen bytes.
pub fn encode_u128(x: u128) -> (r: Vec<u8>)
    ensures
        r@ == u128_be_bytes(x),
        r@.len() == 16,
{
    let mut v: Vec<u8> = Vec::new();
    v.push((x >> 120) as u8);
    v.push((x >> 112) as u8);
    v.push((x >> 104) as u8);
    v.push((x >> 96) as u8);
    v.push((x >> 88) as u8);
    v.push((x >> 80) as u8);
    v.push((x >> 72) as u8);
    v.push((x >> 64) as u8);
    v.push((x >> 56) as u8);
    v.push((x >> 48) as u8);
    v.push((x >> 40) as u8);
    v.push((x >> 32) as u8);
    v.push((x >> 24) as u8);
    v.push((x >> 16) as u8);
    v.push((x >> 8) as u8);
    v.push(x as u8);
    proof {
        assert(v@ =~= u128_be_bytes(x));
    }
    v
}

/// Reads a sixteen-byte big-endian value back; fails on any other length.
pub fn decode_u128(b: &[u8]) -> (r: Option<u128>)
    ensures
        b@.len() == 16 ==> r == Some(u128_from_be_bytes(b@)),
        b@.len() != 16 ==> r is None,
{
    if b.len() != 16 {
        return None;
    }
    let x: u128 = (((b[0] as u128) << 120) | ((b[1] as u128) << 112) | ((b[2] as u128) << 104) | ((
    b[3] as u128) << 96) | ((b[4] as u128) << 88) | ((b[5] as u128) << 80) | ((b[6]
        as u128) << 72) | ((b[7] as u128) << 64) | ((b[8] as u128) << 56) | ((b[9] as u128) << 48)
        | ((b[10] as u128) << 40) | ((b[11] as u128) << 32) | ((b[12] as u128) << 24) | ((b[13]
        as u128) << 16) | ((b[14] as u128) << 8) | (b[15] as u128));
    Some(x)
}

/// The four bytes of a signed offset, written through its bit pattern.
pub open spec fn i32_be_bytes(x: i32) -> Seq<u8> {
    seq![((x as u32) >> 24) as u8, ((x as u32) >> 16) as u8, ((x as u32) >> 8) as u8, (x as u32) as u8]
}

/// The signed offset read back from four big-endian bytes.
pub open spec fn i32_from_be_bytes(b: Seq<u8>) -> i32
    recommends
        b.len() == 4,
{
    ((((b[0] as u32) << 24) | ((b[1] as u32) << 16) | ((b[2] as u32) << 8) | (b[3] as u32)) as i32)
}

/// Decoding inverts encoding for every value.
pub proof fn lemma_i32_codec_roundtrip(x: i32)
    ensures
        i32_from_be_bytes(i32_be_bytes(x)) == x,
{
    assert(((((((x as u32) >> 24) as u8) as u32) << 24) | ((((x as u32) >> 16) as u8) as u32) << 16
        | ((((x as u32) >> 8) as u8) as u32) << 8 | (((x as u32) as u8) as u32)) as i32 == x)
        by (bit_vector);
}

/// Encodes a signed offset as four bytes.
pub fn encode_i32(x: i32) -> (r: Vec<u8>)
    ensures
        r@ == i32_be_bytes(x),
        r@.len() == 4,
{
    let u: u32 = x as u32;
    let mut v: Vec<u8> = Vec::new();
    v.push((u >> 24) as u8);
    v.push((u >> 16) as u8);
    v.push((u >> 8) as u8);
    v.push(u as u8);
    proof {
        assert(v@ =~= i32_be_bytes(x));
    }
    v
}

/// Reads a signed offset back from four bytes; fails on any other length.
pub fn decode_i32(b: &[u8]) -> (r: Option<i32>)
    ensures
        b@.len() == 4 ==> r == Some(i32_from_be_bytes(b@)),
        b@.len() != 4 ==> r is None,
{
    if b.len() != 4 {
        return None;
    }
    let u: u32 = (((b[0] as u32) << 24) | ((b[1] as u32) << 16) | ((b[2] as u32) << 8) | (b[3]
        as u32));
    Some(u as i32)
}

/// Reads the eight big-endian bytes at `off` as a value.
pub fn read_u64_at(b: &Vec<u8>, off: usize) -> (r: u64)
    requires
        off + 8 <= b@.len(),
    ensures
        r == u64_from_be_bytes(b@.subrange(off as int, off + 8)),
{
    let n = b.len();
    proof {
        assert(off + 8 <= n);
    }
    let r: u64 = (((b[off] as u64) << 56) | ((b[off + 1] as u64) << 48) | ((b[off + 2]
        as u64) << 40) | ((b[off + 3] as u64) << 32) | ((b[off + 4] as u64) << 24) | ((b[off + 5]
        as u64) << 16) | ((b[off + 6] as u64) << 8) | (b[off + 7] as u64));
    proof {
        let s = b@.subrange(off as int, off + 8);
        assert(s[0] == b@[off as int]);
        assert(s[1] == b@[off + 1]);
        assert(s[2] == b@[off + 2]);
        assert(s[3] == b@[off + 3]);
        assert(s[4] == b@[off + 4]);
        assert(s[5] == b@[off + 5]);
        assert(s[6] == b@[off + 6]);
        assert(s[7] == b@[off + 7]);
    }
    r
}

/// Reads the sixteen big-endian bytes at `off` as a value.
pub fn read_u128_at(b: &Vec<u8>, off: usize) -> (r: u128)
    requires
        off + 16 <= b@.len(),
    ensures
        r == u128_from_be_bytes(b@.subrange(off as int, off + 16)),
{
    let n = b.len();
    proof {
        assert(off + 16 <= n);
    }
    let r: u128 = (((b[off] as u128) << 120) | ((b[off + 1] as u128) << 112) | ((b[off + 2]
        as u128) << 104) | ((b[off + 3] as u128) << 96) | ((b[off + 4] as u128) << 88) | ((b[off
        + 5] as u128) << 80) | ((b[off + 6] as u128) << 72) | ((b[off + 7] as u128) << 64) | ((
    b[off + 8] as u128) << 56) | ((b[off + 9] as u128) << 48) | ((b[off + 10] as u128) << 40) | ((
    b[off + 11] as u128) << 32) | ((b[off + 12] as u128) << 24) | ((b[off + 13] as u128) << 16) | ((
    b[off + 14] as u128) << 8) | (b[off + 15] as u128));
    proof {
        let s = b@.subrange(off as int, off + 16);
        assert forall|i: int| 0 <= i < 16 implies s[i] == b@[off + i] by {}
        assert(s[0] == b@[off as int]);
        assert(s[1] == b@[off + 1]);
        assert(s[2] == b@[off + 2]);
        assert(s[3] == b@[off + 3]);
        assert(s[4] == b@[off + 4]);
        assert(s[5] == b@[off + 5]);
        assert(s[6] == b@[off + 6]);
        assert(s[7] == b@[off + 7]);
        assert(s[8] == b@[off + 8]);
        assert(s[9] == b@[off + 9]);
        assert(s[10] == b@[off + 10]);
        assert(s[11] == b@[off + 11]);
        assert(s[12] == b@[off + 12]);
        assert(s[13] == b@[off + 13]);
        assert(s[14] == b@[off + 14]);
        assert(s[15] == b@[off + 15]);
    }
    r
}

/// Reads the four big-endian bytes at `off` as a signed offset.
pub fn read_i32_at(b: &Vec<u8>, off: usize) -> (r: i32)
    requires
        off + 4 <= b@.len(),
    ensures
        r == i32_from_be_bytes(b@.subrange(off as int, off + 4)),
{
    let n = b.len();
    proof {
        assert(off + 4 <= n);
    }
    let u: u32 = (((b[off] as u32) << 24) | ((b[off + 1] as u32) << 16) | ((b[off + 2]
        as u32) << 8) | (b[off + 3] as u32));
    proof {
        let s = b@.subrange(off as int, off + 4);
        assert(s[0] == b@[off as int]);
        assert(s[1] == b@[off + 1]);
        assert(s[2] == b@[off + 2]);
        assert(s[3] == b@[off + 3]);
    }
    u as i32
}

} // verus!
