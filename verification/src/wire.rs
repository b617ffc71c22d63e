//! Integers on the wire: fixed width, little endian, two's complement.

use vstd::prelude::*;

verus! {

/// The number whose four little-endian bytes are `bytes`.
pub open spec fn u32_le(bytes: Seq<u8>) -> u32
    recommends
        bytes.len() == 4,
{
    (bytes[0] + 256 * (bytes[1] + 256 * (bytes[2] + 256 * bytes[3]))) as u32
}

/// The four little-endian bytes of `value`.
pub open spec fn u32_bytes(value: u32) -> Seq<u8> {
    seq![
        (value % 256) as u8,
        (value / 256 % 256) as u8,
        (value / 65536 % 256) as u8,
        (value / 16777216) as u8,
    ]
}

/// The number whose eight little-endian bytes are `bytes`.
pub open spec fn u64_le(bytes: Seq<u8>) -> u64
    recommends
        bytes.len() == 8,
{
    (u32_le(bytes.subrange(0, 4)) + 4294967296 * u32_le(bytes.subrange(4, 8))) as u64
}

/// The eight little-endian bytes of `value`.
pub open spec fn u64_bytes(value: u64) -> Seq<u8> {
    u32_bytes((value % 4294967296) as u32) + u32_bytes((value / 4294967296) as u32)
}

/// The signed number with the same 32 bits as `bits`.
pub open spec fn i32_of_bits(bits: u32) -> i32 {
    if bits < 2147483648 {
        bits as i32
    } else {
        (bits - 4294967296) as i32
    }
}

/// The 32 bits of `value` as an unsigned number.
pub open spec fn bits_of_i32(value: i32) -> u32 {
    if value >= 0 {
        value as u32
    } else {
        (value + 4294967296) as u32
    }
}

/// The signed number whose four little-endian bytes are `bytes`.
pub open spec fn i32_le(bytes: Seq<u8>) -> i32
    recommends
        bytes.len() == 4,
{
    i32_of_bits(u32_le(bytes))
}

/// The four little-endian bytes of `value`.
pub open spec fn i32_bytes(value: i32) -> Seq<u8> {
    u32_bytes(bits_of_i32(value))
}

/// Four bytes written for a number read back give that number, and
/// conversely.
pub proof fn lemma_u32_round_trip()
    ensures
        forall|value: u32| #[trigger] u32_bytes(value).len() == 4,
        forall|value: u32| u32_le(#[trigger] u32_bytes(value)) == value,
        forall|bytes: Seq<u8>| bytes.len() == 4 ==> #[trigger] u32_bytes(u32_le(bytes)) == bytes,
{
    assert forall|bytes: Seq<u8>| bytes.len() == 4 implies #[trigger] u32_bytes(u32_le(bytes))
        == bytes by {
        let value = u32_le(bytes);
        let sum = bytes[0] + 256 * (bytes[1] + 256 * (bytes[2] + 256 * bytes[3]));
        assert(value == sum);
        assert(value % 256 == bytes[0]);
        assert(value / 256 % 256 == bytes[1]);
        assert(value / 65536 % 256 == bytes[2]);
        assert(value / 16777216 == bytes[3]);
        assert(u32_bytes(value) =~= bytes);
    }
}

/// Eight bytes written for a number read back give that number, and
/// conversely.
pub proof fn lemma_u64_round_trip()
    ensures
        forall|value: u64| #[trigger] u64_bytes(value).len() == 8,
        forall|value: u64| u64_le(#[trigger] u64_bytes(value)) == value,
        forall|bytes: Seq<u8>| bytes.len() == 8 ==> #[trigger] u64_bytes(u64_le(bytes)) == bytes,
{
    lemma_u32_round_trip();
    assert forall|value: u64| u64_le(#[trigger] u64_bytes(value)) == value by {
        let low = (value % 4294967296) as u32;
        let high = (value / 4294967296) as u32;
        assert(u64_bytes(value).subrange(0, 4) =~= u32_bytes(low));
        assert(u64_bytes(value).subrange(4, 8) =~= u32_bytes(high));
    }
    assert forall|bytes: Seq<u8>| bytes.len() == 8 implies #[trigger] u64_bytes(u64_le(bytes))
        == bytes by {
        let low = u32_le(bytes.subrange(0, 4));
        let high = u32_le(bytes.subrange(4, 8));
        let value = u64_le(bytes);
        assert(value == low + 4294967296 * high);
        assert(value % 4294967296 == low);
        assert(value / 4294967296 == high);
        assert(u32_bytes(low) == bytes.subrange(0, 4));
        assert(u32_bytes(high) == bytes.subrange(4, 8));
        assert(u64_bytes(value) =~= bytes);
    }
}

/// The bits of a signed number read back as signed give that number, and
/// conversely.
pub proof fn lemma_i32_bits_round_trip()
    ensures
        forall|value: i32| i32_of_bits(#[trigger] bits_of_i32(value)) == value,
        forall|bits: u32| bits_of_i32(#[trigger] i32_of_bits(bits)) == bits,
{
}

/// Puts four little-endian bytes together.
pub fn u32_from_le_bytes(b0: u8, b1: u8, b2: u8, b3: u8) -> (value: u32)
    ensures
        value == u32_le(seq![b0, b1, b2, b3]),
{
    let high: u32 = b3 as u32 * 256 + b2 as u32;
    let mid: u32 = high * 256 + b1 as u32;
    mid * 256 + b0 as u32
}

/// Appends the four little-endian bytes of `value` to `out`.
pub fn push_u32(out: &mut Vec<u8>, value: u32)
    ensures
        final(out)@ == old(out)@ + u32_bytes(value),
{
    out.push((value % 256) as u8);
    out.push((value / 256 % 256) as u8);
    out.push((value / 65536 % 256) as u8);
    out.push((value / 16777216) as u8);
    assert(out@ =~= old(out)@ + u32_bytes(value));
}

/// Appends the eight little-endian bytes of `value` to `out`.
pub fn push_u64(out: &mut Vec<u8>, value: u64)
    ensures
        final(out)@ == old(out)@ + u64_bytes(value),
{
    push_u32(out, (value % 4294967296) as u32);
    push_u32(out, (value / 4294967296) as u32);
    assert(out@ =~= old(out)@ + u64_bytes(value));
}

/// The signed number with the bits of `bits`.
pub fn i32_from_bits(bits: u32) -> (value: i32)
    ensures
        value == i32_of_bits(bits),
{
    if bits < 2147483648 {
        bits as i32
    } else {
        (bits as i64 - 4294967296) as i32
    }
}

/// The bits of `value` as an unsigned number.
pub fn i32_to_bits(value: i32) -> (bits: u32)
    ensures
        bits == bits_of_i32(value),
{
    if value >= 0 {
        value as u32
    } else {
        (value as i64 + 4294967296) as u32
    }
}

/// Appends the four little-endian bytes of `value` to `out`.
pub fn push_i32(out: &mut Vec<u8>, value: i32)
    ensures
        final(out)@ == old(out)@ + i32_bytes(value),
{
    push_u32(out, i32_to_bits(value));
}

} // verus!
