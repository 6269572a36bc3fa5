//! Fixed-width little-endian integers, the building blocks of every payload.

use vstd::prelude::*;
use vstd::slice::slice_subrange;

verus! {

/// The two bytes of `value`, least significant first.
pub open spec fn u16_le(value: u16) -> Seq<u8> {
    seq![(value % 256) as u8, (value / 256) as u8]
}

/// The number that two little-endian bytes stand for.
pub open spec fn u16_from_le(bytes: Seq<u8>) -> u16
    recommends
        bytes.len() == 2,
{
    (bytes[0] as int + 256 * bytes[1] as int) as u16
}

/// The four bytes of `value`, least significant first.
pub open spec fn u32_le(value: u32) -> Seq<u8> {
    seq![
        (value % 256) as u8,
        (value / 256 % 256) as u8,
        (value / 65536 % 256) as u8,
        (value / 16777216) as u8,
    ]
}

/// The number that four little-endian bytes stand for.
pub open spec fn u32_from_le(bytes: Seq<u8>) -> u32
    recommends
        bytes.len() == 4,
{
    (bytes[0] as int + 256 * bytes[1] as int + 65536 * bytes[2] as int + 16777216
        * bytes[3] as int) as u32
}

/// The eight bytes of `value`, least significant first: its low half, then
/// its high half.
pub open spec fn u64_le(value: u64) -> Seq<u8> {
    u32_le((value % 4294967296) as u32) + u32_le((value / 4294967296) as u32)
}

/// The number that eight little-endian bytes stand for.
pub open spec fn u64_from_le(bytes: Seq<u8>) -> u64
    recommends
        bytes.len() == 8,
{
    (u32_from_le(bytes.subrange(0, 4)) as int + 4294967296 * u32_from_le(
        bytes.subrange(4, 8),
    ) as int) as u64
}

/// Reading back what was written gives the number again.
pub proof fn lemma_u16_value_roundtrip(value: u16)
    ensures
        u16_le(value).len() == 2,
        u16_from_le(u16_le(value)) == value,
{
}

/// Writing what was read gives the same two bytes again.
pub proof fn lemma_u16_bytes_roundtrip(bytes: Seq<u8>)
    requires
        bytes.len() == 2,
    ensures
        u16_le(u16_from_le(bytes)) == bytes,
{
    assert(u16_le(u16_from_le(bytes)) =~= bytes);
}

/// Reading back what was written gives the number again.
pub proof fn lemma_u32_value_roundtrip(value: u32)
    ensures
        u32_le(value).len() == 4,
        u32_from_le(u32_le(value)) == value,
{
}

/// The digits of a number written to base 256 are found again by dividing.
proof fn lemma_base_256_digits(b0: int, b1: int, b2: int, b3: int)
    requires
        0 <= b0 < 256,
        0 <= b1 < 256,
        0 <= b2 < 256,
        0 <= b3 < 256,
    ensures
        ({
            let value = b0 + 256 * b1 + 65536 * b2 + 16777216 * b3;
            &&& 0 <= value <= u32::MAX
            &&& value % 256 == b0
            &&& value / 256 % 256 == b1
            &&& value / 65536 % 256 == b2
            &&& value / 16777216 == b3
        }),
{
    let value = b0 + 256 * b1 + 65536 * b2 + 16777216 * b3;
    assert(value == b0 + 256 * (b1 + 256 * (b2 + 256 * b3)));
    assert(value / 256 == b1 + 256 * (b2 + 256 * b3));
    assert(value == (b0 + 256 * b1) + 65536 * (b2 + 256 * b3));
    assert(value / 65536 == b2 + 256 * b3);
    assert(value == (b0 + 256 * b1 + 65536 * b2) + 16777216 * b3);
    assert(value / 16777216 == b3);
}

/// The halves of a 64-bit number are found again by dividing.
proof fn lemma_base_2_32_digits(low: int, high: int)
    requires
        0 <= low <= u32::MAX,
        0 <= high <= u32::MAX,
    ensures
        ({
            let value = low + 4294967296 * high;
            &&& 0 <= value <= u64::MAX
            &&& value % 4294967296 == low
            &&& value / 4294967296 == high
        }),
{
}

/// Writing what was read gives the same four bytes again.
pub proof fn lemma_u32_bytes_roundtrip(bytes: Seq<u8>)
    requires
        bytes.len() == 4,
    ensures
        u32_le(u32_from_le(bytes)) == bytes,
{
    lemma_base_256_digits(bytes[0] as int, bytes[1] as int, bytes[2] as int, bytes[3] as int);
    assert(u32_le(u32_from_le(bytes)) =~= bytes);
}

/// Reading back what was written gives the number again.
pub proof fn lemma_u64_value_roundtrip(value: u64)
    ensures
        u64_le(value).len() == 8,
        u64_from_le(u64_le(value)) == value,
{
    let low = (value % 4294967296) as u32;
    let high = (value / 4294967296) as u32;
    lemma_u32_value_roundtrip(low);
    lemma_u32_value_roundtrip(high);
    assert(u64_le(value).subrange(0, 4) =~= u32_le(low));
    assert(u64_le(value).subrange(4, 8) =~= u32_le(high));
}

/// Writing what was read gives the same eight bytes again.
pub proof fn lemma_u64_bytes_roundtrip(bytes: Seq<u8>)
    requires
        bytes.len() == 8,
    ensures
        u64_le(u64_from_le(bytes)) == bytes,
{
    let low = u32_from_le(bytes.subrange(0, 4));
    let high = u32_from_le(bytes.subrange(4, 8));
    lemma_base_2_32_digits(low as int, high as int);
    assert(u64_le(u64_from_le(bytes)) == u32_le(low) + u32_le(high));
    lemma_u32_bytes_roundtrip(bytes.subrange(0, 4));
    lemma_u32_bytes_roundtrip(bytes.subrange(4, 8));
    assert(bytes.subrange(0, 4) + bytes.subrange(4, 8) =~= bytes);
}

/// Appends `bytes` to `out` as they are.
pub fn put_bytes(out: &mut Vec<u8>, bytes: &[u8])
    ensures
        final(out)@ == old(out)@ + bytes@,
{
    out.extend_from_slice(bytes);
    assert(out@ =~= old(out)@ + bytes@);
}

/// Appends `value` to `out` as two little-endian bytes.
pub fn put_u16(out: &mut Vec<u8>, value: u16)
    ensures
        final(out)@ == old(out)@ + u16_le(value),
{
    out.push((value % 256) as u8);
    out.push((value / 256) as u8);
    assert(out@ =~= old(out)@ + u16_le(value));
}

/// Appends `value` to `out` as four little-endian bytes.
pub fn put_u32(out: &mut Vec<u8>, value: u32)
    ensures
        final(out)@ == old(out)@ + u32_le(value),
{
    out.push((value % 256) as u8);
    out.push((value / 256 % 256) as u8);
    out.push((value / 65536 % 256) as u8);
    out.push((value / 16777216) as u8);
    assert(out@ =~= old(out)@ + u32_le(value));
}

/// Appends `value` to `out` as eight little-endian bytes.
pub fn put_u64(out: &mut Vec<u8>, value: u64)
    ensures
        final(out)@ == old(out)@ + u64_le(value),
{
    put_u32(out, (value % 4294967296) as u32);
    put_u32(out, (value / 4294967296) as u32);
    assert(out@ =~= old(out)@ + u64_le(value));
}

/// Reads the two little-endian bytes at the front of `input`, if it has as
/// many.
pub fn get_u16(input: &[u8]) -> (value: Option<u16>)
    ensures
        input@.len() >= 2 ==> value == Some(u16_from_le(input@.subrange(0, 2))),
        input@.len() < 2 ==> value is None,
{
    if input.len() < 2 {
        return None;
    }
    let low: u16 = input[0] as u16;
    let high: u16 = input[1] as u16;
    Some(low + 256 * high)
}

/// Reads the four little-endian bytes at the front of `input`, if it has as
/// many.
pub fn get_u32(input: &[u8]) -> (value: Option<u32>)
    ensures
        input@.len() >= 4 ==> value == Some(u32_from_le(input@.subrange(0, 4))),
        input@.len() < 4 ==> value is None,
{
    if input.len() < 4 {
        return None;
    }
    let b0: u32 = input[0] as u32;
    let b1: u32 = input[1] as u32;
    let b2: u32 = input[2] as u32;
    let b3: u32 = input[3] as u32;
    Some(b0 + 256 * b1 + 65536 * b2 + 16777216 * b3)
}

/// Reads the eight little-endian bytes at the front of `input`, if it has as
/// many.
pub fn get_u64(input: &[u8]) -> (value: Option<u64>)
    ensures
        input@.len() >= 8 ==> value == Some(u64_from_le(input@.subrange(0, 8))),
        input@.len() < 8 ==> value is None,
{
    if input.len() < 8 {
        return None;
    }
    let low: u64 = get_u32(input).unwrap() as u64;
    let high: u64 = get_u32(slice_subrange(input, 4, 8)).unwrap() as u64;
    proof {
        let whole = input@.subrange(0, 8);
        assert(whole.subrange(0, 4) =~= input@.subrange(0, 4));
        assert(whole.subrange(4, 8) =~= input@.subrange(4, 8).subrange(0, 4));
    }
    Some(low + 4294967296 * high)
}

/// The bytes of `input` from position `from` on.
pub fn skip(input: &[u8], from: usize) -> (rest: &[u8])
    ensures
        from <= input@.len() ==> rest@ == input@.skip(from as int),
        from > input@.len() ==> rest@ == Seq::<u8>::empty(),
{
    if from <= input.len() {
        let rest = slice_subrange(input, from, input.len());
        assert(rest@ =~= input@.skip(from as int));
        rest
    } else {
        let rest = slice_subrange(input, 0, 0);
        assert(rest@ =~= Seq::<u8>::empty());
        rest
    }
}

} // verus!
