//! Big-endian integers, as mathematical byte sequences and as the code that
//! writes them.
use vstd::prelude::*;

verus! {

/// The two big-endian bytes of `value`, which is taken modulo 2^16.
pub open spec fn be_u16(value: int) -> Seq<u8> {
    seq![(value / 0x100 % 0x100) as u8, (value % 0x100) as u8]
}

/// The three big-endian bytes of `value`, which is taken modulo 2^24.
pub open spec fn be_u24(value: int) -> Seq<u8> {
    seq![
        (value / 0x1_0000 % 0x100) as u8,
        (value / 0x100 % 0x100) as u8,
        (value % 0x100) as u8,
    ]
}

/// The four big-endian bytes of `value`, which is taken modulo 2^32.
pub open spec fn be_u32(value: int) -> Seq<u8> {
    seq![
        (value / 0x100_0000 % 0x100) as u8,
        (value / 0x1_0000 % 0x100) as u8,
        (value / 0x100 % 0x100) as u8,
        (value % 0x100) as u8,
    ]
}

/// The eight big-endian bytes of `value`, which is taken modulo 2^64.
pub open spec fn be_u64(value: int) -> Seq<u8> {
    be_u32(value / 0x1_0000_0000) + be_u32(value % 0x1_0000_0000)
}

/// The number that two big-endian bytes of `bytes`, from `at` on, stand for.
pub open spec fn u16_at(bytes: Seq<u8>, at: int) -> int {
    bytes[at] * 0x100 + bytes[at + 1]
}

/// The number that three big-endian bytes of `bytes`, from `at` on, stand for.
pub open spec fn u24_at(bytes: Seq<u8>, at: int) -> int {
    bytes[at] * 0x1_0000 + bytes[at + 1] * 0x100 + bytes[at + 2]
}

/// The number that four big-endian bytes of `bytes`, from `at` on, stand for.
pub open spec fn u32_at(bytes: Seq<u8>, at: int) -> int {
    bytes[at] * 0x100_0000 + u24_at(bytes, at + 1)
}

/// Appends the two big-endian bytes of `value`.
pub fn push_u16_be(out: &mut Vec<u8>, value: u16)
    ensures
        final(out)@ == old(out)@ + be_u16(value as int),
{
    out.push((value / 0x100) as u8);
    out.push((value % 0x100) as u8);
}

/// Appends the low 24 bits of `value`, big-endian.
pub fn push_u24_be(out: &mut Vec<u8>, value: u32)
    ensures
        final(out)@ == old(out)@ + be_u24(value as int),
{
    out.push((value / 0x1_0000 % 0x100) as u8);
    out.push((value / 0x100 % 0x100) as u8);
    out.push((value % 0x100) as u8);
}

/// Appends the four big-endian bytes of `value`.
pub fn push_u32_be(out: &mut Vec<u8>, value: u32)
    ensures
        final(out)@ == old(out)@ + be_u32(value as int),
{
    out.push((value / 0x100_0000) as u8);
    out.push((value / 0x1_0000 % 0x100) as u8);
    out.push((value / 0x100 % 0x100) as u8);
    out.push((value % 0x100) as u8);
}

/// Appends the eight big-endian bytes of `value`.
pub fn push_u64_be(out: &mut Vec<u8>, value: u64)
    ensures
        final(out)@ == old(out)@ + be_u64(value as int),
{
    push_u32_be(out, (value / 0x1_0000_0000) as u32);
    push_u32_be(out, (value % 0x1_0000_0000) as u32);
}

/// What `be_u16` writes, `u16_at` reads back.
pub proof fn be_u16_reads_back(value: int)
    requires
        0 <= value < 0x1_0000,
    ensures
        u16_at(be_u16(value), 0) == value,
{
}

/// What `be_u24` writes, `u24_at` reads back: the low 24 bits of the value.
pub proof fn be_u24_reads_back(value: int)
    requires
        0 <= value,
    ensures
        u24_at(be_u24(value), 0) == value % 0x100_0000,
{
    let high = value / 0x1_0000;
    let middle = value / 0x100;
    assert(middle == high * 0x100 + middle % 0x100);
    assert(value == middle * 0x100 + value % 0x100);
    assert(high == value / 0x100_0000 * 0x100 + high % 0x100);
}

/// What `be_u32` writes, `u32_at` reads back.
pub proof fn be_u32_reads_back(value: int)
    requires
        0 <= value < 0x1_0000_0000,
    ensures
        u32_at(be_u32(value), 0) == value,
{
}

/// The highest byte comes first: each byte counts two hundred and fifty-six times
/// the one behind it.
pub proof fn the_highest_byte_comes_first(value: int)
    ensures
        0 <= value < 0x1_0000 ==> be_u16(value).len() == 2 && be_u16(value)[0] * 256 + be_u16(
            value,
        )[1] == value,
        0 <= value < 0x100_0000 ==> be_u24(value).len() == 3 && (be_u24(value)[0] * 256 + be_u24(
            value,
        )[1]) * 256 + be_u24(value)[2] == value,
        0 <= value < 0x1_0000_0000 ==> be_u32(value).len() == 4 && ((be_u32(value)[0] * 256
            + be_u32(value)[1]) * 256 + be_u32(value)[2]) * 256 + be_u32(value)[3] == value,
        0 <= value < 0x1_0000_0000_0000_0000 ==> be_u64(value).len() == 8 && (((be_u64(value)[0]
            * 256 + be_u64(value)[1]) * 256 + be_u64(value)[2]) * 256 + be_u64(value)[3])
            * 0x1_0000_0000 + (((be_u64(value)[4] * 256 + be_u64(value)[5]) * 256 + be_u64(
            value,
        )[6]) * 256 + be_u64(value)[7]) == value,
{
    if 0 <= value < 0x1_0000_0000_0000_0000 {
        let high = be_u32(value / 0x1_0000_0000);
        let low = be_u32(value % 0x1_0000_0000);
        assert(be_u64(value) =~= high + low);
        be_u32_reads_back(value / 0x1_0000_0000);
        be_u32_reads_back(value % 0x1_0000_0000);
    }
}

/// Numbers are read with the highest byte first.
pub proof fn numbers_are_read_highest_first(bytes: Seq<u8>, at: int)
    ensures
        u16_at(bytes, at) == bytes[at] * 256 + bytes[at + 1],
        u24_at(bytes, at) == (bytes[at] * 256 + bytes[at + 1]) * 256 + bytes[at + 2],
        u32_at(bytes, at) == ((bytes[at] * 256 + bytes[at + 1]) * 256 + bytes[at + 2]) * 256
            + bytes[at + 3],
{
}

} // verus!
