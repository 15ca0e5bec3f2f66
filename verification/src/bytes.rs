//! Little-endian integers inside a byte string.

use byteorder::{ByteOrder, LittleEndian};
use vstd::prelude::*;
use vstd::slice::slice_subrange;

verus! {

/// The number that a little-endian byte string stands for: the first byte is
/// the least significant one.
pub open spec fn le_value(bytes: Seq<u8>) -> nat
    decreases bytes.len(),
{
    if bytes.len() == 0 {
        0
    } else {
        bytes[0] as nat + 256 * le_value(bytes.drop_first())
    }
}

/// Whether `n` bytes lie in `data` from offset `pos` on.
pub open spec fn in_bounds(data: Seq<u8>, pos: int, n: int) -> bool {
    0 <= pos && 0 <= n && pos + n <= data.len()
}

/// The 32-bit little-endian integer at offset `pos`.
pub open spec fn u32_at(data: Seq<u8>, pos: int) -> u32 {
    le_value(data.subrange(pos, pos + 4)) as u32
}

/// The 64-bit little-endian integer at offset `pos`.
pub open spec fn u64_at(data: Seq<u8>, pos: int) -> u64 {
    le_value(data.subrange(pos, pos + 8)) as u64
}

/// A byte string of `n` bytes stands for a number below `256^n`; stated here
/// for the two widths that the container uses.
pub proof fn lemma_le_value_fits(bytes: Seq<u8>)
    ensures
        bytes.len() == 4 ==> le_value(bytes) <= u32::MAX,
        bytes.len() == 8 ==> le_value(bytes) <= u64::MAX,
{
    reveal_with_fuel(le_value, 9);
}

/// Appending a zero byte at the most significant end leaves the number as it is.
pub proof fn lemma_le_value_push_zero(bytes: Seq<u8>)
    ensures
        le_value(bytes.push(0u8)) == le_value(bytes),
    decreases bytes.len(),
{
    let longer = bytes.push(0u8);
    if bytes.len() == 0 {
        assert(longer.drop_first() =~= Seq::<u8>::empty());
        reveal_with_fuel(le_value, 2);
    } else {
        assert(longer.drop_first() =~= bytes.drop_first().push(0u8));
        lemma_le_value_push_zero(bytes.drop_first());
    }
}

/// A byte string of zero bytes stands for zero.
pub proof fn lemma_le_value_zeros(bytes: Seq<u8>)
    requires
        forall|i: int| 0 <= i < bytes.len() ==> bytes[i] == 0,
    ensures
        le_value(bytes) == 0,
    decreases bytes.len(),
{
    if bytes.len() > 0 {
        lemma_le_value_zeros(bytes.drop_first());
    }
}

/// A range of a window of the data is the range of the data that lies as far
/// behind the window's start.
pub proof fn lemma_window_range(data: Seq<u8>, start: int, end: int, from: int, to: int)
    requires
        0 <= start <= end <= data.len(),
        0 <= from <= to <= end - start,
    ensures
        data.subrange(start, end).subrange(from, to) == data.subrange(start + from, start + to),
{
    assert(data.subrange(start, end).subrange(from, to) =~= data.subrange(
        start + from,
        start + to,
    ));
}

/// `byteorder::LittleEndian::read_u32`: the first four bytes of `buf`, read as
/// a little-endian integer. The outside function panics on a shorter buffer.
#[verifier::external_body]
fn le_read_u32(buf: &[u8]) -> (value: u32)
    requires
        buf@.len() >= 4,
    ensures
        value as nat == le_value(buf@.subrange(0, 4)),
{
    LittleEndian::read_u32(buf)
}

/// `byteorder::LittleEndian::read_u64`: the first eight bytes of `buf`, read as
/// a little-endian integer. The outside function panics on a shorter buffer.
#[verifier::external_body]
fn le_read_u64(buf: &[u8]) -> (value: u64)
    requires
        buf@.len() >= 8,
    ensures
        value as nat == le_value(buf@.subrange(0, 8)),
{
    LittleEndian::read_u64(buf)
}

/// Reads the 32-bit little-endian integer at offset `pos`, or nothing where
/// fewer than four bytes are left there.
pub fn read_u32_at(data: &[u8], pos: usize) -> (value: Option<u32>)
    ensures
        value is Some <==> in_bounds(data@, pos as int, 4),
        value is Some ==> value->Some_0 == u32_at(data@, pos as int),
{
    if data.len() < 4 || pos > data.len() - 4 {
        None
    } else {
        let window = slice_subrange(data, pos, pos + 4);
        proof {
            assert(window@.subrange(0, 4) =~= data@.subrange(pos as int, pos + 4));
            lemma_le_value_fits(data@.subrange(pos as int, pos + 4));
        }
        Some(le_read_u32(window))
    }
}

/// Reads the 64-bit little-endian integer at offset `pos`, or nothing where
/// fewer than eight bytes are left there.
pub fn read_u64_at(data: &[u8], pos: usize) -> (value: Option<u64>)
    ensures
        value is Some <==> in_bounds(data@, pos as int, 8),
        value is Some ==> value->Some_0 == u64_at(data@, pos as int),
{
    if data.len() < 8 || pos > data.len() - 8 {
        None
    } else {
        let window = slice_subrange(data, pos, pos + 8);
        proof {
            assert(window@.subrange(0, 8) =~= data@.subrange(pos as int, pos + 8));
            lemma_le_value_fits(data@.subrange(pos as int, pos + 8));
        }
        Some(le_read_u64(window))
    }
}

} // verus!
