//! Little-endian 32-bit words, as octet sequences.
//!
//! The record codec reads and writes its header words through `byteorder`;
//! the other formats of the library use the plain functions here. Both go
//! by the same two definitions.

use byteorder::{LittleEndian, ReadBytesExt, WriteBytesExt};
use vstd::prelude::*;

verus! {

/// The four octets of `x`, least significant first.
pub open spec fn u32_le(x: u32) -> Seq<u8> {
    seq![
        (x % 0x100) as u8,
        (x / 0x100 % 0x100) as u8,
        (x / 0x1_0000 % 0x100) as u8,
        (x / 0x100_0000) as u8,
    ]
}

/// The word whose little-endian octets are the first four of `b`.
pub open spec fn le_u32(b: Seq<u8>) -> u32
    recommends
        b.len() >= 4,
{
    (b[0] as int + 0x100 * (b[1] as int) + 0x1_0000 * (b[2] as int) + 0x100_0000 * (
    b[3] as int)) as u32
}

/// The word stored in `b` at offset `at`.
pub open spec fn word_at(b: Seq<u8>, at: int) -> u32
    recommends
        0 <= at,
        at + 4 <= b.len(),
{
    le_u32(b.subrange(at, at + 4))
}

/// Reading back the octets of a word gives the word, whatever follows them.
pub proof fn lemma_le_u32_of_u32_le(x: u32, rest: Seq<u8>)
    ensures
        le_u32(u32_le(x) + rest) == x,
        u32_le(x).len() == 4,
{
    let b = u32_le(x) + rest;
    assert(b[0] == u32_le(x)[0]);
    assert(b[1] == u32_le(x)[1]);
    assert(b[2] == u32_le(x)[2]);
    assert(b[3] == u32_le(x)[3]);
}

/// Appends the four octets of `x` to `buf`.
pub fn push_u32_le(buf: &mut Vec<u8>, x: u32)
    ensures
        final(buf)@ == old(buf)@ + u32_le(x),
{
    buf.push((x % 0x100) as u8);
    buf.push((x / 0x100 % 0x100) as u8);
    buf.push((x / 0x1_0000 % 0x100) as u8);
    buf.push((x / 0x100_0000) as u8);
    assert(buf@ =~= old(buf)@ + u32_le(x));
}

/// Reads the word stored at `at`.
pub fn get_u32_le(data: &[u8], at: usize) -> (x: u32)
    requires
        at + 4 <= data@.len(),
    ensures
        x == word_at(data@, at as int),
{
    let b0: u32 = data[at] as u32;
    let b1: u32 = data[at + 1] as u32;
    let b2: u32 = data[at + 2] as u32;
    let b3: u32 = data[at + 3] as u32;
    b0 + 0x100 * b1 + 0x1_0000 * b2 + 0x100_0000 * b3
}

/// `byteorder::WriteBytesExt::write_u32::<LittleEndian>` on a `Vec<u8>`:
/// the vector grows by the four octets of `x`, least significant first.
/// Writing to a vector cannot fail.
#[verifier::external_body]
pub(crate) fn write_u32_le(buf: &mut Vec<u8>, x: u32)
    ensures
        final(buf)@ == old(buf)@ + u32_le(x),
{
    buf.write_u32::<LittleEndian>(x).unwrap();
}

/// `byteorder::ReadBytesExt::read_u32::<LittleEndian>` on a byte slice:
/// the word held by its first four octets. With fewer than four octets the
/// read fails, so those inputs are excluded.
#[verifier::external_body]
pub(crate) fn read_u32_le(data: &[u8]) -> (x: u32)
    requires
        data@.len() >= 4,
    ensures
        x == le_u32(data@),
{
    let mut rest = data;
    rest.read_u32::<LittleEndian>().unwrap()
}

} // verus!
