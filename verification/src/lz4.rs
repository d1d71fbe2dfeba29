//! The LZ4 block codec with the plain size in front.

use crate::le::u32_le;
use lz4_flex::block::{compress_prepend_size, decompress_size_prepended, DecompressError};
use vstd::prelude::*;

verus! {

/// The longest input that the library hands to the block codec for
/// expansion. The codec sums up length octets in 32 bits and adds lengths
/// to positions in its output; up to this limit neither can overflow, on a
/// 32-bit machine either.
pub const MAX_BLOCK_INPUT: usize = 0x80_0000;

/// Whether the block codec takes an input of `len` octets for compression.
/// It sizes its output buffer as eleven tenths of the input length and a
/// little more, and works out the eleven tenths by multiplying first.
pub open spec fn compressible(len: nat) -> bool {
    len * 110 <= usize::MAX
}

/// Whether the block codec takes an input of `len` octets for compression.
pub fn can_compress(len: usize) -> (can: bool)
    ensures
        can == compressible(len as nat),
{
    len <= usize::MAX / 110
}

/// `lz4_flex::block::DecompressError`: why an input did not expand. The
/// library only turns it into text.
#[verifier::external_type_specification]
#[verifier::external_body]
pub struct ExDecompressError(DecompressError);

/// What `decompress_size_prepended` makes of an input: the expanded octets,
/// or nothing where it reports an error.
pub uninterp spec fn expanded(input: Seq<u8>) -> Option<Seq<u8>>;

/// `lz4_flex::block::compress_prepend_size`: the output starts with the
/// length of the input as a little-endian word. The compressed octets after
/// it depend on the machine's word size and are not described; what is said
/// of them is the round trip that the codec documents: the output expands
/// to the input. That needs the length to fit the 32 bits in front.
pub assume_specification[ compress_prepend_size ](input: &[u8]) -> (out: Vec<u8>)
    requires
        compressible(input@.len()),
    ensures
        out@.len() >= 4,
        out@.subrange(0, 4) == u32_le(input@.len() as u32),
        input@.len() <= u32::MAX ==> expanded(out@) == Some(input@),
;

/// `lz4_flex::block::decompress_size_prepended`: the call returns, with the
/// expanded octets or with an error for an input that is no LZ4 block; which
/// of the two, and the octets, is a function of the input, named `expanded`.
pub assume_specification[ decompress_size_prepended ](input: &[u8]) -> (r: Result<
    Vec<u8>,
    DecompressError,
>)
    requires
        input@.len() <= MAX_BLOCK_INPUT,
    ensures
        match r {
            Ok(plain) => expanded(input@) == Some(plain@),
            Err(_) => expanded(input@) is None,
        },
;

} // verus!
