//! Laws of the record codec.

use crate::le::{le_u32, lemma_le_u32_of_u32_le, u32_le};
use crate::wire::{
    announced_size, decode_failure, encoding, front_record, pop_front, size_opcode, well_formed,
    word_opcode, word_size, Record, HEADER_SIZE, MAX_MESSAGE_SIZE,
};
use vstd::prelude::*;

verus! {

/// A record whose total size the 16-bit size field can hold.
pub open spec fn representable(r: Record) -> bool {
    HEADER_SIZE + r.payload.len() < 0x1_0000
}

/// A header word gives back the size and opcode it was made from, as long as
/// the size fits its 16 bits.
pub proof fn lemma_size_opcode_parts(size: nat, opcode: u16)
    requires
        size < 0x1_0000,
    ensures
        word_size(size_opcode(size, opcode)) == size,
        word_opcode(size_opcode(size, opcode)) == opcode,
{
}

/// What the front of an encoding followed by anything looks like to the
/// decoder.
pub proof fn lemma_encoding_front(r: Record, tail: Seq<u8>)
    requires
        representable(r),
    ensures
        encoding(r).len() == HEADER_SIZE + r.payload.len(),
        announced_size(encoding(r) + tail) == encoding(r).len(),
        front_record(encoding(r) + tail) == r,
        decode_failure(encoding(r) + tail) is None,
{
    let size = HEADER_SIZE as nat + r.payload.len();
    let word = size_opcode(size, r.opcode);
    let data = encoding(r) + tail;
    lemma_size_opcode_parts(size, r.opcode);
    lemma_le_u32_of_u32_le(r.object_id, u32_le(word) + r.payload + tail);
    assert(data =~= u32_le(r.object_id) + (u32_le(word) + r.payload + tail));
    lemma_le_u32_of_u32_le(word, Seq::empty());
    assert(data.subrange(4, 8) =~= u32_le(word) + Seq::<u8>::empty());
    assert(data.subrange(HEADER_SIZE as int, size as int) =~= r.payload);
}

/// Decoding an encoded record gives the record back: object id, opcode and
/// payload are those that went in.
///
/// The one exception is the record of the largest size that the protocol
/// admits: its total size, 65536, does not fit the 16 bits of the size field
/// and reads as 0, so its encoding is rejected.
pub proof fn law_decode_encode(r: Record)
    requires
        well_formed(r),
    ensures
        decode_failure(encoding(r)) is None <==> representable(r),
        representable(r) ==> front_record(encoding(r)) == r,
{
    if representable(r) {
        lemma_encoding_front(r, Seq::empty());
        assert(encoding(r) + Seq::<u8>::empty() =~= encoding(r));
    } else {
        let word = size_opcode(0x1_0000, r.opcode);
        assert(word == r.opcode);
        lemma_le_u32_of_u32_le(word, Seq::empty());
        assert(encoding(r).subrange(4, 8) =~= u32_le(word) + Seq::<u8>::empty());
        assert(announced_size(encoding(r)) == 0);
    }
}

/// Whatever octets are buffered, a decoding attempt yields either nothing or
/// a record within the size limits whose payload length is the announced
/// size less the header. After an attempt that yields nothing, the buffer is
/// as it was or empty, and holds less than one record of the largest size.
pub proof fn law_pop_front_well_formed(buf: Seq<u8>)
    ensures
        match pop_front(buf).0 {
            Some(r) => {
                &&& well_formed(r)
                &&& HEADER_SIZE <= announced_size(buf) <= MAX_MESSAGE_SIZE
                &&& r.payload.len() == announced_size(buf) - HEADER_SIZE
                &&& pop_front(buf).1.len() == buf.len() - announced_size(buf)
            },
            None => {
                &&& pop_front(buf).1 == buf || pop_front(buf).1 == Seq::<u8>::empty()
                &&& pop_front(buf).1.len() < MAX_MESSAGE_SIZE
            },
        },
{
}

} // verus!
