//! Laws of the pixel-frame channel.

use crate::le::{lemma_le_u32_of_u32_le, u32_le, word_at};
use crate::render::{
    announced_data_size, frame_encoding, frame_failure, front_frame, has_magic_at, magic,
    magic_from, next_frame, valid_frame, FrameSpec, HEADER_SIZE,
};
use vstd::prelude::*;

verus! {

/// No magic lies wholly within `data`.
pub open spec fn free_of_magic(data: Seq<u8>) -> bool {
    forall|i: int| 0 <= i && i + 4 <= data.len() ==> !has_magic_at(data, i)
}

/// What the front of an encoded frame followed by anything looks like to
/// the decoder.
pub proof fn lemma_frame_encoding_front(f: FrameSpec, tail: Seq<u8>)
    requires
        valid_frame(f),
    ensures
        frame_encoding(f).len() == HEADER_SIZE + f.data.len(),
        has_magic_at(frame_encoding(f) + tail, 0),
        announced_data_size(frame_encoding(f) + tail) == f.data.len(),
        front_frame(frame_encoding(f) + tail) == f,
        frame_failure(frame_encoding(f) + tail) is None,
{
    let data = frame_encoding(f) + tail;
    let size = f.data.len() as u32;
    lemma_le_u32_of_u32_le(f.width, Seq::empty());
    lemma_le_u32_of_u32_le(f.height, Seq::empty());
    lemma_le_u32_of_u32_le(f.format.spec_code(), Seq::empty());
    lemma_le_u32_of_u32_le(size, Seq::empty());
    assert(data.subrange(4, 8) =~= u32_le(f.width) + Seq::<u8>::empty());
    assert(data.subrange(8, 12) =~= u32_le(f.height) + Seq::<u8>::empty());
    assert(data.subrange(12, 16) =~= u32_le(f.format.spec_code()) + Seq::<u8>::empty());
    assert(data.subrange(16, 20) =~= u32_le(size) + Seq::<u8>::empty());
    assert(data.subrange(HEADER_SIZE as int, HEADER_SIZE + f.data.len()) =~= f.data);
    assert(data[0] == magic()[0] && data[1] == magic()[1] && data[2] == magic()[2] && data[3]
        == magic()[3]);
}

/// Decoding an encoded frame gives the frame back, as long as its data size
/// fits the header's 32-bit size field.
pub proof fn law_frame_decode_encode(f: FrameSpec)
    requires
        valid_frame(f),
    ensures
        frame_failure(frame_encoding(f)) is None,
        front_frame(frame_encoding(f)) == f,
{
    lemma_frame_encoding_front(f, Seq::empty());
    assert(frame_encoding(f) + Seq::<u8>::empty() =~= frame_encoding(f));
}

/// The search finds the first magic.
pub proof fn lemma_magic_from(buf: Seq<u8>, from: int, pos: int)
    requires
        0 <= from <= pos,
        has_magic_at(buf, pos),
        forall|q: int| from <= q < pos ==> !has_magic_at(buf, q),
    ensures
        magic_from(buf, from) == Some(pos),
    decreases pos - from,
{
    if from < pos {
        lemma_magic_from(buf, from + 1, pos);
    }
}

/// The search stops at or before any magic that there is.
pub proof fn lemma_magic_from_bound(buf: Seq<u8>, from: int, at: int)
    requires
        0 <= from <= at,
        has_magic_at(buf, at),
    ensures
        magic_from(buf, from) matches Some(pos) && from <= pos <= at,
    decreases at - from,
{
    if from < at && !has_magic_at(buf, from) {
        lemma_magic_from_bound(buf, from + 1, at);
    }
}

/// A magic within the first octets of a buffer is a magic of the buffer.
pub proof fn lemma_magic_kept(head: Seq<u8>, rest: Seq<u8>, at: int)
    requires
        has_magic_at(head, at),
    ensures
        has_magic_at(head + rest, at),
{
    let buf = head + rest;
    assert(buf[at] == head[at]);
    assert(buf[at + 1] == head[at + 1]);
    assert(buf[at + 2] == head[at + 2]);
    assert(buf[at + 3] == head[at + 3]);
}

/// With no magic before offset `start`, with a magic there, and with other
/// octets at the front, an attempt drops what lies before `start`.
pub proof fn lemma_dropped_up_to(buf: Seq<u8>, start: int)
    requires
        buf.len() >= HEADER_SIZE,
        0 < start,
        has_magic_at(buf, start),
        forall|q: int| 0 <= q < start ==> !has_magic_at(buf, q),
    ensures
        next_frame(buf) == (None::<FrameSpec>, buf.subrange(start, buf.len() as int)),
{
    lemma_magic_from(buf, 0, start);
}

/// With a magic at offset `at`, an attempt that yields no frame keeps the
/// magic and what follows it.
pub proof fn lemma_kept_from(buf: Seq<u8>, at: int)
    requires
        buf.len() >= HEADER_SIZE,
        has_magic_at(buf, at),
    ensures
        next_frame(buf).0 is Some || next_frame(buf).1.len() >= buf.len() - at,
{
    if !has_magic_at(buf, 0) {
        lemma_magic_from_bound(buf, 0, at);
    }
}

/// A frame comes out of the decoder as soon as it stands at the front of
/// the buffer, and whatever follows it stays buffered. Octets in front of it
/// are dropped by one attempt, so that the next one yields the frame, if
/// and only if no magic lies within them.
///
/// This is said of a frame that is buffered whole. An attempt made while
/// only part of its magic has arrived may drop that part with the octets in
/// front of it.
pub proof fn law_resync(garbage: Seq<u8>, f: FrameSpec, tail: Seq<u8>)
    requires
        valid_frame(f),
    ensures
        next_frame(frame_encoding(f) + tail) == (Some(f), tail),
        garbage.len() > 0 ==> (next_frame(garbage + frame_encoding(f) + tail) == (
            None::<FrameSpec>,
            frame_encoding(f) + tail,
        ) <==> free_of_magic(garbage)),
{
    let framed = frame_encoding(f) + tail;
    lemma_frame_encoding_front(f, tail);
    assert(framed.subrange(HEADER_SIZE + f.data.len(), framed.len() as int) =~= tail);
    if garbage.len() > 0 {
        let buf = garbage + frame_encoding(f) + tail;
        let start = garbage.len() as int;
        assert(buf =~= garbage + framed);
        if free_of_magic(garbage) {
            assert(has_magic_at(buf, start)) by {
                assert(buf[start] == framed[0]);
                assert(buf[start + 1] == framed[1]);
                assert(buf[start + 2] == framed[2]);
                assert(buf[start + 3] == framed[3]);
            }
            assert forall|q: int| 0 <= q < start implies !has_magic_at(buf, q) by {
                if q + 4 <= start {
                    assert(!has_magic_at(garbage, q));
                    assert(buf[q] == garbage[q]);
                    assert(buf[q + 1] == garbage[q + 1]);
                    assert(buf[q + 2] == garbage[q + 2]);
                    assert(buf[q + 3] == garbage[q + 3]);
                } else {
                    assert(buf[start] == 0x57);
                }
            }
            lemma_dropped_up_to(buf, start);
            assert(buf.subrange(start, buf.len() as int) =~= framed);
        } else {
            let at = choose|i: int| 0 <= i && i + 4 <= garbage.len() && has_magic_at(garbage, i);
            lemma_magic_kept(garbage, framed, at);
            lemma_kept_from(buf, at);
            assert(buf.len() - at > framed.len());
        }
    }
}

} // verus!
