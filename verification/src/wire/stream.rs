//! The decoder fed in chunks.

use crate::wire::laws::{lemma_encoding_front, representable};
use crate::wire::{
    announced_size, batch_encoding, encoding, front_record, pop_front, Record, HEADER_SIZE,
    MAX_MESSAGE_SIZE,
};
use vstd::prelude::*;

verus! {

/// Decoding until nothing more comes out: the records, in order, and the
/// octets left in the buffer.
pub open spec fn drain(buf: Seq<u8>) -> (Seq<Record>, Seq<u8>)
    decreases buf.len(),
{
    match pop_front(buf).0 {
        Some(r) => {
            let later = drain(pop_front(buf).1);
            (seq![r] + later.0, later.1)
        },
        None => (Seq::empty(), pop_front(buf).1),
    }
}

/// Pushing the chunks one by one and draining after each: all the records
/// that came out, in order, and the octets left at the end.
pub open spec fn feed(buf: Seq<u8>, chunks: Seq<Seq<u8>>) -> (Seq<Record>, Seq<u8>)
    decreases chunks.len(),
{
    if chunks.len() == 0 {
        (Seq::empty(), buf)
    } else {
        let first = drain(buf + chunks.first());
        let later = feed(first.1, chunks.drop_first());
        (first.0 + later.0, later.1)
    }
}

/// No header that draining `buf` comes across announces an impossible size.
pub open spec fn clean(buf: Seq<u8>) -> bool
    decreases buf.len(),
{
    if buf.len() < HEADER_SIZE {
        true
    } else if announced_size(buf) < HEADER_SIZE || announced_size(buf) > MAX_MESSAGE_SIZE {
        false
    } else if buf.len() < announced_size(buf) {
        true
    } else {
        clean(buf.subrange(announced_size(buf) as int, buf.len() as int))
    }
}

/// What draining leaves behind yields nothing when drained again.
pub proof fn lemma_drain_settles(buf: Seq<u8>)
    ensures
        drain(drain(buf).1) == (Seq::<Record>::empty(), drain(buf).1),
    decreases buf.len(),
{
    if pop_front(buf).0 is Some {
        lemma_drain_settles(pop_front(buf).1);
    }
}

/// Draining a clean buffer in two parts gives what draining it whole gives.
pub proof fn lemma_drain_split(buf: Seq<u8>, more: Seq<u8>)
    requires
        clean(buf + more),
    ensures
        clean(drain(buf).1 + more),
        drain(buf + more).0 == drain(buf).0 + drain(drain(buf).1 + more).0,
        drain(buf + more).1 == drain(drain(buf).1 + more).1,
    decreases buf.len(),
{
    let whole = buf + more;
    if buf.len() < HEADER_SIZE {
        assert(drain(buf).0 + drain(whole).0 =~= drain(whole).0);
    } else {
        assert(whole.subrange(4, 8) =~= buf.subrange(4, 8));
        let size = announced_size(buf) as int;
        if buf.len() < size {
            assert(drain(buf).0 + drain(whole).0 =~= drain(whole).0);
        } else {
            let rest = buf.subrange(size, buf.len() as int);
            assert(whole.subrange(HEADER_SIZE as int, size) =~= buf.subrange(
                HEADER_SIZE as int,
                size,
            ));
            assert(whole.subrange(size, whole.len() as int) =~= rest + more);
            assert(whole[0] == buf[0] && whole[1] == buf[1] && whole[2] == buf[2] && whole[3]
                == buf[3]);
            assert(front_record(whole) == front_record(buf));
            lemma_drain_split(rest, more);
            assert(seq![front_record(buf)] + (drain(rest).0 + drain(drain(rest).1 + more).0)
                =~= (seq![front_record(buf)] + drain(rest).0) + drain(drain(rest).1 + more).0);
        }
    }
}

/// Feeding a clean stream in chunks gives what draining it whole gives.
pub proof fn lemma_feed_is_drain(buf: Seq<u8>, chunks: Seq<Seq<u8>>)
    requires
        drain(buf) == (Seq::<Record>::empty(), buf),
        clean(buf + chunks.flatten()),
    ensures
        feed(buf, chunks) == drain(buf + chunks.flatten()),
    decreases chunks.len(),
{
    if chunks.len() == 0 {
        assert(buf + chunks.flatten() =~= buf);
    } else {
        let first = chunks.first();
        let later = chunks.drop_first();
        assert(buf + chunks.flatten() =~= (buf + first) + later.flatten());
        lemma_drain_split(buf + first, later.flatten());
        lemma_drain_settles(buf + first);
        lemma_feed_is_drain(drain(buf + first).1, later);
    }
}

/// A batch starts with the encoding of its first record.
pub proof fn lemma_batch_encoding_front(rs: Seq<Record>)
    requires
        rs.len() > 0,
    ensures
        batch_encoding(rs) == encoding(rs.first()) + batch_encoding(rs.drop_first()),
    decreases rs.len(),
{
    if rs.len() == 1 {
        assert(rs.drop_last() =~= Seq::<Record>::empty());
        assert(rs.drop_first() =~= Seq::<Record>::empty());
        assert(batch_encoding(rs) =~= encoding(rs.first()) + batch_encoding(rs.drop_first()));
    } else {
        lemma_batch_encoding_front(rs.drop_last());
        assert(rs.drop_last().drop_first() =~= rs.drop_first().drop_last());
        assert(rs.drop_last().first() == rs.first());
        assert(rs.drop_first().last() == rs.last());
        assert(batch_encoding(rs) =~= encoding(rs.first()) + batch_encoding(rs.drop_first()));
    }
}

/// Draining the encoding of a batch gives the batch and leaves nothing.
pub proof fn lemma_drain_batch(rs: Seq<Record>)
    requires
        forall|i: int| 0 <= i < rs.len() ==> representable(#[trigger] rs[i]),
    ensures
        clean(batch_encoding(rs)),
        drain(batch_encoding(rs)) == (rs, Seq::<u8>::empty()),
    decreases rs.len(),
{
    if rs.len() > 0 {
        let tail = batch_encoding(rs.drop_first());
        lemma_batch_encoding_front(rs);
        lemma_encoding_front(rs.first(), tail);
        let whole = encoding(rs.first()) + tail;
        assert(whole.subrange(encoding(rs.first()).len() as int, whole.len() as int) =~= tail);
        lemma_drain_batch(rs.drop_first());
        assert(seq![rs.first()] + rs.drop_first() =~= rs);
    }
}

/// However the octets of a batch of records are cut into chunks, pushing the
/// chunks in order and draining after each push yields exactly those records,
/// in order, and leaves the buffer empty. Each record's total size must fit
/// the header's 16-bit size field.
pub proof fn law_chunked_stream(rs: Seq<Record>, chunks: Seq<Seq<u8>>)
    requires
        forall|i: int| 0 <= i < rs.len() ==> representable(#[trigger] rs[i]),
        chunks.flatten() == batch_encoding(rs),
    ensures
        feed(Seq::empty(), chunks) == (rs, Seq::<u8>::empty()),
{
    lemma_drain_batch(rs);
    assert(Seq::<u8>::empty() + chunks.flatten() =~= chunks.flatten());
    lemma_feed_is_drain(Seq::empty(), chunks);
}

} // verus!
