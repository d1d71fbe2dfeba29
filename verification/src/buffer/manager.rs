//! All mirror buffers of a connection, by object id.

use crate::buffer::MirrorBuffer;
use std::collections::HashMap;
use vstd::prelude::*;
use vstd::std_specs::iter::IteratorSpec;

verus! {

broadcast use vstd::std_specs::hash::group_hash_axioms;

/// Octets of pixel data in the buffers of the given keys together.
pub open spec fn sizes(buffers: Map<u32, MirrorBuffer>, keys: Seq<u32>) -> nat
    decreases keys.len(),
{
    if keys.len() == 0 {
        0
    } else {
        sizes(buffers, keys.drop_last()) + buffers[keys.last()].data@.len()
    }
}

/// Octets of pixel data in all buffers together.
pub open spec fn total_size(buffers: Map<u32, MirrorBuffer>) -> nat
    decreases buffers.dom().len(),
    when buffers.dom().finite()
{
    if buffers.dom().len() == 0 {
        0
    } else {
        let id = buffers.dom().choose();
        buffers[id].data@.len() + total_size(buffers.remove(id))
    }
}

/// Taking a key out of a list takes its buffer's size out of the sum.
pub proof fn lemma_sizes_remove(buffers: Map<u32, MirrorBuffer>, keys: Seq<u32>, at: int)
    requires
        0 <= at < keys.len(),
    ensures
        sizes(buffers, keys) == sizes(buffers, keys.remove(at)) + buffers[keys[at]].data@.len(),
    decreases keys.len(),
{
    if at == keys.len() - 1 {
        assert(keys.remove(at) =~= keys.drop_last());
    } else {
        lemma_sizes_remove(buffers, keys.drop_last(), at);
        assert(keys.remove(at).drop_last() =~= keys.drop_last().remove(at));
        assert(keys.remove(at).last() == keys.last());
    }
}

/// The sum does not look at buffers whose keys are not listed.
pub proof fn lemma_sizes_without(buffers: Map<u32, MirrorBuffer>, keys: Seq<u32>, id: u32)
    requires
        !keys.contains(id),
    ensures
        sizes(buffers.remove(id), keys) == sizes(buffers, keys),
    decreases keys.len(),
{
    if keys.len() > 0 {
        assert(keys.drop_last().len() < keys.len());
        assert forall|k: int| 0 <= k < keys.drop_last().len() implies keys.drop_last()[k] != id by {
            assert(keys[k] == keys.drop_last()[k]);
            assert(keys.contains(keys[k]));
        }
        assert(!keys.drop_last().contains(id));
        lemma_sizes_without(buffers, keys.drop_last(), id);
        assert(keys.contains(keys.last()));
    }
}

/// The sizes of some of the buffers are no more than those of all of them.
pub proof fn lemma_sizes_prefix(buffers: Map<u32, MirrorBuffer>, keys: Seq<u32>, n: int)
    requires
        0 <= n <= keys.len(),
    ensures
        sizes(buffers, keys.subrange(0, n)) <= sizes(buffers, keys),
    decreases keys.len() - n,
{
    if n < keys.len() {
        lemma_sizes_prefix(buffers, keys, n + 1);
        assert(keys.subrange(0, n + 1).drop_last() =~= keys.subrange(0, n));
    } else {
        assert(keys.subrange(0, n) =~= keys);
    }
}

/// Summing over the keys in any order, each once, gives the total.
pub proof fn lemma_sizes_total(buffers: Map<u32, MirrorBuffer>, keys: Seq<u32>)
    requires
        buffers.dom().finite(),
        keys.no_duplicates(),
        keys.to_set() == buffers.dom(),
    ensures
        sizes(buffers, keys) == total_size(buffers),
    decreases keys.len(),
{
    keys.unique_seq_to_set();
    if keys.len() == 0 {
    } else {
        let id = buffers.dom().choose();
        assert(keys.to_set().contains(id));
        let at = keys.index_of(id);
        let rest = keys.remove(at);
        lemma_sizes_remove(buffers, keys, at);
        assert(rest.no_duplicates() && !rest.contains(id) && rest.to_set() == buffers.remove(
            id,
        ).dom()) by {
            assert forall|i: int, j: int| 0 <= i < rest.len() && 0 <= j < rest.len() && i
                != j implies rest[i] != rest[j] by {
                let a = if i < at {
                    i
                } else {
                    i + 1
                };
                let b = if j < at {
                    j
                } else {
                    j + 1
                };
                assert(rest[i] == keys[a] && rest[j] == keys[b]);
            }
            assert forall|i: int| 0 <= i < rest.len() implies rest[i] != id by {
                let a = if i < at {
                    i
                } else {
                    i + 1
                };
                assert(rest[i] == keys[a]);
            }
            assert forall|k: u32| rest.to_set().contains(k) <==> buffers.remove(
                id,
            ).dom().contains(k) by {
                if rest.to_set().contains(k) {
                    let i = rest.index_of(k);
                    let a = if i < at {
                        i
                    } else {
                        i + 1
                    };
                    assert(rest[i] == keys[a]);
                    assert(keys.to_set().contains(keys[a]));
                }
                if buffers.remove(id).dom().contains(k) {
                    assert(keys.to_set().contains(k));
                    let a = keys.index_of(k);
                    let i = if a < at {
                        a
                    } else {
                        a - 1
                    };
                    assert(rest[i] == k);
                    assert(rest.contains(k));
                }
            }
            assert(rest.to_set() =~= buffers.remove(id).dom());
        }
        lemma_sizes_without(buffers, rest, id);
        lemma_sizes_total(buffers.remove(id), rest);
    }
}

/// `HashMap::get_mut` on the buffer table: a mutable reference to the
/// buffer stored under `id`, if there is one. What the caller writes through
/// it is what the table holds afterwards; nothing else changes.
#[verifier::external_body]
fn buffer_mut<'a>(buffers: &'a mut HashMap<u32, MirrorBuffer>, id: u32) -> (found: Option<
    &'a mut MirrorBuffer,
>)
    ensures
        !old(buffers)@.contains_key(id) ==> found is None && final(buffers)@ == old(buffers)@,
        old(buffers)@.contains_key(id) ==> found is Some && *found.unwrap() == old(buffers)@[id]
            && final(buffers)@ == old(buffers)@.insert(id, *final(found.unwrap())),
{
    buffers.get_mut(&id)
}

/// The mirror buffers of a connection.
pub struct BufferManager {
    buffers: HashMap<u32, MirrorBuffer>,
}

impl View for BufferManager {
    type V = Map<u32, MirrorBuffer>;

    /// The buffers by object id.
    closed spec fn view(&self) -> Map<u32, MirrorBuffer> {
        self.buffers@
    }
}

impl BufferManager {
    /// A manager without buffers.
    pub fn new() -> (m: BufferManager)
        ensures
            m@ == Map::<u32, MirrorBuffer>::empty(),
    {
        BufferManager { buffers: HashMap::new() }
    }

    /// Registers a blank buffer under `id`; a buffer that was there before
    /// is replaced.
    pub fn create(&mut self, id: u32, width: u32, height: u32, bpp: u32, stride: u32)
        requires
            stride * height <= u32::MAX,
        ensures
            final(self)@.contains_key(id),
            final(self)@[id].blank(id, width, height, bpp, stride),
            final(self)@ == old(self)@.insert(id, final(self)@[id]),
    {
        let buffer = MirrorBuffer::new(id, width, height, bpp, stride);
        self.buffers.insert(id, buffer);
    }

    /// The buffer registered under `id`.
    pub fn get(&self, id: u32) -> (found: Option<&MirrorBuffer>)
        ensures
            match found {
                Some(buffer) => self@.contains_key(id) && *buffer == self@[id],
                None => !self@.contains_key(id),
            },
    {
        self.buffers.get(&id)
    }

    /// The buffer registered under `id`, for writing. What is written
    /// through the reference is what the manager holds afterwards.
    pub fn get_mut(&mut self, id: u32) -> (found: Option<&mut MirrorBuffer>)
        ensures
            !old(self)@.contains_key(id) ==> found is None && final(self)@ == old(self)@,
            old(self)@.contains_key(id) ==> found is Some && *found.unwrap() == old(self)@[id]
                && final(self)@ == old(self)@.insert(id, *final(found.unwrap())),
    {
        buffer_mut(&mut self.buffers, id)
    }

    /// Takes the buffer registered under `id` out of the manager.
    pub fn remove(&mut self, id: u32) -> (removed: Option<MirrorBuffer>)
        ensures
            final(self)@ == old(self)@.remove(id),
            match removed {
                Some(buffer) => old(self)@.contains_key(id) && buffer == old(self)@[id],
                None => !old(self)@.contains_key(id),
            },
    {
        self.buffers.remove(&id)
    }

    /// Number of buffers.
    pub fn count(&self) -> (n: usize)
        ensures
            n == self@.dom().len(),
    {
        self.buffers.len()
    }

    /// Octets of pixel data in all buffers together. The sum must fit a
    /// `usize`.
    pub fn total_memory(&self) -> (n: usize)
        requires
            total_size(self@) <= usize::MAX,
        ensures
            n == total_size(self@),
    {
        let mut total: usize = 0;
        let ghost keys = self.buffers.keys().remaining().unref();
        let ghost mut done: int = 0;
        for id in it: self.buffers.keys()
            invariant
                keys == it.seq().unref(),
                done == it.index(),
                keys.no_duplicates(),
                keys.to_set() == self@.dom(),
                total_size(self@) <= usize::MAX,
                total == sizes(self@, keys.subrange(0, done)),
        {
            proof {
                assert(keys[done] == *id);
                assert(keys.to_set().contains(keys[done]));
                assert(keys.subrange(0, done + 1).drop_last() =~= keys.subrange(0, done));
                lemma_sizes_prefix(self@, keys, done + 1);
                lemma_sizes_total(self@, keys);
            }
            match self.buffers.get(id) {
                Some(buffer) => {
                    total = total + buffer.size();
                },
                None => {},
            }
            proof {
                done = done + 1;
            }
        }
        proof {
            assert(keys.subrange(0, keys.len() as int) =~= keys);
            lemma_sizes_total(self@, keys);
        }
        total
    }
}

impl Default for BufferManager {
    fn default() -> (m: BufferManager)
        ensures
            m@ == Map::<u32, MirrorBuffer>::empty(),
    {
        BufferManager::new()
    }
}

} // verus!
