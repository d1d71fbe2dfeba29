//! One client connection, from received octets to the octets to send back.

use crate::compositor::{fresh_objects, standard_globals, step, Compositor, GlobalSpec};
use crate::wire::stream::{clean, drain, lemma_drain_split};
use crate::wire::{batch_encoding, pop_front, records, well_formed, Message, Record, WireDecoder};
use vstd::prelude::*;

verus! {

/// Serving requests one after the other: the object table at the end, and
/// the octets of all replies, in the order of the requests.
pub open spec fn serve(objects: Map<u32, Seq<char>>, requests: Seq<Record>) -> (
    Map<u32, Seq<char>>,
    Seq<u8>,
)
    decreases requests.len(),
{
    if requests.len() == 0 {
        (objects, Seq::empty())
    } else {
        let (after, replies) = step(objects, requests.first());
        let later = serve(after, requests.drop_first());
        (later.0, batch_encoding(replies) + later.1)
    }
}

/// Serving a run of requests and then more is serving them all.
pub proof fn lemma_serve_push(objects: Map<u32, Seq<char>>, requests: Seq<Record>, next: Record)
    ensures
        serve(objects, requests.push(next)).0 == step(serve(objects, requests).0, next).0,
        serve(objects, requests.push(next)).1 == serve(objects, requests).1 + batch_encoding(
            step(serve(objects, requests).0, next).1,
        ),
    decreases requests.len(),
{
    let all = requests.push(next);
    if requests.len() == 0 {
        assert(all.drop_first() =~= Seq::<Record>::empty());
        assert(all.first() == next);
        assert(serve(step(objects, next).0, all.drop_first()).1 =~= Seq::<u8>::empty());
        assert(serve(objects, all).1 =~= batch_encoding(step(objects, next).1));
        assert(serve(objects, requests).1 + batch_encoding(step(objects, next).1)
            =~= batch_encoding(step(objects, next).1));
    } else {
        let after = step(objects, requests.first()).0;
        assert(all.drop_first() =~= requests.drop_first().push(next));
        lemma_serve_push(after, requests.drop_first(), next);
        let head = batch_encoding(step(objects, requests.first()).1);
        let mid = serve(after, requests.drop_first()).1;
        let tail = batch_encoding(step(serve(objects, requests).0, next).1);
        assert(head + (mid + tail) =~= (head + mid) + tail);
    }
}

/// Serving one run of requests and then another is serving them all.
pub proof fn lemma_serve_concat(
    objects: Map<u32, Seq<char>>,
    first: Seq<Record>,
    second: Seq<Record>,
)
    ensures
        serve(objects, first + second).0 == serve(serve(objects, first).0, second).0,
        serve(objects, first + second).1 == serve(objects, first).1 + serve(
            serve(objects, first).0,
            second,
        ).1,
    decreases second.len(),
{
    let between = serve(objects, first).0;
    if second.len() == 0 {
        assert(first + second =~= first);
        assert(serve(objects, first).1 + serve(between, second).1 =~= serve(objects, first).1);
    } else {
        let init = second.drop_last();
        let last = second.last();
        lemma_serve_concat(objects, first, init);
        assert(first + second =~= (first + init).push(last));
        lemma_serve_push(objects, first + init, last);
        assert(second =~= init.push(last));
        lemma_serve_push(between, init, last);
        let sent = batch_encoding(step(serve(between, init).0, last).1);
        assert(serve(objects, first).1 + (serve(between, init).1 + sent) =~= (serve(
            objects,
            first,
        ).1 + serve(between, init).1) + sent);
    }
}

/// What taking in a chunk does to a connection with the given object table
/// and pending octets: the object table and the pending octets afterwards,
/// and the octets to send back.
pub open spec fn received(objects: Map<u32, Seq<char>>, pending: Seq<u8>, chunk: Seq<u8>) -> (
    Map<u32, Seq<char>>,
    Seq<u8>,
    Seq<u8>,
) {
    let drained = drain(pending + chunk);
    let served = serve(objects, drained.0);
    (served.0, drained.1, served.1)
}

/// Where the transport cuts the stream does not matter: taking in two
/// chunks one after the other leaves the connection as taking them in at
/// once does, and the same octets go back. The stream must be free of
/// headers with an impossible size: such a header costs whatever is buffered
/// with it, and that depends on the cut.
pub proof fn law_cut_anywhere(
    objects: Map<u32, Seq<char>>,
    pending: Seq<u8>,
    first: Seq<u8>,
    second: Seq<u8>,
)
    requires
        clean(pending + first + second),
    ensures
        ({
            let whole = received(objects, pending, first + second);
            let one = received(objects, pending, first);
            let two = received(one.0, one.1, second);
            whole == (two.0, two.1, one.2 + two.2)
        }),
{
    assert(pending + (first + second) =~= (pending + first) + second);
    lemma_drain_split(pending + first, second);
    lemma_serve_concat(
        objects,
        drain(pending + first).0,
        drain(drain(pending + first).1 + second).0,
    );
}

/// The state of one client connection: its decoder and its engine.
pub struct Session {
    compositor: Compositor,
    decoder: WireDecoder,
}

impl Session {
    /// The object table of the connection.
    pub closed spec fn objects(&self) -> Map<u32, Seq<char>> {
        self.compositor@
    }

    /// The octets received and not yet decoded.
    pub closed spec fn pending(&self) -> Seq<u8> {
        self.decoder@
    }

    /// The services that the connection is offered.
    pub closed spec fn advertised(&self) -> Seq<GlobalSpec> {
        self.compositor.advertised()
    }

    /// The id that the engine's allocator of server-side ids hands out
    /// next.
    pub closed spec fn next_server_id(&self) -> u32 {
        self.compositor.next_server_id()
    }

    /// A connection that has just started.
    pub fn new() -> (s: Session)
        ensures
            s.objects() == fresh_objects(),
            s.pending() == Seq::<u8>::empty(),
            s.advertised() == standard_globals(),
            s.next_server_id() == 2,
    {
        Session { compositor: Compositor::new(), decoder: WireDecoder::new() }
    }

    /// Takes in received octets, serves every request that is complete, and
    /// returns the octets to send back: the replies to each request, in the
    /// order of the requests. Of the engine, only the object table changes.
    pub fn receive(&mut self, chunk: &[u8]) -> (out: Vec<u8>)
        ensures
            (final(self).objects(), final(self).pending(), out@) == received(
                old(self).objects(),
                old(self).pending(),
                chunk@,
            ),
            final(self).advertised() == old(self).advertised(),
            final(self).next_server_id() == old(self).next_server_id(),
    {
        let mut out: Vec<u8> = Vec::new();
        self.decoder.push(chunk);
        let ghost buffered = self.decoder@;
        let ghost mut served: Seq<Record> = Seq::empty();
        loop
            invariant
                buffered == old(self).pending() + chunk@,
                drain(buffered).0 == served + drain(self.decoder@).0,
                drain(buffered).1 == drain(self.decoder@).1,
                self.compositor@ == serve(old(self).objects(), served).0,
                out@ == serve(old(self).objects(), served).1,
                self.compositor.advertised() == old(self).compositor.advertised(),
                self.compositor.next_server_id() == old(self).compositor.next_server_id(),
            ensures
                drain(buffered).0 == served,
                drain(buffered).1 == self.decoder@,
                self.compositor@ == serve(old(self).objects(), served).0,
                out@ == serve(old(self).objects(), served).1,
                self.compositor.advertised() == old(self).compositor.advertised(),
                self.compositor.next_server_id() == old(self).compositor.next_server_id(),
            decreases self.decoder@.len(),
        {
            match self.decoder.decode() {
                Some(msg) => {
                    let responses = self.compositor.handle_message(&msg);
                    if !responses.is_empty() {
                        let response_data = self.compositor.encode_responses(responses.as_slice());
                        out.extend_from_slice(response_data.as_slice());
                    }
                    proof {
                        lemma_serve_push(old(self).objects(), served, msg@);
                        if responses@.len() == 0 {
                            assert(records(responses@) =~= Seq::<Record>::empty());
                        }
                        assert(served + (seq![msg@] + drain(self.decoder@).0) =~= served.push(
                            msg@,
                        ) + drain(self.decoder@).0);
                        served = served.push(msg@);
                    }
                },
                None => {
                    assert(served + Seq::<Record>::empty() =~= served);
                    break ;
                },
            }
        }
        out
    }
}

impl Default for Session {
    fn default() -> (s: Session)
        ensures
            s.objects() == fresh_objects(),
            s.pending() == Seq::<u8>::empty(),
            s.advertised() == standard_globals(),
            s.next_server_id() == 2,
    {
        Session::new()
    }
}

} // verus!
