//! The forwarding side of a connection: what arrives is expanded and cut
//! into records, what leaves is encoded and compressed.

use crate::compress::{CompressionLevel, CompressionStats, Compressor};
use crate::le::u32_le;
use crate::lz4::{compressible, expanded, MAX_BLOCK_INPUT};
use crate::wire::stream::drain;
use crate::wire::{encoding, Message, Record, WireDecoder, WireEncoder};
use vstd::prelude::*;
use vstd::slice::slice_to_vec;

verus! {

/// What a connection reports to the application.
#[derive(Debug)]
pub enum ConnectionEvent {
    /// A client connected.
    Connected { id: u32 },
    /// A client went away.
    Disconnected { id: u32 },
    /// A record arrived.
    Message { id: u32, msg: Message },
    /// Octets arrived, after expansion; for passing them through.
    RawData { id: u32, data: Vec<u8> },
}

/// What an event says.
pub enum EventSpec {
    Connected { id: u32 },
    Disconnected { id: u32 },
    Message { id: u32, record: Record },
    RawData { id: u32, data: Seq<u8> },
}

impl View for ConnectionEvent {
    type V = EventSpec;

    open spec fn view(&self) -> EventSpec {
        match *self {
            ConnectionEvent::Connected { id } => EventSpec::Connected { id },
            ConnectionEvent::Disconnected { id } => EventSpec::Disconnected { id },
            ConnectionEvent::Message { id, msg } => EventSpec::Message { id, record: msg@ },
            ConnectionEvent::RawData { id, data } => EventSpec::RawData { id, data: data@ },
        }
    }
}

/// What a list of events says, in order.
pub open spec fn event_specs(events: Seq<ConnectionEvent>) -> Seq<EventSpec> {
    events.map_values(|e: ConnectionEvent| e@)
}

/// The octets that a received chunk stands for: the chunk itself without
/// compression, else its expansion, or again the chunk itself where it does
/// not expand.
pub open spec fn received_octets(level: CompressionLevel, chunk: Seq<u8>) -> Seq<u8> {
    if level == CompressionLevel::Off {
        chunk
    } else {
        match expanded(chunk) {
            Some(plain) => plain,
            None => chunk,
        }
    }
}

/// The totals after a chunk has been received.
pub open spec fn received_totals(
    level: CompressionLevel,
    totals: CompressionStats,
    chunk: Seq<u8>,
) -> CompressionStats {
    if level == CompressionLevel::Off {
        totals
    } else {
        match expanded(chunk) {
            Some(plain) => totals.entered(chunk.len()).left(plain.len()),
            None => totals.entered(chunk.len()),
        }
    }
}

/// The events that received octets give rise to: one per complete record,
/// then the octets themselves unless there are none.
pub open spec fn received_events(id: u32, found: Seq<Record>, octets: Seq<u8>) -> Seq<EventSpec> {
    let messages = Seq::new(found.len(), |i: int| EventSpec::Message { id, record: found[i] });
    if octets.len() > 0 {
        messages.push(EventSpec::RawData { id, data: octets })
    } else {
        messages
    }
}

/// The totals after `sent` octets have been framed into `framed` octets.
pub open spec fn sent_totals(
    level: CompressionLevel,
    totals: CompressionStats,
    sent: nat,
    framed: nat,
) -> CompressionStats {
    if level == CompressionLevel::Off {
        totals
    } else {
        totals.entered(sent).left(framed)
    }
}

/// Whether `out` can stand on the transport for `data`: it is `data` itself
/// without compression, else it starts with the length of `data` as a
/// little-endian word. The compressed octets after that are the codec's;
/// the receiving side gets `data` back from them, as long as the length
/// fits the 32 bits in front.
pub open spec fn framed(level: CompressionLevel, data: Seq<u8>, out: Seq<u8>) -> bool {
    if level == CompressionLevel::Off {
        out == data
    } else {
        &&& out.len() >= 4
        &&& out.subrange(0, 4) == u32_le(data.len() as u32)
        &&& data.len() <= u32::MAX ==> received_octets(level, out) == data
    }
}

/// The state of one forwarded connection, without its transport.
pub struct Connection {
    client_id: u32,
    decoder: WireDecoder,
    encoder: WireEncoder,
    compressor: Compressor,
}

impl Connection {
    /// The compression that both directions use.
    pub closed spec fn compression(&self) -> CompressionLevel {
        self.compressor.level()
    }

    /// The id under which events are reported.
    pub closed spec fn client_id(&self) -> u32 {
        self.client_id
    }

    /// The octets received and not yet decoded.
    pub closed spec fn pending(&self) -> Seq<u8> {
        self.decoder@
    }

    /// The compressor's totals.
    pub closed spec fn totals(&self) -> CompressionStats {
        self.compressor.totals()
    }

    /// A connection on which nothing has happened yet.
    pub fn new(compression: CompressionLevel, client_id: u32) -> (c: Connection)
        ensures
            c.compression() == compression,
            c.client_id() == client_id,
            c.pending() == Seq::<u8>::empty(),
            c.totals() == CompressionStats::zero(),
    {
        Connection {
            client_id,
            decoder: WireDecoder::new(),
            encoder: WireEncoder::new(),
            compressor: Compressor::new(compression),
        }
    }

    /// Takes in a chunk as it was read from the transport and returns the
    /// events to report, in order.
    pub fn receive(&mut self, chunk: &[u8]) -> (events: Vec<ConnectionEvent>)
        requires
            old(self).compression() != CompressionLevel::Off ==> chunk@.len() <= MAX_BLOCK_INPUT,
        ensures
            final(self).compression() == old(self).compression(),
            final(self).client_id() == old(self).client_id(),
            final(self).totals() == received_totals(
                old(self).compression(),
                old(self).totals(),
                chunk@,
            ),
            ({
                let octets = received_octets(old(self).compression(), chunk@);
                let drained = drain(old(self).pending() + octets);
                &&& final(self).pending() == drained.1
                &&& event_specs(events@) == received_events(
                    old(self).client_id(),
                    drained.0,
                    octets,
                )
            }),
    {
        let data = match self.compressor.level() {
            CompressionLevel::Off => slice_to_vec(chunk),
            _ => match self.compressor.decompress(chunk) {
                Ok(plain) => plain,
                Err(_) => slice_to_vec(chunk),
            },
        };
        self.decoder.push(data.as_slice());

        let id = self.client_id;
        let mut events: Vec<ConnectionEvent> = Vec::new();
        let ghost buffered = self.decoder@;
        let ghost compressor = self.compressor;
        let ghost mut found: Seq<Record> = Seq::empty();
        loop
            invariant
                self.client_id == id,
                self.compressor == compressor,
                drain(buffered).0 == found + drain(self.decoder@).0,
                drain(buffered).1 == drain(self.decoder@).1,
                events@.len() == found.len(),
                forall|i: int|
                    0 <= i < found.len() ==> (#[trigger] events@[i])@ == (EventSpec::Message {
                        id,
                        record: found[i],
                    }),
            ensures
                self.client_id == id,
                self.compressor == compressor,
                drain(buffered).0 == found,
                drain(buffered).1 == self.decoder@,
                events@.len() == found.len(),
                forall|i: int|
                    0 <= i < found.len() ==> (#[trigger] events@[i])@ == (EventSpec::Message {
                        id,
                        record: found[i],
                    }),
            decreases self.decoder@.len(),
        {
            match self.decoder.decode() {
                Some(msg) => {
                    proof {
                        assert(found + (seq![msg@] + drain(self.decoder@).0) =~= found.push(msg@)
                            + drain(self.decoder@).0);
                        found = found.push(msg@);
                    }
                    events.push(ConnectionEvent::Message { id, msg });
                },
                None => {
                    assert(found + Seq::<Record>::empty() =~= found);
                    break ;
                },
            }
        }
        if !data.is_empty() {
            events.push(ConnectionEvent::RawData { id, data });
        }
        assert(event_specs(events@) =~= received_events(
            old(self).client_id(),
            found,
            received_octets(old(self).compression(), chunk@),
        ));
        events
    }

    /// The octets to put on the transport for one record.
    pub fn frame_message(&mut self, msg: &Message) -> (out: Vec<u8>)
        requires
            msg.fits(),
            old(self).compression() != CompressionLevel::Off ==> compressible(
                encoding(msg@).len(),
            ),
        ensures
            final(self).compression() == old(self).compression(),
            final(self).client_id() == old(self).client_id(),
            final(self).pending() == old(self).pending(),
            final(self).totals() == sent_totals(
                old(self).compression(),
                old(self).totals(),
                encoding(msg@).len(),
                out@.len(),
            ),
            framed(old(self).compression(), encoding(msg@), out@),
    {
        let data = self.encoder.encode(msg);
        self.frame_raw(data.as_slice())
    }

    /// The octets to put on the transport for `data`: `data` itself without
    /// compression, else what the compressor makes of it.
    pub fn frame_raw(&mut self, data: &[u8]) -> (out: Vec<u8>)
        requires
            old(self).compression() != CompressionLevel::Off ==> compressible(data@.len()),
        ensures
            final(self).compression() == old(self).compression(),
            final(self).client_id() == old(self).client_id(),
            final(self).pending() == old(self).pending(),
            final(self).totals() == sent_totals(
                old(self).compression(),
                old(self).totals(),
                data@.len(),
                out@.len(),
            ),
            framed(old(self).compression(), data@, out@),
    {
        match self.compressor.level() {
            CompressionLevel::Off => slice_to_vec(data),
            _ => self.compressor.compress(data),
        }
    }
}

} // verus!
