//! The record codec.
//!
//! A record on the wire is a stream of little-endian 32-bit words:
//! - the object id of the target,
//! - a word with the record's total size in its high 16 bits and the opcode
//!   in its low 16 bits,
//! - the payload, opaque to the codec.

use crate::bytebuf::held;
use crate::error::WinpipeError;
use crate::le::{get_u32_le, le_u32, read_u32_le, u32_le, write_u32_le};
use crate::text::{decimal, decimal_text};
use bytes::BytesMut;
use vstd::prelude::*;
use vstd::slice::slice_to_vec;
use vstd::string::*;

pub mod laws;
pub mod opcodes;
pub mod stream;

verus! {

/// Octets in a record header.
pub const HEADER_SIZE: usize = 8;

/// The largest total size of a record that the decoder accepts.
pub const MAX_MESSAGE_SIZE: usize = 65536;

/// One framed protocol unit.
#[derive(Debug, Clone)]
pub struct Message {
    /// Target object id.
    pub object_id: u32,
    /// Method selector within the target's interface.
    pub opcode: u16,
    /// Payload octets, without the header.
    pub payload: Vec<u8>,
    /// Number of file descriptors that travel with the record.
    pub fd_count: u32,
}

/// What a record says on the wire.
pub struct Record {
    pub object_id: u32,
    pub opcode: u16,
    pub payload: Seq<u8>,
}

impl View for Message {
    type V = Record;

    open spec fn view(&self) -> Record {
        Record { object_id: self.object_id, opcode: self.opcode, payload: self.payload@ }
    }
}

/// The records of a sequence of messages, in order.
pub open spec fn records(messages: Seq<Message>) -> Seq<Record> {
    messages.map_values(|m: Message| m@)
}

/// The second header word: the low 16 bits of the total size above the opcode.
pub open spec fn size_opcode(size: nat, opcode: u16) -> u32 {
    ((size % 0x1_0000) * 0x1_0000 + opcode) as u32
}

/// The total size that a header word announces.
pub open spec fn word_size(word: u32) -> nat {
    (word / 0x1_0000) as nat
}

/// The opcode that a header word carries.
pub open spec fn word_opcode(word: u32) -> u16 {
    (word % 0x1_0000) as u16
}

/// The octets of one record.
pub open spec fn encoding(r: Record) -> Seq<u8> {
    u32_le(r.object_id) + u32_le(size_opcode(HEADER_SIZE as nat + r.payload.len(), r.opcode))
        + r.payload
}

/// The octets of a batch: the encodings in order, with nothing between them.
pub open spec fn batch_encoding(rs: Seq<Record>) -> Seq<u8>
    decreases rs.len(),
{
    if rs.len() == 0 {
        Seq::empty()
    } else {
        batch_encoding(rs.drop_last()) + encoding(rs.last())
    }
}

/// A record within the protocol's size limits.
pub open spec fn well_formed(r: Record) -> bool {
    HEADER_SIZE + r.payload.len() <= MAX_MESSAGE_SIZE
}

/// The total size announced by the header at the front of `data`.
pub open spec fn announced_size(data: Seq<u8>) -> nat
    recommends
        data.len() >= HEADER_SIZE,
{
    word_size(le_u32(data.subrange(4, 8)))
}

/// The record at the front of `data`, once its header and payload are there.
pub open spec fn front_record(data: Seq<u8>) -> Record
    recommends
        data.len() >= HEADER_SIZE,
        HEADER_SIZE <= announced_size(data) <= data.len(),
{
    Record {
        object_id: le_u32(data),
        opcode: word_opcode(le_u32(data.subrange(4, 8))),
        payload: data.subrange(HEADER_SIZE as int, announced_size(data) as int),
    }
}

pub open spec fn too_short_text(have: nat) -> Seq<char> {
    "Message too short: "@ + decimal(have) + " bytes"@
}

pub open spec fn invalid_size_text(size: nat) -> Seq<char> {
    "Invalid message size: "@ + decimal(size)
}

pub open spec fn too_large_text(size: nat) -> Seq<char> {
    "Message too large: "@ + decimal(size) + " bytes"@
}

pub open spec fn incomplete_text(have: nat, need: nat) -> Seq<char> {
    "Incomplete message: have "@ + decimal(have) + " bytes, need "@ + decimal(need)
}

/// Why `data` does not begin with a whole record, if it does not.
pub open spec fn decode_failure(data: Seq<u8>) -> Option<Seq<char>> {
    if data.len() < HEADER_SIZE {
        Some(too_short_text(data.len()))
    } else if announced_size(data) < HEADER_SIZE {
        Some(invalid_size_text(announced_size(data)))
    } else if announced_size(data) > MAX_MESSAGE_SIZE {
        Some(too_large_text(announced_size(data)))
    } else if data.len() < announced_size(data) {
        Some(incomplete_text(data.len(), announced_size(data)))
    } else {
        None
    }
}

impl Message {
    /// The largest payload whose total size still fits a `usize`.
    pub open spec fn fits(&self) -> bool {
        HEADER_SIZE + self.payload.len() <= usize::MAX
    }

    /// A record with no file descriptors attached.
    pub fn new(object_id: u32, opcode: u16, payload: Vec<u8>) -> (m: Message)
        ensures
            m.object_id == object_id,
            m.opcode == opcode,
            m.payload == payload,
            m.fd_count == 0,
    {
        Message { object_id, opcode, payload, fd_count: 0 }
    }

    /// Total size on the wire: header and payload.
    pub fn wire_size(&self) -> (n: usize)
        requires
            self.fits(),
        ensures
            n == HEADER_SIZE + self.payload.len(),
    {
        HEADER_SIZE + self.payload.len()
    }

    /// The record's octets. Only the low 16 bits of the total size find room
    /// in the header.
    pub fn encode(&self) -> (out: Vec<u8>)
        requires
            self.fits(),
        ensures
            out@ == encoding(self@),
    {
        let size = self.wire_size();
        let mut buf = Vec::with_capacity(size);
        write_u32_le(&mut buf, self.object_id);
        let size_opcode: u32 = (size % 0x1_0000) as u32 * 0x1_0000 + self.opcode as u32;
        write_u32_le(&mut buf, size_opcode);
        buf.extend_from_slice(self.payload.as_slice());
        assert(buf@ =~= encoding(self@));
        buf
    }

    /// Parses the record at the front of `data`; octets after it are ignored.
    pub fn decode(data: &[u8]) -> (r: Result<Message, WinpipeError>)
        ensures
            match r {
                Ok(m) => decode_failure(data@) is None && m@ == front_record(data@) && m.fd_count
                    == 0,
                Err(e) => e matches WinpipeError::InvalidMessage(text) && decode_failure(data@)
                    == Some(text@),
            },
    {
        if data.len() < HEADER_SIZE {
            let text = String::from_str("Message too short: ").concat(
                decimal_text(data.len() as u64).as_str(),
            ).concat(" bytes");
            return Err(WinpipeError::InvalidMessage(text));
        }
        let object_id = read_u32_le(data);
        let size_opcode = read_u32_le(&data[4..8]);
        let size = (size_opcode / 0x1_0000) as usize;
        let opcode = (size_opcode % 0x1_0000) as u16;
        if size < HEADER_SIZE {
            let text = String::from_str("Invalid message size: ").concat(
                decimal_text(size as u64).as_str(),
            );
            return Err(WinpipeError::InvalidMessage(text));
        }
        if size > MAX_MESSAGE_SIZE {
            let text = String::from_str("Message too large: ").concat(
                decimal_text(size as u64).as_str(),
            ).concat(" bytes");
            return Err(WinpipeError::InvalidMessage(text));
        }
        if data.len() < size {
            let text = String::from_str("Incomplete message: have ").concat(
                decimal_text(data.len() as u64).as_str(),
            ).concat(" bytes, need ").concat(decimal_text(size as u64).as_str());
            return Err(WinpipeError::InvalidMessage(text));
        }
        let payload = slice_to_vec(&data[HEADER_SIZE..size]);
        Ok(Message { object_id, opcode, payload, fd_count: 0 })
    }
}

/// What one decoding attempt does to the buffered octets: the record that
/// comes out, if one is complete, and the octets that stay.
///
/// A header that announces an impossible size makes the stream useless: the
/// whole buffer is dropped.
pub open spec fn pop_front(buf: Seq<u8>) -> (Option<Record>, Seq<u8>) {
    if buf.len() < HEADER_SIZE {
        (None, buf)
    } else if announced_size(buf) < HEADER_SIZE || announced_size(buf) > MAX_MESSAGE_SIZE {
        (None, Seq::empty())
    } else if buf.len() < announced_size(buf) {
        (None, buf)
    } else {
        (Some(front_record(buf)), buf.subrange(announced_size(buf) as int, buf.len() as int))
    }
}

/// The record at the front of `buf` does not depend on what follows it.
pub proof fn lemma_front_record_of_prefix(buf: Seq<u8>, size: int)
    requires
        HEADER_SIZE <= size <= buf.len(),
        announced_size(buf) == size,
    ensures
        announced_size(buf.subrange(0, size)) == size,
        front_record(buf.subrange(0, size)) == front_record(buf),
        decode_failure(buf.subrange(0, size)) is None <==> size <= MAX_MESSAGE_SIZE,
{
    let front = buf.subrange(0, size);
    assert(front.subrange(4, 8) =~= buf.subrange(4, 8));
    assert(front.subrange(HEADER_SIZE as int, size) =~= buf.subrange(HEADER_SIZE as int, size));
}

/// Streaming decoder: octets go in as they arrive, records come out as they
/// become complete.
pub struct WireDecoder {
    buffer: BytesMut,
}

impl View for WireDecoder {
    type V = Seq<u8>;

    /// The octets received and not yet decoded.
    closed spec fn view(&self) -> Seq<u8> {
        held(&self.buffer)
    }
}

impl WireDecoder {
    /// A decoder with nothing buffered.
    pub fn new() -> (d: WireDecoder)
        ensures
            d@ == Seq::<u8>::empty(),
    {
        WireDecoder { buffer: BytesMut::with_capacity(MAX_MESSAGE_SIZE) }
    }

    /// Appends received octets.
    pub fn push(&mut self, data: &[u8])
        ensures
            final(self)@ == old(self)@ + data@,
    {
        self.buffer.extend_from_slice(data);
    }

    /// Takes the next complete record out of the buffer, if there is one.
    /// `None` means that more octets are needed, or that the stream was
    /// corrupt and the buffer has been emptied; either way less than one
    /// record of the largest size is then buffered.
    pub fn decode(&mut self) -> (r: Option<Message>)
        ensures
            match r {
                Some(m) => pop_front(old(self)@).0 == Some(m@) && m.fd_count == 0 && well_formed(
                    m@,
                ),
                None => pop_front(old(self)@).0 is None && final(self)@.len() < MAX_MESSAGE_SIZE,
            },
            final(self)@ == pop_front(old(self)@).1,
    {
        if self.buffer.len() < HEADER_SIZE {
            return None;
        }
        let size_opcode = get_u32_le(&self.buffer, 4);
        let size = (size_opcode / 0x1_0000) as usize;
        if size < HEADER_SIZE || size > MAX_MESSAGE_SIZE {
            self.buffer.clear();
            return None;
        }
        if self.buffer.len() < size {
            return None;
        }
        proof {
            lemma_front_record_of_prefix(self@, size as int);
        }
        let msg_data = self.buffer.split_to(size);
        Message::decode(&msg_data).ok()
    }

    /// Number of octets currently buffered.
    pub fn buffered(&self) -> (n: usize)
        ensures
            n == self@.len(),
    {
        self.buffer.len()
    }

    /// Drops everything buffered.
    pub fn clear(&mut self)
        ensures
            final(self)@ == Seq::<u8>::empty(),
    {
        self.buffer.clear();
    }
}

impl Default for WireDecoder {
    fn default() -> (d: WireDecoder)
        ensures
            d@ == Seq::<u8>::empty(),
    {
        WireDecoder::new()
    }
}

/// Stateless encoder of records.
pub struct WireEncoder;

impl WireEncoder {
    pub fn new() -> WireEncoder {
        WireEncoder
    }

    /// The octets of one record.
    pub fn encode(&self, msg: &Message) -> (out: Vec<u8>)
        requires
            msg.fits(),
        ensures
            out@ == encoding(msg@),
    {
        msg.encode()
    }

    /// The octets of several records, in order and without padding.
    pub fn encode_batch(&self, messages: &[Message]) -> (out: Vec<u8>)
        requires
            forall|i: int| 0 <= i < messages@.len() ==> (#[trigger] messages@[i]).fits(),
        ensures
            out@ == batch_encoding(records(messages@)),
    {
        let mut buf: Vec<u8> = Vec::new();
        let mut i: usize = 0;
        while i < messages.len()
            invariant
                i <= messages@.len(),
                forall|k: int| 0 <= k < messages@.len() ==> (#[trigger] messages@[k]).fits(),
                buf@ == batch_encoding(records(messages@.subrange(0, i as int))),
            decreases messages@.len() - i,
        {
            let one = messages[i].encode();
            buf.extend_from_slice(one.as_slice());
            proof {
                let before = records(messages@.subrange(0, i as int));
                let after = records(messages@.subrange(0, i + 1));
                assert(after.drop_last() =~= before);
                assert(after.last() == messages@[i as int]@);
                assert(buf@ =~= batch_encoding(before) + encoding(messages@[i as int]@));
            }
            i += 1;
        }
        assert(messages@.subrange(0, i as int) =~= messages@);
        buf
    }
}

impl Default for WireEncoder {
    fn default() -> WireEncoder {
        WireEncoder::new()
    }
}

} // verus!
