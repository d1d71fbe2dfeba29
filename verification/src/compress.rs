//! Compression of the forwarded stream, and its accounting.

use crate::error::WinpipeError;
use crate::le::{get_u32_le, push_u32_le, u32_le, word_at};
use crate::lz4::{compressible, expanded, MAX_BLOCK_INPUT};
use crate::text::{decimal, decimal_text};
use lz4_flex::block::{compress_prepend_size, decompress_size_prepended};
use vstd::prelude::*;
use vstd::slice::slice_to_vec;
use vstd::string::*;

verus! {

/// How hard to compress.
#[derive(Debug, Clone, Copy, PartialEq, Eq, Structural)]
pub enum CompressionLevel {
    /// Octets pass through unchanged.
    Off,
    /// LZ4.
    Fast,
    /// Stands for LZ4 HC; served by the same codec as `Fast`.
    High,
}

impl Default for CompressionLevel {
    fn default() -> (level: CompressionLevel)
        ensures
            level == CompressionLevel::Fast,
    {
        CompressionLevel::Fast
    }
}

/// Running totals of a compressor.
#[derive(Debug, Clone, Copy)]
pub struct CompressionStats {
    pub bytes_in: u64,
    pub bytes_out: u64,
    pub messages: u64,
}

impl Default for CompressionStats {
    fn default() -> (stats: CompressionStats)
        ensures
            stats == CompressionStats::zero(),
    {
        CompressionStats { bytes_in: 0, bytes_out: 0, messages: 0 }
    }
}

impl CompressionStats {
    /// Nothing counted yet.
    pub open spec fn zero() -> CompressionStats {
        CompressionStats { bytes_in: 0, bytes_out: 0, messages: 0 }
    }

    /// The totals after one more call has taken `consumed` octets, before
    /// its output is known. The counters wrap around at 2^64.
    pub open spec fn entered(self, consumed: nat) -> CompressionStats {
        CompressionStats {
            bytes_in: self.bytes_in.wrapping_add(consumed as u64),
            bytes_out: self.bytes_out,
            messages: self.messages.wrapping_add(1),
        }
    }

    /// The totals after a call has also produced `produced` octets.
    pub open spec fn left(self, produced: nat) -> CompressionStats {
        CompressionStats {
            bytes_in: self.bytes_in,
            bytes_out: self.bytes_out.wrapping_add(produced as u64),
            messages: self.messages,
        }
    }
}

/// Compresses and expands the octets of a connection, and keeps count.
pub struct Compressor {
    level: CompressionLevel,
    stats: CompressionStats,
}

impl Compressor {
    /// The level that the compressor was made with.
    pub closed spec fn spec_level(&self) -> CompressionLevel {
        self.level
    }

    /// The level that the compressor was made with.
    #[verifier::when_used_as_spec(spec_level)]
    pub fn level(&self) -> (level: CompressionLevel)
        ensures
            level == self.spec_level(),
    {
        self.level
    }

    /// The totals so far.
    pub closed spec fn totals(&self) -> CompressionStats {
        self.stats
    }

    pub fn new(level: CompressionLevel) -> (c: Compressor)
        ensures
            c.level() == level,
            c.totals() == CompressionStats::zero(),
    {
        Compressor { level, stats: CompressionStats::default() }
    }

    /// Compresses `data` and counts the call. Without compression the
    /// output is the input. With it, the output starts with the length of
    /// the input as a little-endian word; the rest is the codec's. Either
    /// way the output expands to the input, as long as the length fits the
    /// 32 bits in front.
    pub fn compress(&mut self, data: &[u8]) -> (out: Vec<u8>)
        requires
            old(self).level() != CompressionLevel::Off ==> compressible(data@.len()),
        ensures
            final(self).level() == old(self).level(),
            final(self).totals() == old(self).totals().entered(data@.len()).left(out@.len()),
            old(self).level() == CompressionLevel::Off ==> out@ == data@,
            old(self).level() != CompressionLevel::Off ==> out@.len() >= 4 && out@.subrange(0, 4)
                == u32_le(data@.len() as u32),
            data@.len() <= u32::MAX ==> Compressor::expansion(old(self).level(), out@) == Some(
                data@,
            ),
    {
        self.stats.bytes_in = self.stats.bytes_in.wrapping_add(data.len() as u64);
        self.stats.messages = self.stats.messages.wrapping_add(1);

        let result = match self.level {
            CompressionLevel::Off => slice_to_vec(data),
            CompressionLevel::Fast | CompressionLevel::High => compress_prepend_size(data),
        };

        self.stats.bytes_out = self.stats.bytes_out.wrapping_add(result.len() as u64);
        result
    }

    /// Expands `data` and counts the call. Without compression the output
    /// is the input. With it, the codec decides; where it reports an error,
    /// the call is counted and no output is.
    pub fn decompress(&mut self, data: &[u8]) -> (r: Result<Vec<u8>, WinpipeError>)
        requires
            old(self).level() != CompressionLevel::Off ==> data@.len() <= MAX_BLOCK_INPUT,
        ensures
            final(self).level() == old(self).level(),
            match r {
                Ok(plain) => {
                    &&& Compressor::expansion(old(self).level(), data@) == Some(plain@)
                    &&& final(self).totals() == old(self).totals().entered(data@.len()).left(
                        plain@.len(),
                    )
                },
                Err(e) => {
                    &&& e is Compression
                    &&& Compressor::expansion(old(self).level(), data@) is None
                    &&& final(self).totals() == old(self).totals().entered(data@.len())
                },
            },
    {
        self.stats.bytes_in = self.stats.bytes_in.wrapping_add(data.len() as u64);
        self.stats.messages = self.stats.messages.wrapping_add(1);

        let result = match self.level {
            CompressionLevel::Off => slice_to_vec(data),
            CompressionLevel::Fast | CompressionLevel::High => {
                match decompress_size_prepended(data) {
                    Ok(plain) => plain,
                    Err(e) => {
                        return Err(WinpipeError::Compression(e.to_string()));
                    },
                }
            },
        };

        self.stats.bytes_out = self.stats.bytes_out.wrapping_add(result.len() as u64);
        Ok(result)
    }

    /// What expanding `data` at a level gives, if it gives anything.
    pub open spec fn expansion(level: CompressionLevel, data: Seq<u8>) -> Option<Seq<u8>> {
        if level == CompressionLevel::Off {
            Some(data)
        } else {
            expanded(data)
        }
    }

    /// The totals so far.
    pub fn stats(&self) -> (stats: &CompressionStats)
        ensures
            *stats == self.totals(),
    {
        &self.stats
    }

    /// Starts the count again.
    pub fn reset_stats(&mut self)
        ensures
            final(self).level() == old(self).level(),
            final(self).totals() == CompressionStats::zero(),
    {
        self.stats = CompressionStats::default();
    }
}

impl Default for Compressor {
    fn default() -> (c: Compressor)
        ensures
            c.level() == CompressionLevel::Fast,
            c.totals() == CompressionStats::zero(),
    {
        Compressor::new(CompressionLevel::Fast)
    }
}

/// A run of compressed octets with its sizes in front.
///
/// On the wire: the compressed size, the plain size, both little-endian
/// words, then the compressed octets.
#[derive(Debug)]
pub struct CompressedFrame {
    pub compressed_size: u32,
    pub uncompressed_size: u32,
    pub data: Vec<u8>,
}

/// What a compressed frame says on the wire.
pub struct CompressedFrameSpec {
    pub compressed_size: u32,
    pub uncompressed_size: u32,
    pub data: Seq<u8>,
}

impl View for CompressedFrame {
    type V = CompressedFrameSpec;

    open spec fn view(&self) -> CompressedFrameSpec {
        CompressedFrameSpec {
            compressed_size: self.compressed_size,
            uncompressed_size: self.uncompressed_size,
            data: self.data@,
        }
    }
}

/// The octets of a compressed frame.
pub open spec fn compressed_frame_encoding(f: CompressedFrameSpec) -> Seq<u8> {
    u32_le(f.compressed_size) + u32_le(f.uncompressed_size) + f.data
}

pub open spec fn incomplete_frame_text(have: nat, need: nat) -> Seq<char> {
    "Incomplete frame: have "@ + decimal(have) + ", need "@ + decimal(need)
}

/// Why `data` does not begin with a whole compressed frame, if it does not.
pub open spec fn compressed_frame_failure(data: Seq<u8>) -> Option<Seq<char>> {
    if data.len() < 8 {
        Some("Frame too short"@)
    } else if data.len() < 8 + word_at(data, 0) {
        Some(incomplete_frame_text(data.len(), (8 + word_at(data, 0)) as nat))
    } else {
        None
    }
}

/// The compressed frame at the front of `data`.
pub open spec fn front_compressed_frame(data: Seq<u8>) -> CompressedFrameSpec
    recommends
        compressed_frame_failure(data) is None,
{
    CompressedFrameSpec {
        compressed_size: word_at(data, 0),
        uncompressed_size: word_at(data, 4),
        data: data.subrange(8, 8 + word_at(data, 0)),
    }
}

impl CompressedFrame {
    /// A frame around `data`. The size field holds the low 32 bits of its
    /// length.
    pub fn new(data: Vec<u8>, uncompressed_size: u32) -> (f: CompressedFrame)
        ensures
            f.compressed_size == data@.len() as u32,
            f.uncompressed_size == uncompressed_size,
            f.data == data,
    {
        CompressedFrame { compressed_size: data.len() as u32, uncompressed_size, data }
    }

    /// The frame's octets.
    pub fn encode(&self) -> (out: Vec<u8>)
        ensures
            out@ == compressed_frame_encoding(self@),
    {
        let mut buf: Vec<u8> = Vec::new();
        push_u32_le(&mut buf, self.compressed_size);
        push_u32_le(&mut buf, self.uncompressed_size);
        buf.extend_from_slice(self.data.as_slice());
        assert(buf@ =~= compressed_frame_encoding(self@));
        buf
    }

    /// Parses the frame at the front of `data`; octets after it are ignored.
    pub fn decode(data: &[u8]) -> (r: Result<CompressedFrame, WinpipeError>)
        ensures
            match r {
                Ok(f) => compressed_frame_failure(data@) is None && f@ == front_compressed_frame(
                    data@,
                ),
                Err(e) => e matches WinpipeError::InvalidMessage(text) && compressed_frame_failure(
                    data@,
                ) == Some(text@),
            },
    {
        if data.len() < 8 {
            return Err(WinpipeError::InvalidMessage(String::from_str("Frame too short")));
        }
        let compressed_size = get_u32_le(data, 0);
        let uncompressed_size = get_u32_le(data, 4);
        if data.len() - 8 < compressed_size as usize {
            let expected_len: u64 = 8 + compressed_size as u64;
            let text = String::from_str("Incomplete frame: have ").concat(
                decimal_text(data.len() as u64).as_str(),
            ).concat(", need ").concat(decimal_text(expected_len).as_str());
            return Err(WinpipeError::InvalidMessage(text));
        }
        let expected_len: usize = 8 + compressed_size as usize;
        Ok(
            CompressedFrame {
                compressed_size,
                uncompressed_size,
                data: slice_to_vec(&data[8..expected_len]),
            },
        )
    }

    /// Total size on the wire.
    pub fn wire_size(&self) -> (n: usize)
        requires
            8 + self.data@.len() <= usize::MAX,
        ensures
            n == 8 + self.data@.len(),
    {
        8 + self.data.len()
    }
}

} // verus!
