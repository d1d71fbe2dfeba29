//! The pixel-frame channel to the presenter.
//!
//! A frame on the wire, little-endian throughout:
//! - magic, 4 octets: `"WPRD"`
//! - width, height: one word each
//! - format, one word: 0 for ARGB8888, 1 for XRGB8888
//! - data size, one word
//! - the pixel data

use crate::error::WinpipeError;
use crate::le::{get_u32_le, push_u32_le, u32_le, word_at};
use vstd::prelude::*;
use vstd::slice::slice_to_vec;
use vstd::string::*;

pub mod laws;

verus! {

/// The octets that open every frame.
pub const FRAME_MAGIC: &'static [u8; 4] = &[0x57, 0x50, 0x52, 0x44];

/// Octets in a frame header.
pub const HEADER_SIZE: usize = 20;

/// How the four octets of a pixel are laid out.
#[derive(Debug, Clone, Copy, PartialEq, Eq, Structural)]
pub enum PixelFormat {
    ARGB8888,
    XRGB8888,
}

impl PixelFormat {
    /// The number that stands for the format on the wire.
    pub open spec fn spec_code(self) -> u32 {
        match self {
            PixelFormat::ARGB8888 => 0,
            PixelFormat::XRGB8888 => 1,
        }
    }

    /// The format that a number on the wire stands for. Numbers without a
    /// format of their own are read as ARGB8888.
    pub open spec fn spec_from_code(code: u32) -> PixelFormat {
        if code == 1 {
            PixelFormat::XRGB8888
        } else {
            PixelFormat::ARGB8888
        }
    }

    /// The number that stands for the format on the wire.
    #[verifier::when_used_as_spec(spec_code)]
    pub fn code(self) -> (code: u32)
        ensures
            code == self.spec_code(),
    {
        match self {
            PixelFormat::ARGB8888 => 0,
            PixelFormat::XRGB8888 => 1,
        }
    }

    /// The format that a number on the wire stands for.
    #[verifier::when_used_as_spec(spec_from_code)]
    pub fn from_code(code: u32) -> (format: PixelFormat)
        ensures
            format == PixelFormat::spec_from_code(code),
    {
        match code {
            0 => PixelFormat::ARGB8888,
            1 => PixelFormat::XRGB8888,
            _ => PixelFormat::ARGB8888,
        }
    }
}

/// One full buffer of pixels on its way to the presenter.
#[derive(Debug)]
pub struct RenderFrame {
    pub width: u32,
    pub height: u32,
    pub format: PixelFormat,
    pub data: Vec<u8>,
}

/// What a frame says on the wire.
pub struct FrameSpec {
    pub width: u32,
    pub height: u32,
    pub format: PixelFormat,
    pub data: Seq<u8>,
}

impl View for RenderFrame {
    type V = FrameSpec;

    open spec fn view(&self) -> FrameSpec {
        FrameSpec { width: self.width, height: self.height, format: self.format, data: self.data@ }
    }
}

/// The magic as a sequence.
pub open spec fn magic() -> Seq<u8> {
    seq![0x57u8, 0x50u8, 0x52u8, 0x44u8]
}

/// Whether the magic stands in `data` at offset `at`.
pub open spec fn has_magic_at(data: Seq<u8>, at: int) -> bool {
    &&& 0 <= at
    &&& at + 4 <= data.len()
    &&& data[at] == 0x57
    &&& data[at + 1] == 0x50
    &&& data[at + 2] == 0x52
    &&& data[at + 3] == 0x44
}

/// A frame whose data size fits the header's 32-bit size field.
pub open spec fn valid_frame(f: FrameSpec) -> bool {
    f.data.len() <= u32::MAX
}

/// The octets of one frame. The size field holds the low 32 bits of the
/// data size.
pub open spec fn frame_encoding(f: FrameSpec) -> Seq<u8> {
    magic() + u32_le(f.width) + u32_le(f.height) + u32_le(f.format.spec_code()) + u32_le(
        f.data.len() as u32,
    ) + f.data
}

/// The data size announced by the header at the front of `data`.
pub open spec fn announced_data_size(data: Seq<u8>) -> nat
    recommends
        data.len() >= HEADER_SIZE,
{
    word_at(data, 16) as nat
}

/// The frame at the front of `data`, once header and pixel data are there.
pub open spec fn front_frame(data: Seq<u8>) -> FrameSpec
    recommends
        data.len() >= HEADER_SIZE + announced_data_size(data),
{
    FrameSpec {
        width: word_at(data, 4),
        height: word_at(data, 8),
        format: PixelFormat::spec_from_code(word_at(data, 12)),
        data: data.subrange(HEADER_SIZE as int, HEADER_SIZE + announced_data_size(data)),
    }
}

/// Why `data` does not begin with a whole frame, if it does not.
pub open spec fn frame_failure(data: Seq<u8>) -> Option<Seq<char>> {
    if data.len() < HEADER_SIZE {
        Some("Frame too short"@)
    } else if !has_magic_at(data, 0) {
        Some("Invalid frame magic"@)
    } else if data.len() < HEADER_SIZE + announced_data_size(data) {
        Some("Incomplete frame data"@)
    } else {
        None
    }
}

/// Whether the magic stands in `data` at offset `at`.
fn magic_at(data: &[u8], at: usize) -> (found: bool)
    requires
        at + 4 <= data@.len(),
    ensures
        found == has_magic_at(data@, at as int),
{
    data[at] == FRAME_MAGIC[0] && data[at + 1] == FRAME_MAGIC[1] && data[at + 2] == FRAME_MAGIC[2]
        && data[at + 3] == FRAME_MAGIC[3]
}

impl RenderFrame {
    pub fn new(width: u32, height: u32, format: PixelFormat, data: Vec<u8>) -> (f: RenderFrame)
        ensures
            f.width == width,
            f.height == height,
            f.format == format,
            f.data == data,
    {
        RenderFrame { width, height, format, data }
    }

    /// The frame's octets.
    pub fn encode(&self) -> (out: Vec<u8>)
        ensures
            out@ == frame_encoding(self@),
    {
        let mut buf: Vec<u8> = Vec::new();
        buf.extend_from_slice(FRAME_MAGIC.as_slice());
        push_u32_le(&mut buf, self.width);
        push_u32_le(&mut buf, self.height);
        push_u32_le(&mut buf, self.format.code());
        push_u32_le(&mut buf, self.data.len() as u32);
        buf.extend_from_slice(self.data.as_slice());
        assert(buf@ =~= frame_encoding(self@));
        buf
    }

    /// Parses the frame at the front of `data`; octets after it are ignored.
    pub fn decode(data: &[u8]) -> (r: Result<RenderFrame, WinpipeError>)
        ensures
            match r {
                Ok(f) => frame_failure(data@) is None && f@ == front_frame(data@),
                Err(e) => e matches WinpipeError::InvalidMessage(text) && frame_failure(data@)
                    == Some(text@),
            },
    {
        if data.len() < HEADER_SIZE {
            return Err(WinpipeError::InvalidMessage(String::from_str("Frame too short")));
        }
        if !magic_at(data, 0) {
            return Err(WinpipeError::InvalidMessage(String::from_str("Invalid frame magic")));
        }
        let width = get_u32_le(data, 4);
        let height = get_u32_le(data, 8);
        let format_val = get_u32_le(data, 12);
        let data_size = get_u32_le(data, 16) as usize;
        let format = PixelFormat::from_code(format_val);
        if data.len() - HEADER_SIZE < data_size {
            return Err(WinpipeError::InvalidMessage(String::from_str("Incomplete frame data")));
        }
        Ok(
            RenderFrame {
                width,
                height,
                format,
                data: slice_to_vec(&data[HEADER_SIZE..HEADER_SIZE + data_size]),
            },
        )
    }
}

/// The pixel at column `x` of row `y` of the test pattern: blue constant,
/// green growing down the rows, red growing along the columns, opaque.
pub open spec fn gradient_pixel(x: nat, y: nat, width: nat, height: nat) -> Seq<u8> {
    seq![128u8, (y * 255 / height) as u8, (x * 255 / width) as u8, 255u8]
}

/// The pixels of the first `count` positions of the test pattern, row by
/// row.
pub open spec fn gradient_pixels(count: nat, width: nat, height: nat) -> Seq<u8>
    decreases count,
{
    if count == 0 || width == 0 {
        Seq::empty()
    } else {
        let at = (count - 1) as nat;
        gradient_pixels(at, width, height) + gradient_pixel(at % width, at / width, width, height)
    }
}

/// A frame with a colour gradient, for trying out a presenter. The colours
/// are computed in 32 bits, which bounds width and height.
pub fn gradient_frame(width: u32, height: u32) -> (f: RenderFrame)
    requires
        width * 255 <= u32::MAX,
        height * 255 <= u32::MAX,
    ensures
        f.width == width,
        f.height == height,
        f.format == PixelFormat::ARGB8888,
        f.data@ == gradient_pixels((width * height) as nat, width as nat, height as nat),
{
    let mut pixels: Vec<u8> = Vec::new();
    let mut y: u32 = 0;
    while y < height
        invariant
            y <= height,
            width * 255 <= u32::MAX,
            height * 255 <= u32::MAX,
            pixels@ == gradient_pixels((y * width) as nat, width as nat, height as nat),
        decreases height - y,
    {
        let mut x: u32 = 0;
        while x < width
            invariant
                x <= width,
                y < height,
                width * 255 <= u32::MAX,
                height * 255 <= u32::MAX,
                pixels@ == gradient_pixels((y * width + x) as nat, width as nat, height as nat),
            decreases width - x,
        {
            proof {
                assert(x * 255 <= width * 255) by (nonlinear_arith)
                    requires
                        x <= width,
                ;
                assert(y * 255 <= height * 255) by (nonlinear_arith)
                    requires
                        y <= height,
                ;
                assert((y * width + x) / (width as int) == y && (y * width + x) % (width as int)
                    == x) by (nonlinear_arith)
                    requires
                        0 <= x < width,
                        0 <= y,
                ;
                assert(y * width + x >= 0) by (nonlinear_arith)
                    requires
                        0 <= x,
                        0 <= y,
                        0 <= width,
                ;
                assert(x * 255 / (width as int) < 255) by (nonlinear_arith)
                    requires
                        0 <= x < width,
                ;
                assert(y * 255 / (height as int) < 255) by (nonlinear_arith)
                    requires
                        0 <= y < height,
                ;
            }
            let r = ((x * 255) / width) as u8;
            let g = ((y * 255) / height) as u8;
            let ghost before = pixels@;
            pixels.push(128);
            pixels.push(g);
            pixels.push(r);
            pixels.push(255);
            assert(pixels@ =~= before + gradient_pixel(
                x as nat,
                y as nat,
                width as nat,
                height as nat,
            ));
            x += 1;
        }
        assert((y + 1) * width == y * width + width) by (nonlinear_arith);
        y += 1;
    }
    assert(height * width == width * height) by (nonlinear_arith);
    RenderFrame::new(width, height, PixelFormat::ARGB8888, pixels)
}

/// What the sending side puts on the stream to the presenter for one frame:
/// the frame's octets, or an error while no stream is open.
pub fn frame_for_stream(connected: bool, frame: &RenderFrame) -> (r: Result<Vec<u8>, WinpipeError>)
    ensures
        match r {
            Ok(out) => connected && out@ == frame_encoding(frame@),
            Err(e) => !connected && (e matches WinpipeError::Protocol(text) && text@
                == "Not connected"@),
        },
{
    if !connected {
        return Err(WinpipeError::Protocol(String::from_str("Not connected")));
    }
    Ok(frame.encode())
}

/// The first offset at or after `from` at which the magic stands in `buf`.
pub open spec fn magic_from(buf: Seq<u8>, from: int) -> Option<int>
    decreases buf.len() - from,
{
    if from < 0 || from + 4 > buf.len() {
        None
    } else if has_magic_at(buf, from) {
        Some(from)
    } else {
        magic_from(buf, from + 1)
    }
}

/// What one decoding attempt does to the buffered octets: the frame that
/// comes out, if one is complete, and the octets that stay.
///
/// When the buffer does not start with the magic, everything before the next
/// magic is dropped, or everything if there is none.
pub open spec fn next_frame(buf: Seq<u8>) -> (Option<FrameSpec>, Seq<u8>) {
    if buf.len() < HEADER_SIZE {
        (None, buf)
    } else if !has_magic_at(buf, 0) {
        match magic_from(buf, 0) {
            Some(pos) => (None, buf.subrange(pos, buf.len() as int)),
            None => (None, Seq::empty()),
        }
    } else if buf.len() < HEADER_SIZE + announced_data_size(buf) {
        (None, buf)
    } else {
        (
            Some(front_frame(buf)),
            buf.subrange(HEADER_SIZE + announced_data_size(buf), buf.len() as int),
        )
    }
}

/// The frame at the front of `buf` does not depend on what follows it.
pub proof fn lemma_front_frame_of_prefix(buf: Seq<u8>, total: int)
    requires
        buf.len() >= HEADER_SIZE,
        total == HEADER_SIZE + announced_data_size(buf),
        total <= buf.len(),
    ensures
        has_magic_at(buf.subrange(0, total), 0) == has_magic_at(buf, 0),
        announced_data_size(buf.subrange(0, total)) == announced_data_size(buf),
        front_frame(buf.subrange(0, total)) == front_frame(buf),
{
    let front = buf.subrange(0, total);
    assert(front.subrange(4, 8) =~= buf.subrange(4, 8));
    assert(front.subrange(8, 12) =~= buf.subrange(8, 12));
    assert(front.subrange(12, 16) =~= buf.subrange(12, 16));
    assert(front.subrange(16, 20) =~= buf.subrange(16, 20));
    assert(front.subrange(HEADER_SIZE as int, total) =~= buf.subrange(HEADER_SIZE as int, total));
}

/// Streaming decoder of frames, on the presenter's side.
pub struct FrameDecoder {
    buffer: Vec<u8>,
}

impl View for FrameDecoder {
    type V = Seq<u8>;

    /// The octets received and not yet decoded.
    closed spec fn view(&self) -> Seq<u8> {
        self.buffer@
    }
}

impl FrameDecoder {
    /// A decoder with nothing buffered.
    pub fn new() -> (d: FrameDecoder)
        ensures
            d@ == Seq::<u8>::empty(),
    {
        FrameDecoder { buffer: Vec::with_capacity(1024 * 1024) }
    }

    /// Appends received octets.
    pub fn push(&mut self, data: &[u8])
        ensures
            final(self)@ == old(self)@ + data@,
    {
        self.buffer.extend_from_slice(data);
        assert(self.buffer@ =~= old(self).buffer@ + data@);
    }

    /// Takes the next complete frame out of the buffer, if there is one.
    /// `None` means that more octets are needed, or that octets which cannot
    /// start a frame have been dropped.
    pub fn decode(&mut self) -> (r: Option<RenderFrame>)
        ensures
            match r {
                Some(f) => next_frame(old(self)@).0 == Some(f@),
                None => next_frame(old(self)@).0 is None,
            },
            final(self)@ == next_frame(old(self)@).1,
    {
        if self.buffer.len() < HEADER_SIZE {
            return None;
        }
        if !magic_at(self.buffer.as_slice(), 0) {
            match self.find_magic() {
                Some(pos) => {
                    let rest = self.buffer.split_off(pos);
                    self.buffer = rest;
                },
                None => {
                    self.buffer.clear();
                },
            }
            return None;
        }
        let data_size = get_u32_le(self.buffer.as_slice(), 16) as usize;
        if self.buffer.len() - HEADER_SIZE < data_size {
            return None;
        }
        let total_size = HEADER_SIZE + data_size;
        proof {
            lemma_front_frame_of_prefix(self@, total_size as int);
        }
        match RenderFrame::decode(&self.buffer.as_slice()[0..total_size]) {
            Ok(frame) => {
                let rest = self.buffer.split_off(total_size);
                self.buffer = rest;
                Some(frame)
            },
            Err(_) => {
                // A frame that fails to parse behind a good magic costs the
                // magic, so that the search goes on behind it. The checks
                // above leave no way to get here.
                let rest = self.buffer.split_off(4);
                self.buffer = rest;
                None
            },
        }
    }

    /// The offset of the first magic in the buffer.
    fn find_magic(&self) -> (found: Option<usize>)
        ensures
            match found {
                Some(pos) => magic_from(self@, 0) == Some(pos as int) && pos + 4 <= self@.len(),
                None => magic_from(self@, 0) is None,
            },
    {
        let data = self.buffer.as_slice();
        let mut pos: usize = 0;
        while data.len() >= 4 && pos <= data.len() - 4
            invariant
                data@ == self@,
                magic_from(self@, 0) == magic_from(self@, pos as int),
            decreases data@.len() - pos,
        {
            if magic_at(data, pos) {
                return Some(pos);
            }
            pos += 1;
        }
        None
    }
}

impl Default for FrameDecoder {
    fn default() -> (d: FrameDecoder)
        ensures
            d@ == Seq::<u8>::empty(),
    {
        FrameDecoder::new()
    }
}

} // verus!
