//! The 14-byte header that opens a stream.
//!
//! | field      | size | values                       |
//! |------------|------|------------------------------|
//! | magic      | 4    | `qoif`                       |
//! | width      | 4    | big-endian, above 0          |
//! | height     | 4    | big-endian, above 0          |
//! | channels   | 1    | 3 (RGB) or 4 (RGBA)          |
//! | colorspace | 1    | 0 (sRGB) or 1 (all linear)   |

use vstd::prelude::*;
use crate::error::QoiError;

verus! {

/// Length of the header in bytes.
pub const HEADER_LEN: usize = 14;

/// How many channels the image had at its source. The stream carries alpha
/// either way; this is passed through for the reader's information.
#[derive(Debug, Clone, Copy, PartialEq, Eq, Structural)]
pub enum Channel {
    RGB,
    RGBA,
}

/// The color space of the image, passed through for the reader's information.
#[derive(Debug, Clone, Copy, PartialEq, Eq, Structural)]
pub enum Colorspace {
    /// sRGB with linear alpha.
    SRGB,
    /// All channels linear.
    Linear,
}

/// What the header says of an image. The magic is the same in every stream
/// and is not kept.
#[derive(Debug, Clone, Copy, PartialEq, Eq, Structural)]
pub struct QoiHeader {
    pub width: u32,
    pub height: u32,
    pub channels: Channel,
    pub colorspace: Colorspace,
}

/// The four bytes that open every stream: `qoif`.
pub open spec fn magic() -> Seq<u8> {
    seq![0x71u8, 0x6fu8, 0x69u8, 0x66u8]
}

/// A 32-bit number as four bytes, the most significant first.
pub open spec fn be32(v: u32) -> Seq<u8> {
    seq![
        (v / 0x100_0000) as u8,
        (v / 0x1_0000 % 256) as u8,
        (v / 0x100 % 256) as u8,
        (v % 256) as u8,
    ]
}

/// The number that four bytes spell, the most significant first.
pub open spec fn from_be32(b0: u8, b1: u8, b2: u8, b3: u8) -> u32 {
    (b0 * 0x100_0000 + b1 * 0x1_0000 + b2 * 0x100 + b3) as u32
}

impl Channel {
    /// The channel count as the header holds it.
    pub open spec fn spec_byte(self) -> u8 {
        match self {
            Channel::RGB => 3,
            Channel::RGBA => 4,
        }
    }

    /// The channel count as the header holds it: 3 or 4.
    pub fn byte(&self) -> (b: u8)
        ensures
            b == self.spec_byte(),
    {
        match self {
            Channel::RGB => 3,
            Channel::RGBA => 4,
        }
    }

    /// The channel count that a header byte names, if it names one.
    pub fn from_byte(b: u8) -> (channels: Option<Self>)
        ensures
            channels is Some <==> b == 3 || b == 4,
            channels matches Some(c) ==> c.spec_byte() == b,
    {
        if b == 3 {
            Some(Channel::RGB)
        } else if b == 4 {
            Some(Channel::RGBA)
        } else {
            None
        }
    }
}

impl Colorspace {
    /// The colorspace as the header holds it.
    pub open spec fn spec_byte(self) -> u8 {
        match self {
            Colorspace::SRGB => 0,
            Colorspace::Linear => 1,
        }
    }

    /// The colorspace as the header holds it: 0 or 1.
    pub fn byte(&self) -> (b: u8)
        ensures
            b == self.spec_byte(),
    {
        match self {
            Colorspace::SRGB => 0,
            Colorspace::Linear => 1,
        }
    }

    /// The colorspace that a header byte names, if it names one.
    pub fn from_byte(b: u8) -> (colorspace: Option<Self>)
        ensures
            colorspace is Some <==> b == 0 || b == 1,
            colorspace matches Some(c) ==> c.spec_byte() == b,
    {
        if b == 0 {
            Some(Colorspace::SRGB)
        } else if b == 1 {
            Some(Colorspace::Linear)
        } else {
            None
        }
    }
}

impl QoiHeader {
    /// Both dimensions are above zero.
    pub open spec fn wf(&self) -> bool {
        self.width > 0 && self.height > 0
    }

    /// The number of pixels of the image.
    pub open spec fn pixel_count(&self) -> nat {
        (self.width * self.height) as nat
    }

    /// The number of pixels of the image: width times height.
    pub fn pixels(&self) -> (n: u64)
        ensures
            n == self.pixel_count(),
    {
        assert(self.width * self.height <= 0xFFFF_FFFF * 0xFFFF_FFFF) by (nonlinear_arith)
            requires
                self.width <= 0xFFFF_FFFF,
                self.height <= 0xFFFF_FFFF,
        ;
        assert(0 <= self.width * self.height) by (nonlinear_arith);
        self.width as u64 * self.height as u64
    }
}

/// The header as bytes.
pub open spec fn header_bytes(h: QoiHeader) -> Seq<u8> {
    magic() + be32(h.width) + be32(h.height) + seq![
        h.channels.spec_byte(),
        h.colorspace.spec_byte(),
    ]
}

/// The header that a stream opens with; `None` where it opens with none that
/// is well formed.
pub open spec fn parse_header(bytes: Seq<u8>) -> Option<QoiHeader> {
    if bytes.len() < 14 || bytes.subrange(0, 4) != magic() {
        None
    } else {
        let width = from_be32(bytes[4], bytes[5], bytes[6], bytes[7]);
        let height = from_be32(bytes[8], bytes[9], bytes[10], bytes[11]);
        if width == 0 || height == 0 {
            None
        } else if bytes[12] != 3 && bytes[12] != 4 {
            None
        } else if bytes[13] != 0 && bytes[13] != 1 {
            None
        } else {
            Some(
                QoiHeader {
                    width,
                    height,
                    channels: if bytes[12] == 3 {
                        Channel::RGB
                    } else {
                        Channel::RGBA
                    },
                    colorspace: if bytes[13] == 0 {
                        Colorspace::SRGB
                    } else {
                        Colorspace::Linear
                    },
                },
            )
        }
    }
}

/// Appends a 32-bit number, the most significant byte first.
fn write_be32(v: u32, out: &mut Vec<u8>)
    ensures
        final(out)@ == old(out)@ + be32(v),
{
    out.push((v / 0x100_0000) as u8);
    out.push((v / 0x1_0000 % 256) as u8);
    out.push((v / 0x100 % 256) as u8);
    out.push((v % 256) as u8);
    assert(out@ =~= old(out)@ + be32(v));
}

/// Reads a 32-bit number, the most significant byte first.
fn read_be32(bytes: &[u8], pos: usize) -> (v: u32)
    requires
        pos + 4 <= bytes@.len(),
    ensures
        v == from_be32(
            bytes@[pos as int],
            bytes@[pos + 1],
            bytes@[pos + 2],
            bytes@[pos + 3],
        ),
{
    bytes[pos] as u32 * 0x100_0000 + bytes[pos + 1] as u32 * 0x1_0000 + bytes[pos + 2] as u32
        * 0x100 + bytes[pos + 3] as u32
}

/// Appends the header to `out`.
pub fn write_header(header: &QoiHeader, out: &mut Vec<u8>)
    ensures
        final(out)@ == old(out)@ + header_bytes(*header),
{
    out.push(0x71);
    out.push(0x6f);
    out.push(0x69);
    out.push(0x66);
    write_be32(header.width, out);
    write_be32(header.height, out);
    out.push(header.channels.byte());
    out.push(header.colorspace.byte());
    assert(out@ =~= old(out)@ + header_bytes(*header));
}

/// Reads the header that `bytes` open with.
///
/// Fails with `MalformedHeader` where there are fewer than 14 bytes, the magic
/// is not `qoif`, width or height is zero, the channel byte is neither 3 nor 4,
/// or the colorspace byte is neither 0 nor 1.
pub fn read_header(bytes: &[u8]) -> (result: Result<QoiHeader, QoiError>)
    ensures
        result == match parse_header(bytes@) {
            Some(header) => Ok::<QoiHeader, QoiError>(header),
            None => Err(QoiError::MalformedHeader),
        },
        result matches Ok(header) ==> header.wf(),
{
    if bytes.len() < HEADER_LEN {
        return Err(QoiError::MalformedHeader);
    }
    if bytes[0] != 0x71 || bytes[1] != 0x6f || bytes[2] != 0x69 || bytes[3] != 0x66 {
        assert(bytes@.subrange(0, 4)[0] == bytes@[0] && bytes@.subrange(0, 4)[1] == bytes@[1]
            && bytes@.subrange(0, 4)[2] == bytes@[2] && bytes@.subrange(0, 4)[3] == bytes@[3]);
        return Err(QoiError::MalformedHeader);
    }
    assert(bytes@.subrange(0, 4) =~= magic());
    let width = read_be32(bytes, 4);
    let height = read_be32(bytes, 8);
    if width == 0 || height == 0 {
        return Err(QoiError::MalformedHeader);
    }
    match (Channel::from_byte(bytes[12]), Colorspace::from_byte(bytes[13])) {
        (Some(channels), Some(colorspace)) => Ok(
            QoiHeader { width, height, channels, colorspace },
        ),
        _ => Err(QoiError::MalformedHeader),
    }
}

} // verus!
