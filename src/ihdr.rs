use vstd::prelude::*;

use crate::chunk::{be_u32_value, ChunkModel, PNGChunk};
use crate::error::InvalidPNGFormat;

verus! {

/// The type tag of the header chunk, "IHDR".
pub const IHDR_TAG: [u8; 4] = [73, 72, 68, 82];

/// "IHDR" as a sequence of bytes.
pub open spec fn ihdr_tag() -> Seq<u8> {
    seq![73u8, 72u8, 68u8, 82u8]
}

/// The fields of a header chunk's 13-byte payload.
#[derive(Debug, Clone, Copy, PartialEq, Eq, Structural)]
pub struct IHDRData {
    pub width: u32,
    pub height: u32,
    pub bit_depth: u8,
    pub color_type: u8,
    pub compression_method: u8,
    pub filter_method: u8,
    pub interlace_method: u8,
}

/// Bit depths that PNG defines.
pub open spec fn is_bit_depth(b: u8) -> bool {
    b == 1 || b == 2 || b == 4 || b == 8 || b == 16
}

/// Color types that PNG defines.
pub open spec fn is_color_type(c: u8) -> bool {
    c == 0 || c == 2 || c == 3 || c == 4 || c == 6
}

/// Whether bit depth `b` is allowed together with color type `c`: truecolor
/// and the alpha types need 8 or 16, indexed color forbids 16, grayscale
/// takes every depth.
pub open spec fn depth_fits_color(b: u8, c: u8) -> bool {
    if c == 2 || c == 4 || c == 6 {
        b == 8 || b == 16
    } else if c == 3 {
        b != 16
    } else {
        true
    }
}

/// The fields that a header payload holds, read without any check.
pub open spec fn header_fields(d: Seq<u8>) -> IHDRData
    recommends
        d.len() >= 13,
{
    IHDRData {
        width: be_u32_value(d.subrange(0, 4)) as u32,
        height: be_u32_value(d.subrange(4, 8)) as u32,
        bit_depth: d[8],
        color_type: d[9],
        compression_method: d[10],
        filter_method: d[11],
        interlace_method: d[12],
    }
}

/// The first rule of the header that `h` breaks, if any, in the order:
/// dimensions, bit depth, color type, bit depth for the color type,
/// compression, filter, interlace.
pub open spec fn header_violation(h: IHDRData) -> Option<InvalidPNGFormat> {
    if h.width == 0 || h.height == 0 {
        Some(InvalidPNGFormat::InvalidDimensions)
    } else if !is_bit_depth(h.bit_depth) {
        Some(InvalidPNGFormat::InvalidBitDepth)
    } else if !is_color_type(h.color_type) {
        Some(InvalidPNGFormat::InvalidColorType)
    } else if !depth_fits_color(h.bit_depth, h.color_type) {
        Some(InvalidPNGFormat::IncompatibleBitDepthForColorType)
    } else if h.compression_method != 0 {
        Some(InvalidPNGFormat::UnsupportedCompressionMethod)
    } else if h.filter_method != 0 {
        Some(InvalidPNGFormat::UnsupportedFilterMethod)
    } else if h.interlace_method > 1 {
        Some(InvalidPNGFormat::UnsupportedInterlaceMethod)
    } else {
        None
    }
}

/// What decoding chunk `c` as a header gives.
pub open spec fn decode_header(c: ChunkModel) -> Result<IHDRData, InvalidPNGFormat> {
    if c.chunk_type != ihdr_tag() {
        Err(InvalidPNGFormat::NotAHeaderChunk)
    } else if c.data.len() < 13 {
        Err(InvalidPNGFormat::TruncatedPayload)
    } else {
        match header_violation(header_fields(c.data)) {
            Some(e) => Err(e),
            None => Ok(header_fields(c.data)),
        }
    }
}

impl IHDRData {
    /// Decodes and checks the payload of a header chunk. Fails with
    /// `NotAHeaderChunk` where the chunk's type is not "IHDR", with
    /// `TruncatedPayload` where its payload has fewer than 13 bytes, and
    /// otherwise with the first rule of the header that the fields break.
    pub fn from_chunk(chunk: &PNGChunk) -> (r: Result<IHDRData, InvalidPNGFormat>)
        ensures
            r == decode_header(chunk@),
    {
        if !chunk.has_type(&IHDR_TAG) {
            assert(IHDR_TAG@ =~= ihdr_tag());
            return Err(InvalidPNGFormat::NotAHeaderChunk);
        }
        assert(IHDR_TAG@ =~= ihdr_tag());
        let d = chunk.data();
        if d.len() < 13 {
            return Err(InvalidPNGFormat::TruncatedPayload);
        }
        let width = (d[0] as u32) * 0x1000000 + (d[1] as u32) * 0x10000 + (d[2] as u32) * 0x100
            + (d[3] as u32);
        let height = (d[4] as u32) * 0x1000000 + (d[5] as u32) * 0x10000 + (d[6] as u32) * 0x100
            + (d[7] as u32);
        let h = IHDRData {
            width,
            height,
            bit_depth: d[8],
            color_type: d[9],
            compression_method: d[10],
            filter_method: d[11],
            interlace_method: d[12],
        };
        proof {
            reveal(be_u32_value);
        }
        assert(h == header_fields(d@));
        let b = h.bit_depth;
        let c = h.color_type;
        if width == 0 || height == 0 {
            Err(InvalidPNGFormat::InvalidDimensions)
        } else if !(b == 1 || b == 2 || b == 4 || b == 8 || b == 16) {
            Err(InvalidPNGFormat::InvalidBitDepth)
        } else if !(c == 0 || c == 2 || c == 3 || c == 4 || c == 6) {
            Err(InvalidPNGFormat::InvalidColorType)
        } else if (c == 2 || c == 4 || c == 6) && !(b == 8 || b == 16) {
            Err(InvalidPNGFormat::IncompatibleBitDepthForColorType)
        } else if c == 3 && b == 16 {
            Err(InvalidPNGFormat::IncompatibleBitDepthForColorType)
        } else if h.compression_method != 0 {
            Err(InvalidPNGFormat::UnsupportedCompressionMethod)
        } else if h.filter_method != 0 {
            Err(InvalidPNGFormat::UnsupportedFilterMethod)
        } else if h.interlace_method > 1 {
            Err(InvalidPNGFormat::UnsupportedInterlaceMethod)
        } else {
            Ok(h)
        }
    }
}

} // verus!
