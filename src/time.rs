use vstd::prelude::*;

use crate::chunk::{ChunkModel, PNGChunk};
use crate::error::InvalidPNGFormat;

verus! {

/// The type tag of the last-modified chunk, "tIME".
pub const TIME_TAG: [u8; 4] = [116, 73, 77, 69];

/// "tIME" as a sequence of bytes.
pub open spec fn time_tag() -> Seq<u8> {
    seq![116u8, 73u8, 77u8, 69u8]
}

/// The fields of a last-modified chunk's 7-byte payload. No field is range-checked.
#[derive(Debug, Clone, Copy, PartialEq, Eq, Structural)]
pub struct TimeData {
    pub year: u16,
    pub month: u8,
    pub day: u8,
    pub hour: u8,
    pub minute: u8,
    pub second: u8,
}

/// What decoding chunk `c` as a timestamp gives: the year in two big-endian
/// bytes, then month, day, hour, minute and second in one byte each.
pub open spec fn decode_time(c: ChunkModel) -> Result<TimeData, InvalidPNGFormat> {
    let d = c.data;
    if d.len() < 7 {
        Err(InvalidPNGFormat::TruncatedPayload)
    } else {
        Ok(
            TimeData {
                year: (d[0] as nat * 0x100 + d[1] as nat) as u16,
                month: d[2],
                day: d[3],
                hour: d[4],
                minute: d[5],
                second: d[6],
            },
        )
    }
}

impl TimeData {
    /// Decodes the payload of a last-modified chunk; fails with
    /// `TruncatedPayload` where it has fewer than 7 bytes.
    pub fn from_chunk(chunk: &PNGChunk) -> (r: Result<TimeData, InvalidPNGFormat>)
        ensures
            r == decode_time(chunk@),
    {
        let d = chunk.data();
        if d.len() < 7 {
            return Err(InvalidPNGFormat::TruncatedPayload);
        }
        Ok(
            TimeData {
                year: (d[0] as u16) * 0x100 + (d[1] as u16),
                month: d[2],
                day: d[3],
                hour: d[4],
                minute: d[5],
                second: d[6],
            },
        )
    }
}

} // verus!
