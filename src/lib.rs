//! Chunk-level reading and writing of PNG files.
//!
//! A PNG file is an eight-byte signature followed by length-prefixed chunks.
//! This library splits such a byte stream into chunks, keeps the header
//! (`IHDR`) and last-modified (`tIME`) chunks apart from the others, decodes
//! those two on demand, and serialises a document back to bytes.
pub mod chunk;
pub mod error;
pub mod ihdr;
pub mod png;
pub mod time;

pub use chunk::PNGChunk;
pub use error::InvalidPNGFormat;
pub use ihdr::{IHDRData, IHDR_TAG};
pub use png::{read_all, PNGFile, IEND_TAG, PNG_SIGNATURE};
pub use time::{TimeData, TIME_TAG};
