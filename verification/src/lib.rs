//! Decoder library for a cartridge filesystem image format and its embedded
//! containers: the filesystem tree with its two linked on-disk tables, the
//! chunked archive container, two LZ-style decompression codecs, and the
//! indexed-color tile graphics with their 15-bit palettes.

pub mod errors;
pub mod fnt;
pub mod header;
pub mod lz;
pub mod narc;
pub mod ncgr;
pub mod nclr;
pub mod reader;
pub mod rom;
