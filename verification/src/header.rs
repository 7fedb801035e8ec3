//! Fixed-layout headers: the cartridge image header, whose only fields the
//! decoding pipeline reads are the locations of the two linked tables, and
//! the generic section header that opens every graphics resource.

use vstd::prelude::*;

use crate::errors::StructuralError;
use crate::reader::{le16, le32, read_bytes, read_u16, read_u32};

verus! {

/// The cartridge image header. Of its fixed layout only the name-table and
/// allocation-table locations matter to decoding; the rest (title, codes,
/// load addresses) is opaque pass-through data that parsing skips over.
#[derive(Debug)]
pub struct NDS {
    pub fnt_offset: u32,
    pub fnt_length: u32,
    pub fat_offset: u32,
    pub fat_length: u32,
}

impl NDS {
    /// Reads the four table fields from their fixed offsets. The fixed
    /// header region those offsets sit in spans 0x180 bytes; a shorter
    /// input cannot be a cartridge image.
    pub fn parse(data: &[u8]) -> (r: Result<NDS, StructuralError>)
        ensures
            match r {
                Ok(h) => data@.len() >= 0x180 && h.fnt_offset == le32(data@, 0x40)
                    && h.fnt_length == le32(data@, 0x44) && h.fat_offset == le32(data@, 0x48)
                    && h.fat_length == le32(data@, 0x4C),
                Err(e) => data@.len() < 0x180 && e == StructuralError::OutOfBounds,
            },
    {
        if data.len() < 0x180 {
            return Err(StructuralError::OutOfBounds);
        }
        Ok(
            NDS {
                fnt_offset: read_u32(data, 0x40),
                fnt_length: read_u32(data, 0x44),
                fat_offset: read_u32(data, 0x48),
                fat_length: read_u32(data, 0x4C),
            },
        )
    }
}

/// The 16-byte header that opens each graphics resource container: a 4-byte
/// magic, byte order, version, total section size, the offset of the first
/// content section, and the section count.
#[derive(Debug)]
pub struct GenericHeader {
    pub magic: Vec<u8>,
    pub byte_order: u16,
    pub version: u16,
    pub section_size: u32,
    pub header_size: u16,
    pub section_count: u16,
}

impl GenericHeader {
    /// Reads the generic header from the front of `data`.
    pub fn parse(data: &[u8]) -> (r: Result<GenericHeader, StructuralError>)
        ensures
            match r {
                Ok(h) => data@.len() >= 16 && h.magic@ == data@.subrange(0, 4) && h.byte_order
                    == le16(data@, 4) && h.version == le16(data@, 6) && h.section_size == le32(
                    data@,
                    8,
                ) && h.header_size == le16(data@, 12) && h.section_count == le16(data@, 14),
                Err(e) => data@.len() < 16 && e == StructuralError::OutOfBounds,
            },
    {
        if data.len() < 16 {
            return Err(StructuralError::OutOfBounds);
        }
        Ok(
            GenericHeader {
                magic: read_bytes(data, 0, 4),
                byte_order: read_u16(data, 4),
                version: read_u16(data, 6),
                section_size: read_u32(data, 8),
                header_size: read_u16(data, 12),
                section_count: read_u16(data, 14),
            },
        )
    }
}

} // verus!
