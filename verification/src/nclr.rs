//! The palette resource: a table of 15-bit packed colors expanded into
//! 8-bit-per-channel triples. Bits 0-4 are red, 5-9 green, 10-14 blue; each
//! 5-bit channel is scaled by exactly 8, the source hardware's mapping, with
//! no rounding adjustment (so channel 31 becomes 248, not 255).

use vstd::prelude::*;

use crate::errors::StructuralError;
use crate::header::GenericHeader;
use crate::reader::{le16, le32, read_bytes, read_u16, read_u32};

verus! {

/// A palette resource: the generic header, then its single color section.
#[derive(Debug)]
pub struct NCLR {
    pub header: GenericHeader,
    pub ttlp: TTLP,
}

/// The color section: its own magic and bookkeeping fields, then the packed
/// 16-bit colors.
#[derive(Debug)]
pub struct TTLP {
    pub magic: Vec<u8>,
    pub section_size: u32,
    pub pallete_bit_depth: u32,
    pub padding: u32,
    pub pallete_data_size: u32,
    pub colors_per_pallete: u32,
    pub data: Vec<u16>,
}

/// Expansion of one packed 15-bit color into an (r, g, b) triple.
pub open spec fn unpack_color(c: u16) -> (u8, u8, u8) {
    ((((c & 0x1F) * 8) as u8), ((((c >> 5) & 0x1F) * 8) as u8), ((((c >> 10) & 0x1F) * 8) as u8))
}

/// Whether `data` holds a whole palette resource: the generic header, the
/// color section's fixed fields, and as many color bytes as those declare.
pub open spec fn nclr_parse_ok(data: Seq<u8>) -> bool {
    data.len() >= 16 && {
        let off = le16(data, 12);
        off + 24 <= data.len() && off + 24 + 2 * (le32(data, off + 16) / 2) <= data.len()
    }
}

impl NCLR {
    /// Parses a palette resource: the generic header locates the color
    /// section at its `header_size` offset; the section's declared data size
    /// gives the number of packed colors.
    pub fn parse(data: &[u8]) -> (r: Result<NCLR, StructuralError>)
        ensures
            match r {
                Ok(p) => {
                    let off = le16(data@, 12);
                    &&& nclr_parse_ok(data@)
                    &&& p.header.header_size == off
                    &&& p.ttlp.magic@ == data@.subrange(off, off + 4)
                    &&& p.ttlp.section_size == le32(data@, off + 4)
                    &&& p.ttlp.pallete_bit_depth == le32(data@, off + 8)
                    &&& p.ttlp.padding == le32(data@, off + 12)
                    &&& p.ttlp.pallete_data_size == le32(data@, off + 16)
                    &&& p.ttlp.colors_per_pallete == le32(data@, off + 20)
                    &&& p.ttlp.data@.len() == le32(data@, off + 16) / 2
                    &&& forall|i: int|
                        0 <= i < p.ttlp.data@.len() ==> #[trigger] p.ttlp.data@[i] == le16(
                            data@,
                            off + 24 + 2 * i,
                        )
                },
                Err(e) => !nclr_parse_ok(data@) && e == StructuralError::OutOfBounds,
            },
    {
        let len: usize = data.len();
        let header = GenericHeader::parse(data)?;
        let off: usize = header.header_size as usize;
        if len < 24 || off > len - 24 {
            return Err(StructuralError::OutOfBounds);
        }
        let magic = read_bytes(data, off, 4);
        let section_size = read_u32(data, off + 4);
        let pallete_bit_depth = read_u32(data, off + 8);
        let padding = read_u32(data, off + 12);
        let pallete_data_size = read_u32(data, off + 16);
        let colors_per_pallete = read_u32(data, off + 20);
        let count: usize = (pallete_data_size / 2) as usize;
        if (len - off - 24) / 2 < count {
            return Err(StructuralError::OutOfBounds);
        }
        let base: usize = off + 24;
        let mut colors: Vec<u16> = Vec::new();
        let mut i: usize = 0;
        while i < count
            invariant
                i <= count,
                len == data@.len(),
                base == off + 24,
                base + 2 * count <= len,
                colors@.len() == i,
                forall|k: int|
                    0 <= k < i ==> #[trigger] colors@[k] == le16(data@, base + 2 * k),
            decreases count - i,
        {
            let c = read_u16(data, base + 2 * i);
            colors.push(c);
            i = i + 1;
        }
        Ok(
            NCLR {
                header,
                ttlp: TTLP {
                    magic,
                    section_size,
                    pallete_bit_depth,
                    padding,
                    pallete_data_size,
                    colors_per_pallete,
                    data: colors,
                },
            },
        )
    }

    /// Expands the first 16 packed colors into (r, g, b) triples. Tables
    /// with further colors exist for deeper formats; only the first 16 are
    /// ever read here.
    pub fn unpack(&self) -> (r: Vec<(u8, u8, u8)>)
        requires
            self.ttlp.data@.len() >= 16,
        ensures
            r@.len() == 16,
            forall|i: int| 0 <= i < 16 ==> #[trigger] r@[i] == unpack_color(self.ttlp.data@[i]),
    {
        let mut converted_colors: Vec<(u8, u8, u8)> = Vec::new();
        let mut i: usize = 0;
        while i < 16
            invariant
                i <= 16,
                self.ttlp.data@.len() >= 16,
                converted_colors@.len() == i,
                forall|k: int|
                    0 <= k < i ==> #[trigger] converted_colors@[k] == unpack_color(
                        self.ttlp.data@[k],
                    ),
            decreases 16 - i,
        {
            let color: u16 = self.ttlp.data[i];
            assert((color & 0x1F) * 8 <= 248 && ((color >> 5) & 0x1F) * 8 <= 248 && ((color >> 10)
                & 0x1F) * 8 <= 248) by (bit_vector);
            let r: u8 = ((color & 0x1F) * 8) as u8;
            let g: u8 = (((color >> 5) & 0x1F) * 8) as u8;
            let b: u8 = (((color >> 10) & 0x1F) * 8) as u8;
            converted_colors.push((r, g, b));
            i = i + 1;
        }
        converted_colors
    }
}

} // verus!
