//! The self-contained archive container: a magic-tagged header, then three
//! fixed-order chunked sections — the allocation table, the name table, and
//! the data blob. Entry byte ranges index into the blob, not into the outer
//! file. Entries whose first bytes announce a compressed stream are routed
//! through the matching codec on the way out.

use vstd::prelude::*;

use crate::errors::StructuralError;
use crate::fnt::FNTDirectoryMainTable;
use crate::lz::{
    decompress_lz11, decompress_lz77, detect_compression, lz_compress_stored, lz_decode,
    spec_detect_compression, LzCodec, NDSCompressionType,
};
use crate::reader::{le16, le32, read_bytes, read_u16, read_u32};
use crate::rom::FileAllocationTable;

verus! {

/// The allocation table section: one byte range per stored file.
#[derive(Debug)]
pub struct FATBlock {
    pub chunk_size: u32,
    pub num_files: u16,
    pub reserved: u16,
    pub entries: Vec<FileAllocationTable>,
}

/// The name table section. Many producers store no names at all, only the
/// root record with an empty subtable; callers treat "no names" as normal
/// and fall back to sequential synthetic names.
#[derive(Debug)]
pub struct FNTBlock {
    pub chunk_size: u32,
    pub fnt: FNTDirectoryMainTable,
}

/// The data blob section: `chunk_size - 8` raw bytes that the allocation
/// entries slice into.
#[derive(Debug)]
pub struct IMGBlock {
    pub chunk_size: u32,
    pub data: Vec<u8>,
}

/// A parsed archive container.
#[derive(Debug)]
pub struct NARC {
    pub byte_order: u16,
    pub version: u16,
    pub file_size: u32,
    pub chunk_size: u16,
    pub chunk_count: u16,
    pub fat_block: FATBlock,
    pub fnt_block: FNTBlock,
    pub img_block: IMGBlock,
}

/// Whether the four bytes at `p` spell the magic `m`.
pub open spec fn magic_at(data: Seq<u8>, p: int, m: (u8, u8, u8, u8)) -> bool
    recommends
        0 <= p,
        p + 4 <= data.len(),
{
    data[p] == m.0 && data[p + 1] == m.1 && data[p + 2] == m.2 && data[p + 3] == m.3
}

fn check_magic(data: &[u8], p: usize, m: (u8, u8, u8, u8)) -> (r: bool)
    requires
        p + 4 <= data@.len(),
    ensures
        r == magic_at(data@, p as int, m),
{
    let len: usize = data.len();
    assert(p + 3 < len);
    data[p] == m.0 && data[p + 1] == m.1 && data[p + 2] == m.2 && data[p + 3] == m.3
}

/// The archive magic, "NARC" in ASCII.
pub open spec fn narc_magic() -> (u8, u8, u8, u8) {
    (0x4E, 0x41, 0x52, 0x43)
}

/// The allocation table section magic, "BTAF" in ASCII.
pub open spec fn fat_magic() -> (u8, u8, u8, u8) {
    (0x42, 0x54, 0x41, 0x46)
}

/// The name table section magic, "BTNF" in ASCII.
pub open spec fn fnt_magic() -> (u8, u8, u8, u8) {
    (0x42, 0x54, 0x4E, 0x46)
}

/// The data blob section magic, "GMIF" in ASCII.
pub open spec fn img_magic() -> (u8, u8, u8, u8) {
    (0x47, 0x4D, 0x49, 0x46)
}

/// Whether every allocation entry range among the first `num` lies inside
/// a blob of `blob_len` bytes, end no earlier than start.
pub open spec fn narc_ranges_ok(data: Seq<u8>, num: int, blob_len: int) -> bool {
    forall|i: int|
        0 <= i < num ==> #[trigger] le32(data, 28 + 8 * i) <= le32(data, 28 + 8 * i + 4)
            <= blob_len
}

/// The structural checks an archive must pass, in the order the parser
/// makes them: each section's magic, each section's declared size keeping
/// inside the input and holding its own fixed fields, and every allocation
/// entry's range lying inside the data blob with its end no earlier than
/// its start.
pub open spec fn narc_check(data: Seq<u8>) -> Result<(), StructuralError> {
    if data.len() < 16 {
        Err(StructuralError::OutOfBounds)
    } else if !magic_at(data, 0, narc_magic()) {
        Err(StructuralError::BadMagic)
    } else if data.len() < 28 {
        Err(StructuralError::OutOfBounds)
    } else if !magic_at(data, 16, fat_magic()) {
        Err(StructuralError::BadMagic)
    } else {
        let fat_chunk = le32(data, 20);
        let num = le16(data, 24);
        if fat_chunk < 12 + 8 * num {
            Err(StructuralError::OutOfBounds)
        } else if fat_chunk > data.len() - 16 {
            Err(StructuralError::OutOfBounds)
        } else {
            let pos2 = 16 + fat_chunk;
            if pos2 + 16 > data.len() {
                Err(StructuralError::OutOfBounds)
            } else if !magic_at(data, pos2, fnt_magic()) {
                Err(StructuralError::BadMagic)
            } else {
                let fnt_chunk = le32(data, pos2 + 4);
                if fnt_chunk < 16 {
                    Err(StructuralError::OutOfBounds)
                } else if fnt_chunk > data.len() - pos2 {
                    Err(StructuralError::OutOfBounds)
                } else {
                    let pos3 = pos2 + fnt_chunk;
                    if pos3 + 8 > data.len() {
                        Err(StructuralError::OutOfBounds)
                    } else if !magic_at(data, pos3, img_magic()) {
                        Err(StructuralError::BadMagic)
                    } else {
                        let img_chunk = le32(data, pos3 + 4);
                        if img_chunk < 8 {
                            Err(StructuralError::OutOfBounds)
                        } else if img_chunk > data.len() - pos3 {
                            Err(StructuralError::OutOfBounds)
                        } else {
                            if narc_ranges_ok(data, num, img_chunk - 8) {
                                Ok(())
                            } else {
                                Err(StructuralError::OutOfBounds)
                            }
                        }
                    }
                }
            }
        }
    }
}

impl NARC {
    /// The invariant a parsed archive keeps: every allocation entry's range
    /// lies inside the data blob, end no earlier than start.
    pub open spec fn wf(&self) -> bool {
        forall|i: int|
            0 <= i < self.fat_block.entries@.len() ==> (#[trigger] self.fat_block.entries@[
                i
            ]).start_address <= self.fat_block.entries@[i].end_address
                <= self.img_block.data@.len()
    }

    /// Parses an archive: validates the four magics and the three chunked
    /// sections, reads the allocation entries, the name table's root
    /// record, and the data blob, and checks every entry range against the
    /// blob.
    #[verifier::rlimit(100)]
    pub fn parse(data: &[u8]) -> (r: Result<NARC, StructuralError>)
        ensures
            match r {
                Ok(n) => {
                    let fat_chunk = le32(data@, 20);
                    let pos2 = 16 + fat_chunk;
                    let fnt_chunk = le32(data@, pos2 + 4);
                    let pos3 = pos2 + fnt_chunk;
                    let img_chunk = le32(data@, pos3 + 4);
                    &&& narc_check(data@) == Ok::<(), StructuralError>(())
                    &&& n.wf()
                    &&& n.byte_order == le16(data@, 4)
                    &&& n.version == le16(data@, 6)
                    &&& n.file_size == le32(data@, 8)
                    &&& n.chunk_size == le16(data@, 12)
                    &&& n.chunk_count == le16(data@, 14)
                    &&& n.fat_block.chunk_size == fat_chunk
                    &&& n.fat_block.num_files == le16(data@, 24)
                    &&& n.fat_block.reserved == le16(data@, 26)
                    &&& n.fat_block.entries@.len() == le16(data@, 24)
                    &&& forall|i: int|
                        0 <= i < n.fat_block.entries@.len() ==> (#[trigger] n.fat_block.entries@[
                        i]).start_address == le32(data@, 28 + 8 * i)
                            && n.fat_block.entries@[i].end_address == le32(data@, 28 + 8 * i + 4)
                    &&& n.fnt_block.chunk_size == fnt_chunk
                    &&& n.fnt_block.fnt.subtable_offset == le32(data@, pos2 + 8)
                    &&& n.fnt_block.fnt.first_file_id == le16(data@, pos2 + 12)
                    &&& n.fnt_block.fnt.directory_id == le16(data@, pos2 + 14)
                    &&& n.img_block.chunk_size == img_chunk
                    &&& n.img_block.data@ == data@.subrange(pos3 + 8, pos3 + img_chunk)
                },
                Err(e) => narc_check(data@) == Err::<(), StructuralError>(e),
            },
    {
        let len: usize = data.len();
        if len < 16 {
            return Err(StructuralError::OutOfBounds);
        }
        if !check_magic(data, 0, (0x4E, 0x41, 0x52, 0x43)) {
            return Err(StructuralError::BadMagic);
        }
        if len < 28 {
            return Err(StructuralError::OutOfBounds);
        }
        if !check_magic(data, 16, (0x42, 0x54, 0x41, 0x46)) {
            return Err(StructuralError::BadMagic);
        }
        let fat_chunk_u32 = read_u32(data, 20);
        let fat_chunk: usize = fat_chunk_u32 as usize;
        let num: usize = read_u16(data, 24) as usize;
        if fat_chunk < 12 + 8 * num {
            return Err(StructuralError::OutOfBounds);
        }
        if fat_chunk > len - 16 {
            return Err(StructuralError::OutOfBounds);
        }
        let pos2: usize = 16 + fat_chunk;
        if len - pos2 < 16 {
            return Err(StructuralError::OutOfBounds);
        }
        if !check_magic(data, pos2, (0x42, 0x54, 0x4E, 0x46)) {
            return Err(StructuralError::BadMagic);
        }
        let fnt_chunk_u32 = read_u32(data, pos2 + 4);
        let fnt_chunk: usize = fnt_chunk_u32 as usize;
        if fnt_chunk < 16 {
            return Err(StructuralError::OutOfBounds);
        }
        if fnt_chunk > len - pos2 {
            return Err(StructuralError::OutOfBounds);
        }
        let pos3: usize = pos2 + fnt_chunk;
        if len - pos3 < 8 {
            return Err(StructuralError::OutOfBounds);
        }
        if !check_magic(data, pos3, (0x47, 0x4D, 0x49, 0x46)) {
            return Err(StructuralError::BadMagic);
        }
        let img_chunk_u32 = read_u32(data, pos3 + 4);
        let img_chunk: usize = img_chunk_u32 as usize;
        if img_chunk < 8 {
            return Err(StructuralError::OutOfBounds);
        }
        if img_chunk > len - pos3 {
            return Err(StructuralError::OutOfBounds);
        }
        let blob_len: usize = img_chunk - 8;
        let mut entries: Vec<FileAllocationTable> = Vec::new();
        let mut i: usize = 0;
        while i < num
            invariant
                i <= num,
                len == data@.len(),
                28 + 8 * num <= len,
                entries@.len() == i,
                forall|k: int|
                    0 <= k < i ==> (#[trigger] entries@[k]).start_address == le32(
                        data@,
                        28 + 8 * k,
                    ) && entries@[k].end_address == le32(data@, 28 + 8 * k + 4),
            decreases num - i,
        {
            let e = FileAllocationTable::parse(data, 28 + 8 * i);
            entries.push(e);
            i = i + 1;
        }
        proof {
            // the validation loop below is checked in isolation, so restate
            // what the section checks above established
            assert(data@.len() >= 28);
            assert(magic_at(data@, 0, narc_magic()));
            assert(magic_at(data@, 16, fat_magic()));
            assert(le32(data@, 20) == fat_chunk);
            assert(le16(data@, 24) == num);
            assert(fat_chunk >= 12 + 8 * num);
            assert(fat_chunk <= data@.len() - 16);
            assert(pos2 == 16 + le32(data@, 20));
            assert(pos2 + 16 <= data@.len());
            assert(magic_at(data@, pos2 as int, fnt_magic()));
            assert(le32(data@, pos2 as int + 4) == fnt_chunk);
            assert(fnt_chunk >= 16);
            assert(fnt_chunk <= data@.len() - pos2);
            assert(pos3 == pos2 + fnt_chunk);
            assert(pos3 + 8 <= data@.len());
            assert(magic_at(data@, pos3 as int, img_magic()));
            assert(le32(data@, pos3 as int + 4) == img_chunk);
            assert(img_chunk >= 8);
            assert(img_chunk <= data@.len() - pos3);
            assert(narc_check(data@) == (if narc_ranges_ok(data@, num as int, blob_len as int) {
                Ok::<(), StructuralError>(())
            } else {
                Err::<(), StructuralError>(StructuralError::OutOfBounds)
            }));
        }
        let mut j: usize = 0;
        while j < num
            invariant
                j <= num,
                num == entries@.len(),
                num == le16(data@, 24),
                blob_len == le32(data@, pos3 as int + 4) - 8,
                narc_check(data@) == (if narc_ranges_ok(data@, num as int, blob_len as int) {
                    Ok::<(), StructuralError>(())
                } else {
                    Err::<(), StructuralError>(StructuralError::OutOfBounds)
                }),
                forall|k: int|
                    0 <= k < num ==> (#[trigger] entries@[k]).start_address == le32(
                        data@,
                        28 + 8 * k,
                    ) && entries@[k].end_address == le32(data@, 28 + 8 * k + 4),
                forall|k: int|
                    0 <= k < j ==> (#[trigger] entries@[k]).start_address
                        <= entries@[k].end_address <= blob_len,
            decreases num - j,
        {
            let e = &entries[j];
            if e.start_address > e.end_address || e.end_address as usize > blob_len {
                proof {
                    assert(!(le32(data@, 28 + 8 * (j as int)) <= le32(data@, 28 + 8 * (
                    j as int) + 4) <= blob_len));
                    assert(!narc_ranges_ok(data@, num as int, blob_len as int));
                }
                return Err(StructuralError::OutOfBounds);
            }
            j = j + 1;
        }
        proof {
            assert(narc_ranges_ok(data@, num as int, blob_len as int)) by {
                assert forall|i: int|
                    0 <= i < num as int implies #[trigger] le32(data@, 28 + 8 * i) <= le32(
                    data@,
                    28 + 8 * i + 4,
                ) <= blob_len as int by {
                    assert(entries@[i].start_address == le32(data@, 28 + 8 * i));
                    assert(entries@[i].end_address == le32(data@, 28 + 8 * i + 4));
                    assert(entries@[i].start_address <= entries@[i].end_address <= blob_len);
                }
            }
        }
        let narc = NARC {
            byte_order: read_u16(data, 4),
            version: read_u16(data, 6),
            file_size: read_u32(data, 8),
            chunk_size: read_u16(data, 12),
            chunk_count: read_u16(data, 14),
            fat_block: FATBlock {
                chunk_size: fat_chunk_u32,
                num_files: read_u16(data, 24),
                reserved: read_u16(data, 26),
                entries,
            },
            fnt_block: FNTBlock {
                chunk_size: fnt_chunk_u32,
                fnt: FNTDirectoryMainTable::parse(data, pos2 + 8),
            },
            img_block: IMGBlock {
                chunk_size: img_chunk_u32,
                data: read_bytes(data, pos3 + 8, blob_len),
            },
        };
        Ok(narc)
    }

    /// The raw bytes of entry `index`: the slice of the data blob that the
    /// entry's allocation record delimits.
    pub fn get_entry(&self, index: usize) -> (r: Vec<u8>)
        requires
            self.wf(),
            index < self.fat_block.entries@.len(),
        ensures
            r@ == self.img_block.data@.subrange(
                self.fat_block.entries@[index as int].start_address as int,
                self.fat_block.entries@[index as int].end_address as int,
            ),
    {
        let start: usize = self.fat_block.entries[index].start_address as usize;
        let end: usize = self.fat_block.entries[index].end_address as usize;
        read_bytes(self.img_block.data.as_slice(), start, end - start)
    }
}

/// Whether an entry opens with the empty-payload sentinel: a recognized
/// compression tag whose three declared-size bytes are all zero. Such a
/// header is not a compressed stream; what it announces is an empty
/// payload.
pub open spec fn sentinel_header(e: Seq<u8>) -> bool {
    e.len() >= 4 && (e[0] == 0x10 || e[0] == 0x11) && e[1] == 0 && e[2] == 0 && e[3] == 0
}

/// What an entry's bytes decode to on the way out of the archive. An entry
/// opened by the empty-payload sentinel yields whatever follows the header
/// — typically nothing — with neither decoder invoked; a stream announcing
/// one of the two LZ codecs is decompressed by it; anything else,
/// including entries too short to hold a header, passes through unchanged.
pub open spec fn spec_decompress_dispatch(e: Seq<u8>) -> Result<Seq<u8>, StructuralError> {
    if sentinel_header(e) {
        Ok(e.skip(4))
    } else {
        match spec_detect_compression(e) {
            NDSCompressionType::LZ77(_) => lz_decode(LzCodec::Lz77, e),
            NDSCompressionType::LZ11(_) => lz_decode(LzCodec::Lz11, e),
            _ => Ok(e),
        }
    }
}

/// Whether decoding an entry surfaces a size inconsistency: a decoder ran
/// and produced a length other than the one the stream's header declared.
/// Non-fatal — the decoded bytes are still handed out, with this
/// annotation beside them — since some producers are known to over- or
/// understate the field.
pub open spec fn spec_size_mismatch(e: Seq<u8>) -> bool {
    if sentinel_header(e) {
        false
    } else {
        match spec_detect_compression(e) {
            NDSCompressionType::LZ77(n) => lz_decode(LzCodec::Lz77, e) matches Ok(d) && d.len()
                != n,
            NDSCompressionType::LZ11(n) => lz_decode(LzCodec::Lz11, e) matches Ok(d) && d.len()
                != n,
            _ => false,
        }
    }
}

/// Law: an entry stored by either compressor comes back out of the archive
/// dispatch as exactly the bytes that went in — the empty sequence
/// included, since it compresses to a bare sentinel header, which the
/// dispatch answers with the empty payload that follows it.
pub proof fn lemma_dispatch_stored_round_trip(x: Seq<u8>)
    requires
        x.len() <= 0xFF_FFFF,
    ensures
        spec_decompress_dispatch(lz_compress_stored(0x10, x)) == Ok::<Seq<u8>, StructuralError>(x),
        spec_decompress_dispatch(lz_compress_stored(0x11, x)) == Ok::<Seq<u8>, StructuralError>(x),
{
    let n = x.len() as u32;
    if x.len() == 0 {
        assert((0u32 >> 8) as u8 == 0 && (0u32 >> 16) as u8 == 0) by (bit_vector);
        assert(lz_compress_stored(0x10, x).skip(4) =~= x);
        assert(lz_compress_stored(0x11, x).skip(4) =~= x);
    } else {
        assert(0 < n < 0x100_0000 ==> (n as u8) != 0 || ((n >> 8) as u8) != 0 || ((n
            >> 16) as u8) != 0) by (bit_vector);
        crate::lz::lemma_stored_round_trip(LzCodec::Lz77, 0x10, x);
        crate::lz::lemma_stored_round_trip(LzCodec::Lz11, 0x11, x);
    }
}

impl NARC {
    /// The bytes of entry `index`, decompressed if their first four bytes
    /// announce a recognized compression tag and passed through unchanged
    /// otherwise. An entry opened by the empty-payload sentinel yields the
    /// — typically empty — payload after its header, with no decoder
    /// invoked.
    pub fn get_decompressed_entry(&self, index: usize) -> (r: Result<Vec<u8>, StructuralError>)
        requires
            self.wf(),
            index < self.fat_block.entries@.len(),
        ensures
            ({
                let e = self.img_block.data@.subrange(
                    self.fat_block.entries@[index as int].start_address as int,
                    self.fat_block.entries@[index as int].end_address as int,
                );
                match r {
                    Ok(v) => spec_decompress_dispatch(e) == Ok::<Seq<u8>, StructuralError>(v@),
                    Err(er) => spec_decompress_dispatch(e) == Err::<Seq<u8>, StructuralError>(er),
                }
            }),
    {
        match self.get_decompressed_entry_checked(index) {
            Ok(p) => Ok(p.0),
            Err(er) => Err(er),
        }
    }

    /// Like `get_decompressed_entry`, but reports beside the bytes whether
    /// the decoded stream's declared size disagreed with what decoding
    /// produced — a non-fatal inconsistency that is annotated, not treated
    /// as an error. The flag is false wherever no decoder ran.
    pub fn get_decompressed_entry_checked(&self, index: usize) -> (r: Result<
        (Vec<u8>, bool),
        StructuralError,
    >)
        requires
            self.wf(),
            index < self.fat_block.entries@.len(),
        ensures
            ({
                let e = self.img_block.data@.subrange(
                    self.fat_block.entries@[index as int].start_address as int,
                    self.fat_block.entries@[index as int].end_address as int,
                );
                match r {
                    Ok(p) => spec_decompress_dispatch(e) == Ok::<Seq<u8>, StructuralError>(p.0@)
                        && p.1 == spec_size_mismatch(e),
                    Err(er) => spec_decompress_dispatch(e) == Err::<Seq<u8>, StructuralError>(er),
                }
            }),
    {
        let entry = self.get_entry(index);
        let elen: usize = entry.len();
        if elen >= 4 && (entry[0] == 0x10 || entry[0] == 0x11) && entry[1] == 0 && entry[2] == 0
            && entry[3] == 0 {
            let payload = read_bytes(entry.as_slice(), 4, elen - 4);
            proof {
                assert(payload@ =~= entry@.skip(4));
            }
            return Ok((payload, false));
        }
        match detect_compression(entry.as_slice()) {
            NDSCompressionType::LZ77(_) => match decompress_lz77(entry.as_slice()) {
                Ok(d) => {
                    let mismatch = !d.size_matches();
                    Ok((d.data, mismatch))
                },
                Err(er) => Err(er),
            },
            NDSCompressionType::LZ11(_) => match decompress_lz11(entry.as_slice()) {
                Ok(d) => {
                    let mismatch = !d.size_matches();
                    Ok((d.data, mismatch))
                },
                Err(er) => Err(er),
            },
            _ => Ok((entry, false)),
        }
    }
}

} // verus!
