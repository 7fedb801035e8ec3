//! The whole-image decode: the cartridge header locates the name table and
//! the allocation table; the walk of the name table yields every file's
//! path; the allocation table then yields each file's byte range, in file-ID
//! order starting from the root's first file ID, since file IDs are assigned
//! in visitation order rather than stored per entry.

use vstd::prelude::*;

use crate::errors::StructuralError;
use crate::fnt::{spec_walk_dir, iterate_main_table, FNTDirectoryMainTable};
use crate::header::NDS;
use crate::reader::{le16, le32, read_u32};

verus! {

/// One allocation table record: a file's byte range as absolute offsets
/// into the image. The file's size is `end_address - start_address`.
#[derive(Debug)]
pub struct FileAllocationTable {
    pub start_address: u32,
    pub end_address: u32,
}

impl FileAllocationTable {
    /// Reads the 8-byte allocation record at `pos`.
    pub fn parse(data: &[u8], pos: usize) -> (r: FileAllocationTable)
        requires
            pos + 8 <= data@.len(),
        ensures
            r.start_address == le32(data@, pos as int),
            r.end_address == le32(data@, pos as int + 4),
    {
        let len: usize = data.len();
        assert(pos + 4 <= len);
        FileAllocationTable {
            start_address: read_u32(data, pos),
            end_address: read_u32(data, pos + 4),
        }
    }
}

/// One file of the decoded tree: its `/`-joined path and its byte range in
/// the image.
#[derive(Debug)]
pub struct FileRecord {
    pub path: Vec<u8>,
    pub start_address: u32,
    pub end_address: u32,
}

impl DeepView for FileRecord {
    type V = (Seq<u8>, u32, u32);

    open spec fn deep_view(&self) -> (Seq<u8>, u32, u32) {
        (self.path@, self.start_address, self.end_address)
    }
}

/// Pairs the walked paths from index `k` on with their allocation records:
/// path `k` gets the record of file ID `first + k`. A record outside the
/// image, or a range with its end before its start or past the image's end,
/// is a bounds error.
pub open spec fn spec_fat_ranges(
    data: Seq<u8>,
    fat_offset: int,
    first: int,
    paths: Seq<Seq<u8>>,
    k: int,
) -> Result<Seq<(Seq<u8>, u32, u32)>, StructuralError>
    recommends
        0 <= fat_offset,
        0 <= first,
        0 <= k,
    decreases paths.len() - k,
{
    if k >= paths.len() {
        Ok(Seq::<(Seq<u8>, u32, u32)>::empty())
    } else {
        let off = fat_offset + 8 * (first + k);
        if off + 8 > data.len() {
            Err(StructuralError::OutOfBounds)
        } else {
            let s = le32(data, off);
            let e = le32(data, off + 4);
            if s > e || e > data.len() {
                Err(StructuralError::OutOfBounds)
            } else {
                match spec_fat_ranges(data, fat_offset, first, paths, k + 1) {
                    Err(er) => Err(er),
                    Ok(rest) => Ok(seq![(paths[k], s as u32, e as u32)] + rest),
                }
            }
        }
    }
}

proof fn lemma_fat_ranges_shape(
    data: Seq<u8>,
    fat_offset: int,
    first: int,
    paths: Seq<Seq<u8>>,
    k: int,
)
    requires
        0 <= fat_offset,
        0 <= first,
        0 <= k <= paths.len(),
    ensures
        spec_fat_ranges(data, fat_offset, first, paths, k) is Ok || spec_fat_ranges(
            data,
            fat_offset,
            first,
            paths,
            k,
        ) == Err::<Seq<(Seq<u8>, u32, u32)>, StructuralError>(StructuralError::OutOfBounds),
        (spec_fat_ranges(data, fat_offset, first, paths, k) is Ok && k < paths.len())
            ==> fat_offset + 8 * (first + paths.len() - 1) + 8 <= data.len(),
    decreases paths.len() - k,
{
    if k < paths.len() {
        let off = fat_offset + 8 * (first + k);
        if off + 8 <= data.len() {
            lemma_fat_ranges_shape(data, fat_offset, first, paths, k + 1);
        }
    }
}

/// What decoding a whole cartridge image yields: for every file of the
/// walked tree, its path and its byte range.
pub open spec fn spec_unpack_rom(data: Seq<u8>) -> Result<
    Seq<(Seq<u8>, u32, u32)>,
    StructuralError,
> {
    if data.len() < 0x180 {
        Err(StructuralError::OutOfBounds)
    } else {
        let fnt_base = le32(data, 0x40);
        let fat_offset = le32(data, 0x48);
        if fnt_base + 8 > data.len() {
            Err(StructuralError::OutOfBounds)
        } else {
            let first = le16(data, fnt_base + 4);
            match spec_walk_dir(data, fnt_base as nat, 0xF000u16, Seq::<u8>::empty(), 4096) {
                Err(e) => Err(e),
                Ok(paths) => spec_fat_ranges(data, fat_offset, first, paths, 0),
            }
        }
    }
}

/// Decodes a whole cartridge image into its file records: the header's
/// table locations, the root directory walk (root directory ID `0xF000`),
/// and one allocation record per file, taken in visitation order from the
/// root's first file ID on.
pub fn unpack_rom(data: &[u8]) -> (r: Result<Vec<FileRecord>, StructuralError>)
    ensures
        match r {
            Ok(recs) => spec_unpack_rom(data@) == Ok::<
                Seq<(Seq<u8>, u32, u32)>,
                StructuralError,
            >(recs.deep_view()),
            Err(e) => spec_unpack_rom(data@) == Err::<Seq<(Seq<u8>, u32, u32)>, StructuralError>(
                e,
            ),
        },
{
    let len: usize = data.len();
    let nds = NDS::parse(data)?;
    let fnt_base: usize = nds.fnt_offset as usize;
    if fnt_base > len || len - fnt_base < 8 {
        return Err(StructuralError::OutOfBounds);
    }
    let root = FNTDirectoryMainTable::parse(data, fnt_base);
    let first: usize = root.first_file_id as usize;
    let empty_prefix: Vec<u8> = Vec::new();
    let mut paths = match iterate_main_table(data, fnt_base, 0xF000, &empty_prefix, 4096) {
        Ok(p) => p,
        Err(e) => {
            return Err(e);
        },
    };
    let fat_offset: usize = nds.fat_offset as usize;
    let total: usize = paths.len();
    let ghost paths_v = paths.deep_view();
    if total > len / 8 {
        proof {
            vstd::arithmetic::div_mod::lemma_fundamental_div_mod(len as int, 8);
            lemma_fat_ranges_shape(data@, fat_offset as int, first as int, paths_v, 0);
        }
        return Err(StructuralError::OutOfBounds);
    }
    let mut recs: Vec<FileRecord> = Vec::new();
    let mut k: usize = 0;
    while k < total
        invariant
            k <= total,
            total == paths_v.len(),
            total <= len / 8,
            len == data@.len(),
            first < 0x1_0000,
            fat_offset < 0x1_0000_0000,
            paths.deep_view() =~~= paths_v.skip(k as int),
            paths@.len() == total - k,
            match spec_fat_ranges(data@, fat_offset as int, first as int, paths_v, k as int) {
                Ok(rest) => spec_unpack_rom(data@) == Ok::<
                    Seq<(Seq<u8>, u32, u32)>,
                    StructuralError,
                >(recs.deep_view() + rest),
                Err(e) => spec_unpack_rom(data@) == Err::<
                    Seq<(Seq<u8>, u32, u32)>,
                    StructuralError,
                >(e),
            },
        decreases total - k,
    {
        let ghost prev = paths@;
        let ghost prev_deep = paths.deep_view();
        let path = paths.remove(0);
        proof {
            assert(paths@ == prev.remove(0));
            assert forall|j: int| 0 <= j < paths@.len() implies #[trigger] paths.deep_view()[j]
                == prev_deep[j + 1] by {
                assert(paths@[j] == prev[j + 1]);
            }
            assert(paths.deep_view() =~~= paths_v.skip(k + 1));
            assert(path.deep_view() == prev_deep[0]);
            assert(prev_deep[0] == paths_v.skip(k as int)[0]);
            assert(path.deep_view() =~= path@);
            assert(path@ == paths_v[k as int]);
        }
        let fid: u64 = first as u64 + k as u64;
        if (fat_offset as u64) + 8 > (len as u64) {
            return Err(StructuralError::OutOfBounds);
        }
        let cap: u64 = ((len as u64) - (fat_offset as u64) - 8) / 8;
        proof {
            let xr = len - fat_offset - 8;
            vstd::arithmetic::div_mod::lemma_fundamental_div_mod(xr as int, 8);
            if fid > cap {
            } else {
                assert(8 * fid <= 8 * (xr as int / 8));
            }
            if 8 * (fid as int) > xr {
                vstd::arithmetic::div_mod::lemma_multiply_divide_lt(xr as int, 8, fid as int);
            }
        }
        if fid > cap {
            return Err(StructuralError::OutOfBounds);
        }
        let off64: u64 = (fat_offset as u64) + 8 * fid;
        let off: usize = off64 as usize;
        let fat_entry = FileAllocationTable::parse(data, off);
        if fat_entry.start_address > fat_entry.end_address || (fat_entry.end_address as u64)
            > (len as u64) {
            return Err(StructuralError::OutOfBounds);
        }
        let ghost before = recs.deep_view();
        recs.push(
            FileRecord {
                path,
                start_address: fat_entry.start_address,
                end_address: fat_entry.end_address,
            },
        );
        proof {
            assert(recs.deep_view() =~~= before + seq![
                (
                    paths_v[k as int],
                    fat_entry.start_address,
                    fat_entry.end_address,
                ),
            ]);
            assert forall|rest: Seq<(Seq<u8>, u32, u32)>|
                true implies before + (seq![
                (
                    paths_v[k as int],
                    fat_entry.start_address,
                    fat_entry.end_address,
                ),
            ] + rest) =~~= recs.deep_view() + rest by {}
        }
        k = k + 1;
    }
    proof {
        assert(recs.deep_view() + Seq::<(Seq<u8>, u32, u32)>::empty() =~~= recs.deep_view());
    }
    Ok(recs)
}

} // verus!
