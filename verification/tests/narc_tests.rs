use mon_rober::errors::StructuralError;
use mon_rober::lz::{compress_lz11, compress_lz77};
use mon_rober::narc::NARC;

fn push_u16(out: &mut Vec<u8>, v: u16) {
    out.push(v as u8);
    out.push((v >> 8) as u8);
}

fn push_u32(out: &mut Vec<u8>, v: u32) {
    out.push(v as u8);
    out.push((v >> 8) as u8);
    out.push((v >> 16) as u8);
    out.push((v >> 24) as u8);
}

fn build_narc(entries: &[Vec<u8>]) -> Vec<u8> {
    let mut blob: Vec<u8> = Vec::new();
    let mut ranges: Vec<(u32, u32)> = Vec::new();
    for e in entries {
        let start = blob.len() as u32;
        blob.extend_from_slice(e);
        ranges.push((start, blob.len() as u32));
    }
    let n = entries.len() as u16;
    let fat_chunk = 12 + 8 * n as u32;
    let fnt_chunk = 16u32;
    let img_chunk = 8 + blob.len() as u32;
    let total = 16 + fat_chunk + fnt_chunk + img_chunk;

    let mut out: Vec<u8> = Vec::new();
    out.extend_from_slice(b"NARC");
    push_u16(&mut out, 0xFFFE);
    push_u16(&mut out, 0x0100);
    push_u32(&mut out, total);
    push_u16(&mut out, 16);
    push_u16(&mut out, 3);

    out.extend_from_slice(b"BTAF");
    push_u32(&mut out, fat_chunk);
    push_u16(&mut out, n);
    push_u16(&mut out, 0);
    for (s, e) in &ranges {
        push_u32(&mut out, *s);
        push_u32(&mut out, *e);
    }

    out.extend_from_slice(b"BTNF");
    push_u32(&mut out, fnt_chunk);
    push_u32(&mut out, 4);
    push_u16(&mut out, 0);
    push_u16(&mut out, 1);

    out.extend_from_slice(b"GMIF");
    push_u32(&mut out, img_chunk);
    out.extend_from_slice(&blob);
    out
}

#[test]
fn narc_parse_reads_sections_and_entries() {
    let entries = vec![b"hello".to_vec(), b"world!!".to_vec()];
    let bytes = build_narc(&entries);
    let narc = NARC::parse(&bytes).unwrap();
    assert_eq!(narc.byte_order, 0xFFFE);
    assert_eq!(narc.version, 0x0100);
    assert_eq!(narc.chunk_count, 3);
    assert_eq!(narc.fat_block.num_files, 2);
    assert_eq!(narc.fat_block.entries.len(), 2);
    assert_eq!(narc.fat_block.entries[0].start_address, 0);
    assert_eq!(narc.fat_block.entries[0].end_address, 5);
    assert_eq!(narc.fat_block.entries[1].start_address, 5);
    assert_eq!(narc.fat_block.entries[1].end_address, 12);
    assert_eq!(narc.fnt_block.fnt.subtable_offset, 4);
    assert_eq!(narc.fnt_block.fnt.first_file_id, 0);
    assert_eq!(narc.img_block.data, b"helloworld!!".to_vec());
    assert_eq!(narc.get_entry(0), b"hello".to_vec());
    assert_eq!(narc.get_entry(1), b"world!!".to_vec());
}

#[test]
fn narc_bad_magic() {
    let mut bytes = build_narc(&[b"x".to_vec()]);
    bytes[0] = b'X';
    assert_eq!(NARC::parse(&bytes).unwrap_err(), StructuralError::BadMagic);
}

#[test]
fn narc_entry_range_outside_blob() {
    let mut bytes = build_narc(&[b"abc".to_vec()]);
    // the first allocation entry's end, four bytes past its start record
    bytes[32] = 0xFF;
    bytes[33] = 0xFF;
    bytes[34] = 0xFF;
    bytes[35] = 0xFF;
    assert_eq!(
        NARC::parse(&bytes).unwrap_err(),
        StructuralError::OutOfBounds
    );
}

#[test]
fn narc_truncated_input() {
    let bytes = build_narc(&[b"abc".to_vec()]);
    assert_eq!(
        NARC::parse(&bytes[..20]).unwrap_err(),
        StructuralError::OutOfBounds
    );
}

#[test]
fn sentinel_entries_yield_empty_payload() {
    // an entry whose four bytes are a tag with a zero declared size is the
    // empty-payload sentinel: the result is the empty byte sequence, with
    // neither decoder invoked
    let entries = vec![vec![0x10, 0, 0, 0], vec![0x11, 0, 0, 0]];
    let bytes = build_narc(&entries);
    let narc = NARC::parse(&bytes).unwrap();
    assert_eq!(narc.get_decompressed_entry(0).unwrap(), Vec::<u8>::new());
    assert_eq!(narc.get_decompressed_entry(1).unwrap(), Vec::<u8>::new());
}

#[test]
fn sentinel_header_passes_its_payload_through() {
    // whatever follows a sentinel header comes back as it is
    let entries = vec![vec![0x10, 0, 0, 0, 0xAA, 0xBB]];
    let bytes = build_narc(&entries);
    let narc = NARC::parse(&bytes).unwrap();
    assert_eq!(narc.get_decompressed_entry(0).unwrap(), vec![0xAA, 0xBB]);
}

#[test]
fn size_mismatch_is_annotated_on_archive_entries() {
    let payload = b"annotated archive payload".to_vec();
    let mut overstated = compress_lz77(&payload);
    // declare one byte more than the stream produces
    overstated[1] += 1;
    let entries = vec![
        overstated,
        compress_lz11(&payload),
        b"plain bytes".to_vec(),
        vec![0x11, 0, 0, 0],
    ];
    let bytes = build_narc(&entries);
    let narc = NARC::parse(&bytes).unwrap();
    let (data, mismatch) = narc.get_decompressed_entry_checked(0).unwrap();
    assert_eq!(data, payload);
    assert!(mismatch);
    let (data, mismatch) = narc.get_decompressed_entry_checked(1).unwrap();
    assert_eq!(data, payload);
    assert!(!mismatch);
    let (data, mismatch) = narc.get_decompressed_entry_checked(2).unwrap();
    assert_eq!(data, b"plain bytes".to_vec());
    assert!(!mismatch);
    let (data, mismatch) = narc.get_decompressed_entry_checked(3).unwrap();
    assert_eq!(data, Vec::<u8>::new());
    assert!(!mismatch);
}

#[test]
fn compressed_entries_are_decoded() {
    let payload77 = b"compressed with the first grammar".to_vec();
    let payload11 = b"compressed with the second grammar".to_vec();
    let entries = vec![
        compress_lz77(&payload77),
        compress_lz11(&payload11),
        b"plain bytes".to_vec(),
        Vec::new(),
    ];
    let bytes = build_narc(&entries);
    let narc = NARC::parse(&bytes).unwrap();
    assert_eq!(narc.get_decompressed_entry(0).unwrap(), payload77);
    assert_eq!(narc.get_decompressed_entry(1).unwrap(), payload11);
    assert_eq!(narc.get_decompressed_entry(2).unwrap(), b"plain bytes".to_vec());
    assert_eq!(narc.get_decompressed_entry(3).unwrap(), Vec::<u8>::new());
}
