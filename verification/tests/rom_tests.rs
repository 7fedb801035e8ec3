use mon_rober::errors::StructuralError;
use mon_rober::fnt::{iterate_main_table, parse_subtable, SubtableEntry};
use mon_rober::header::{GenericHeader, NDS};
use mon_rober::rom::unpack_rom;

fn put_u16(out: &mut [u8], pos: usize, v: u16) {
    out[pos] = v as u8;
    out[pos + 1] = (v >> 8) as u8;
}

fn put_u32(out: &mut [u8], pos: usize, v: u32) {
    out[pos] = v as u8;
    out[pos + 1] = (v >> 8) as u8;
    out[pos + 2] = (v >> 16) as u8;
    out[pos + 3] = (v >> 24) as u8;
}

/// A small image: a root directory holding `a.bin`, a subdirectory `dir`
/// with `c.bin` inside, and `b.bin` after the subdirectory.
fn build_image() -> Vec<u8> {
    let mut img = vec![0u8; 0x400];
    let fnt = 0x180usize;
    let fat = 0x200usize;
    put_u32(&mut img, 0x40, fnt as u32);
    put_u32(&mut img, 0x44, 42);
    put_u32(&mut img, 0x48, fat as u32);
    put_u32(&mut img, 0x4C, 24);

    // main table: root, then directory 0xF001
    put_u32(&mut img, fnt, 16);
    put_u16(&mut img, fnt + 4, 0);
    put_u16(&mut img, fnt + 6, 2);
    put_u32(&mut img, fnt + 8, 35);
    put_u16(&mut img, fnt + 12, 1);
    put_u16(&mut img, fnt + 14, 0xF000);

    // root subtable: "a.bin", subdirectory "dir" -> 0xF001, "b.bin", end
    let mut p = fnt + 16;
    img[p] = 5;
    img[p + 1..p + 6].copy_from_slice(b"a.bin");
    p += 6;
    img[p] = 0x83;
    img[p + 1..p + 4].copy_from_slice(b"dir");
    put_u16(&mut img, p + 4, 0xF001);
    p += 6;
    img[p] = 5;
    img[p + 1..p + 6].copy_from_slice(b"b.bin");
    p += 6;
    img[p] = 0;

    // subtable of "dir": "c.bin", end
    let mut q = fnt + 35;
    img[q] = 5;
    img[q + 1..q + 6].copy_from_slice(b"c.bin");
    q += 6;
    img[q] = 0;

    // allocation records for file IDs 0, 1, 2
    put_u32(&mut img, fat, 0x300);
    put_u32(&mut img, fat + 4, 0x304);
    put_u32(&mut img, fat + 8, 0x304);
    put_u32(&mut img, fat + 12, 0x308);
    put_u32(&mut img, fat + 16, 0x308);
    put_u32(&mut img, fat + 20, 0x310);
    img
}

#[test]
fn walk_visits_every_file_once_with_full_paths() {
    let img = build_image();
    let recs = unpack_rom(&img).unwrap();
    assert_eq!(recs.len(), 3);
    assert_eq!(recs[0].path, b"a.bin".to_vec());
    assert_eq!((recs[0].start_address, recs[0].end_address), (0x300, 0x304));
    assert_eq!(recs[1].path, b"dir/c.bin".to_vec());
    assert_eq!((recs[1].start_address, recs[1].end_address), (0x304, 0x308));
    assert_eq!(recs[2].path, b"b.bin".to_vec());
    assert_eq!((recs[2].start_address, recs[2].end_address), (0x308, 0x310));
}

#[test]
fn walk_alone_returns_paths_in_visitation_order() {
    let img = build_image();
    let paths = iterate_main_table(&img, 0x180, 0xF000, &Vec::new(), 4096).unwrap();
    assert_eq!(
        paths,
        vec![b"a.bin".to_vec(), b"dir/c.bin".to_vec(), b"b.bin".to_vec()]
    );
}

#[test]
fn cyclic_directory_reference_is_detected() {
    let mut img = build_image();
    // point the subdirectory entry's ID back at the root: a cycle
    put_u16(&mut img, 0x180 + 16 + 6 + 4, 0xF000);
    assert_eq!(
        unpack_rom(&img).unwrap_err(),
        StructuralError::CyclicDirectory
    );
}

#[test]
fn non_text_name_is_rejected() {
    let mut img = build_image();
    // 0xFF can never appear in a well-formed UTF-8 sequence
    img[0x180 + 16 + 1] = 0xFF;
    assert_eq!(unpack_rom(&img).unwrap_err(), StructuralError::InvalidName);
}

#[test]
fn non_ascii_utf8_name_is_accepted() {
    let mut img = build_image();
    // replace the first two bytes of "a.bin" with a two-byte encoded
    // character: still a valid five-byte name
    img[0x180 + 16 + 1] = 0xC3;
    img[0x180 + 16 + 2] = 0xA9;
    let recs = unpack_rom(&img).unwrap();
    assert_eq!(recs[0].path, vec![0xC3, 0xA9, b'b', b'i', b'n']);
}

#[test]
fn subtable_offset_outside_image_is_rejected() {
    let mut img = build_image();
    put_u32(&mut img, 0x180, 0x10000);
    assert_eq!(unpack_rom(&img).unwrap_err(), StructuralError::OutOfBounds);
}

#[test]
fn allocation_range_outside_image_is_rejected() {
    let mut img = build_image();
    put_u32(&mut img, 0x200 + 4, 0x10000);
    assert_eq!(unpack_rom(&img).unwrap_err(), StructuralError::OutOfBounds);
}

#[test]
fn image_too_short_for_header() {
    assert_eq!(
        unpack_rom(&[0u8; 0x100]).unwrap_err(),
        StructuralError::OutOfBounds
    );
}

#[test]
fn nds_header_reads_table_fields() {
    let img = build_image();
    let nds = NDS::parse(&img).unwrap();
    assert_eq!(nds.fnt_offset, 0x180);
    assert_eq!(nds.fnt_length, 42);
    assert_eq!(nds.fat_offset, 0x200);
    assert_eq!(nds.fat_length, 24);
    assert!(NDS::parse(&img[..0x100]).is_err());
}

#[test]
fn generic_header_reads_fixed_fields() {
    let mut bytes = vec![0u8; 16];
    bytes[0..4].copy_from_slice(b"RGCN");
    put_u16(&mut bytes, 4, 0xFFFE);
    put_u16(&mut bytes, 6, 0x0101);
    put_u32(&mut bytes, 8, 1234);
    put_u16(&mut bytes, 12, 16);
    put_u16(&mut bytes, 14, 2);
    let h = GenericHeader::parse(&bytes).unwrap();
    assert_eq!(h.magic, b"RGCN".to_vec());
    assert_eq!(h.byte_order, 0xFFFE);
    assert_eq!(h.version, 0x0101);
    assert_eq!(h.section_size, 1234);
    assert_eq!(h.header_size, 16);
    assert_eq!(h.section_count, 2);
    assert!(GenericHeader::parse(&bytes[..10]).is_err());
}

#[test]
fn subtable_entries_decode_by_tag_range() {
    let data = [0x00u8, 0x80, 0x03, b'a', b'b', b'c', 0x82, b'h', b'i', 0x01, 0xF0];
    let (end, p1) = parse_subtable(&data, 0).unwrap();
    assert_eq!(end.table_type, 0);
    assert!(matches!(end.data, SubtableEntry::End));
    let (res, p2) = parse_subtable(&data, p1).unwrap();
    assert!(matches!(res.data, SubtableEntry::Reserved));
    let (file, p3) = parse_subtable(&data, p2).unwrap();
    match file.data {
        SubtableEntry::FileEntry(name) => assert_eq!(name, b"abc".to_vec()),
        _ => panic!("expected a file entry"),
    }
    let (dir, p4) = parse_subtable(&data, p3).unwrap();
    match dir.data {
        SubtableEntry::SubdirectoryEntry(name, id) => {
            assert_eq!(name, b"hi".to_vec());
            assert_eq!(id, 0xF001);
        },
        _ => panic!("expected a subdirectory entry"),
    }
    assert_eq!(p4, data.len());
    // a file name running past the input
    assert_eq!(
        parse_subtable(&[0x05u8, b'a'], 0).unwrap_err(),
        StructuralError::OutOfBounds
    );
}

#[test]
fn name_text_follows_utf8_rules() {
    // a control byte is valid text, as is any well-formed multi-byte
    // character, up to the largest encodable value
    assert!(parse_subtable(&[0x01u8, 0x01], 0).is_ok());
    assert!(parse_subtable(&[0x03u8, 0xE2, 0x82, 0xAC], 0).is_ok());
    assert!(parse_subtable(&[0x04u8, 0xF4, 0x8F, 0xBF, 0xBF], 0).is_ok());
    // a lone continuation byte
    assert_eq!(
        parse_subtable(&[0x01u8, 0x80], 0).unwrap_err(),
        StructuralError::InvalidName
    );
    // an overlong two-byte encoding of a one-byte value
    assert_eq!(
        parse_subtable(&[0x02u8, 0xC0, 0x80], 0).unwrap_err(),
        StructuralError::InvalidName
    );
    // a surrogate-range value
    assert_eq!(
        parse_subtable(&[0x03u8, 0xED, 0xA0, 0x80], 0).unwrap_err(),
        StructuralError::InvalidName
    );
    // a value beyond the last scalar
    assert_eq!(
        parse_subtable(&[0x04u8, 0xF4, 0x90, 0x80, 0x80], 0).unwrap_err(),
        StructuralError::InvalidName
    );
    // a multi-byte character cut short by the name's own length
    assert_eq!(
        parse_subtable(&[0x01u8, 0xC3], 0).unwrap_err(),
        StructuralError::InvalidName
    );
}
