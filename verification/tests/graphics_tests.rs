use mon_rober::errors::StructuralError;
use mon_rober::ncgr::NCGR;
use mon_rober::nclr::NCLR;

fn push_u16(out: &mut Vec<u8>, v: u16) {
    out.push(v as u8);
    out.push((v >> 8) as u8);
}

fn push_u32(out: &mut Vec<u8>, v: u32) {
    out.push(v as u8);
    out.push((v >> 8) as u8);
    out.push((v >> 16) as u8);
    out.push((v >> 24) as u8);
}

fn generic_header(out: &mut Vec<u8>, magic: &[u8; 4], section_size: u32) {
    out.extend_from_slice(magic);
    push_u16(out, 0xFFFE);
    push_u16(out, 0x0100);
    push_u32(out, section_size);
    push_u16(out, 16);
    push_u16(out, 1);
}

fn build_nclr(colors: &[u16]) -> Vec<u8> {
    let data_size = (colors.len() * 2) as u32;
    let mut out: Vec<u8> = Vec::new();
    generic_header(&mut out, b"RLCN", 40 + data_size);
    out.extend_from_slice(b"TTLP");
    push_u32(&mut out, 24 + data_size);
    push_u32(&mut out, 3);
    push_u32(&mut out, 0);
    push_u32(&mut out, data_size);
    push_u32(&mut out, 16);
    for c in colors {
        push_u16(&mut out, *c);
    }
    out
}

fn build_ncgr(tiles_x: u16, tiles_y: u16, depth: u32, tile_data: &[u8]) -> Vec<u8> {
    let mut out: Vec<u8> = Vec::new();
    generic_header(&mut out, b"RGCN", 48 + tile_data.len() as u32);
    out.extend_from_slice(b"RAHC");
    push_u32(&mut out, 32 + tile_data.len() as u32);
    push_u16(&mut out, tiles_y);
    push_u16(&mut out, tiles_x);
    push_u32(&mut out, depth);
    push_u32(&mut out, 0);
    push_u32(&mut out, 0);
    push_u32(&mut out, tile_data.len() as u32);
    push_u32(&mut out, 24);
    out.extend_from_slice(tile_data);
    out
}

fn sixteen_colors() -> Vec<(u8, u8, u8)> {
    let mut pal = Vec::new();
    for i in 0..16u8 {
        pal.push((i * 10, i * 10 + 1, i * 10 + 2));
    }
    pal
}

#[test]
fn palette_unpack_scales_channels_by_eight() {
    // packed 0x0000 is black; packed 0x7FFF is (248, 248, 248), the 5-bit
    // maximum times eight with no rounding adjustment
    let mut colors = vec![0x0000u16, 0x7FFF];
    // red 3, green 2, blue 1 packed into one value
    colors.push(3 | (2 << 5) | (1 << 10));
    colors.resize(16, 0);
    let nclr = NCLR::parse(&build_nclr(&colors)).unwrap();
    assert_eq!(nclr.ttlp.pallete_data_size, 32);
    let pal = nclr.unpack();
    assert_eq!(pal.len(), 16);
    assert_eq!(pal[0], (0, 0, 0));
    assert_eq!(pal[1], (248, 248, 248));
    assert_eq!(pal[2], (24, 16, 8));
}

#[test]
fn palette_reads_only_first_sixteen() {
    let mut colors = vec![0u16; 20];
    colors[16] = 0x7FFF;
    let nclr = NCLR::parse(&build_nclr(&colors)).unwrap();
    let pal = nclr.unpack();
    assert_eq!(pal.len(), 16);
    assert!(pal.iter().all(|&c| c == (0, 0, 0)));
}

#[test]
fn nclr_truncated_input() {
    let bytes = build_nclr(&[0u16; 16]);
    assert_eq!(
        NCLR::parse(&bytes[..30]).unwrap_err(),
        StructuralError::OutOfBounds
    );
}

#[test]
fn single_tile_decode_matches_reference_grid() {
    // one 8-by-8 tile, 4-bit depth: byte i holds pixel 2i in its low
    // nibble and pixel 2i+1 in its high nibble, so pixel (x, y) gets
    // palette index (8y + x) mod 16
    let mut tile_data = Vec::new();
    for i in 0..32usize {
        let lo = (2 * i) % 16;
        let hi = (2 * i + 1) % 16;
        tile_data.push(((hi << 4) | lo) as u8);
    }
    let ncgr = NCGR::parse(&build_ncgr(1, 1, 3, &tile_data)).unwrap();
    let pal = sixteen_colors();
    let img = ncgr.unpack_trainer_sprite(&pal, 1).unwrap();
    assert_eq!(img.width, 8);
    assert_eq!(img.height, 8);
    assert_eq!(img.data.len(), 192);
    let mut expected = Vec::new();
    for y in 0..8usize {
        for x in 0..8usize {
            let idx = (y * 8 + x) % 16;
            let c = pal[idx];
            expected.push(c.0);
            expected.push(c.1);
            expected.push(c.2);
        }
    }
    assert_eq!(img.data, expected);
}

#[test]
fn two_tile_decode_untiles_left_to_right() {
    // two tiles side by side: the second tile's nibbles land in columns 8
    // to 15 of the same eight rows
    let mut tile_data = vec![0u8; 64];
    // first pixel of the second tile (nibble 64): low nibble of byte 32
    tile_data[32] = 0x05;
    let ncgr = NCGR::parse(&build_ncgr(2, 1, 3, &tile_data)).unwrap();
    let pal = sixteen_colors();
    let img = ncgr.unpack_trainer_sprite(&pal, 2).unwrap();
    assert_eq!(img.width, 16);
    assert_eq!(img.height, 8);
    // pixel (8, 0) is the second tile's first pixel
    let p = 3 * (0 * 16 + 8);
    assert_eq!(
        (img.data[p], img.data[p + 1], img.data[p + 2]),
        (50, 51, 52)
    );
    // pixel (0, 0) is untouched: palette entry 0
    assert_eq!((img.data[0], img.data[1], img.data[2]), (0, 1, 2));
}

#[test]
fn sentinel_tile_width_cannot_render() {
    let ncgr = NCGR::parse(&build_ncgr(0xFFFF, 1, 3, &[0u8; 32])).unwrap();
    assert!(ncgr.unpack_trainer_sprite(&sixteen_colors(), 1).is_none());
}

#[test]
fn eight_bit_depth_cannot_render() {
    let ncgr = NCGR::parse(&build_ncgr(1, 1, 4, &[0u8; 64])).unwrap();
    assert!(ncgr.unpack_trainer_sprite(&sixteen_colors(), 1).is_none());
    assert!(ncgr.unpack_mon_full_sprite(sixteen_colors(), 1).is_none());
}

#[test]
fn out_of_range_palette_index_becomes_white() {
    let mut tile_data = vec![0u8; 32];
    tile_data[0] = 0x0F;
    let ncgr = NCGR::parse(&build_ncgr(1, 1, 3, &tile_data)).unwrap();
    let short_pal = vec![(1u8, 2u8, 3u8); 4];
    let img = ncgr.unpack_trainer_sprite(&short_pal, 1).unwrap();
    // pixel (0, 0) has index 15, past the 4-entry palette: white
    assert_eq!((img.data[0], img.data[1], img.data[2]), (255, 255, 255));
    // pixel (1, 0) has index 0: the palette's first entry
    assert_eq!((img.data[3], img.data[4], img.data[5]), (1, 2, 3));
}

#[test]
fn mon_full_sprite_applies_block_permutation() {
    // 12-by-12 tiles of 4-bit pixels: 4608 bytes. Mark the first pixel of
    // source blocks 1 and 16 and check where the permutation puts them.
    let mut tile_data = vec![0u8; 4608];
    // untiled pixel (32, 0) = source block 1's corner: tile 4, pixel 0,
    // nibble index 256, low nibble of byte 128
    tile_data[128] = 0x01;
    // untiled pixel (32, 40) = source block 16's corner: tile row 5,
    // tile 4 in that row, nibble index (5 * 12 + 4) * 64 = 4096, byte 2048
    tile_data[2048] = 0x02;
    // untiled pixel (32, 80) = source block 31's corner: nibble index
    // (10 * 12 + 4) * 64 = 7936, byte 3968
    tile_data[3968] = 0x03;
    // untiled pixel (0, 80) = source block 30's corner: nibble index
    // (10 * 12) * 64 = 7680, byte 3840
    tile_data[3840] = 0x04;
    // untiled pixel (64, 88) = source block 35's corner: nibble index
    // (11 * 12 + 8) * 64 = 8960, byte 4480
    tile_data[4480] = 0x05;
    let ncgr = NCGR::parse(&build_ncgr(12, 12, 3, &tile_data)).unwrap();
    let pal = sixteen_colors();
    let img = ncgr.unpack_mon_full_sprite(pal.clone(), 12).unwrap();
    assert_eq!(img.width, 96);
    assert_eq!(img.height, 96);
    assert_eq!(img.data.len(), 27648);
    // destination block 1 (row 0, column 1) draws source block 1: its
    // corner is output pixel (32, 0)
    let p1 = 3 * (0 * 96 + 32);
    assert_eq!(
        (img.data[p1], img.data[p1 + 1], img.data[p1 + 2]),
        (10, 11, 12)
    );
    // destination block 2 (row 0, column 2) draws source block 16: its
    // corner is output pixel (64, 0)
    let p2 = 3 * (0 * 96 + 64);
    assert_eq!(
        (img.data[p2], img.data[p2 + 1], img.data[p2 + 2]),
        (20, 21, 22)
    );
    // destination block 0 keeps source block 0: output pixel (0, 0) is the
    // untouched palette entry 0
    assert_eq!((img.data[0], img.data[1], img.data[2]), (0, 1, 2));
    // the bottom row crosses over: destination block 33 (row 11, column 0)
    // draws source block 31, so its corner is output pixel (0, 88)
    let p3 = 3 * (88 * 96 + 0);
    assert_eq!(
        (img.data[p3], img.data[p3 + 1], img.data[p3 + 2]),
        (30, 31, 32)
    );
    // destination block 34 (row 11, column 1) draws source block 30: its
    // corner is output pixel (32, 88)
    let p4 = 3 * (88 * 96 + 32);
    assert_eq!(
        (img.data[p4], img.data[p4 + 1], img.data[p4 + 2]),
        (40, 41, 42)
    );
    // destination block 35 stays in place: output pixel (64, 88)
    let p5 = 3 * (88 * 96 + 64);
    assert_eq!(
        (img.data[p5], img.data[p5 + 1], img.data[p5 + 2]),
        (50, 51, 52)
    );
}

#[test]
fn mon_full_sprite_needs_twelve_by_twelve() {
    let ncgr = NCGR::parse(&build_ncgr(2, 1, 3, &[0u8; 64])).unwrap();
    assert!(ncgr.unpack_mon_full_sprite(sixteen_colors(), 2).is_none());
}

#[test]
fn ncgr_truncated_input() {
    let bytes = build_ncgr(1, 1, 3, &[0u8; 32]);
    assert_eq!(
        NCGR::parse(&bytes[..40]).unwrap_err(),
        StructuralError::OutOfBounds
    );
}
