//! The tile graphics resource: packed 4-bit palette indices stored tile by
//! tile, 8 by 8 pixels each, expanded into a row-major RGB pixel buffer
//! through a palette. One sprite class additionally needs a fixed
//! block-reordering pass, encoded here as a closed lookup table.

use vstd::prelude::*;

use crate::errors::StructuralError;
use crate::header::GenericHeader;
use crate::reader::{le16, le32, le64, read_bytes, read_u16, read_u32, read_u64};

verus! {

/// A decoded pixel buffer: `data` holds `width * height` pixels in row-major
/// order, three bytes (red, green, blue) per pixel, no padding.
#[derive(Debug)]
pub struct GraphicsResource {
    pub width: u32,
    pub height: u32,
    pub data: Vec<u8>,
}

/// A tile graphics resource: the generic header, then its character section.
#[derive(Debug)]
pub struct NCGR {
    pub header: GenericHeader,
    pub rahc: RAHC,
}

/// The character section: tile grid dimensions, color depth, and the packed
/// tile data itself.
#[derive(Debug)]
pub struct RAHC {
    pub magic: Vec<u8>,
    pub chunk_size: u32,
    pub n_tiles_y: u16,
    pub n_tiles_x: u16,
    pub color_depth: u32,
    pub padding1: u64,
    pub tile_data_size_bytes: u32,
    pub tile_data_offset: u32,
    pub data: Vec<u8>,
}

/// The 4-bit palette index at nibble position `i`: low nibble first, then
/// high nibble, within each byte.
pub open spec fn pixel_nibble(data: Seq<u8>, i: int) -> u8
    recommends
        0 <= i,
        i / 2 < data.len(),
{
    if i % 2 == 0 {
        data[i / 2] & 0xF
    } else {
        data[i / 2] >> 4
    }
}

/// Where pixel `(x, y)` of the untiled image sits in the stored nibble
/// stream: tiles are laid out left to right, then top to bottom, and each
/// 8-by-8 tile stores its pixels row-major.
pub open spec fn tiled_index(w_tiles: int, x: int, y: int) -> int {
    ((y / 8) * w_tiles + x / 8) * 64 + (y % 8) * 8 + (x % 8)
}

/// Resolving one palette index: an index past the palette's end becomes
/// white rather than failing, since degenerate inputs legitimately hold
/// indices beyond a 16-entry palette.
pub open spec fn palette_color(pal: Seq<(u8, u8, u8)>, idx: u8) -> (u8, u8, u8) {
    if (idx as int) < pal.len() {
        pal[idx as int]
    } else {
        (255u8, 255u8, 255u8)
    }
}

/// The color of untiled pixel `(x, y)` of a plain (non-permuted) image.
pub open spec fn sprite_color(
    data: Seq<u8>,
    pal: Seq<(u8, u8, u8)>,
    w_tiles: int,
    x: int,
    y: int,
) -> (u8, u8, u8) {
    palette_color(pal, pixel_nibble(data, tiled_index(w_tiles, x, y)))
}

/// Whether `data` holds a whole tile graphics resource: the generic header,
/// the character section's fixed fields, and as many tile data bytes as
/// those declare.
pub open spec fn ncgr_parse_ok(data: Seq<u8>) -> bool {
    data.len() >= 16 && {
        let off = le16(data, 12);
        off + 32 <= data.len() && off + 32 + le32(data, off + 24) <= data.len()
    }
}

proof fn lemma_tiled_index_bounds(w_tiles: int, h_tiles: int, x: int, y: int)
    requires
        w_tiles >= 1,
        h_tiles >= 1,
        0 <= x < 8 * w_tiles,
        0 <= y < 8 * h_tiles,
    ensures
        0 <= tiled_index(w_tiles, x, y) < 64 * w_tiles * h_tiles,
{
    let tx = x / 8;
    let ty = y / 8;
    vstd::arithmetic::div_mod::lemma_multiply_divide_lt(x, 8, w_tiles);
    vstd::arithmetic::div_mod::lemma_multiply_divide_lt(y, 8, h_tiles);
    assert(0 <= x % 8 < 8);
    assert(0 <= y % 8 < 8);
    assert(ty * w_tiles + tx < w_tiles * h_tiles) by (nonlinear_arith)
        requires
            0 <= tx < w_tiles,
            0 <= ty < h_tiles,
    ;
    assert(ty * w_tiles >= 0) by (nonlinear_arith)
        requires
            ty >= 0,
            w_tiles >= 0,
    ;
    assert((ty * w_tiles + tx) * 64 + (y % 8) * 8 + (x % 8) < 64 * (w_tiles * h_tiles))
        by (nonlinear_arith)
        requires
            0 <= ty * w_tiles + tx,
            ty * w_tiles + tx < w_tiles * h_tiles,
            0 <= y % 8 < 8,
            0 <= x % 8 < 8,
    ;
    assert(64 * (w_tiles * h_tiles) == 64 * w_tiles * h_tiles) by (nonlinear_arith);
}

/// Source block of destination block `d` under the fixed re-ordering of the
/// 96-by-96 sprite class: the image splits into 36 blocks of 32 by 8 pixels,
/// three per row, and each destination block takes its pixels from one
/// source block. The table is a closed constant, reverse-engineered once for
/// this asset class in place of the composition metadata that would normally
/// describe the remap; it is not an instance of any algorithm.
pub open spec fn mon_block_src(d: int) -> int {
    if d == 0 {
        0
    } else if d == 1 {
        1
    } else if d == 2 {
        16
    } else if d == 3 {
        2
    } else if d == 4 {
        3
    } else if d == 5 {
        17
    } else if d == 6 {
        4
    } else if d == 7 {
        5
    } else if d == 8 {
        18
    } else if d == 9 {
        6
    } else if d == 10 {
        7
    } else if d == 11 {
        19
    } else if d == 12 {
        8
    } else if d == 13 {
        9
    } else if d == 14 {
        20
    } else if d == 15 {
        10
    } else if d == 16 {
        11
    } else if d == 17 {
        21
    } else if d == 18 {
        12
    } else if d == 19 {
        13
    } else if d == 20 {
        22
    } else if d == 21 {
        14
    } else if d == 22 {
        15
    } else if d == 23 {
        23
    } else if d == 24 {
        24
    } else if d == 25 {
        25
    } else if d == 26 {
        32
    } else if d == 27 {
        26
    } else if d == 28 {
        27
    } else if d == 29 {
        33
    } else if d == 30 {
        28
    } else if d == 31 {
        29
    } else if d == 32 {
        34
    } else if d == 33 {
        31
    } else if d == 34 {
        30
    } else {
        35
    }
}

fn block_src(d: usize) -> (s: usize)
    requires
        d < 36,
    ensures
        s == mon_block_src(d as int),
        s < 36,
{
    match d {
        0 => 0,
        1 => 1,
        2 => 16,
        3 => 2,
        4 => 3,
        5 => 17,
        6 => 4,
        7 => 5,
        8 => 18,
        9 => 6,
        10 => 7,
        11 => 19,
        12 => 8,
        13 => 9,
        14 => 20,
        15 => 10,
        16 => 11,
        17 => 21,
        18 => 12,
        19 => 13,
        20 => 22,
        21 => 14,
        22 => 15,
        23 => 23,
        24 => 24,
        25 => 25,
        26 => 32,
        27 => 26,
        28 => 27,
        29 => 33,
        30 => 28,
        31 => 29,
        32 => 34,
        33 => 31,
        34 => 30,
        _ => 35,
    }
}

/// The palette index of output pixel `(x, y)` of the re-ordered 96-by-96
/// sprite: the pixel comes from the untiled image at the same position
/// within the source block that the permutation assigns to `(x, y)`'s block.
pub open spec fn mon_pixel(data: Seq<u8>, x: int, y: int) -> u8 {
    let s = mon_block_src((y / 8) * 3 + x / 32);
    let sy = (s / 3) * 8 + y % 8;
    let sx = (s % 3) * 32 + x % 32;
    pixel_nibble(data, tiled_index(12, sx, sy))
}

/// The color of output pixel `(x, y)` of the re-ordered 96-by-96 sprite.
pub open spec fn mon_color(data: Seq<u8>, pal: Seq<(u8, u8, u8)>, x: int, y: int) -> (u8, u8, u8) {
    palette_color(pal, mon_pixel(data, x, y))
}

impl NCGR {
    /// Parses a tile graphics resource: the generic header locates the
    /// character section at its `header_size` offset; the section's declared
    /// tile data size gives the number of packed bytes.
    pub fn parse(data: &[u8]) -> (r: Result<NCGR, StructuralError>)
        ensures
            match r {
                Ok(p) => {
                    let off = le16(data@, 12);
                    &&& ncgr_parse_ok(data@)
                    &&& p.header.header_size == off
                    &&& p.rahc.magic@ == data@.subrange(off, off + 4)
                    &&& p.rahc.chunk_size == le32(data@, off + 4)
                    &&& p.rahc.n_tiles_y == le16(data@, off + 8)
                    &&& p.rahc.n_tiles_x == le16(data@, off + 10)
                    &&& p.rahc.color_depth == le32(data@, off + 12)
                    &&& p.rahc.padding1 == le64(data@, off + 16)
                    &&& p.rahc.tile_data_size_bytes == le32(data@, off + 24)
                    &&& p.rahc.tile_data_offset == le32(data@, off + 28)
                    &&& p.rahc.data@ == data@.subrange(off + 32, off + 32 + le32(data@, off + 24))
                },
                Err(e) => !ncgr_parse_ok(data@) && e == StructuralError::OutOfBounds,
            },
    {
        let len: usize = data.len();
        let header = GenericHeader::parse(data)?;
        let off: usize = header.header_size as usize;
        if len < 32 || off > len - 32 {
            return Err(StructuralError::OutOfBounds);
        }
        let tile_data_size_bytes = read_u32(data, off + 24);
        let size: usize = tile_data_size_bytes as usize;
        if len - off - 32 < size {
            return Err(StructuralError::OutOfBounds);
        }
        Ok(
            NCGR {
                header,
                rahc: RAHC {
                    magic: read_bytes(data, off, 4),
                    chunk_size: read_u32(data, off + 4),
                    n_tiles_y: read_u16(data, off + 8),
                    n_tiles_x: read_u16(data, off + 10),
                    color_depth: read_u32(data, off + 12),
                    padding1: read_u64(data, off + 16),
                    tile_data_size_bytes,
                    tile_data_offset: read_u32(data, off + 28),
                    data: read_bytes(data, off + 32, size),
                },
            },
        )
    }

    /// A plain tile layout this decoder can render: a real tile width (the
    /// `0xFFFF` sentinel means the layout needs an external composition
    /// table) and 4-bit color depth (code 3; 8-bit depth is an unsupported
    /// layout here).
    pub open spec fn plain_renderable(&self) -> bool {
        self.rahc.n_tiles_x != 0xFFFF && self.rahc.color_depth == 3
    }

    /// Expands the tile data into a row-major RGB buffer through `palette`.
    /// Returns `None`, meaning "cannot render", for the `0xFFFF` tile-width
    /// sentinel and for any color depth other than 4-bit.
    pub fn unpack_trainer_sprite(&self, palette: &Vec<(u8, u8, u8)>, image_tile_width: u32) -> (r:
        Option<GraphicsResource>)
        requires
            self.plain_renderable() ==> 192 * (self.rahc.n_tiles_x as int) * (
            self.rahc.n_tiles_y as int) <= usize::MAX && 64 * (self.rahc.n_tiles_x as int) * (
            self.rahc.n_tiles_y as int) <= 2 * self.rahc.data@.len(),
        ensures
            r is Some <==> self.plain_renderable(),
            match r {
                Some(g) => {
                    let w = 8 * (self.rahc.n_tiles_x as int);
                    let h = 8 * (self.rahc.n_tiles_y as int);
                    &&& g.width == w
                    &&& g.height == h
                    &&& g.data@.len() == 3 * w * h
                    &&& forall|x: int, y: int|
                        0 <= x < w && 0 <= y < h ==> {
                            let c = #[trigger] sprite_color(
                                self.rahc.data@,
                                palette@,
                                self.rahc.n_tiles_x as int,
                                x,
                                y,
                            );
                            g.data@[3 * (y * w + x)] == c.0 && g.data@[3 * (y * w + x) + 1] == c.1
                                && g.data@[3 * (y * w + x) + 2] == c.2
                        }
                },
                None => true,
            },
    {
        if self.rahc.n_tiles_x == 0xFFFF {
            return None;
        }
        if self.rahc.color_depth != 3 {
            return None;
        }
        let wt: usize = self.rahc.n_tiles_x as usize;
        let ht: usize = self.rahc.n_tiles_y as usize;
        let w: usize = wt * 8;
        let h: usize = ht * 8;
        proof {
            let xt = wt as int;
            let yt = ht as int;
            assert((xt * 8) * (yt * 8) == 64 * xt * yt && 0 <= 64 * xt * yt <= 192 * xt * yt)
                by (nonlinear_arith)
                requires
                    xt >= 0,
                    yt >= 0,
            ;
        }
        let total: usize = w * h;
        let mut buffer: Vec<u8> = Vec::new();
        let mut p: usize = 0;
        while p < total
            invariant
                p <= total,
                total == w * h,
                w == wt * 8,
                h == ht * 8,
                wt == self.rahc.n_tiles_x,
                ht == self.rahc.n_tiles_y,
                wt != 0xFFFF,
                self.rahc.color_depth == 3,
                64 * wt * ht <= 2 * self.rahc.data@.len(),
                192 * wt * ht <= usize::MAX,
                buffer@.len() == 3 * p,
                forall|x: int, y: int|
                    0 <= x < w && 0 <= y < h && y * (w as int) + x < p ==> {
                        let c = #[trigger] sprite_color(
                            self.rahc.data@,
                            palette@,
                            wt as int,
                            x,
                            y,
                        );
                        buffer@[3 * (y * (w as int) + x)] == c.0 && buffer@[3 * (y * (w as int) + x)
                            + 1] == c.1 && buffer@[3 * (y * (w as int) + x) + 2] == c.2
                    },
            decreases total - p,
        {
            proof {
                if w == 0 || h == 0 {
                    assert(total == 0) by (nonlinear_arith)
                        requires
                            total == w * h,
                            w == 0 || h == 0,
                    ;
                }
            }
            let x: usize = p % w;
            let y: usize = p / w;
            proof {
                vstd::arithmetic::div_mod::lemma_mod_division_less_than_divisor(p as int, w as int);
                vstd::arithmetic::div_mod::lemma_multiply_divide_lt(p as int, w as int, h as int);
                assert(p < w * h ==> p < (w as int) * (h as int)) by (nonlinear_arith);
                let xi = x as int;
                let yi = y as int;
                let wti = wt as int;
                let hti = ht as int;
                vstd::arithmetic::div_mod::lemma_multiply_divide_lt(yi, 8, hti);
                vstd::arithmetic::div_mod::lemma_multiply_divide_lt(xi, 8, wti);
                assert((yi / 8) * wti + xi / 8 < wti * hti && 0 <= (yi / 8) * wti)
                    by (nonlinear_arith)
                    requires
                        0 <= yi / 8 < hti,
                        0 <= xi / 8 < wti,
                ;
                assert(0 <= wti * hti && 64 * (wti * hti) == 64 * wti * hti && wti * hti <= 192
                    * wti * hti && 64 * wti * hti <= 192 * wti * hti && ((yi / 8) * wti + xi / 8)
                    * 64 + 63 < 64 * (wti * hti)) by (nonlinear_arith)
                    requires
                        0 <= (yi / 8) * wti + xi / 8,
                        (yi / 8) * wti + xi / 8 < wti * hti,
                        wti >= 1,
                        hti >= 1,
                ;
                lemma_tiled_index_bounds(wti, hti, xi, yi);
            }
            let t: usize = ((y / 8) * wt + x / 8) * 64 + (y % 8) * 8 + (x % 8);
            proof {
                vstd::arithmetic::div_mod::lemma_multiply_divide_lt(
                    t as int,
                    2,
                    self.rahc.data@.len() as int,
                );
            }
            let half: usize = t / 2;
            let b: u8 = self.rahc.data[half];
            let idx: u8 = if t % 2 == 0 {
                b & 0xF
            } else {
                b >> 4
            };
            let c: (u8, u8, u8) = if (idx as usize) < palette.len() {
                palette[idx as usize]
            } else {
                (255u8, 255u8, 255u8)
            };
            buffer.push(c.0);
            buffer.push(c.1);
            buffer.push(c.2);
            proof {
                vstd::arithmetic::div_mod::lemma_fundamental_div_mod(p as int, w as int);
                assert forall|xx: int, yy: int|
                    0 <= xx < w && 0 <= yy < h && yy * (w as int) + xx < p + 1 implies {
                    let cc = #[trigger] sprite_color(
                        self.rahc.data@,
                        palette@,
                        wt as int,
                        xx,
                        yy,
                    );
                    buffer@[3 * (yy * (w as int) + xx)] == cc.0 && buffer@[3 * (yy * (w as int)
                        + xx) + 1] == cc.1 && buffer@[3 * (yy * (w as int) + xx) + 2] == cc.2
                } by {
                    if yy * (w as int) + xx == p {
                        vstd::arithmetic::div_mod::lemma_fundamental_div_mod_converse(
                            p as int,
                            w as int,
                            yy,
                            xx,
                        );
                        assert(xx == (p as int) % (w as int) && yy == (p as int) / (w as int));
                        assert(x as int == (p as int) % (w as int) && y as int == (p as int) / (w as int));
                    }
                }
            }
            p = p + 1;
        }
        proof {
            let wi = w as int;
            let hi = h as int;
            assert(3 * wi * hi == 3 * (wi * hi)) by (nonlinear_arith);
            assert(wi * hi == total);
            assert forall|xx: int, yy: int| 0 <= xx < wi && 0 <= yy < hi implies {
                let c = #[trigger] sprite_color(self.rahc.data@, palette@, wt as int, xx, yy);
                buffer@[3 * (yy * wi + xx)] == c.0 && buffer@[3 * (yy * wi + xx) + 1] == c.1
                    && buffer@[3 * (yy * wi + xx) + 2] == c.2
            } by {
                assert(yy * wi + xx < wi * hi) by (nonlinear_arith)
                    requires
                        0 <= xx < wi,
                        0 <= yy < hi,
                ;
            }
        }
        Some(
            GraphicsResource {
                width: self.rahc.n_tiles_x as u32 * 8,
                height: self.rahc.n_tiles_y as u32 * 8,
                data: buffer,
            },
        )
    }

    /// The one sprite class with a fixed re-ordering pass: a 4-bit image
    /// whose untiled form is exactly 96 by 96 pixels (12 by 12 tiles).
    pub open spec fn mon_full_renderable(&self) -> bool {
        self.rahc.n_tiles_x == 12 && self.rahc.n_tiles_y == 12 && self.rahc.color_depth == 3
    }

    /// Expands the tile data of the 96-by-96 sprite class into a row-major
    /// RGB buffer through `palette`, applying the fixed 36-block
    /// re-ordering. Returns `None`, meaning "cannot render", for any other
    /// dimensions or color depth.
    pub fn unpack_mon_full_sprite(&self, palette: Vec<(u8, u8, u8)>, image_tile_width: u32) -> (r:
        Option<GraphicsResource>)
        requires
            self.mon_full_renderable() ==> 2 * self.rahc.data@.len() >= 9216,
        ensures
            r is Some <==> self.mon_full_renderable(),
            match r {
                Some(g) => {
                    &&& g.width == 96
                    &&& g.height == 96
                    &&& g.data@.len() == 27648
                    &&& forall|x: int, y: int|
                        0 <= x < 96 && 0 <= y < 96 ==> {
                            let c = #[trigger] mon_color(self.rahc.data@, palette@, x, y);
                            g.data@[3 * (y * 96 + x)] == c.0 && g.data@[3 * (y * 96 + x) + 1]
                                == c.1 && g.data@[3 * (y * 96 + x) + 2] == c.2
                        }
                },
                None => true,
            },
    {
        if !(self.rahc.n_tiles_x == 12 && self.rahc.n_tiles_y == 12 && self.rahc.color_depth == 3)
        {
            return None;
        }
        let mut buffer: Vec<u8> = Vec::new();
        let mut p: usize = 0;
        while p < 9216
            invariant
                p <= 9216,
                self.mon_full_renderable(),
                2 * self.rahc.data@.len() >= 9216,
                buffer@.len() == 3 * p,
                forall|x: int, y: int|
                    0 <= x < 96 && 0 <= y < 96 && y * 96 + x < p ==> {
                        let c = #[trigger] mon_color(self.rahc.data@, palette@, x, y);
                        buffer@[3 * (y * 96 + x)] == c.0 && buffer@[3 * (y * 96 + x) + 1] == c.1
                            && buffer@[3 * (y * 96 + x) + 2] == c.2
                    },
            decreases 9216 - p,
        {
            let x: usize = p % 96;
            let y: usize = p / 96;
            proof {
                vstd::arithmetic::div_mod::lemma_mod_division_less_than_divisor(p as int, 96);
                vstd::arithmetic::div_mod::lemma_multiply_divide_lt(p as int, 96, 96);
            }
            let d: usize = (y / 8) * 3 + x / 32;
            proof {
                vstd::arithmetic::div_mod::lemma_multiply_divide_lt(y as int, 8, 12);
                vstd::arithmetic::div_mod::lemma_multiply_divide_lt(x as int, 32, 3);
            }
            let s: usize = block_src(d);
            proof {
                vstd::arithmetic::div_mod::lemma_multiply_divide_lt(s as int, 3, 12);
                vstd::arithmetic::div_mod::lemma_mod_division_less_than_divisor(s as int, 3);
                vstd::arithmetic::div_mod::lemma_mod_division_less_than_divisor(x as int, 32);
                vstd::arithmetic::div_mod::lemma_mod_division_less_than_divisor(y as int, 8);
            }
            let sy: usize = (s / 3) * 8 + y % 8;
            let sx: usize = (s % 3) * 32 + x % 32;
            proof {
                vstd::arithmetic::div_mod::lemma_multiply_divide_lt(sy as int, 8, 12);
                vstd::arithmetic::div_mod::lemma_multiply_divide_lt(sx as int, 8, 12);
                vstd::arithmetic::div_mod::lemma_mod_division_less_than_divisor(sy as int, 8);
                vstd::arithmetic::div_mod::lemma_mod_division_less_than_divisor(sx as int, 8);
            }
            let t: usize = ((sy / 8) * 12 + sx / 8) * 64 + (sy % 8) * 8 + (sx % 8);
            proof {
                vstd::arithmetic::div_mod::lemma_multiply_divide_lt(
                    t as int,
                    2,
                    self.rahc.data@.len() as int,
                );
            }
            let half: usize = t / 2;
            let b: u8 = self.rahc.data[half];
            let idx: u8 = if t % 2 == 0 {
                b & 0xF
            } else {
                b >> 4
            };
            let c: (u8, u8, u8) = if (idx as usize) < palette.len() {
                palette[idx as usize]
            } else {
                (255u8, 255u8, 255u8)
            };
            buffer.push(c.0);
            buffer.push(c.1);
            buffer.push(c.2);
            proof {
                vstd::arithmetic::div_mod::lemma_fundamental_div_mod(p as int, 96);
                assert forall|xx: int, yy: int|
                    0 <= xx < 96 && 0 <= yy < 96 && yy * 96 + xx < p + 1 implies {
                    let cc = #[trigger] mon_color(self.rahc.data@, palette@, xx, yy);
                    buffer@[3 * (yy * 96 + xx)] == cc.0 && buffer@[3 * (yy * 96 + xx) + 1] == cc.1
                        && buffer@[3 * (yy * 96 + xx) + 2] == cc.2
                } by {
                    if yy * 96 + xx == p {
                        vstd::arithmetic::div_mod::lemma_fundamental_div_mod_converse(
                            p as int,
                            96,
                            yy,
                            xx,
                        );
                        assert(xx == (p as int) % 96 && yy == (p as int) / 96);
                    }
                }
            }
            p = p + 1;
        }
        Some(GraphicsResource { width: 96, height: 96, data: buffer })
    }
}

} // verus!
