//! The two LZ-style decompression codecs. Both streams begin with a 4-byte
//! header: a tag byte and a 3-byte little-endian declared size. After the
//! header the stream is a sequence of 8-way flag bytes; each flag bit, taken
//! most-significant first, either copies one literal byte from the input (bit
//! clear) or emits a back-reference (bit set) that re-reads bytes already
//! produced. The two codecs differ only in how a back-reference is packed.
//!
//! Decoding runs until the input is exhausted; a declared size that differs
//! from what was produced is a warning the caller can observe, not an error.

use vstd::prelude::*;

use crate::errors::StructuralError;

verus! {

/// Which back-reference grammar a stream uses, named by its tag byte:
/// `0x10` selects the fixed two-byte references, `0x11` the two-to-four-byte
/// references with three token shapes.
#[derive(Clone, Copy, Debug, PartialEq, Eq, Structural)]
pub enum LzCodec {
    Lz77,
    Lz11,
}

/// The size the stream's 3-byte header field declares for its decoded output.
pub open spec fn declared_size(data: Seq<u8>) -> int
    recommends
        data.len() >= 4,
{
    data[1] + data[2] * 0x100 + data[3] * 0x1_0000
}

/// Flag bits select literal copy (clear) or back-reference (set),
/// most-significant bit first.
pub open spec fn flag_set(flags: u8, i: int) -> bool
    recommends
        0 <= i < 8,
{
    (flags >> ((7 - i) as u8)) & 1 == 1
}

/// A 12-bit displacement: the low nibble of `hi` followed by all of `lo`.
pub open spec fn disp12(hi: u8, lo: u8) -> int {
    (hi & 0xF) * 0x100 + lo
}

/// Copy length of a two-byte reference under the `0x10` grammar: 3 to 18.
pub open spec fn ref77_length(b1: u8) -> int {
    (b1 >> 4) + 3
}

/// Copy length of a two-byte reference under the `0x11` grammar: 2 to 16.
pub open spec fn ref11_length2(b1: u8) -> int {
    (b1 >> 4) + 1
}

/// Copy length of a three-byte reference (leading nibble 0): 0x11 to 0x110.
pub open spec fn ref11_length3(b1: u8, b2: u8) -> int {
    (b1 & 0xF) * 0x10 + (b2 >> 4) + 0x11
}

/// Copy length of a four-byte reference (leading nibble 1): 0x111 to 0x10110.
pub open spec fn ref11_length4(b1: u8, b2: u8, b3: u8) -> int {
    (b1 & 0xF) * 0x1000 + b2 * 0x10 + (b3 >> 4) + 0x111
}

/// Parses one back-reference token at `pos`: its copy length, its
/// displacement, and the position just after it.
pub open spec fn parse_ref(codec: LzCodec, data: Seq<u8>, pos: int) -> Result<
    (int, int, int),
    StructuralError,
>
    recommends
        0 <= pos <= data.len(),
{
    match codec {
        LzCodec::Lz77 => {
            if pos + 2 > data.len() {
                Err(StructuralError::TruncatedStream)
            } else {
                Ok((ref77_length(data[pos]), disp12(data[pos], data[pos + 1]), pos + 2))
            }
        },
        LzCodec::Lz11 => {
            if pos + 1 > data.len() {
                Err(StructuralError::TruncatedStream)
            } else {
                let b1 = data[pos];
                if b1 >> 4 == 0 {
                    if pos + 3 > data.len() {
                        Err(StructuralError::TruncatedStream)
                    } else {
                        Ok(
                            (
                                ref11_length3(b1, data[pos + 1]),
                                disp12(data[pos + 1], data[pos + 2]),
                                pos + 3,
                            ),
                        )
                    }
                } else if b1 >> 4 == 1 {
                    if pos + 4 > data.len() {
                        Err(StructuralError::TruncatedStream)
                    } else {
                        Ok(
                            (
                                ref11_length4(b1, data[pos + 1], data[pos + 2]),
                                disp12(data[pos + 2], data[pos + 3]),
                                pos + 4,
                            ),
                        )
                    }
                } else {
                    if pos + 2 > data.len() {
                        Err(StructuralError::TruncatedStream)
                    } else {
                        Ok((ref11_length2(b1), disp12(b1, data[pos + 1]), pos + 2))
                    }
                }
            }
        },
    }
}

/// The effect of one back-reference: append `count` bytes starting at `src`,
/// one at a time, so that a source range overlapping the output's growing end
/// re-reads bytes appended a moment earlier.
pub open spec fn back_copy(out: Seq<u8>, src: int, count: int) -> Seq<u8>
    recommends
        0 <= src < out.len(),
        0 <= count,
    decreases count,
{
    if count <= 0 {
        out
    } else {
        back_copy(out.push(out[src]), src + 1, count - 1)
    }
}

/// The decoded output from token `i` of the flag group `flags` onward, given
/// that `out` has been produced and the next input byte sits at `pos`.
/// Token 8 closes the group: decoding ends once the input is exhausted, and
/// otherwise the next byte is the next group's flags. A literal whose input
/// byte is missing is skipped; a back-reference that runs off the input is a
/// truncation error, and one that reaches behind the start of the output a
/// displacement error.
pub open spec fn lz_items(
    codec: LzCodec,
    data: Seq<u8>,
    pos: int,
    flags: u8,
    i: int,
    out: Seq<u8>,
) -> Result<Seq<u8>, StructuralError>
    recommends
        4 <= pos <= data.len(),
        0 <= i <= 8,
    decreases data.len() - pos, 8 - i,
{
    if i >= 8 {
        if pos >= data.len() {
            Ok(out)
        } else {
            lz_items(codec, data, pos + 1, data[pos], 0, out)
        }
    } else if !flag_set(flags, i) {
        if pos < data.len() {
            lz_items(codec, data, pos + 1, flags, i + 1, out.push(data[pos]))
        } else {
            lz_items(codec, data, pos, flags, i + 1, out)
        }
    } else {
        match parse_ref(codec, data, pos) {
            Err(e) => Err(e),
            Ok((length, disp, next)) => {
                if out.len() < disp + 1 {
                    Err(StructuralError::BadDisplacement)
                } else {
                    lz_items(
                        codec,
                        data,
                        next,
                        flags,
                        i + 1,
                        back_copy(out, out.len() - 1 - disp, length),
                    )
                }
            },
        }
    }
}

/// What a whole stream decodes to: everything after the 4-byte header, read
/// as flag groups. A stream too short to hold its header is truncated.
pub open spec fn lz_decode(codec: LzCodec, data: Seq<u8>) -> Result<Seq<u8>, StructuralError> {
    if data.len() < 4 {
        Err(StructuralError::TruncatedStream)
    } else {
        lz_items(codec, data, 4, 0, 8, Seq::<u8>::empty())
    }
}

/// A decode's output together with the size its header declared. The two can
/// disagree: some producers over- or understate the field, which is reported
/// as an inconsistency, not treated as fatal.
#[derive(Debug)]
pub struct Decompressed {
    pub data: Vec<u8>,
    pub declared_len: usize,
}

impl Decompressed {
    /// Whether the produced output has exactly the declared size.
    pub fn size_matches(&self) -> (r: bool)
        ensures
            r == (self.data@.len() == self.declared_len),
    {
        self.data.len() == self.declared_len
    }
}

fn lz_decompress(codec: LzCodec, data: &[u8]) -> (r: Result<Decompressed, StructuralError>)
    ensures
        match r {
            Ok(d) => lz_decode(codec, data@) == Ok::<Seq<u8>, StructuralError>(d.data@)
                && data@.len() >= 4 && d.declared_len == declared_size(data@),
            Err(e) => lz_decode(codec, data@) == Err::<Seq<u8>, StructuralError>(e),
        },
{
    let len: usize = data.len();
    if len < 4 {
        return Err(StructuralError::TruncatedStream);
    }
    let declared: usize = data[1] as usize + data[2] as usize * 0x100 + data[3] as usize
        * 0x1_0000;
    let mut out: Vec<u8> = Vec::new();
    let mut pos: usize = 4;
    let mut flags: u8 = 0;
    let mut i: usize = 8;
    loop
        invariant
            len == data@.len(),
            4 <= pos <= len,
            i <= 8,
            declared == declared_size(data@),
            lz_items(codec, data@, pos as int, flags, i as int, out@) == lz_decode(codec, data@),
        decreases len - pos, 8 - i,
    {
        if i >= 8 {
            if pos == len {
                return Ok(Decompressed { data: out, declared_len: declared });
            }
            flags = data[pos];
            pos = pos + 1;
            i = 0;
        } else {
            let bit = (flags >> ((7 - i) as u8)) & 1;
            if bit == 1 {
                let (length, disp, next): (usize, usize, usize) = match codec {
                    LzCodec::Lz77 => {
                        if len - pos < 2 {
                            return Err(StructuralError::TruncatedStream);
                        }
                        let b1 = data[pos];
                        let b2 = data[pos + 1];
                        (
                            (b1 >> 4) as usize + 3,
                            (b1 & 0xF) as usize * 0x100 + b2 as usize,
                            pos + 2,
                        )
                    },
                    LzCodec::Lz11 => {
                        if len - pos < 1 {
                            return Err(StructuralError::TruncatedStream);
                        }
                        let b1 = data[pos];
                        if b1 >> 4 == 0 {
                            if len - pos < 3 {
                                return Err(StructuralError::TruncatedStream);
                            }
                            let b2 = data[pos + 1];
                            let b3 = data[pos + 2];
                            (
                                (b1 & 0xF) as usize * 0x10 + (b2 >> 4) as usize + 0x11,
                                (b2 & 0xF) as usize * 0x100 + b3 as usize,
                                pos + 3,
                            )
                        } else if b1 >> 4 == 1 {
                            if len - pos < 4 {
                                return Err(StructuralError::TruncatedStream);
                            }
                            let b2 = data[pos + 1];
                            let b3 = data[pos + 2];
                            let b4 = data[pos + 3];
                            (
                                (b1 & 0xF) as usize * 0x1000 + b2 as usize * 0x10 + (b3
                                    >> 4) as usize + 0x111,
                                (b3 & 0xF) as usize * 0x100 + b4 as usize,
                                pos + 4,
                            )
                        } else {
                            if len - pos < 2 {
                                return Err(StructuralError::TruncatedStream);
                            }
                            let b2 = data[pos + 1];
                            (
                                (b1 >> 4) as usize + 1,
                                (b1 & 0xF) as usize * 0x100 + b2 as usize,
                                pos + 2,
                            )
                        }
                    },
                };
                assert(parse_ref(codec, data@, pos as int) == Ok::<(int, int, int), StructuralError>(
                    (length as int, disp as int, next as int),
                ));
                if out.len() < disp + 1 {
                    return Err(StructuralError::BadDisplacement);
                }
                let ghost out0 = out@;
                let ghost src = out0.len() - 1 - disp;
                let mut k: usize = 0;
                while k < length
                    invariant
                        k <= length,
                        disp + 1 <= out0.len(),
                        src == out0.len() - 1 - disp,
                        out@.len() == out0.len() + k,
                        back_copy(out@, src + k, (length - k) as int) == back_copy(
                            out0,
                            src,
                            length as int,
                        ),
                    decreases length - k,
                {
                    let idx = out.len() - 1 - disp;
                    assert(idx == src + k);
                    let b = out[idx];
                    out.push(b);
                    k = k + 1;
                }
                proof {
                    assert(out@ == back_copy(out0, src, length as int));
                }
                pos = next;
                i = i + 1;
            } else {
                assert(!flag_set(flags, i as int));
                if pos < len {
                    let b = data[pos];
                    out.push(b);
                    pos = pos + 1;
                }
                i = i + 1;
            }
        }
    }
}

/// Decoder for tag-`0x10` streams: two-byte back-references whose high nibble
/// is the copy length minus 3 and whose remaining 12 bits are the
/// displacement.
pub fn decompress_lz77(data: &[u8]) -> (r: Result<Decompressed, StructuralError>)
    ensures
        match r {
            Ok(d) => lz_decode(LzCodec::Lz77, data@) == Ok::<Seq<u8>, StructuralError>(d.data@)
                && data@.len() >= 4 && d.declared_len == declared_size(data@),
            Err(e) => lz_decode(LzCodec::Lz77, data@) == Err::<Seq<u8>, StructuralError>(e),
        },
{
    lz_decompress(LzCodec::Lz77, data)
}

/// Decoder for tag-`0x11` streams: back-references of two, three or four
/// bytes, the shape picked by the leading nibble.
pub fn decompress_lz11(data: &[u8]) -> (r: Result<Decompressed, StructuralError>)
    ensures
        match r {
            Ok(d) => lz_decode(LzCodec::Lz11, data@) == Ok::<Seq<u8>, StructuralError>(d.data@)
                && data@.len() >= 4 && d.declared_len == declared_size(data@),
            Err(e) => lz_decode(LzCodec::Lz11, data@) == Err::<Seq<u8>, StructuralError>(e),
        },
{
    lz_decompress(LzCodec::Lz11, data)
}

/// What a stream's leading bytes announce about its compression; the
/// payload of the two LZ forms is the size their header declares. Huffman
/// and run-length streams exist in the wider format family but nothing here
/// decodes them, so they are never detected.
#[derive(Clone, Copy, Debug, PartialEq, Eq, Structural)]
pub enum NDSCompressionType {
    LZ77(usize),
    LZ11(usize),
    Huffman,
    RLUncomp,
    Uncompressed,
}

/// The scheme announced by a stream's first four bytes: tag `0x10` or
/// `0x11` with a nonzero declared size. A header whose three size bytes are
/// all zero is the empty-payload sentinel, not a compressed stream, and
/// anything shorter than a header cannot be compressed at all.
pub open spec fn spec_detect_compression(data: Seq<u8>) -> NDSCompressionType {
    if data.len() < 4 {
        NDSCompressionType::Uncompressed
    } else if data[1] == 0 && data[2] == 0 && data[3] == 0 {
        NDSCompressionType::Uncompressed
    } else if data[0] == 0x10 {
        NDSCompressionType::LZ77(declared_size(data) as usize)
    } else if data[0] == 0x11 {
        NDSCompressionType::LZ11(declared_size(data) as usize)
    } else {
        NDSCompressionType::Uncompressed
    }
}

/// Classifies a stream by its leading tag and declared size. The three-way
/// decision that routes archive entries to a decoder lives here alone.
pub fn detect_compression(data: &[u8]) -> (r: NDSCompressionType)
    ensures
        r == spec_detect_compression(data@),
{
    if data.len() < 4 {
        return NDSCompressionType::Uncompressed;
    }
    if data[1] == 0 && data[2] == 0 && data[3] == 0 {
        return NDSCompressionType::Uncompressed;
    }
    let size: usize = data[1] as usize + data[2] as usize * 0x100 + data[3] as usize * 0x1_0000;
    if data[0] == 0x10 {
        NDSCompressionType::LZ77(size)
    } else if data[0] == 0x11 {
        NDSCompressionType::LZ11(size)
    } else {
        NDSCompressionType::Uncompressed
    }
}

/// The groups of a stream that stores `x[i..]` literally: each group is a
/// zero flag byte (eight literals) followed by up to eight input bytes.
pub open spec fn stored_groups(x: Seq<u8>, i: int) -> Seq<u8>
    recommends
        0 <= i,
    decreases x.len() - i,
{
    if i >= x.len() {
        Seq::<u8>::empty()
    } else if x.len() - i >= 8 {
        seq![0u8] + x.subrange(i, i + 8) + stored_groups(x, i + 8)
    } else {
        seq![0u8] + x.subrange(i, x.len() as int)
    }
}

/// A complete stream that stores `x` without any back-reference: the header
/// with `x`'s true length in the declared-size field, then literal groups.
pub open spec fn lz_compress_stored(tag: u8, x: Seq<u8>) -> Seq<u8>
    recommends
        x.len() <= 0xFF_FFFF,
{
    let n = x.len() as u32;
    seq![tag, n as u8, (n >> 8) as u8, (n >> 16) as u8] + stored_groups(x, 0)
}

fn compress_stored(tag: u8, input: &[u8]) -> (r: Vec<u8>)
    requires
        input@.len() <= 0xFF_FFFF,
    ensures
        r@ == lz_compress_stored(tag, input@),
{
    let len: usize = input.len();
    let n: u32 = len as u32;
    let mut r: Vec<u8> = Vec::new();
    r.push(tag);
    r.push(n as u8);
    r.push((n >> 8) as u8);
    r.push((n >> 16) as u8);
    assert(r@ =~= seq![tag, n as u8, (n >> 8) as u8, (n >> 16) as u8]);
    let mut i: usize = 0;
    while i < len
        invariant
            len == input@.len(),
            i <= len,
            r@ + stored_groups(input@, i as int) == lz_compress_stored(tag, input@),
        decreases len - i,
    {
        let ghost pre = r@;
        r.push(0u8);
        let ghost r0 = r@;
        let end: usize = if len - i >= 8 {
            i + 8
        } else {
            len
        };
        let mut j: usize = i;
        while j < end
            invariant
                i <= j <= end <= len,
                len == input@.len(),
                r@ == r0 + input@.subrange(i as int, j as int),
            decreases end - j,
        {
            let b = input[j];
            r.push(b);
            assert(r@ =~= r0 + input@.subrange(i as int, (j + 1) as int));
            j = j + 1;
        }
        proof {
            assert(stored_groups(input@, i as int) =~= seq![0u8] + input@.subrange(
                i as int,
                end as int,
            ) + stored_groups(input@, end as int));
            assert(r@ + stored_groups(input@, end as int) =~= pre + stored_groups(
                input@,
                i as int,
            ));
        }
        i = end;
    }
    proof {
        assert(r@ =~= r@ + stored_groups(input@, i as int));
    }
    r
}

proof fn lemma_skip_tail(codec: LzCodec, data: Seq<u8>, j: int, out: Seq<u8>)
    requires
        0 <= j <= 8,
        4 <= data.len(),
    ensures
        lz_items(codec, data, data.len() as int, 0, j, out) == Ok::<Seq<u8>, StructuralError>(out),
    decreases 8 - j,
{
    if j < 8 {
        let k = (7 - j) as u8;
        assert((0u8 >> k) & 1 == 0) by (bit_vector);
        assert(!flag_set(0, j));
        lemma_skip_tail(codec, data, j + 1, out);
    }
}

proof fn lemma_literal_run(
    codec: LzCodec,
    data: Seq<u8>,
    pos: int,
    j: int,
    cnt: int,
    x: Seq<u8>,
    i: int,
    out: Seq<u8>,
)
    requires
        0 <= j <= cnt <= 8,
        4 <= pos <= data.len(),
        0 <= i,
        i + (cnt - j) <= x.len(),
        pos + (cnt - j) <= data.len(),
        forall|t: int| 0 <= t < cnt - j ==> #[trigger] data[pos + t] == x[i + t],
    ensures
        lz_items(codec, data, pos, 0, j, out) == lz_items(
            codec,
            data,
            pos + (cnt - j),
            0,
            cnt,
            out + x.subrange(i, i + (cnt - j)),
        ),
    decreases cnt - j,
{
    if j == cnt {
        assert(out + x.subrange(i, i) =~= out);
    } else {
        let k = (7 - j) as u8;
        assert((0u8 >> k) & 1 == 0) by (bit_vector);
        assert(!flag_set(0, j));
        assert(data[pos + 0] == x[i + 0]);
        assert forall|t: int| 0 <= t < cnt - (j + 1) implies #[trigger] data[(pos + 1) + t] == x[(i
            + 1) + t] by {
            assert(data[pos + (t + 1)] == x[i + (t + 1)]);
        }
        lemma_literal_run(codec, data, pos + 1, j + 1, cnt, x, i + 1, out.push(data[pos]));
        assert(out.push(data[pos]) + x.subrange(i + 1, i + 1 + (cnt - j - 1)) =~= out + x.subrange(
            i,
            i + (cnt - j),
        ));
    }
}

proof fn lemma_stored_items(codec: LzCodec, data: Seq<u8>, pos: int, x: Seq<u8>, i: int, out: Seq<
    u8,
>)
    requires
        4 <= pos <= data.len(),
        0 <= i <= x.len(),
        data.subrange(pos, data.len() as int) == stored_groups(x, i),
    ensures
        lz_items(codec, data, pos, 0, 8, out) == Ok::<Seq<u8>, StructuralError>(
            out + x.subrange(i, x.len() as int),
        ),
    decreases x.len() - i,
{
    let n = data.len() as int;
    let tail = data.subrange(pos, n);
    if i == x.len() {
        assert(stored_groups(x, i) =~= Seq::<u8>::empty());
        assert(n - pos == 0);
        assert(out + x.subrange(i, x.len() as int) =~= out);
    } else {
        let r = x.len() - i;
        let cnt: int = if r >= 8 {
            8
        } else {
            r
        };
        let group = seq![0u8] + x.subrange(i, i + cnt);
        assert(stored_groups(x, i) == group + stored_groups(x, i + cnt)) by {
            if r >= 8 {
            } else {
                assert(stored_groups(x, i + cnt) =~= Seq::<u8>::empty());
                assert(seq![0u8] + x.subrange(i, x.len() as int) =~= group + stored_groups(
                    x,
                    i + cnt,
                ));
            }
        }
        assert(tail.len() == 1 + cnt + stored_groups(x, i + cnt).len());
        assert(data[pos] == 0) by {
            assert(tail[0] == (group + stored_groups(x, i + cnt))[0]);
        }
        assert forall|t: int| 0 <= t < cnt implies #[trigger] data[pos + 1 + t] == x[i + t] by {
            assert(tail[1 + t] == (group + stored_groups(x, i + cnt))[1 + t]);
            assert((group + stored_groups(x, i + cnt))[1 + t] == group[1 + t]);
        }
        // the flag byte opens a fresh group of eight literal items
        assert(lz_items(codec, data, pos, 0, 8, out) == lz_items(codec, data, pos + 1, 0, 0, out));
        lemma_literal_run(codec, data, pos + 1, 0, cnt, x, i, out);
        let out2 = out + x.subrange(i, i + cnt);
        if r >= 8 {
            assert forall|k: int| 0 <= k < n - (pos + 9) implies #[trigger] data.subrange(
                pos + 9,
                n,
            )[k] == stored_groups(x, i + 8)[k] by {
                assert(data.subrange(pos + 9, n)[k] == tail[9 + k]);
                assert(tail[9 + k] == (group + stored_groups(x, i + cnt))[9 + k]);
            }
            assert(data.subrange(pos + 9, n) =~= stored_groups(x, i + 8));
            lemma_stored_items(codec, data, pos + 9, x, i + 8, out2);
            assert(out2 + x.subrange(i + 8, x.len() as int) =~= out + x.subrange(
                i,
                x.len() as int,
            ));
        } else {
            assert(pos + 1 + cnt == n);
            lemma_skip_tail(codec, data, cnt, out2);
            assert(out2 =~= out + x.subrange(i, x.len() as int));
        }
    }
}

/// Law: a stream that stores a byte sequence decodes back to exactly that
/// sequence, under either codec, and declares its true length.
pub proof fn lemma_stored_round_trip(codec: LzCodec, tag: u8, x: Seq<u8>)
    requires
        x.len() <= 0xFF_FFFF,
    ensures
        lz_decode(codec, lz_compress_stored(tag, x)) == Ok::<Seq<u8>, StructuralError>(x),
        declared_size(lz_compress_stored(tag, x)) == x.len(),
{
    let c = lz_compress_stored(tag, x);
    let n = x.len() as u32;
    assert(c.subrange(4, c.len() as int) =~= stored_groups(x, 0));
    lemma_stored_items(codec, c, 4, x, 0, Seq::<u8>::empty());
    assert(Seq::<u8>::empty() + x.subrange(0, x.len() as int) =~= x);
    assert(n < 0x100_0000 ==> (n as u8) + ((n >> 8) as u8) * 0x100 + ((n >> 16) as u8) * 0x1_0000
        == n) by (bit_vector);
}

/// High byte of a two-byte reference under the `0x10` grammar encoding the
/// pair `(length, disp)`: the length minus 3 in the high nibble, the top four
/// displacement bits in the low nibble.
pub open spec fn encode_ref77_hi(length: u8, disp: u16) -> u8
    recommends
        3 <= length <= 18,
        disp < 0x1000,
{
    (((length - 3) as u8) << 4) | ((disp >> 8) as u8)
}

/// Low byte of a two-byte reference under the `0x10` grammar: the low eight
/// displacement bits.
pub open spec fn encode_ref77_lo(disp: u16) -> u8 {
    disp as u8
}

/// Law: the two-byte back-reference coding of the `0x10` grammar loses
/// nothing in either direction. Every pair with length 3 to 18 and a 12-bit
/// displacement decodes back from its encoding, and every two reference
/// bytes re-encode from the pair they decode to.
pub proof fn lemma_ref77_pair_round_trip(length: u8, disp: u16, b1: u8, b2: u8)
    ensures
        3 <= length <= 18 && disp < 0x1000 ==> ref77_length(encode_ref77_hi(length, disp))
            == length,
        3 <= length <= 18 && disp < 0x1000 ==> disp12(
            encode_ref77_hi(length, disp),
            encode_ref77_lo(disp),
        ) == disp,
        encode_ref77_hi((ref77_length(b1)) as u8, (disp12(b1, b2)) as u16) == b1,
        encode_ref77_lo((disp12(b1, b2)) as u16) == b2,
{
    assert(3 <= length <= 18 && disp < 0x1000 ==> (((((length - 3) as u8) << 4) | ((disp
        >> 8) as u8)) >> 4) + 3 == length) by (bit_vector);
    assert(3 <= length <= 18 && disp < 0x1000 ==> (((((length - 3) as u8) << 4) | ((disp
        >> 8) as u8)) & 0xF) * 0x100 + (disp as u8) == disp) by (bit_vector);
    assert((((((b1 >> 4) + 3) as u8 - 3) as u8) << 4) | (((((b1 & 0xF) * 0x100 + b2) as u16)
        >> 8) as u8) == b1) by (bit_vector);
    assert(((((b1 & 0xF) * 0x100 + b2) as u16) as u8) == b2) by (bit_vector);
}

/// Law: what one back-reference appends. The output keeps its prefix, grows
/// by exactly `count` bytes, and each appended byte repeats the source
/// window periodically: byte `j` of the copy is the byte `j mod p` places
/// after `src`, where `p` is the distance from `src` to the old end. A
/// source range that overlaps the growing end therefore re-reads its own
/// output, which is what lets a one-byte window fill a long run.
pub proof fn lemma_back_copy_periodic(out: Seq<u8>, src: int, count: int)
    requires
        0 <= src < out.len(),
        0 <= count,
    ensures
        back_copy(out, src, count).len() == out.len() + count,
        forall|k: int| 0 <= k < out.len() ==> #[trigger] back_copy(out, src, count)[k] == out[k],
        forall|j: int|
            0 <= j < count ==> #[trigger] back_copy(out, src, count)[out.len() + j] == out[src + (j
                % (out.len() - src))],
    decreases count,
{
    let p = out.len() - src;
    let res = back_copy(out, src, count);
    if count > 0 {
        let out2 = out.push(out[src]);
        lemma_back_copy_periodic(out2, src + 1, count - 1);
        assert(res == back_copy(out2, src + 1, count - 1));
        assert forall|j: int| 0 <= j < count implies #[trigger] res[out.len() + j] == out[src + (j
            % p)] by {
            if j == 0 {
                assert(res[out2.len() - 1] == out2[out2.len() - 1]);
                assert(0int % p == 0) by {
                    vstd::arithmetic::div_mod::lemma_small_mod(0, p as nat);
                }
            } else {
                let m = (j - 1) % (out2.len() - (src + 1));
                assert(out2.len() - (src + 1) == p);
                assert(res[out2.len() + (j - 1)] == out2[src + 1 + m]);
                assert(0 <= m < p) by {
                    vstd::arithmetic::div_mod::lemma_mod_division_less_than_divisor(j - 1, p);
                }
                vstd::arithmetic::div_mod::lemma_add_mod_noop(j - 1, 1, p);
                if m == p - 1 {
                    // the window wraps: the next copied byte is the window's first
                    assert((m + 1) % p == 0) by {
                        vstd::arithmetic::div_mod::lemma_mod_self_0(p);
                    }
                    if p == 1 {
                        vstd::arithmetic::div_mod::lemma_small_mod(0, 1);
                    } else {
                        vstd::arithmetic::div_mod::lemma_small_mod(1, p as nat);
                    }
                    assert(j % p == 0);
                    assert(out2[src + 1 + m] == out2[out.len() as int]);
                    assert(out2[out.len() as int] == out[src]);
                } else {
                    assert((m + 1) % p == m + 1) by {
                        vstd::arithmetic::div_mod::lemma_small_mod((m + 1) as nat, p as nat);
                    }
                    if p == 1 {
                    } else {
                        vstd::arithmetic::div_mod::lemma_small_mod(1, p as nat);
                    }
                    assert(j % p == m + 1);
                    assert(out2[src + 1 + m] == out[src + (m + 1)]);
                }
            }
        }
    }
}

/// Law: a back-reference one byte behind the end repeats the last byte.
/// A run compressed as a single literal followed by an overlapping
/// back-reference with displacement zero expands to copies of that literal.
pub proof fn lemma_back_copy_repeat_last(out: Seq<u8>, count: int)
    requires
        out.len() >= 1,
        0 <= count,
    ensures
        back_copy(out, out.len() - 1, count) == out + Seq::new(count as nat, |j: int| out.last()),
{
    let src = out.len() - 1;
    lemma_back_copy_periodic(out, src, count);
    let rhs = out + Seq::new(count as nat, |j: int| out.last());
    assert forall|k: int|
        0 <= k < back_copy(out, src, count).len() implies #[trigger] back_copy(out, src, count)[k]
        == rhs[k] by {
        if out.len() <= k {
            let j = k - out.len();
            vstd::arithmetic::div_mod::lemma_mod_multiples_basic(j, 1);
            assert(j % 1 == 0);
            assert(back_copy(out, src, count)[out.len() + j] == out[src + (j % (out.len()
                - src))]);
            assert(rhs[k] == out.last());
        }
    }
    assert(back_copy(out, src, count) =~= rhs);
}

/// Encodes `input` as a tag-`0x10` stream of literal groups. Pure stored
/// encoding: no back-references are emitted, so any byte sequence up to the
/// declared-size field's capacity round-trips through `decompress_lz77`.
pub fn compress_lz77(input: &[u8]) -> (r: Vec<u8>)
    requires
        input@.len() <= 0xFF_FFFF,
    ensures
        r@ == lz_compress_stored(0x10, input@),
        lz_decode(LzCodec::Lz77, r@) == Ok::<Seq<u8>, StructuralError>(input@),
        declared_size(r@) == input@.len(),
{
    let r = compress_stored(0x10, input);
    proof {
        lemma_stored_round_trip(LzCodec::Lz77, 0x10, input@);
    }
    r
}

/// Encodes `input` as a tag-`0x11` stream of literal groups; the counterpart
/// of `compress_lz77` for the second grammar.
pub fn compress_lz11(input: &[u8]) -> (r: Vec<u8>)
    requires
        input@.len() <= 0xFF_FFFF,
    ensures
        r@ == lz_compress_stored(0x11, input@),
        lz_decode(LzCodec::Lz11, r@) == Ok::<Seq<u8>, StructuralError>(input@),
        declared_size(r@) == input@.len(),
{
    let r = compress_stored(0x11, input);
    proof {
        lemma_stored_round_trip(LzCodec::Lz11, 0x11, input@);
    }
    r
}

} // verus!
