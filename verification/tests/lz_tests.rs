use mon_rober::errors::StructuralError;
use mon_rober::lz::{
    compress_lz11, compress_lz77, decompress_lz11, decompress_lz77, detect_compression,
    NDSCompressionType,
};

#[test]
fn lz77_stored_round_trip() {
    let input = b"hello world, stored without references";
    let stream = compress_lz77(input);
    assert_eq!(stream[0], 0x10);
    let out = decompress_lz77(&stream).unwrap();
    assert_eq!(out.data, input.to_vec());
    assert_eq!(out.declared_len, input.len());
    assert!(out.size_matches());
}

#[test]
fn lz11_stored_round_trip() {
    let input = b"the second grammar stores bytes the same way";
    let stream = compress_lz11(input);
    assert_eq!(stream[0], 0x11);
    let out = decompress_lz11(&stream).unwrap();
    assert_eq!(out.data, input.to_vec());
    assert_eq!(out.declared_len, input.len());
    assert!(out.size_matches());
}

#[test]
fn lz77_empty_round_trip() {
    let stream = compress_lz77(&[]);
    assert_eq!(stream, vec![0x10, 0, 0, 0]);
    let out = decompress_lz77(&stream).unwrap();
    assert_eq!(out.data, Vec::<u8>::new());
    assert_eq!(out.declared_len, 0);
}

#[test]
fn lz77_back_reference_copies_earlier_output() {
    // four literals, then a reference of length 3 reaching 4 bytes back
    let stream = vec![0x10, 7, 0, 0, 0x08, b'a', b'b', b'c', b'd', 0x00, 0x03];
    let out = decompress_lz77(&stream).unwrap();
    assert_eq!(out.data, b"abcdabc".to_vec());
    assert!(out.size_matches());
}

#[test]
fn lz77_overlapping_run() {
    // one literal, then eleven maximal references one byte back: the
    // overlapping copy must re-read its own output to build the run
    let mut stream = vec![0x10, 199, 0, 0, 0x7F, 0xAB];
    for _ in 0..7 {
        stream.push(0xF0);
        stream.push(0x00);
    }
    stream.push(0xF0);
    for _ in 0..4 {
        stream.push(0xF0);
        stream.push(0x00);
    }
    let out = decompress_lz77(&stream).unwrap();
    assert_eq!(out.data.len(), 199);
    assert!(out.data.iter().all(|&b| b == 0xAB));
    assert!(out.size_matches());
}

#[test]
fn lz11_overlapping_run_three_byte_reference() {
    // a literal then one three-byte reference of length 200, one byte back:
    // a run of 201 identical bytes from a single overlapping copy
    let stream = vec![0x11, 201, 0, 0, 0x40, 0xCD, 0x0B, 0x70, 0x00];
    let out = decompress_lz11(&stream).unwrap();
    assert_eq!(out.data.len(), 201);
    assert!(out.data.iter().all(|&b| b == 0xCD));
    assert!(out.size_matches());
}

#[test]
fn lz11_two_byte_reference() {
    // two literals, then a two-byte reference of length 16 reaching two
    // bytes back: the pair pattern repeats
    let stream = vec![0x11, 18, 0, 0, 0x20, b'a', b'b', 0xF0, 0x01];
    let out = decompress_lz11(&stream).unwrap();
    assert_eq!(out.data, b"abababababababababab"[..18].to_vec());
    assert!(out.size_matches());
}

#[test]
fn lz11_four_byte_reference() {
    // a literal then a minimal four-byte reference: length 0x111, one back
    let stream = vec![0x11, 0x12, 0x01, 0, 0x40, b'x', 0x10, 0x00, 0x00, 0x00];
    let out = decompress_lz11(&stream).unwrap();
    assert_eq!(out.data.len(), 0x112);
    assert!(out.data.iter().all(|&b| b == b'x'));
    assert!(out.size_matches());
}

#[test]
fn lz77_truncated_header() {
    assert_eq!(
        decompress_lz77(&[0x10, 0, 0]).unwrap_err(),
        StructuralError::TruncatedStream
    );
}

#[test]
fn lz77_truncated_reference() {
    // flag announces a reference but the stream ends before its two bytes
    assert_eq!(
        decompress_lz77(&[0x10, 5, 0, 0, 0x80, 0x00]).unwrap_err(),
        StructuralError::TruncatedStream
    );
}

#[test]
fn lz11_truncated_reference() {
    assert_eq!(
        decompress_lz11(&[0x11, 5, 0, 0, 0x80]).unwrap_err(),
        StructuralError::TruncatedStream
    );
}

#[test]
fn lz77_bad_displacement() {
    // a reference before any output exists reaches behind the start
    assert_eq!(
        decompress_lz77(&[0x10, 5, 0, 0, 0x80, 0x00, 0x00]).unwrap_err(),
        StructuralError::BadDisplacement
    );
}

#[test]
fn lz77_size_mismatch_is_reported_not_fatal() {
    // eight literals but the header declares nine
    let stream = vec![0x10, 9, 0, 0, 0x00, 1, 2, 3, 4, 5, 6, 7, 8];
    let out = decompress_lz77(&stream).unwrap();
    assert_eq!(out.data, vec![1, 2, 3, 4, 5, 6, 7, 8]);
    assert_eq!(out.declared_len, 9);
    assert!(!out.size_matches());
}

#[test]
fn detect_compression_tags() {
    assert_eq!(
        detect_compression(&[0x10, 5, 0, 0]),
        NDSCompressionType::LZ77(5)
    );
    assert_eq!(
        detect_compression(&[0x11, 0, 1, 0]),
        NDSCompressionType::LZ11(256)
    );
    // the zero-size sentinel is not a compressed stream
    assert_eq!(
        detect_compression(&[0x10, 0, 0, 0]),
        NDSCompressionType::Uncompressed
    );
    assert_eq!(
        detect_compression(&[0x11, 0, 0, 0]),
        NDSCompressionType::Uncompressed
    );
    assert_eq!(
        detect_compression(b"plain data"),
        NDSCompressionType::Uncompressed
    );
    assert_eq!(detect_compression(&[0x10]), NDSCompressionType::Uncompressed);
}
