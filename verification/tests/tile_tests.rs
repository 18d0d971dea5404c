//! FITS stamp extraction: header scan, payload words, centering, and the
//! reject rule for oversized stamps.

use std::io::Write;

use boom::tile::stamp_to_tile;

/// Build a minimal FITS byte stream: a 2880-byte header holding the two
/// dimension records, then `n1 * n2` big-endian words.
fn fits_bytes(n1: usize, n2: usize, words: &[u32]) -> Vec<u8> {
    assert_eq!(words.len(), n1 * n2);
    let mut header = Vec::new();
    header.extend_from_slice(format!("{:<80}", format!("NAXIS1  = {:>19}", n1)).as_bytes());
    header.extend_from_slice(format!("{:<80}", format!("NAXIS2  = {:>19}", n2)).as_bytes());
    while header.len() < 2880 {
        header.push(b' ');
    }
    let mut out = header;
    for w in words {
        out.extend_from_slice(&w.to_be_bytes());
    }
    out
}

fn gzip(data: &[u8]) -> Vec<u8> {
    let mut enc = flate2::write::GzEncoder::new(Vec::new(), flate2::Compression::default());
    enc.write_all(data).unwrap();
    enc.finish().unwrap()
}

#[test]
fn small_stamp_is_centered() {
    // A 3-wide, 2-tall image.
    let words: Vec<u32> = vec![1, 2, 3, 4, 5, 6];
    let stamp = gzip(&fits_bytes(3, 2, &words));
    let tile = stamp_to_tile(&stamp).expect("stamp must decode");
    assert_eq!(tile.len(), 63 * 63);
    let r0 = (63 - 2) / 2;
    let c0 = (63 - 3) / 2;
    for row in 0..63 {
        for col in 0..63 {
            let got = tile[row * 63 + col];
            let want = if row >= r0 && row < r0 + 2 && col >= c0 && col < c0 + 3 {
                words[(row - r0) * 3 + (col - c0)]
            } else {
                0
            };
            assert_eq!(got, want, "cell ({row}, {col})");
        }
    }
}

#[test]
fn full_size_stamp_kept_as_is() {
    let words: Vec<u32> = (0..63 * 63).map(|i| i as u32).collect();
    let stamp = gzip(&fits_bytes(63, 63, &words));
    let tile = stamp_to_tile(&stamp).expect("stamp must decode");
    assert_eq!(tile, words);
}

#[test]
fn oversized_stamp_rejected() {
    let words: Vec<u32> = vec![0; 64 * 2];
    let stamp = gzip(&fits_bytes(64, 2, &words));
    assert!(stamp_to_tile(&stamp).is_none());
}

#[test]
fn non_finite_pixel_bits_pass_through() {
    // The tile carries raw IEEE bits: a NaN and both infinities survive
    // extraction untouched; the caller's normalization maps them.
    let nan = f32::NAN.to_bits();
    let pinf = f32::INFINITY.to_bits();
    let ninf = f32::NEG_INFINITY.to_bits();
    let words: Vec<u32> = vec![nan, pinf, ninf, 0x3f800000];
    let stamp = gzip(&fits_bytes(2, 2, &words));
    let tile = stamp_to_tile(&stamp).expect("stamp must decode");
    let r0 = (63 - 2) / 2;
    let c0 = (63 - 2) / 2;
    assert_eq!(tile[r0 * 63 + c0], nan);
    assert_eq!(tile[r0 * 63 + c0 + 1], pinf);
    assert_eq!(tile[(r0 + 1) * 63 + c0], ninf);
    assert_eq!(tile[(r0 + 1) * 63 + c0 + 1], 0x3f800000);
}

#[test]
fn not_gzip_rejected() {
    assert!(stamp_to_tile(b"plainly not a gzip stream").is_none());
}

#[test]
fn truncated_payload_rejected() {
    let mut data = fits_bytes(2, 2, &[1, 2, 3, 4]);
    data.truncate(2880 + 7);
    let stamp = gzip(&data);
    assert!(stamp_to_tile(&stamp).is_none());
}

#[test]
fn short_header_rejected() {
    let stamp = gzip(b"NAXIS1  = 2 NAXIS2  = 2");
    assert!(stamp_to_tile(&stamp).is_none());
}
