//! Extraction of a normalized 63x63 image tile from a gzip-compressed FITS
//! cutout stamp.
//!
//! The stamp is decompressed, the first 2880-byte header block is scanned
//! as ASCII for the `NAXIS1` and `NAXIS2` dimension records, and the payload
//! is read as big-endian 32-bit words, one per pixel, which are centered
//! into a 63x63 tile padded with zero words. The words carry the IEEE bits
//! of the pixels; interpreting them as floating point, and the final
//! Frobenius normalization, are left to the caller, since the tile geometry
//! is exact and the arithmetic on pixel values is not.
//!
//! A stamp whose dimensions exceed 63 is rejected rather than truncated.

use vstd::prelude::*;

use crate::fmtnum::{all_digits, dec_value, digit_val, is_digit};

verus! {

/// Side length of the normalized tile.
pub const TILE_SIDE: usize = 63;

/// Length of one FITS header block in bytes.
pub const HEADER_LEN: usize = 2880;

/// What gunzip returns on the given bytes: the decompressed stream, or
/// nothing when the stream is not a well-formed gzip member. The result is
/// a function of the bytes alone.
pub uninterp spec fn gunzip_of(b: Seq<u8>) -> Option<Seq<u8>>;

/// Relies on flate2's `GzDecoder`: decompressing a byte buffer yields a
/// byte buffer determined by the input alone, or fails on malformed input.
#[verifier::external_body]
fn gunzip(b: &[u8]) -> (r: Option<Vec<u8>>)
    ensures
        match r {
            Some(v) => gunzip_of(b@) == Some(v@),
            None => gunzip_of(b@) is None,
        },
{
    let mut decoder = flate2::read::GzDecoder::new(b);
    let mut out: Vec<u8> = Vec::new();
    match std::io::Read::read_to_end(&mut decoder, &mut out) {
        Ok(_) => Some(out),
        Err(_) => None,
    }
}

/// The first position at or after `i` where `tag` occurs in `s`.
pub open spec fn find_from(s: Seq<u8>, tag: Seq<u8>, i: int) -> Option<int>
    decreases s.len() - i
        when 0 <= i && tag.len() > 0
{
    if i + tag.len() > s.len() {
        None
    } else if s.subrange(i, i + tag.len() as int) == tag {
        Some(i)
    } else {
        find_from(s, tag, i + 1)
    }
}

/// The first position at or after `i` whose byte is a space (when
/// `want_space` holds) or is not a space (otherwise).
pub open spec fn first_with(s: Seq<u8>, i: int, want_space: bool) -> Option<int>
    decreases s.len() - i
        when 0 <= i
{
    if i >= s.len() {
        None
    } else if (s[i] == 32u8) == want_space {
        Some(i)
    } else {
        first_with(s, i + 1, want_space)
    }
}

/// What a dimension field denotes: a non-empty run of at most six digits.
pub open spec fn parse_dec(s: Seq<u8>) -> Option<int> {
    if 0 < s.len() <= 6 && all_digits(s) {
        Some(dec_value(s))
    } else {
        None
    }
}

/// Find `tag` in `s` at or after `start`.
fn find_tag(s: &[u8], tag: &[u8], start: usize) -> (r: Option<usize>)
    requires
        tag@.len() > 0,
    ensures
        match r {
            Some(p) => find_from(s@, tag@, start as int) == Some(p as int) && start <= p && p
                + tag@.len() <= s@.len(),
            None => find_from(s@, tag@, start as int) is None,
        },
{
    let n = s.len();
    let t = tag.len();
    let mut i = start;
    loop
        invariant
            start <= i,
            n == s@.len(),
            t == tag@.len(),
            t > 0,
            find_from(s@, tag@, start as int) == find_from(s@, tag@, i as int),
        decreases n + t - i,
    {
        if i >= n || t > n - i {
            return None;
        }
        let mut k: usize = 0;
        let mut matches = true;
        assert(s@.subrange(i as int, i as int) =~= tag@.subrange(0, 0));
        while k < t
            invariant
                i + t <= n,
                n == s@.len(),
                t == tag@.len(),
                k <= t,
                matches <==> s@.subrange(i as int, i + k as int) == tag@.subrange(0, k as int),
            decreases t - k,
        {
            let hit = s[i + k] == tag[k];
            proof {
                if matches && hit {
                    assert(s@.subrange(i as int, i + k + 1 as int) =~= tag@.subrange(
                        0,
                        k + 1 as int,
                    ));
                } else {
                    assert(s@.subrange(i as int, i + k + 1 as int)[k as int] == s@[i + k]);
                    assert(tag@.subrange(0, k + 1 as int)[k as int] == tag@[k as int]);
                    if !hit {
                        assert(s@.subrange(i as int, i + k + 1 as int) != tag@.subrange(
                            0,
                            k + 1 as int,
                        ));
                    } else {
                        assert(s@.subrange(i as int, i + k as int) =~= s@.subrange(
                            i as int,
                            i + k + 1 as int,
                        ).take(k as int));
                        assert(tag@.subrange(0, k as int) =~= tag@.subrange(0, k + 1 as int).take(
                            k as int,
                        ));
                    }
                }
            }
            matches = matches && hit;
            k += 1;
        }
        if matches {
            proof {
                assert(s@.subrange(i as int, i + t as int) == tag@.subrange(0, t as int));
                assert(tag@.subrange(0, t as int) =~= tag@);
            }
            return Some(i);
        }
        proof {
            assert(tag@.subrange(0, t as int) =~= tag@);
            assert(s@.subrange(i as int, i + t as int) != tag@);
        }
        i += 1;
    }
}

/// Find the first space or non-space byte at or after `start`.
fn scan_for(s: &[u8], start: usize, want_space: bool) -> (r: Option<usize>)
    ensures
        match r {
            Some(p) => first_with(s@, start as int, want_space) == Some(p as int) && start <= p
                && p < s@.len(),
            None => first_with(s@, start as int, want_space) is None,
        },
{
    let n = s.len();
    let mut i = start;
    loop
        invariant
            start <= i,
            n == s@.len(),
            first_with(s@, start as int, want_space) == first_with(s@, i as int, want_space),
        decreases n - i,
    {
        if i >= n {
            return None;
        }
        if (s[i] == 32) == want_space {
            return Some(i);
        }
        i += 1;
    }
}

/// Evaluate a run of digit bytes.
fn parse_dec_field(s: &[u8], start: usize, end: usize) -> (r: Option<u64>)
    requires
        start <= end <= s@.len(),
    ensures
        match r {
            Some(v) => parse_dec(s@.subrange(start as int, end as int)) == Some(v as int) && v
                < 1000000,
            None => parse_dec(s@.subrange(start as int, end as int)) is None,
        },
{
    let ghost field = s@.subrange(start as int, end as int);
    if start == end || end - start > 6 {
        return None;
    }
    let mut acc: u64 = 0;
    let mut i = start;
    while i < end
        invariant
            start <= i <= end <= s@.len(),
            0 < end - start <= 6,
            field == s@.subrange(start as int, end as int),
            all_digits(field.take(i - start)),
            acc == dec_value(field.take(i - start)),
            acc < pow10((i - start) as nat),
        decreases end - i,
    {
        let b = s[i];
        if !(48 <= b && b <= 57) {
            proof {
                assert(field[i - start] == b);
            }
            return None;
        }
        proof {
            lemma_pow10_mono((i - start) as nat, 5);
            lemma_pow10_values();
            assert(field.take(i - start + 1).drop_last() =~= field.take(i - start));
            assert(field.take(i - start + 1).last() == b);
        }
        acc = acc * 10 + ((b - 48) as u64);
        i += 1;
    }
    proof {
        assert(field.take(end - start as int) =~= field);
        lemma_pow10_mono((end - start) as nat, 6);
        lemma_pow10_values();
    }
    Some(acc)
}

/// Powers of ten, for the digit-count bound.
pub open spec fn pow10(n: nat) -> int
    decreases n,
{
    if n == 0 {
        1
    } else {
        10 * pow10((n - 1) as nat)
    }
}

/// Powers of ten are positive.
proof fn lemma_pow10_pos(n: nat)
    ensures
        0 < pow10(n),
    decreases n,
{
    if n > 0 {
        lemma_pow10_pos((n - 1) as nat);
    }
}

/// Powers of ten grow with the exponent.
proof fn lemma_pow10_mono(a: nat, b: nat)
    requires
        a <= b,
    ensures
        pow10(a) <= pow10(b),
    decreases b,
{
    if a < b {
        lemma_pow10_mono(a, (b - 1) as nat);
        lemma_pow10_pos((b - 1) as nat);
    }
}

/// The small powers of ten, spelled out.
proof fn lemma_pow10_values()
    ensures
        pow10(0) == 1,
        pow10(1) == 10,
        pow10(2) == 100,
        pow10(3) == 1000,
        pow10(4) == 10000,
        pow10(5) == 100000,
        pow10(6) == 1000000,
{
    assert(pow10(0) == 1);
    assert(pow10(1) == 10);
    assert(pow10(2) == 100);
    assert(pow10(3) == 1000);
    assert(pow10(4) == 10000);
    assert(pow10(5) == 100000);
    assert(pow10(6) == 1000000);
}

/// The dimensions recorded in a FITS header block: the value of the first
/// `NAXIS1` record, and of the first `NAXIS2` record after it, each read as
/// the digit run at the first non-space position after the keyword.
pub open spec fn header_dims(h: Seq<u8>) -> Option<(int, int)> {
    match find_from(h, naxis1_tag(), 0) {
        None => None,
        Some(t1) => match first_with(h, t1 + 9, false) {
            None => None,
            Some(d1s) => match first_with(h, d1s, true) {
                None => None,
                Some(d1e) => match parse_dec(h.subrange(d1s, d1e)) {
                    None => None,
                    Some(n1) => match find_from(h, naxis2_tag(), d1e) {
                        None => None,
                        Some(t2) => match first_with(h, t2 + 9, false) {
                            None => None,
                            Some(d2s) => match first_with(h, d2s, true) {
                                None => None,
                                Some(d2e) => match parse_dec(h.subrange(d2s, d2e)) {
                                    None => None,
                                    Some(n2) => Some((n1, n2)),
                                },
                            },
                        },
                    },
                },
            },
        },
    }
}

/// The keyword bytes `NAXIS1  =`.
pub open spec fn naxis1_tag() -> Seq<u8> {
    seq![78u8, 65u8, 88u8, 73u8, 83u8, 49u8, 32u8, 32u8, 61u8]
}

/// The keyword bytes `NAXIS2  =`.
pub open spec fn naxis2_tag() -> Seq<u8> {
    seq![78u8, 65u8, 88u8, 73u8, 83u8, 50u8, 32u8, 32u8, 61u8]
}

/// Scan a header block for the `NAXIS1` and `NAXIS2` dimensions.
pub fn parse_header_dims(h: &[u8]) -> (r: Option<(u64, u64)>)
    ensures
        match r {
            Some((n1, n2)) => header_dims(h@) == Some((n1 as int, n2 as int)),
            None => header_dims(h@) is None,
        },
{
    let tag1: [u8; 9] = [78, 65, 88, 73, 83, 49, 32, 32, 61];
    let tag2: [u8; 9] = [78, 65, 88, 73, 83, 50, 32, 32, 61];
    let tag1s: &[u8] = tag1.as_slice();
    let tag2s: &[u8] = tag2.as_slice();
    proof {
        assert(tag1s@ =~= naxis1_tag());
        assert(tag2s@ =~= naxis2_tag());
    }
    let hlen = h.len();
    let t1 = match find_tag(h, tag1s, 0) {
        Some(p) => p,
        None => {
            return None;
        },
    };
    assert(t1 + 9 <= hlen);
    let d1s = match scan_for(h, t1 + 9, false) {
        Some(p) => p,
        None => {
            return None;
        },
    };
    let d1e = match scan_for(h, d1s, true) {
        Some(p) => p,
        None => {
            return None;
        },
    };
    let n1 = match parse_dec_field(h, d1s, d1e) {
        Some(v) => v,
        None => {
            return None;
        },
    };
    let t2 = match find_tag(h, tag2s, d1e) {
        Some(p) => p,
        None => {
            return None;
        },
    };
    assert(t2 + 9 <= hlen);
    let d2s = match scan_for(h, t2 + 9, false) {
        Some(p) => p,
        None => {
            return None;
        },
    };
    let d2e = match scan_for(h, d2s, true) {
        Some(p) => p,
        None => {
            return None;
        },
    };
    let n2 = match parse_dec_field(h, d2s, d2e) {
        Some(v) => v,
        None => {
            return None;
        },
    };
    Some((n1, n2))
}

/// The big-endian 32-bit word at byte offset `j`.
pub open spec fn be_word(s: Seq<u8>, j: int) -> u32
    recommends
        0 <= j,
        j + 4 <= s.len(),
{
    ((s[j] as int) * 0x1000000 + (s[j + 1] as int) * 0x10000 + (s[j + 2] as int) * 0x100 + (s[j + 3]
        as int)) as u32
}

/// Read `count` big-endian 32-bit words starting at byte `offset`.
pub fn read_be_words(s: &[u8], offset: usize, count: usize) -> (r: Option<Vec<u32>>)
    ensures
        match r {
            Some(v) => {
                &&& offset + 4 * count <= s@.len()
                &&& v@.len() == count
                &&& forall|i: int| 0 <= i < count ==> v@[i] == be_word(s@, offset + 4 * i)
            },
            None => offset + 4 * count > s@.len(),
        },
{
    let n = s.len();
    if offset > n {
        return None;
    }
    if count > (n - offset) / 4 {
        proof {
            let room = s@.len() - offset;
            assert(room == 4 * (room / 4) + room % 4);
            assert(4 * count > room);
        }
        return None;
    }
    proof {
        let room = s@.len() - offset;
        assert(room == 4 * (room / 4) + room % 4);
        assert(4 * count <= room);
    }
    let mut out: Vec<u32> = Vec::new();
    for i in 0..count
        invariant
            offset + 4 * count <= s@.len(),
            s@.len() <= usize::MAX,
            out@.len() == i,
            forall|k: int| 0 <= k < i ==> out@[k] == be_word(s@, offset + 4 * k),
    {
        let j = offset + 4 * i;
        let w: u32 = (s[j] as u32) * 0x1000000 + (s[j + 1] as u32) * 0x10000 + (s[j + 2] as u32)
            * 0x100 + (s[j + 3] as u32);
        out.push(w);
    }
    Some(out)
}

/// Where a source image of width `n` starts inside the 63-wide tile.
pub open spec fn pad_start(n: int) -> int {
    (63 - n) / 2
}

/// The value of tile cell `(row, col)` for a source image of `n2` rows of
/// width `n1`: the source pixel when the cell lies in the centered window,
/// the fill word otherwise.
pub open spec fn tile_cell(data: Seq<u32>, n1: int, n2: int, row: int, col: int) -> u32 {
    let r0 = pad_start(n2);
    let c0 = pad_start(n1);
    if r0 <= row < r0 + n2 && c0 <= col < c0 + n1 {
        data[(row - r0) * n1 + (col - c0)]
    } else {
        0u32
    }
}

/// Center a small image into a 63x63 tile, padding symmetrically with zero
/// words on both axes.
pub fn center_tile(data: &Vec<u32>, n1: usize, n2: usize) -> (r: Vec<u32>)
    requires
        1 <= n1 <= 63,
        1 <= n2 <= 63,
        data@.len() == n1 * n2,
    ensures
        r@.len() == 3969,
        forall|row: int, col: int|
            0 <= row < 63 && 0 <= col < 63 ==> r@[row * 63 + col] == tile_cell(
                data@,
                n1 as int,
                n2 as int,
                row,
                col,
            ),
{
    let r0 = (63 - n2) / 2;
    let c0 = (63 - n1) / 2;
    let mut out: Vec<u32> = Vec::new();
    for row in 0..63usize
        invariant
            1 <= n1 <= 63,
            1 <= n2 <= 63,
            data@.len() == n1 * n2,
            r0 == pad_start(n2 as int),
            c0 == pad_start(n1 as int),
            out@.len() == row * 63,
            forall|rr: int, cc: int|
                0 <= rr < row && 0 <= cc < 63 ==> out@[rr * 63 + cc] == tile_cell(
                    data@,
                    n1 as int,
                    n2 as int,
                    rr,
                    cc,
                ),
    {
        for col in 0..63usize
            invariant
                1 <= n1 <= 63,
                1 <= n2 <= 63,
                row < 63,
                data@.len() == n1 * n2,
                r0 == pad_start(n2 as int),
                c0 == pad_start(n1 as int),
                out@.len() == row * 63 + col,
                forall|rr: int, cc: int|
                    0 <= rr < row && 0 <= cc < 63 ==> out@[rr * 63 + cc] == tile_cell(
                        data@,
                        n1 as int,
                        n2 as int,
                        rr,
                        cc,
                    ),
                forall|cc: int|
                    0 <= cc < col ==> out@[row * 63 + cc] == tile_cell(
                        data@,
                        n1 as int,
                        n2 as int,
                        row as int,
                        cc,
                    ),
        {
            let w: u32 = if r0 <= row && row < r0 + n2 && c0 <= col && col < c0 + n1 {
                proof {
                    assert((row - r0) * n1 + (col - c0) < n1 * n2) by (nonlinear_arith)
                        requires
                            0 <= row - r0 < n2,
                            0 <= col - c0 < n1,
                    ;
                    assert(n1 * n2 <= 3969) by (nonlinear_arith)
                        requires
                            n1 <= 63,
                            n2 <= 63,
                    ;
                }
                let idx = (row - r0) * n1 + (col - c0);
                data[idx]
            } else {
                0u32
            };
            out.push(w);
            proof {
                assert(forall|cc: int|
                    0 <= cc < col + 1 ==> out@[row * 63 + cc] == tile_cell(
                        data@,
                        n1 as int,
                        n2 as int,
                        row as int,
                        cc,
                    ));
            }
        }
    }
    out
}

/// The tile words of a decompressed stamp: the header dimensions must
/// parse, lie in `1..=63`, and the payload must hold one word per pixel
/// starting at byte 2880.
pub open spec fn tile_of(d: Seq<u8>) -> Option<Seq<u32>> {
    if d.len() < 2880 {
        None
    } else {
        match header_dims(d.subrange(0, 2880)) {
            None => None,
            Some((n1, n2)) => if 1 <= n1 <= 63 && 1 <= n2 <= 63 && 2880 + 4 * (n1 * n2) <= d.len() {
                Some(
                    Seq::new(
                        3969,
                        |idx: int|
                            tile_cell(
                                Seq::new((n1 * n2) as nat, |k: int| be_word(d, 2880 + 4 * k)),
                                n1,
                                n2,
                                idx / 63,
                                idx % 63,
                            ),
                    ),
                )
            } else {
                None
            },
        }
    }
}

/// Decompress a gzip-compressed FITS stamp and extract its centered 63x63
/// tile of big-endian pixel words. Returns nothing when the stamp is not
/// gzip, is shorter than one header block, lacks parseable dimensions,
/// has a dimension outside `1..=63`, or has a short payload.
pub fn stamp_to_tile(stamp: &[u8]) -> (r: Option<Vec<u32>>)
    ensures
        match r {
            Some(v) => {
                &&& gunzip_of(stamp@) is Some
                &&& tile_of(gunzip_of(stamp@).unwrap()) == Some(v@)
                &&& v@.len() == 3969
            },
            None => gunzip_of(stamp@) is None || tile_of(gunzip_of(stamp@).unwrap()) is None,
        },
{
    let data = match gunzip(stamp) {
        Some(d) => d,
        None => {
            return None;
        },
    };
    if data.len() < 2880 {
        return None;
    }
    let header = slice_ref(data.as_slice(), 0, 2880);
    let dims = match parse_header_dims(header) {
        Some(p) => p,
        None => {
            return None;
        },
    };
    let n1 = dims.0;
    let n2 = dims.1;
    if !(1 <= n1 && n1 <= 63 && 1 <= n2 && n2 <= 63) {
        return None;
    }
    let n1s = n1 as usize;
    let n2s = n2 as usize;
    proof {
        assert(n1s * n2s <= 3969) by (nonlinear_arith)
            requires
                n1s <= 63,
                n2s <= 63,
        ;
    }
    let count = n1s * n2s;
    let words = match read_be_words(data.as_slice(), 2880, count) {
        Some(w) => w,
        None => {
            return None;
        },
    };
    let tile = center_tile(&words, n1s, n2s);
    proof {
        let d = data@;
        assert(header_dims(d.subrange(0, 2880)) == Some((n1 as int, n2 as int)));
        assert(2880 + 4 * (n1 * n2) <= d.len());
        assert(tile_of(d) is Some);
        let pix = Seq::new((n1 * n2) as nat, |k: int| be_word(d, 2880 + 4 * k));
        assert(words@ =~= pix);
        let expect = tile_of(d).unwrap();
        assert forall|idx: int| 0 <= idx < 3969 implies tile@[idx] == expect[idx] by {
            let row = idx / 63;
            let col = idx % 63;
            assert(0 <= row < 63 && 0 <= col < 63);
            assert(row * 63 + col == idx);
            assert(tile@[row * 63 + col] == tile_cell(words@, n1 as int, n2 as int, row, col));
        }
        assert(tile@ =~= expect);
    }
    Some(tile)
}

/// A subrange of a slice.
fn slice_ref<'a>(s: &'a [u8], i: usize, j: usize) -> (r: &'a [u8])
    requires
        i <= j <= s@.len(),
    ensures
        r@ == s@.subrange(i as int, j as int),
{
    vstd::slice::slice_subrange(s, i, j)
}

} // verus!
