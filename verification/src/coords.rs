//! Equatorial coordinates in exact fixed-point units, and their sexagesimal
//! string forms.
//!
//! A right ascension is held in units of one ten-thousandth of a second of
//! time (1/2,400,000 of a degree), a declination in milliarcseconds
//! (1/3,600,000 of a degree). Both scales are exactly the precision of the
//! strings the pipeline writes into a primary document (`HH:MM:SS.ssss` and
//! `DD:MM:SS.sss`), so formatting and parsing are exact inverses here: the
//! round trip loses nothing, which is stronger than the milliarcsecond
//! tolerance the pipeline needs.

use vstd::prelude::*;
use vstd::slice::slice_subrange;

use crate::fmtnum::{
    digit, digit_val, is_digit, two_digits, three_digits, four_digits, dec_digits, push_dec,
    push_two_digits, push_three_digits, push_four_digits,
};

verus! {

/// Right-ascension units per degree: one unit is 1e-4 seconds of time.
pub const RA_UNITS_PER_DEGREE: u64 = 2400000;

/// 360 degrees in right-ascension units.
pub const RA_FULL_TURN: u64 = 864000000;

/// Declination units per degree: one unit is one milliarcsecond.
pub const DEC_UNITS_PER_DEGREE: i64 = 3600000;

/// 90 degrees in declination units.
pub const DEC_QUARTER_TURN: i64 = 324000000;

/// 180 degrees in right-ascension units, subtracted for GeoJSON longitude.
pub const RA_HALF_TURN: i64 = 432000000;

/// A right ascension, in units of 1e-4 seconds of time.
#[derive(Clone, Copy, Debug, PartialEq, Eq, Structural)]
pub struct RightAscension {
    pub units: u64,
}

/// A declination, in milliarcseconds, negative south of the equator.
#[derive(Clone, Copy, Debug, PartialEq, Eq, Structural)]
pub struct Declination {
    pub units: i64,
}

impl RightAscension {
    /// The valid range mirrors the one the pipeline accepts: strictly more
    /// than 0 degrees and at most 360.
    pub open spec fn wf(self) -> bool {
        0 < self.units <= RA_FULL_TURN
    }
}

impl Declination {
    /// Strictly between -90 and +90 degrees.
    pub open spec fn wf(self) -> bool {
        -DEC_QUARTER_TURN < self.units < DEC_QUARTER_TURN
    }
}

/// The `HH:MM:SS.ssss` form of a right ascension, as ASCII bytes.
pub open spec fn hms_seq(u: u64) -> Seq<u8> {
    let h = u as int / 36000000;
    let m = (u as int % 36000000) / 600000;
    let s = (u as int % 600000) / 10000;
    let f = u as int % 10000;
    two_digits(h) + seq![58u8] + two_digits(m) + seq![58u8] + two_digits(s) + seq![46u8]
        + four_digits(f)
}

/// The `DD:MM:SS.sss` form of a declination, as ASCII bytes. A negative
/// declination carries a leading minus sign and an unpadded degree count.
pub open spec fn dms_seq(u: i64) -> Seq<u8> {
    let a = if u < 0 { -(u as int) } else { u as int };
    let d = a / 3600000;
    let tail = seq![58u8] + two_digits((a % 3600000) / 60000) + seq![58u8] + two_digits(
        (a % 60000) / 1000,
    ) + seq![46u8] + three_digits(a % 1000);
    if u < 0 {
        seq![45u8] + dec_digits(d as nat) + tail
    } else {
        two_digits(d) + tail
    }
}

/// Convert a right ascension to its `HH:MM:SS.ssss` string, the hour form
/// of the angle written into a primary document.
pub fn deg2hms(ra: RightAscension) -> (r: Vec<u8>)
    requires
        ra.wf(),
    ensures
        r@ == hms_seq(ra.units),
{
    let u = ra.units;
    let h = u / 36000000;
    let m = (u % 36000000) / 600000;
    let s = (u % 600000) / 10000;
    let f = u % 10000;
    let mut out: Vec<u8> = Vec::new();
    push_two_digits(&mut out, h);
    out.push(58);
    push_two_digits(&mut out, m);
    out.push(58);
    push_two_digits(&mut out, s);
    out.push(46);
    push_four_digits(&mut out, f);
    assert(out@ =~= hms_seq(ra.units));
    out
}

/// Convert a declination to its `DD:MM:SS.sss` string.
pub fn deg2dms(dec: Declination) -> (r: Vec<u8>)
    requires
        dec.wf(),
    ensures
        r@ == dms_seq(dec.units),
{
    let neg = dec.units < 0;
    let a: u64 = if dec.units < 0 {
        (-dec.units) as u64
    } else {
        dec.units as u64
    };
    let d = a / 3600000;
    let m = (a % 3600000) / 60000;
    let s = (a % 60000) / 1000;
    let f = a % 1000;
    let mut out: Vec<u8> = Vec::new();
    if neg {
        out.push(45);
        push_dec(&mut out, d);
    } else {
        push_two_digits(&mut out, d);
    }
    out.push(58);
    push_two_digits(&mut out, m);
    out.push(58);
    push_two_digits(&mut out, s);
    out.push(46);
    push_three_digits(&mut out, f);
    assert(out@ =~= dms_seq(dec.units));
    out
}

/// What a `HH:MM:SS.ssss` string denotes, if it is canonical and in range.
pub open spec fn parse_hms_seq(s: Seq<u8>) -> Option<u64> {
    if s.len() == 13 && is_digit(s[0]) && is_digit(s[1]) && s[2] == 58u8 && is_digit(s[3])
        && is_digit(s[4]) && s[5] == 58u8 && is_digit(s[6]) && is_digit(s[7]) && s[8] == 46u8
        && is_digit(s[9]) && is_digit(s[10]) && is_digit(s[11]) && is_digit(s[12]) {
        let h = digit_val(s[0]) * 10 + digit_val(s[1]);
        let m = digit_val(s[3]) * 10 + digit_val(s[4]);
        let sec = digit_val(s[6]) * 10 + digit_val(s[7]);
        let f = digit_val(s[9]) * 1000 + digit_val(s[10]) * 100 + digit_val(s[11]) * 10
            + digit_val(s[12]);
        let u = h * 36000000 + m * 600000 + sec * 10000 + f;
        if m < 60 && sec < 60 && 0 < u <= RA_FULL_TURN {
            Some(u as u64)
        } else {
            None
        }
    } else {
        None
    }
}

/// Parse a `HH:MM:SS.ssss` string back into right-ascension units.
pub fn hms2deg(s: &[u8]) -> (r: Option<RightAscension>)
    ensures
        match r {
            Some(ra) => ra.wf() && parse_hms_seq(s@) == Some(ra.units),
            None => parse_hms_seq(s@) is None,
        },
{
    if s.len() != 13 {
        return None;
    }
    let mut i: usize = 0;
    while i < 13
        invariant
            i <= 13,
            s@.len() == 13,
            forall|j: int|
                0 <= j < i ==> if j == 2 || j == 5 {
                    s@[j] == 58u8
                } else if j == 8 {
                    s@[j] == 46u8
                } else {
                    is_digit(s@[j])
                },
        decreases 13 - i,
    {
        let b = s[i];
        if i == 2 || i == 5 {
            if b != 58 {
                return None;
            }
        } else if i == 8 {
            if b != 46 {
                return None;
            }
        } else {
            if !(48 <= b && b <= 57) {
                return None;
            }
        }
        i += 1;
    }
    let h: u64 = (s[0] - 48) as u64 * 10 + (s[1] - 48) as u64;
    let m: u64 = (s[3] - 48) as u64 * 10 + (s[4] - 48) as u64;
    let sec: u64 = (s[6] - 48) as u64 * 10 + (s[7] - 48) as u64;
    let f: u64 = (s[9] - 48) as u64 * 1000 + (s[10] - 48) as u64 * 100 + (s[11] - 48) as u64 * 10
        + (s[12] - 48) as u64;
    if m >= 60 || sec >= 60 {
        return None;
    }
    let u: u64 = h * 36000000 + m * 600000 + sec * 10000 + f;
    if 0 < u && u <= RA_FULL_TURN {
        Some(RightAscension { units: u })
    } else {
        None
    }
}

/// Formatting a right ascension and parsing the result returns the exact
/// starting value: the string round trip is lossless.
#[verifier::rlimit(60)]
pub proof fn lemma_hms_round_trip(ra: RightAscension)
    requires
        ra.wf(),
    ensures
        parse_hms_seq(hms_seq(ra.units)) == Some(ra.units),
{
    let u = ra.units as int;
    let h = u / 36000000;
    let m = (u % 36000000) / 600000;
    let s = (u % 600000) / 10000;
    let f = u % 10000;
    let q = hms_seq(ra.units);
    assert(0 <= h <= 24) by {
        assert(u <= 864000000);
    }
    assert(0 <= m < 60);
    assert(0 <= s < 60);
    assert(0 <= f < 10000);
    assert(q =~= seq![
        digit(h / 10),
        digit(h % 10),
        58u8,
        digit(m / 10),
        digit(m % 10),
        58u8,
        digit(s / 10),
        digit(s % 10),
        46u8,
        digit(f / 1000),
        digit((f / 100) % 10),
        digit((f / 10) % 10),
        digit(f % 10),
    ]);
    assert(digit_val(q[0]) * 10 + digit_val(q[1]) == h);
    assert(digit_val(q[3]) * 10 + digit_val(q[4]) == m);
    assert(digit_val(q[6]) * 10 + digit_val(q[7]) == s);
    assert(digit_val(q[9]) * 1000 + digit_val(q[10]) * 100 + digit_val(q[11]) * 10 + digit_val(
        q[12],
    ) == f);
    assert(h * 36000000 + m * 600000 + s * 10000 + f == u) by {
        assert(u == 36000000 * (u / 36000000) + u % 36000000);
        assert(u % 36000000 == 600000 * ((u % 36000000) / 600000) + (u % 36000000) % 600000);
        assert((u % 36000000) % 600000 == u % 600000) by {
            assert(36000000 == 600000 * 60);
            vstd::arithmetic::div_mod::lemma_mod_mod(u, 600000, 60);
        }
        assert(u % 600000 == 10000 * ((u % 600000) / 10000) + (u % 600000) % 10000);
        assert((u % 600000) % 10000 == u % 10000) by {
            assert(600000 == 10000 * 60);
            vstd::arithmetic::div_mod::lemma_mod_mod(u, 10000, 60);
        }
    }
}

/// What a `DD:MM:SS.sss` string denotes, if canonical and in range.
pub open spec fn parse_dms_seq(s: Seq<u8>) -> Option<i64> {
    if s.len() >= 1 && s[0] == 45u8 {
        match parse_dms_tail(s.skip(1)) {
            Some(a) => Some((-a) as i64),
            None => None,
        }
    } else {
        match parse_dms_tail(s) {
            Some(a) => Some(a as i64),
            None => None,
        }
    }
}

/// The unsigned part of a declination string: one or two degree digits,
/// then `:MM:SS.sss`. Two degree digits may not start with a zero when the
/// string carried a sign, but the positive form is always zero-padded to
/// two digits, so both shapes are accepted here and the sign handling above
/// stays canonical for everything the formatter emits.
pub open spec fn parse_dms_tail(s: Seq<u8>) -> Option<int> {
    if s.len() == 11 && is_digit(s[0]) && s[1] == 58u8 {
        parse_dms_fields(digit_val(s[0]), s.skip(2))
    } else if s.len() == 12 && is_digit(s[0]) && is_digit(s[1]) && s[2] == 58u8 {
        parse_dms_fields(digit_val(s[0]) * 10 + digit_val(s[1]), s.skip(3))
    } else {
        None
    }
}

/// The `MM:SS.sss` fields after the degree count and its colon.
pub open spec fn parse_dms_fields(d: int, s: Seq<u8>) -> Option<int> {
    if s.len() == 9 && is_digit(s[0]) && is_digit(s[1]) && s[2] == 58u8 && is_digit(s[3])
        && is_digit(s[4]) && s[5] == 46u8 && is_digit(s[6]) && is_digit(s[7]) && is_digit(s[8]) {
        let m = digit_val(s[0]) * 10 + digit_val(s[1]);
        let sec = digit_val(s[3]) * 10 + digit_val(s[4]);
        let f = digit_val(s[6]) * 100 + digit_val(s[7]) * 10 + digit_val(s[8]);
        let a = d * 3600000 + m * 60000 + sec * 1000 + f;
        if m < 60 && sec < 60 && a < DEC_QUARTER_TURN {
            Some(a)
        } else {
            None
        }
    } else {
        None
    }
}

/// Parse a `DD:MM:SS.sss` string back into declination units.
pub fn dms2deg(s: &[u8]) -> (r: Option<Declination>)
    ensures
        match r {
            Some(dec) => dec.wf() && parse_dms_seq(s@) == Some(dec.units),
            None => parse_dms_seq(s@) is None,
        },
{
    if s.len() == 0 {
        return None;
    }
    let neg = s[0] == 45;
    let t: &[u8] = if neg {
        slice_skip_one(s)
    } else {
        s
    };
    let a: u64 = match dms_tail_value(t) {
        Some(v) => v,
        None => {
            return None;
        },
    };
    if neg {
        Some(Declination { units: -(a as i64) })
    } else {
        Some(Declination { units: a as i64 })
    }
}

/// The tail of a slice after its first element.
fn slice_skip_one(s: &[u8]) -> (r: &[u8])
    requires
        s@.len() >= 1,
    ensures
        r@ == s@.skip(1),
{
    let r = slice_subrange(s, 1, s.len());
    assert(r@ =~= s@.skip(1));
    r
}

/// Evaluate the unsigned `D?D:MM:SS.sss` part of a declination string.
fn dms_tail_value(s: &[u8]) -> (r: Option<u64>)
    ensures
        match r {
            Some(a) => parse_dms_tail(s@) == Some(a as int) && a < DEC_QUARTER_TURN,
            None => parse_dms_tail(s@) is None,
        },
{
    let (d, rest): (u64, &[u8]) = if s.len() == 11 {
        if !(48 <= s[0] && s[0] <= 57) || s[1] != 58 {
            return None;
        }
        let rest = slice_subrange(s, 2, 11);
        assert(rest@ =~= s@.skip(2));
        ((s[0] - 48) as u64, rest)
    } else if s.len() == 12 {
        if !(48 <= s[0] && s[0] <= 57) || !(48 <= s[1] && s[1] <= 57) || s[2] != 58 {
            return None;
        }
        let rest = slice_subrange(s, 3, 12);
        assert(rest@ =~= s@.skip(3));
        ((s[0] - 48) as u64 * 10 + (s[1] - 48) as u64, rest)
    } else {
        return None;
    };
    dms_fields_value(d, rest)
}

/// Evaluate the `MM:SS.sss` fields of a declination string.
fn dms_fields_value(d: u64, s: &[u8]) -> (r: Option<u64>)
    requires
        d < 100,
    ensures
        match r {
            Some(a) => parse_dms_fields(d as int, s@) == Some(a as int) && a < DEC_QUARTER_TURN,
            None => parse_dms_fields(d as int, s@) is None,
        },
{
    if s.len() != 9 {
        return None;
    }
    let mut i: usize = 0;
    while i < 9
        invariant
            i <= 9,
            s@.len() == 9,
            forall|j: int|
                0 <= j < i ==> if j == 2 {
                    s@[j] == 58u8
                } else if j == 5 {
                    s@[j] == 46u8
                } else {
                    is_digit(s@[j])
                },
        decreases 9 - i,
    {
        let b = s[i];
        if i == 2 {
            if b != 58 {
                return None;
            }
        } else if i == 5 {
            if b != 46 {
                return None;
            }
        } else {
            if !(48 <= b && b <= 57) {
                return None;
            }
        }
        i += 1;
    }
    let m: u64 = (s[0] - 48) as u64 * 10 + (s[1] - 48) as u64;
    let sec: u64 = (s[3] - 48) as u64 * 10 + (s[4] - 48) as u64;
    let f: u64 = (s[6] - 48) as u64 * 100 + (s[7] - 48) as u64 * 10 + (s[8] - 48) as u64;
    if m >= 60 || sec >= 60 {
        return None;
    }
    let a: u64 = d * 3600000 + m * 60000 + sec * 1000 + f;
    if a < 324000000 {
        Some(a)
    } else {
        None
    }
}

/// Formatting a declination and parsing the result returns the exact
/// starting value.
#[verifier::rlimit(100)]
pub proof fn lemma_dms_round_trip(dec: Declination)
    requires
        dec.wf(),
    ensures
        parse_dms_seq(dms_seq(dec.units)) == Some(dec.units),
{
    let u = dec.units as int;
    let a = if u < 0 { -u } else { u };
    let d = a / 3600000;
    let m = (a % 3600000) / 60000;
    let s = (a % 60000) / 1000;
    let f = a % 1000;
    assert(0 <= d <= 89);
    assert(0 <= m < 60);
    assert(0 <= s < 60);
    assert(0 <= f < 1000);
    let fields = seq![58u8] + two_digits(m) + seq![58u8] + two_digits(s) + seq![46u8]
        + three_digits(f);
    let q = dms_seq(dec.units);
    assert(d * 3600000 + m * 60000 + s * 1000 + f == a) by {
        assert(a == 3600000 * (a / 3600000) + a % 3600000);
        assert(a % 3600000 == 60000 * ((a % 3600000) / 60000) + (a % 3600000) % 60000);
        assert((a % 3600000) % 60000 == a % 60000) by {
            assert(3600000 == 60000 * 60);
            vstd::arithmetic::div_mod::lemma_mod_mod(a, 60000, 60);
        }
        assert(a % 60000 == 1000 * ((a % 60000) / 1000) + (a % 60000) % 1000);
        assert((a % 60000) % 1000 == a % 1000) by {
            assert(60000 == 1000 * 60);
            vstd::arithmetic::div_mod::lemma_mod_mod(a, 1000, 60);
        }
    }
    lemma_dms_fields_value(d, m, s, f, fields.skip(1));
    assert(fields.skip(1) =~= two_digits(m) + seq![58u8] + two_digits(s) + seq![46u8]
        + three_digits(f));
    if u < 0 {
        assert(q =~= seq![45u8] + dec_digits(d as nat) + fields);
        assert(q[0] == 45u8);
        let t = q.skip(1);
        assert(t =~= dec_digits(d as nat) + fields);
        if d < 10 {
            assert(dec_digits(d as nat) =~= seq![digit(d)]);
            assert(t.len() == 11);
            assert(t[0] == digit(d) && t[1] == 58u8);
            assert(t.skip(2) =~= fields.skip(1));
            assert(parse_dms_tail(t) == Some(a));
        } else {
            assert(dec_digits(d as nat) =~= seq![digit(d / 10), digit(d % 10)]) by {
                assert(dec_digits((d / 10) as nat) =~= seq![digit(d / 10)]);
            }
            assert(t.len() == 12);
            assert(t[0] == digit(d / 10) && t[1] == digit(d % 10) && t[2] == 58u8);
            assert(t.skip(3) =~= fields.skip(1));
            assert(digit_val(t[0]) * 10 + digit_val(t[1]) == d);
            assert(parse_dms_tail(t) == Some(a));
        }
    } else {
        assert(q =~= two_digits(d) + fields);
        assert(q.len() == 12);
        assert(q[0] == digit(d / 10) && q[1] == digit(d % 10) && q[2] == 58u8);
        assert(q[0] != 45u8);
        assert(q.skip(3) =~= fields.skip(1));
        assert(digit_val(q[0]) * 10 + digit_val(q[1]) == d);
        assert(parse_dms_tail(q) == Some(a));
    }
}

/// The `MM:SS.sss` field bytes evaluate back to their source numbers.
proof fn lemma_dms_fields_value(d: int, m: int, s: int, f: int, q: Seq<u8>)
    requires
        0 <= d < 100,
        0 <= m < 60,
        0 <= s < 60,
        0 <= f < 1000,
        d * 3600000 + m * 60000 + s * 1000 + f < DEC_QUARTER_TURN,
        q =~= two_digits(m) + seq![58u8] + two_digits(s) + seq![46u8] + three_digits(f),
    ensures
        parse_dms_fields(d, q) == Some(d * 3600000 + m * 60000 + s * 1000 + f),
{
    assert(q.len() == 9);
    assert(q[0] == digit(m / 10) && q[1] == digit(m % 10));
    assert(q[2] == 58u8);
    assert(q[3] == digit(s / 10) && q[4] == digit(s % 10));
    assert(q[5] == 46u8);
    assert(q[6] == digit(f / 100) && q[7] == digit((f / 10) % 10) && q[8] == digit(f % 10));
    assert(digit_val(q[0]) * 10 + digit_val(q[1]) == m);
    assert(digit_val(q[3]) * 10 + digit_val(q[4]) == s);
    assert(digit_val(q[6]) * 100 + digit_val(q[7]) * 10 + digit_val(q[8]) == f);
}

/// The GeoJSON longitude of a right ascension: the angle shifted by
/// -180 degrees, still in right-ascension units.
pub fn geojson_longitude_units(ra: RightAscension) -> (r: i64)
    requires
        ra.wf(),
    ensures
        r == ra.units - RA_HALF_TURN,
{
    ra.units as i64 - RA_HALF_TURN
}

/// The coordinate block computed for a primary document, as far as it is
/// exact: the two sexagesimal strings and the shifted GeoJSON longitude.
/// The galactic pair is transcendental and is added by the caller.
pub struct CoordinateStrings {
    pub hms: Vec<u8>,
    pub dms: Vec<u8>,
    pub geojson_lon_units: i64,
}

impl CoordinateStrings {
    pub open spec fn wf(self, ra: RightAscension, dec: Declination) -> bool {
        &&& self.hms@ == hms_seq(ra.units)
        &&& self.dms@ == dms_seq(dec.units)
        &&& self.geojson_lon_units == ra.units - RA_HALF_TURN
    }
}

/// Assemble the exact parts of the coordinate block of a primary document.
pub fn coordinate_strings(ra: RightAscension, dec: Declination) -> (r: CoordinateStrings)
    requires
        ra.wf(),
        dec.wf(),
    ensures
        r.wf(ra, dec),
{
    CoordinateStrings {
        hms: deg2hms(ra),
        dms: deg2dms(dec),
        geojson_lon_units: geojson_longitude_units(ra),
    }
}

} // verus!
