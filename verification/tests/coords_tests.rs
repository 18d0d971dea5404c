//! Coordinate conversion: exact sexagesimal strings and lossless round
//! trips.

use boom::coords::{
    deg2dms, deg2hms, dms2deg, geojson_longitude_units, hms2deg, Declination, RightAscension,
    RA_UNITS_PER_DEGREE, DEC_UNITS_PER_DEGREE,
};

fn ra_deg(deg: f64) -> RightAscension {
    RightAscension { units: (deg * RA_UNITS_PER_DEGREE as f64).round() as u64 }
}

fn dec_deg(deg: f64) -> Declination {
    Declination { units: (deg * DEC_UNITS_PER_DEGREE as f64).round() as i64 }
}

#[test]
fn test_utils_deg2hms() {
    let x = deg2hms(ra_deg(5.64));
    assert_eq!(x, b"00:22:33.6000".to_vec());
}

#[test]
fn test_utils_deg2dms() {
    let x = deg2dms(dec_deg(5.64));
    assert_eq!(x, b"05:38:24.000".to_vec());
}

#[test]
fn hms_of_180_degrees() {
    let x = deg2hms(ra_deg(180.0));
    assert_eq!(x, b"12:00:00.0000".to_vec());
}

#[test]
fn hms_of_full_turn() {
    let x = deg2hms(RightAscension { units: 360 * RA_UNITS_PER_DEGREE });
    assert_eq!(x, b"24:00:00.0000".to_vec());
}

#[test]
fn hms_near_full_turn() {
    // One unit short of 360 degrees.
    let x = deg2hms(RightAscension { units: 360 * RA_UNITS_PER_DEGREE - 1 });
    assert_eq!(x, b"23:59:59.9999".to_vec());
}

#[test]
fn dms_negative_declination() {
    let x = deg2dms(dec_deg(-5.64));
    assert_eq!(x, b"-5:38:24.000".to_vec());
}

#[test]
fn dms_near_pole() {
    let x = deg2dms(Declination { units: 90 * DEC_UNITS_PER_DEGREE - 1 });
    assert_eq!(x, b"89:59:59.999".to_vec());
}

#[test]
fn dms_of_equator() {
    let x = deg2dms(Declination { units: 0 });
    assert_eq!(x, b"00:00:00.000".to_vec());
}

#[test]
fn hms_round_trip_samples() {
    let samples: [u64; 6] = [
        1,
        13536000,
        180 * RA_UNITS_PER_DEGREE,
        360 * RA_UNITS_PER_DEGREE,
        360 * RA_UNITS_PER_DEGREE - 1,
        654321987,
    ];
    for &u in samples.iter() {
        let ra = RightAscension { units: u };
        let s = deg2hms(ra);
        let back = hms2deg(&s).expect("formatted value must parse");
        assert_eq!(back.units, u);
    }
}

#[test]
fn dms_round_trip_samples() {
    let samples: [i64; 7] = [
        0,
        1,
        -1,
        20304000,
        -20304000,
        90 * DEC_UNITS_PER_DEGREE - 1,
        -(90 * DEC_UNITS_PER_DEGREE - 1),
    ];
    for &u in samples.iter() {
        let dec = Declination { units: u };
        let s = deg2dms(dec);
        let back = dms2deg(&s).expect("formatted value must parse");
        assert_eq!(back.units, u);
    }
}

#[test]
fn hms_parse_rejects_malformed() {
    assert!(hms2deg(b"").is_none());
    assert!(hms2deg(b"00:22:33.600").is_none());
    assert!(hms2deg(b"00x22:33.6000").is_none());
    assert!(hms2deg(b"00:72:33.6000").is_none());
    assert!(hms2deg(b"25:00:00.0000").is_none());
    assert!(hms2deg(b"00:00:00.0000").is_none());
}

#[test]
fn decimal_parsers_match_std() {
    assert_eq!(boom::fmtnum::parse_u64_dec(b"0"), Some(0));
    assert_eq!(boom::fmtnum::parse_u64_dec(b"2591269286015010003"), Some(2591269286015010003));
    assert_eq!(boom::fmtnum::parse_u64_dec(b"18446744073709551615"), Some(u64::MAX));
    assert_eq!(boom::fmtnum::parse_u64_dec(b"18446744073709551616"), None);
    assert_eq!(boom::fmtnum::parse_u64_dec(b""), None);
    assert_eq!(boom::fmtnum::parse_u64_dec(b"12a"), None);
    assert_eq!(boom::fmtnum::parse_i64_dec(b"1001"), Some(1001));
    assert_eq!(boom::fmtnum::parse_i64_dec(b"-1"), Some(-1));
    assert_eq!(boom::fmtnum::parse_i64_dec(b"9223372036854775807"), Some(i64::MAX));
    assert_eq!(boom::fmtnum::parse_i64_dec(b"9223372036854775808"), None);
    assert_eq!(boom::fmtnum::parse_i64_dec(b"-9223372036854775808"), Some(i64::MIN));
    assert_eq!(boom::fmtnum::parse_i64_dec(b"-"), None);
}

#[test]
fn geojson_longitude_is_shifted() {
    let ra = ra_deg(180.0);
    assert_eq!(geojson_longitude_units(ra), 0);
    let ra2 = ra_deg(1.0);
    assert_eq!(geojson_longitude_units(ra2), -179 * RA_UNITS_PER_DEGREE as i64);
}
