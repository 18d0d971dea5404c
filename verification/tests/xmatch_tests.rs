//! Cross-match row selection: radius mode thresholds, the distance
//! decoration, missing-field skips, and the case-insensitive unit names.

use boom::xmatch::{
    filter_rows, match_row, parse_distance_unit, radius_mode, CrossmatchConfig, Decoration,
    DistanceUnit, GeomVerdict, RadiusSpec, RefRow, RowDistance,
};

fn clu_config() -> CrossmatchConfig {
    // 3 degrees in arcseconds, redshift key, 30 kpc, 300 arcsec near.
    CrossmatchConfig {
        radius_mas: 10_800_000,
        use_distance: true,
        distance_key: b"z".to_vec(),
        distance_unit: DistanceUnit::Redshift,
        distance_max_mkpc: 30_000,
        distance_max_near_mas: 300_000,
    }
}

fn ned_config() -> CrossmatchConfig {
    CrossmatchConfig {
        radius_mas: 10_800_000,
        use_distance: true,
        distance_key: b"DistMpc".to_vec(),
        distance_unit: DistanceUnit::Mpc,
        distance_max_mkpc: 30_000,
        distance_max_near_mas: 300_000,
    }
}

fn row(dist_micro: u64) -> RefRow {
    RefRow { ra_mas: Some(100), dec_mas: Some(200), dist_micro: Some(dist_micro) }
}

#[test]
fn default_config_matches_reference() {
    let cfg = CrossmatchConfig::default();
    assert_eq!(cfg.radius_mas, 1000);
    assert!(!cfg.use_distance);
    assert_eq!(cfg.distance_key, b"z".to_vec());
    assert_eq!(cfg.distance_unit, DistanceUnit::Redshift);
    assert_eq!(cfg.distance_max_mkpc, 30_000);
    assert_eq!(cfg.distance_max_near_mas, 5_000);
}

#[test]
fn redshift_near_far_threshold() {
    let cfg = clu_config();
    // z = 0.005: below the 0.01 threshold, near mode.
    assert_eq!(radius_mode(&cfg, &row(5_000)), RadiusSpec::NearRadius);
    assert_eq!(radius_mode(&cfg, &row(9_999)), RadiusSpec::NearRadius);
    // z = 0.01 and above: far mode, carrying the redshift.
    assert_eq!(radius_mode(&cfg, &row(10_000)), RadiusSpec::FarRedshift { z_micro: 10_000 });
}

#[test]
fn mpc_near_far_threshold() {
    let cfg = ned_config();
    assert_eq!(radius_mode(&cfg, &row(39_999_999)), RadiusSpec::NearRadius);
    assert_eq!(radius_mode(&cfg, &row(40_000_000)), RadiusSpec::FarMpc { mpc_micro: 40_000_000 });
}

#[test]
fn unfiltered_catalog_passes_rows() {
    let cfg = CrossmatchConfig::default();
    let r = RefRow { ra_mas: None, dec_mas: None, dist_micro: None };
    assert_eq!(radius_mode(&cfg, &r), RadiusSpec::Unfiltered);
    let v = GeomVerdict { inside: false, sep_mas: 0, mpc_dist_mkpc: 0 };
    let kept = match_row(&cfg, &r, &v).expect("unfiltered rows are kept");
    assert!(kept.decoration.is_none());
}

#[test]
fn missing_field_skips_row() {
    let cfg = clu_config();
    let r = RefRow { ra_mas: Some(1), dec_mas: Some(2), dist_micro: None };
    assert_eq!(radius_mode(&cfg, &r), RadiusSpec::SkipRow);
    let v = GeomVerdict { inside: true, sep_mas: 50_000, mpc_dist_mkpc: 0 };
    assert!(match_row(&cfg, &r, &v).is_none());
}

#[test]
fn redshift_near_row_kept_without_distance() {
    // A reference row at z = 0.005 and 50 arcseconds of separation:
    // inside the 300 arcsecond near radius, kept, and its distance stays
    // unknown since z does not exceed 0.005.
    let cfg = clu_config();
    let r = row(5_000);
    let v = GeomVerdict { inside: true, sep_mas: 50_000, mpc_dist_mkpc: 0 };
    let kept = match_row(&cfg, &r, &v).expect("row inside the near radius is kept");
    assert_eq!(
        kept.decoration,
        Some(Decoration { sep_mas: 50_000, distance: RowDistance::Unknown })
    );
}

#[test]
fn redshift_far_row_distance_value() {
    // z = 0.02 at 10 arcseconds: distance is sep_arcsec * z / 0.05
    //  = 10 * 0.02 * 20 = 4 kpc exactly.
    let cfg = clu_config();
    let r = row(20_000);
    let v = GeomVerdict { inside: true, sep_mas: 10_000, mpc_dist_mkpc: 0 };
    let kept = match_row(&cfg, &r, &v).expect("row inside the ellipse is kept");
    assert_eq!(
        kept.decoration,
        Some(Decoration { sep_mas: 10_000, distance: RowDistance::Kpc(4_000) })
    );
}

#[test]
fn mpc_row_uses_caller_distance() {
    let cfg = ned_config();
    let r = row(50_000_000);
    let v = GeomVerdict { inside: true, sep_mas: 10_000, mpc_dist_mkpc: 2_424 };
    let kept = match_row(&cfg, &r, &v).expect("row inside the ellipse is kept");
    assert_eq!(
        kept.decoration,
        Some(Decoration { sep_mas: 10_000, distance: RowDistance::Kpc(2_424) })
    );
}

#[test]
fn tiny_mpc_distance_unknown() {
    // 0.005 Mpc and below: no physical offset is derived.
    let cfg = ned_config();
    let r = row(5_000);
    let v = GeomVerdict { inside: true, sep_mas: 10_000, mpc_dist_mkpc: 7 };
    let kept = match_row(&cfg, &r, &v).expect("row inside is kept");
    assert_eq!(
        kept.decoration,
        Some(Decoration { sep_mas: 10_000, distance: RowDistance::Unknown })
    );
}

#[test]
fn outside_rows_absent_inside_rows_present() {
    let cfg = clu_config();
    let inside = (row(20_000), GeomVerdict { inside: true, sep_mas: 1_000, mpc_dist_mkpc: 0 });
    let outside = (row(20_000), GeomVerdict { inside: false, sep_mas: 9_000, mpc_dist_mkpc: 0 });
    let missing = (
        RefRow { ra_mas: None, dec_mas: Some(2), dist_micro: Some(20_000) },
        GeomVerdict { inside: true, sep_mas: 1_000, mpc_dist_mkpc: 0 },
    );
    let rows = vec![inside, outside, missing];
    let kept = filter_rows(&cfg, &rows);
    assert_eq!(kept.len(), 1);
    assert_eq!(kept[0].decoration.unwrap().sep_mas, 1_000);
}

#[test]
fn distance_unit_names_fold_case() {
    assert_eq!(parse_distance_unit(b"redshift"), Some(DistanceUnit::Redshift));
    assert_eq!(parse_distance_unit(b"Redshift"), Some(DistanceUnit::Redshift));
    assert_eq!(parse_distance_unit(b"Mpc"), Some(DistanceUnit::Mpc));
    assert_eq!(parse_distance_unit(b"mpc"), Some(DistanceUnit::Mpc));
    assert_eq!(parse_distance_unit(b"MPC"), Some(DistanceUnit::Mpc));
    assert_eq!(parse_distance_unit(b"kpc"), None);
    assert_eq!(parse_distance_unit(b""), None);
}
