//! Cross-match row selection.
//!
//! A candidate's position is matched against reference catalogs by a
//! cone query that the document store executes; the rows it returns are
//! then filtered and decorated here. All angles are held in exact integer
//! scales: separations in milliarcseconds, catalog distance values in
//! millionths of their unit (a redshift of 0.01 is 10,000; a distance of
//! 40 Mpc is 40,000,000), derived distances in milli-kiloparsecs.
//!
//! The spherical-ellipse containment test and the great-circle separation
//! are transcendental; the caller evaluates them at the radius this module
//! selects and hands the verdict back, and every decision that depends on
//! that verdict is made and proved here.

use vstd::prelude::*;

verus! {

/// Distance units a reference catalog may use, compared without case.
#[derive(Clone, Copy, Debug, PartialEq, Eq, Structural)]
pub enum DistanceUnit {
    Redshift,
    Mpc,
}

/// Per-catalog cross-match configuration, in integer scales.
#[derive(Debug)]
pub struct CrossmatchConfig {
    /// Cone-search radius, in milliarcseconds.
    pub radius_mas: u64,
    /// Whether rows are filtered by distance at all.
    pub use_distance: bool,
    /// Name of the row field holding the distance value.
    pub distance_key: Vec<u8>,
    /// Unit of that field.
    pub distance_unit: DistanceUnit,
    /// Largest accepted physical offset, in milli-kiloparsecs.
    pub distance_max_mkpc: u64,
    /// Effective radius for nearby objects, in milliarcseconds.
    pub distance_max_near_mas: u64,
}

impl Default for CrossmatchConfig {
    /// One arcsecond radius, no distance filtering, redshift key `z`,
    /// 30 kpc maximum offset, 5 arcseconds for nearby objects.
    fn default() -> (r: CrossmatchConfig)
        ensures
            r.radius_mas == 1000,
            !r.use_distance,
            r.distance_key@ == seq![122u8],
            r.distance_unit == DistanceUnit::Redshift,
            r.distance_max_mkpc == 30000,
            r.distance_max_near_mas == 5000,
    {
        let mut key: Vec<u8> = Vec::new();
        key.push(122);
        assert(key@ =~= seq![122u8]);
        CrossmatchConfig {
            radius_mas: 1000,
            use_distance: false,
            distance_key: key,
            distance_unit: DistanceUnit::Redshift,
            distance_max_mkpc: 30000,
            distance_max_near_mas: 5000,
        }
    }
}

/// A reference row, reduced to what the selection logic reads: its
/// position and the value under the configured distance key, each absent
/// when the stored row lacks the field.
#[derive(Clone, Copy, Debug)]
pub struct RefRow {
    /// Row right ascension, milliarcseconds.
    pub ra_mas: Option<i64>,
    /// Row declination, milliarcseconds.
    pub dec_mas: Option<i64>,
    /// Distance value, millionths of the catalog's unit.
    pub dist_micro: Option<u64>,
}

impl RefRow {
    /// Machine bound: distance values stay below 10^11 millionths, far
    /// beyond any physical redshift or megaparsec count.
    pub open spec fn wf(self) -> bool {
        match self.dist_micro {
            Some(d) => d < 100000000000,
            None => true,
        }
    }
}

/// An ASCII byte folded to lower case.
pub open spec fn fold_byte(b: u8) -> u8 {
    if 65 <= b <= 90 {
        (b + 32) as u8
    } else {
        b
    }
}

/// The `redshift` bytes.
pub open spec fn redshift_name() -> Seq<u8> {
    seq![114u8, 101u8, 100u8, 115u8, 104u8, 105u8, 102u8, 116u8]
}

/// The `mpc` bytes.
pub open spec fn mpc_name() -> Seq<u8> {
    seq![109u8, 112u8, 99u8]
}

/// The unit a configuration names, compared without regard to case.
pub open spec fn spec_unit_of(s: Seq<u8>) -> Option<DistanceUnit> {
    let folded = s.map_values(|b: u8| fold_byte(b));
    if folded == redshift_name() {
        Some(DistanceUnit::Redshift)
    } else if folded == mpc_name() {
        Some(DistanceUnit::Mpc)
    } else {
        None
    }
}

/// Parse a configured distance-unit name, case-insensitively.
pub fn parse_distance_unit(s: &[u8]) -> (r: Option<DistanceUnit>)
    ensures
        r == spec_unit_of(s@),
{
    let n = s.len();
    let mut folded: Vec<u8> = Vec::new();
    for i in 0..n
        invariant
            n == s@.len(),
            folded@ == s@.take(i as int).map_values(|b: u8| fold_byte(b)),
    {
        let b = s[i];
        let f: u8 = if 65 <= b && b <= 90 {
            b + 32
        } else {
            b
        };
        folded.push(f);
        proof {
            assert(folded@ =~= s@.take(i as int + 1).map_values(|b: u8| fold_byte(b)));
        }
    }
    proof {
        assert(s@.take(n as int) =~= s@);
    }
    let redshift: [u8; 8] = [114, 101, 100, 115, 104, 105, 102, 116];
    let mpc: [u8; 3] = [109, 112, 99];
    proof {
        assert(redshift@ =~= redshift_name());
        assert(mpc@ =~= mpc_name());
    }
    if crate::seqtools::slices_eq(folded.as_slice(), redshift.as_slice()) {
        Some(DistanceUnit::Redshift)
    } else if crate::seqtools::slices_eq(folded.as_slice(), mpc.as_slice()) {
        Some(DistanceUnit::Mpc)
    } else {
        None
    }
}

/// The radius at which the containment test must run for one row.
#[derive(Clone, Copy, Debug, PartialEq, Eq, Structural)]
pub enum RadiusSpec {
    /// A required field is missing: the row is skipped silently.
    SkipRow,
    /// Distance filtering is off: the row passes unfiltered.
    Unfiltered,
    /// A nearby object: use the configured near radius.
    NearRadius,
    /// Far redshift mode: the effective radius follows from the redshift.
    FarRedshift { z_micro: u64 },
    /// Far megaparsec mode: the effective radius follows from the distance.
    FarMpc { mpc_micro: u64 },
}

/// Redshift below which the near radius applies: z < 0.01.
pub const NEAR_Z_MICRO: u64 = 10000;

/// Megaparsec distance below which the near radius applies: d < 40 Mpc.
pub const NEAR_MPC_MICRO: u64 = 40000000;

/// Distance value below which no physical offset is derived: 0.005 units.
pub const MIN_DIST_MICRO: u64 = 5000;

/// Which radius the containment test for `row` must use.
pub open spec fn spec_radius_mode(cfg: CrossmatchConfig, row: RefRow) -> RadiusSpec {
    if !cfg.use_distance {
        RadiusSpec::Unfiltered
    } else if row.ra_mas is None || row.dec_mas is None || row.dist_micro is None {
        RadiusSpec::SkipRow
    } else {
        let d = row.dist_micro.unwrap();
        match cfg.distance_unit {
            DistanceUnit::Redshift => if d < NEAR_Z_MICRO {
                RadiusSpec::NearRadius
            } else {
                RadiusSpec::FarRedshift { z_micro: d }
            },
            DistanceUnit::Mpc => if d < NEAR_MPC_MICRO {
                RadiusSpec::NearRadius
            } else {
                RadiusSpec::FarMpc { mpc_micro: d }
            },
        }
    }
}

/// Decide the containment radius for one reference row.
pub fn radius_mode(cfg: &CrossmatchConfig, row: &RefRow) -> (r: RadiusSpec)
    ensures
        r == spec_radius_mode(*cfg, *row),
{
    if !cfg.use_distance {
        return RadiusSpec::Unfiltered;
    }
    if row.ra_mas.is_none() || row.dec_mas.is_none() || row.dist_micro.is_none() {
        return RadiusSpec::SkipRow;
    }
    let d = row.dist_micro.unwrap();
    match cfg.distance_unit {
        DistanceUnit::Redshift => if d < NEAR_Z_MICRO {
            RadiusSpec::NearRadius
        } else {
            RadiusSpec::FarRedshift { z_micro: d }
        },
        DistanceUnit::Mpc => if d < NEAR_MPC_MICRO {
            RadiusSpec::NearRadius
        } else {
            RadiusSpec::FarMpc { mpc_micro: d }
        },
    }
}

/// What the caller's geometry evaluation reports for one row.
#[derive(Clone, Copy, Debug)]
pub struct GeomVerdict {
    /// Whether the row lies inside the spherical ellipse at the selected
    /// radius.
    pub inside: bool,
    /// Great-circle separation between candidate and row, milliarcseconds.
    pub sep_mas: u64,
    /// For megaparsec catalogs: the physical offset the caller derives
    /// from the separation and the row distance, milli-kiloparsecs.
    pub mpc_dist_mkpc: u64,
}

impl GeomVerdict {
    /// Machine bound: a separation on the sphere is under 360 degrees.
    pub open spec fn wf(self) -> bool {
        self.sep_mas <= 1296000000
    }
}

/// A derived physical offset, or the unknown marker for rows whose
/// distance value is too small to divide by.
#[derive(Clone, Copy, Debug, PartialEq, Eq, Structural)]
pub enum RowDistance {
    Unknown,
    Kpc(u64),
}

/// What a kept row is decorated with.
#[derive(Clone, Copy, Debug, PartialEq, Eq, Structural)]
pub struct Decoration {
    /// Angular separation, milliarcseconds.
    pub sep_mas: u64,
    /// Derived physical offset.
    pub distance: RowDistance,
}

/// A row that passed the cross-match, with its decoration. Rows of an
/// unfiltered catalog carry none, as the store returned them.
#[derive(Clone, Copy, Debug)]
pub struct MatchedRow {
    pub row: RefRow,
    pub decoration: Option<Decoration>,
}

/// The derived physical offset of a filtered row, in milli-kiloparsecs.
/// For a redshift z and separation s arcseconds the offset is s * z / 0.05
/// kpc, exact in these scales up to the final floor division; megaparsec
/// catalogs need the small-angle factor the caller computed.
pub open spec fn spec_row_distance(cfg: CrossmatchConfig, row: RefRow, verdict: GeomVerdict) -> RowDistance {
    let d = row.dist_micro.unwrap();
    if d <= MIN_DIST_MICRO {
        RowDistance::Unknown
    } else {
        match cfg.distance_unit {
            DistanceUnit::Redshift => RowDistance::Kpc(
                ((verdict.sep_mas * d) / 50000) as u64,
            ),
            DistanceUnit::Mpc => RowDistance::Kpc(verdict.mpc_dist_mkpc),
        }
    }
}

/// Whether `row` is kept.
pub open spec fn spec_row_keep(cfg: CrossmatchConfig, row: RefRow, verdict: GeomVerdict) -> bool {
    if !cfg.use_distance {
        true
    } else if row.ra_mas is None || row.dec_mas is None || row.dist_micro is None {
        false
    } else {
        verdict.inside
    }
}

/// The kept row with its decoration.
pub open spec fn spec_row_decorated(cfg: CrossmatchConfig, row: RefRow, verdict: GeomVerdict) -> MatchedRow {
    if !cfg.use_distance {
        MatchedRow { row, decoration: None }
    } else {
        MatchedRow {
            row,
            decoration: Some(
                Decoration {
                    sep_mas: verdict.sep_mas,
                    distance: spec_row_distance(cfg, row, verdict),
                },
            ),
        }
    }
}

/// Dispose of one reference row: keep and decorate it, or drop it.
pub fn match_row(cfg: &CrossmatchConfig, row: &RefRow, verdict: &GeomVerdict) -> (r: Option<
    MatchedRow,
>)
    requires
        row.wf(),
        verdict.wf(),
    ensures
        r == if spec_row_keep(*cfg, *row, *verdict) {
            Some(spec_row_decorated(*cfg, *row, *verdict))
        } else {
            None::<MatchedRow>
        },
{
    if !cfg.use_distance {
        return Some(MatchedRow { row: *row, decoration: None });
    }
    if row.ra_mas.is_none() || row.dec_mas.is_none() || row.dist_micro.is_none() {
        return None;
    }
    if !verdict.inside {
        return None;
    }
    let d = row.dist_micro.unwrap();
    let distance: RowDistance = if d <= MIN_DIST_MICRO {
        RowDistance::Unknown
    } else {
        match cfg.distance_unit {
            DistanceUnit::Redshift => {
                proof {
                    assert((verdict.sep_mas as int) * (d as int) <= 1296000000int * 100000000000int)
                        by (nonlinear_arith)
                        requires
                            verdict.sep_mas <= 1296000000,
                            d < 100000000000,
                    ;
                }
                let wide: u128 = (verdict.sep_mas as u128) * (d as u128) / 50000;
                assert(wide <= 1296000000int * 100000000000int / 50000);
                RowDistance::Kpc(wide as u64)
            },
            DistanceUnit::Mpc => RowDistance::Kpc(verdict.mpc_dist_mkpc),
        }
    };
    Some(
        MatchedRow {
            row: *row,
            decoration: Some(Decoration { sep_mas: verdict.sep_mas, distance }),
        },
    )
}

/// The rows kept from a catalog's cone-query result, in order.
pub open spec fn matched_of(cfg: CrossmatchConfig, rows: Seq<(RefRow, GeomVerdict)>) -> Seq<
    MatchedRow,
>
    decreases rows.len(),
{
    if rows.len() == 0 {
        Seq::empty()
    } else {
        let rest = matched_of(cfg, rows.drop_last());
        let p = rows.last();
        if spec_row_keep(cfg, p.0, p.1) {
            rest.push(spec_row_decorated(cfg, p.0, p.1))
        } else {
            rest
        }
    }
}

/// Filter and decorate every row a cone query returned.
pub fn filter_rows(cfg: &CrossmatchConfig, rows: &Vec<(RefRow, GeomVerdict)>) -> (r: Vec<
    MatchedRow,
>)
    requires
        forall|i: int| 0 <= i < rows@.len() ==> (#[trigger] rows@[i]).0.wf() && rows@[i].1.wf(),
    ensures
        r@ == matched_of(*cfg, rows@),
{
    let mut out: Vec<MatchedRow> = Vec::new();
    let n = rows.len();
    for i in 0..n
        invariant
            n == rows@.len(),
            forall|k: int| 0 <= k < n ==> (#[trigger] rows@[k]).0.wf() && rows@[k].1.wf(),
            out@ == matched_of(*cfg, rows@.take(i as int)),
    {
        let p = &rows[i];
        match match_row(cfg, &p.0, &p.1) {
            Some(m) => {
                out.push(m);
            },
            None => {},
        }
        proof {
            assert(rows@.take(i + 1).drop_last() =~= rows@.take(i as int));
            assert(rows@.take(i + 1).last() == rows@[i as int]);
        }
    }
    proof {
        assert(rows@.take(n as int) =~= rows@);
    }
    out
}

/// The cross-match completeness law: the kept rows are exactly the rows
/// the keep predicate admits, each decorated with its angular separation
/// and derived distance, in their query order.
pub proof fn lemma_crossmatch_complete(cfg: CrossmatchConfig, rows: Seq<(RefRow, GeomVerdict)>)
    ensures
        matched_of(cfg, rows) == rows.filter(
            |p: (RefRow, GeomVerdict)| spec_row_keep(cfg, p.0, p.1),
        ).map_values(|p: (RefRow, GeomVerdict)| spec_row_decorated(cfg, p.0, p.1)),
    decreases rows.len(),
{
    let keep = |p: (RefRow, GeomVerdict)| spec_row_keep(cfg, p.0, p.1);
    let deco = |p: (RefRow, GeomVerdict)| spec_row_decorated(cfg, p.0, p.1);
    if rows.len() == 0 {
        assert(rows.filter(keep) =~= Seq::<(RefRow, GeomVerdict)>::empty());
        assert(matched_of(cfg, rows) =~= rows.filter(keep).map_values(deco));
    } else {
        lemma_crossmatch_complete(cfg, rows.drop_last());
        reveal_with_fuel(Seq::<_>::filter, 2);
        assert(rows.drop_last().push(rows.last()) =~= rows);
        if keep(rows.last()) {
            assert(rows.filter(keep) == rows.drop_last().filter(keep).push(rows.last()));
            assert(rows.filter(keep).map_values(deco) =~= rows.drop_last().filter(keep).map_values(
                deco,
            ).push(deco(rows.last())));
        } else {
            assert(rows.filter(keep) == rows.drop_last().filter(keep));
        }
    }
}

/// Whether a kept row of a distance-filtered catalog carries a derived
/// distance at all: exactly when its distance value exceeds the minimum.
pub proof fn lemma_distance_marker(cfg: CrossmatchConfig, row: RefRow, verdict: GeomVerdict)
    requires
        cfg.use_distance,
        row.dist_micro is Some,
    ensures
        spec_row_distance(cfg, row, verdict) == RowDistance::Unknown <==> row.dist_micro.unwrap()
            <= MIN_DIST_MICRO,
{
}

} // verus!
