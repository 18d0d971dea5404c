//! The alert packet as the deduplication and enrichment logic reads it,
//! and the set semantics of prior-detection histories.
//!
//! The full packet also carries photometry and three image stamps; those
//! ride through storage untouched, so the model here keeps exactly the
//! fields the pipeline core decides on. Image stamps are handled by the
//! tile module on their own.

use vstd::prelude::*;

use crate::coords::{CoordinateStrings, Declination, RightAscension, coordinate_strings};
use crate::seqtools::{copy_vec};

verus! {

/// A schema field that carries either an integer or a string, as some
/// survey versions write the reduction-version fields.
#[derive(Debug, Clone, PartialEq)]
pub enum Union {
    Int(i64),
    String(String),
}

/// An image cutout of the packet: the stamp file's name and its
/// gzip-compressed FITS bytes.
#[allow(non_snake_case)]
#[derive(Debug, Clone)]
pub struct Cutout {
    pub fileName: String,
    pub stampData: Vec<u8>,
}

impl Cutout {
    /// The centered 63x63 tile of the stamp, as big-endian pixel words.
    pub fn to_tile(&self) -> (r: Option<Vec<u32>>)
        ensures
            match r {
                Some(v) => {
                    &&& crate::tile::gunzip_of(self.stampData@) is Some
                    &&& crate::tile::tile_of(crate::tile::gunzip_of(self.stampData@).unwrap())
                        == Some(v@)
                    &&& v@.len() == 3969
                },
                None => crate::tile::gunzip_of(self.stampData@) is None || crate::tile::tile_of(
                    crate::tile::gunzip_of(self.stampData@).unwrap(),
                ) is None,
            },
    {
        crate::tile::stamp_to_tile(self.stampData.as_slice())
    }
}

/// One prior detection or non-detection of the same object. Two entries
/// with the same fields are the same detection identity, which is what
/// the set-append on an aux document deduplicates by.
#[derive(Clone, Copy, Debug, PartialEq, Eq, Structural)]
pub struct PrvEntry {
    /// Detection identifier; zero for a non-detection entry.
    pub candid: i64,
    /// Julian date of the observation, in microdays past the epoch origin.
    pub jd_micro: u64,
}

/// An alert packet, reduced to the fields the pipeline core reads.
#[derive(Debug)]
pub struct AlertPacket {
    pub schema_version: Vec<u8>,
    pub publisher: Vec<u8>,
    /// Stable identifier of the sky source across detections.
    pub object_id: Vec<u8>,
    /// Unique identifier of this detection.
    pub candid: i64,
    /// Visibility level of the detection's program.
    pub programid: i64,
    pub ra: RightAscension,
    pub dec: Declination,
    /// Earlier detections and non-detections of the same object.
    pub prv_candidates: Vec<PrvEntry>,
}

impl AlertPacket {
    /// The packet's coordinates are in range.
    pub open spec fn wf(self) -> bool {
        self.ra.wf() && self.dec.wf()
    }

    /// The packet without its history: what the primary document holds.
    pub fn remove_prv_candidates(&self) -> (r: AlertPacket)
        ensures
            r.schema_version@ == self.schema_version@,
            r.publisher@ == self.publisher@,
            r.object_id@ == self.object_id@,
            r.candid == self.candid,
            r.programid == self.programid,
            r.ra == self.ra,
            r.dec == self.dec,
            r.prv_candidates@ == Seq::<PrvEntry>::empty(),
    {
        let r = AlertPacket {
            schema_version: copy_vec(&self.schema_version),
            publisher: copy_vec(&self.publisher),
            object_id: copy_vec(&self.object_id),
            candid: self.candid,
            programid: self.programid,
            ra: self.ra,
            dec: self.dec,
            prv_candidates: Vec::new(),
        };
        assert(r.prv_candidates@ =~= Seq::<PrvEntry>::empty());
        r
    }

    /// The exact parts of the packet's computed coordinate block.
    pub fn get_coordinates(&self) -> (r: CoordinateStrings)
        requires
            self.wf(),
        ensures
            r.wf(self.ra, self.dec),
    {
        coordinate_strings(self.ra, self.dec)
    }
}

/// `a` extended by every entry of `b` not already present, first
/// occurrences in order: the set-append that `$addToSet ... $each` applies
/// to a history list.
pub open spec fn set_union_seq(a: Seq<PrvEntry>, b: Seq<PrvEntry>) -> Seq<PrvEntry>
    decreases b.len(),
{
    if b.len() == 0 {
        a
    } else {
        let rest = set_union_seq(a, b.drop_last());
        if rest.contains(b.last()) {
            rest
        } else {
            rest.push(b.last())
        }
    }
}

/// The first occurrences of `s`, in order: a history list as a set.
pub open spec fn dedup_seq(s: Seq<PrvEntry>) -> Seq<PrvEntry> {
    set_union_seq(Seq::empty(), s)
}

/// Set-append keeps exactly the union of the memberships.
pub proof fn lemma_set_union_membership(a: Seq<PrvEntry>, b: Seq<PrvEntry>, e: PrvEntry)
    ensures
        set_union_seq(a, b).contains(e) <==> a.contains(e) || b.contains(e),
    decreases b.len(),
{
    if b.len() > 0 {
        lemma_set_union_membership(a, b.drop_last(), e);
        assert(b.contains(e) <==> b.drop_last().contains(e) || b.last() == e) by {
            if b.contains(e) {
                let i = choose|i: int| 0 <= i < b.len() && b[i] == e;
                if i < b.len() - 1 {
                    assert(b.drop_last()[i] == e);
                }
            }
            if b.drop_last().contains(e) {
                let i = choose|i: int| 0 <= i < b.len() - 1 && b.drop_last()[i] == e;
                assert(b[i] == e);
            }
        }
        let rest = set_union_seq(a, b.drop_last());
        if !rest.contains(b.last()) {
            let p = rest.push(b.last());
            assert(p.contains(e) <==> rest.contains(e) || e == b.last()) by {
                if p.contains(e) {
                    let i = choose|i: int| 0 <= i < p.len() && p[i] == e;
                    if i < rest.len() {
                        assert(rest[i] == e);
                    }
                }
                if rest.contains(e) {
                    let i = choose|i: int| 0 <= i < rest.len() && rest[i] == e;
                    assert(p[i] == e);
                }
                assert(p[p.len() - 1] == b.last());
            }
        }
    }
}

/// Set-append introduces no duplicate entries.
pub proof fn lemma_set_union_no_dups(a: Seq<PrvEntry>, b: Seq<PrvEntry>)
    requires
        a.no_duplicates(),
    ensures
        set_union_seq(a, b).no_duplicates(),
    decreases b.len(),
{
    if b.len() > 0 {
        lemma_set_union_no_dups(a, b.drop_last());
        let rest = set_union_seq(a, b.drop_last());
        if !rest.contains(b.last()) {
            assert(rest.push(b.last()).no_duplicates()) by {
                assert(forall|i: int| 0 <= i < rest.len() ==> rest.push(b.last())[i] == rest[i]);
            }
        }
    }
}

/// Set-append leaves an already-complete list unchanged: appending
/// entries that are all present adds nothing. This is the second half of
/// the idempotence law, for the history of an object seen again.
pub proof fn lemma_set_union_absorbed(a: Seq<PrvEntry>, b: Seq<PrvEntry>)
    requires
        forall|i: int| 0 <= i < b.len() ==> a.contains(#[trigger] b[i]),
    ensures
        set_union_seq(a, b) == a,
    decreases b.len(),
{
    if b.len() > 0 {
        assert(forall|i: int| 0 <= i < b.len() - 1 ==> b.drop_last()[i] == b[i]);
        lemma_set_union_absorbed(a, b.drop_last());
        assert(b.last() == b[b.len() - 1]);
    }
}

/// Extend `out` by the entries of `more` it does not yet hold.
pub fn set_append(out: &mut Vec<PrvEntry>, more: &Vec<PrvEntry>)
    ensures
        final(out)@ == set_union_seq(old(out)@, more@),
{
    let n = more.len();
    for i in 0..n
        invariant
            n == more@.len(),
            out@ == set_union_seq(old(out)@, more@.take(i as int)),
    {
        let e = more[i];
        let mut present = false;
        let m = out.len();
        for j in 0..m
            invariant
                m == out@.len(),
                present <==> exists|k: int| 0 <= k < j && out@[k] == e,
        {
            if out[j].candid == e.candid && out[j].jd_micro == e.jd_micro {
                proof {
                    assert(out@[j as int] == e);
                }
                present = true;
            }
        }
        proof {
            assert(present <==> out@.contains(e));
            assert(more@.take(i + 1).drop_last() =~= more@.take(i as int));
            assert(more@.take(i + 1).last() == e);
        }
        if !present {
            out.push(e);
        }
    }
    proof {
        assert(more@.take(n as int) =~= more@);
    }
}

/// The first occurrences of a history list, in order.
pub fn dedup_prv(entries: &Vec<PrvEntry>) -> (r: Vec<PrvEntry>)
    ensures
        r@ == dedup_seq(entries@),
        r@.no_duplicates(),
        forall|e: PrvEntry| r@.contains(e) <==> entries@.contains(e),
{
    let mut out: Vec<PrvEntry> = Vec::new();
    assert(out@ =~= Seq::<PrvEntry>::empty());
    set_append(&mut out, entries);
    proof {
        lemma_set_union_no_dups(Seq::empty(), entries@);
        assert forall|e: PrvEntry| out@.contains(e) <==> entries@.contains(e) by {
            lemma_set_union_membership(Seq::empty(), entries@, e);
        }
    }
    out
}

} // verus!
