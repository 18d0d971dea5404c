//! Model of the document store the pipeline persists into.
//!
//! The real store is a document database reached over the network; the
//! pipeline uses it through a narrow interface: insert-if-absent under a
//! unique key, existence checks, and a set-append update. This module
//! gives that interface exact semantics over in-memory collections, and
//! the worker logic is verified against it. The unique index on `candid`
//! is the pipeline's only serialization point for duplicate detection, so
//! the uniqueness invariants here carry the dedup law.

use vstd::prelude::*;

use crate::alert::{PrvEntry, set_union_seq, set_append, lemma_set_union_no_dups};
use crate::coords::CoordinateStrings;
use crate::seqtools::bytes_eq;
use crate::xmatch::MatchedRow;

verus! {

/// A primary alert document: the packet minus its history, with the
/// computed coordinate block. Keyed by `candid`, unique.
pub struct PrimaryDoc {
    pub candid: i64,
    pub object_id: Vec<u8>,
    pub programid: i64,
    pub coordinates: CoordinateStrings,
}

/// The cross-match result for one reference catalog.
pub struct CatalogMatches {
    pub catalog: Vec<u8>,
    pub rows: Vec<MatchedRow>,
}

/// An aux document: one per object, holding the deduplicated history and
/// the cross-matches computed when the object was first seen. Keyed by
/// `object_id`, unique.
pub struct AuxDoc {
    pub object_id: Vec<u8>,
    pub prv_candidates: Vec<PrvEntry>,
    pub cross_matches: Vec<CatalogMatches>,
}

/// The two persisted collections.
pub struct AlertStore {
    pub primaries: Vec<PrimaryDoc>,
    pub auxes: Vec<AuxDoc>,
}

/// How often candid `c` occurs among the primaries.
pub open spec fn count_candid(s: Seq<PrimaryDoc>, c: i64) -> int
    decreases s.len(),
{
    if s.len() == 0 {
        0
    } else {
        count_candid(s.drop_last(), c) + if s.last().candid == c {
            1int
        } else {
            0int
        }
    }
}

impl AlertStore {
    /// Whether a primary document with this candid exists.
    pub open spec fn has_candid(self, c: i64) -> bool {
        exists|i: int| 0 <= i < self.primaries@.len() && self.primaries@[i].candid == c
    }

    /// Whether an aux document for this object exists.
    pub open spec fn has_aux(self, object_id: Seq<u8>) -> bool {
        exists|i: int| 0 <= i < self.auxes@.len() && self.auxes@[i].object_id@ == object_id
    }

    /// Both unique indexes hold, and histories are sets.
    pub open spec fn wf(self) -> bool {
        &&& forall|i: int, j: int|
            0 <= i < j < self.primaries@.len() ==> self.primaries@[i].candid
                != self.primaries@[j].candid
        &&& forall|i: int, j: int|
            0 <= i < j < self.auxes@.len() ==> self.auxes@[i].object_id@
                != self.auxes@[j].object_id@
        &&& forall|i: int|
            0 <= i < self.auxes@.len() ==> (#[trigger] self.auxes@[i]).prv_candidates@
                .no_duplicates()
    }

    /// An empty store.
    pub fn new() -> (r: AlertStore)
        ensures
            r.primaries@ == Seq::<PrimaryDoc>::empty(),
            r.auxes@ == Seq::<AuxDoc>::empty(),
            r.wf(),
    {
        let r = AlertStore { primaries: Vec::new(), auxes: Vec::new() };
        assert(r.primaries@ =~= Seq::<PrimaryDoc>::empty());
        assert(r.auxes@ =~= Seq::<AuxDoc>::empty());
        r
    }

    /// Whether a primary with this candid is already persisted.
    pub fn alert_exists(&self, candid: i64) -> (r: bool)
        ensures
            r == self.has_candid(candid),
    {
        let n = self.primaries.len();
        for i in 0..n
            invariant
                n == self.primaries@.len(),
                forall|j: int| 0 <= j < i ==> self.primaries@[j].candid != candid,
        {
            if self.primaries[i].candid == candid {
                return true;
            }
        }
        false
    }

    /// Whether an aux document for this object is already persisted.
    pub fn alert_aux_exists(&self, object_id: &Vec<u8>) -> (r: bool)
        ensures
            r == self.has_aux(object_id@),
    {
        let n = self.auxes.len();
        for i in 0..n
            invariant
                n == self.auxes@.len(),
                forall|j: int| 0 <= j < i ==> self.auxes@[j].object_id@ != object_id@,
        {
            if bytes_eq(&self.auxes[i].object_id, object_id) {
                return true;
            }
        }
        false
    }

    /// Insert a primary document unless its candid is taken: the unique
    /// index decides, and losing the race to another writer looks exactly
    /// like the duplicate case.
    pub fn save_alert(&mut self, doc: PrimaryDoc) -> (inserted: bool)
        requires
            old(self).wf(),
        ensures
            final(self).wf(),
            inserted == !old(self).has_candid(doc.candid),
            final(self).auxes@ == old(self).auxes@,
            inserted ==> final(self).primaries@ == old(self).primaries@.push(doc),
            !inserted ==> final(self).primaries@ == old(self).primaries@,
            final(self).has_candid(doc.candid),
    {
        if self.alert_exists(doc.candid) {
            return false;
        }
        let ghost c = doc.candid;
        self.primaries.push(doc);
        proof {
            let s = self.primaries@;
            assert(s[s.len() - 1].candid == c);
        }
        true
    }

    /// Insert an aux document unless its object already has one.
    pub fn save_alert_aux(&mut self, doc: AuxDoc) -> (inserted: bool)
        requires
            old(self).wf(),
            doc.prv_candidates@.no_duplicates(),
        ensures
            final(self).wf(),
            inserted == !old(self).has_aux(doc.object_id@),
            final(self).primaries@ == old(self).primaries@,
            inserted ==> final(self).auxes@ == old(self).auxes@.push(doc),
            !inserted ==> final(self).auxes@ == old(self).auxes@,
            final(self).has_aux(doc.object_id@),
    {
        if self.alert_aux_exists(&doc.object_id) {
            return false;
        }
        let ghost oid = doc.object_id@;
        self.auxes.push(doc);
        proof {
            let s = self.auxes@;
            assert(s[s.len() - 1].object_id@ == oid);
        }
        true
    }

    /// Append a history to an object's aux document with set semantics.
    /// Without an aux document for the object, nothing changes.
    pub fn update_alert_aux(&mut self, object_id: &Vec<u8>, prv: &Vec<PrvEntry>) -> (found: bool)
        requires
            old(self).wf(),
        ensures
            final(self).wf(),
            found == old(self).has_aux(object_id@),
            final(self).primaries@ == old(self).primaries@,
            final(self).auxes@.len() == old(self).auxes@.len(),
            forall|i: int|
                0 <= i < old(self).auxes@.len() && old(self).auxes@[i].object_id@ != object_id@
                    ==> final(self).auxes@[i] == old(self).auxes@[i],
            forall|i: int|
                0 <= i < old(self).auxes@.len() && old(self).auxes@[i].object_id@ == object_id@
                    ==> {
                    &&& (#[trigger] final(self).auxes@[i]).object_id@ == object_id@
                    &&& final(self).auxes@[i].prv_candidates@ == set_union_seq(
                        old(self).auxes@[i].prv_candidates@,
                        prv@,
                    )
                    &&& final(self).auxes@[i].cross_matches == old(self).auxes@[i].cross_matches
                },
    {
        let n = self.auxes.len();
        let mut idx: usize = n;
        for i in 0..n
            invariant
                n == self.auxes@.len(),
                idx <= n,
                idx == n ==> forall|j: int| 0 <= j < i ==> self.auxes@[j].object_id@ != object_id@,
                idx < n ==> self.auxes@[idx as int].object_id@ == object_id@,
        {
            if idx == n && bytes_eq(&self.auxes[i].object_id, object_id) {
                idx = i;
            }
        }
        if idx == n {
            return false;
        }
        let ghost before = self.auxes@;
        let mut doc = self.auxes.remove(idx);
        let ghost olddoc = doc;
        set_append(&mut doc.prv_candidates, prv);
        proof {
            lemma_set_union_no_dups(olddoc.prv_candidates@, prv@);
        }
        let ghost newdoc = doc;
        self.auxes.insert(idx, doc);
        proof {
            assert(self.auxes@ =~= before.update(idx as int, newdoc));
            assert(newdoc.object_id@ == olddoc.object_id@);
            assert forall|i: int|
                0 <= i < before.len() && before[i].object_id@ != object_id@ implies self.auxes@[i]
                == before[i] by {
                assert(i != idx);
            }
            assert forall|i: int|
                0 <= i < before.len() && before[i].object_id@ == object_id@ implies i
                == idx as int by {
                if i != idx {
                    assert(before[i].object_id@ != before[idx as int].object_id@);
                }
            }
        }
        true
    }

    /// How many primaries hold this candid.
    pub fn count_primaries(&self, candid: i64) -> (r: u64)
        requires
            self.primaries@.len() <= u64::MAX,
        ensures
            r == count_candid(self.primaries@, candid),
    {
        proof {
            lemma_count_candid_bounds(self.primaries@, candid);
        }
        let n = self.primaries.len();
        let mut acc: u64 = 0;
        for i in 0..n
            invariant
                n == self.primaries@.len() <= u64::MAX,
                acc == count_candid(self.primaries@.take(i as int), candid),
                acc <= i,
        {
            proof {
                lemma_count_candid_bounds(self.primaries@.take(i as int), candid);
                assert(self.primaries@.take(i + 1).drop_last() =~= self.primaries@.take(i as int));
                assert(self.primaries@.take(i + 1).last() == self.primaries@[i as int]);
            }
            if self.primaries[i].candid == candid {
                acc = acc + 1;
            }
        }
        proof {
            assert(self.primaries@.take(n as int) =~= self.primaries@);
        }
        acc
    }
}

/// A candid occurs between zero and length many times.
pub proof fn lemma_count_candid_bounds(s: Seq<PrimaryDoc>, c: i64)
    ensures
        0 <= count_candid(s, c) <= s.len(),
    decreases s.len(),
{
    if s.len() > 0 {
        lemma_count_candid_bounds(s.drop_last(), c);
    }
}

/// The dedup law: under the unique index, a persisted candid has exactly
/// one primary document, and an absent one has none.
pub proof fn lemma_dedup_law(store: AlertStore, c: i64)
    requires
        store.wf(),
    ensures
        store.has_candid(c) ==> count_candid(store.primaries@, c) == 1,
        !store.has_candid(c) ==> count_candid(store.primaries@, c) == 0,
{
    lemma_count_unique(store.primaries@, c);
}

/// Counting under pairwise-distinct candids.
proof fn lemma_count_unique(s: Seq<PrimaryDoc>, c: i64)
    requires
        forall|i: int, j: int| 0 <= i < j < s.len() ==> s[i].candid != s[j].candid,
    ensures
        (exists|i: int| 0 <= i < s.len() && s[i].candid == c) ==> count_candid(s, c) == 1,
        !(exists|i: int| 0 <= i < s.len() && s[i].candid == c) ==> count_candid(s, c) == 0,
    decreases s.len(),
{
    if s.len() > 0 {
        let t = s.drop_last();
        assert(forall|i: int| 0 <= i < t.len() ==> t[i] == s[i]);
        lemma_count_unique(t, c);
        if s.last().candid == c {
            assert(forall|i: int| 0 <= i < t.len() ==> t[i].candid != c);
            assert(!(exists|i: int| 0 <= i < t.len() && t[i].candid == c));
        } else {
            if exists|i: int| 0 <= i < s.len() && s[i].candid == c {
                let i = choose|i: int| 0 <= i < s.len() && s[i].candid == c;
                assert(t[i].candid == c);
            }
        }
    }
}

} // verus!
