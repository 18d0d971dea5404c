//! The filter model: validation at build time, grouping by permission
//! level, and the broker key names a filter worker uses.

use vstd::prelude::*;

use crate::fmtnum::{dec_digits, push_bytes, push_dec};
use crate::seqtools::copy_vec;

verus! {

broadcast use crate::seqtools::lemma_bytes_deep;

/// A user-defined filter: its identifier, the catalog whose streams it
/// consumes, the permission levels it may read, and the stages of its
/// active pipeline version, serialized, run by the document store.
pub struct Filter {
    pub id: i64,
    pub catalog: Vec<u8>,
    pub permissions: Vec<i64>,
    pub pipeline: Vec<Vec<u8>>,
}

/// Why building a filter failed; each is fatal for that filter alone.
#[derive(Clone, Copy, Debug, PartialEq, Eq, Structural)]
pub enum FilterBuildError {
    /// The filter grants no permission level.
    NoPermissions,
    /// The active version has no pipeline stages.
    EmptyPipeline,
}

/// The largest value of a non-empty run.
pub open spec fn max_of(s: Seq<i64>) -> int
    decreases s.len(),
{
    if s.len() <= 1 {
        s[0] as int
    } else if s.last() as int >= max_of(s.drop_last()) {
        s.last() as int
    } else {
        max_of(s.drop_last())
    }
}

/// The largest value is attained and dominates the run.
pub proof fn lemma_max_of(s: Seq<i64>)
    requires
        s.len() > 0,
    ensures
        s.contains(max_of(s) as i64),
        forall|i: int| 0 <= i < s.len() ==> s[i] <= max_of(s),
    decreases s.len(),
{
    if s.len() == 1 {
        assert(s[0] == max_of(s) as i64);
    } else {
        lemma_max_of(s.drop_last());
        assert(forall|i: int| 0 <= i < s.len() - 1 ==> s.drop_last()[i] == s[i]);
        if s.drop_last().contains(max_of(s) as i64) {
            let i = choose|i: int| 0 <= i < s.len() - 1 && s.drop_last()[i] == max_of(s) as i64;
            assert(s[i] == max_of(s) as i64);
        } else {
            assert(s[s.len() - 1] == max_of(s) as i64);
        }
    }
}

impl Filter {
    /// A built filter has a permission level and a pipeline.
    pub open spec fn wf(self) -> bool {
        self.permissions@.len() > 0 && self.pipeline@.len() > 0
    }

    /// Assemble a filter from its loaded parts, refusing one with no
    /// permission level or an empty pipeline: such a filter could never
    /// read a stream or select a document, and its misconfiguration is
    /// fatal for the filter.
    pub fn build(id: i64, catalog: Vec<u8>, permissions: Vec<i64>, pipeline: Vec<Vec<u8>>) -> (r:
        Result<Filter, FilterBuildError>)
        ensures
            match r {
                Ok(f) => {
                    &&& permissions@.len() > 0
                    &&& pipeline@.len() > 0
                    &&& f.wf()
                    &&& f.id == id
                    &&& f.catalog@ == catalog@
                    &&& f.permissions@ == permissions@
                    &&& f.pipeline == pipeline
                },
                Err(FilterBuildError::NoPermissions) => permissions@.len() == 0,
                Err(FilterBuildError::EmptyPipeline) => permissions@.len() > 0 && pipeline@.len()
                    == 0,
            },
    {
        if permissions.len() == 0 {
            return Err(FilterBuildError::NoPermissions);
        }
        if pipeline.len() == 0 {
            return Err(FilterBuildError::EmptyPipeline);
        }
        Ok(Filter { id, catalog, permissions, pipeline })
    }

    /// The highest permission level the filter may read: the stream it
    /// consumes from.
    pub fn max_permission(&self) -> (r: i64)
        requires
            self.wf(),
        ensures
            r == max_of(self.permissions@),
            self.permissions@.contains(r),
            forall|i: int| 0 <= i < self.permissions@.len() ==> self.permissions@[i] <= r,
    {
        let mut best = self.permissions[0];
        let n = self.permissions.len();
        for i in 1..n
            invariant
                1 <= n == self.permissions@.len(),
                best == max_of(self.permissions@.take(i as int)),
        {
            proof {
                assert(self.permissions@.take(i + 1).drop_last() =~= self.permissions@.take(
                    i as int,
                ));
                assert(self.permissions@.take(i + 1).last() == self.permissions@[i as int]);
            }
            if self.permissions[i] > best {
                best = self.permissions[i];
            }
        }
        proof {
            assert(self.permissions@.take(n as int) =~= self.permissions@);
            lemma_max_of(self.permissions@);
        }
        best
    }
}

/// The `_programid_` bytes of a stream key.
pub open spec fn programid_tag() -> Seq<u8> {
    seq![95u8, 112u8, 114u8, 111u8, 103u8, 114u8, 97u8, 109u8, 105u8, 100u8, 95u8]
}

/// The `_filter_stream` bytes of a stream key.
pub open spec fn filter_stream_tag() -> Seq<u8> {
    seq![95u8, 102u8, 105u8, 108u8, 116u8, 101u8, 114u8, 95u8, 115u8, 116u8, 114u8, 101u8, 97u8, 109u8]
}

/// The `filter_` bytes of a group or results key.
pub open spec fn filter_tag() -> Seq<u8> {
    seq![102u8, 105u8, 108u8, 116u8, 101u8, 114u8, 95u8]
}

/// The `_group` bytes of a consumer-group key.
pub open spec fn group_tag() -> Seq<u8> {
    seq![95u8, 103u8, 114u8, 111u8, 117u8, 112u8]
}

/// The `_results` bytes of an output-list key.
pub open spec fn results_tag() -> Seq<u8> {
    seq![95u8, 114u8, 101u8, 115u8, 117u8, 108u8, 116u8, 115u8]
}

/// The decimal digits of a signed identifier.
pub open spec fn i64_digits(n: int) -> Seq<u8> {
    if n < 0 {
        seq![45u8] + dec_digits((-n) as nat)
    } else {
        dec_digits(n as nat)
    }
}

/// Append the decimal form of a signed identifier.
pub fn push_i64(out: &mut Vec<u8>, n: i64)
    ensures
        final(out)@ == old(out)@ + i64_digits(n as int),
{
    if n < 0 {
        out.push(45);
        let m: u64 = if n == i64::MIN {
            9223372036854775808
        } else {
            (-n) as u64
        };
        push_dec(out, m);
        assert(out@ =~= old(out)@ + i64_digits(n as int));
    } else {
        push_dec(out, n as u64);
    }
}

/// The stream key `{catalog}_programid_{level}_filter_stream`.
pub fn stream_key(catalog: &Vec<u8>, level: i64) -> (r: Vec<u8>)
    ensures
        r@ == catalog@ + programid_tag() + i64_digits(level as int) + filter_stream_tag(),
{
    let mut out = copy_vec(catalog);
    let tag: [u8; 11] = [95, 112, 114, 111, 103, 114, 97, 109, 105, 100, 95];
    proof {
        assert(tag@ =~= programid_tag());
    }
    push_bytes(&mut out, tag.as_slice());
    push_i64(&mut out, level);
    let tail: [u8; 14] = [95, 102, 105, 108, 116, 101, 114, 95, 115, 116, 114, 101, 97, 109];
    proof {
        assert(tail@ =~= filter_stream_tag());
    }
    push_bytes(&mut out, tail.as_slice());
    out
}

/// The consumer-group key `filter_{id}_group`.
pub fn group_key(filter_id: i64) -> (r: Vec<u8>)
    ensures
        r@ == filter_tag() + i64_digits(filter_id as int) + group_tag(),
{
    let mut out: Vec<u8> = Vec::new();
    let head: [u8; 7] = [102, 105, 108, 116, 101, 114, 95];
    proof {
        assert(head@ =~= filter_tag());
        assert(out@ =~= Seq::<u8>::empty());
    }
    push_bytes(&mut out, head.as_slice());
    push_i64(&mut out, filter_id);
    let tail: [u8; 6] = [95, 103, 114, 111, 117, 112];
    proof {
        assert(tail@ =~= group_tag());
    }
    push_bytes(&mut out, tail.as_slice());
    proof {
        assert(out@ =~= filter_tag() + i64_digits(filter_id as int) + group_tag());
    }
    out
}

/// The output-list key `filter_{id}_results`.
pub fn results_key(filter_id: i64) -> (r: Vec<u8>)
    ensures
        r@ == filter_tag() + i64_digits(filter_id as int) + results_tag(),
{
    let mut out: Vec<u8> = Vec::new();
    let head: [u8; 7] = [102, 105, 108, 116, 101, 114, 95];
    proof {
        assert(head@ =~= filter_tag());
        assert(out@ =~= Seq::<u8>::empty());
    }
    push_bytes(&mut out, head.as_slice());
    push_i64(&mut out, filter_id);
    let tail: [u8; 8] = [95, 114, 101, 115, 117, 108, 116, 115];
    proof {
        assert(tail@ =~= results_tag());
    }
    push_bytes(&mut out, tail.as_slice());
    proof {
        assert(out@ =~= filter_tag() + i64_digits(filter_id as int) + results_tag());
    }
    out
}

/// No element admitted: the filtered run is empty.
proof fn lemma_filter_none(s: Seq<Filter>, p: spec_fn(Filter) -> bool)
    requires
        forall|i: int| 0 <= i < s.len() ==> !p(#[trigger] s[i]),
    ensures
        s.filter(p) == Seq::<Filter>::empty(),
    decreases s.len(),
{
    reveal_with_fuel(Seq::<_>::filter, 2);
    if s.len() > 0 {
        assert(forall|i: int| 0 <= i < s.len() - 1 ==> s.drop_last()[i] == s[i]);
        lemma_filter_none(s.drop_last(), p);
    }
}

/// Every filter has a bucket for its highest permission level.
pub open spec fn every_filter_bucketed(filters: Seq<Filter>, groups: Seq<FilterGroup>) -> bool {
    forall|i: int|
        0 <= i < filters.len() ==> exists|g: int|
            0 <= g < groups.len() && (#[trigger] groups[g]).level == max_of(
                (#[trigger] filters[i]).permissions@,
            )
}

/// The filters of one permission level, bucketed.
pub struct FilterGroup {
    pub level: i64,
    pub filters: Vec<Filter>,
}

/// Whether a filter's highest permission is `level`.
pub open spec fn at_level(f: Filter, level: i64) -> bool {
    f.wf() && max_of(f.permissions@) == level
}

/// Group filters by their highest permission level: each bucket holds, in
/// input order, exactly the filters whose highest level is the bucket's,
/// one bucket per level that occurs, in order of first occurrence.
pub fn group_by_permission(filters: Vec<Filter>) -> (r: Vec<FilterGroup>)
    requires
        forall|i: int| 0 <= i < filters@.len() ==> (#[trigger] filters@[i]).wf(),
    ensures
        forall|g: int, h: int| 0 <= g < h < r@.len() ==> r@[g].level != r@[h].level,
        forall|g: int|
            0 <= g < r@.len() ==> (#[trigger] r@[g]).filters@ == filters@.filter(
                |f: Filter| at_level(f, r@[g].level),
            ),
        forall|g: int| 0 <= g < r@.len() ==> (#[trigger] r@[g]).filters@.len() > 0,
        every_filter_bucketed(filters@, r@),
{
    let ghost all = filters@;
    let mut rest = filters;
    let mut out: Vec<FilterGroup> = Vec::new();
    let mut taken: usize = 0;
    let cap = rest.len();
    proof {
        assert(cap == all.len());
        assert(rest@ =~= all.skip(0));
        assert(all.take(0) =~= Seq::<Filter>::empty());
    }
    while rest.len() > 0
        invariant
            all.len() <= usize::MAX,
            taken <= all.len(),
            rest@ == all.skip(taken as int),
            forall|i: int| 0 <= i < all.len() ==> (#[trigger] all[i]).wf(),
            forall|g: int, h: int| 0 <= g < h < out@.len() ==> out@[g].level != out@[h].level,
            forall|g: int|
                0 <= g < out@.len() ==> (#[trigger] out@[g]).filters@ == all.take(
                    taken as int,
                ).filter(|f: Filter| at_level(f, out@[g].level)),
            forall|g: int| 0 <= g < out@.len() ==> (#[trigger] out@[g]).filters@.len() > 0,
            every_filter_bucketed(all.take(taken as int), out@),
        decreases rest@.len(),
    {
        let f = rest.remove(0);
        proof {
            assert(f == all[taken as int]);
            assert(rest@ =~= all.skip(taken as int + 1));
        }
        let level = f.max_permission();
        let n = out.len();
        let mut idx: usize = n;
        for g in 0..n
            invariant
                n == out@.len(),
                idx <= n,
                idx == n ==> forall|j: int| 0 <= j < g ==> out@[j].level != level,
                idx < n ==> out@[idx as int].level == level,
        {
            if idx == n && out[g].level == level {
                idx = g;
            }
        }
        let ghost before = out@;
        let ghost was_new = idx == n;
        if idx == n {
            let mut bucket: Vec<Filter> = Vec::new();
            bucket.push(f);
            out.push(FilterGroup { level, filters: bucket });
            proof {
                assert(out@.drop_last() =~= before);
                assert(out@.last().filters@ =~= seq![all[taken as int]]);
            }
        } else {
            let mut grp = out.remove(idx);
            grp.filters.push(f);
            out.insert(idx, grp);
            proof {
                assert(out@ =~= before.update(idx as int, out@[idx as int]));
                assert(out@[idx as int].filters@ =~= before[idx as int].filters@.push(
                    all[taken as int],
                ));
            }
        }
        taken += 1;
        proof {
            let t = taken as int;
            assert(all.take(t).drop_last() =~= all.take(t - 1));
            assert(all.take(t).last() == all[t - 1]);
            reveal_with_fuel(Seq::<_>::filter, 2);
            assert forall|g: int| 0 <= g < out@.len() implies (#[trigger] out@[g]).filters@
                == all.take(t).filter(|q: Filter| at_level(q, out@[g].level)) by {
                let p = |q: Filter| at_level(q, out@[g].level);
                assert(all.take(t).filter(p) == if p(all.take(t).last()) {
                    all.take(t).drop_last().filter(p).push(all.take(t).last())
                } else {
                    all.take(t).drop_last().filter(p)
                });
                if out@[g].level == level {
                    assert(p(all[t - 1]));
                    if was_new {
                        assert(g == before.len());
                        assert forall|i: int| 0 <= i < all.take(t - 1).len() implies !p(
                            #[trigger] all.take(t - 1)[i],
                        ) by {
                            assert(all.take(t - 1)[i] == all[i]);
                            if p(all[i]) {
                                assert(max_of(all[i].permissions@) == level);
                                let h = choose|h: int|
                                    0 <= h < before.len() && before[h].level == max_of(
                                        all[i].permissions@,
                                    );
                                assert(before[h].level == level);
                            }
                        }
                        lemma_filter_none(all.take(t - 1), p);
                        assert(out@[g].filters@ =~= all.take(t).filter(p));
                    } else {
                        assert(before[g].filters@ == all.take(t - 1).filter(p));
                    }
                } else {
                    assert(!p(all[t - 1]));
                    assert(out@[g] == before[g]);
                }
            }
            assert forall|i: int| 0 <= i < all.take(t).len() implies exists|g: int|
                0 <= g < out@.len() && (#[trigger] out@[g]).level == max_of(
                    (#[trigger] all.take(t)[i]).permissions@,
                ) by {
                assert(all.take(t)[i] == all[i]);
                if i == t - 1 {
                    if was_new {
                        assert(out@[out@.len() - 1].level == level);
                    } else {
                        assert(out@[idx as int].level == level);
                    }
                } else {
                    assert(all.take(t - 1)[i] == all[i]);
                    let g = choose|g: int|
                        0 <= g < before.len() && (#[trigger] before[g]).level == max_of(
                            all.take(t - 1)[i].permissions@,
                        );
                    assert(out@[g].level == before[g].level);
                }
            }
            assert(every_filter_bucketed(all.take(t), out@));
        }
    }
    proof {
        assert(all.skip(taken as int).len() == 0);
        assert(taken == all.len());
        assert(all.take(taken as int) =~= all);
    }
    out
}

} // verus!
