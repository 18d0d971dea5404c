//! The worker decision logic, verified against the store and broker
//! models.
//!
//! The ingest worker's handling of one decoded packet is `process_alert`;
//! its whole effect is captured by the `alert_step` relation, over which
//! the idempotence law is proved. Routing a classified candid onto the
//! per-permission streams is `ml_route_candid`, whose contract is the
//! visibility rule. The callers that loop over a real broker perform the
//! same calls against the live services and hand the decoded values in.

use vstd::prelude::*;

use crate::alert::{AlertPacket, dedup_prv, dedup_seq, set_union_seq};
use crate::broker::{Broker, PacketDisposition, remove_first, STREAM_COUNT};
use crate::coords::{RA_HALF_TURN, hms_seq, dms_seq};
use crate::seqtools::copy_vec;
use crate::store::{AlertStore, AuxDoc, CatalogMatches, PrimaryDoc, count_candid, lemma_dedup_law};

verus! {

broadcast use crate::seqtools::lemma_bytes_deep;

/// What handling one packet concluded.
#[derive(Clone, Copy, Debug, PartialEq, Eq, Structural)]
pub enum ProcessOutcome {
    /// The packet was new: persisted and enqueued for classification.
    New,
    /// Its candid was already persisted: nothing changed.
    Duplicate,
}

/// Whether `doc` is the primary document of `pkt`.
pub open spec fn is_primary_of(doc: PrimaryDoc, pkt: AlertPacket) -> bool {
    &&& doc.candid == pkt.candid
    &&& doc.object_id@ == pkt.object_id@
    &&& doc.programid == pkt.programid
    &&& doc.coordinates.hms@ == hms_seq(pkt.ra.units)
    &&& doc.coordinates.dms@ == dms_seq(pkt.dec.units)
    &&& doc.coordinates.geojson_lon_units == pkt.ra.units - RA_HALF_TURN
}

/// Whether `aux` is the aux document created for `pkt` with the given
/// catalog matches: the history arrives deduplicated.
pub open spec fn is_aux_of(aux: AuxDoc, pkt: AlertPacket, matches: Seq<CatalogMatches>) -> bool {
    &&& aux.object_id@ == pkt.object_id@
    &&& aux.prv_candidates@ == dedup_seq(pkt.prv_candidates@)
    &&& aux.cross_matches@ == matches
}

/// The whole effect of handling one decoded packet: either its candid was
/// known and nothing moved, or exactly one primary document appeared, the
/// object's aux document was created or extended with set semantics, and
/// the candid was enqueued for classification.
pub open spec fn alert_step(
    s0: AlertStore,
    q0: Seq<i64>,
    pkt: AlertPacket,
    matches: Seq<CatalogMatches>,
    s1: AlertStore,
    q1: Seq<i64>,
    out: ProcessOutcome,
) -> bool {
    if s0.has_candid(pkt.candid) {
        &&& out == ProcessOutcome::Duplicate
        &&& s1 == s0
        &&& q1 == q0
    } else {
        &&& out == ProcessOutcome::New
        &&& s1.primaries@.len() == s0.primaries@.len() + 1
        &&& s1.primaries@.drop_last() == s0.primaries@
        &&& is_primary_of(s1.primaries@.last(), pkt)
        &&& q1 == q0.insert(0, pkt.candid)
        &&& if s0.has_aux(pkt.object_id@) {
            &&& s1.auxes@.len() == s0.auxes@.len()
            &&& forall|i: int|
                0 <= i < s0.auxes@.len() && s0.auxes@[i].object_id@ != pkt.object_id@
                    ==> s1.auxes@[i] == s0.auxes@[i]
            &&& forall|i: int|
                0 <= i < s0.auxes@.len() && s0.auxes@[i].object_id@ == pkt.object_id@ ==> {
                    &&& (#[trigger] s1.auxes@[i]).object_id@ == pkt.object_id@
                    &&& s1.auxes@[i].prv_candidates@ == set_union_seq(
                        s0.auxes@[i].prv_candidates@,
                        pkt.prv_candidates@,
                    )
                    &&& s1.auxes@[i].cross_matches == s0.auxes@[i].cross_matches
                }
        } else {
            &&& s1.auxes@.len() == s0.auxes@.len() + 1
            &&& s1.auxes@.drop_last() == s0.auxes@
            &&& is_aux_of(s1.auxes@.last(), pkt, matches)
        }
    }
}

/// Handle one decoded packet: deduplicate by candid, persist the primary
/// document with its computed coordinates, create or set-extend the aux
/// document, and enqueue the candid for classification. `matches` is the
/// cross-match result used when the aux document is created.
pub fn process_alert(
    store: &mut AlertStore,
    broker: &mut Broker,
    pkt: &AlertPacket,
    matches: Vec<CatalogMatches>,
) -> (out: ProcessOutcome)
    requires
        old(store).wf(),
        old(broker).wf(),
        pkt.wf(),
    ensures
        final(store).wf(),
        final(broker).wf(),
        alert_step(
            *old(store),
            old(broker).classifier_queue@,
            *pkt,
            matches@,
            *final(store),
            final(broker).classifier_queue@,
            out,
        ),
        *final(broker) == (Broker {
            classifier_queue: final(broker).classifier_queue,
            ..*old(broker)
        }),
{
    if store.alert_exists(pkt.candid) {
        return ProcessOutcome::Duplicate;
    }
    let coordinates = pkt.get_coordinates();
    let doc = PrimaryDoc {
        candid: pkt.candid,
        object_id: copy_vec(&pkt.object_id),
        programid: pkt.programid,
        coordinates,
    };
    let _ = store.save_alert(doc);
    proof {
        assert(store.primaries@.drop_last() =~= old(store).primaries@);
    }
    let had_aux = store.alert_aux_exists(&pkt.object_id);
    if had_aux {
        let _ = store.update_alert_aux(&pkt.object_id, &pkt.prv_candidates);
    } else {
        let aux = AuxDoc {
            object_id: copy_vec(&pkt.object_id),
            prv_candidates: dedup_prv(&pkt.prv_candidates),
            cross_matches: matches,
        };
        let _ = store.save_alert_aux(aux);
        proof {
            assert(store.auxes@.drop_last() =~= old(store).auxes@);
        }
    }
    broker.enqueue_classifier(pkt.candid);
    ProcessOutcome::New
}

/// Handle one in-flight packet end to end: process the decoded form, then
/// drop the in-flight copy, which leaves the broker only after both
/// documents are persisted and the candid is enqueued.
#[verifier::rlimit(100)]
pub fn complete_packet(
    store: &mut AlertStore,
    broker: &mut Broker,
    bytes: &Vec<u8>,
    pkt: &AlertPacket,
    matches: Vec<CatalogMatches>,
) -> (out: ProcessOutcome)
    requires
        old(store).wf(),
        old(broker).wf(),
        pkt.wf(),
        old(broker).packet_queue_temp.deep_view().contains(bytes@),
    ensures
        final(store).wf(),
        final(broker).wf(),
        alert_step(
            *old(store),
            old(broker).classifier_queue@,
            *pkt,
            matches@,
            *final(store),
            final(broker).classifier_queue@,
            out,
        ),
        final(broker).packet_queue_temp.deep_view() == remove_first(
            old(broker).packet_queue_temp.deep_view(),
            bytes@,
        ),
        *final(broker) == (Broker {
            classifier_queue: final(broker).classifier_queue,
            packet_queue_temp: final(broker).packet_queue_temp,
            ..*old(broker)
        }),
{
    let out = process_alert(store, broker, pkt, matches);
    let ghost mid = *broker;
    proof {
        assert(mid.packet_queue_temp.deep_view() == old(broker).packet_queue_temp.deep_view());
    }
    broker.finish_packet(bytes, PacketDisposition::Done);
    proof {
        assert(broker.classifier_queue@ == mid.classifier_queue@);
    }
    out
}

/// The idempotence law: handling a fresh packet once persists it; the
/// same packet handled again is recognized as a duplicate and changes
/// nothing, so exactly one primary document exists, the aux documents are
/// exactly as the first pass left them, and the candid was enqueued once.
pub proof fn lemma_process_idempotent(
    s0: AlertStore,
    q0: Seq<i64>,
    pkt: AlertPacket,
    m1: Seq<CatalogMatches>,
    s1: AlertStore,
    q1: Seq<i64>,
    o1: ProcessOutcome,
    m2: Seq<CatalogMatches>,
    s2: AlertStore,
    q2: Seq<i64>,
    o2: ProcessOutcome,
)
    requires
        s0.wf(),
        !s0.has_candid(pkt.candid),
        alert_step(s0, q0, pkt, m1, s1, q1, o1),
        alert_step(s1, q1, pkt, m2, s2, q2, o2),
    ensures
        o1 == ProcessOutcome::New,
        o2 == ProcessOutcome::Duplicate,
        s2 == s1,
        q2 == q1,
        count_candid(s1.primaries@, pkt.candid) == 1,
        q1 == q0.insert(0, pkt.candid),
{
    let doc = s1.primaries@.last();
    assert(s1.primaries@[s1.primaries@.len() - 1].candid == pkt.candid);
    assert(s1.has_candid(pkt.candid));
    assert(count_candid(s1.primaries@, pkt.candid) == count_candid(s0.primaries@, pkt.candid) + 1)
        by {
        assert(s1.primaries@.drop_last() == s0.primaries@);
    }
    lemma_dedup_law(s0, pkt.candid);
}

/// The permission levels a candidate of `programid` is visible at.
pub open spec fn spec_visible(programid: i64, level: int) -> bool {
    1 <= level <= STREAM_COUNT && programid <= level
}

/// Route one classified candid: append it to the stream of every
/// permission level its program is visible at. The contract is the
/// visibility rule itself: stream `p` receives the candid exactly when
/// `p` is at or above the candidate's program level.
pub fn ml_route_candid(broker: &mut Broker, candid: i64, programid: i64)
    requires
        old(broker).wf(),
    ensures
        final(broker).wf(),
        forall|p: int|
            1 <= p <= STREAM_COUNT ==> (#[trigger] final(broker).streams@[p - 1])@ == if spec_visible(
                programid,
                p,
            ) {
                old(broker).streams@[p - 1]@.push(candid)
            } else {
                old(broker).streams@[p - 1]@
            },
        final(broker).groups@ == old(broker).groups@,
        *final(broker) == (Broker { streams: final(broker).streams, ..*old(broker) }),
{
    let mut level: usize = 1;
    while level <= STREAM_COUNT
        invariant
            1 <= level <= STREAM_COUNT + 1,
            broker.wf(),
            forall|p: int|
                1 <= p < level ==> (#[trigger] broker.streams@[p - 1])@ == if spec_visible(programid, p) {
                    old(broker).streams@[p - 1]@.push(candid)
                } else {
                    old(broker).streams@[p - 1]@
                },
            forall|p: int|
                level <= p <= STREAM_COUNT ==> (#[trigger] broker.streams@[p - 1])@ == old(
                    broker,
                ).streams@[p - 1]@,
            broker.groups@ == old(broker).groups@,
            *broker == (Broker { streams: broker.streams, ..*old(broker) }),
        decreases STREAM_COUNT + 1 - level,
    {
        if programid <= level as i64 {
            broker.stream_append(level, candid);
        }
        level += 1;
    }
}

/// The visibility law, over stream membership: after routing, a candid
/// the streams did not hold before appears on stream `p` exactly when
/// `p` is at or above its program level.
pub proof fn lemma_visibility(pre: Broker, post: Broker, candid: i64, programid: i64)
    requires
        forall|p: int|
            1 <= p <= STREAM_COUNT ==> (#[trigger] post.streams@[p - 1])@ == if spec_visible(programid, p) {
                pre.streams@[p - 1]@.push(candid)
            } else {
                pre.streams@[p - 1]@
            },
        forall|p: int|
            1 <= p <= STREAM_COUNT ==> !(#[trigger] pre.streams@[p - 1])@.contains(candid),
    ensures
        forall|p: int|
            1 <= p <= STREAM_COUNT ==> ((#[trigger] post.streams@[p - 1])@.contains(candid)
                <==> spec_visible(programid, p)),
{
    assert forall|p: int| 1 <= p <= STREAM_COUNT implies (post.streams@[p - 1]@.contains(candid)
        <==> spec_visible(programid, p)) by {
        if spec_visible(programid, p) {
            let s = pre.streams@[p - 1]@.push(candid);
            assert(s[s.len() - 1] == candid);
            assert(post.streams@[p - 1]@.contains(candid));
        } else {
            assert(post.streams@[p - 1]@ == pre.streams@[p - 1]@);
        }
    }
}

/// Prepend the batch-restriction stage to a filter's aggregation
/// pipeline: the persisted stages run unchanged behind it.
pub fn with_match_stage(pipeline: &Vec<Vec<u8>>, match_stage: Vec<u8>) -> (r: Vec<Vec<u8>>)
    ensures
        r.deep_view() == pipeline.deep_view().insert(0, match_stage@),
{
    let ghost ms = match_stage@;
    let mut out: Vec<Vec<u8>> = Vec::new();
    out.push(match_stage);
    proof {
        assert(out.deep_view() =~= seq![ms] + pipeline.deep_view().take(0));
    }
    let n = pipeline.len();
    for i in 0..n
        invariant
            n == pipeline@.len(),
            out.deep_view() == seq![ms] + pipeline.deep_view().take(i as int),
    {
        let ghost prev = out.deep_view();
        out.push(copy_vec(&pipeline[i]));
        proof {
            let cur = out.deep_view();
            assert(cur.len() == prev.len() + 1);
            assert(forall|j: int| 0 <= j < prev.len() ==> cur[j] == prev[j]);
            assert(cur[prev.len() as int] == pipeline.deep_view()[i as int]);
            assert(cur =~= seq![ms] + pipeline.deep_view().take(i as int + 1));
        }
    }
    proof {
        assert(out.deep_view() =~= pipeline.deep_view().insert(0, ms));
    }
    out
}

} // verus!
