//! End-to-end scenarios over the store and broker models: ingest,
//! deduplication, follow-ups, stream visibility, filter fanout, the
//! in-flight packet protocol, and pool shutdown.

use boom::alert::{AlertPacket, PrvEntry};
use boom::broker::{Broker, PacketDisposition};
use boom::coords::{Declination, RightAscension, RA_UNITS_PER_DEGREE};
use boom::pipeline::{complete_packet, ml_route_candid, process_alert, ProcessOutcome};
use boom::pool::{PoolState, WorkerKind, WorkerPhase};
use boom::store::AlertStore;

fn packet(candid: i64, object_id: &str, ra_deg: f64, programid: i64, prv: Vec<PrvEntry>) -> AlertPacket {
    AlertPacket {
        schema_version: b"4.02".to_vec(),
        publisher: b"ZTF".to_vec(),
        object_id: object_id.as_bytes().to_vec(),
        candid,
        programid,
        ra: RightAscension { units: (ra_deg * RA_UNITS_PER_DEGREE as f64).round() as u64 },
        dec: Declination { units: 0 },
        prv_candidates: prv,
    }
}

#[test]
fn single_new_alert() {
    // One packet, candid 1001 on object ZTF0001 at (180.0, 0.0) with
    // program 1: one primary, one aux with an empty history, the candid
    // queued once, and after routing it reaches all three streams.
    let mut store = AlertStore::new();
    let mut broker = Broker::new();
    let pkt = packet(1001, "ZTF0001", 180.0, 1, vec![]);
    let out = process_alert(&mut store, &mut broker, &pkt, vec![]);
    assert_eq!(out, ProcessOutcome::New);
    assert_eq!(store.primaries.len(), 1);
    assert_eq!(store.auxes.len(), 1);
    assert_eq!(store.primaries[0].candid, 1001);
    assert_eq!(store.primaries[0].object_id, b"ZTF0001".to_vec());
    assert_eq!(store.primaries[0].coordinates.hms, b"12:00:00.0000".to_vec());
    assert_eq!(store.primaries[0].coordinates.dms, b"00:00:00.000".to_vec());
    assert_eq!(store.primaries[0].coordinates.geojson_lon_units, 0);
    assert!(store.auxes[0].prv_candidates.is_empty());
    assert_eq!(broker.classifier_queue, vec![1001]);

    let batch = broker.pop_classifier_batch(1000);
    assert_eq!(batch, vec![1001]);
    ml_route_candid(&mut broker, 1001, 1);
    for p in 0..3 {
        assert_eq!(broker.streams[p], vec![1001], "stream {}", p + 1);
    }
}

#[test]
fn duplicate_packet_changes_nothing() {
    // The same packet twice: one primary, one aux, the classifier queue
    // holds the candid once; the second pass takes the duplicate exit.
    let mut store = AlertStore::new();
    let mut broker = Broker::new();
    let pkt = packet(1001, "ZTF0001", 180.0, 1, vec![]);
    let first = process_alert(&mut store, &mut broker, &pkt, vec![]);
    let second = process_alert(&mut store, &mut broker, &pkt, vec![]);
    assert_eq!(first, ProcessOutcome::New);
    assert_eq!(second, ProcessOutcome::Duplicate);
    assert_eq!(store.primaries.len(), 1);
    assert_eq!(store.auxes.len(), 1);
    assert_eq!(store.count_primaries(1001), 1);
    assert_eq!(broker.classifier_queue, vec![1001]);
    assert!(store.auxes[0].prv_candidates.is_empty());
}

#[test]
fn follow_up_alert_extends_history_once() {
    // A follow-up on the same object with one prior detection: two
    // primaries, one aux whose history holds the entry exactly once,
    // even when the history is appended again.
    let mut store = AlertStore::new();
    let mut broker = Broker::new();
    let first = packet(1001, "ZTF0001", 180.0, 1, vec![]);
    let prior = PrvEntry { candid: 999, jd_micro: 0 };
    let follow = packet(1002, "ZTF0001", 180.0, 1, vec![prior, prior]);
    let _ = process_alert(&mut store, &mut broker, &first, vec![]);
    let out = process_alert(&mut store, &mut broker, &follow, vec![]);
    assert_eq!(out, ProcessOutcome::New);
    assert_eq!(store.primaries.len(), 2);
    assert_eq!(store.auxes.len(), 1);
    let occurrences = store.auxes[0]
        .prv_candidates
        .iter()
        .filter(|e| e.candid == 999)
        .count();
    assert_eq!(occurrences, 1);

    // A second follow-up carrying the same prior adds nothing.
    let again = packet(1003, "ZTF0001", 180.0, 1, vec![prior]);
    let _ = process_alert(&mut store, &mut broker, &again, vec![]);
    assert_eq!(store.auxes[0].prv_candidates.len(), 1);
}

#[test]
fn visibility_gate() {
    // candid 1003 with program 2 appears on streams 2 and 3, not 1.
    let mut broker = Broker::new();
    ml_route_candid(&mut broker, 1003, 2);
    assert!(broker.streams[0].is_empty());
    assert_eq!(broker.streams[1], vec![1003]);
    assert_eq!(broker.streams[2], vec![1003]);
}

#[test]
fn filter_fanout_reads_each_candid_once() {
    // Two filters at permission 3; ten candids on stream 3: each group
    // reads all ten exactly once, and each filter's output list holds
    // what its pipeline returned.
    let mut broker = Broker::new();
    for c in 0..10 {
        broker.stream_append(3, 1000 + c);
    }
    assert!(broker.ensure_group(3, 7));
    assert!(broker.ensure_group(3, 8));
    // Recreating an existing group is not an error.
    assert!(!broker.ensure_group(3, 7));

    let batch7 = broker.read_group(3, 7, 100);
    let batch8 = broker.read_group(3, 8, 100);
    let want: Vec<i64> = (0..10).map(|c| 1000 + c).collect();
    assert_eq!(batch7, want);
    assert_eq!(batch8, want);

    // Nothing is redelivered.
    assert!(broker.read_group(3, 7, 100).is_empty());
    assert!(broker.read_group(3, 8, 100).is_empty());

    // Each filter pushes its selected documents onto its own list.
    let results7: Vec<Vec<u8>> = vec![b"doc-a".to_vec(), b"doc-b".to_vec()];
    let results8: Vec<Vec<u8>> = vec![b"doc-c".to_vec()];
    broker.push_results(7, &results7);
    broker.push_results(8, &results8);
    let q7 = broker.filter_results.iter().find(|q| q.filter_id == 7).unwrap();
    let q8 = broker.filter_results.iter().find(|q| q.filter_id == 8).unwrap();
    assert_eq!(q7.items.len(), 2);
    assert_eq!(q8.items.len(), 1);
    // A multi-value left push lands in reverse order.
    assert_eq!(q7.items[0], b"doc-b".to_vec());
    assert_eq!(q7.items[1], b"doc-a".to_vec());
}

#[test]
fn batched_stream_reads_stay_in_order() {
    let mut broker = Broker::new();
    for c in 0..10 {
        broker.stream_append(2, c);
    }
    broker.ensure_group(2, 1);
    let first = broker.read_group(2, 1, 4);
    let second = broker.read_group(2, 1, 4);
    let third = broker.read_group(2, 1, 4);
    assert_eq!(first, vec![0, 1, 2, 3]);
    assert_eq!(second, vec![4, 5, 6, 7]);
    assert_eq!(third, vec![8, 9]);
}

#[test]
fn in_flight_packet_protocol() {
    // A packet moves to the in-flight list when taken, and leaves it
    // exactly once: dropped on success, pushed back on a transient
    // failure, dead-lettered on a fatal one.
    let mut broker = Broker::new();
    broker.publish_packet(b"pkt-1".to_vec());
    broker.publish_packet(b"pkt-2".to_vec());

    let taken = broker.take_packet().expect("queue holds packets");
    assert_eq!(taken, b"pkt-1".to_vec());
    assert_eq!(broker.packet_queue.len(), 1);
    assert_eq!(broker.packet_queue_temp.len(), 1);

    broker.finish_packet(&taken, PacketDisposition::Requeue);
    assert_eq!(broker.packet_queue.len(), 2);
    assert!(broker.packet_queue_temp.is_empty());
    assert_eq!(broker.packet_queue[0], b"pkt-1".to_vec());

    let taken2 = broker.take_packet().expect("queue holds packets");
    assert_eq!(taken2, b"pkt-2".to_vec());
    broker.finish_packet(&taken2, PacketDisposition::DeadLetter);
    assert_eq!(broker.dead_letter.len(), 1);
    assert_eq!(broker.packet_queue.len(), 1);
    assert!(broker.packet_queue_temp.is_empty());
}

#[test]
fn recovery_returns_in_flight_packets() {
    let mut broker = Broker::new();
    broker.publish_packet(b"a".to_vec());
    broker.publish_packet(b"b".to_vec());
    let _ = broker.take_packet();
    let _ = broker.take_packet();
    assert_eq!(broker.packet_queue_temp.len(), 2);
    assert!(broker.packet_queue.is_empty());
    broker.recover_temp();
    assert!(broker.packet_queue_temp.is_empty());
    assert_eq!(broker.packet_queue.len(), 2);
}

#[test]
fn complete_packet_drops_in_flight_copy() {
    let mut store = AlertStore::new();
    let mut broker = Broker::new();
    broker.publish_packet(b"raw".to_vec());
    let bytes = broker.take_packet().unwrap();
    let pkt = packet(42, "ZTF0042", 90.0, 1, vec![]);
    let out = complete_packet(&mut store, &mut broker, &bytes, &pkt, vec![]);
    assert_eq!(out, ProcessOutcome::New);
    assert!(broker.packet_queue_temp.is_empty());
    assert_eq!(broker.classifier_queue, vec![42]);
    assert_eq!(store.primaries.len(), 1);
}

#[test]
fn shutdown_exits_every_worker() {
    let mut pool = PoolState::new(WorkerKind::Alert, 3);
    let n = pool.workers.len();
    assert!(n >= 1);
    pool.shutdown();
    assert_eq!(pool.workers.len(), n);
    for w in pool.workers.iter() {
        assert_eq!(w.phase, WorkerPhase::Exited);
    }
}

#[test]
fn worker_ids_are_uuid_strings() {
    let pool = PoolState::new(WorkerKind::Ml, 3);
    for w in pool.workers.iter() {
        assert_eq!(w.id.len(), 36);
    }
    // Identifiers are distinct across the pool.
    for i in 0..pool.workers.len() {
        for j in (i + 1)..pool.workers.len() {
            assert_ne!(pool.workers[i].id, pool.workers[j].id);
        }
    }
}

#[test]
fn remove_worker_terminates_one() {
    let mut pool = PoolState::new(WorkerKind::Filter, 2);
    let victim = pool.workers[0].id.clone();
    assert!(pool.remove_worker(&victim));
    assert_eq!(pool.workers[0].inbox, Some(boom::pool::WorkerCmd::Terminate));
    assert!(!pool.workers[0].channel_open);
    let mut w0 = pool.workers.remove(0);
    assert!(w0.poll());
    assert_eq!(w0.phase, WorkerPhase::Exited);
    // The untouched worker keeps running through a poll.
    let mut w1 = pool.workers.remove(0);
    assert!(!w1.poll());
    assert_eq!(w1.phase, WorkerPhase::Running);
}
