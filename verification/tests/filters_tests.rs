//! Filter building, permission grouping, and broker key names.

use boom::filters::{
    group_by_permission, group_key, results_key, stream_key, Filter, FilterBuildError,
};

fn filter(id: i64, permissions: Vec<i64>) -> Filter {
    Filter::build(
        id,
        b"ZTF_alerts".to_vec(),
        permissions,
        vec![b"{\"$match\": {}}".to_vec()],
    )
    .expect("filter parts are valid")
}

#[test]
fn build_rejects_empty_permissions() {
    let r = Filter::build(1, b"ZTF_alerts".to_vec(), vec![], vec![b"{}".to_vec()]);
    assert!(matches!(r, Err(FilterBuildError::NoPermissions)));
}

#[test]
fn build_rejects_empty_pipeline() {
    let r = Filter::build(1, b"ZTF_alerts".to_vec(), vec![1], vec![]);
    assert!(matches!(r, Err(FilterBuildError::EmptyPipeline)));
}

#[test]
fn max_permission_is_the_largest_level() {
    let f = filter(1, vec![1, 3, 2]);
    assert_eq!(f.max_permission(), 3);
    let g = filter(2, vec![2]);
    assert_eq!(g.max_permission(), 2);
}

#[test]
fn grouping_buckets_by_highest_level() {
    let fs = vec![
        filter(1, vec![1, 2]),
        filter(2, vec![1]),
        filter(3, vec![2]),
        filter(4, vec![1, 2]),
    ];
    let groups = group_by_permission(fs);
    assert_eq!(groups.len(), 2);
    let g2 = groups.iter().find(|g| g.level == 2).unwrap();
    let g1 = groups.iter().find(|g| g.level == 1).unwrap();
    let ids2: Vec<i64> = g2.filters.iter().map(|f| f.id).collect();
    let ids1: Vec<i64> = g1.filters.iter().map(|f| f.id).collect();
    assert_eq!(ids2, vec![1, 3, 4]);
    assert_eq!(ids1, vec![2]);
}

#[test]
fn stream_key_name() {
    let key = stream_key(&b"ZTF_alerts".to_vec(), 1);
    assert_eq!(key, b"ZTF_alerts_programid_1_filter_stream".to_vec());
}

#[test]
fn group_and_results_key_names() {
    assert_eq!(group_key(7), b"filter_7_group".to_vec());
    assert_eq!(results_key(7), b"filter_7_results".to_vec());
    // Test filters carry a negative identifier.
    assert_eq!(results_key(-1), b"filter_-1_results".to_vec());
    assert_eq!(group_key(-1), b"filter_-1_group".to_vec());
}

#[test]
fn broker_list_key_names() {
    let stream = b"ZTF".to_vec();
    assert_eq!(boom::broker::packet_queue_key(&stream), b"ZTF_alerts_packet_queue".to_vec());
    assert_eq!(boom::broker::packet_temp_key(&stream), b"ZTF_alerts_packet_queue_temp".to_vec());
    assert_eq!(
        boom::broker::dead_letter_key(&stream),
        b"ZTF_alerts_packet_queue_dead_letter".to_vec()
    );
    assert_eq!(
        boom::broker::classifier_queue_key(&stream),
        b"ZTF_alerts_classifier_queue".to_vec()
    );
}

#[test]
fn match_stage_is_prepended() {
    let stages = vec![b"{\"$project\": {}}".to_vec(), b"{\"$lookup\": {}}".to_vec()];
    let q = boom::pipeline::with_match_stage(&stages, b"{\"$match\": {\"candid\": []}}".to_vec());
    assert_eq!(q.len(), 3);
    assert_eq!(q[0], b"{\"$match\": {\"candid\": []}}".to_vec());
    assert_eq!(q[1], stages[0]);
    assert_eq!(q[2], stages[1]);
}
