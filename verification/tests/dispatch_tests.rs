//! The job dispatcher: registration, load balancing, and completion.

use boom::dispatch::{Dispatcher, Job};

fn job(id: &str) -> Job {
    Job { id: id.as_bytes().to_vec(), payload: b"Hello, World!".to_vec() }
}

#[test]
fn connect_is_idempotent() {
    let mut d = Dispatcher::new(10);
    assert!(d.connect(&b"w1".to_vec()));
    assert!(!d.connect(&b"w1".to_vec()));
    assert_eq!(d.workers.len(), 1);
}

#[test]
fn disconnect_forgets_worker() {
    let mut d = Dispatcher::new(10);
    d.connect(&b"w1".to_vec());
    d.connect(&b"w2".to_vec());
    assert!(d.disconnect(&b"w1".to_vec()));
    assert_eq!(d.workers.len(), 1);
    assert_eq!(d.workers[0].id, b"w2".to_vec());
    assert!(!d.disconnect(&b"w1".to_vec()));
}

#[test]
fn next_worker_prefers_least_loaded() {
    let mut d = Dispatcher::new(10);
    d.connect(&b"w1".to_vec());
    d.connect(&b"w2".to_vec());
    assert!(d.assign(&b"w1".to_vec(), job("j1")));
    let next = d.next_worker().expect("a worker is under the cap");
    assert_eq!(next, b"w2".to_vec());
}

#[test]
fn next_worker_respects_cap() {
    let mut d = Dispatcher::new(2);
    d.connect(&b"w1".to_vec());
    assert!(d.assign(&b"w1".to_vec(), job("j1")));
    assert!(d.assign(&b"w1".to_vec(), job("j2")));
    assert!(d.next_worker().is_none());
}

#[test]
fn next_worker_none_without_workers() {
    let d = Dispatcher::new(10);
    assert!(d.next_worker().is_none());
}

#[test]
fn job_done_removes_first_match() {
    let mut d = Dispatcher::new(10);
    d.connect(&b"w1".to_vec());
    d.assign(&b"w1".to_vec(), job("j1"));
    d.assign(&b"w1".to_vec(), job("j2"));
    d.job_done(&b"w1".to_vec(), &b"j1".to_vec());
    assert_eq!(d.workers[0].jobs.len(), 1);
    assert_eq!(d.workers[0].jobs[0].id, b"j2".to_vec());
    // Unknown job and unknown worker are ignored.
    d.job_done(&b"w1".to_vec(), &b"j9".to_vec());
    d.job_done(&b"w9".to_vec(), &b"j2".to_vec());
    assert_eq!(d.workers[0].jobs.len(), 1);
}

#[test]
fn assign_to_vanished_worker_is_lost() {
    let mut d = Dispatcher::new(10);
    assert!(!d.assign(&b"w9".to_vec(), job("j1")));
}
