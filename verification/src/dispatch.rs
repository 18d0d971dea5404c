//! Bookkeeping of the job dispatcher that load-balances work over a set
//! of connected workers.
//!
//! Workers announce themselves, disappear, and report finished jobs; the
//! dispatcher tracks each worker's outstanding jobs and hands the next
//! job to a least-loaded worker that is under the per-worker cap. The
//! socket traffic around these decisions stays with the caller.

use vstd::prelude::*;

use crate::seqtools::{bytes_eq, copy_vec};

verus! {

/// One unit of outstanding work.
pub struct Job {
    pub id: Vec<u8>,
    pub payload: Vec<u8>,
}

/// A connected worker and its outstanding jobs.
pub struct JobWorker {
    pub id: Vec<u8>,
    pub jobs: Vec<Job>,
}

/// The dispatcher's state.
pub struct Dispatcher {
    pub workers: Vec<JobWorker>,
    pub max_jobs_per_worker: usize,
}

/// `s` with the first job of identifier `id` removed; unchanged when no
/// job has it.
pub open spec fn remove_first_job(s: Seq<Job>, id: Seq<u8>) -> Seq<Job>
    decreases s.len(),
{
    if s.len() == 0 {
        s
    } else if s.first().id@ == id {
        s.drop_first()
    } else {
        seq![s.first()] + remove_first_job(s.drop_first(), id)
    }
}

/// Removing the first matching job at its index.
proof fn lemma_remove_first_job_at(s: Seq<Job>, id: Seq<u8>, i: int)
    requires
        0 <= i < s.len(),
        s[i].id@ == id,
        forall|j: int| 0 <= j < i ==> s[j].id@ != id,
    ensures
        remove_first_job(s, id) == s.remove(i),
    decreases i,
{
    if i == 0 {
        assert(s.drop_first() =~= s.remove(0));
    } else {
        let rest = s.drop_first();
        assert(rest[i - 1].id@ == id);
        assert(forall|j: int| 0 <= j < i - 1 ==> rest[j] == s[j + 1] && rest[j].id@ != id);
        lemma_remove_first_job_at(rest, id, i - 1);
        assert(seq![s.first()] + rest.remove(i - 1) =~= s.remove(i));
    }
}

/// No job carries the identifier: removal changes nothing.
proof fn lemma_remove_first_job_none(s: Seq<Job>, id: Seq<u8>)
    requires
        forall|j: int| 0 <= j < s.len() ==> s[j].id@ != id,
    ensures
        remove_first_job(s, id) == s,
    decreases s.len(),
{
    if s.len() > 0 {
        let rest = s.drop_first();
        assert(forall|j: int| 0 <= j < rest.len() ==> rest[j] == s[j + 1] && rest[j].id@ != id);
        lemma_remove_first_job_none(rest, id);
        assert(seq![s.first()] + rest =~= s);
    }
}

impl Dispatcher {
    /// Worker identifiers are unique.
    pub open spec fn wf(self) -> bool {
        forall|i: int, j: int|
            0 <= i < j < self.workers@.len() ==> self.workers@[i].id@ != self.workers@[j].id@
    }

    /// Whether a worker with this identifier is connected.
    pub open spec fn has_worker(self, id: Seq<u8>) -> bool {
        exists|i: int| 0 <= i < self.workers@.len() && self.workers@[i].id@ == id
    }

    /// A dispatcher with no workers.
    pub fn new(max_jobs_per_worker: usize) -> (r: Dispatcher)
        ensures
            r.wf(),
            r.workers@.len() == 0,
            r.max_jobs_per_worker == max_jobs_per_worker,
    {
        Dispatcher { workers: Vec::new(), max_jobs_per_worker }
    }

    /// A worker announced itself: register it with no outstanding jobs,
    /// or ignore the announcement when the identifier is already
    /// connected.
    pub fn connect(&mut self, worker_id: &Vec<u8>) -> (added: bool)
        requires
            old(self).wf(),
        ensures
            final(self).wf(),
            final(self).max_jobs_per_worker == old(self).max_jobs_per_worker,
            added == !old(self).has_worker(worker_id@),
            !added ==> final(self).workers@ == old(self).workers@,
            added ==> final(self).workers@.len() == old(self).workers@.len() + 1
                && final(self).workers@.drop_last() == old(self).workers@
                && final(self).workers@.last().id@ == worker_id@
                && final(self).workers@.last().jobs@.len() == 0,
    {
        let n = self.workers.len();
        let mut idx: usize = n;
        for i in 0..n
            invariant
                n == self.workers@.len(),
                idx <= n,
                idx == n ==> forall|j: int| 0 <= j < i ==> self.workers@[j].id@ != worker_id@,
                idx < n ==> self.workers@[idx as int].id@ == worker_id@,
                *self == *old(self),
        {
            if idx == n && bytes_eq(&self.workers[i].id, worker_id) {
                idx = i;
            }
        }
        if idx < n {
            return false;
        }
        self.workers.push(JobWorker { id: copy_vec(worker_id), jobs: Vec::new() });
        proof {
            assert(self.workers@.drop_last() =~= old(self).workers@);
            assert(self.workers@[self.workers@.len() - 1].id@ == worker_id@);
        }
        true
    }

    /// A worker said goodbye: forget it and its jobs; an unknown
    /// identifier is ignored.
    pub fn disconnect(&mut self, worker_id: &Vec<u8>) -> (removed: bool)
        requires
            old(self).wf(),
        ensures
            final(self).wf(),
            final(self).max_jobs_per_worker == old(self).max_jobs_per_worker,
            removed == old(self).has_worker(worker_id@),
            !removed ==> final(self).workers@ == old(self).workers@,
            removed ==> exists|i: int|
                {
                    &&& 0 <= i < old(self).workers@.len()
                    &&& (#[trigger] old(self).workers@[i]).id@ == worker_id@
                    &&& final(self).workers@ == old(self).workers@.remove(i)
                },
            !final(self).has_worker(worker_id@),
    {
        let n = self.workers.len();
        let mut idx: usize = n;
        for i in 0..n
            invariant
                n == self.workers@.len(),
                idx <= n,
                idx == n ==> forall|j: int| 0 <= j < i ==> self.workers@[j].id@ != worker_id@,
                idx < n ==> self.workers@[idx as int].id@ == worker_id@,
                *self == *old(self),
        {
            if idx == n && bytes_eq(&self.workers[i].id, worker_id) {
                idx = i;
            }
        }
        if idx == n {
            return false;
        }
        let _ = self.workers.remove(idx);
        proof {
            assert forall|i: int| 0 <= i < self.workers@.len() implies self.workers@[i].id@
                != worker_id@ by {
                if i < idx {
                    assert(self.workers@[i] == old(self).workers@[i]);
                } else {
                    assert(self.workers@[i] == old(self).workers@[i + 1]);
                }
            }
        }
        true
    }

    /// A worker finished a job: drop the first job of that identifier
    /// from its list. Unknown workers and unknown jobs are ignored.
    pub fn job_done(&mut self, worker_id: &Vec<u8>, job_id: &Vec<u8>)
        requires
            old(self).wf(),
        ensures
            final(self).wf(),
            final(self).max_jobs_per_worker == old(self).max_jobs_per_worker,
            final(self).workers@.len() == old(self).workers@.len(),
            forall|i: int|
                0 <= i < old(self).workers@.len() ==> {
                    let w0 = #[trigger] old(self).workers@[i];
                    let w1 = final(self).workers@[i];
                    if w0.id@ == worker_id@ {
                        w1.id == w0.id && w1.jobs@ == remove_first_job(w0.jobs@, job_id@)
                    } else {
                        w1 == w0
                    }
                },
    {
        let n = self.workers.len();
        let mut idx: usize = n;
        for i in 0..n
            invariant
                n == self.workers@.len(),
                idx <= n,
                idx == n ==> forall|j: int| 0 <= j < i ==> self.workers@[j].id@ != worker_id@,
                idx < n ==> self.workers@[idx as int].id@ == worker_id@,
                *self == *old(self),
        {
            if idx == n && bytes_eq(&self.workers[i].id, worker_id) {
                idx = i;
            }
        }
        if idx == n {
            return ;
        }
        let ghost before = self.workers@;
        let mut w = self.workers.remove(idx);
        let m = w.jobs.len();
        let mut jpos: usize = m;
        for j in 0..m
            invariant
                m == w.jobs@.len(),
                jpos <= m,
                jpos == m ==> forall|k: int| 0 <= k < j ==> w.jobs@[k].id@ != job_id@,
                jpos < m ==> jpos < j && w.jobs@[jpos as int].id@ == job_id@ && forall|k: int|
                    0 <= k < jpos ==> w.jobs@[k].id@ != job_id@,
        {
            if jpos == m && bytes_eq(&w.jobs[j].id, job_id) {
                jpos = j;
            }
        }
        let ghost oldjobs = w.jobs@;
        if jpos < m {
            let _ = w.jobs.remove(jpos);
            proof {
                lemma_remove_first_job_at(oldjobs, job_id@, jpos as int);
            }
        } else {
            proof {
                lemma_remove_first_job_none(oldjobs, job_id@);
            }
        }
        self.workers.insert(idx, w);
        proof {
            assert(self.workers@ =~= before.update(idx as int, self.workers@[idx as int]));
            assert forall|i: int|
                0 <= i < before.len() && before[i].id@ == worker_id@ implies i == idx as int by {
                if i != idx {
                    assert(before[i].id@ != before[idx as int].id@);
                }
            }
        }
    }

    /// A least-loaded worker under the per-worker cap, if any: the next
    /// job goes to it. Ties are broken arbitrarily.
    pub fn next_worker(&self) -> (r: Option<Vec<u8>>)
        ensures
            match r {
                Some(id) => exists|i: int|
                    {
                        &&& 0 <= i < self.workers@.len()
                        &&& (#[trigger] self.workers@[i]).id@ == id@
                        &&& self.workers@[i].jobs@.len() < self.max_jobs_per_worker
                        &&& forall|j: int|
                            0 <= j < self.workers@.len() ==> self.workers@[i].jobs@.len()
                                <= (#[trigger] self.workers@[j]).jobs@.len()
                    },
                None => forall|i: int|
                    0 <= i < self.workers@.len() ==> (#[trigger] self.workers@[i]).jobs@.len()
                        >= self.max_jobs_per_worker,
            },
    {
        let n = self.workers.len();
        if n == 0 {
            return None;
        }
        let mut best: usize = 0;
        for i in 1..n
            invariant
                n == self.workers@.len(),
                best < n,
                forall|j: int|
                    0 <= j < i ==> self.workers@[best as int].jobs@.len()
                        <= (#[trigger] self.workers@[j]).jobs@.len(),
        {
            if self.workers[i].jobs.len() < self.workers[best].jobs.len() {
                best = i;
            }
        }
        if self.workers[best].jobs.len() < self.max_jobs_per_worker {
            Some(copy_vec(&self.workers[best].id))
        } else {
            None
        }
    }

    /// Hand a job to a connected worker; the job joins its list. An
    /// unknown identifier loses the job, as a send to a vanished peer
    /// does.
    pub fn assign(&mut self, worker_id: &Vec<u8>, job: Job) -> (sent: bool)
        requires
            old(self).wf(),
        ensures
            final(self).wf(),
            final(self).max_jobs_per_worker == old(self).max_jobs_per_worker,
            sent == old(self).has_worker(worker_id@),
            final(self).workers@.len() == old(self).workers@.len(),
            forall|i: int|
                0 <= i < old(self).workers@.len() ==> {
                    let w0 = #[trigger] old(self).workers@[i];
                    let w1 = final(self).workers@[i];
                    if w0.id@ == worker_id@ {
                        w1.id == w0.id && w1.jobs@ == w0.jobs@.push(job)
                    } else {
                        w1 == w0
                    }
                },
    {
        let n = self.workers.len();
        let mut idx: usize = n;
        for i in 0..n
            invariant
                n == self.workers@.len(),
                idx <= n,
                idx == n ==> forall|j: int| 0 <= j < i ==> self.workers@[j].id@ != worker_id@,
                idx < n ==> self.workers@[idx as int].id@ == worker_id@,
                *self == *old(self),
        {
            if idx == n && bytes_eq(&self.workers[i].id, worker_id) {
                idx = i;
            }
        }
        if idx == n {
            return false;
        }
        let ghost before = self.workers@;
        let mut w = self.workers.remove(idx);
        w.jobs.push(job);
        self.workers.insert(idx, w);
        proof {
            assert(self.workers@ =~= before.update(idx as int, self.workers@[idx as int]));
            assert forall|i: int|
                0 <= i < before.len() && before[i].id@ == worker_id@ implies i == idx as int by {
                if i != idx {
                    assert(before[i].id@ != before[idx as int].id@);
                }
            }
        }
        true
    }
}

} // verus!
