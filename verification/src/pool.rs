//! The worker pool's bookkeeping and the cooperative-shutdown protocol.
//!
//! A pool owns one command channel per worker; the only command is
//! `Terminate`. A worker polls its channel once per loop iteration and
//! exits when it reads the command or finds the channel closed. The
//! thread handles themselves live with the caller that spawns the
//! threads; the state here is what the shutdown argument is about: after
//! terminate commands are sent to every worker, the next poll of each
//! worker ends it.

use vstd::prelude::*;

verus! {

/// The only command a pool sends its workers.
#[derive(Clone, Copy, Debug, PartialEq, Eq, Structural)]
pub enum WorkerCmd {
    Terminate,
}

/// The worker kinds a pool can host.
#[derive(Clone, Copy, Debug, PartialEq, Eq, Structural)]
pub enum WorkerKind {
    Alert,
    Ml,
    Filter,
}

/// Where one worker stands in its life cycle.
#[derive(Clone, Copy, Debug, PartialEq, Eq, Structural)]
pub enum WorkerPhase {
    Running,
    Exited,
}

/// One worker's slot in the pool: its identifier, its phase, the single
/// in-flight command of its channel, and whether the pool still holds
/// the channel's sender.
pub struct WorkerSlot {
    pub id: Vec<u8>,
    pub phase: WorkerPhase,
    pub inbox: Option<WorkerCmd>,
    pub channel_open: bool,
}

/// Relies on uuid's `new_v4` and its hyphenated `Display` form: a fresh
/// identifier of 36 ASCII characters. The value is random, so nothing
/// more is assumed of it.
#[verifier::external_body]
fn random_worker_id() -> (r: Vec<u8>)
    ensures
        r@.len() == 36,
{
    uuid::Uuid::new_v4().to_string().into_bytes()
}

/// Whether a polled worker keeps running: it stops on a terminate
/// command, or when the channel is closed.
pub open spec fn spec_keeps_running(inbox: Option<WorkerCmd>, channel_open: bool) -> bool {
    inbox != Some(WorkerCmd::Terminate) && channel_open
}

impl WorkerSlot {
    /// One loop-top poll of the command channel: the worker reads and
    /// clears the in-flight command, and exits exactly when it was
    /// `Terminate` or the channel is closed.
    pub fn poll(&mut self) -> (exited: bool)
        ensures
            final(self).id == old(self).id,
            final(self).channel_open == old(self).channel_open,
            final(self).inbox is None,
            exited == !spec_keeps_running(old(self).inbox, old(self).channel_open),
            final(self).phase == if exited {
                WorkerPhase::Exited
            } else {
                old(self).phase
            },
    {
        let cmd = self.inbox;
        self.inbox = None;
        let stop = match cmd {
            Some(WorkerCmd::Terminate) => true,
            None => !self.channel_open,
        };
        proof {
            assert(cmd == old(self).inbox);
            if cmd is Some {
                assert(cmd == Some(WorkerCmd::Terminate));
                assert(stop);
            }
            assert(stop == !spec_keeps_running(old(self).inbox, old(self).channel_open));
        }
        if stop {
            self.phase = WorkerPhase::Exited;
        }
        stop
    }
}

/// A pool of workers of one kind.
pub struct PoolState {
    pub kind: WorkerKind,
    pub workers: Vec<WorkerSlot>,
}

impl PoolState {
    /// Worker identifiers are unique.
    pub open spec fn wf(self) -> bool {
        forall|i: int, j: int|
            0 <= i < j < self.workers@.len() ==> self.workers@[i].id@ != self.workers@[j].id@
    }

    /// Whether a worker with this identifier is in the pool.
    pub open spec fn has_worker(self, id: Seq<u8>) -> bool {
        exists|i: int| 0 <= i < self.workers@.len() && self.workers@[i].id@ == id
    }

    /// All workers have exited.
    pub open spec fn all_exited(self) -> bool {
        forall|i: int|
            0 <= i < self.workers@.len() ==> (#[trigger] self.workers@[i]).phase
                == WorkerPhase::Exited
    }

    /// Spawn a pool of `size` workers, each with a fresh channel.
    pub fn new(kind: WorkerKind, size: usize) -> (r: PoolState)
        requires
            size > 0,
        ensures
            r.wf(),
            r.kind == kind,
            r.workers@.len() <= size,
            r.workers@.len() > 0,
            forall|i: int|
                0 <= i < r.workers@.len() ==> (#[trigger] r.workers@[i]).phase
                    == WorkerPhase::Running && r.workers@[i].inbox is None
                    && r.workers@[i].channel_open,
    {
        let mut pool = PoolState { kind, workers: Vec::new() };
        for n in 0..size
            invariant
                pool.wf(),
                pool.kind == kind,
                pool.workers@.len() <= n,
                forall|i: int|
                    0 <= i < pool.workers@.len() ==> (#[trigger] pool.workers@[i]).phase
                        == WorkerPhase::Running && pool.workers@[i].inbox is None
                        && pool.workers@[i].channel_open,
        {
            let _ = pool.add_worker();
        }
        if pool.workers.len() == 0 {
            let _ = pool.add_worker();
        }
        pool
    }

    /// Add one worker under a fresh random identifier. In the vanishing
    /// case that the identifier collides with a present worker, the new
    /// worker replaces the old entry, as a keyed insert does.
    pub fn add_worker(&mut self) -> (id: Vec<u8>)
        requires
            old(self).wf(),
        ensures
            final(self).wf(),
            final(self).kind == old(self).kind,
            id@.len() == 36,
            final(self).has_worker(id@),
            final(self).workers@.len() >= old(self).workers@.len(),
            final(self).workers@.len() <= old(self).workers@.len() + 1,
            forall|i: int|
                0 <= i < final(self).workers@.len() ==> {
                    let w = #[trigger] final(self).workers@[i];
                    if w.id@ == id@ {
                        w.phase == WorkerPhase::Running && w.inbox is None && w.channel_open
                    } else {
                        i < old(self).workers@.len() && w == old(self).workers@[i]
                    }
                },
    {
        let id = random_worker_id();
        let slot = WorkerSlot {
            id: crate::seqtools::copy_vec(&id),
            phase: WorkerPhase::Running,
            inbox: None,
            channel_open: true,
        };
        let n = self.workers.len();
        let mut idx: usize = n;
        for i in 0..n
            invariant
                n == self.workers@.len(),
                idx <= n,
                idx == n ==> forall|j: int| 0 <= j < i ==> self.workers@[j].id@ != id@,
                idx < n ==> self.workers@[idx as int].id@ == id@,
                *self == *old(self),
        {
            if idx == n && crate::seqtools::bytes_eq(&self.workers[i].id, &id) {
                idx = i;
            }
        }
        if idx == n {
            self.workers.push(slot);
            proof {
                assert(self.workers@[n as int].id@ == id@);
                assert(self.workers@.drop_last() =~= old(self).workers@);
            }
        } else {
            let _ = self.workers.remove(idx);
            self.workers.insert(idx, slot);
            proof {
                assert(self.workers@ =~= old(self).workers@.update(
                    idx as int,
                    self.workers@[idx as int],
                ));
                assert(self.workers@[idx as int].id@ == id@);
                assert forall|i: int, j: int|
                    0 <= i < j < self.workers@.len() implies self.workers@[i].id@
                    != self.workers@[j].id@ by {
                    assert(old(self).workers@[idx as int].id@ == id@);
                }
            }
        }
        id
    }

    /// Send `Terminate` to one worker and drop its sender, as removal
    /// does; an absent identifier changes nothing.
    pub fn remove_worker(&mut self, id: &Vec<u8>) -> (found: bool)
        requires
            old(self).wf(),
        ensures
            final(self).wf(),
            final(self).kind == old(self).kind,
            found == old(self).has_worker(id@),
            final(self).workers@.len() == old(self).workers@.len(),
            forall|i: int|
                0 <= i < old(self).workers@.len() ==> if (#[trigger] old(self).workers@[i]).id@
                    == id@ {
                    final(self).workers@[i] == (WorkerSlot {
                        inbox: Some(WorkerCmd::Terminate),
                        channel_open: false,
                        ..old(self).workers@[i]
                    })
                } else {
                    final(self).workers@[i] == old(self).workers@[i]
                },
    {
        let n = self.workers.len();
        let mut idx: usize = n;
        for i in 0..n
            invariant
                n == self.workers@.len(),
                idx <= n,
                idx == n ==> forall|j: int| 0 <= j < i ==> self.workers@[j].id@ != id@,
                idx < n ==> self.workers@[idx as int].id@ == id@,
                *self == *old(self),
        {
            if idx == n && crate::seqtools::bytes_eq(&self.workers[i].id, id) {
                idx = i;
            }
        }
        if idx == n {
            return false;
        }
        let mut slot = self.workers.remove(idx);
        slot.inbox = Some(WorkerCmd::Terminate);
        slot.channel_open = false;
        self.workers.insert(idx, slot);
        proof {
            assert(self.workers@ =~= old(self).workers@.update(
                idx as int,
                self.workers@[idx as int],
            ));
            assert forall|i: int|
                0 <= i < old(self).workers@.len() && old(self).workers@[i].id@ == id@ implies i
                == idx as int by {
                if i != idx {
                    assert(old(self).workers@[i].id@ != old(self).workers@[idx as int].id@);
                }
            }
        }
        true
    }

    /// Send `Terminate` to every worker and drop every sender: the first
    /// half of the pool's shutdown.
    pub fn terminate_all(&mut self)
        requires
            old(self).wf(),
        ensures
            final(self).wf(),
            final(self).kind == old(self).kind,
            final(self).workers@.len() == old(self).workers@.len(),
            forall|i: int|
                0 <= i < old(self).workers@.len() ==> final(self).workers@[i] == (WorkerSlot {
                    inbox: Some(WorkerCmd::Terminate),
                    channel_open: false,
                    ..(#[trigger] old(self).workers@[i])
                }),
    {
        let n = self.workers.len();
        for k in 0..n
            invariant
                n == self.workers@.len(),
                self.kind == old(self).kind,
                forall|i: int|
                    0 <= i < k ==> self.workers@[i] == (WorkerSlot {
                        inbox: Some(WorkerCmd::Terminate),
                        channel_open: false,
                        ..(#[trigger] old(self).workers@[i])
                    }),
                forall|i: int| k <= i < n ==> self.workers@[i] == old(self).workers@[i],
        {
            let ghost before = self.workers@;
            let mut slot = self.workers.remove(k);
            slot.inbox = Some(WorkerCmd::Terminate);
            slot.channel_open = false;
            self.workers.insert(k, slot);
            proof {
                assert(self.workers@ =~= before.update(k as int, self.workers@[k as int]));
            }
        }
        proof {
            assert forall|i: int, j: int|
                0 <= i < j < self.workers@.len() implies self.workers@[i].id@
                != self.workers@[j].id@ by {
                assert(self.workers@[i].id == old(self).workers@[i].id);
                assert(self.workers@[j].id == old(self).workers@[j].id);
            }
        }
    }

    /// Run one loop iteration of every worker: each polls its channel
    /// once. The second half of shutdown: joining observes the exits.
    pub fn poll_all(&mut self)
        requires
            old(self).wf(),
        ensures
            final(self).wf(),
            final(self).kind == old(self).kind,
            final(self).workers@.len() == old(self).workers@.len(),
            forall|i: int|
                0 <= i < old(self).workers@.len() ==> {
                    let w0 = #[trigger] old(self).workers@[i];
                    let w1 = final(self).workers@[i];
                    &&& w1.id == w0.id
                    &&& w1.channel_open == w0.channel_open
                    &&& w1.inbox is None
                    &&& w1.phase == if spec_keeps_running(w0.inbox, w0.channel_open) {
                        w0.phase
                    } else {
                        WorkerPhase::Exited
                    }
                },
    {
        let n = self.workers.len();
        for k in 0..n
            invariant
                n == self.workers@.len(),
                self.kind == old(self).kind,
                forall|i: int|
                    0 <= i < k ==> {
                        let w0 = #[trigger] old(self).workers@[i];
                        let w1 = self.workers@[i];
                        &&& w1.id == w0.id
                        &&& w1.channel_open == w0.channel_open
                        &&& w1.inbox is None
                        &&& w1.phase == if spec_keeps_running(w0.inbox, w0.channel_open) {
                            w0.phase
                        } else {
                            WorkerPhase::Exited
                        }
                    },
                forall|i: int| k <= i < n ==> self.workers@[i] == old(self).workers@[i],
        {
            let ghost before = self.workers@;
            let mut slot = self.workers.remove(k);
            let _ = slot.poll();
            self.workers.insert(k, slot);
            proof {
                assert(self.workers@ =~= before.update(k as int, self.workers@[k as int]));
            }
        }
        proof {
            assert forall|i: int, j: int|
                0 <= i < j < self.workers@.len() implies self.workers@[i].id@
                != self.workers@[j].id@ by {
                assert(self.workers@[i].id == old(self).workers@[i].id);
                assert(self.workers@[j].id == old(self).workers@[j].id);
            }
        }
    }

    /// The pool's drop path: terminate every worker, then observe one
    /// loop iteration of each. Idempotent: a second run changes nothing
    /// that matters, since every channel already holds the command or is
    /// closed.
    pub fn shutdown(&mut self)
        requires
            old(self).wf(),
        ensures
            final(self).wf(),
            final(self).kind == old(self).kind,
            final(self).workers@.len() == old(self).workers@.len(),
            final(self).all_exited(),
            forall|i: int|
                0 <= i < old(self).workers@.len() ==> (#[trigger] final(self).workers@[i]).id
                    == old(self).workers@[i].id,
    {
        self.terminate_all();
        let ghost mid = *self;
        self.poll_all();
        proof {
            assert forall|i: int| 0 <= i < self.workers@.len() implies (#[trigger] self.workers@[i]).phase
                == WorkerPhase::Exited by {
                assert(mid.workers@[i] == (WorkerSlot {
                    inbox: Some(WorkerCmd::Terminate),
                    channel_open: false,
                    ..old(self).workers@[i]
                }));
            }
            assert forall|i: int| 0 <= i < old(self).workers@.len() implies (#[trigger] self.workers@[i]).id
                == old(self).workers@[i].id by {
                assert(mid.workers@[i] == (WorkerSlot {
                    inbox: Some(WorkerCmd::Terminate),
                    channel_open: false,
                    ..old(self).workers@[i]
                }));
            }
        }
    }
}

/// The shutdown law: once terminate commands are sent to every worker,
/// the very next poll of each worker exits it, whatever it was doing.
/// What each worker held in flight stays in the broker's in-flight list
/// and is recovered on startup.
pub proof fn lemma_shutdown_bounded(p0: PoolState, p1: PoolState, p2: PoolState)
    requires
        p1.workers@.len() == p0.workers@.len(),
        forall|i: int|
            0 <= i < p0.workers@.len() ==> p1.workers@[i] == (WorkerSlot {
                inbox: Some(WorkerCmd::Terminate),
                channel_open: false,
                ..(#[trigger] p0.workers@[i])
            }),
        p2.workers@.len() == p1.workers@.len(),
        forall|i: int|
            0 <= i < p1.workers@.len() ==> (#[trigger] p2.workers@[i]).phase == if spec_keeps_running(
                p1.workers@[i].inbox,
                p1.workers@[i].channel_open,
            ) {
                p1.workers@[i].phase
            } else {
                WorkerPhase::Exited
            },
    ensures
        p2.all_exited(),
{
    assert forall|i: int| 0 <= i < p2.workers@.len() implies (#[trigger] p2.workers@[i]).phase
        == WorkerPhase::Exited by {
        assert(p1.workers@[i] == (WorkerSlot {
            inbox: Some(WorkerCmd::Terminate),
            channel_open: false,
            ..p0.workers@[i]
        }));
    }
}

} // verus!
