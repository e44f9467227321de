//! The worker pool's job-dispatch protocol.
//!
//! The pool owns `N` workers and a job channel: the producing end is the
//! pool's alone, the consuming end is shared among the workers under a
//! mutex, and at most one worker holds it at an instant. The protocol is
//! modelled here as a state machine: every decision the running pool makes
//! (spawn bookkeeping, enqueue, lock acquire, receive, job completion,
//! channel closure, join) is a transition with a verified contract, and
//! the delivery laws — at-most-once, FIFO, drain on shutdown, lock
//! released while a job runs — are proved of every reachable state.

use vstd::multiset::Multiset;
use vstd::prelude::*;

verus! {

broadcast use
    vstd::multiset::group_multiset_axioms,
    vstd::seq_lib::group_to_multiset_ensures,
;

/// What pool construction reports when asked for zero workers.
pub open spec fn pool_error_message() -> Seq<char> {
    "Failed to create a ThreadPool. Poolsize should be gte 1."@
}

/// Returned by pool construction when the requested size is zero.
#[derive(Debug)]
pub struct PoolCreationError;

impl PoolCreationError {
    /// The human-readable description of the failure.
    pub fn message(&self) -> (r: &'static str)
        ensures
            r@ == pool_error_message(),
    {
        "Failed to create a ThreadPool. Poolsize should be gte 1."
    }
}

/// What a worker's loop is doing at an instant.
pub enum WorkerPhase {
    /// About to contend for the receiver lock.
    Waiting,
    /// Holding the receiver lock, blocked in the receive.
    Receiving,
    /// Executing the named job; the lock was released first.
    Running(u64),
    /// Observed the closed channel and left the loop.
    Finished,
}

/// One worker: its id, whether its thread handle is still unconsumed (the
/// join takes it exactly once), and the jobs it has completed.
pub struct WorkerModel {
    pub id: usize,
    pub handle_present: bool,
    pub executed: Vec<u64>,
    pub phase: WorkerPhase,
}

/// What a blocking receive on the shared channel yields: the next job, or
/// the terminal closed signal once the sender is gone and the queue drained.
pub enum RecvOutcome {
    Job(u64),
    Closed,
}

/// The jobs a single worker holds: everything it completed, plus the one
/// it is running now, if any.
pub open spec fn worker_jobs(w: WorkerModel) -> Multiset<u64> {
    w.executed@.to_multiset().add(
        match w.phase {
            WorkerPhase::Running(j) => Multiset::singleton(j),
            _ => Multiset::empty(),
        },
    )
}

/// How far a worker still is from observing the closed channel, once the
/// channel is closed: the measure the shutdown drive decreases.
pub open spec fn phase_rank(p: WorkerPhase) -> nat {
    match p {
        WorkerPhase::Finished => 0,
        WorkerPhase::Waiting => 1,
        WorkerPhase::Running(_) => 2,
        WorkerPhase::Receiving => 3,
    }
}

/// The jobs held across a set of workers, with multiplicity.
pub open spec fn jobs_of(ws: Seq<WorkerModel>) -> Multiset<u64>
    decreases ws.len(),
{
    if ws.len() == 0 {
        Multiset::empty()
    } else {
        jobs_of(ws.drop_last()).add(worker_jobs(ws.last()))
    }
}

/// The jobs completed across a set of workers, with multiplicity.
pub open spec fn executed_of(ws: Seq<WorkerModel>) -> Multiset<u64>
    decreases ws.len(),
{
    if ws.len() == 0 {
        Multiset::empty()
    } else {
        executed_of(ws.drop_last()).add(ws.last().executed@.to_multiset())
    }
}

/// The pool and its channel, as one state: the workers, whether the
/// producing end is still present, the queued jobs oldest first, the full
/// submission history, the delivery history, and which worker (by index)
/// holds the receiver lock.
pub struct PoolModel {
    pub workers: Vec<WorkerModel>,
    pub sender_present: bool,
    pub queue: Vec<u64>,
    pub submitted: Vec<u64>,
    pub delivered: Vec<u64>,
    pub lock_holder: Option<usize>,
    pub next_job: u64,
}

impl PoolModel {
    /// The invariant every reachable pool state satisfies.
    pub open spec fn wf(self) -> bool {
        // Jobs are numbered in submission order.
        &&& self.submitted@ == Seq::new(self.next_job as nat, |i: int| i as u64)
        // Deliveries are a prefix of the submissions, and the queue is the rest.
        &&& self.delivered@.len() <= self.submitted@.len()
        &&& self.delivered@ == self.submitted@.take(self.delivered@.len() as int)
        &&& self.queue@ == self.submitted@.skip(self.delivered@.len() as int)
        // The lock holder, when there is one, is the one receiving worker.
        &&& match self.lock_holder {
            Option::Some(w) => w < self.workers@.len() && self.workers@[w as int].phase
                is Receiving,
            Option::None => true,
        }
        &&& forall|i: int|
            0 <= i < self.workers@.len() && (#[trigger] self.workers@[i]).phase is Receiving
                ==> match self.lock_holder {
                    Option::Some(h) => h as int == i,
                    Option::None => false,
                }
        // Every delivered job sits with exactly one worker, running or done.
        &&& jobs_of(self.workers@) == self.delivered@.to_multiset()
        // A worker leaves its loop only once the channel is closed and drained,
        // and neither can be undone.
        &&& forall|i: int|
            0 <= i < self.workers@.len() && (#[trigger] self.workers@[i]).phase is Finished ==> (
            !self.sender_present && self.queue@.len() == 0)
        // A consumed thread handle means the worker was already joined, after
        // it finished.
        &&& forall|i: int|
            0 <= i < self.workers@.len() && !(#[trigger] self.workers@[i]).handle_present
                ==> self.workers@[i].phase is Finished
    }
}

/// Replacing one worker changes the collected jobs by that worker's
/// contribution alone, counted job by job.
proof fn lemma_jobs_of_update(ws: Seq<WorkerModel>, i: int, wk: WorkerModel)
    requires
        0 <= i < ws.len(),
    ensures
        forall|v: u64|
            #![trigger jobs_of(ws.update(i, wk)).count(v)]
            jobs_of(ws.update(i, wk)).count(v) + worker_jobs(ws[i]).count(v) == jobs_of(ws).count(
                v,
            ) + worker_jobs(wk).count(v),
        forall|v: u64|
            #![trigger executed_of(ws.update(i, wk)).count(v)]
            executed_of(ws.update(i, wk)).count(v) + ws[i].executed@.to_multiset().count(v)
                == executed_of(ws).count(v) + wk.executed@.to_multiset().count(v),
    decreases ws.len(),
{
    let upd = ws.update(i, wk);
    assert(jobs_of(upd) == jobs_of(upd.drop_last()).add(worker_jobs(upd.last())));
    assert(jobs_of(ws) == jobs_of(ws.drop_last()).add(worker_jobs(ws.last())));
    assert(executed_of(upd) == executed_of(upd.drop_last()).add(upd.last().executed@.to_multiset()));
    assert(executed_of(ws) == executed_of(ws.drop_last()).add(ws.last().executed@.to_multiset()));
    if i == ws.len() - 1 {
        assert(upd.drop_last() =~= ws.drop_last());
        assert(upd.last() == wk);
        assert(ws.last() == ws[i]);
    } else {
        lemma_jobs_of_update(ws.drop_last(), i, wk);
        assert(upd.drop_last() =~= ws.drop_last().update(i, wk));
        assert(upd.last() == ws.last());
        assert(ws.drop_last()[i] == ws[i]);
    }
}

/// A set of workers none of which has started holds no jobs.
proof fn lemma_jobs_of_fresh(ws: Seq<WorkerModel>)
    requires
        forall|k: int|
            0 <= k < ws.len() ==> (#[trigger] ws[k]).phase is Waiting && ws[k].executed@.len()
                == 0,
    ensures
        jobs_of(ws) == Multiset::<u64>::empty(),
    decreases ws.len(),
{
    if ws.len() > 0 {
        lemma_jobs_of_fresh(ws.drop_last());
        ws.last().executed@.to_multiset_ensures();
        assert(ws.last().executed@.to_multiset().len() == 0);
        assert(jobs_of(ws) =~= Multiset::<u64>::empty());
    } else {
        assert(jobs_of(ws) =~= Multiset::<u64>::empty());
    }
}

/// Once no worker is mid-job, the collected jobs are exactly the
/// completed ones.
proof fn lemma_jobs_of_executed(ws: Seq<WorkerModel>)
    requires
        forall|k: int| 0 <= k < ws.len() ==> !((#[trigger] ws[k]).phase is Running),
    ensures
        jobs_of(ws) == executed_of(ws),
    decreases ws.len(),
{
    if ws.len() > 0 {
        lemma_jobs_of_executed(ws.drop_last());
        assert(worker_jobs(ws.last()) =~= ws.last().executed@.to_multiset());
        assert(jobs_of(ws) =~= executed_of(ws));
    } else {
        assert(jobs_of(ws) =~= executed_of(ws));
    }
}

impl PoolModel {
    /// Builds a pool of `size` workers. A zero size is refused; a worker
    /// whose thread failed to spawn (`spawn_ok` false) is silently
    /// omitted, so the pool comes up with at most `size` workers — and
    /// with exactly `size` when every spawn succeeded.
    pub fn build(size: usize, spawn_ok: &Vec<bool>) -> (r: Result<PoolModel, PoolCreationError>)
        requires
            spawn_ok@.len() == size as nat,
        ensures
            size == 0 <==> r is Err,
            match r {
                Result::Ok(p) => {
                    &&& p.wf()
                    &&& p.sender_present
                    &&& p.lock_holder is None
                    &&& p.submitted@.len() == 0
                    &&& p.workers@.len() <= size as nat
                    &&& (forall|i: int| 0 <= i < size ==> spawn_ok@[i]) ==> p.workers@.len()
                        == size as nat
                    &&& forall|k: int|
                        0 <= k < p.workers@.len() ==> (#[trigger] p.workers@[k]).phase is Waiting
                            && p.workers@[k].executed@.len() == 0 && p.workers@[k].handle_present
                            && p.workers@[k].id < size
                    &&& forall|k1: int, k2: int|
                        0 <= k1 < k2 < p.workers@.len() ==> (#[trigger] p.workers@[k1]).id < (
                        #[trigger] p.workers@[k2]).id
                },
                Result::Err(_) => true,
            },
    {
        if size == 0 {
            return Result::Err(PoolCreationError {});
        }
        let mut workers: Vec<WorkerModel> = Vec::new();
        let mut i: usize = 0;
        while i < size
            invariant
                i <= size,
                spawn_ok@.len() == size as nat,
                workers@.len() <= i as nat,
                (forall|j: int| 0 <= j < i ==> spawn_ok@[j]) ==> workers@.len() == i as nat,
                forall|k: int|
                    0 <= k < workers@.len() ==> (#[trigger] workers@[k]).phase is Waiting
                        && workers@[k].executed@.len() == 0 && workers@[k].handle_present
                        && workers@[k].id < i,
                forall|k1: int, k2: int|
                    0 <= k1 < k2 < workers@.len() ==> (#[trigger] workers@[k1]).id < (
                    #[trigger] workers@[k2]).id,
            decreases size - i,
        {
            if spawn_ok[i] {
                workers.push(
                    WorkerModel {
                        id: i,
                        handle_present: true,
                        executed: Vec::new(),
                        phase: WorkerPhase::Waiting,
                    },
                );
            }
            i = i + 1;
        }
        let p = PoolModel {
            workers,
            sender_present: true,
            queue: Vec::new(),
            submitted: Vec::new(),
            delivered: Vec::new(),
            lock_holder: Option::None,
            next_job: 0,
        };
        proof {
            assert(p.submitted@ =~= Seq::new(0nat, |i: int| i as u64));
            assert(p.delivered@ =~= p.submitted@.take(0));
            assert(p.queue@ =~= p.submitted@.skip(0));
            lemma_jobs_of_fresh(p.workers@);
            p.delivered@.to_multiset_ensures();
            assert(p.delivered@.to_multiset() =~= Multiset::<u64>::empty());
        }
        Result::Ok(p)
    }

    /// Submits a job: legal only while the producing end is present. The
    /// new job goes to the back of the queue, numbered after everything
    /// submitted before it.
    pub fn execute(&mut self) -> (job: u64)
        requires
            old(self).wf(),
            old(self).sender_present,
            old(self).next_job < u64::MAX,
        ensures
            final(self).wf(),
            job == old(self).next_job,
            final(self).submitted@ == old(self).submitted@.push(job),
            final(self).queue@ == old(self).queue@.push(job),
            final(self).delivered@ == old(self).delivered@,
            final(self).workers@ == old(self).workers@,
            final(self).sender_present,
            final(self).lock_holder == old(self).lock_holder,
    {
        let job = self.next_job;
        self.queue.push(job);
        self.submitted.push(job);
        self.next_job = self.next_job + 1;
        proof {
            assert(self.submitted@ =~= Seq::new(self.next_job as nat, |i: int| i as u64));
            assert(self.delivered@ =~= self.submitted@.take(self.delivered@.len() as int));
            assert(self.queue@ =~= self.submitted@.skip(self.delivered@.len() as int));
        }
        job
    }

    /// Closes the producing end: the first step of shutdown. No further
    /// jobs can be submitted; queued ones stay to be drained.
    pub fn close(&mut self)
        requires
            old(self).wf(),
        ensures
            final(self).wf(),
            !final(self).sender_present,
            final(self).submitted@ == old(self).submitted@,
            final(self).queue@ == old(self).queue@,
            final(self).delivered@ == old(self).delivered@,
            final(self).workers@ == old(self).workers@,
            final(self).lock_holder == old(self).lock_holder,
    {
        self.sender_present = false;
    }

    /// Worker `w` acquires the receiver lock: legal only while the lock is
    /// free and the worker is between jobs.
    pub fn acquire(&mut self, w: usize)
        requires
            old(self).wf(),
            old(self).lock_holder is None,
            w < old(self).workers@.len(),
            old(self).workers@[w as int].phase is Waiting,
        ensures
            final(self).wf(),
            final(self).lock_holder == Option::Some(w),
            final(self).workers@ == old(self).workers@.update(
                w as int,
                WorkerModel { phase: WorkerPhase::Receiving, ..old(self).workers@[w as int] },
            ),
            final(self).submitted@ == old(self).submitted@,
            final(self).queue@ == old(self).queue@,
            final(self).delivered@ == old(self).delivered@,
            final(self).sender_present == old(self).sender_present,
    {
        self.workers[w].phase = WorkerPhase::Receiving;
        self.lock_holder = Option::Some(w);
        proof {
            let ws0 = old(self).workers@;
            let wk0 = ws0[w as int];
            let wk1 = self.workers@[w as int];
            assert(self.workers@ =~= ws0.update(w as int, wk1));
            lemma_jobs_of_update(ws0, w as int, wk1);
            assert(worker_jobs(wk1) =~= worker_jobs(wk0));
            assert(jobs_of(self.workers@) =~= self.delivered@.to_multiset());
        }
    }

    /// The receive while holding the lock. It only returns — the model's
    /// counterpart of the blocking call — when a job is queued or the
    /// channel is closed. A queued job is handed over front-first and the
    /// worker starts running it with the lock already released; on the
    /// closed signal the worker leaves its loop.
    pub fn receive(&mut self, w: usize) -> (out: RecvOutcome)
        requires
            old(self).wf(),
            old(self).lock_holder == Option::Some(w),
            old(self).queue@.len() > 0 || !old(self).sender_present,
        ensures
            final(self).wf(),
            final(self).lock_holder is None,
            final(self).submitted@ == old(self).submitted@,
            final(self).sender_present == old(self).sender_present,
            match out {
                RecvOutcome::Job(j) => {
                    &&& old(self).queue@.len() > 0
                    &&& j == old(self).queue@[0]
                    &&& final(self).queue@ == old(self).queue@.drop_first()
                    &&& final(self).delivered@ == old(self).delivered@.push(j)
                    &&& final(self).workers@ == old(self).workers@.update(
                        w as int,
                        WorkerModel {
                            phase: WorkerPhase::Running(j),
                            ..old(self).workers@[w as int]
                        },
                    )
                },
                RecvOutcome::Closed => {
                    &&& old(self).queue@.len() == 0
                    &&& !old(self).sender_present
                    &&& final(self).queue@ == old(self).queue@
                    &&& final(self).delivered@ == old(self).delivered@
                    &&& final(self).workers@ == old(self).workers@.update(
                        w as int,
                        WorkerModel {
                            phase: WorkerPhase::Finished,
                            ..old(self).workers@[w as int]
                        },
                    )
                },
            },
    {
        let ghost d = old(self).delivered@.len() as int;
        if self.queue.len() > 0 {
            let j = self.queue.remove(0);
            self.delivered.push(j);
            self.workers[w].phase = WorkerPhase::Running(j);
            self.lock_holder = Option::None;
            proof {
                let ws0 = old(self).workers@;
                let wk0 = ws0[w as int];
                let wk1 = self.workers@[w as int];
                assert(self.workers@ =~= ws0.update(w as int, wk1));
                assert(old(self).queue@[0] == self.submitted@[d]);
                assert(self.delivered@ =~= self.submitted@.take(d + 1));
                assert(self.queue@ =~= self.submitted@.skip(d + 1));
                assert(self.queue@ =~= old(self).queue@.drop_first());
                lemma_jobs_of_update(ws0, w as int, wk1);
                assert(worker_jobs(wk1) =~= worker_jobs(wk0).insert(j));
                old(self).delivered@.to_multiset_ensures();
                assert(self.delivered@.to_multiset() =~= old(
                    self,
                ).delivered@.to_multiset().insert(j));
                assert(jobs_of(self.workers@) =~= self.delivered@.to_multiset());
                assert forall|i: int| 0 <= i < self.workers@.len() implies !((
                #[trigger] self.workers@[i]).phase is Receiving) by {
                    if i == w as int {
                        assert(self.workers@[i] == wk1);
                    } else {
                        assert(self.workers@[i] == old(self).workers@[i]);
                    }
                }
            }
            RecvOutcome::Job(j)
        } else {
            self.workers[w].phase = WorkerPhase::Finished;
            self.lock_holder = Option::None;
            proof {
                let ws0 = old(self).workers@;
                let wk0 = ws0[w as int];
                let wk1 = self.workers@[w as int];
                assert(self.workers@ =~= ws0.update(w as int, wk1));
                lemma_jobs_of_update(ws0, w as int, wk1);
                assert(worker_jobs(wk1) =~= worker_jobs(wk0));
                assert(jobs_of(self.workers@) =~= self.delivered@.to_multiset());
                assert forall|i: int| 0 <= i < self.workers@.len() implies !((
                #[trigger] self.workers@[i]).phase is Receiving) by {
                    if i == w as int {
                        assert(self.workers@[i] == wk1);
                    } else {
                        assert(self.workers@[i] == old(self).workers@[i]);
                    }
                }
            }
            RecvOutcome::Closed
        }
    }

    /// Worker `w` completes the job it was running and goes back to
    /// contend for the lock.
    pub fn finish(&mut self, w: usize)
        requires
            old(self).wf(),
            w < old(self).workers@.len(),
            old(self).workers@[w as int].phase is Running,
        ensures
            final(self).wf(),
            final(self).workers@ == old(self).workers@.update(
                w as int,
                final(self).workers@[w as int],
            ),
            final(self).workers@[w as int].phase is Waiting,
            final(self).workers@[w as int].executed@ == old(self).workers@[w as int].executed@.push(
                old(self).workers@[w as int].phase->Running_0,
            ),
            final(self).workers@[w as int].id == old(self).workers@[w as int].id,
            final(self).workers@[w as int].handle_present == old(
                self,
            ).workers@[w as int].handle_present,
            final(self).submitted@ == old(self).submitted@,
            final(self).queue@ == old(self).queue@,
            final(self).delivered@ == old(self).delivered@,
            final(self).sender_present == old(self).sender_present,
            final(self).lock_holder == old(self).lock_holder,
    {
        let j = match self.workers[w].phase {
            WorkerPhase::Running(j) => j,
            _ => 0,  // unreachable under the precondition
        };
        self.workers[w].executed.push(j);
        self.workers[w].phase = WorkerPhase::Waiting;
        proof {
            let ws0 = old(self).workers@;
            let wk0 = ws0[w as int];
            let wk1 = self.workers@[w as int];
            assert(self.workers@ =~= ws0.update(w as int, wk1));
            lemma_jobs_of_update(ws0, w as int, wk1);
            wk0.executed@.to_multiset_ensures();
            assert(worker_jobs(wk1) =~= worker_jobs(wk0));
            assert(jobs_of(self.workers@) =~= self.delivered@.to_multiset());
        }
    }

    /// Joins worker `w` during shutdown, consuming its thread handle; the
    /// join happens exactly once, after the worker's loop has exited.
    pub fn join_worker(&mut self, w: usize)
        requires
            old(self).wf(),
            w < old(self).workers@.len(),
            old(self).workers@[w as int].phase is Finished,
            old(self).workers@[w as int].handle_present,
        ensures
            final(self).wf(),
            final(self).workers@ == old(self).workers@.update(
                w as int,
                WorkerModel { handle_present: false, ..old(self).workers@[w as int] },
            ),
            final(self).submitted@ == old(self).submitted@,
            final(self).queue@ == old(self).queue@,
            final(self).delivered@ == old(self).delivered@,
            final(self).sender_present == old(self).sender_present,
            final(self).lock_holder == old(self).lock_holder,
    {
        self.workers[w].handle_present = false;
        proof {
            let ws0 = old(self).workers@;
            let wk0 = ws0[w as int];
            let wk1 = self.workers@[w as int];
            assert(self.workers@ =~= ws0.update(w as int, wk1));
            lemma_jobs_of_update(ws0, w as int, wk1);
            assert(worker_jobs(wk1) =~= worker_jobs(wk0));
            assert(jobs_of(self.workers@) =~= self.delivered@.to_multiset());
        }
    }

    /// Whether worker `w` has observed the closed channel and left its loop.
    pub fn worker_finished(&self, w: usize) -> (r: bool)
        requires
            w < self.workers@.len(),
        ensures
            r == (self.workers@[w as int].phase is Finished),
    {
        match self.workers[w].phase {
            WorkerPhase::Finished => true,
            _ => false,
        }
    }

    /// The pool's destruction: close the producing end, then take each
    /// worker in turn through the rest of its loop — queued jobs are
    /// delivered and run until the worker observes the closed channel —
    /// and finally join every worker exactly once. When it returns,
    /// every job submitted before shutdown has been executed.
    pub fn shutdown(&mut self)
        requires
            old(self).wf(),
            old(self).lock_holder is None,
            old(self).workers@.len() > 0,
        ensures
            final(self).wf(),
            !final(self).sender_present,
            final(self).queue@.len() == 0,
            final(self).submitted@ == old(self).submitted@,
            final(self).delivered@ == old(self).submitted@,
            final(self).workers@.len() == old(self).workers@.len(),
            forall|k: int|
                0 <= k < final(self).workers@.len() ==> (#[trigger] final(self).workers@[k]).phase
                    is Finished && !final(self).workers@[k].handle_present,
            executed_of(final(self).workers@) == old(self).submitted@.to_multiset(),
    {
        self.close();
        let num = self.workers.len();
        let mut w: usize = 0;
        while w < num
            invariant
                self.wf(),
                !self.sender_present,
                self.lock_holder is None,
                w <= num,
                num == self.workers@.len(),
                self.workers@.len() == old(self).workers@.len(),
                self.submitted@ == old(self).submitted@,
                forall|k: int| 0 <= k < w ==> (#[trigger] self.workers@[k]).phase is Finished,
            decreases num - w,
        {
            while !self.worker_finished(w)
                invariant
                    self.wf(),
                    !self.sender_present,
                    self.lock_holder is None,
                    w < num,
                    num == self.workers@.len(),
                    self.workers@.len() == old(self).workers@.len(),
                    self.submitted@ == old(self).submitted@,
                    forall|k: int| 0 <= k < w ==> (#[trigger] self.workers@[k]).phase is Finished,
                decreases 3 * self.queue@.len() + phase_rank(self.workers@[w as int].phase),
            {
                match self.workers[w].phase {
                    WorkerPhase::Waiting => {
                        self.acquire(w);
                        match self.receive(w) {
                            RecvOutcome::Job(_) => {
                                self.finish(w);
                            },
                            RecvOutcome::Closed => {},
                        }
                    },
                    WorkerPhase::Running(_) => {
                        self.finish(w);
                    },
                    WorkerPhase::Receiving => {
                        // Excluded: the lock is free, so no worker is receiving.
                        proof {
                            assert(false);
                        }
                    },
                    WorkerPhase::Finished => {
                        proof {
                            assert(false);
                        }
                    },
                }
            }
            w = w + 1;
        }
        proof {
            lemma_drain_on_shutdown(*self);
        }
        let mut w2: usize = 0;
        while w2 < num
            invariant
                self.wf(),
                !self.sender_present,
                self.queue@.len() == 0,
                w2 <= num,
                num == self.workers@.len(),
                self.workers@.len() == old(self).workers@.len(),
                self.submitted@ == old(self).submitted@,
                self.delivered@ == old(self).submitted@,
                executed_of(self.workers@) == old(self).submitted@.to_multiset(),
                forall|k: int| 0 <= k < num ==> (#[trigger] self.workers@[k]).phase is Finished,
                forall|k: int| 0 <= k < w2 ==> !(#[trigger] self.workers@[k]).handle_present,
            decreases num - w2,
        {
            if self.workers[w2].handle_present {
                let ghost ws0 = self.workers@;
                self.join_worker(w2);
                proof {
                    let wk1 = self.workers@[w2 as int];
                    lemma_jobs_of_update(ws0, w2 as int, wk1);
                    assert(executed_of(self.workers@) =~= executed_of(ws0));
                }
            }
            w2 = w2 + 1;
        }
    }
}

/// At-most-once delivery: in every reachable state, no job sits with two
/// workers or twice with one, and every job held by a worker was
/// submitted.
pub proof fn lemma_at_most_once_delivery(p: PoolModel)
    requires
        p.wf(),
    ensures
        forall|j: u64| jobs_of(p.workers@).count(j) <= 1,
        forall|j: u64| jobs_of(p.workers@).count(j) >= 1 ==> p.submitted@.contains(j),
{
    p.delivered@.to_multiset_ensures();
    assert(p.delivered@.no_duplicates()) by {
        assert(forall|i: int, k: int|
            0 <= i < k < p.delivered@.len() ==> p.delivered@[i] == i as u64 && p.delivered@[k]
                == k as u64);
    }
    p.delivered@.lemma_multiset_has_no_duplicates();
    assert forall|j: u64| jobs_of(p.workers@).count(j) <= 1 by {
        if p.delivered@.to_multiset().count(j) >= 1 {
            assert(p.delivered@.to_multiset().contains(j));
        }
    }
    assert forall|j: u64| jobs_of(p.workers@).count(j) >= 1 implies p.submitted@.contains(j) by {
        assert(p.delivered@.to_multiset().contains(j));
        assert(p.delivered@.contains(j));
        let i = choose|i: int| 0 <= i < p.delivered@.len() && p.delivered@[i] == j;
        assert(p.submitted@[i] == j);
    }
}

/// FIFO delivery: in every reachable state the `i`-th job delivered to a
/// worker is the `i`-th job submitted, so two jobs submitted in order are
/// received in that order.
pub proof fn lemma_fifo_delivery(p: PoolModel)
    requires
        p.wf(),
    ensures
        p.delivered@.len() <= p.submitted@.len(),
        forall|i: int| 0 <= i < p.delivered@.len() ==> p.delivered@[i] == p.submitted@[i],
{
}

/// While a worker runs a job it does not hold the receiver lock, so the
/// job itself may contend for it without deadlock.
pub proof fn lemma_lock_free_while_running(p: PoolModel, w: usize)
    requires
        p.wf(),
        w < p.workers@.len(),
        p.workers@[w as int].phase is Running,
    ensures
        p.lock_holder != Option::Some(w),
{
}

/// Drain on shutdown: once every worker has observed the closed channel,
/// nothing is queued, every submitted job was delivered, and the jobs the
/// workers completed are exactly the submitted ones.
pub proof fn lemma_drain_on_shutdown(p: PoolModel)
    requires
        p.wf(),
        p.workers@.len() > 0,
        forall|i: int| 0 <= i < p.workers@.len() ==> (#[trigger] p.workers@[i]).phase is Finished,
    ensures
        p.queue@.len() == 0,
        p.delivered@ == p.submitted@,
        executed_of(p.workers@) == p.submitted@.to_multiset(),
{
    assert(p.workers@[0].phase is Finished);
    assert(p.queue@.len() == 0);
    assert(p.delivered@ =~= p.submitted@);
    lemma_jobs_of_executed(p.workers@);
}

} // verus!
