//! The worker pool, as a verified scheduling state machine.
//!
//! The pool owns a FIFO queue of submitted jobs (identified by caller-chosen
//! ids) and a fixed set of workers. A worker repeatedly takes the next job
//! from the shared queue (`worker_step`), runs it, and reports back
//! (`complete`); once submission is closed (`shutdown`) and the queue is
//! drained, each worker terminates. The invariant `wf` accounts for every
//! submitted job exactly once: still queued, running on exactly one worker,
//! or completed.

use vstd::prelude::*;

verus! {

use vstd::multiset::Multiset;
use vstd::seq_lib::lemma_multiset_commutative;

broadcast use {vstd::multiset::group_multiset_axioms, vstd::seq_lib::group_to_multiset_ensures};

/// One worker's place in its lifecycle: waiting for a job, running one
/// (uninterruptible, exactly one job at a time), or exited for good.
#[derive(Clone, Copy, PartialEq, Eq, Structural, Debug)]
pub enum WorkerState {
    Running,
    Executing { job: u64 },
    Terminated,
}

/// What a worker is told to do after asking the queue for work.
#[derive(Clone, Copy, PartialEq, Eq, Structural, Debug)]
pub enum WorkerAction {
    Run { job: u64 },
    Wait,
    Exit,
}

/// Submission failures: the pool has already begun shutdown.
#[derive(Clone, Copy, PartialEq, Eq, Structural, Debug)]
pub enum PoolError {
    ShutDown,
}

/// The multiset contribution of one worker: the job it is running, if any.
pub open spec fn running_contrib(w: WorkerState) -> Multiset<u64> {
    match w {
        WorkerState::Executing { job } => Multiset::<u64>::empty().insert(job),
        _ => Multiset::<u64>::empty(),
    }
}

/// The multiset of jobs currently running, over all workers.
pub open spec fn executing_ms(ws: Seq<WorkerState>) -> Multiset<u64>
    decreases ws.len(),
{
    if ws.len() == 0 {
        Multiset::<u64>::empty()
    } else {
        executing_ms(ws.drop_last()).add(running_contrib(ws.last()))
    }
}

proof fn lemma_executing_ms_update(ws: Seq<WorkerState>, i: int, w: WorkerState)
    requires
        0 <= i < ws.len(),
    ensures
        executing_ms(ws.update(i, w)).add(running_contrib(ws[i])) == executing_ms(ws).add(
            running_contrib(w),
        ),
    decreases ws.len(),
{
    let ws2 = ws.update(i, w);
    assert(executing_ms(ws2) == executing_ms(ws2.drop_last()).add(running_contrib(ws2.last())));
    assert(executing_ms(ws) == executing_ms(ws.drop_last()).add(running_contrib(ws.last())));
    if i == ws.len() - 1 {
        assert(ws2.drop_last() =~= ws.drop_last());
        assert(ws2.last() == w);
        assert(executing_ms(ws2).add(running_contrib(ws[i])) =~= executing_ms(ws).add(
            running_contrib(w),
        ));
    } else {
        assert(ws2.drop_last() =~= ws.drop_last().update(i, w));
        assert(ws2.last() == ws.last());
        lemma_executing_ms_update(ws.drop_last(), i, w);
        assert(ws.drop_last()[i] == ws[i]);
        assert forall|v: u64|
            executing_ms(ws2).add(running_contrib(ws[i])).count(v) == executing_ms(ws).add(
                running_contrib(w),
            ).count(v) by {
            assert(executing_ms(ws.drop_last().update(i, w)).add(
                running_contrib(ws.drop_last()[i]),
            ).count(v) == executing_ms(ws.drop_last()).add(running_contrib(w)).count(v));
        }
        assert(executing_ms(ws2).add(running_contrib(ws[i])) =~= executing_ms(ws).add(
            running_contrib(w),
        ));
    }
}

proof fn lemma_executing_ms_start(ws: Seq<WorkerState>, i: int, job: u64)
    requires
        0 <= i < ws.len(),
        !(ws[i] is Executing),
    ensures
        executing_ms(ws.update(i, WorkerState::Executing { job })) == executing_ms(ws).insert(job),
{
    lemma_executing_ms_update(ws, i, WorkerState::Executing { job });
    let a = executing_ms(ws.update(i, WorkerState::Executing { job }));
    let b = executing_ms(ws);
    assert forall|v: u64| a.count(v) == b.insert(job).count(v) by {
        assert(a.add(running_contrib(ws[i])).count(v) == b.add(
            running_contrib(WorkerState::Executing { job }),
        ).count(v));
    }
    assert(a =~= b.insert(job));
}

proof fn lemma_executing_ms_finish(ws: Seq<WorkerState>, i: int, w: WorkerState)
    requires
        0 <= i < ws.len(),
        ws[i] matches WorkerState::Executing { job },
        !(w is Executing),
    ensures
        executing_ms(ws) == executing_ms(ws.update(i, w)).insert(ws[i]->job),
{
    lemma_executing_ms_update(ws, i, w);
    let a = executing_ms(ws.update(i, w));
    let b = executing_ms(ws);
    let job = ws[i]->job;
    assert forall|v: u64| b.count(v) == a.insert(job).count(v) by {
        assert(a.add(running_contrib(ws[i])).count(v) == b.add(running_contrib(w)).count(v));
    }
    assert(b =~= a.insert(job));
}

proof fn lemma_executing_ms_same(ws: Seq<WorkerState>, i: int, w: WorkerState)
    requires
        0 <= i < ws.len(),
        !(ws[i] is Executing),
        !(w is Executing),
    ensures
        executing_ms(ws.update(i, w)) == executing_ms(ws),
{
    lemma_executing_ms_update(ws, i, w);
    let a = executing_ms(ws.update(i, w));
    let b = executing_ms(ws);
    assert forall|v: u64| a.count(v) == b.count(v) by {
        assert(a.add(running_contrib(ws[i])).count(v) == b.add(running_contrib(w)).count(v));
    }
    assert(a =~= b);
}

proof fn lemma_executing_ms_no_running(ws: Seq<WorkerState>)
    requires
        forall|i: int| 0 <= i < ws.len() ==> !((#[trigger] ws[i]) is Executing),
    ensures
        executing_ms(ws) == Multiset::<u64>::empty(),
    decreases ws.len(),
{
    if ws.len() > 0 {
        assert(forall|i: int|
            0 <= i < ws.drop_last().len() ==> #[trigger] ws.drop_last()[i] == ws[i]);
        lemma_executing_ms_no_running(ws.drop_last());
        assert(ws.last() == ws[ws.len() - 1]);
        assert(executing_ms(ws) =~= Multiset::<u64>::empty());
    }
}

/// The fixed-size worker pool: its workers, the shared FIFO job queue,
/// whether submission has been closed, the jobs completed so far, and
/// (ghost) the full submission and dispatch histories.
pub struct ThreadPool {
    pub workers: Vec<WorkerState>,
    pub queue: Vec<u64>,
    pub closed: bool,
    pub completed: Vec<u64>,
    pub submitted: Ghost<Seq<u64>>,
    pub dispatched: Ghost<Seq<u64>>,
}

impl ThreadPool {
    /// The pool's invariant: the submission history is exactly the dispatch
    /// history followed by the queue (so jobs are handed out in submission
    /// order), every dispatched job is either completed or running on
    /// exactly one worker, workers terminate only after shutdown, and once
    /// every worker has terminated the queue is empty.
    pub open spec fn wf(&self) -> bool {
        &&& self.workers@.len() >= 1
        &&& self.submitted@ == self.dispatched@ + self.queue@
        &&& self.dispatched@.to_multiset() == self.completed@.to_multiset().add(
            executing_ms(self.workers@),
        )
        &&& forall|i: int|
            0 <= i < self.workers@.len() ==> ((#[trigger] self.workers@[i]) is Terminated
                ==> self.closed)
        &&& ((forall|i: int|
            0 <= i < self.workers@.len() ==> (#[trigger] self.workers@[i]) is Terminated)
            ==> self.queue@.len() == 0)
    }

    /// Builds a pool of exactly `size` workers, all waiting, with an empty
    /// queue and submission open. A zero size is a configuration error and
    /// is ruled out by the precondition.
    pub fn new(size: usize) -> (p: ThreadPool)
        requires
            size >= 1,
        ensures
            p.wf(),
            p.workers@.len() == size,
            forall|i: int| 0 <= i < size ==> (#[trigger] p.workers@[i]) is Running,
            p.queue@ == Seq::<u64>::empty(),
            !p.closed,
            p.completed@ == Seq::<u64>::empty(),
            p.submitted@ == Seq::<u64>::empty(),
            p.dispatched@ == Seq::<u64>::empty(),
    {
        let mut workers: Vec<WorkerState> = Vec::new();
        let mut i: usize = 0;
        while i < size
            invariant
                i <= size,
                workers@.len() == i,
                forall|k: int| 0 <= k < i ==> (#[trigger] workers@[k]) is Running,
            decreases size - i,
        {
            workers.push(WorkerState::Running);
            i = i + 1;
        }
        let p = ThreadPool {
            workers,
            queue: Vec::new(),
            closed: false,
            completed: Vec::new(),
            submitted: Ghost(Seq::<u64>::empty()),
            dispatched: Ghost(Seq::<u64>::empty()),
        };
        proof {
            lemma_executing_ms_no_running(p.workers@);
            assert(p.submitted@ =~= p.dispatched@ + p.queue@);
            assert(p.dispatched@.to_multiset() =~= p.completed@.to_multiset().add(
                executing_ms(p.workers@),
            ));
        }
        p
    }

    /// Enqueues a job for eventual execution by some worker. Never waits
    /// for a worker to be free; fails exactly when the pool has already
    /// begun shutdown, in which case the pool is unchanged (the job is
    /// rejected, not dropped silently).
    pub fn execute(&mut self, job: u64) -> (r: Result<(), PoolError>)
        requires
            old(self).wf(),
        ensures
            final(self).wf(),
            old(self).closed ==> r == Err::<(), PoolError>(PoolError::ShutDown) && *final(self)
                == *old(self),
            !old(self).closed ==> {
                &&& r == Ok::<(), PoolError>(())
                &&& final(self).queue@ == old(self).queue@.push(job)
                &&& final(self).submitted@ == old(self).submitted@.push(job)
                &&& final(self).workers == old(self).workers
                &&& final(self).completed == old(self).completed
                &&& final(self).dispatched@ == old(self).dispatched@
                &&& !final(self).closed
            },
    {
        if self.closed {
            Err(PoolError::ShutDown)
        } else {
            self.queue.push(job);
            proof {
                self.submitted@ = self.submitted@.push(job);
                assert(self.submitted@ =~= self.dispatched@ + self.queue@);
                if forall|i: int|
                    0 <= i < self.workers@.len() ==> (#[trigger] self.workers@[i]) is Terminated {
                    assert(self.workers@[0] is Terminated);
                    assert(false);
                }
            }
            Ok(())
        }
    }

    /// One scheduling decision for worker `w`, which must be waiting: hand
    /// it the job at the front of the queue if there is one; tell it to
    /// exit if the queue is empty and submission is closed; otherwise tell
    /// it to keep waiting.
    pub fn worker_step(&mut self, w: usize) -> (a: WorkerAction)
        requires
            old(self).wf(),
            w < old(self).workers@.len(),
            old(self).workers@[w as int] is Running,
        ensures
            final(self).wf(),
            final(self).closed == old(self).closed,
            final(self).submitted@ == old(self).submitted@,
            final(self).completed == old(self).completed,
            match a {
                WorkerAction::Run { job } => {
                    &&& old(self).queue@.len() > 0
                    &&& job == old(self).queue@[0]
                    &&& final(self).queue@ == old(self).queue@.drop_first()
                    &&& final(self).dispatched@ == old(self).dispatched@.push(job)
                    &&& final(self).workers@ == old(self).workers@.update(
                        w as int,
                        WorkerState::Executing { job },
                    )
                },
                WorkerAction::Wait => {
                    &&& old(self).queue@.len() == 0
                    &&& !old(self).closed
                    &&& *final(self) == *old(self)
                },
                WorkerAction::Exit => {
                    &&& old(self).queue@.len() == 0
                    &&& old(self).closed
                    &&& final(self).queue@ == old(self).queue@
                    &&& final(self).dispatched@ == old(self).dispatched@
                    &&& final(self).workers@ == old(self).workers@.update(
                        w as int,
                        WorkerState::Terminated,
                    )
                },
            },
    {
        if self.queue.len() > 0 {
            let job = self.queue.remove(0);
            self.workers.set(w, WorkerState::Executing { job });
            proof {
                self.dispatched@ = self.dispatched@.push(job);
                let oldq = old(self).queue@;
                assert(oldq =~= seq![job] + self.queue@);
                assert(old(self).dispatched@ + oldq =~= self.dispatched@ + self.queue@);
                lemma_executing_ms_start(old(self).workers@, w as int, job);
                let c = self.completed@.to_multiset();
                let e1 = executing_ms(old(self).workers@);
                let e2 = executing_ms(self.workers@);
                assert(self.dispatched@.to_multiset() =~= old(
                    self,
                ).dispatched@.to_multiset().insert(job));
                assert forall|v: u64| self.dispatched@.to_multiset().count(v) == c.add(e2).count(
                    v,
                ) by {
                    assert(old(self).dispatched@.to_multiset().count(v) == c.add(e1).count(v));
                }
                assert(self.dispatched@.to_multiset() =~= c.add(e2));
                assert(self.workers@[w as int] is Executing);
            }
            WorkerAction::Run { job }
        } else if self.closed {
            self.workers.set(w, WorkerState::Terminated);
            proof {
                lemma_executing_ms_same(old(self).workers@, w as int, WorkerState::Terminated);
            }
            WorkerAction::Exit
        } else {
            WorkerAction::Wait
        }
    }

    /// Worker `w` reports the job it was running as finished and goes back
    /// to waiting; the job joins the completion history.
    pub fn complete(&mut self, w: usize) -> (j: u64)
        requires
            old(self).wf(),
            w < old(self).workers@.len(),
            old(self).workers@[w as int] is Executing,
        ensures
            final(self).wf(),
            old(self).workers@[w as int] matches WorkerState::Executing { job } && j == job,
            final(self).workers@ == old(self).workers@.update(w as int, WorkerState::Running),
            final(self).completed@ == old(self).completed@.push(j),
            final(self).queue == old(self).queue,
            final(self).closed == old(self).closed,
            final(self).submitted@ == old(self).submitted@,
            final(self).dispatched@ == old(self).dispatched@,
    {
        let st = self.workers[w];
        match st {
            WorkerState::Executing { job } => {
                self.workers.set(w, WorkerState::Running);
                self.completed.push(job);
                proof {
                    lemma_executing_ms_finish(old(self).workers@, w as int, WorkerState::Running);
                    let c1 = old(self).completed@.to_multiset();
                    let c2 = self.completed@.to_multiset();
                    let e1 = executing_ms(old(self).workers@);
                    let e2 = executing_ms(self.workers@);
                    assert(c2 =~= c1.insert(job));
                    assert forall|v: u64| self.dispatched@.to_multiset().count(v) == c2.add(
                        e2,
                    ).count(v) by {
                        assert(self.dispatched@.to_multiset().count(v) == c1.add(e1).count(v));
                        assert(e1.count(v) == e2.insert(job).count(v));
                    }
                    assert(self.dispatched@.to_multiset() =~= c2.add(e2));
                    assert(self.workers@[w as int] is Running);
                }
                job
            },
            _ => {
                proof {
                    assert(false);
                }
                0
            },
        }
    }

    /// Closes the sending side: no further job may be submitted. Safe to
    /// call again; nothing else about the pool changes.
    pub fn shutdown(&mut self)
        requires
            old(self).wf(),
        ensures
            final(self).wf(),
            final(self).closed,
            final(self).workers == old(self).workers,
            final(self).queue == old(self).queue,
            final(self).completed == old(self).completed,
            final(self).submitted@ == old(self).submitted@,
            final(self).dispatched@ == old(self).dispatched@,
    {
        self.closed = true;
        proof {
            if forall|i: int|
                0 <= i < self.workers@.len() ==> (#[trigger] self.workers@[i]) is Terminated {
                assert(self.workers@[0] is Terminated);
                assert(old(self).closed);
            }
        }
    }
}

/// Law: every submitted job is accounted for exactly once — still queued,
/// running on exactly one worker, or completed — and jobs are dispatched to
/// workers in submission order (the dispatch history is a prefix of the
/// submission history).
pub proof fn lemma_jobs_conserved(p: &ThreadPool)
    requires
        p.wf(),
    ensures
        p.submitted@.to_multiset() == p.completed@.to_multiset().add(executing_ms(p.workers@)).add(
            p.queue@.to_multiset(),
        ),
        p.dispatched@ == p.submitted@.take(p.dispatched@.len() as int),
{
    lemma_multiset_commutative(p.dispatched@, p.queue@);
    assert(p.submitted@.to_multiset() =~= p.completed@.to_multiset().add(
        executing_ms(p.workers@),
    ).add(p.queue@.to_multiset()));
    assert(p.dispatched@ =~= p.submitted@.take(p.dispatched@.len() as int));
}

/// Law: once every worker has terminated, the queue is empty and the jobs
/// completed are exactly the jobs that were ever submitted — all in-flight
/// work finished before teardown.
pub proof fn lemma_teardown_complete(p: &ThreadPool)
    requires
        p.wf(),
        forall|i: int| 0 <= i < p.workers@.len() ==> (#[trigger] p.workers@[i]) is Terminated,
    ensures
        p.queue@.len() == 0,
        p.completed@.to_multiset() == p.submitted@.to_multiset(),
        p.completed@.len() == p.submitted@.len(),
{
    lemma_executing_ms_no_running(p.workers@);
    assert(p.submitted@ =~= p.dispatched@);
    assert(p.completed@.to_multiset() =~= p.submitted@.to_multiset());
    assert(p.completed@.len() == p.completed@.to_multiset().len());
    assert(p.submitted@.len() == p.submitted@.to_multiset().len());
}


} // verus!


