//! The bookkeeping of a fixed-size worker pool: which job runs next, how
//! many run at once, and when a worker may leave.
//!
//! The pool itself holds no thread. Each worker of the caller asks
//! [`WorkerPool::take`] for work while it holds the pool's lock, runs the job
//! it was given without the lock, and reports back with
//! [`WorkerPool::finish`].

use std::collections::VecDeque;
use vstd::prelude::*;

verus! {

/// Why a pool could not be built.
#[derive(Debug, Clone, Copy, PartialEq, Eq, Structural)]
pub enum PoolError {
    /// A pool needs at least one worker.
    InvalidPoolSize,
}

/// What a worker that asked for work is to do.
#[derive(Debug)]
pub enum Step<T> {
    /// Run this job, then report back.
    Run(T),
    /// Wait until a job is submitted or the pool is closed, then ask again.
    Wait,
    /// Leave: the pool is closed and no job is left.
    Exit,
}

/// What can happen to a pool.
pub enum Event<T> {
    /// A job is submitted.
    Execute(T),
    /// A worker asks for work.
    Take,
    /// A worker reports back.
    Finish,
    /// The pool is closed.
    Close,
}

/// The state of a pool: its size, the jobs that wait, oldest first, the
/// number of jobs that run, and whether the pool is closed.
pub struct PoolView<T> {
    pub size: nat,
    pub pending: Seq<T>,
    pub running: nat,
    pub closed: bool,
}

impl<T> PoolView<T> {
    /// What every pool keeps: it has a worker, and no more jobs run than it
    /// has workers.
    pub open spec fn wf(self) -> bool {
        1 <= self.size && self.running <= self.size
    }

    /// Whether a worker that asks is given a job.
    pub open spec fn ready(self) -> bool {
        self.pending.len() > 0 && self.running < self.size
    }

    /// The state after `job` was submitted: it waits behind the others,
    /// unless the pool is closed.
    pub open spec fn executed(self, job: T) -> PoolView<T> {
        if self.closed {
            self
        } else {
            PoolView { pending: self.pending.push(job), ..self }
        }
    }

    /// The state after a worker asked for work: where one is ready, the
    /// oldest job runs.
    pub open spec fn taken(self) -> PoolView<T> {
        if self.ready() {
            PoolView { pending: self.pending.drop_first(), running: self.running + 1, ..self }
        } else {
            self
        }
    }

    /// What a worker that asks for work is told.
    pub open spec fn step(self) -> Step<T> {
        if self.ready() {
            Step::Run(self.pending[0])
        } else if self.closed && self.pending.len() == 0 {
            Step::Exit
        } else {
            Step::Wait
        }
    }

    /// The state after a worker reported back.
    pub open spec fn finished(self) -> PoolView<T> {
        if self.running > 0 {
            PoolView { running: (self.running - 1) as nat, ..self }
        } else {
            self
        }
    }

    /// The state after the pool was closed.
    pub open spec fn shut(self) -> PoolView<T> {
        PoolView { closed: true, ..self }
    }

    /// The state after `event`.
    pub open spec fn apply(self, event: Event<T>) -> PoolView<T> {
        match event {
            Event::Execute(job) => self.executed(job),
            Event::Take => self.taken(),
            Event::Finish => self.finished(),
            Event::Close => self.shut(),
        }
    }

    /// The state after `events`, which happen one after the other.
    pub open spec fn after(self, events: Seq<Event<T>>) -> PoolView<T>
        decreases events.len(),
    {
        if events.len() == 0 {
            self
        } else {
            self.after(events.drop_last()).apply(events.last())
        }
    }

    /// The jobs that the pool accepted in the course of `events`, in the
    /// order of their submission.
    pub open spec fn accepted(self, events: Seq<Event<T>>) -> Seq<T>
        decreases events.len(),
    {
        if events.len() == 0 {
            Seq::empty()
        } else {
            let earlier = self.accepted(events.drop_last());
            match events.last() {
                Event::Execute(job) => if self.after(events.drop_last()).closed {
                    earlier
                } else {
                    earlier.push(job)
                },
                _ => earlier,
            }
        }
    }

    /// The jobs that workers were given in the course of `events`, in the
    /// order in which they were given them.
    pub open spec fn started(self, events: Seq<Event<T>>) -> Seq<T>
        decreases events.len(),
    {
        if events.len() == 0 {
            Seq::empty()
        } else {
            let earlier = self.started(events.drop_last());
            let before = self.after(events.drop_last());
            match events.last() {
                Event::Take => if before.ready() {
                    earlier.push(before.pending[0])
                } else {
                    earlier
                },
                _ => earlier,
            }
        }
    }
}

/// A worker asks for work and reports back, `rounds` times over.
pub open spec fn serving<T>(rounds: nat) -> Seq<Event<T>>
    decreases rounds,
{
    if rounds == 0 {
        Seq::empty()
    } else {
        serving::<T>((rounds - 1) as nat).push(Event::Take).push(Event::Finish)
    }
}

/// The workers of a pool: how many there are, and how many are busy.
struct Workers {
    size: usize,
    running: usize,
}

impl Workers {
    /// There is a worker, and no more are busy than there are.
    #[verifier::type_invariant]
    spec fn inv(&self) -> bool {
        1 <= self.size && self.running <= self.size
    }
}

/// The bookkeeping of a pool of workers that run jobs of type `T`.
pub struct WorkerPool<T> {
    workers: Workers,
    pending: VecDeque<T>,
    closed: bool,
}

impl<T> View for WorkerPool<T> {
    type V = PoolView<T>;

    closed spec fn view(&self) -> PoolView<T> {
        PoolView {
            size: self.workers.size as nat,
            pending: self.pending@,
            running: self.workers.running as nat,
            closed: self.closed,
        }
    }
}

impl<T> WorkerPool<T> {
    /// A pool of `size` workers, none of them busy, with no job waiting.
    /// There is no pool without a worker.
    pub fn build(size: usize) -> (result: Result<WorkerPool<T>, PoolError>)
        ensures
            match result {
                Ok(pool) => size >= 1 && pool@.wf() && pool@ == (PoolView::<T> {
                    size: size as nat,
                    pending: Seq::empty(),
                    running: 0,
                    closed: false,
                }),
                Err(error) => size == 0 && error == PoolError::InvalidPoolSize,
            },
    {
        if size == 0 {
            return Err(PoolError::InvalidPoolSize);
        }
        Ok(
            WorkerPool {
                workers: Workers { size, running: 0 },
                pending: VecDeque::new(),
                closed: false,
            },
        )
    }

    /// Submits `job`: it will run after the jobs submitted before it. A
    /// closed pool takes no job and hands it back.
    pub fn execute(&mut self, job: T) -> (result: Result<(), T>)
        ensures
            final(self)@ == old(self)@.executed(job),
            final(self)@.wf(),
            result == if old(self)@.closed {
                Err::<(), T>(job)
            } else {
                Ok::<(), T>(())
            },
    {
        proof {
            use_type_invariant(&self.workers);
        }
        if self.closed {
            return Err(job);
        }
        self.pending.push_back(job);
        Ok(())
    }

    /// Asks for work, for a worker that runs no job.
    pub fn take(&mut self) -> (step: Step<T>)
        ensures
            final(self)@ == old(self)@.taken(),
            final(self)@.wf(),
            step == old(self)@.step(),
    {
        proof {
            use_type_invariant(&self.workers);
        }
        if self.workers.running < self.workers.size {
            if let Some(job) = self.pending.pop_front() {
                self.workers.running = self.workers.running + 1;
                assert(self.pending@ == old(self).pending@.drop_first());
                return Step::Run(job);
            }
        }
        if self.closed && self.pending.len() == 0 {
            Step::Exit
        } else {
            Step::Wait
        }
    }

    /// Reports that a worker is done with its job, whether the job failed
    /// or not.
    pub fn finish(&mut self)
        ensures
            final(self)@ == old(self)@.finished(),
            final(self)@.wf(),
    {
        proof {
            use_type_invariant(&self.workers);
        }
        if self.workers.running > 0 {
            self.workers.running = self.workers.running - 1;
        }
    }

    /// Closes the pool: the jobs that wait still run, and then the workers
    /// leave.
    pub fn close(&mut self)
        ensures
            final(self)@ == old(self)@.shut(),
            final(self)@.wf(),
    {
        proof {
            use_type_invariant(&self.workers);
        }
        self.closed = true;
    }

    /// The number of workers.
    pub fn size(&self) -> (size: usize)
        ensures
            size == self@.size,
            size >= 1,
    {
        proof {
            use_type_invariant(&self.workers);
        }
        self.workers.size
    }

    /// The number of jobs that run: never more than there are workers.
    pub fn running(&self) -> (running: usize)
        ensures
            running == self@.running,
            running <= self@.size,
    {
        proof {
            use_type_invariant(&self.workers);
        }
        self.workers.running
    }

    /// The number of jobs that wait.
    pub fn pending(&self) -> (pending: usize)
        ensures
            pending == self@.pending.len(),
    {
        self.pending.len()
    }

    /// Whether the pool is closed.
    pub fn is_closed(&self) -> (closed: bool)
        ensures
            closed == self@.closed,
    {
        self.closed
    }
}

/// At no instant do more jobs run than the pool has workers: whatever
/// happens to a pool, and in whatever order, it keeps its bound.
pub proof fn lemma_never_over_size<T>(pool: PoolView<T>, events: Seq<Event<T>>)
    requires
        pool.wf(),
    ensures
        pool.after(events).wf(),
        pool.after(events).size == pool.size,
    decreases events.len(),
{
    if events.len() > 0 {
        lemma_never_over_size(pool, events.drop_last());
    }
}

/// No job is lost and none runs twice: whatever happens to a pool, the jobs
/// that workers were given, followed by the jobs that still wait, are the
/// jobs that waited at first, followed by the jobs that were accepted since,
/// each once and all in the order of their submission.
pub proof fn lemma_jobs_start_once_in_order<T>(pool: PoolView<T>, events: Seq<Event<T>>)
    ensures
        pool.started(events) + pool.after(events).pending == pool.pending + pool.accepted(events),
    decreases events.len(),
{
    if events.len() == 0 {
        assert(Seq::<T>::empty() + pool.pending == pool.pending + Seq::<T>::empty());
    } else {
        let earlier = events.drop_last();
        let before = pool.after(earlier);
        lemma_jobs_start_once_in_order(pool, earlier);
        let started = pool.started(earlier);
        let accepted = pool.accepted(earlier);
        assert(started + before.pending == pool.pending + accepted);
        match events.last() {
            Event::Execute(job) => {
                if !before.closed {
                    assert(started + before.pending.push(job) == (started + before.pending).push(
                        job,
                    ));
                    assert(pool.pending + accepted.push(job) == (pool.pending + accepted).push(
                        job,
                    ));
                }
            },
            Event::Take => {
                if before.ready() {
                    assert(started.push(before.pending[0]) + before.pending.drop_first() == started
                        + before.pending);
                }
            },
            _ => {},
        }
    }
}

/// A job that waits is started as soon as a worker that is free asks.
pub proof fn lemma_free_worker_is_given_work<T>(pool: PoolView<T>)
    requires
        pool.pending.len() > 0,
        pool.running < pool.size,
    ensures
        pool.step() == Step::Run(pool.pending[0]),
        pool.taken().pending == pool.pending.drop_first(),
{
}

/// Every job gets its turn: where no job runs, a worker that asks and
/// reports back as many times as jobs wait is given each of them, oldest
/// first, and leaves none waiting and none running.
pub proof fn lemma_all_jobs_run<T>(pool: PoolView<T>, rounds: nat)
    requires
        pool.wf(),
        pool.running == 0,
        rounds <= pool.pending.len(),
    ensures
        pool.after(serving(rounds)) == (PoolView {
            pending: pool.pending.skip(rounds as int),
            ..pool
        }),
        pool.started(serving(rounds)) == pool.pending.take(rounds as int),
    decreases rounds,
{
    if rounds == 0 {
        assert(pool.pending.skip(0) == pool.pending);
        assert(pool.pending.take(0) == Seq::<T>::empty());
    } else {
        let fewer = (rounds - 1) as nat;
        let earlier = serving::<T>(fewer);
        let asked = earlier.push(Event::Take);
        let events = asked.push(Event::Finish);
        lemma_all_jobs_run(pool, fewer);
        let before = pool.after(earlier);
        assert(asked.drop_last() == earlier);
        assert(events.drop_last() == asked);
        assert(before.ready());
        assert(before.pending[0] == pool.pending[fewer as int]);
        assert(before.pending.drop_first() == pool.pending.skip(rounds as int));
        assert(pool.pending.take(fewer as int).push(pool.pending[fewer as int])
            == pool.pending.take(rounds as int));
        assert(pool.after(asked) == before.taken());
        assert(pool.after(events) == before.taken().finished());
        assert(pool.started(asked) == pool.started(earlier).push(before.pending[0]));
        assert(pool.started(events) == pool.started(asked));
        assert(serving::<T>(rounds) == events);
    }
}

} // verus!
