//! The executable dispatcher: a job queue and the states of the workers.
use std::collections::VecDeque;
use vstd::prelude::*;

use crate::model::{
    is_live, lemma_close_wf, lemma_finish_wf, lemma_initial_wf, lemma_submit_wf, lemma_take_wf,
    Decision, PoolModel, WorkerState,
};

verus! {

/// The shared heart of a worker pool: the queue of jobs not yet taken, the
/// state of each worker, and whether the pool still accepts work.
pub struct Dispatcher<T> {
    queue: VecDeque<T>,
    workers: Vec<WorkerState>,
    open: bool,
    running: Ghost<Seq<nat>>,
    submitted: Ghost<nat>,
    finished: Ghost<Set<nat>>,
}

impl<T> View for Dispatcher<T> {
    type V = PoolModel<T>;

    closed spec fn view(&self) -> PoolModel<T> {
        PoolModel {
            open: self.open,
            queue: self.queue@,
            workers: self.workers@,
            running: self.running@,
            submitted: self.submitted@,
            finished: self.finished@,
        }
    }
}

impl<T> Dispatcher<T> {
    /// A pool of `size` idle workers, open, with nothing queued.
    pub fn new(size: usize) -> (r: Self)
        requires
            size > 0,
        ensures
            r@ == PoolModel::<T>::initial(size as nat),
            r@.wf(),
            r@.size() == size,
            r@.accepts(),
            forall|w: int| 0 <= w < size ==> #[trigger] r@.workers[w] == WorkerState::Idle,
    {
        let mut workers: Vec<WorkerState> = Vec::with_capacity(size);
        let mut i: usize = 0;
        while i < size
            invariant
                i <= size,
                workers@ == Seq::new(i as nat, |w: int| WorkerState::Idle),
            decreases size - i,
        {
            workers.push(WorkerState::Idle);
            i = i + 1;
            assert(workers@ =~= Seq::new(i as nat, |w: int| WorkerState::Idle));
        }
        let r = Dispatcher {
            queue: VecDeque::new(),
            workers,
            open: true,
            running: Ghost(Seq::new(size as nat, |w: int| 0nat)),
            submitted: Ghost(0),
            finished: Ghost(Set::empty()),
        };
        assert(r@ =~= PoolModel::<T>::initial(size as nat));
        proof {
            lemma_initial_wf::<T>(size as nat);
            assert(r@.valid_worker(0) && is_live(r@.workers[0]));
        }
        r
    }

    /// Whether some worker is idle or busy, and so can still take jobs.
    fn has_live_worker(&self) -> (r: bool)
        ensures
            r == self@.has_live_worker(),
    {
        let mut i: usize = 0;
        while i < self.workers.len()
            invariant
                i <= self.workers@.len(),
                forall|v: int| 0 <= v < i ==> !is_live(#[trigger] self.workers@[v]),
            decreases self.workers@.len() - i,
        {
            let s = self.workers[i];
            if s == WorkerState::Idle || s == WorkerState::Busy {
                assert(self@.valid_worker(i as int) && is_live(self@.workers[i as int]));
                return true;
            }
            i = i + 1;
        }
        false
    }

    /// Queues `job` behind every job submitted before it. The pool refuses
    /// the job, and hands it back, once it is closed or once no worker is
    /// left to run it.
    pub fn submit(&mut self, job: T) -> (r: Result<(), T>)
        requires
            old(self)@.wf(),
        ensures
            final(self)@ == old(self)@.submit_step(job),
            final(self)@.wf(),
            r is Ok <==> old(self)@.accepts(),
            r matches Err(j) ==> j == job,
    {
        proof {
            lemma_submit_wf(self@, job);
        }
        if self.open && self.has_live_worker() {
            self.queue.push_back(job);
            self.submitted = Ghost(self.submitted@ + 1);
            assert(self@ =~= old(self)@.submit_step(job));
            Ok(())
        } else {
            Err(job)
        }
    }

    /// Idle worker `w` asks for work. It is handed the oldest queued job, and
    /// becomes busy; with nothing queued it waits while the pool is open and
    /// stops once the pool is closed.
    pub fn take(&mut self, w: usize) -> (r: Decision<T>)
        requires
            old(self)@.wf(),
            old(self)@.valid_worker(w as int),
            old(self)@.workers[w as int] == WorkerState::Idle,
        ensures
            (final(self)@, r) == old(self)@.take_step(w as int),
            final(self)@.wf(),
    {
        proof {
            lemma_take_wf(self@, w as int);
        }
        let ghost started = self@.started();
        match self.queue.pop_front() {
            Some(job) => {
                self.workers.set(w, WorkerState::Busy);
                self.running = Ghost(self.running@.update(w as int, started));
                assert(self@ =~= old(self)@.take_step(w as int).0);
                Decision::Run(job)
            },
            None => {
                if self.open {
                    Decision::Wait
                } else {
                    self.workers.set(w, WorkerState::Stopped);
                    assert(self@ =~= old(self)@.take_step(w as int).0);
                    Decision::Exit
                }
            },
        }
    }

    /// Busy worker `w` reports that its job has ended, normally or, when
    /// `failed`, abnormally. A worker whose job failed is lost for good.
    pub fn finish(&mut self, w: usize, failed: bool)
        requires
            old(self)@.wf(),
            old(self)@.valid_worker(w as int),
            old(self)@.workers[w as int] == WorkerState::Busy,
        ensures
            final(self)@ == old(self)@.finish_step(w as int, failed),
            final(self)@.wf(),
    {
        proof {
            lemma_finish_wf(self@, w as int, failed);
        }
        let ghost job = self.running@[w as int];
        if failed {
            self.workers.set(w, WorkerState::Lost);
        } else {
            self.workers.set(w, WorkerState::Idle);
        }
        self.finished = Ghost(self.finished@.insert(job));
        assert(self@ =~= old(self)@.finish_step(w as int, failed));
    }

    /// Stops accepting jobs. Queued jobs are still handed out; after them,
    /// idle workers are told to exit.
    pub fn close(&mut self)
        requires
            old(self)@.wf(),
        ensures
            final(self)@ == old(self)@.close_step(),
            final(self)@.wf(),
    {
        proof {
            lemma_close_wf(self@);
        }
        self.open = false;
        assert(self@ =~= old(self)@.close_step());
    }

    /// The number of workers.
    pub fn size(&self) -> (r: usize)
        ensures
            r == self@.size(),
    {
        self.workers.len()
    }

    /// The state of worker `w`.
    pub fn state(&self, w: usize) -> (r: WorkerState)
        requires
            self@.valid_worker(w as int),
        ensures
            r == self@.workers[w as int],
    {
        self.workers[w]
    }

    /// Whether the pool still accepts jobs.
    pub fn is_open(&self) -> (r: bool)
        ensures
            r == self@.open,
    {
        self.open
    }

    /// The number of jobs waiting in the queue.
    pub fn pending(&self) -> (r: usize)
        ensures
            r == self@.queue.len(),
    {
        self.queue.len()
    }
}

} // verus!
