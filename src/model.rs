//! The mathematical model of a worker pool and its transitions.
use vstd::prelude::*;

verus! {

/// What a worker is doing.
#[derive(Clone, Copy, Debug, PartialEq, Eq, Structural)]
pub enum WorkerState {
    /// Waiting for a job.
    Idle,
    /// Running a job it took from the queue.
    Busy,
    /// Left its loop after the pool was closed and the queue drained.
    Stopped,
    /// Ended by a job that failed; never comes back.
    Lost,
}

/// What a worker that asks for work is told to do.
pub enum Decision<T> {
    /// Run this job, which has left the queue.
    Run(T),
    /// Nothing is queued yet: block until a job arrives or the pool closes.
    Wait,
    /// The pool is closed and drained: leave the loop.
    Exit,
}

/// The abstract state of a pool.
///
/// Jobs are numbered by submission order. The queue holds the jobs numbered
/// `started()` up to `submitted`, in order; every job numbered below
/// `started()` has either finished or is being run by exactly one worker.
pub struct PoolModel<T> {
    /// Whether submissions are still accepted.
    pub open: bool,
    /// The jobs not yet taken by a worker, oldest first.
    pub queue: Seq<T>,
    /// The state of each worker, by worker id.
    pub workers: Seq<WorkerState>,
    /// For a busy worker, the number of the job it runs.
    pub running: Seq<nat>,
    /// How many jobs were accepted so far.
    pub submitted: nat,
    /// The numbers of the jobs whose run has ended, normally or not.
    pub finished: Set<nat>,
}

pub open spec fn is_live(s: WorkerState) -> bool {
    s == WorkerState::Idle || s == WorkerState::Busy
}

impl<T> PoolModel<T> {
    /// A fresh pool of `size` idle workers and an empty, open queue.
    pub open spec fn initial(size: nat) -> PoolModel<T> {
        PoolModel {
            open: true,
            queue: Seq::empty(),
            workers: Seq::new(size, |w: int| WorkerState::Idle),
            running: Seq::new(size, |w: int| 0nat),
            submitted: 0,
            finished: Set::empty(),
        }
    }

    pub open spec fn size(self) -> nat {
        self.workers.len()
    }

    /// How many jobs have been taken from the queue.
    pub open spec fn started(self) -> nat {
        (self.submitted - self.queue.len()) as nat
    }

    pub open spec fn valid_worker(self, w: int) -> bool {
        0 <= w < self.size()
    }

    /// Worker `w` is running job number `i`.
    pub open spec fn busy_with(self, w: int, i: nat) -> bool {
        &&& self.valid_worker(w)
        &&& self.workers[w] == WorkerState::Busy
        &&& self.running[w] == i
    }

    /// Job number `i` waits in the queue.
    pub open spec fn is_queued(self, i: nat) -> bool {
        self.started() <= i < self.submitted
    }

    pub open spec fn has_live_worker(self) -> bool {
        exists|w: int| self.valid_worker(w) && is_live(#[trigger] self.workers[w])
    }

    pub open spec fn has_stopped_worker(self) -> bool {
        exists|w: int| self.valid_worker(w) && #[trigger] self.workers[w] == WorkerState::Stopped
    }

    /// A submission is accepted while the pool is open and some worker can
    /// still take it.
    pub open spec fn accepts(self) -> bool {
        self.open && self.has_live_worker()
    }

    pub open spec fn wf(self) -> bool {
        &&& self.size() >= 1
        &&& self.running.len() == self.size()
        &&& self.queue.len() <= self.submitted
        &&& forall|w: int|
            self.valid_worker(w) && #[trigger] self.workers[w] == WorkerState::Busy ==> {
                &&& self.running[w] < self.started()
                &&& !self.finished.contains(self.running[w])
            }
        &&& forall|v: int, w: int|
            #![trigger self.busy_with(v, self.running[w]), self.workers[w]]
            self.valid_worker(w) && self.workers[w] == WorkerState::Busy && self.busy_with(
                v,
                self.running[w],
            ) ==> v == w
        &&& forall|i: nat| #[trigger] self.finished.contains(i) ==> i < self.started()
        &&& forall|i: nat|
            i < self.started() && !#[trigger] self.finished.contains(i) ==> exists|w: int|
                self.busy_with(w, i)
        &&& self.has_stopped_worker() ==> !self.open && self.queue.len() == 0
    }

    /// Submitting `job`: appended to the queue when accepted, else nothing
    /// changes.
    pub open spec fn submit_step(self, job: T) -> PoolModel<T> {
        if self.accepts() {
            PoolModel { queue: self.queue.push(job), submitted: self.submitted + 1, ..self }
        } else {
            self
        }
    }

    /// Idle worker `w` asks for work: it takes the oldest queued job if there
    /// is one, waits while the pool is open, and stops once it is closed.
    pub open spec fn take_step(self, w: int) -> (PoolModel<T>, Decision<T>) {
        if self.queue.len() > 0 {
            (
                PoolModel {
                    queue: self.queue.drop_first(),
                    workers: self.workers.update(w, WorkerState::Busy),
                    running: self.running.update(w, self.started()),
                    ..self
                },
                Decision::Run(self.queue[0]),
            )
        } else if self.open {
            (self, Decision::Wait)
        } else {
            (PoolModel { workers: self.workers.update(w, WorkerState::Stopped), ..self }, Decision::Exit)
        }
    }

    /// Busy worker `w` ends its job: it goes back to waiting, or is lost when
    /// the job failed.
    pub open spec fn finish_step(self, w: int, failed: bool) -> PoolModel<T> {
        PoolModel {
            workers: self.workers.update(
                w,
                if failed {
                    WorkerState::Lost
                } else {
                    WorkerState::Idle
                },
            ),
            finished: self.finished.insert(self.running[w]),
            ..self
        }
    }

    /// Closing the pool: no more submissions.
    pub open spec fn close_step(self) -> PoolModel<T> {
        PoolModel { open: false, ..self }
    }
}

pub proof fn lemma_initial_wf<T>(size: nat)
    requires
        size >= 1,
    ensures
        PoolModel::<T>::initial(size).wf(),
{
    assert(!PoolModel::<T>::initial(size).has_stopped_worker());
}

pub proof fn lemma_submit_wf<T>(m: PoolModel<T>, job: T)
    requires
        m.wf(),
    ensures
        m.submit_step(job).wf(),
        m.submit_step(job).started() == m.started(),
{
    let n = m.submit_step(job);
    if m.accepts() {
        assert(n.started() == m.started());
        assert(n.has_stopped_worker() ==> m.has_stopped_worker());
        assert forall|i: nat| i < n.started() && !#[trigger] n.finished.contains(i) implies exists|
            w: int,
        | n.busy_with(w, i) by {
            let v = choose|v: int| m.busy_with(v, i);
            assert(n.busy_with(v, i));
        }
    }
}

pub proof fn lemma_take_wf<T>(m: PoolModel<T>, w: int)
    requires
        m.wf(),
        m.valid_worker(w),
        m.workers[w] == WorkerState::Idle,
    ensures
        m.take_step(w).0.wf(),
{
    let n = m.take_step(w).0;
    if m.queue.len() > 0 {
        assert(n.started() == m.started() + 1);
        assert(!m.has_stopped_worker());
        assert(!n.has_stopped_worker()) by {
            if n.has_stopped_worker() {
                let v = choose|v: int| n.valid_worker(v) && n.workers[v] == WorkerState::Stopped;
                assert(m.workers[v] == WorkerState::Stopped);
            }
        }
        assert forall|i: nat| i < n.started() && !#[trigger] n.finished.contains(i) implies exists|
            v: int,
        | n.busy_with(v, i) by {
            if i == m.started() {
                assert(n.busy_with(w, i));
            } else {
                let v = choose|v: int| m.busy_with(v, i);
                assert(v != w);
                assert(n.busy_with(v, i));
            }
        }
        assert forall|a: int, b: int|
            n.valid_worker(b) && n.workers[b] == WorkerState::Busy && n.busy_with(
                a,
                n.running[b],
            ) implies a == b by {
            if a != w && b != w {
                assert(m.busy_with(a, m.running[b]));
            }
        }
    } else if !m.open {
        assert forall|i: nat| i < n.started() && !#[trigger] n.finished.contains(i) implies exists|
            v: int,
        | n.busy_with(v, i) by {
            let v = choose|v: int| m.busy_with(v, i);
            assert(n.busy_with(v, i));
        }
        assert forall|a: int, b: int|
            n.valid_worker(b) && n.workers[b] == WorkerState::Busy && n.busy_with(
                a,
                n.running[b],
            ) implies a == b by {
            assert(m.busy_with(a, m.running[b]));
        }
    }
}

pub proof fn lemma_finish_wf<T>(m: PoolModel<T>, w: int, failed: bool)
    requires
        m.wf(),
        m.valid_worker(w),
        m.workers[w] == WorkerState::Busy,
    ensures
        m.finish_step(w, failed).wf(),
{
    let n = m.finish_step(w, failed);
    assert(n.has_stopped_worker() ==> m.has_stopped_worker()) by {
        if n.has_stopped_worker() {
            let v = choose|v: int| n.valid_worker(v) && n.workers[v] == WorkerState::Stopped;
            assert(m.workers[v] == WorkerState::Stopped);
        }
    }
    assert forall|v: int| n.valid_worker(v) && #[trigger] n.workers[v] == WorkerState::Busy implies {
        &&& n.running[v] < n.started()
        &&& !n.finished.contains(n.running[v])
    } by {
        assert(m.busy_with(v, m.running[v]));
        if m.running[v] == m.running[w] {
            assert(m.busy_with(v, m.running[w]));
        }
    }
    assert forall|i: nat| i < n.started() && !#[trigger] n.finished.contains(i) implies exists|
        v: int,
    | n.busy_with(v, i) by {
        let v = choose|v: int| m.busy_with(v, i);
        assert(n.busy_with(v, i));
    }
    assert forall|a: int, b: int|
        n.valid_worker(b) && n.workers[b] == WorkerState::Busy && n.busy_with(
            a,
            n.running[b],
        ) implies a == b by {
        assert(m.busy_with(a, m.running[b]));
    }
}

pub proof fn lemma_close_wf<T>(m: PoolModel<T>)
    requires
        m.wf(),
    ensures
        m.close_step().wf(),
{
    let n = m.close_step();
    assert forall|i: nat| i < n.started() && !#[trigger] n.finished.contains(i) implies exists|
        v: int,
    | n.busy_with(v, i) by {
        let v = choose|v: int| m.busy_with(v, i);
        assert(n.busy_with(v, i));
    }
    assert forall|a: int, b: int|
        n.valid_worker(b) && n.workers[b] == WorkerState::Busy && n.busy_with(
            a,
            n.running[b],
        ) implies a == b by {
        assert(m.busy_with(a, m.running[b]));
    }
    assert(n.has_stopped_worker() ==> m.has_stopped_worker()) by {
        if n.has_stopped_worker() {
            let v = choose|v: int| n.valid_worker(v) && n.workers[v] == WorkerState::Stopped;
            assert(m.workers[v] == WorkerState::Stopped);
        }
    }
}

} // verus!
