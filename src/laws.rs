//! Properties of the pool that span several transitions.
use vstd::prelude::*;

use crate::model::{is_live, lemma_finish_wf, lemma_take_wf, Decision, PoolModel, WorkerState};

verus! {

/// Every accepted job is in exactly one place: waiting in the queue, being
/// run by a single worker, or finished. No job is lost or run twice.
pub proof fn lemma_each_job_in_one_place<T>(m: PoolModel<T>, i: nat)
    requires
        m.wf(),
        i < m.submitted,
    ensures
        m.is_queued(i) || m.finished.contains(i) || exists|w: int| m.busy_with(w, i),
        m.is_queued(i) ==> !m.finished.contains(i),
        forall|w: int| m.busy_with(w, i) ==> !m.is_queued(i) && !m.finished.contains(i),
        forall|v: int, w: int| m.busy_with(v, i) && m.busy_with(w, i) ==> v == w,
{
    assert forall|v: int, w: int| m.busy_with(v, i) && m.busy_with(w, i) implies v == w by {
        assert(m.busy_with(v, m.running[w]));
    }
}

/// One request for work removes exactly one job, the oldest, and gives it
/// to the asking worker alone.
pub proof fn lemma_take_hands_out_one<T>(m: PoolModel<T>, w: int)
    requires
        m.wf(),
        m.valid_worker(w),
        m.workers[w] == WorkerState::Idle,
        m.queue.len() > 0,
    ensures
        m.take_step(w).1 == Decision::Run(m.queue[0]),
        m.take_step(w).0.queue == m.queue.drop_first(),
        m.take_step(w).0.busy_with(w, m.started()),
        forall|v: int| v != w ==> !#[trigger] m.take_step(w).0.busy_with(v, m.started()),
        forall|j: nat|
            #[trigger] m.take_step(w).0.is_queued(j) <==> m.is_queued(j) && j != m.started(),
{
    let n = m.take_step(w).0;
    lemma_take_wf(m, w);
    assert forall|v: int| v != w implies !#[trigger] n.busy_with(v, m.started()) by {
        assert(n.busy_with(w, n.running[w]));
    }
}

/// Two jobs submitted one after the other, with two idle workers, go one
/// to each worker and run at the same time.
pub proof fn lemma_back_to_back_jobs_run_apart<T>(
    m: PoolModel<T>,
    a: T,
    b: T,
    v: int,
    w: int,
)
    requires
        m.wf(),
        m.accepts(),
        m.queue.len() == 0,
        m.valid_worker(v),
        m.valid_worker(w),
        v != w,
        m.workers[v] == WorkerState::Idle,
        m.workers[w] == WorkerState::Idle,
    ensures
        ({
            let q = m.submit_step(a).submit_step(b);
            let (r, da) = q.take_step(v);
            let (s, db) = r.take_step(w);
            &&& da == Decision::Run(a)
            &&& db == Decision::Run(b)
            &&& s.busy_with(v, m.submitted)
            &&& s.busy_with(w, m.submitted + 1)
            &&& s.queue.len() == 0
        }),
{
    let p = m.submit_step(a);
    assert(p.accepts()) by {
        let x = choose|x: int| m.valid_worker(x) && is_live(m.workers[x]);
        assert(p.valid_worker(x) && is_live(p.workers[x]));
    }
    let q = p.submit_step(b);
    assert(q.queue =~= seq![a, b]);
    let r = q.take_step(v).0;
    assert(r.queue =~= seq![b]);
}

/// Applies `n` rounds in which worker `w` takes the oldest job and runs it
/// to a normal end.
pub open spec fn serve<T>(m: PoolModel<T>, w: int, n: nat) -> PoolModel<T>
    decreases n,
{
    if n == 0 {
        m
    } else {
        serve(m.take_step(w).0.finish_step(w, false), w, (n - 1) as nat)
    }
}

proof fn lemma_serve<T>(m: PoolModel<T>, w: int, n: nat)
    requires
        m.wf(),
        m.valid_worker(w),
        m.workers[w] == WorkerState::Idle,
        n <= m.queue.len(),
    ensures
        serve(m, w, n).wf(),
        serve(m, w, n).size() == m.size(),
        serve(m, w, n).workers[w] == WorkerState::Idle,
        serve(m, w, n).queue == m.queue.subrange(n as int, m.queue.len() as int),
        serve(m, w, n).submitted == m.submitted,
        serve(m, w, n).open == m.open,
        forall|i: nat| m.started() <= i < m.started() + n ==> serve(m, w, n).finished.contains(i),
        forall|i: nat| m.finished.contains(i) ==> serve(m, w, n).finished.contains(i),
    decreases n,
{
    if n == 0 {
        assert(m.queue.subrange(0, m.queue.len() as int) =~= m.queue);
    } else {
        let t = m.take_step(w).0;
        lemma_take_wf(m, w);
        let k = t.finish_step(w, false);
        lemma_finish_wf(t, w, false);
        assert(k.finished.contains(m.started()));
        lemma_serve(k, w, (n - 1) as nat);
        assert forall|i: nat| m.finished.contains(i) implies serve(m, w, n).finished.contains(i) by {
            assert(k.finished.contains(i));
        }
        assert(k.queue.subrange((n - 1) as int, k.queue.len() as int) =~= m.queue.subrange(
            n as int,
            m.queue.len() as int,
        ));
    }
}

/// A single idle worker, left alone, runs every queued job to its end, in
/// order; once the pool is closed it is then told to exit.
pub proof fn lemma_one_worker_drains_queue<T>(m: PoolModel<T>, w: int)
    requires
        m.wf(),
        m.valid_worker(w),
        m.workers[w] == WorkerState::Idle,
    ensures
        ({
            let f = serve(m, w, m.queue.len());
            &&& f.wf()
            &&& f.queue.len() == 0
            &&& forall|i: nat| m.is_queued(i) ==> f.finished.contains(i)
            &&& f.workers[w] == WorkerState::Idle
            &&& !m.open ==> f.take_step(w).1 == Decision::<T>::Exit
        }),
{
    lemma_serve(m, w, m.queue.len());
}

/// Once the pool is closed and every worker has stopped, the queue is empty
/// and every job ever accepted has finished.
pub proof fn lemma_teardown_barrier<T>(m: PoolModel<T>)
    requires
        m.wf(),
        forall|w: int| m.valid_worker(w) ==> #[trigger] m.workers[w] == WorkerState::Stopped,
    ensures
        !m.open,
        m.queue.len() == 0,
        forall|i: nat| i < m.submitted ==> #[trigger] m.finished.contains(i),
{
    assert(m.valid_worker(0) && m.workers[0] == WorkerState::Stopped);
    assert forall|i: nat| i < m.submitted implies #[trigger] m.finished.contains(i) by {
        if !m.finished.contains(i) {
            let w = choose|w: int| m.busy_with(w, i);
        }
    }
}

/// A failed job takes down its own worker and nothing else: the other
/// workers, the queue and the pool's openness are as before, and while
/// another worker is live the pool accepts jobs and hands them out.
pub proof fn lemma_failure_is_isolated<T>(m: PoolModel<T>, w: int, v: int)
    requires
        m.wf(),
        m.valid_worker(w),
        m.workers[w] == WorkerState::Busy,
        m.valid_worker(v),
        v != w,
        is_live(m.workers[v]),
    ensures
        ({
            let n = m.finish_step(w, true);
            &&& n.wf()
            &&& n.workers[w] == WorkerState::Lost
            &&& forall|x: int| n.valid_worker(x) && x != w ==> n.workers[x] == m.workers[x]
            &&& n.queue == m.queue
            &&& n.open == m.open
            &&& n.accepts() == m.open
            &&& (m.workers[v] == WorkerState::Idle && m.queue.len() > 0) ==> n.take_step(v).1
                == Decision::Run(m.queue[0])
        }),
{
    let n = m.finish_step(w, true);
    lemma_finish_wf(m, w, true);
    assert(n.valid_worker(v) && is_live(n.workers[v]));
}

} // verus!
