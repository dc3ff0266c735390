//! A model of the worker pool and the shutdown protocol: the shared FIFO
//! job queue, the fixed worker count, and the flag with which the signal
//! thread stops the acceptor. The threads, sockets and signals themselves
//! live outside the verified core; every decision they take — what to
//! enqueue, which job runs next, whether to accept — is taken here.
use vstd::prelude::*;

verus! {

/// What taking a job yields on a queue: the front job and the rest.
pub open spec fn spec_take(q: Seq<u64>) -> (Option<u64>, Seq<u64>) {
    if q.len() == 0 {
        (None, q)
    } else {
        (Some(q[0]), q.skip(1))
    }
}

/// Whether the acceptor admits a new connection under the flag.
pub open spec fn spec_accepts(shutdown: bool) -> bool {
    !shutdown
}

/// The pool's bookkeeping: a fixed worker count, the queue of pending
/// jobs in submission order, and the shutdown flag.
pub struct WorkerPool {
    workers: usize,
    queue: Vec<u64>,
    shutdown: bool,
}

impl WorkerPool {
    /// The fixed worker count, set at construction and never changed.
    pub closed spec fn workers(&self) -> usize {
        self.workers
    }

    /// The queued jobs, front first.
    pub closed spec fn jobs(&self) -> Seq<u64> {
        self.queue@
    }

    /// Whether shutdown was requested.
    pub closed spec fn is_shutdown(&self) -> bool {
        self.shutdown
    }

    pub fn new(workers: usize) -> (r: WorkerPool)
        requires
            1 <= workers,
        ensures
            r.workers() == workers,
            r.jobs() == Seq::<u64>::empty(),
            !r.is_shutdown(),
    {
        let r = WorkerPool { workers, queue: Vec::new(), shutdown: false };
        proof {
            assert(r.queue@ =~= Seq::<u64>::empty());
        }
        r
    }

    /// Enqueue a job at the back. Submission is never refused and does not
    /// wait for a worker: the queue has no bound.
    pub fn execute(&mut self, job: u64)
        ensures
            final(self).jobs() == old(self).jobs().push(job),
            final(self).workers() == old(self).workers(),
            final(self).is_shutdown() == old(self).is_shutdown(),
    {
        self.queue.push(job);
    }

    /// Take the job at the front, if any. Taking never consults the
    /// shutdown flag: queued work is still drained while shutting down.
    pub fn take_job(&mut self) -> (r: Option<u64>)
        ensures
            (r, final(self).jobs()) == spec_take(old(self).jobs()),
            final(self).workers() == old(self).workers(),
            final(self).is_shutdown() == old(self).is_shutdown(),
    {
        if self.queue.len() == 0 {
            None
        } else {
            let j = self.queue.remove(0);
            proof {
                assert(self.queue@ =~= old(self).queue@.skip(1));
            }
            Some(j)
        }
    }

    /// Raise the shutdown flag. No operation ever resets it: the flag only
    /// moves from false to true.
    pub fn request_shutdown(&mut self)
        ensures
            final(self).is_shutdown(),
            final(self).jobs() == old(self).jobs(),
            final(self).workers() == old(self).workers(),
    {
        self.shutdown = true;
    }

    /// Whether the acceptor may admit a new connection.
    pub fn accepts_connections(&self) -> (r: bool)
        ensures
            r == spec_accepts(self.is_shutdown()),
    {
        !self.shutdown
    }
}

/// The acceptor's lifecycle.
#[derive(Clone, Copy, Debug, PartialEq, Eq, Structural)]
pub enum Lifecycle {
    /// Accepting connections.
    Running,
    /// The flag is raised; no new connection, queued work continues.
    Draining,
    /// The accept loop has exited; only joining remains.
    Stopped,
}

/// What can happen to the lifecycle.
#[derive(Clone, Copy, Debug, PartialEq, Eq, Structural)]
pub enum LifecycleEvent {
    /// A termination signal arrived.
    Signal,
    /// The accept loop observed the flag and exited.
    AcceptLoopExit,
}

/// The transition table of the shutdown protocol: a termination signal
/// moves a running server to draining, the accept loop's exit moves a
/// draining server to stopped, and nothing else changes the state.
pub open spec fn spec_lifecycle_step(s: Lifecycle, e: LifecycleEvent) -> Lifecycle {
    match (s, e) {
        (Lifecycle::Running, LifecycleEvent::Signal) => Lifecycle::Draining,
        (Lifecycle::Draining, LifecycleEvent::AcceptLoopExit) => Lifecycle::Stopped,
        _ => s,
    }
}

pub fn lifecycle_step(s: Lifecycle, e: LifecycleEvent) -> (r: Lifecycle)
    ensures
        r == spec_lifecycle_step(s, e),
{
    match (s, e) {
        (Lifecycle::Running, LifecycleEvent::Signal) => Lifecycle::Draining,
        (Lifecycle::Draining, LifecycleEvent::AcceptLoopExit) => Lifecycle::Stopped,
        _ => s,
    }
}

/// How far along the shutdown a state is.
pub open spec fn spec_lifecycle_rank(s: Lifecycle) -> int {
    match s {
        Lifecycle::Running => 0,
        Lifecycle::Draining => 1,
        Lifecycle::Stopped => 2,
    }
}

/// The lifecycle only moves forward: no event brings a draining or
/// stopped server back towards running.
pub proof fn lemma_lifecycle_monotone(s: Lifecycle, e: LifecycleEvent)
    ensures
        spec_lifecycle_rank(spec_lifecycle_step(s, e)) >= spec_lifecycle_rank(s),
{
}

/// No submitted job is lost and none is duplicated: enqueuing adds exactly
/// the new job to the pending multiset, and taking removes exactly the
/// front job. Together with `take_job`'s contract this means every job is
/// handed out exactly once, however submissions and workers interleave.
pub proof fn lemma_jobs_conserved(q: Seq<u64>, j: u64)
    ensures
        q.push(j).to_multiset() == q.to_multiset().insert(j),
        q.len() > 0 ==> q.skip(1).to_multiset() == q.to_multiset().remove(q[0]),
{
    q.to_multiset_ensures();
    assert(q.push(j).to_multiset() =~= q.to_multiset().insert(j));
    if q.len() > 0 {
        assert(q.remove(0) =~= q.skip(1));
        assert(q.remove(0).to_multiset() =~= q.to_multiset().remove(q[0]));
    }
}

/// After the flag is raised no new connection is admitted, yet a job
/// already queued is still handed out: draining completes queued work.
pub proof fn lemma_drain_after_shutdown(q: Seq<u64>)
    requires
        q.len() > 0,
    ensures
        !spec_accepts(true),
        spec_take(q).0 == Some(q[0]),
        spec_take(q).1.len() == q.len() - 1,
{
}

} // verus!
