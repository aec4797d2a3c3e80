//! The worker pool's decision core: a verified state machine over job
//! tickets. The surrounding runtime owns the threads and the real job
//! closures; it identifies each job by a ticket (`usize`) and consults this
//! core for every accept/deliver/shutdown decision, so that the dispatch
//! rules — accept only while open, deliver each accepted job exactly once,
//! in FIFO order, keep everything already accepted across shutdown — are
//! proved here rather than hoped for there.

use vstd::prelude::*;
use crate::PoolError;

verus! {

/// State of a worker pool: its fixed size, whether submission is still open,
/// and the queue of accepted-but-undelivered job tickets. Two ghost journals
/// record every ticket ever accepted and every ticket ever delivered.
pub struct PoolCore {
    size: usize,
    open: bool,
    queue: Vec<usize>,
    submitted: Ghost<Seq<usize>>,
    delivered: Ghost<Seq<usize>>,
}

impl PoolCore {
    /// The number of workers the pool was created with.
    pub closed spec fn spec_size(&self) -> usize {
        self.size
    }

    /// Whether the pool still accepts submissions.
    pub closed spec fn is_open(&self) -> bool {
        self.open
    }

    /// Tickets accepted but not yet handed to a worker, oldest first.
    pub closed spec fn pending(&self) -> Seq<usize> {
        self.queue@
    }

    /// Every ticket the pool ever accepted, in submission order.
    pub closed spec fn submitted_jobs(&self) -> Seq<usize> {
        self.submitted@
    }

    /// Every ticket the pool ever handed to a worker, in delivery order.
    pub closed spec fn delivered_jobs(&self) -> Seq<usize> {
        self.delivered@
    }

    /// The pool's invariant: at least one worker, and conservation — the
    /// accepted tickets are exactly the delivered ones followed by the
    /// pending ones. Nothing is lost, duplicated, or reordered.
    pub open spec fn wf(&self) -> bool {
        &&& self.spec_size() >= 1
        &&& self.submitted_jobs() == self.delivered_jobs() + self.pending()
    }

    /// Creates a pool of `size` workers. A size of zero is a configuration
    /// error reported as a value, never an abort.
    pub fn create(size: usize) -> (r: Result<PoolCore, PoolError>)
        ensures
            match r {
                Ok(p) => {
                    &&& size >= 1
                    &&& p.wf()
                    &&& p.spec_size() == size
                    &&& p.is_open()
                    &&& p.pending() == Seq::<usize>::empty()
                    &&& p.submitted_jobs() == Seq::<usize>::empty()
                    &&& p.delivered_jobs() == Seq::<usize>::empty()
                },
                Err(e) => size == 0 && e == PoolError::InvalidPoolSize,
            },
    {
        if size == 0 {
            return Err(PoolError::InvalidPoolSize);
        }
        let p = PoolCore {
            size,
            open: true,
            queue: Vec::new(),
            submitted: Ghost(Seq::empty()),
            delivered: Ghost(Seq::empty()),
        };
        proof {
            assert(p.submitted_jobs() =~= p.delivered_jobs() + p.pending());
        }
        Ok(p)
    }

    /// Accepts a job ticket while the pool is open; after shutdown has
    /// begun it refuses with `PoolClosed` and the ticket is never queued.
    pub fn submit(&mut self, job: usize) -> (r: Result<(), PoolError>)
        requires
            old(self).wf(),
        ensures
            final(self).wf(),
            final(self).spec_size() == old(self).spec_size(),
            final(self).is_open() == old(self).is_open(),
            final(self).delivered_jobs() == old(self).delivered_jobs(),
            match r {
                Ok(_) => {
                    &&& old(self).is_open()
                    &&& final(self).pending() == old(self).pending().push(job)
                    &&& final(self).submitted_jobs() == old(self).submitted_jobs().push(job)
                },
                Err(e) => {
                    &&& !old(self).is_open()
                    &&& e == PoolError::PoolClosed
                    &&& final(self).pending() == old(self).pending()
                    &&& final(self).submitted_jobs() == old(self).submitted_jobs()
                },
            },
    {
        if !self.open {
            return Err(PoolError::PoolClosed);
        }
        self.queue.push(job);
        self.submitted = Ghost(self.submitted@.push(job));
        proof {
            assert(self.submitted_jobs() =~= self.delivered_jobs() + self.pending());
        }
        Ok(())
    }

    /// Closes the submission side. The pending queue is kept in full, so
    /// jobs accepted earlier are still delivered. Calling this on an
    /// already-closed pool changes nothing: the resulting state depends
    /// only on the prior queue and journals, so a second call is a no-op.
    pub fn shutdown(&mut self)
        requires
            old(self).wf(),
        ensures
            final(self).wf(),
            !final(self).is_open(),
            final(self).spec_size() == old(self).spec_size(),
            final(self).pending() == old(self).pending(),
            final(self).submitted_jobs() == old(self).submitted_jobs(),
            final(self).delivered_jobs() == old(self).delivered_jobs(),
    {
        self.open = false;
    }

    /// Hands out the oldest pending ticket, or reports an empty queue.
    /// Each ticket is delivered at most once: it leaves the queue here and
    /// is appended to the delivery journal.
    pub fn take_next(&mut self) -> (r: Option<usize>)
        requires
            old(self).wf(),
        ensures
            final(self).wf(),
            final(self).spec_size() == old(self).spec_size(),
            final(self).is_open() == old(self).is_open(),
            final(self).submitted_jobs() == old(self).submitted_jobs(),
            match r {
                Some(j) => {
                    &&& old(self).pending().len() > 0
                    &&& j == old(self).pending()[0]
                    &&& final(self).pending() == old(self).pending().drop_first()
                    &&& final(self).delivered_jobs() == old(self).delivered_jobs().push(j)
                },
                None => {
                    &&& old(self).pending().len() == 0
                    &&& final(self).pending() == old(self).pending()
                    &&& final(self).delivered_jobs() == old(self).delivered_jobs()
                },
            },
    {
        if self.queue.len() == 0 {
            return None;
        }
        let j = self.queue.remove(0);
        self.delivered = Ghost(self.delivered@.push(j));
        proof {
            assert(self.queue@ =~= old(self).queue@.drop_first());
            assert(self.submitted_jobs() =~= self.delivered_jobs() + self.pending());
        }
        Some(j)
    }

    /// How many accepted tickets are still waiting for a worker.
    pub fn pending_count(&self) -> (n: usize)
        ensures
            n == self.pending().len(),
    {
        self.queue.len()
    }

    /// Whether the pool still accepts submissions.
    pub fn accepting(&self) -> (r: bool)
        ensures
            r == self.is_open(),
    {
        self.open
    }

    /// A worker's exit condition: the queue reported closed and empty.
    pub fn worker_should_exit(&self) -> (r: bool)
        ensures
            r == (!self.is_open() && self.pending().len() == 0),
    {
        !self.open && self.queue.len() == 0
    }
}

/// Conservation law: the pool neither loses nor duplicates work. Whatever
/// was accepted is exactly what was delivered followed by what is pending.
pub proof fn lemma_pool_conservation(p: &PoolCore)
    requires
        p.wf(),
    ensures
        p.submitted_jobs() == p.delivered_jobs() + p.pending(),
{
}

/// Exactly-once completion: once the queue has drained, the pool has
/// delivered every accepted job exactly once, in submission order — the
/// delivery journal equals the submission journal.
pub proof fn lemma_drained_pool_delivered_every_job(p: &PoolCore)
    requires
        p.wf(),
        p.pending().len() == 0,
    ensures
        p.delivered_jobs() == p.submitted_jobs(),
{
    assert(p.delivered_jobs() + p.pending() =~= p.delivered_jobs());
}

} // verus!
