//! The service-worker manager: owns the mapping from registration scope
//! to job queue, created lazily on a scope's first job and retained
//! afterwards. Jobs for one scope are serialized through that scope's
//! queue; jobs for different scopes proceed fully independently.

use vstd::prelude::*;
use crate::serviceworkerjob::{Job, JobKind, JobQueue, JobResult, JobState};

verus! {

/// The jobs of the first queue of `qs` whose scope is `scope`, or the
/// empty sequence if none exists.
pub open spec fn jobs_of_seq(qs: Seq<JobQueue>, scope: u64) -> Seq<Job>
    decreases qs.len(),
{
    if qs.len() == 0 {
        Seq::empty()
    } else if qs[0].scope_spec() == scope {
        qs[0].jobs_view()
    } else {
        jobs_of_seq(qs.subrange(1, qs.len() as int), scope)
    }
}

/// Whether some queue of `qs` has scope `scope`.
pub open spec fn has_queue_seq(qs: Seq<JobQueue>, scope: u64) -> bool
    decreases qs.len(),
{
    if qs.len() == 0 {
        false
    } else {
        qs[0].scope_spec() == scope || has_queue_seq(qs.subrange(1, qs.len() as int), scope)
    }
}

proof fn lemma_jobs_of_at(qs: Seq<JobQueue>, k: int, scope: u64)
    requires
        0 <= k < qs.len(),
        qs[k].scope_spec() == scope,
        forall|k2: int| 0 <= k2 < k ==> (#[trigger] qs[k2]).scope_spec() != scope,
    ensures
        jobs_of_seq(qs, scope) == qs[k].jobs_view(),
        has_queue_seq(qs, scope),
    decreases k,
{
    if k > 0 {
        lemma_jobs_of_at(qs.subrange(1, qs.len() as int), k - 1, scope);
    }
}

proof fn lemma_jobs_of_none(qs: Seq<JobQueue>, scope: u64)
    requires
        forall|k: int| 0 <= k < qs.len() ==> (#[trigger] qs[k]).scope_spec() != scope,
    ensures
        jobs_of_seq(qs, scope) =~= Seq::<Job>::empty(),
        !has_queue_seq(qs, scope),
    decreases qs.len(),
{
    if qs.len() > 0 {
        lemma_jobs_of_none(qs.subrange(1, qs.len() as int), scope);
    }
}

proof fn lemma_jobs_of_update(qs: Seq<JobQueue>, k: int, q2: JobQueue)
    requires
        0 <= k < qs.len(),
        q2.scope_spec() == qs[k].scope_spec(),
    ensures
        forall|s: u64| s != qs[k].scope_spec()
            ==> jobs_of_seq(qs.update(k, q2), s) == jobs_of_seq(qs, s),
    decreases qs.len(),
{
    let qs2 = qs.update(k, q2);
    if k == 0 {
        assert(qs2.subrange(1, qs2.len() as int) =~= qs.subrange(1, qs.len() as int));
    } else {
        assert(qs2.subrange(1, qs2.len() as int)
            =~= qs.subrange(1, qs.len() as int).update(k - 1, q2));
        lemma_jobs_of_update(qs.subrange(1, qs.len() as int), k - 1, q2);
        assert forall|s: u64| s != qs[k].scope_spec()
            implies jobs_of_seq(qs2, s) == jobs_of_seq(qs, s) by {
            if qs[0].scope_spec() != s {
                assert(jobs_of_seq(qs2.subrange(1, qs2.len() as int), s)
                    == jobs_of_seq(qs.subrange(1, qs.len() as int), s));
            }
        }
    }
}

proof fn lemma_jobs_of_push(qs: Seq<JobQueue>, q2: JobQueue)
    ensures
        forall|s: u64| s != q2.scope_spec() || has_queue_seq(qs, s)
            ==> jobs_of_seq(qs.push(q2), s) == jobs_of_seq(qs, s),
        !has_queue_seq(qs, q2.scope_spec())
            ==> jobs_of_seq(qs.push(q2), q2.scope_spec()) == q2.jobs_view(),
    decreases qs.len(),
{
    if qs.len() == 0 {
        assert forall|s: u64| s != q2.scope_spec() || has_queue_seq(qs, s)
            implies jobs_of_seq(qs.push(q2), s) == jobs_of_seq(qs, s) by {
            assert(qs.push(q2)[0] == q2);
            assert(qs.push(q2).subrange(1, 1) =~= Seq::<JobQueue>::empty());
            assert(jobs_of_seq(qs.push(q2).subrange(1, 1), s)
                =~= Seq::<Job>::empty());
            assert(jobs_of_seq(qs, s) =~= Seq::<Job>::empty());
        }
        assert(qs.push(q2)[0] == q2);
    } else {
        assert(qs.push(q2).subrange(1, qs.push(q2).len() as int)
            =~= qs.subrange(1, qs.len() as int).push(q2));
        lemma_jobs_of_push(qs.subrange(1, qs.len() as int), q2);
        assert forall|s: u64| s != q2.scope_spec() || has_queue_seq(qs, s)
            implies jobs_of_seq(qs.push(q2), s) == jobs_of_seq(qs, s) by {
            if qs[0].scope_spec() != s {
                assert(jobs_of_seq(qs.push(q2).subrange(1, qs.push(q2).len() as int), s)
                    == jobs_of_seq(qs.subrange(1, qs.len() as int), s));
            }
        }
    }
}

/// The per-process service-worker manager: one job queue per scope.
pub struct ServiceWorkerManager {
    queues: Vec<JobQueue>,
}

impl ServiceWorkerManager {
    /// The scope-to-queue map, as the sequence of queues in creation
    /// order.
    pub closed spec fn queues_view(self) -> Seq<JobQueue> {
        self.queues@
    }

    /// All jobs ever submitted for `scope`, in submission order.
    pub open spec fn jobs_of(self, scope: u64) -> Seq<Job> {
        jobs_of_seq(self.queues_view(), scope)
    }

    /// Well-formedness: every queue is well-formed and scopes are
    /// unique.
    pub closed spec fn wf(self) -> bool {
        &&& forall|k: int| 0 <= k < self.queues@.len() ==> (#[trigger] self.queues@[k]).wf()
        &&& forall|k1: int, k2: int|
                0 <= k1 < self.queues@.len() && 0 <= k2 < self.queues@.len() && k1 != k2
                ==> (#[trigger] self.queues@[k1]).scope_spec()
                    != (#[trigger] self.queues@[k2]).scope_spec()
    }

    /// A manager with no queues yet; queues appear lazily with the first
    /// job of their scope.
    pub fn new() -> (r: ServiceWorkerManager)
        ensures
            r.wf(),
            r.queues_view() =~= Seq::<JobQueue>::empty(),
    {
        ServiceWorkerManager { queues: Vec::new() }
    }

    fn find_scope(&self, scope: u64) -> (r: Option<usize>)
        requires
            self.wf(),
        ensures
            match r {
                Some(k) => k < self.queues_view().len()
                    && self.queues_view()[k as int].scope_spec() == scope
                    && forall|k2: int| 0 <= k2 < k
                        ==> (#[trigger] self.queues_view()[k2]).scope_spec() != scope,
                None => forall|k2: int| 0 <= k2 < self.queues_view().len()
                    ==> (#[trigger] self.queues_view()[k2]).scope_spec() != scope,
            },
    {
        let mut k: usize = 0;
        while k < self.queues.len()
            invariant
                k <= self.queues@.len(),
                forall|k2: int| 0 <= k2 < k
                    ==> (#[trigger] self.queues@[k2]).scope_spec() != scope,
            decreases self.queues@.len() - k,
        {
            if self.queues[k].scope() == scope {
                return Some(k);
            }
            k = k + 1;
        }
        None
    }

    /// Submits a job for `scope`, creating the scope's queue on its
    /// first job. The job starts at once exactly when every earlier job
    /// of the same scope has settled; queues of other scopes are
    /// untouched, so scopes proceed independently. Returns whether the
    /// job started.
    pub fn submit_job(&mut self, scope: u64, id: u64, kind: JobKind, client: u64)
        -> (started: bool)
        requires
            old(self).wf(),
        ensures
            final(self).wf(),
            started == (forall|i: int| 0 <= i < old(self).jobs_of(scope).len()
                ==> (#[trigger] old(self).jobs_of(scope)[i]).state is Settled),
            final(self).jobs_of(scope) =~= old(self).jobs_of(scope).push(Job {
                id,
                kind,
                scope,
                client,
                state: if started { JobState::Running } else { JobState::Pending },
            }),
            forall|s: u64| s != scope
                ==> #[trigger] final(self).jobs_of(s) == old(self).jobs_of(s),
    {
        let found = self.find_scope(scope);
        match found {
            Some(k) => {
                let ghost qs0 = self.queues@;
                let mut q = self.queues.remove(k);
                let ghost q0 = q;
                proof {
                    lemma_jobs_of_at(qs0, k as int, scope);
                    JobQueue::lemma_idle_iff_all_settled(q0);
                }
                let started = q.submit(id, kind, client);
                self.queues.insert(k, q);
                proof {
                    assert(self.queues@ =~= qs0.update(k as int, self.queues@[k as int]));
                    lemma_jobs_of_update(qs0, k as int, self.queues@[k as int]);
                    lemma_jobs_of_at(self.queues@, k as int, scope);
                }
                started
            },
            None => {
                let ghost qs0 = self.queues@;
                let mut q = JobQueue::new(scope);
                let started = q.submit(id, kind, client);
                self.queues.push(q);
                proof {
                    lemma_jobs_of_none(qs0, scope);
                    lemma_jobs_of_push(qs0, self.queues@.last());
                    assert(self.queues@ =~= qs0.push(self.queues@.last()));
                    assert(self.jobs_of(scope)
                        =~= old(self).jobs_of(scope).push(self.queues@.last().jobs_view()[0]));
                }
                started
            },
        }
    }

    /// The running job of `scope` settled with `result`: settles its
    /// promise in submission order and immediately starts the next
    /// queued job of that scope, returning its id. Queues of other
    /// scopes are untouched.
    pub fn job_completed(&mut self, scope: u64, result: JobResult) -> (next: Option<u64>)
        requires
            old(self).wf(),
            exists|i: int| 0 <= i < old(self).jobs_of(scope).len()
                && (#[trigger] old(self).jobs_of(scope)[i]).state is Running,
        ensures
            final(self).wf(),
            forall|s: u64| s != scope
                ==> #[trigger] final(self).jobs_of(s) == old(self).jobs_of(s),
            final(self).jobs_of(scope).len() == old(self).jobs_of(scope).len(),
            // the settled job is the earliest unsettled one
            exists|r: int| 0 <= r < old(self).jobs_of(scope).len()
                && (#[trigger] old(self).jobs_of(scope)[r]).state is Running
                && final(self).jobs_of(scope)[r] == (Job {
                    state: JobState::Settled(result),
                    ..old(self).jobs_of(scope)[r]
                })
                && (next is Some <==> r + 1 < old(self).jobs_of(scope).len())
                && (next is Some ==> next->0 == old(self).jobs_of(scope)[r + 1].id),
    {
        let found = self.find_scope(scope);
        let k = match found {
            Some(k) => k,
            None => {
                proof {
                    lemma_jobs_of_none(self.queues@, scope);
                }
                // unreachable: a running job implies the queue exists
                return None;
            },
        };
        let ghost qs0 = self.queues@;
        let mut q = self.queues.remove(k);
        let ghost q0 = q;
        proof {
            lemma_jobs_of_at(qs0, k as int, scope);
            JobQueue::lemma_running_iff_active(q0);
        }
        let next = q.complete(result);
        self.queues.insert(k, q);
        proof {
            assert(self.queues@ =~= qs0.update(k as int, self.queues@[k as int]));
            lemma_jobs_of_update(qs0, k as int, self.queues@[k as int]);
            lemma_jobs_of_at(self.queues@, k as int, scope);
            let r = q0.settled_spec();
            assert(0 <= r < q0.jobs_view().len() && q0.jobs_view()[r].state is Running);
        }
        next
    }
}

} // verus!
