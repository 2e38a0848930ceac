//! The per-scope service-worker job queue: register, update and
//! unregister operations for one registration scope, serialized strictly
//! first-in first-out. At most one job of a queue is ever running; a job
//! settles (resolves or rejects) before the next one starts, so jobs
//! settle in submission order.

use vstd::prelude::*;

verus! {

/// The lifecycle operation a job performs.
#[derive(Clone, Copy, PartialEq, Eq, Structural, Debug)]
pub enum JobKind {
    Register,
    Update,
    Unregister,
}

/// How a job settled: its promise resolves, or rejects with a reason
/// code (a fetch or script-evaluation failure settles the job as
/// rejected; the queue advances regardless).
#[derive(Clone, Copy, PartialEq, Eq, Structural, Debug)]
pub enum JobResult {
    Resolved,
    Rejected(u64),
}

/// The lifecycle state of one job.
#[derive(Clone, Copy, PartialEq, Eq, Structural, Debug)]
pub enum JobState {
    /// Queued, not yet started.
    Pending,
    /// The queue's one active job; its asynchronous work is with the
    /// worker-lifecycle collaborator.
    Running,
    /// Finished; the promise was settled with the recorded result.
    Settled(JobResult),
}

/// One service-worker job.
pub struct Job {
    /// Tag identifying the job (and its promise) to the submitter.
    pub id: u64,
    /// The operation.
    pub kind: JobKind,
    /// The registration scope the job belongs to.
    pub scope: u64,
    /// Tag of the submitting client.
    pub client: u64,
    /// Lifecycle state.
    pub state: JobState,
}

/// The job queue of one registration scope. Jobs never leave the queue:
/// the settled prefix is the record of finished work, in submission
/// order.
pub struct JobQueue {
    scope: u64,
    jobs: Vec<Job>,
    settled: usize,
    active: bool,
}

impl JobQueue {
    /// The registration scope this queue serializes.
    pub closed spec fn scope_spec(self) -> u64 {
        self.scope
    }

    /// All jobs ever submitted, in submission order.
    pub closed spec fn jobs_view(self) -> Seq<Job> {
        self.jobs@
    }

    /// How many jobs have settled; they are exactly the first
    /// `settled_spec()` jobs.
    pub closed spec fn settled_spec(self) -> int {
        self.settled as int
    }

    /// Whether a job is currently running.
    pub closed spec fn active_spec(self) -> bool {
        self.active
    }

    /// Well-formedness: the settled jobs form a prefix in submission
    /// order; at most one job — the first unsettled one, and only while
    /// the queue is active — is running; everything after it is pending;
    /// every job belongs to this queue's scope.
    pub closed spec fn wf(self) -> bool {
        &&& self.settled <= self.jobs@.len()
        &&& (self.active ==> self.settled < self.jobs@.len())
        &&& forall|i: int| 0 <= i < self.jobs@.len()
                ==> ((#[trigger] self.jobs@[i]).state is Settled <==> i < self.settled)
        &&& (self.active ==> self.jobs@[self.settled as int].state is Running)
        &&& forall|i: int| 0 <= i < self.jobs@.len()
                ==> ((#[trigger] self.jobs@[i]).state is Running
                    <==> (self.active && i == self.settled))
        &&& forall|i: int| 0 <= i < self.jobs@.len()
                ==> (#[trigger] self.jobs@[i]).scope == self.scope
    }

    /// The registration scope this queue serializes.
    pub fn scope(&self) -> (r: u64)
        ensures
            r == self.scope_spec(),
    {
        self.scope
    }

    /// A job is running exactly while the queue is active, and it is the
    /// first unsettled job.
    pub proof fn lemma_running_iff_active(q: JobQueue)
        requires
            q.wf(),
        ensures
            (exists|i: int| 0 <= i < q.jobs_view().len()
                && (#[trigger] q.jobs_view()[i]).state is Running) <==> q.active_spec(),
            q.active_spec() ==> 0 <= q.settled_spec() < q.jobs_view().len()
                && q.jobs_view()[q.settled_spec()].state is Running,
    {
        if q.active_spec() {
            assert(q.jobs_view()[q.settled_spec()].state is Running);
        }
    }

    /// The queue is idle with everything settled exactly when every job
    /// ever submitted has settled.
    pub proof fn lemma_idle_iff_all_settled(q: JobQueue)
        requires
            q.wf(),
        ensures
            (!q.active_spec() && q.settled_spec() == q.jobs_view().len())
                <==> (forall|i: int| 0 <= i < q.jobs_view().len()
                    ==> (#[trigger] q.jobs_view()[i]).state is Settled),
    {
        if q.active_spec() || q.settled_spec() < q.jobs_view().len() {
            assert(!(q.jobs_view()[q.settled_spec()].state is Settled));
        }
    }

    /// An empty queue for `scope`.
    pub fn new(scope: u64) -> (r: JobQueue)
        ensures
            r.wf(),
            r.scope_spec() == scope,
            r.jobs_view() =~= Seq::<Job>::empty(),
            r.settled_spec() == 0,
            !r.active_spec(),
    {
        JobQueue { scope, jobs: Vec::new(), settled: 0, active: false }
    }

    /// Submits a job. The job starts at once exactly when every earlier
    /// job of this scope has settled; otherwise it waits its turn behind
    /// them — a job submitted before an earlier one settles never starts
    /// early. Returns whether the job started.
    pub fn submit(&mut self, id: u64, kind: JobKind, client: u64) -> (started: bool)
        requires
            old(self).wf(),
        ensures
            final(self).wf(),
            final(self).scope_spec() == old(self).scope_spec(),
            final(self).settled_spec() == old(self).settled_spec(),
            started == (!old(self).active_spec()
                && old(self).settled_spec() == old(self).jobs_view().len()),
            final(self).active_spec() == (old(self).active_spec() || started),
            final(self).jobs_view() =~= old(self).jobs_view().push(Job {
                id,
                kind,
                scope: old(self).scope_spec(),
                client,
                state: if started { JobState::Running } else { JobState::Pending },
            }),
    {
        let start_now = !self.active && self.settled == self.jobs.len();
        let job = Job {
            id,
            kind,
            scope: self.scope,
            client,
            state: if start_now { JobState::Running } else { JobState::Pending },
        };
        self.jobs.push(job);
        if start_now {
            self.active = true;
        }
        start_now
    }

    /// Settles the running job — the earliest unsettled one — with
    /// `result`, and immediately starts the next queued job, returning
    /// its id; the queue goes idle if none is left. Jobs therefore
    /// settle in submission order, whatever their results.
    pub fn complete(&mut self, result: JobResult) -> (next: Option<u64>)
        requires
            old(self).wf(),
            old(self).active_spec(),
        ensures
            final(self).wf(),
            final(self).scope_spec() == old(self).scope_spec(),
            final(self).settled_spec() == old(self).settled_spec() + 1,
            final(self).jobs_view().len() == old(self).jobs_view().len(),
            // the settled job is the earliest unsettled one
            final(self).jobs_view()[old(self).settled_spec()] == (Job {
                state: JobState::Settled(result),
                ..old(self).jobs_view()[old(self).settled_spec()]
            }),
            // the job settled was the one that was running
            old(self).jobs_view()[old(self).settled_spec()].state is Running,
            // the next job, if any, starts at once
            next is Some <==> old(self).settled_spec() + 1 < old(self).jobs_view().len(),
            final(self).active_spec() == (next is Some),
            next is Some ==> next->0 == old(self).jobs_view()[old(self).settled_spec() + 1].id
                && final(self).jobs_view()[old(self).settled_spec() + 1] == (Job {
                    state: JobState::Running,
                    ..old(self).jobs_view()[old(self).settled_spec() + 1]
                }),
            // no other job changes
            forall|i: int|
                0 <= i < old(self).jobs_view().len() && i != old(self).settled_spec()
                    && i != old(self).settled_spec() + 1
                ==> #[trigger] final(self).jobs_view()[i] == old(self).jobs_view()[i],
            next is None ==> forall|i: int|
                0 <= i < old(self).jobs_view().len() && i != old(self).settled_spec()
                ==> #[trigger] final(self).jobs_view()[i] == old(self).jobs_view()[i],
    {
        let r = self.settled;
        let done = self.jobs.remove(r);
        let done = Job { state: JobState::Settled(result), ..done };
        self.jobs.insert(r, done);
        proof {
            assert(self.jobs@ =~= old(self).jobs_view().update(r as int, done));
        }
        let n = self.jobs.len();
        proof {
            assert(r < n);
        }
        self.settled = r + 1;
        if r + 1 < n {
            let ghost jobs_mid = self.jobs@;
            let head = self.jobs.remove(r + 1);
            let head = Job { state: JobState::Running, ..head };
            let next_id = head.id;
            self.jobs.insert(r + 1, head);
            proof {
                assert(self.jobs@ =~= jobs_mid.update(r as int + 1, self.jobs@[r as int + 1]));
            }
            Some(next_id)
        } else {
            self.active = false;
            None
        }
    }

    /// The serialization law of one scope's queue: no two jobs are ever
    /// running at once, and a settled job is preceded only by settled
    /// jobs — the settled jobs are the first `settled_spec()` submitted,
    /// so settlement follows submission order.
    pub proof fn lemma_queue_serialized(q: JobQueue)
        requires
            q.wf(),
        ensures
            forall|i: int, j: int|
                0 <= i < q.jobs_view().len() && 0 <= j < q.jobs_view().len()
                    && (#[trigger] q.jobs_view()[i]).state is Running
                    && (#[trigger] q.jobs_view()[j]).state is Running
                ==> i == j,
            forall|i: int, j: int|
                0 <= i < j < q.jobs_view().len()
                    && (#[trigger] q.jobs_view()[j]).state is Settled
                ==> (#[trigger] q.jobs_view()[i]).state is Settled,
    {
    }
}

} // verus!
