//! The per-pipeline event loop: one FIFO task queue per source category,
//! a configurable cross-source priority policy, lazy task cancellation,
//! and a microtask checkpoint after every executed task.
//!
//! One pipeline runs one cooperative, single-threaded loop: producers
//! only queue work; the loop alone dequeues, so at most one task is ever
//! executing. Teardown is terminal: pending work is dropped and later
//! submissions fail with `PipelineGone`.

use vstd::prelude::*;
use crate::microtask;
use crate::microtask::{Microtask, MicrotaskQueue};
use crate::task::{PipelineId, Task, TaskSourceName, SOURCE_COUNT};

verus! {

/// Why a queuing operation failed.
#[derive(Clone, Copy, PartialEq, Eq, Structural, Debug)]
pub enum QueueError {
    /// The target pipeline has been torn down; the work is dropped.
    /// Always recoverable by the caller, never fatal to the system.
    PipelineGone,
}

/// Whether the cancellation flag of `t` is set under `flags`.
pub open spec fn task_cancelled(flags: Seq<bool>, t: Task) -> bool {
    match t.canceller {
        Some(c) => c < flags.len() && flags[c as int],
        None => false,
    }
}

/// The tasks of `q` that will actually run. Cancellation is observed
/// lazily: a cancelled task still sits in its queue, but is dropped at
/// dequeue instead of executed.
pub open spec fn surviving(q: Seq<Task>, flags: Seq<bool>) -> Seq<Task> {
    q.filter(|t: Task| !task_cancelled(flags, t))
}

/// The tags of the tasks of `q`, in order.
pub open spec fn task_ids(q: Seq<Task>) -> Seq<u64> {
    q.map_values(|t: Task| t.id)
}

/// Record of one executed task: its tag, the category it came through,
/// and the tags of the microtasks drained at the checkpoint that
/// followed it, in execution order.
pub struct TaskRun {
    /// Tag of the executed task.
    pub task: u64,
    /// The category the task was dequeued from.
    pub source: TaskSourceName,
    /// Tags of the microtasks the checkpoint ran, in execution order.
    pub microtasks: Vec<u64>,
}

/// The event loop of one pipeline.
pub struct EventLoop {
    pipeline: PipelineId,
    queues: Vec<Vec<Task>>,
    microtasks: MicrotaskQueue,
    flags: Vec<bool>,
    ranks: Vec<u8>,
    cursor: usize,
    torn_down: bool,
}

/// Total number of tasks over all queues; the dequeue loop's measure.
pub open spec fn len_sum(qs: Seq<Vec<Task>>) -> nat
    decreases qs.len(),
{
    if qs.len() == 0 {
        0
    } else {
        qs[0]@.len() + len_sum(qs.subrange(1, qs.len() as int))
    }
}

proof fn lemma_len_sum_update(qs: Seq<Vec<Task>>, i: int, v: Vec<Task>)
    requires
        0 <= i < qs.len(),
    ensures
        len_sum(qs.update(i, v)) + qs[i]@.len() == len_sum(qs) + v@.len(),
    decreases qs.len(),
{
    let qs2 = qs.update(i, v);
    if i == 0 {
        assert(qs2.subrange(1, qs2.len() as int) =~= qs.subrange(1, qs.len() as int));
    } else {
        assert(qs2.subrange(1, qs2.len() as int)
            =~= qs.subrange(1, qs.len() as int).update(i - 1, v));
        lemma_len_sum_update(qs.subrange(1, qs.len() as int), i - 1, v);
    }
}

/// Filtering agrees for two predicates that agree on every element.
proof fn lemma_filter_agree<A>(q: Seq<A>, p1: spec_fn(A) -> bool, p2: spec_fn(A) -> bool)
    requires
        forall|i: int| 0 <= i < q.len() ==> p1(q[i]) == p2(q[i]),
    ensures
        q.filter(p1) == q.filter(p2),
    decreases q.len(),
{
    reveal(Seq::filter);
    if q.len() > 0 {
        lemma_filter_agree(q.drop_last(), p1, p2);
    }
}

/// An empty queue has no surviving tasks.
pub proof fn lemma_surviving_empty(q: Seq<Task>, flags: Seq<bool>)
    requires
        q.len() == 0,
    ensures
        surviving(q, flags) =~= Seq::<Task>::empty(),
{
    reveal(Seq::filter);
}

/// Head decomposition of the surviving tasks: the head of the queue
/// survives exactly when its flag is clear, and the rest filters on.
pub proof fn lemma_surviving_head(q: Seq<Task>, flags: Seq<bool>)
    requires
        q.len() > 0,
    ensures
        !task_cancelled(flags, q[0]) ==> surviving(q, flags)
            =~= seq![q[0]] + surviving(q.subrange(1, q.len() as int), flags),
        task_cancelled(flags, q[0]) ==> surviving(q, flags)
            =~= surviving(q.subrange(1, q.len() as int), flags),
{
    let rest = q.subrange(1, q.len() as int);
    rest.lemma_filter_prepend(q[0], |t: Task| !task_cancelled(flags, t));
    assert(q =~= seq![q[0]] + rest);
    if !task_cancelled(flags, q[0]) {
        assert(surviving(q, flags) =~= seq![q[0]] + surviving(rest, flags));
    } else {
        assert(Seq::<Task>::empty() + surviving(rest, flags) =~= surviving(rest, flags));
    }
}

/// How a filtered sequence grows when one element is appended.
pub proof fn lemma_filter_push<A>(s: Seq<A>, x: A, p: spec_fn(A) -> bool)
    ensures
        p(x) ==> s.push(x).filter(p) == s.filter(p).push(x),
        !p(x) ==> s.push(x).filter(p) == s.filter(p),
{
    reveal(Seq::filter);
    assert(s.push(x).drop_last() =~= s);
    assert(s.push(x).last() == x);
}

/// A sequence every element of which passes the predicate filters to
/// itself.
pub proof fn lemma_filter_all<A>(s: Seq<A>, p: spec_fn(A) -> bool)
    requires
        forall|j: int| 0 <= j < s.len() ==> p(#[trigger] s[j]),
    ensures
        s.filter(p) == s,
    decreases s.len(),
{
    reveal(Seq::filter);
    if s.len() > 0 {
        lemma_filter_all(s.drop_last(), p);
        assert(s.filter(p) =~= s);
    }
}

/// The tags of the executed tasks of `runs` that came through the source
/// with queue index `i`, in execution order.
pub open spec fn runs_from(runs: Seq<TaskRun>, i: int) -> Seq<u64> {
    runs.filter(|r: TaskRun| r.source.index_spec() == i).map_values(|r: TaskRun| r.task)
}

proof fn lemma_runs_from_push(runs: Seq<TaskRun>, r: TaskRun, i: int)
    ensures
        r.source.index_spec() == i
            ==> runs_from(runs.push(r), i) =~= runs_from(runs, i).push(r.task),
        r.source.index_spec() != i ==> runs_from(runs.push(r), i) =~= runs_from(runs, i),
{
    reveal(Seq::filter);
    let p = |x: TaskRun| x.source.index_spec() == i;
    assert(runs.push(r).drop_last() =~= runs);
    assert(runs.push(r).last() == r);
    if p(r) {
        assert(runs.push(r).filter(p) == runs.filter(p).push(r));
        assert(runs.filter(p).push(r).map_values(|x: TaskRun| x.task)
            =~= runs.filter(p).map_values(|x: TaskRun| x.task).push(r.task));
    } else {
        assert(runs.push(r).filter(p) == runs.filter(p));
    }
}

/// Total number of surviving tasks over the first `k` source queues; the
/// measure of the loop that drains an event loop.
pub open spec fn surv_total(el: EventLoop, k: int) -> nat
    decreases k,
{
    if k <= 0 {
        0
    } else {
        surv_total(el, k - 1) + el.surviving_at(k - 1).len()
    }
}

proof fn lemma_surv_total_shift(pre: EventLoop, post: EventLoop, i: int, k: int)
    requires
        0 <= i < SOURCE_COUNT,
        post.surviving_at(i).len() + 1 == pre.surviving_at(i).len(),
        forall|j: int| 0 <= j < SOURCE_COUNT && j != i
            ==> #[trigger] post.surviving_at(j) == pre.surviving_at(j),
        0 <= k <= SOURCE_COUNT,
    ensures
        i < k ==> surv_total(post, k) + 1 == surv_total(pre, k),
        i >= k ==> surv_total(post, k) == surv_total(pre, k),
    decreases k,
{
    if k > 0 {
        lemma_surv_total_shift(pre, post, i, k - 1);
    }
}

impl EventLoop {
    /// The pipeline this loop belongs to.
    pub closed spec fn pipeline_spec(self) -> PipelineId {
        self.pipeline
    }

    /// Whether the pipeline has been torn down.
    pub closed spec fn torn(self) -> bool {
        self.torn_down
    }

    /// The cancellation flags, indexed by canceller id.
    pub closed spec fn flags_view(self) -> Seq<bool> {
        self.flags@
    }

    /// The queued tasks of the source with queue index `i`, front first,
    /// cancelled ones included.
    pub closed spec fn pending_at(self, i: int) -> Seq<Task> {
        self.queues@[i]@
    }

    /// The queued tasks of source index `i` that will actually run.
    pub open spec fn surviving_at(self, i: int) -> Seq<Task> {
        surviving(self.pending_at(i), self.flags_view())
    }

    /// The pending microtasks.
    pub closed spec fn microtask_backlog(self) -> Seq<Microtask> {
        self.microtasks.pending()
    }

    /// The scheduling rank of source index `i`; sources of lower rank are
    /// polled first.
    pub closed spec fn rank_at(self, i: int) -> u8 {
        self.ranks@[i]
    }

    /// Well-formedness: one queue and one rank per source category, and
    /// every queued task belongs to its queue's category, targets this
    /// pipeline, and names an allocated cancellation flag if any.
    pub closed spec fn wf(self) -> bool {
        &&& self.queues@.len() == SOURCE_COUNT
        &&& self.ranks@.len() == SOURCE_COUNT
        &&& self.cursor < SOURCE_COUNT
        &&& forall|i: int, j: int|
                0 <= i < SOURCE_COUNT && 0 <= j < self.queues@[i]@.len()
                ==> (#[trigger] self.queues@[i]@[j]).source.index_spec() == i
                    && self.queues@[i]@[j].pipeline == self.pipeline
                    && (match self.queues@[i]@[j].canceller {
                        Some(c) => c < self.flags@.len(),
                        None => true,
                    })
    }

    /// The ranks every loop starts from unless the embedder passes its
    /// own: user interaction and history traversal (navigation) are
    /// polled first, most sources next, timers and the performance
    /// timeline last. The exact cross-source order is policy, not a
    /// hardcoded constant.
    pub fn default_ranks() -> (r: Vec<u8>)
        ensures
            r@.len() == SOURCE_COUNT,
            r@ =~= seq![1u8, 0u8, 1u8, 0u8, 1u8, 2u8, 1u8, 2u8, 1u8, 1u8],
    {
        let r: Vec<u8> = vec![1u8, 0u8, 1u8, 0u8, 1u8, 2u8, 1u8, 2u8, 1u8, 1u8];
        r
    }

    fn empty_queues() -> (r: Vec<Vec<Task>>)
        ensures
            r@.len() == SOURCE_COUNT,
            forall|i: int| 0 <= i < SOURCE_COUNT ==> #[trigger] r@[i]@ =~= Seq::<Task>::empty(),
    {
        let mut r: Vec<Vec<Task>> = Vec::new();
        while r.len() < SOURCE_COUNT
            invariant
                r@.len() <= SOURCE_COUNT,
                forall|i: int| 0 <= i < r@.len() ==> #[trigger] r@[i]@ =~= Seq::<Task>::empty(),
            decreases SOURCE_COUNT - r@.len(),
        {
            r.push(Vec::new());
        }
        r
    }

    /// A fresh event loop for `pipeline` with the given cross-source
    /// ranks: no queued work, no cancellation flags, not torn down.
    pub fn new(pipeline: PipelineId, ranks: Vec<u8>) -> (r: EventLoop)
        requires
            ranks@.len() == SOURCE_COUNT,
        ensures
            r.wf(),
            !r.torn(),
            r.pipeline_spec() == pipeline,
            r.flags_view() =~= Seq::<bool>::empty(),
            r.microtask_backlog() =~= Seq::<Microtask>::empty(),
            forall|i: int| 0 <= i < SOURCE_COUNT ==> #[trigger] r.pending_at(i) =~= Seq::<Task>::empty(),
            forall|i: int| 0 <= i < SOURCE_COUNT ==> #[trigger] r.rank_at(i) == ranks@[i],
    {
        EventLoop {
            pipeline,
            queues: Self::empty_queues(),
            microtasks: MicrotaskQueue::new(),
            flags: Vec::new(),
            ranks,
            cursor: 0,
            torn_down: false,
        }
    }

    /// Whether the pipeline has been torn down.
    pub fn is_torn_down(&self) -> (r: bool)
        ensures
            r == self.torn(),
    {
        self.torn_down
    }

    /// The pipeline this loop belongs to.
    pub fn pipeline_id(&self) -> (r: PipelineId)
        ensures
            r == self.pipeline_spec(),
    {
        self.pipeline
    }

    /// Allocates a fresh cancellation flag, initially clear, and returns
    /// its id. A task created with this canceller is dropped at dequeue
    /// once the flag is set.
    pub fn new_canceller(&mut self) -> (c: usize)
        requires
            old(self).wf(),
        ensures
            final(self).wf(),
            c == old(self).flags_view().len(),
            final(self).flags_view() =~= old(self).flags_view().push(false),
            final(self).pipeline_spec() == old(self).pipeline_spec(),
            final(self).torn() == old(self).torn(),
            final(self).microtask_backlog() == old(self).microtask_backlog(),
            forall|i: int| 0 <= i < SOURCE_COUNT
                ==> #[trigger] final(self).pending_at(i) == old(self).pending_at(i)
                    && final(self).rank_at(i) == old(self).rank_at(i),
            forall|i: int| 0 <= i < SOURCE_COUNT
                ==> #[trigger] final(self).surviving_at(i) == old(self).surviving_at(i),
    {
        let c = self.flags.len();
        self.flags.push(false);
        proof {
            let pre = *old(self);
            let post = *self;
            assert forall|i: int| 0 <= i < SOURCE_COUNT
                implies #[trigger] post.surviving_at(i) == pre.surviving_at(i) by {
                lemma_filter_agree(
                    pre.pending_at(i),
                    |t: Task| !task_cancelled(post.flags@, t),
                    |t: Task| !task_cancelled(pre.flags@, t),
                );
            }
        }
        c
    }

    /// Sets the cancellation flag `c`. The flagged task (if any) is not
    /// removed from its queue: the loop observes the flag at dequeue and
    /// drops the task instead of running it.
    pub fn cancel(&mut self, c: usize)
        requires
            old(self).wf(),
            c < old(self).flags_view().len(),
        ensures
            final(self).wf(),
            final(self).flags_view() =~= old(self).flags_view().update(c as int, true),
            final(self).pipeline_spec() == old(self).pipeline_spec(),
            final(self).torn() == old(self).torn(),
            final(self).microtask_backlog() == old(self).microtask_backlog(),
            forall|i: int| 0 <= i < SOURCE_COUNT
                ==> #[trigger] final(self).pending_at(i) == old(self).pending_at(i)
                    && final(self).rank_at(i) == old(self).rank_at(i),
    {
        self.flags.set(c, true);
    }

    /// Whether `t`'s cancellation flag is set.
    pub fn is_cancelled(&self, t: &Task) -> (r: bool)
        requires
            match t.canceller {
                Some(c) => c < self.flags_view().len(),
                None => true,
            },
        ensures
            r == task_cancelled(self.flags_view(), *t),
    {
        match t.canceller {
            Some(c) => self.flags[c],
            None => false,
        }
    }

    /// Queues `task` at the back of its category's FIFO. Non-blocking;
    /// fails only when the pipeline has been torn down, in which case the
    /// task is dropped and nothing changes.
    pub fn queue_task(&mut self, task: Task) -> (r: Result<(), QueueError>)
        requires
            old(self).wf(),
            task.pipeline == old(self).pipeline_spec(),
            match task.canceller {
                Some(c) => c < old(self).flags_view().len(),
                None => true,
            },
        ensures
            final(self).wf(),
            final(self).pipeline_spec() == old(self).pipeline_spec(),
            final(self).torn() == old(self).torn(),
            final(self).flags_view() == old(self).flags_view(),
            final(self).microtask_backlog() == old(self).microtask_backlog(),
            forall|i: int| 0 <= i < SOURCE_COUNT
                ==> #[trigger] final(self).rank_at(i) == old(self).rank_at(i),
            old(self).torn() ==> r == Result::<(), QueueError>::Err(QueueError::PipelineGone)
                && forall|i: int| 0 <= i < SOURCE_COUNT
                    ==> #[trigger] final(self).pending_at(i) == old(self).pending_at(i),
            !old(self).torn() ==> r == Result::<(), QueueError>::Ok(())
                && final(self).pending_at(task.source.index_spec())
                    =~= old(self).pending_at(task.source.index_spec()).push(task)
                && forall|i: int|
                    0 <= i < SOURCE_COUNT && i != task.source.index_spec()
                    ==> #[trigger] final(self).pending_at(i) == old(self).pending_at(i),
    {
        if self.torn_down {
            return Err(QueueError::PipelineGone);
        }
        let i = task.source.index();
        let ghost pre_queues = self.queues@;
        let mut q = self.queues.remove(i);
        q.push(task);
        self.queues.insert(i, q);
        proof {
            assert(self.queues@ =~= pre_queues.update(i as int, self.queues@[i as int]));
        }
        Ok(())
    }

    /// Appends a microtask. Only running script enqueues microtasks, so
    /// the pipeline is live; once enqueued, the microtask is guaranteed
    /// to run at the next checkpoint.
    pub fn enqueue_microtask(&mut self, m: Microtask)
        requires
            old(self).wf(),
            !old(self).torn(),
        ensures
            final(self).wf(),
            final(self).pipeline_spec() == old(self).pipeline_spec(),
            final(self).torn() == old(self).torn(),
            final(self).flags_view() == old(self).flags_view(),
            final(self).microtask_backlog() == old(self).microtask_backlog().push(m),
            forall|i: int| 0 <= i < SOURCE_COUNT
                ==> #[trigger] final(self).pending_at(i) == old(self).pending_at(i)
                    && final(self).rank_at(i) == old(self).rank_at(i),
    {
        self.microtasks.enqueue(m);
    }

    /// Picks the queue index to poll next: a non-empty queue of minimal
    /// rank, scanning cyclically from the fairness cursor so that queues
    /// of equal rank take turns. Returns `SOURCE_COUNT` when every queue
    /// is empty.
    fn select_source(&self) -> (best: usize)
        requires
            self.wf(),
        ensures
            best <= SOURCE_COUNT,
            best < SOURCE_COUNT ==> self.pending_at(best as int).len() > 0
                && forall|j: int|
                    0 <= j < SOURCE_COUNT && #[trigger] self.pending_at(j).len() > 0
                    ==> self.rank_at(best as int) <= self.rank_at(j),
            best == SOURCE_COUNT ==> forall|j: int|
                0 <= j < SOURCE_COUNT ==> #[trigger] self.pending_at(j).len() == 0,
    {
        let mut best: usize = SOURCE_COUNT;
        let mut k: usize = self.cursor;
        while k < SOURCE_COUNT
            invariant
                self.wf(),
                self.cursor <= k <= SOURCE_COUNT,
                best <= SOURCE_COUNT,
                best < SOURCE_COUNT ==> self.pending_at(best as int).len() > 0,
                forall|j: int|
                    self.cursor <= j < k && #[trigger] self.pending_at(j).len() > 0
                    ==> best < SOURCE_COUNT && self.rank_at(best as int) <= self.rank_at(j),
            decreases SOURCE_COUNT - k,
        {
            if self.queues[k].len() > 0
                && (best == SOURCE_COUNT || self.ranks[k] < self.ranks[best]) {
                best = k;
            }
            k = k + 1;
        }
        let mut k2: usize = 0;
        while k2 < self.cursor
            invariant
                self.wf(),
                k2 <= self.cursor,
                best <= SOURCE_COUNT,
                best < SOURCE_COUNT ==> self.pending_at(best as int).len() > 0,
                forall|j: int|
                    self.cursor <= j < SOURCE_COUNT && #[trigger] self.pending_at(j).len() > 0
                    ==> best < SOURCE_COUNT && self.rank_at(best as int) <= self.rank_at(j),
                forall|j: int|
                    0 <= j < k2 && #[trigger] self.pending_at(j).len() > 0
                    ==> best < SOURCE_COUNT && self.rank_at(best as int) <= self.rank_at(j),
            decreases self.cursor - k2,
        {
            if self.queues[k2].len() > 0
                && (best == SOURCE_COUNT || self.ranks[k2] < self.ranks[best]) {
                best = k2;
            }
            k2 = k2 + 1;
        }
        best
    }

    /// What `dequeue_next` guarantees of a returned task `t`: it is the
    /// first non-cancelled task of its category; that category's
    /// surviving queue loses exactly its head; every other category's
    /// surviving queue is untouched; and no category with surviving work
    /// outranks the chosen one.
    pub open spec fn dequeue_post(pre: EventLoop, post: EventLoop, t: Task) -> bool {
        let i = t.source.index_spec();
        &&& 0 <= i < SOURCE_COUNT
        &&& !task_cancelled(pre.flags_view(), t)
        &&& pre.surviving_at(i).len() > 0
        &&& t == pre.surviving_at(i)[0]
        &&& post.surviving_at(i)
            =~= pre.surviving_at(i).subrange(1, pre.surviving_at(i).len() as int)
        &&& forall|j: int| 0 <= j < SOURCE_COUNT && j != i
                ==> #[trigger] post.surviving_at(j) == pre.surviving_at(j)
        &&& forall|j: int| 0 <= j < SOURCE_COUNT && #[trigger] pre.surviving_at(j).len() > 0
                ==> pre.rank_at(i) <= pre.rank_at(j)
    }

    /// Dequeues the next runnable task: selects a category by rank with a
    /// fairness rotation among equal ranks, takes the head of its FIFO,
    /// and drops (without running) every task whose cancellation flag is
    /// set. Returns `None` exactly when no non-cancelled task is queued
    /// anywhere.
    pub fn dequeue_next(&mut self) -> (r: Option<Task>)
        requires
            old(self).wf(),
        ensures
            final(self).wf(),
            final(self).pipeline_spec() == old(self).pipeline_spec(),
            final(self).torn() == old(self).torn(),
            final(self).flags_view() == old(self).flags_view(),
            final(self).microtask_backlog() == old(self).microtask_backlog(),
            forall|i: int| 0 <= i < SOURCE_COUNT
                ==> #[trigger] final(self).rank_at(i) == old(self).rank_at(i),
            r is None ==> forall|i: int| 0 <= i < SOURCE_COUNT
                ==> #[trigger] old(self).surviving_at(i).len() == 0
                    && final(self).surviving_at(i).len() == 0,
            r is Some ==> Self::dequeue_post(*old(self), *final(self), r->0),
    {
        broadcast use vstd::prelude::Seq::lemma_filter_len;

        loop
            invariant
                self.wf(),
                self.pipeline == old(self).pipeline,
                self.torn_down == old(self).torn_down,
                self.flags@ == old(self).flags@,
                self.ranks@ == old(self).ranks@,
                self.microtasks == old(self).microtasks,
                forall|i: int| 0 <= i < SOURCE_COUNT
                    ==> #[trigger] self.surviving_at(i) == old(self).surviving_at(i),
            ensures
                self.wf(),
                self.pipeline == old(self).pipeline,
                self.torn_down == old(self).torn_down,
                self.flags@ == old(self).flags@,
                self.ranks@ == old(self).ranks@,
                self.microtasks == old(self).microtasks,
                forall|i: int| 0 <= i < SOURCE_COUNT
                    ==> #[trigger] self.surviving_at(i).len() == 0
                        && old(self).surviving_at(i).len() == 0,
            decreases len_sum(self.queues@),
        {
            let b = self.select_source();
            if b == SOURCE_COUNT {
                proof {
                    assert forall|i: int| 0 <= i < SOURCE_COUNT
                        implies #[trigger] self.surviving_at(i).len() == 0
                            && old(self).surviving_at(i).len() == 0 by {
                        assert(self.pending_at(i).len() == 0);
                        lemma_surviving_empty(self.pending_at(i), self.flags@);
                        assert(old(self).surviving_at(i) == self.surviving_at(i));
                    }
                }
                break;
            }
            let ghost pre_loop = *self;
            let mut q = self.queues.remove(b);
            let t = q.remove(0);
            let ghost q_view = q@;
            self.queues.insert(b, q);
            proof {
                assert(self.queues@ =~= pre_loop.queues@.update(b as int, self.queues@[b as int]));
                assert(pre_loop.pending_at(b as int) =~= seq![t] + q_view);
                lemma_len_sum_update(pre_loop.queues@, b as int, self.queues@[b as int]);
                lemma_surviving_head(pre_loop.pending_at(b as int), pre_loop.flags@);
                assert(q_view
                    =~= pre_loop.pending_at(b as int)
                        .subrange(1, pre_loop.pending_at(b as int).len() as int));
                assert(self.pending_at(b as int) == q_view);
            }
            let cancelled = self.is_cancelled(&t);
            if !cancelled {
                self.cursor = if b + 1 == SOURCE_COUNT { 0 } else { b + 1 };
                proof {
                    let i = b as int;
                    assert(pre_loop.surviving_at(i)
                        =~= seq![t] + surviving(q_view, pre_loop.flags@));
                    assert(t == old(self).surviving_at(i)[0]);
                    assert(self.surviving_at(i) == surviving(q_view, pre_loop.flags@));
                    assert(self.surviving_at(i)
                        =~= old(self).surviving_at(i)
                            .subrange(1, old(self).surviving_at(i).len() as int));
                    assert(t.source.index_spec() == i);
                    assert forall|j: int| 0 <= j < SOURCE_COUNT && j != i
                        implies #[trigger] self.surviving_at(j) == old(self).surviving_at(j) by {
                        assert(self.pending_at(j) == pre_loop.pending_at(j));
                        assert(self.surviving_at(j) == pre_loop.surviving_at(j));
                        assert(pre_loop.surviving_at(j) == old(self).surviving_at(j));
                    }
                    assert forall|j: int|
                        0 <= j < SOURCE_COUNT && #[trigger] old(self).surviving_at(j).len() > 0
                        implies pre_loop.rank_at(i) <= pre_loop.rank_at(j) by {
                        assert(pre_loop.surviving_at(j).len() > 0);
                        if pre_loop.pending_at(j).len() == 0 {
                            lemma_surviving_empty(pre_loop.pending_at(j), pre_loop.flags@);
                        }
                        assert(pre_loop.pending_at(j).len() > 0);
                    }
                }
                return Some(t);
            }
            proof {
                let i = b as int;
                assert(pre_loop.surviving_at(i) =~= surviving(q_view, pre_loop.flags@));
                assert forall|j: int| 0 <= j < SOURCE_COUNT
                    implies #[trigger] self.surviving_at(j) == old(self).surviving_at(j) by {
                    if j == i {
                        assert(self.surviving_at(j) == surviving(q_view, pre_loop.flags@));
                    } else {
                        assert(self.pending_at(j) == pre_loop.pending_at(j));
                        assert(self.surviving_at(j) == pre_loop.surviving_at(j));
                    }
                    assert(pre_loop.surviving_at(j) == old(self).surviving_at(j));
                }
            }
        }
        proof {
            assert forall|i: int| 0 <= i < SOURCE_COUNT
                implies #[trigger] old(self).surviving_at(i).len() == 0
                    && self.surviving_at(i).len() == 0 by {
                assert(self.surviving_at(i).len() == 0);
            }
        }
        None
    }

    /// What `run_one` guarantees of a returned record `run`: the executed
    /// task was the first surviving task of `run.source`, dequeued under
    /// the rank policy; the checkpoint that followed drained the whole
    /// microtask backlog together with everything the task's body
    /// enqueued, directly or transitively, before the function returned.
    pub open spec fn run_post(pre: EventLoop, post: EventLoop, run: TaskRun) -> bool {
        let i = run.source.index_spec();
        let t = pre.surviving_at(i)[0];
        &&& pre.surviving_at(i).len() > 0
        &&& run.task == t.id
        &&& run.source == t.source
        &&& !task_cancelled(pre.flags_view(), t)
        &&& post.surviving_at(i)
            =~= pre.surviving_at(i).subrange(1, pre.surviving_at(i).len() as int)
        &&& forall|j: int| 0 <= j < SOURCE_COUNT && j != i
                ==> #[trigger] post.surviving_at(j) == pre.surviving_at(j)
        &&& forall|j: int| 0 <= j < SOURCE_COUNT && #[trigger] pre.surviving_at(j).len() > 0
                ==> pre.rank_at(i) <= pre.rank_at(j)
        &&& run.microtasks@ == microtask::drain_order(pre.microtask_backlog() + t.body@)
    }

    /// One iteration of the loop: dequeues the next runnable task,
    /// executes it (modelled by recording its tag and enqueuing what its
    /// body spawns), then runs a full microtask checkpoint. The backlog
    /// is empty when this returns: no microtask ever outlives the task
    /// that caused it into the queue.
    pub fn run_one(&mut self) -> (r: Option<TaskRun>)
        requires
            old(self).wf(),
        ensures
            final(self).wf(),
            final(self).pipeline_spec() == old(self).pipeline_spec(),
            final(self).torn() == old(self).torn(),
            final(self).flags_view() == old(self).flags_view(),
            forall|i: int| 0 <= i < SOURCE_COUNT
                ==> #[trigger] final(self).rank_at(i) == old(self).rank_at(i),
            r is None ==> final(self).microtask_backlog() == old(self).microtask_backlog()
                && forall|i: int| 0 <= i < SOURCE_COUNT
                    ==> #[trigger] old(self).surviving_at(i).len() == 0
                        && final(self).surviving_at(i).len() == 0,
            r is Some ==> Self::run_post(*old(self), *final(self), r->0)
                && final(self).microtask_backlog() == Seq::<Microtask>::empty(),
    {
        let next = self.dequeue_next();
        match next {
            None => {
                proof {
                    assert(forall|i: int| 0 <= i < SOURCE_COUNT
                        ==> #[trigger] self.rank_at(i) == old(self).rank_at(i));
                    assert forall|i: int| 0 <= i < SOURCE_COUNT
                        implies #[trigger] old(self).surviving_at(i).len() == 0
                            && self.surviving_at(i).len() == 0 by {
                        assert(old(self).surviving_at(i).len() == 0);
                        assert(self.surviving_at(i).len() == 0);
                    }
                }
                None
            },
            Some(t) => {
                let ghost mid = *self;
                let ghost backlog_pre = self.microtask_backlog();
                let mut body = t.body;
                let ghost body0 = body@;
                while body.len() != 0
                    invariant
                        self.wf(),
                        self.pipeline == mid.pipeline,
                        self.torn_down == mid.torn_down,
                        self.flags@ == mid.flags@,
                        self.ranks@ == mid.ranks@,
                        self.queues == mid.queues,
                        body@.len() <= body0.len(),
                        self.microtask_backlog()
                            =~= backlog_pre + body0.subrange(0, body0.len() - body@.len()),
                        body@ =~= body0.subrange(body0.len() - body@.len(), body0.len() as int),
                    decreases body@.len(),
                {
                    let ghost k = body0.len() - body@.len();
                    let m = body.remove(0);
                    self.microtasks.enqueue(m);
                    proof {
                        assert(m == body0[k]);
                        assert(self.microtask_backlog()
                            =~= backlog_pre + body0.subrange(0, body0.len() - body@.len()));
                        assert(body@
                            =~= body0.subrange(body0.len() - body@.len(), body0.len() as int));
                    }
                }
                proof {
                    assert(self.microtask_backlog() =~= backlog_pre + body0);
                }
                let ran = self.microtasks.checkpoint();
                proof {
                    assert forall|j: int| 0 <= j < SOURCE_COUNT
                        implies #[trigger] self.surviving_at(j) == mid.surviving_at(j) by {
                        assert(self.pending_at(j) == mid.pending_at(j));
                    }
                    assert forall|j: int| 0 <= j < SOURCE_COUNT
                        implies #[trigger] self.rank_at(j) == old(self).rank_at(j) by {
                        assert(self.rank_at(j) == mid.rank_at(j));
                    }
                }
                Some(TaskRun { task: t.id, source: t.source, microtasks: ran })
            },
        }
    }

    /// Runs the loop until no runnable task is left anywhere, returning
    /// the record of every executed task in execution order. Restricted
    /// to any one source category, the executed tags are exactly that
    /// category's surviving queue in submission order: tasks within one
    /// source are dequeued first-in, first-out.
    pub fn run_all(&mut self) -> (runs: Vec<TaskRun>)
        requires
            old(self).wf(),
        ensures
            final(self).wf(),
            final(self).pipeline_spec() == old(self).pipeline_spec(),
            final(self).torn() == old(self).torn(),
            final(self).flags_view() == old(self).flags_view(),
            forall|i: int| 0 <= i < SOURCE_COUNT
                ==> #[trigger] final(self).rank_at(i) == old(self).rank_at(i),
            forall|i: int| 0 <= i < SOURCE_COUNT
                ==> #[trigger] final(self).surviving_at(i).len() == 0,
            forall|i: int| 0 <= i < SOURCE_COUNT
                ==> #[trigger] runs_from(runs@, i) =~= task_ids(old(self).surviving_at(i)),
    {
        let mut runs: Vec<TaskRun> = Vec::new();
        loop
            invariant
                self.wf(),
                self.pipeline_spec() == old(self).pipeline_spec(),
                self.torn() == old(self).torn(),
                self.flags_view() == old(self).flags_view(),
                forall|i: int| 0 <= i < SOURCE_COUNT
                    ==> #[trigger] self.rank_at(i) == old(self).rank_at(i),
                forall|i: int| 0 <= i < SOURCE_COUNT
                    ==> #[trigger] runs_from(runs@, i) + task_ids(self.surviving_at(i))
                        =~= task_ids(old(self).surviving_at(i)),
            ensures
                self.wf(),
                self.pipeline_spec() == old(self).pipeline_spec(),
                self.torn() == old(self).torn(),
                self.flags_view() == old(self).flags_view(),
                forall|i: int| 0 <= i < SOURCE_COUNT
                    ==> #[trigger] self.rank_at(i) == old(self).rank_at(i),
                forall|i: int| 0 <= i < SOURCE_COUNT
                    ==> #[trigger] self.surviving_at(i).len() == 0,
                forall|i: int| 0 <= i < SOURCE_COUNT
                    ==> #[trigger] runs_from(runs@, i) + task_ids(self.surviving_at(i))
                        =~= task_ids(old(self).surviving_at(i)),
            decreases surv_total(*self, SOURCE_COUNT as int),
        {
            let ghost pre = *self;
            let ghost runs_pre = runs@;
            let r = self.run_one();
            match r {
                None => {
                    proof {
                        assert forall|i: int| 0 <= i < SOURCE_COUNT
                            implies #[trigger] self.surviving_at(i).len() == 0 by {
                            assert(pre.surviving_at(i).len() == 0);
                        }
                    }
                    break;
                },
                Some(run) => {
                    proof {
                        let i = run.source.index_spec();
                        let t = pre.surviving_at(i)[0];
                        lemma_surv_total_shift(pre, *self, i, SOURCE_COUNT as int);
                        assert forall|j: int| 0 <= j < SOURCE_COUNT
                            implies #[trigger] runs_from(runs_pre.push(run), j)
                                + task_ids(self.surviving_at(j))
                                =~= task_ids(old(self).surviving_at(j)) by {
                            lemma_runs_from_push(runs_pre, run, j);
                            if j == i {
                                assert(task_ids(pre.surviving_at(i))
                                    =~= seq![run.task] + task_ids(self.surviving_at(i)));
                            } else {
                                assert(self.surviving_at(j) == pre.surviving_at(j));
                            }
                        }
                    }
                    runs.push(run);
                },
            }
        }
        runs
    }

    /// Tears the pipeline down: every pending task and microtask is
    /// dropped, and every later submission fails with `PipelineGone`.
    /// Idempotent.
    pub fn teardown(&mut self)
        requires
            old(self).wf(),
        ensures
            final(self).wf(),
            final(self).torn(),
            final(self).pipeline_spec() == old(self).pipeline_spec(),
            final(self).flags_view() == old(self).flags_view(),
            final(self).microtask_backlog() =~= Seq::<Microtask>::empty(),
            forall|i: int| 0 <= i < SOURCE_COUNT
                ==> #[trigger] final(self).pending_at(i) =~= Seq::<Task>::empty()
                    && final(self).rank_at(i) == old(self).rank_at(i),
    {
        self.queues = Self::empty_queues();
        self.microtasks = MicrotaskQueue::new();
        self.torn_down = true;
    }
}

} // verus!
