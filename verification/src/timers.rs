//! The timer scheduler: handles keyed by deadline, fired in deadline
//! order with ties broken by creation order, never before their
//! deadline, and rescheduled with a clamped period when repeating.
//!
//! Cancelling a pending timer removes it; cancelling one that has
//! already been converted into a queued task sets that task's
//! cancellation flag, so the event loop drops it at dequeue.

use vstd::prelude::*;
use vstd::multiset::Multiset;
use crate::event_loop::{lemma_filter_all, lemma_filter_push, EventLoop};
use crate::microtask::Microtask;
use crate::task::{PipelineId, Task, TaskSourceName, SOURCE_COUNT};

verus! {

/// Upper bound on clock readings and delays the scheduler accepts; sums
/// of two such values still fit in a `u64`.
pub const TIME_BOUND: u64 = 0x7fff_ffff_ffff_ffff;

/// Throttling policy for repeating timers. The floors are configuration,
/// not hardcoded constants: a repeat period is clamped to
/// `min_interval`, and to `nested_min_interval` once the creating
/// context is nested deeper than `nesting_threshold`.
pub struct TimerPolicy {
    /// Minimum repeat period.
    pub min_interval: u64,
    /// Nesting depth beyond which the deeper floor applies.
    pub nesting_threshold: u64,
    /// Minimum repeat period for deeply nested timers.
    pub nested_min_interval: u64,
}

impl TimerPolicy {
    /// The floors are positive (a zero floor would let a repeating timer
    /// refire without any passage of time) and small enough that a
    /// deadline computed from them fits.
    pub open spec fn wf(self) -> bool {
        1 <= self.min_interval <= self.nested_min_interval <= TIME_BOUND
    }
}

/// The clamped repeat period for a requested period `delay` at nesting
/// depth `nesting`: never below the configured floor.
pub open spec fn effective_interval_spec(p: TimerPolicy, delay: u64, nesting: u64) -> u64 {
    let floor = if nesting > p.nesting_threshold {
        p.nested_min_interval
    } else {
        p.min_interval
    };
    if delay > floor {
        delay
    } else {
        floor
    }
}

/// One pending timer.
pub struct ScheduledTimer {
    /// The handle returned to the caller; equals `creation`.
    pub id: u64,
    /// Earliest moment the timer may fire.
    pub deadline: u64,
    /// Clamped repeat period, for repeating timers.
    pub interval: Option<u64>,
    /// The task-source category its task is queued through.
    pub source: TaskSourceName,
    /// Tag of the task queued when the timer fires.
    pub callback: u64,
    /// Cancellation flag of this timer's tasks in the owning loop.
    pub canceller: usize,
    /// Creation rank; breaks deadline ties, earliest first.
    pub creation: u64,
    /// Nesting depth of the creating context, for throttling.
    pub nesting: u64,
}

/// Strict firing order: by deadline, ties by creation.
pub open spec fn earlier(a: ScheduledTimer, b: ScheduledTimer) -> bool {
    a.deadline < b.deadline || (a.deadline == b.deadline && a.creation < b.creation)
}

/// The entry a repeating timer leaves behind after firing at `now`.
pub open spec fn reschedule_spec(t: ScheduledTimer, now: u64) -> ScheduledTimer {
    ScheduledTimer { deadline: (now + t.interval->0) as u64, ..t }
}

/// The rescheduled entries of the fired timers, in firing order.
pub open spec fn reschedules(fired: Seq<ScheduledTimer>, now: u64) -> Seq<ScheduledTimer> {
    fired.filter(|t: ScheduledTimer| t.interval is Some)
        .map_values(|t: ScheduledTimer| reschedule_spec(t, now))
}

/// The one-shot fired timers' records, as (handle, canceller) pairs.
pub open spec fn retired(fired: Seq<ScheduledTimer>) -> Seq<(u64, usize)> {
    fired.filter(|t: ScheduledTimer| t.interval is None)
        .map_values(|t: ScheduledTimer| (t.id, t.canceller))
}

/// What firing `t` appends to the event loop: a task tagged with the
/// timer's callback, on the timer's source, carrying the timer's
/// cancellation flag and no modelled body.
pub open spec fn task_matches_timer(task: Task, t: ScheduledTimer, pipeline: PipelineId) -> bool {
    &&& task.id == t.callback
    &&& task.source == t.source
    &&& task.pipeline == pipeline
    &&& task.canceller == Some(t.canceller)
    &&& task.body@ =~= Seq::<Microtask>::empty()
}

/// The queue of source index `i` grew by exactly the tasks of the fired
/// timers whose source is `i`, in firing order, behind what was there.
pub open spec fn fires_match(
    pre_q: Seq<Task>,
    post_q: Seq<Task>,
    fired: Seq<ScheduledTimer>,
    i: int,
    pipeline: PipelineId,
) -> bool {
    let mine = fired.filter(|t: ScheduledTimer| t.source.index_spec() == i);
    &&& post_q.len() == pre_q.len() + mine.len()
    &&& post_q.subrange(0, pre_q.len() as int) == pre_q
    &&& forall|k: int| 0 <= k < mine.len()
            ==> task_matches_timer(#[trigger] post_q[pre_q.len() + k], mine[k], pipeline)
}

proof fn lemma_fire_step(
    pend0: Seq<ScheduledTimer>,
    pend1: Seq<ScheduledTimer>,
    fired0: Seq<ScheduledTimer>,
    fired1: Seq<ScheduledTimer>,
    books0: Seq<(u64, usize)>,
    books1: Seq<(u64, usize)>,
    ft: ScheduledTimer,
    k: int,
    now: u64,
    oldp: Seq<ScheduledTimer>,
    oldbooks: Seq<(u64, usize)>,
)
    requires
        0 <= k < pend0.len(),
        pend0[k] == ft,
        ft.deadline <= now,
        now <= TIME_BOUND,
        ft.interval is Some ==> 1 <= ft.interval->0 <= TIME_BOUND,
        ft.interval is Some ==> pend1 =~= pend0.subrange(0, k)
            + pend0.subrange(k + 1, pend0.len() as int)
            + seq![reschedule_spec(ft, now)],
        ft.interval is None ==> pend1 =~= pend0.subrange(0, k)
            + pend0.subrange(k + 1, pend0.len() as int),
        fired1 =~= fired0.push(ft),
        ft.interval is Some ==> books1 == books0,
        ft.interval is None ==> books1 =~= books0.push((ft.id, ft.canceller)),
        forall|j: int| 0 <= j < pend0.len() && j != k
                && (#[trigger] pend0[j]).deadline <= now
            ==> earlier(ft, pend0[j]),
        forall|x: int| 0 <= x < fired0.len() ==> (#[trigger] fired0[x]).deadline <= now,
        forall|x1: int, x2: int| 0 <= x1 < x2 < fired0.len()
            ==> earlier(#[trigger] fired0[x1], #[trigger] fired0[x2]),
        forall|x: int, j: int|
            0 <= x < fired0.len() && 0 <= j < pend0.len()
                && (#[trigger] pend0[j]).deadline <= now
            ==> earlier(#[trigger] fired0[x], pend0[j]),
        pend0.to_multiset().add(fired0.to_multiset())
            =~= oldp.to_multiset().add(reschedules(fired0, now).to_multiset()),
        books0 =~= oldbooks + retired(fired0),
    ensures
        forall|x: int| 0 <= x < fired1.len() ==> (#[trigger] fired1[x]).deadline <= now,
        forall|x1: int, x2: int| 0 <= x1 < x2 < fired1.len()
            ==> earlier(#[trigger] fired1[x1], #[trigger] fired1[x2]),
        forall|x: int, j: int|
            0 <= x < fired1.len() && 0 <= j < pend1.len()
                && (#[trigger] pend1[j]).deadline <= now
            ==> earlier(#[trigger] fired1[x], pend1[j]),
        pend1.to_multiset().add(fired1.to_multiset())
            =~= oldp.to_multiset().add(reschedules(fired1, now).to_multiset()),
        books1 =~= oldbooks + retired(fired1),
        pend1.filter(|t: ScheduledTimer| t.deadline <= now).len()
            < pend0.filter(|t: ScheduledTimer| t.deadline <= now).len(),
{
    broadcast use vstd::seq_lib::group_to_multiset_ensures;
    broadcast use vstd::prelude::Seq::filter_distributes_over_add;

    let due = |t: ScheduledTimer| t.deadline <= now;
    let repeats = |t: ScheduledTimer| t.interval is Some;
    let ones = |t: ScheduledTimer| t.interval is None;
    let front = pend0.subrange(0, k);
    let back = pend0.subrange(k + 1, pend0.len() as int);
    let mid = front + back;

    // decompositions of the fired-sequence bookkeeping
    lemma_filter_push(fired0, ft, repeats);
    lemma_filter_push(fired0, ft, ones);
    assert(fired0.push(ft).filter(repeats).map_values(
        |t: ScheduledTimer| reschedule_spec(t, now))
        =~= if repeats(ft) {
            reschedules(fired0, now).push(reschedule_spec(ft, now))
        } else {
            reschedules(fired0, now)
        });
    assert(fired0.push(ft).filter(ones).map_values(
        |t: ScheduledTimer| (t.id, t.canceller))
        =~= if ones(ft) {
            retired(fired0).push((ft.id, ft.canceller))
        } else {
            retired(fired0)
        });

    // the due count strictly decreases
    assert(pend0 =~= front + seq![ft] + back);
    lemma_filter_all(Seq::<ScheduledTimer>::empty(), due);
    lemma_filter_push(Seq::<ScheduledTimer>::empty(), ft, due);
    assert(seq![ft] =~= Seq::<ScheduledTimer>::empty().push(ft));
    assert(seq![ft].filter(due) =~= seq![ft]);
    assert(pend0.filter(due) =~= front.filter(due) + seq![ft] + back.filter(due));
    if ft.interval is Some {
        let again = reschedule_spec(ft, now);
        assert(again.deadline == now + ft.interval->0);
        assert(!due(again));
        lemma_filter_push(Seq::<ScheduledTimer>::empty(), again, due);
        assert(seq![again] =~= Seq::<ScheduledTimer>::empty().push(again));
        assert(seq![again].filter(due) =~= Seq::<ScheduledTimer>::empty());
        assert(pend1.filter(due) =~= mid.filter(due) + seq![again].filter(due));
        assert(pend1.filter(due) =~= front.filter(due) + back.filter(due));
    } else {
        assert(pend1.filter(due) =~= front.filter(due) + back.filter(due));
    }

    // multiset balance: pending lost ft, fired gained it, and a repeating
    // timer's reschedule appears on both sides
    assert(mid =~= pend0.remove(k));
    assert(pend0.remove(k).to_multiset() =~= pend0.to_multiset().remove(ft));
    assert(fired1.to_multiset() =~= fired0.to_multiset().insert(ft));
    assert(pend0.to_multiset().contains(ft));
    if ft.interval is Some {
        let again = reschedule_spec(ft, now);
        assert(pend1.to_multiset() =~= mid.to_multiset().insert(again)) by {
            assert(pend1 =~= mid.push(again));
        }
        assert(reschedules(fired1, now).to_multiset()
            =~= reschedules(fired0, now).to_multiset().insert(again)) by {
            assert(reschedules(fired1, now) =~= reschedules(fired0, now).push(again));
        }
        assert forall|e: ScheduledTimer|
            pend1.to_multiset().add(fired1.to_multiset()).count(e)
            == oldp.to_multiset().add(reschedules(fired1, now).to_multiset()).count(e) by {
            assert(pend1.to_multiset().count(e)
                == mid.to_multiset().count(e) + (if e == again { 1int } else { 0int }));
            assert(mid.to_multiset().count(e)
                == pend0.to_multiset().count(e) - (if e == ft { 1int } else { 0int }));
            assert(fired1.to_multiset().count(e)
                == fired0.to_multiset().count(e) + (if e == ft { 1int } else { 0int }));
            assert(reschedules(fired1, now).to_multiset().count(e)
                == reschedules(fired0, now).to_multiset().count(e)
                    + (if e == again { 1int } else { 0int }));
            let lhs0 = pend0.to_multiset().add(fired0.to_multiset());
            let rhs0 = oldp.to_multiset().add(reschedules(fired0, now).to_multiset());
            assert(lhs0 =~= rhs0);
            assert(lhs0.count(e)
                == pend0.to_multiset().count(e) + fired0.to_multiset().count(e));
            assert(rhs0.count(e)
                == oldp.to_multiset().count(e)
                    + reschedules(fired0, now).to_multiset().count(e));
        }
        assert(pend1.to_multiset().add(fired1.to_multiset())
            =~= oldp.to_multiset().add(reschedules(fired1, now).to_multiset()));
    } else {
        assert(pend1.to_multiset() =~= mid.to_multiset());
        assert(reschedules(fired1, now) =~= reschedules(fired0, now));
        assert(pend1.to_multiset().add(fired1.to_multiset())
            =~= oldp.to_multiset().add(reschedules(fired1, now).to_multiset()));
    }

    // every element of the new pending set is either an old one or the
    // reschedule, so ordering facts carry over
    assert forall|x: int, j: int|
        0 <= x < fired1.len() && 0 <= j < pend1.len()
            && (#[trigger] pend1[j]).deadline <= now
        implies earlier(#[trigger] fired1[x], pend1[j]) by {
        if j < mid.len() {
            let j0 = if j < k { j } else { j + 1 };
            assert(pend1[j] == pend0[j0]);
            if x < fired0.len() {
                assert(earlier(fired1[x], pend1[j]));
            } else {
                assert(fired1[x] == ft);
                assert(earlier(ft, pend0[j0]));
            }
        } else {
            assert(ft.interval is Some);
            assert(pend1[j] == reschedule_spec(ft, now));
            assert(pend1[j].deadline == now + ft.interval->0);
        }
    }
}

/// The timer scheduler of one pipeline.
pub struct TimerScheduler {
    policy: TimerPolicy,
    pending: Vec<ScheduledTimer>,
    fired: Vec<(u64, usize)>,
    next_creation: u64,
}

impl TimerScheduler {
    /// The pending timers, in creation order.
    pub closed spec fn pending_view(self) -> Seq<ScheduledTimer> {
        self.pending@
    }

    /// Records of one-shot timers already converted into queued tasks:
    /// (handle, canceller) pairs, kept so a late cancel still reaches
    /// the queued task.
    pub closed spec fn fired_view(self) -> Seq<(u64, usize)> {
        self.fired@
    }

    /// The configured throttling policy.
    pub closed spec fn policy_spec(self) -> TimerPolicy {
        self.policy
    }

    /// The next creation rank (and handle) to hand out.
    pub closed spec fn next_creation_spec(self) -> u64 {
        self.next_creation
    }

    /// Well-formedness: a sane policy; handles equal creation ranks;
    /// ranks are below the counter (hence pairwise distinct); intervals
    /// are clamped positive and bounded; fired records never share a
    /// handle with each other or with a pending timer.
    pub closed spec fn wf(self) -> bool {
        &&& self.policy.wf()
        &&& forall|j: int| 0 <= j < self.pending@.len()
                ==> (#[trigger] self.pending@[j]).id == self.pending@[j].creation
                    && self.pending@[j].creation < self.next_creation
                    && (match self.pending@[j].interval {
                        Some(iv) => 1 <= iv <= TIME_BOUND,
                        None => true,
                    })
        &&& forall|j1: int, j2: int|
                0 <= j1 < self.pending@.len() && 0 <= j2 < self.pending@.len() && j1 != j2
                ==> (#[trigger] self.pending@[j1]).creation != (#[trigger] self.pending@[j2]).creation
        &&& forall|k: int| 0 <= k < self.fired@.len()
                ==> (#[trigger] self.fired@[k]).0 < self.next_creation
        &&& forall|k1: int, k2: int|
                0 <= k1 < self.fired@.len() && 0 <= k2 < self.fired@.len() && k1 != k2
                ==> (#[trigger] self.fired@[k1]).0 != (#[trigger] self.fired@[k2]).0
        &&& forall|j: int, k: int|
                0 <= j < self.pending@.len() && 0 <= k < self.fired@.len()
                ==> (#[trigger] self.pending@[j]).id != (#[trigger] self.fired@[k]).0
    }

    /// Every pending or fired timer's canceller names a flag of `el`.
    pub open spec fn cancellers_in(self, el: EventLoop) -> bool {
        &&& forall|j: int| 0 <= j < self.pending_view().len()
                ==> (#[trigger] self.pending_view()[j]).canceller < el.flags_view().len()
        &&& forall|k: int| 0 <= k < self.fired_view().len()
                ==> (#[trigger] self.fired_view()[k]).1 < el.flags_view().len()
    }

    /// A fresh scheduler with the given policy and nothing pending.
    pub fn new(policy: TimerPolicy) -> (r: TimerScheduler)
        requires
            policy.wf(),
        ensures
            r.wf(),
            r.pending_view() =~= Seq::<ScheduledTimer>::empty(),
            r.fired_view() =~= Seq::<(u64, usize)>::empty(),
            r.policy_spec() == policy,
    {
        TimerScheduler { policy, pending: Vec::new(), fired: Vec::new(), next_creation: 0 }
    }

    /// The clamped repeat period for `delay` at depth `nesting`.
    pub fn effective_interval(&self, delay: u64, nesting: u64) -> (r: u64)
        ensures
            r == effective_interval_spec(self.policy_spec(), delay, nesting),
    {
        let floor = if nesting > self.policy.nesting_threshold {
            self.policy.nested_min_interval
        } else {
            self.policy.min_interval
        };
        if delay > floor {
            delay
        } else {
            floor
        }
    }

    /// Schedules a timer: the deadline is `now + delay`, a repeating
    /// timer's period is the requested delay clamped by policy, and a
    /// fresh cancellation flag is allocated in `el` so the timer's tasks
    /// can be cancelled even after they are queued. Returns the handle.
    pub fn set_timer(
        &mut self,
        el: &mut EventLoop,
        now: u64,
        delay: u64,
        repeating: bool,
        nesting: u64,
        source: TaskSourceName,
        callback: u64,
    ) -> (h: u64)
        requires
            old(self).wf(),
            old(el).wf(),
            now <= TIME_BOUND,
            delay <= TIME_BOUND,
            old(self).next_creation_spec() < u64::MAX,
        ensures
            final(self).wf(),
            final(el).wf(),
            h == old(self).next_creation_spec(),
            final(self).next_creation_spec() == h + 1,
            final(self).policy_spec() == old(self).policy_spec(),
            final(self).fired_view() == old(self).fired_view(),
            final(self).pending_view() =~= old(self).pending_view().push(ScheduledTimer {
                id: h,
                deadline: (now + delay) as u64,
                interval: if repeating {
                    Some(effective_interval_spec(old(self).policy_spec(), delay, nesting))
                } else {
                    None::<u64>
                },
                source,
                callback,
                canceller: old(el).flags_view().len() as usize,
                creation: h,
                nesting,
            }),
            final(el).flags_view() =~= old(el).flags_view().push(false),
            final(el).pipeline_spec() == old(el).pipeline_spec(),
            final(el).torn() == old(el).torn(),
            final(el).microtask_backlog() == old(el).microtask_backlog(),
            forall|i: int| 0 <= i < SOURCE_COUNT
                ==> #[trigger] final(el).pending_at(i) == old(el).pending_at(i)
                    && final(el).rank_at(i) == old(el).rank_at(i)
                    && final(el).surviving_at(i) == old(el).surviving_at(i),
            old(self).cancellers_in(*old(el)) ==> final(self).cancellers_in(*final(el)),
    {
        let c = el.new_canceller();
        let h = self.next_creation;
        let interval = if repeating {
            Some(self.effective_interval(delay, nesting))
        } else {
            None
        };
        let entry = ScheduledTimer {
            id: h,
            deadline: now + delay,
            interval,
            source,
            callback,
            canceller: c,
            creation: h,
            nesting,
        };
        self.pending.push(entry);
        self.next_creation = h + 1;
        proof {
            if old(self).cancellers_in(*old(el)) {
                assert forall|j: int| 0 <= j < self.pending@.len()
                    implies (#[trigger] self.pending@[j]).canceller
                        < el.flags_view().len() by {
                    if j < old(self).pending_view().len() {
                        assert(old(self).pending_view()[j].canceller
                            < old(el).flags_view().len());
                    }
                }
                assert forall|k: int| 0 <= k < self.fired@.len()
                    implies (#[trigger] self.fired@[k]).1 < el.flags_view().len() by {
                    assert(old(self).fired_view()[k].1 < old(el).flags_view().len());
                }
            }
        }
        h
    }

    /// Finds the position of the due timer (deadline at or before `now`)
    /// that fires first: least deadline, ties broken by creation.
    fn pick_due(&self, now: u64) -> (r: Option<usize>)
        requires
            self.wf(),
        ensures
            match r {
                None => forall|j: int| 0 <= j < self.pending_view().len()
                    ==> (#[trigger] self.pending_view()[j]).deadline > now,
                Some(k) => k < self.pending_view().len()
                    && self.pending_view()[k as int].deadline <= now
                    && forall|j: int|
                        0 <= j < self.pending_view().len() && j != k
                            && (#[trigger] self.pending_view()[j]).deadline <= now
                        ==> earlier(self.pending_view()[k as int], self.pending_view()[j]),
            },
    {
        let mut best: usize = self.pending.len();
        let mut j: usize = 0;
        while j < self.pending.len()
            invariant
                self.wf(),
                j <= self.pending@.len(),
                best <= self.pending@.len(),
                best < self.pending@.len() ==> self.pending@[best as int].deadline <= now,
                forall|x: int|
                    0 <= x < j && x != best && (#[trigger] self.pending@[x]).deadline <= now
                    ==> best < self.pending@.len()
                        && earlier(self.pending@[best as int], self.pending@[x]),
            decreases self.pending@.len() - j,
        {
            if self.pending[j].deadline <= now {
                if best == self.pending.len() {
                    best = j;
                } else {
                    let b = self.pending[best].deadline;
                    let jd = self.pending[j].deadline;
                    if jd < b || (jd == b && self.pending[j].creation < self.pending[best].creation) {
                        best = j;
                    }
                }
            }
            j = j + 1;
        }
        if best == self.pending.len() {
            None
        } else {
            Some(best)
        }
    }

    /// Fires every due timer: converts each pending timer whose deadline
    /// has passed into a task on its source's queue, in deadline order
    /// (ties by creation order), and reschedules repeating timers with
    /// their clamped period. A timer is never fired before its deadline;
    /// firing late is permitted. Returns the fired entries in firing
    /// order.
    pub fn fire_due(&mut self, el: &mut EventLoop, now: u64) -> (fired: Vec<ScheduledTimer>)
        requires
            old(self).wf(),
            old(el).wf(),
            !old(el).torn(),
            old(self).cancellers_in(*old(el)),
            now <= TIME_BOUND,
        ensures
            final(self).wf(),
            final(el).wf(),
            final(self).cancellers_in(*final(el)),
            final(self).policy_spec() == old(self).policy_spec(),
            final(self).next_creation_spec() == old(self).next_creation_spec(),
            final(el).pipeline_spec() == old(el).pipeline_spec(),
            final(el).torn() == old(el).torn(),
            final(el).flags_view() == old(el).flags_view(),
            final(el).microtask_backlog() == old(el).microtask_backlog(),
            forall|i: int| 0 <= i < SOURCE_COUNT
                ==> #[trigger] final(el).rank_at(i) == old(el).rank_at(i),
            // a timer never fires before its deadline
            forall|k: int| 0 <= k < fired@.len()
                ==> (#[trigger] fired@[k]).deadline <= now,
            // fired in deadline order, ties by creation
            forall|k1: int, k2: int| 0 <= k1 < k2 < fired@.len()
                ==> earlier(#[trigger] fired@[k1], #[trigger] fired@[k2]),
            // the queues grew by exactly the fired timers' tasks
            forall|i: int| 0 <= i < SOURCE_COUNT
                ==> fires_match(
                    old(el).pending_at(i),
                    #[trigger] final(el).pending_at(i),
                    fired@,
                    i,
                    old(el).pipeline_spec(),
                ),
            // nothing due is left pending
            forall|j: int| 0 <= j < final(self).pending_view().len()
                ==> (#[trigger] final(self).pending_view()[j]).deadline > now,
            // pending lost the fired entries and gained their reschedules
            final(self).pending_view().to_multiset().add(fired@.to_multiset())
                =~= old(self).pending_view().to_multiset()
                    .add(reschedules(fired@, now).to_multiset()),
            // one-shot fired timers are recorded for late cancellation
            final(self).fired_view() =~= old(self).fired_view() + retired(fired@),
    {
        broadcast use vstd::seq_lib::group_to_multiset_ensures;

        let ghost el0 = *old(el);
        let mut fired: Vec<ScheduledTimer> = Vec::new();
        proof {
            assert forall|i: int| 0 <= i < SOURCE_COUNT
                implies fires_match(
                    el0.pending_at(i),
                    #[trigger] el.pending_at(i),
                    fired@,
                    i,
                    el0.pipeline_spec(),
                ) by {
                lemma_filter_all(fired@, |t: ScheduledTimer| t.source.index_spec() == i);
                assert(el.pending_at(i).subrange(0, el.pending_at(i).len() as int)
                    =~= el.pending_at(i));
            }
            lemma_filter_all(fired@, |t: ScheduledTimer| t.interval is Some);
            lemma_filter_all(fired@, |t: ScheduledTimer| t.interval is None);
            assert(reschedules(fired@, now) =~= Seq::<ScheduledTimer>::empty());
            assert(retired(fired@) =~= Seq::<(u64, usize)>::empty());
            assert(Seq::<ScheduledTimer>::empty().to_multiset() =~= Multiset::empty());
            assert(self.pending@.to_multiset().add(fired@.to_multiset())
                =~= old(self).pending_view().to_multiset()
                    .add(reschedules(fired@, now).to_multiset()));
            assert(self.fired@ =~= old(self).fired_view() + retired(fired@));
        }
        loop
            invariant
                self.wf(),
                el.wf(),
                !el.torn(),
                now <= TIME_BOUND,
                el0 == *old(el),
                self.cancellers_in(*el),
                self.policy == old(self).policy,
                self.next_creation == old(self).next_creation,
                el.pipeline_spec() == el0.pipeline_spec(),
                el.torn() == el0.torn(),
                el.flags_view() == el0.flags_view(),
                el.microtask_backlog() == el0.microtask_backlog(),
                forall|i: int| 0 <= i < SOURCE_COUNT
                    ==> #[trigger] el.rank_at(i) == el0.rank_at(i),
                forall|k: int| 0 <= k < fired@.len()
                    ==> (#[trigger] fired@[k]).deadline <= now,
                forall|k1: int, k2: int| 0 <= k1 < k2 < fired@.len()
                    ==> earlier(#[trigger] fired@[k1], #[trigger] fired@[k2]),
                // every fired timer precedes every still-due pending timer
                forall|k: int, j: int|
                    0 <= k < fired@.len() && 0 <= j < self.pending@.len()
                        && (#[trigger] self.pending@[j]).deadline <= now
                    ==> earlier(#[trigger] fired@[k], self.pending@[j]),
                forall|i: int| 0 <= i < SOURCE_COUNT
                    ==> fires_match(
                        el0.pending_at(i),
                        #[trigger] el.pending_at(i),
                        fired@,
                        i,
                        el0.pipeline_spec(),
                    ),
                self.pending@.to_multiset().add(fired@.to_multiset())
                    =~= old(self).pending_view().to_multiset()
                        .add(reschedules(fired@, now).to_multiset()),
                self.fired@ =~= old(self).fired_view() + retired(fired@),
            ensures
                forall|j: int| 0 <= j < self.pending@.len()
                    ==> (#[trigger] self.pending@[j]).deadline > now,
            decreases self.pending@.filter(|t: ScheduledTimer| t.deadline <= now).len(),
        {
            let picked = self.pick_due(now);
            match picked {
                None => {
                    break;
                },
                Some(k) => {
                    let ghost pend0 = self.pending@;
                    let ghost fired0 = fired@;
                    let ghost books0 = self.fired@;
                    proof {
                        assert(forall|j: int| 0 <= j < pend0.len()
                            ==> (#[trigger] pend0[j]).id == pend0[j].creation
                                && pend0[j].creation < self.next_creation
                                && (match pend0[j].interval {
                                    Some(iv) => 1 <= iv <= TIME_BOUND,
                                    None => true,
                                }));
                        assert(forall|j1: int, j2: int|
                            0 <= j1 < pend0.len() && 0 <= j2 < pend0.len() && j1 != j2
                            ==> (#[trigger] pend0[j1]).creation
                                != (#[trigger] pend0[j2]).creation);
                        assert(forall|k2: int| 0 <= k2 < books0.len()
                            ==> (#[trigger] books0[k2]).0 < self.next_creation);
                        assert(forall|k1: int, k2: int|
                            0 <= k1 < books0.len() && 0 <= k2 < books0.len() && k1 != k2
                            ==> (#[trigger] books0[k1]).0 != (#[trigger] books0[k2]).0);
                        assert(forall|j: int, k2: int|
                            0 <= j < pend0.len() && 0 <= k2 < books0.len()
                            ==> (#[trigger] pend0[j]).id != (#[trigger] books0[k2]).0);
                        assert forall|j: int| 0 <= j < pend0.len()
                            implies (#[trigger] pend0[j]).canceller
                                < el.flags_view().len() by {
                            assert(pend0[j] == self.pending_view()[j]);
                        }
                        assert forall|k2: int| 0 <= k2 < books0.len()
                            implies (#[trigger] books0[k2]).1 < el.flags_view().len() by {
                            assert(books0[k2] == self.fired_view()[k2]);
                        }
                    }
                    let t = self.pending.remove(k);
                    proof {
                        assert(pend0 =~= pend0.subrange(0, k as int) + seq![t]
                            + pend0.subrange(k as int + 1, pend0.len() as int));
                        assert(self.pending@ =~= pend0.subrange(0, k as int)
                            + pend0.subrange(k as int + 1, pend0.len() as int));
                    }
                    let task = Task {
                        id: t.callback,
                        source: t.source,
                        pipeline: el.pipeline_id(),
                        canceller: Some(t.canceller),
                        body: Vec::new(),
                    };
                    let ghost elpre = *el;
                    let _queued = el.queue_task(task);
                    match t.interval {
                        Some(iv) => {
                            proof {
                                assert(1 <= iv <= TIME_BOUND);
                            }
                            let again = ScheduledTimer { deadline: now + iv, ..t };
                            self.pending.push(again);
                        },
                        None => {
                            self.fired.push((t.id, t.canceller));
                        },
                    }
                    fired.push(t);
                    proof {
                        lemma_fire_step(
                            pend0, self.pending@, fired0, fired@, books0, self.fired@,
                            t, k as int, now,
                            old(self).pending_view(), old(self).fired_view(),
                        );
                        assert forall|i: int| 0 <= i < SOURCE_COUNT
                            implies fires_match(
                                el0.pending_at(i),
                                #[trigger] el.pending_at(i),
                                fired@,
                                i,
                                el0.pipeline_spec(),
                            ) by {
                            lemma_filter_push(
                                fired0,
                                t,
                                |t: ScheduledTimer| t.source.index_spec() == i,
                            );
                            let mine0 = fired0.filter(
                                |t: ScheduledTimer| t.source.index_spec() == i,
                            );
                            let mine1 = fired@.filter(
                                |t: ScheduledTimer| t.source.index_spec() == i,
                            );
                            if i == t.source.index_spec() {
                                assert(mine1 =~= mine0.push(t));
                                assert(el.pending_at(i) =~= elpre.pending_at(i).push(task));
                                assert(el.pending_at(i).subrange(0, el0.pending_at(i).len() as int)
                                    =~= el0.pending_at(i));
                                assert(task_matches_timer(task, t, el0.pipeline_spec()));
                            } else {
                                assert(mine1 =~= mine0);
                                assert(el.pending_at(i) == elpre.pending_at(i));
                            }
                        }
                    }
                },
            }
        }
        fired
    }

    /// Cancels the timer with handle `h`: removes it from the pending
    /// set if it is still pending; if it has already been converted into
    /// a queued task, sets that task's cancellation flag so the loop
    /// drops the task at dequeue. A no-op for unknown handles;
    /// idempotent.
    pub fn clear_timer(&mut self, el: &mut EventLoop, h: u64)
        requires
            old(self).wf(),
            old(el).wf(),
            old(self).cancellers_in(*old(el)),
        ensures
            final(self).wf(),
            final(el).wf(),
            final(self).cancellers_in(*final(el)),
            final(self).policy_spec() == old(self).policy_spec(),
            final(self).next_creation_spec() == old(self).next_creation_spec(),
            final(self).fired_view() == old(self).fired_view(),
            final(self).pending_view()
                =~= old(self).pending_view().filter(|t: ScheduledTimer| t.id != h),
            final(el).pipeline_spec() == old(el).pipeline_spec(),
            final(el).torn() == old(el).torn(),
            final(el).microtask_backlog() == old(el).microtask_backlog(),
            final(el).flags_view().len() == old(el).flags_view().len(),
            forall|i: int| 0 <= i < SOURCE_COUNT
                ==> #[trigger] final(el).pending_at(i) == old(el).pending_at(i)
                    && final(el).rank_at(i) == old(el).rank_at(i),
            // the cancelled timer's flag is set, wherever the timer stood
            forall|j: int|
                0 <= j < old(self).pending_view().len()
                    && (#[trigger] old(self).pending_view()[j]).id == h
                ==> final(el).flags_view()[old(self).pending_view()[j].canceller as int],
            (forall|j: int| 0 <= j < old(self).pending_view().len()
                ==> (#[trigger] old(self).pending_view()[j]).id != h)
                ==> forall|k: int|
                    0 <= k < old(self).fired_view().len()
                        && (#[trigger] old(self).fired_view()[k]).0 == h
                    ==> final(el).flags_view()[old(self).fired_view()[k].1 as int],
            // no other flag changes
            forall|c: int|
                0 <= c < old(el).flags_view().len() && !old(self).owns_flag(h, c)
                ==> final(el).flags_view()[c] == old(el).flags_view()[c],
    {
        let ghost p = |t: ScheduledTimer| t.id != h;
        let mut j: usize = 0;
        while j < self.pending.len()
            invariant
                self.wf(),
                el.wf(),
                self.cancellers_in(*el),
                *self == *old(self),
                *el == *old(el),
                j <= self.pending@.len(),
                forall|x: int| 0 <= x < j ==> (#[trigger] self.pending@[x]).id != h,
            decreases self.pending@.len() - j,
        {
            if self.pending[j].id == h {
                let t = self.pending.remove(j);
                el.cancel(t.canceller);
                proof {
                    broadcast use vstd::prelude::Seq::filter_distributes_over_add;
                    let p = |t: ScheduledTimer| t.id != h;
                    let pend0 = old(self).pending_view();
                    let front = pend0.subrange(0, j as int);
                    let back = pend0.subrange(j as int + 1, pend0.len() as int);
                    assert(pend0 =~= front + seq![t] + back);
                    lemma_filter_all(front, p);
                    assert forall|x: int| 0 <= x < back.len()
                        implies p(#[trigger] back[x]) by {
                        assert(back[x] == pend0[j + 1 + x]);
                        assert(pend0[j + 1 + x].creation != pend0[j as int].creation);
                    }
                    lemma_filter_all(back, p);
                    lemma_filter_all(Seq::<ScheduledTimer>::empty(), p);
                    lemma_filter_push(Seq::<ScheduledTimer>::empty(), t, p);
                    assert(seq![t] =~= Seq::<ScheduledTimer>::empty().push(t));
                    assert(seq![t].filter(p) =~= Seq::<ScheduledTimer>::empty());
                    assert(self.pending@ =~= front + back);
                    assert(self.pending@ =~= pend0.filter(p));
                    assert(old(self).owns_flag(h, t.canceller as int));
                    assert forall|j2: int|
                        0 <= j2 < pend0.len() && (#[trigger] pend0[j2]).id == h
                        implies el.flags_view()[pend0[j2].canceller as int] by {
                        assert(j2 == j as int);
                    }
                    assert forall|j2: int| 0 <= j2 < self.pending_view().len()
                        implies (#[trigger] self.pending_view()[j2]).canceller
                            < el.flags_view().len() by {
                        let j0 = if j2 < j as int { j2 } else { j2 + 1 };
                        assert(self.pending_view()[j2] == pend0[j0]);
                        assert(old(self).pending_view()[j0].canceller
                            < old(el).flags_view().len());
                    }
                    assert forall|k2: int| 0 <= k2 < self.fired_view().len()
                        implies (#[trigger] self.fired_view()[k2]).1
                            < el.flags_view().len() by {
                        assert(old(self).fired_view()[k2].1 < old(el).flags_view().len());
                    }
                }
                return;
            }
            j = j + 1;
        }
        proof {
            lemma_filter_all(self.pending@, p);
        }
        let mut k: usize = 0;
        while k < self.fired.len()
            invariant
                self.wf(),
                el.wf(),
                self.cancellers_in(*el),
                *self == *old(self),
                *el == *old(el),
                k <= self.fired@.len(),
                forall|x: int| 0 <= x < k ==> (#[trigger] self.fired@[x]).0 != h,
            decreases self.fired@.len() - k,
        {
            if self.fired[k].0 == h {
                let c = self.fired[k].1;
                proof {
                    assert(self.fired_view()[k as int].1 < el.flags_view().len());
                }
                el.cancel(c);
                proof {
                    let p = |t: ScheduledTimer| t.id != h;
                    lemma_filter_all(old(self).pending_view(), p);
                    assert(old(self).owns_flag(h, c as int));
                    assert forall|k2: int|
                        0 <= k2 < old(self).fired_view().len()
                            && (#[trigger] old(self).fired_view()[k2]).0 == h
                        implies el.flags_view()[old(self).fired_view()[k2].1 as int] by {
                        assert(k2 == k as int);
                    }
                }
                return;
            }
            k = k + 1;
        }
    }

    /// Tears the pipeline down: discards every outstanding timer and
    /// record, and tears down the event loop, which drops all pending
    /// work and fails later submissions. Idempotent.
    pub fn shutdown(&mut self, el: &mut EventLoop)
        requires
            old(self).wf(),
            old(el).wf(),
        ensures
            final(self).wf(),
            final(el).wf(),
            final(el).torn(),
            final(el).pipeline_spec() == old(el).pipeline_spec(),
            final(self).cancellers_in(*final(el)),
            final(self).policy_spec() == old(self).policy_spec(),
            final(self).next_creation_spec() == old(self).next_creation_spec(),
            final(self).pending_view() =~= Seq::<ScheduledTimer>::empty(),
            final(self).fired_view() =~= Seq::<(u64, usize)>::empty(),
            final(el).microtask_backlog() =~= Seq::<Microtask>::empty(),
            forall|i: int| 0 <= i < SOURCE_COUNT
                ==> #[trigger] final(el).pending_at(i) =~= Seq::<Task>::empty(),
    {
        self.pending = Vec::new();
        self.fired = Vec::new();
        el.teardown();
    }

    /// Whether flag index `c` belongs to the timer with handle `h`,
    /// pending or already fired.
    pub open spec fn owns_flag(self, h: u64, c: int) -> bool {
        ||| exists|j: int| 0 <= j < self.pending_view().len()
                && (#[trigger] self.pending_view()[j]).id == h
                && self.pending_view()[j].canceller == c
        ||| exists|k: int| 0 <= k < self.fired_view().len()
                && (#[trigger] self.fired_view()[k]).0 == h
                && self.fired_view()[k].1 == c
    }
}

} // verus!
