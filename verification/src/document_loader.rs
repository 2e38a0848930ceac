//! The document load blocker: a non-negative counter of outstanding
//! blocking resource loads. The "loads complete" signal is edge
//! triggered: it fires exactly when a decrement returns the counter to
//! zero, so each distinct zero-crossing fires once, a burst of
//! decrements that crosses zero once fires once, and re-incrementing
//! after zero re-arms the signal.

use vstd::prelude::*;
use crate::event_loop::EventLoop;
use crate::microtask::Microtask;
use crate::task::{PipelineId, Task, TaskSourceName, SOURCE_COUNT};

verus! {

/// One operation on the counter.
#[derive(Clone, Copy, PartialEq, Eq, Structural, Debug)]
pub enum LoadOp {
    /// A blocking load started.
    Add,
    /// A blocking load completed or failed.
    Remove,
}

/// The counter after the first `n` operations of `ops`, starting from
/// `init`.
pub open spec fn count_upto(init: nat, ops: Seq<LoadOp>, n: int) -> nat
    decreases n,
{
    if n <= 0 {
        init
    } else {
        match ops[n - 1] {
            LoadOp::Add => count_upto(init, ops, n - 1) + 1,
            LoadOp::Remove => (count_upto(init, ops, n - 1) - 1) as nat,
        }
    }
}

/// A run is valid when no decrement meets a zero counter.
pub open spec fn valid_ops(init: nat, ops: Seq<LoadOp>) -> bool {
    forall|n: int| 0 <= n < ops.len() && (#[trigger] ops[n]) is Remove
        ==> count_upto(init, ops, n) > 0
}

/// How often the completion signal fires in the first `n` operations: a
/// decrement fires it exactly when the counter stood at one.
pub open spec fn signals_upto(init: nat, ops: Seq<LoadOp>, n: int) -> nat
    decreases n,
{
    if n <= 0 {
        0
    } else {
        signals_upto(init, ops, n - 1)
            + if ops[n - 1] is Remove && count_upto(init, ops, n - 1) == 1 {
                1nat
            } else {
                0nat
            }
    }
}

/// How often the counter crosses to zero in the first `n` operations:
/// positions where it was nonzero and becomes zero.
pub open spec fn crossings_upto(init: nat, ops: Seq<LoadOp>, n: int) -> nat
    decreases n,
{
    if n <= 0 {
        0
    } else {
        crossings_upto(init, ops, n - 1)
            + if count_upto(init, ops, n - 1) > 0 && count_upto(init, ops, n) == 0 {
                1nat
            } else {
                0nat
            }
    }
}

/// For every valid run of the counter, the completion signal fires
/// exactly once per distinct zero-crossing and never while the counter
/// is nonzero: the signals are precisely the transitions to zero.
pub proof fn lemma_signal_iff_zero_crossing(init: nat, ops: Seq<LoadOp>, n: int)
    requires
        valid_ops(init, ops),
        0 <= n <= ops.len(),
    ensures
        signals_upto(init, ops, n) == crossings_upto(init, ops, n),
    decreases n,
{
    if n > 0 {
        lemma_signal_iff_zero_crossing(init, ops, n - 1);
        let pre = count_upto(init, ops, n - 1);
        match ops[n - 1] {
            LoadOp::Add => {
                assert(count_upto(init, ops, n) == pre + 1);
            },
            LoadOp::Remove => {
                assert(pre > 0);
                assert(count_upto(init, ops, n) == pre - 1);
            },
        }
    }
}

/// Whether `t` is the "loads complete" task this loader queues.
pub open spec fn completion_task_matches(t: Task, loader: DocumentLoader, pipeline: PipelineId) -> bool {
    &&& t.id == loader.completion_tag()
    &&& t.source == loader.completion_source()
    &&& t.pipeline == pipeline
    &&& t.canceller is None
    &&& t.body@ =~= Seq::<Microtask>::empty()
}

/// The load-blocking counter of one document.
pub struct DocumentLoader {
    blocking_loads: u64,
    source: TaskSourceName,
    tag: u64,
}

impl DocumentLoader {
    /// The number of outstanding blocking loads.
    pub closed spec fn blocking_count(self) -> u64 {
        self.blocking_loads
    }

    /// The task source the completion task is queued through.
    pub closed spec fn completion_source(self) -> TaskSourceName {
        self.source
    }

    /// The tag of the completion task.
    pub closed spec fn completion_tag(self) -> u64 {
        self.tag
    }

    /// A loader with no outstanding blocking loads; its completion task
    /// carries `tag` and is queued through `source`.
    pub fn new(source: TaskSourceName, tag: u64) -> (r: DocumentLoader)
        ensures
            r.blocking_count() == 0,
            r.completion_source() == source,
            r.completion_tag() == tag,
    {
        DocumentLoader { blocking_loads: 0, source, tag }
    }

    /// The number of outstanding blocking loads.
    pub fn blocking_load_count(&self) -> (r: u64)
        ensures
            r == self.blocking_count(),
    {
        self.blocking_loads
    }

    /// A blocking resource load started: increments the counter. After a
    /// zero state this re-arms the completion signal.
    pub fn add_blocking_load(&mut self)
        requires
            old(self).blocking_count() < u64::MAX,
        ensures
            final(self).blocking_count() == old(self).blocking_count() + 1,
            final(self).completion_source() == old(self).completion_source(),
            final(self).completion_tag() == old(self).completion_tag(),
    {
        self.blocking_loads = self.blocking_loads + 1;
    }

    /// A blocking load completed or failed: decrements the counter and,
    /// exactly when the counter returns to zero, queues the "loads
    /// complete" task once. Decrementing a zero counter is a caller
    /// contract violation, not a valid transition. Returns whether the
    /// signal fired.
    pub fn remove_blocking_load(&mut self, el: &mut EventLoop) -> (fired: bool)
        requires
            old(self).blocking_count() > 0,
            old(el).wf(),
            !old(el).torn(),
        ensures
            final(self).blocking_count() == old(self).blocking_count() - 1,
            final(self).completion_source() == old(self).completion_source(),
            final(self).completion_tag() == old(self).completion_tag(),
            fired == (old(self).blocking_count() == 1),
            fired == (final(self).blocking_count() == 0),
            final(el).wf(),
            final(el).pipeline_spec() == old(el).pipeline_spec(),
            final(el).torn() == old(el).torn(),
            final(el).flags_view() == old(el).flags_view(),
            final(el).microtask_backlog() == old(el).microtask_backlog(),
            forall|i: int| 0 <= i < SOURCE_COUNT
                ==> #[trigger] final(el).rank_at(i) == old(el).rank_at(i),
            !fired ==> forall|i: int| 0 <= i < SOURCE_COUNT
                ==> #[trigger] final(el).pending_at(i) == old(el).pending_at(i),
            fired ==> ({
                let ci = old(self).completion_source().index_spec();
                &&& final(el).pending_at(ci).len() == old(el).pending_at(ci).len() + 1
                &&& final(el).pending_at(ci).subrange(0, old(el).pending_at(ci).len() as int)
                    =~= old(el).pending_at(ci)
                &&& completion_task_matches(
                    final(el).pending_at(ci).last(),
                    *old(self),
                    old(el).pipeline_spec(),
                )
                &&& forall|i: int| 0 <= i < SOURCE_COUNT && i != ci
                        ==> #[trigger] final(el).pending_at(i) == old(el).pending_at(i)
            }),
    {
        self.blocking_loads = self.blocking_loads - 1;
        if self.blocking_loads == 0 {
            let task = Task {
                id: self.tag,
                source: self.source,
                pipeline: el.pipeline_id(),
                canceller: None,
                body: Vec::new(),
            };
            let _queued = el.queue_task(task);
            true
        } else {
            false
        }
    }
}

} // verus!
