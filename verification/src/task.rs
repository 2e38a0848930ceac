//! The categorized, cancellable unit of deferred work, and the closed set
//! of task-source categories through which work reaches one event loop.

use vstd::prelude::*;
use crate::microtask::Microtask;

verus! {

/// Identifier of one browsing-context pipeline; each pipeline owns
/// exactly one event loop and one script global.
pub type PipelineId = u64;

/// The closed set of task-source categories. Category membership is
/// immutable once a task is created; tasks are strictly FIFO within one
/// category.
#[derive(Clone, Copy, PartialEq, Eq, Structural, Debug)]
pub enum TaskSourceName {
    DomManipulation,
    UserInteraction,
    Networking,
    HistoryTraversal,
    FileReading,
    PerformanceTimeline,
    RemoteEvent,
    Timer,
    ServiceWorker,
    IndexedDb,
}

/// Number of task-source categories; the event loop keeps one FIFO queue
/// per category.
pub const SOURCE_COUNT: usize = 10;

impl TaskSourceName {
    /// The fixed queue index of this category.
    pub open spec fn index_spec(self) -> int {
        match self {
            TaskSourceName::DomManipulation => 0,
            TaskSourceName::UserInteraction => 1,
            TaskSourceName::Networking => 2,
            TaskSourceName::HistoryTraversal => 3,
            TaskSourceName::FileReading => 4,
            TaskSourceName::PerformanceTimeline => 5,
            TaskSourceName::RemoteEvent => 6,
            TaskSourceName::Timer => 7,
            TaskSourceName::ServiceWorker => 8,
            TaskSourceName::IndexedDb => 9,
        }
    }

    /// The queue index of this category.
    pub fn index(&self) -> (i: usize)
        ensures
            i == self.index_spec(),
            i < SOURCE_COUNT,
    {
        match self {
            TaskSourceName::DomManipulation => 0,
            TaskSourceName::UserInteraction => 1,
            TaskSourceName::Networking => 2,
            TaskSourceName::HistoryTraversal => 3,
            TaskSourceName::FileReading => 4,
            TaskSourceName::PerformanceTimeline => 5,
            TaskSourceName::RemoteEvent => 6,
            TaskSourceName::Timer => 7,
            TaskSourceName::ServiceWorker => 8,
            TaskSourceName::IndexedDb => 9,
        }
    }
}

/// A unit of deferred work. The body of a task is owned by the script
/// collaborator; the engine models it by an opaque tag `id` together with
/// the microtasks the body enqueues when it runs. A task whose canceller
/// flag is set by the time it is dequeued is dropped without running.
pub struct Task {
    /// Opaque tag identifying the deferred work.
    pub id: u64,
    /// The source category the task belongs to; it never changes.
    pub source: TaskSourceName,
    /// The pipeline whose global the task targets.
    pub pipeline: PipelineId,
    /// Index of a cancellation flag in the owning event loop, if the task
    /// is cancellable.
    pub canceller: Option<usize>,
    /// The microtasks the task's body enqueues while it runs.
    pub body: Vec<Microtask>,
}

} // verus!
