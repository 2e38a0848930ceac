//! Per-pipeline task scheduling and event-loop engine for a web-content
//! runtime: categorized task sources with a configurable cross-source
//! priority policy, a microtask queue drained to exhaustion at each
//! checkpoint, a deadline-ordered timer scheduler with interval clamping,
//! a per-document load-blocking counter, a network-progress adapter, and
//! per-scope service-worker job queues.
//!
//! Script execution itself is an external collaborator: a task or
//! microtask body is represented by the work it enqueues, so the engine's
//! ordering guarantees are stated and proved over plain data.

use vstd::prelude::*;
use crate::serviceworker_manager::ServiceWorkerManager;

pub mod document_loader;
pub mod event_loop;
pub mod network_listener;
pub mod serviceworker_manager;
pub mod serviceworkerjob;
pub mod microtask;
pub mod task;
pub mod timers;
pub mod window;

verus! {

/// Creates the per-process service-worker manager with no queues yet;
/// the transport that carries its lifecycle messages stays with the
/// embedder.
pub fn init_service_workers() -> (r: ServiceWorkerManager)
    ensures
        r.wf(),
        r.queues_view() =~= Seq::<crate::serviceworkerjob::JobQueue>::empty(),
{
    ServiceWorkerManager::new()
}

/// Ceiling for the file-descriptor soft limit the engine asks the
/// platform for at startup; many systems default to this hard maximum.
pub const MAX_FILE_LIMIT: u64 = 4096;

/// Decides the new file-descriptor soft limit at engine startup, given
/// the current soft limit and the hard limit (`None` meaning unlimited).
/// Returns `None` when the current soft limit already suffices, otherwise
/// the raised soft limit: `MAX_FILE_LIMIT`, capped by the hard limit.
/// Reading and writing the platform limits is the embedder's part.
pub fn perform_platform_specific_initialization(
    soft_limit: u64,
    hard_limit: Option<u64>,
) -> (r: Option<u64>)
    ensures
        soft_limit >= MAX_FILE_LIMIT ==> r is None,
        soft_limit < MAX_FILE_LIMIT ==> match hard_limit {
            None => r == Some(MAX_FILE_LIMIT),
            Some(hard) => r == Some(if hard < MAX_FILE_LIMIT { hard } else { MAX_FILE_LIMIT }),
        },
{
    if soft_limit >= MAX_FILE_LIMIT {
        return None;
    }
    match hard_limit {
        None => Some(MAX_FILE_LIMIT),
        Some(hard) => {
            if hard < MAX_FILE_LIMIT {
                Some(hard)
            } else {
                Some(MAX_FILE_LIMIT)
            }
        },
    }
}

} // verus!
