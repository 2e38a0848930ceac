//! The network listener: adapts the ordered per-request stream of
//! resource-load progress events into tasks on the networking source.
//! One task is queued per notification — raw bytes are never buffered
//! ahead of the consuming script; the network collaborator keeps the
//! data. When the stream ends (success or error), a load-blocking
//! request releases its document's load blocker exactly once, no matter
//! how many chunk events preceded the end.

use vstd::prelude::*;
use crate::document_loader::{completion_task_matches, DocumentLoader};
use crate::event_loop::EventLoop;
use crate::microtask::Microtask;
use crate::task::{Task, TaskSourceName, SOURCE_COUNT};

verus! {

/// One progress event of a resource load.
#[derive(Clone, Copy, PartialEq, Eq, Structural, Debug)]
pub enum NetworkEvent {
    /// Response metadata arrived.
    MetadataReceived,
    /// A chunk of the body arrived; carries its byte count. The bytes
    /// themselves stay with the network collaborator.
    Chunk(u64),
    /// The load finished.
    Done,
    /// The load failed; carries a reason code.
    Errored(u64),
}

/// Whether `ev` ends the stream of its request.
pub open spec fn is_terminal(ev: NetworkEvent) -> bool {
    ev is Done || ev is Errored
}

/// Whether `t` is the notification task the listener queues for one
/// event of request `request`.
pub open spec fn notification_task_matches(t: Task, request: u64, pipeline: u64) -> bool {
    &&& t.id == request
    &&& t.source == TaskSourceName::Networking
    &&& t.pipeline == pipeline
    &&& t.canceller is None
    &&& t.body@ =~= Seq::<Microtask>::empty()
}

/// The listener for one outstanding request.
pub struct NetworkListener {
    request: u64,
    blocks_load: bool,
    terminal_seen: bool,
    notifications: u64,
}

impl NetworkListener {
    /// The tag of the request; every notification task carries it.
    pub closed spec fn request_tag(self) -> u64 {
        self.request
    }

    /// Whether this request was registered as load-blocking.
    pub closed spec fn blocks_load_spec(self) -> bool {
        self.blocks_load
    }

    /// Whether the stream has ended.
    pub closed spec fn terminal_seen_spec(self) -> bool {
        self.terminal_seen
    }

    /// How many events have been forwarded as tasks.
    pub closed spec fn notification_count(self) -> u64 {
        self.notifications
    }

    /// A listener for request `request`. A load-blocking request has
    /// already incremented its document's load blocker; the listener
    /// releases it when the stream ends.
    pub fn new(request: u64, blocks_load: bool) -> (r: NetworkListener)
        ensures
            r.request_tag() == request,
            r.blocks_load_spec() == blocks_load,
            !r.terminal_seen_spec(),
            r.notification_count() == 0,
    {
        NetworkListener { request, blocks_load, terminal_seen: false, notifications: 0 }
    }

    /// Handles one progress event: queues exactly one task on the
    /// networking source for it, and on the stream's end releases the
    /// document's load blocker — exactly once per request, however many
    /// chunk events came before.
    pub fn on_event(
        &mut self,
        el: &mut EventLoop,
        loader: &mut DocumentLoader,
        ev: NetworkEvent,
    ) -> (released: bool)
        requires
            old(el).wf(),
            !old(el).torn(),
            !old(self).terminal_seen_spec(),
            old(self).notification_count() < u64::MAX,
            old(self).blocks_load_spec() && is_terminal(ev)
                ==> old(loader).blocking_count() > 0,
        ensures
            final(self).request_tag() == old(self).request_tag(),
            final(self).blocks_load_spec() == old(self).blocks_load_spec(),
            final(self).terminal_seen_spec() == is_terminal(ev),
            final(self).notification_count() == old(self).notification_count() + 1,
            released == (old(self).blocks_load_spec() && is_terminal(ev)),
            final(el).wf(),
            final(el).pipeline_spec() == old(el).pipeline_spec(),
            final(el).torn() == old(el).torn(),
            final(el).flags_view() == old(el).flags_view(),
            final(el).microtask_backlog() == old(el).microtask_backlog(),
            forall|i: int| 0 <= i < SOURCE_COUNT
                ==> #[trigger] final(el).rank_at(i) == old(el).rank_at(i),
            released ==> final(loader).blocking_count() == old(loader).blocking_count() - 1,
            !released ==> *final(loader) == *old(loader),
            final(loader).completion_source() == old(loader).completion_source(),
            final(loader).completion_tag() == old(loader).completion_tag(),
            // the notification task always lands on the networking queue
            ({
                let ni = TaskSourceName::Networking.index_spec();
                &&& final(el).pending_at(ni).len() >= old(el).pending_at(ni).len() + 1
                &&& final(el).pending_at(ni).subrange(0, old(el).pending_at(ni).len() as int)
                    =~= old(el).pending_at(ni)
                &&& notification_task_matches(
                    final(el).pending_at(ni)[old(el).pending_at(ni).len() as int],
                    old(self).request_tag(),
                    old(el).pipeline_spec(),
                )
            }),
            // beyond the notification, only a fired completion task is added
            (!released || old(loader).blocking_count() > 1) ==> ({
                let ni = TaskSourceName::Networking.index_spec();
                &&& final(el).pending_at(ni).len() == old(el).pending_at(ni).len() + 1
                &&& forall|i: int| 0 <= i < SOURCE_COUNT && i != ni
                        ==> #[trigger] final(el).pending_at(i) == old(el).pending_at(i)
            }),
            (released && old(loader).blocking_count() == 1) ==> ({
                let ni = TaskSourceName::Networking.index_spec();
                let ci = old(loader).completion_source().index_spec();
                &&& (ci != ni ==> final(el).pending_at(ni).len()
                        == old(el).pending_at(ni).len() + 1
                    && completion_task_matches(
                        final(el).pending_at(ci).last(),
                        *old(loader),
                        old(el).pipeline_spec(),
                    )
                    && final(el).pending_at(ci).len() == old(el).pending_at(ci).len() + 1
                    && final(el).pending_at(ci).subrange(0, old(el).pending_at(ci).len() as int)
                        =~= old(el).pending_at(ci))
                &&& (ci == ni ==> final(el).pending_at(ni).len()
                        == old(el).pending_at(ni).len() + 2
                    && completion_task_matches(
                        final(el).pending_at(ni).last(),
                        *old(loader),
                        old(el).pipeline_spec(),
                    ))
                &&& forall|i: int| 0 <= i < SOURCE_COUNT && i != ni && i != ci
                        ==> #[trigger] final(el).pending_at(i) == old(el).pending_at(i)
            }),
    {
        let task = Task {
            id: self.request,
            source: TaskSourceName::Networking,
            pipeline: el.pipeline_id(),
            canceller: None,
            body: Vec::new(),
        };
        let _queued = el.queue_task(task);
        let ghost mid = *el;
        proof {
            let ni = TaskSourceName::Networking.index_spec();
            assert(mid.pending_at(ni) =~= old(el).pending_at(ni).push(task));
            assert(mid.pending_at(ni).subrange(0, old(el).pending_at(ni).len() as int)
                =~= old(el).pending_at(ni));
        }
        self.notifications = self.notifications + 1;
        let terminal = match ev {
            NetworkEvent::Done => true,
            NetworkEvent::Errored(_) => true,
            NetworkEvent::MetadataReceived => false,
            NetworkEvent::Chunk(_) => false,
        };
        if terminal {
            self.terminal_seen = true;
            if self.blocks_load {
                let _fired = loader.remove_blocking_load(el);
                proof {
                    let ni = TaskSourceName::Networking.index_spec();
                    let ci = old(loader).completion_source().index_spec();
                    if _fired {
                        assert(el.pending_at(ci).subrange(0, mid.pending_at(ci).len() as int)
                            =~= mid.pending_at(ci));
                        assert forall|x: int| 0 <= x < mid.pending_at(ci).len()
                            implies el.pending_at(ci)[x] == mid.pending_at(ci)[x] by {
                            assert(el.pending_at(ci)
                                .subrange(0, mid.pending_at(ci).len() as int)[x]
                                == el.pending_at(ci)[x]);
                        }
                        if ci != ni {
                            assert(el.pending_at(ni) == mid.pending_at(ni));
                        } else {
                            assert(el.pending_at(ci)[old(el).pending_at(ci).len() as int]
                                == mid.pending_at(ci)[old(el).pending_at(ci).len() as int]);
                            assert forall|x: int| 0 <= x < old(el).pending_at(ni).len()
                                implies el.pending_at(ni)[x] == old(el).pending_at(ni)[x] by {
                                assert(el.pending_at(ci)[x] == mid.pending_at(ci)[x]);
                            }
                        }
                        assert(el.pending_at(ni)
                            .subrange(0, old(el).pending_at(ni).len() as int)
                            =~= old(el).pending_at(ni));
                        assert(el.pending_at(ni)[old(el).pending_at(ni).len() as int]
                            == task);
                    } else {
                        assert(el.pending_at(ni) == mid.pending_at(ni));
                    }
                }
                return true;
            }
        }
        false
    }
}

} // verus!
