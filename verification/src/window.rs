//! The embedder window's shell state: a FIFO of window events and the
//! document's ready and render states. When a finished-loading document
//! goes from rendering back to idle, the window queues a "finished"
//! event for the embedder's loop — exactly at that transition.

use vstd::prelude::*;

verus! {

/// Loading progress of the presented document.
#[derive(Clone, Copy, PartialEq, Eq, Structural, Debug)]
pub enum ReadyState {
    Blank,
    Loading,
    PerformingLayout,
    FinishedLoading,
}

/// Whether the compositor is currently rendering.
#[derive(Clone, Copy, PartialEq, Eq, Structural, Debug)]
pub enum RenderState {
    IdleRenderState,
    RenderingRenderState,
}

/// An event of the embedder's window loop.
#[derive(Clone, Copy, PartialEq, Eq, Structural, Debug)]
pub enum WindowEvent {
    /// Nothing to do.
    Idle,
    /// Redraw requested.
    Refresh,
    /// The page finished loading and rendering.
    Finished,
    /// The window is closing.
    Quit,
}

/// Hardware pixel width of the fixed-size framebuffer.
pub const FRAMEBUFFER_WIDTH: u64 = 480;

/// Hardware pixel height of the fixed-size framebuffer.
pub const FRAMEBUFFER_HEIGHT: u64 = 800;

/// The window's shell state.
pub struct Window {
    event_queue: Vec<WindowEvent>,
    ready_state: ReadyState,
    render_state: RenderState,
}

impl Window {
    /// The queued window events, front first.
    pub closed spec fn events(self) -> Seq<WindowEvent> {
        self.event_queue@
    }

    /// The document's ready state.
    pub closed spec fn ready(self) -> ReadyState {
        self.ready_state
    }

    /// The compositor's render state.
    pub closed spec fn render(self) -> RenderState {
        self.render_state
    }

    /// A fresh window: no queued events, a blank document, an idle
    /// compositor.
    pub fn new() -> (r: Window)
        ensures
            r.events() =~= Seq::<WindowEvent>::empty(),
            r.ready() == ReadyState::Blank,
            r.render() == RenderState::IdleRenderState,
    {
        Window {
            event_queue: Vec::new(),
            ready_state: ReadyState::Blank,
            render_state: RenderState::IdleRenderState,
        }
    }

    /// Queues a window event at the back.
    pub fn push_event(&mut self, ev: WindowEvent)
        ensures
            final(self).events() == old(self).events().push(ev),
            final(self).ready() == old(self).ready(),
            final(self).render() == old(self).render(),
    {
        self.event_queue.push(ev);
    }

    /// Takes the next queued event, or `Idle` when none is queued.
    pub fn wait_events(&mut self) -> (ev: WindowEvent)
        ensures
            final(self).ready() == old(self).ready(),
            final(self).render() == old(self).render(),
            old(self).events().len() == 0 ==> ev == WindowEvent::Idle
                && final(self).events() == old(self).events(),
            old(self).events().len() > 0 ==> ev == old(self).events()[0]
                && final(self).events()
                    =~= old(self).events().subrange(1, old(self).events().len() as int),
    {
        if self.event_queue.len() > 0 {
            self.event_queue.remove(0)
        } else {
            WindowEvent::Idle
        }
    }

    /// Sets the document's ready state.
    pub fn set_ready_state(&mut self, ready_state: ReadyState)
        ensures
            final(self).ready() == ready_state,
            final(self).render() == old(self).render(),
            final(self).events() == old(self).events(),
    {
        self.ready_state = ready_state;
    }

    /// Sets the compositor's render state. Exactly when a
    /// finished-loading document stops rendering — the page is loaded —
    /// a `Finished` event is queued for the embedder's loop.
    pub fn set_render_state(&mut self, render_state: RenderState)
        ensures
            final(self).render() == render_state,
            final(self).ready() == old(self).ready(),
            ({
                let loaded = old(self).ready() == ReadyState::FinishedLoading
                    && old(self).render() == RenderState::RenderingRenderState
                    && render_state == RenderState::IdleRenderState;
                if loaded {
                    final(self).events()
                        == old(self).events().push(WindowEvent::Finished)
                } else {
                    final(self).events() == old(self).events()
                }
            }),
    {
        if self.ready_state == ReadyState::FinishedLoading
            && self.render_state == RenderState::RenderingRenderState
            && render_state == RenderState::IdleRenderState {
            self.event_queue.push(WindowEvent::Finished);
        }
        self.render_state = render_state;
    }

    /// The size of the framebuffer in hardware pixels.
    pub fn framebuffer_size(&self) -> (r: (u64, u64))
        ensures
            r.0 == FRAMEBUFFER_WIDTH,
            r.1 == FRAMEBUFFER_HEIGHT,
    {
        (FRAMEBUFFER_WIDTH, FRAMEBUFFER_HEIGHT)
    }
}

} // verus!
