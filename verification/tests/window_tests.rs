use script::window::{ReadyState, RenderState, Window, WindowEvent};

#[test]
fn wait_events_pops_the_queue_front_first() {
    let mut w = Window::new();
    w.push_event(WindowEvent::Refresh);
    w.push_event(WindowEvent::Quit);
    assert_eq!(w.wait_events(), WindowEvent::Refresh);
    assert_eq!(w.wait_events(), WindowEvent::Quit);
    assert_eq!(w.wait_events(), WindowEvent::Idle);
}

#[test]
fn finished_event_fires_exactly_at_the_loaded_transition() {
    let mut w = Window::new();
    w.set_ready_state(ReadyState::FinishedLoading);
    w.set_render_state(RenderState::RenderingRenderState);
    assert_eq!(w.wait_events(), WindowEvent::Idle);
    w.set_render_state(RenderState::IdleRenderState);
    assert_eq!(w.wait_events(), WindowEvent::Finished);
    // going idle again without rendering fires nothing more
    w.set_render_state(RenderState::IdleRenderState);
    assert_eq!(w.wait_events(), WindowEvent::Idle);
}

#[test]
fn no_finished_event_while_still_loading() {
    let mut w = Window::new();
    w.set_ready_state(ReadyState::Loading);
    w.set_render_state(RenderState::RenderingRenderState);
    w.set_render_state(RenderState::IdleRenderState);
    assert_eq!(w.wait_events(), WindowEvent::Idle);
}

#[test]
fn framebuffer_size_is_fixed() {
    let w = Window::new();
    assert_eq!(w.framebuffer_size(), (480, 800));
}
