use shader_rs::{Control, Driver, Event, RenderOutcome, Size};

#[test]
fn new_driver_starts_running_with_zero_time() {
    let d = Driver::new(512, 512);
    assert!(d.running);
    assert_eq!(d.frames_presented, 0);
    assert_eq!(d.width, 512);
    assert_eq!(d.height, 512);
    assert_eq!(d.uniform.time_bits, 0.0f32.to_bits());
    assert_eq!(d.uniform.res_x_bits, 512.0f32.to_bits());
    assert_eq!(d.uniform.res_y_bits, 512.0f32.to_bits());
}

#[test]
fn valid_resize_updates_surface_and_uniform() {
    let mut d = Driver::new(512, 512);
    let r = d.step(Event::Resized(1024, 768));
    assert_eq!(d.width, 1024);
    assert_eq!(d.height, 768);
    assert_eq!(d.uniform.res_x_bits, 1024.0f32.to_bits());
    assert_eq!(d.uniform.res_y_bits, 768.0f32.to_bits());
    assert_eq!(r.reconfigure, Some(Size { width: 1024, height: 768 }));
    assert_eq!(r.control, Control::Continue);
}

#[test]
fn zero_area_resize_is_a_no_op() {
    let mut d = Driver::new(512, 512);
    let before = d;
    for (w, h) in [(0u32, 600u32), (800, 0), (0, 0)] {
        let r = d.step(Event::Resized(w, h));
        assert_eq!(d, before, "state must be unchanged for {}x{}", w, h);
        assert_eq!(r.reconfigure, None);
        assert_eq!(r.control, Control::Continue);
    }
}

#[test]
fn lost_surface_then_same_size_resize_reconfigures_once_and_continues() {
    let mut d = Driver::new(800, 600);
    let before = d;
    // The driver recovers from a lost surface by a resize to the current
    // size: exactly one reconfiguration directive, and the loop continues.
    let r = d.step(Event::Rendered(RenderOutcome::Lost));
    assert_eq!(r.reconfigure, Some(Size { width: 800, height: 600 }));
    assert_eq!(r.control, Control::Continue);
    assert!(d.running);
    assert_eq!(d, before);
}

#[test]
fn outdated_surface_recovers_like_lost() {
    let mut d = Driver::new(512, 512);
    let r = d.step(Event::Rendered(RenderOutcome::Outdated));
    assert_eq!(r.reconfigure, Some(Size { width: 512, height: 512 }));
    assert_eq!(r.control, Control::Continue);
    assert!(d.running);
}

#[test]
fn out_of_memory_is_fatal() {
    let mut d = Driver::new(512, 512);
    let r = d.step(Event::Rendered(RenderOutcome::OutOfMemory));
    assert_eq!(r.control, Control::Exit);
    assert!(!d.running);
}

#[test]
fn timeout_is_ignored() {
    let mut d = Driver::new(512, 512);
    let before = d;
    let r = d.step(Event::Rendered(RenderOutcome::Timeout));
    assert_eq!(r.control, Control::Continue);
    assert_eq!(r.reconfigure, None);
    assert_eq!(d, before);
}

#[test]
fn success_counts_a_presented_frame() {
    let mut d = Driver::new(512, 512);
    let r = d.step(Event::Rendered(RenderOutcome::Success));
    assert_eq!(d.frames_presented, 1);
    assert_eq!(r.control, Control::Continue);
    let _ = d.step(Event::Rendered(RenderOutcome::Success));
    assert_eq!(d.frames_presented, 2);
}

#[test]
fn close_on_first_iteration_exits_with_no_frames() {
    // Launched at 800x600; a close request arrives before anything else.
    let mut d = Driver::new(800, 600);
    let r = d.step(Event::CloseRequested);
    assert_eq!(r.control, Control::Exit);
    assert!(!d.running);
    assert!(d.frames_presented <= 1);
    assert_eq!(d.frames_presented, 0);
    // Once exited, a redraw opportunity no longer asks for a render.
    let r2 = d.step(Event::RedrawOpportunity);
    assert_eq!(r2.control, Control::Exit);
}

#[test]
fn redraw_opportunity_asks_for_a_render_while_running() {
    let mut d = Driver::new(512, 512);
    let r = d.step(Event::RedrawOpportunity);
    assert_eq!(r.control, Control::Render);
    assert_eq!(r.reconfigure, None);
}

#[test]
fn set_time_bits_touches_only_the_time_word() {
    let mut d = Driver::new(640, 480);
    let before = d;
    d.set_time_bits(1.5f32.to_bits());
    assert_eq!(d.uniform.time_bits, 1.5f32.to_bits());
    assert_eq!(d.uniform.res_x_bits, before.uniform.res_x_bits);
    assert_eq!(d.uniform.res_y_bits, before.uniform.res_y_bits);
    assert_eq!(d.uniform.padding, 0);
    assert_eq!(d.width, before.width);
    assert_eq!(d.height, before.height);
}

#[test]
fn whole_session_scenario() {
    // A short interactive session: resize, a few frames, a lost surface,
    // another frame, then a close request.
    let mut d = Driver::new(512, 512);

    let r = d.step(Event::Resized(800, 600));
    assert_eq!(r.reconfigure, Some(Size { width: 800, height: 600 }));

    assert_eq!(d.step(Event::RedrawOpportunity).control, Control::Render);
    let _ = d.step(Event::Rendered(RenderOutcome::Success));
    assert_eq!(d.step(Event::RedrawOpportunity).control, Control::Render);
    let r = d.step(Event::Rendered(RenderOutcome::Lost));
    assert_eq!(r.reconfigure, Some(Size { width: 800, height: 600 }));
    assert_eq!(r.control, Control::Continue);
    assert_eq!(d.step(Event::RedrawOpportunity).control, Control::Render);
    let _ = d.step(Event::Rendered(RenderOutcome::Success));

    assert_eq!(d.frames_presented, 2);
    assert!(d.running);

    let r = d.step(Event::CloseRequested);
    assert_eq!(r.control, Control::Exit);
    assert!(!d.running);
    assert_eq!(d.uniform.res_x_bits, 800.0f32.to_bits());
    assert_eq!(d.uniform.res_y_bits, 600.0f32.to_bits());
}
