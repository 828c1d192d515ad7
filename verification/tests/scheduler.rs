use epd_display::binary_framebuffer::{BinaryColor, BinaryFrameBuffer};
use epd_display::device_driver::{
    render_frame, AfterWait, RefreshMode, RefreshSignal, Scheduler, Span, WaitOutcome,
};
use epd_display::geometry::{Point, Rectangle, Size};
use epd_display::renderer::drawing_error::DrawingError;
use epd_display::renderer::image::{Image, ImageFile};
use epd_display::renderer::progress::Progress;
use epd_display::renderer::Primitive;

type Frame = BinaryFrameBuffer<BinaryColor>;

fn dirty(x: i32, y: i32, width: u32, height: u32) -> Rectangle {
    Rectangle::new(Point::new(x, y), Size::new(width, height))
}

fn flip(frame: &mut Frame, index: usize) {
    let value = frame.get_bit(index);
    frame.set_bit(index, !value);
}

#[test]
fn first_cycle_is_a_full_refresh() {
    // Nothing differs from the blank frame that the scheduler starts from.
    let mut scheduler = Scheduler::<BinaryColor>::new(16, 16, 6);
    assert!(scheduler.is_full_pending());
    assert!(!scheduler.is_asleep());
    let frame = Frame::new(16, 16);
    let plan = scheduler.plan_refresh(&frame);
    assert_eq!(plan.mode, RefreshMode::Full);
    assert!(!plan.wake_up);
    assert!(plan.rects.is_empty());
    assert!(!scheduler.is_full_pending());
    // Everything differs.
    let mut scheduler = Scheduler::<BinaryColor>::new(16, 16, 6);
    let mut frame = Frame::new(16, 16);
    frame.fill(true);
    let plan = scheduler.plan_refresh(&frame);
    assert_eq!(plan.mode, RefreshMode::Full);
    assert_eq!(scheduler.get_max_changes(), 0);
    assert!(!scheduler.is_full_pending());
    // The frame after it is compared with what was shown.
    let plan = scheduler.plan_refresh(&frame);
    assert_eq!(plan.mode, RefreshMode::Skip);
}

#[test]
fn partial_refresh_reports_the_changed_rectangles() {
    let mut scheduler = Scheduler::<BinaryColor>::new(32, 16, 6);
    let mut frame = Frame::new(32, 16);
    assert_eq!(scheduler.plan_refresh(&frame).mode, RefreshMode::Full);
    frame.set_pixel(3, 4, BinaryColor::On);
    frame.set_pixel(5, 2, BinaryColor::On);
    frame.set_pixel(30, 15, BinaryColor::On);
    let plan = scheduler.plan_refresh(&frame);
    assert_eq!(plan.mode, RefreshMode::Partial);
    assert_eq!(plan.rects, vec![dirty(3, 2, 3, 3), dirty(30, 15, 1, 1)]);
    assert!(!plan.wake_up);
    assert_eq!(scheduler.get_max_changes(), 1);
    let plan = scheduler.plan_refresh(&frame);
    assert_eq!(plan.mode, RefreshMode::Skip);
    assert!(plan.rects.is_empty());
    assert_eq!(scheduler.get_max_changes(), 1);
}

#[test]
fn worn_pixels_force_a_full_refresh() {
    let mut scheduler = Scheduler::<BinaryColor>::new(16, 16, 3);
    let mut frame = Frame::new(16, 16);
    assert_eq!(scheduler.plan_refresh(&frame).mode, RefreshMode::Full);
    for n in 1..=3u8 {
        flip(&mut frame, 20);
        flip(&mut frame, 200);
        let plan = scheduler.plan_refresh(&frame);
        assert_eq!(plan.mode, RefreshMode::Partial);
        assert_eq!(plan.rects.len(), 2);
        assert_eq!(scheduler.get_max_changes(), n);
    }
    // The fourth change of the two pixels is one too many.
    flip(&mut frame, 20);
    flip(&mut frame, 200);
    let plan = scheduler.plan_refresh(&frame);
    assert_eq!(plan.mode, RefreshMode::Full);
    assert_eq!(plan.rects, vec![dirty(4, 1, 1, 1), dirty(8, 12, 1, 1)]);
    assert_eq!(scheduler.get_max_changes(), 0);
    assert!(!scheduler.is_full_pending());
    // The count starts over.
    flip(&mut frame, 20);
    let plan = scheduler.plan_refresh(&frame);
    assert_eq!(plan.mode, RefreshMode::Partial);
    assert_eq!(scheduler.get_max_changes(), 1);
}

#[test]
fn queued_full_signal_forces_one_full_refresh() {
    let mut scheduler = Scheduler::<BinaryColor>::new(16, 16, 6);
    let mut frame = Frame::new(16, 16);
    assert_eq!(scheduler.plan_refresh(&frame).mode, RefreshMode::Full);
    // A normal signal ends the wait, and a full one is found in the queue.
    assert!(!scheduler.begin_step(0));
    assert_eq!(
        scheduler.end_step(WaitOutcome::Signal(RefreshSignal::Normal)),
        AfterWait::Render
    );
    assert!(!scheduler.is_full_pending());
    scheduler.queued(RefreshSignal::Normal);
    assert!(!scheduler.is_full_pending());
    scheduler.queued(RefreshSignal::Full);
    scheduler.queued(RefreshSignal::Normal);
    assert!(scheduler.is_full_pending());
    flip(&mut frame, 9);
    let plan = scheduler.plan_refresh(&frame);
    assert_eq!(plan.mode, RefreshMode::Full);
    // The cycle after it is an ordinary one again.
    assert!(!scheduler.is_full_pending());
    flip(&mut frame, 9);
    assert_eq!(scheduler.plan_refresh(&frame).mode, RefreshMode::Partial);
    assert_eq!(scheduler.plan_refresh(&frame).mode, RefreshMode::Skip);
}

#[test]
fn full_signal_ends_the_wait_and_forces_a_full_refresh() {
    let mut scheduler = Scheduler::<BinaryColor>::new(16, 16, 6);
    let frame = Frame::new(16, 16);
    assert_eq!(scheduler.plan_refresh(&frame).mode, RefreshMode::Full);
    assert_eq!(scheduler.end_step(WaitOutcome::Signal(RefreshSignal::Full)), AfterWait::Render);
    assert!(scheduler.is_full_pending());
    // Nothing changed, and the panel is written in full all the same.
    assert_eq!(scheduler.plan_refresh(&frame).mode, RefreshMode::Full);
    assert_eq!(scheduler.plan_refresh(&frame).mode, RefreshMode::Skip);
}

#[test]
fn panel_sleeps_after_the_debounce_and_wakes_for_a_write() {
    let mut scheduler = Scheduler::<BinaryColor>::new(16, 16, 6);
    let mut frame = Frame::new(16, 16);
    assert_eq!(scheduler.plan_refresh(&frame).mode, RefreshMode::Full);
    let now = Span { secs: 100, nanos: 0 };
    let steps = scheduler.wait_steps(true, Some(Span { secs: 160, nanos: 5 }), now);
    assert_eq!(
        steps,
        vec![Some(Span { secs: 0, nanos: 50000000 }), Some(Span { secs: 60, nanos: 5 })]
    );
    // The debounce runs out: the panel is put to sleep before the long wait.
    assert!(!scheduler.begin_step(0));
    assert!(!scheduler.is_asleep());
    assert_eq!(scheduler.end_step(WaitOutcome::TimedOut), AfterWait::NextStep);
    assert!(scheduler.begin_step(1));
    assert!(scheduler.is_asleep());
    assert_eq!(scheduler.end_step(WaitOutcome::TimedOut), AfterWait::NextStep);
    // Nothing changed: the panel sleeps on, and the next wait has one step.
    let plan = scheduler.plan_refresh(&frame);
    assert_eq!(plan.mode, RefreshMode::Skip);
    assert!(!plan.wake_up);
    assert!(scheduler.is_asleep());
    assert_eq!(scheduler.wait_steps(true, None, now), vec![None]);
    assert!(!scheduler.begin_step(0));
    assert_eq!(
        scheduler.end_step(WaitOutcome::Signal(RefreshSignal::Normal)),
        AfterWait::Render
    );
    // Something changed: the panel is woken first.
    flip(&mut frame, 0);
    let plan = scheduler.plan_refresh(&frame);
    assert_eq!(plan.mode, RefreshMode::Partial);
    assert!(plan.wake_up);
    assert!(!scheduler.is_asleep());
    assert_eq!(scheduler.wait_steps(true, None, now).len(), 2);
    // A sleeping panel that gets a full signal is woken too.
    assert!(scheduler.begin_step(1));
    assert_eq!(scheduler.end_step(WaitOutcome::Signal(RefreshSignal::Full)), AfterWait::Render);
    let plan = scheduler.plan_refresh(&frame);
    assert_eq!(plan.mode, RefreshMode::Full);
    assert!(plan.wake_up);
}

#[test]
fn disconnect_stops_the_cycle_and_puts_the_panel_to_sleep() {
    let mut scheduler = Scheduler::<BinaryColor>::new(16, 16, 6);
    assert_eq!(scheduler.end_step(WaitOutcome::Disconnected), AfterWait::Stop);
    assert!(scheduler.finish());
    assert!(scheduler.is_asleep());
    assert!(!scheduler.finish());
    let mut scheduler = Scheduler::<BinaryColor>::new(16, 16, 6);
    assert!(scheduler.begin_step(1));
    assert!(!scheduler.begin_step(1));
    assert_eq!(scheduler.end_step(WaitOutcome::Disconnected), AfterWait::Stop);
    assert!(!scheduler.finish());
}

#[test]
fn time_left_never_goes_below_zero() {
    let at = Span { secs: 10, nanos: 200 };
    assert_eq!(at.since(Span { secs: 10, nanos: 200 }), Span { secs: 0, nanos: 0 });
    assert_eq!(at.since(Span { secs: 10, nanos: 201 }), Span { secs: 0, nanos: 0 });
    assert_eq!(at.since(Span { secs: 11, nanos: 0 }), Span { secs: 0, nanos: 0 });
    assert_eq!(at.since(Span { secs: 10, nanos: 199 }), Span { secs: 0, nanos: 1 });
    assert_eq!(at.since(Span { secs: 9, nanos: 200 }), Span { secs: 1, nanos: 0 });
    assert_eq!(at.since(Span { secs: 9, nanos: 201 }), Span { secs: 0, nanos: 999999999 });
    assert_eq!(at.since(Span { secs: 3, nanos: 999999999 }), Span { secs: 6, nanos: 201 });
    assert_eq!(
        Span { secs: u64::MAX, nanos: 999999999 }.since(Span { secs: 0, nanos: 0 }),
        Span { secs: u64::MAX, nanos: 999999999 }
    );
    let scheduler = Scheduler::<BinaryColor>::new(4, 4, 6);
    let steps = scheduler.wait_steps(true, Some(at), Span { secs: 20, nanos: 0 });
    assert_eq!(steps[1], Some(Span { secs: 0, nanos: 0 }));
    assert_eq!(scheduler.width(), 4);
    assert_eq!(scheduler.height(), 4);
}

#[test]
fn render_frame_clears_and_draws() {
    let bar = Primitive::Progress(Progress {
        position: Point { x: 1, y: 0 },
        width: 2,
        height: 1,
        align: None,
        vertical_align: None,
        direction: None,
        modulo: None,
        threshold: Some(1),
        base: None,
    });
    let missing = Primitive::Image(Image {
        path: "missing.png".to_string(),
        position: Point { x: 0, y: 0 },
        align: None,
        vertical_align: None,
        invert: None,
    });
    let files: Vec<ImageFile> = Vec::new();
    let mut frame = Frame::new(4, 1);
    frame.set_bit(3, true);
    render_frame(&mut frame, false, &vec![bar], &files).unwrap();
    assert_eq!(frame.buffer(), &[0b0100_0000u8][..]);
    let result = render_frame(&mut frame, true, &vec![missing], &files);
    assert!(matches!(result, Err(DrawingError::ResourceError(_, _))));
    assert_eq!(frame.buffer()[0] & 0xf0, 0xf0);
}
