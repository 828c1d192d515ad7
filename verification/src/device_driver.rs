//! The decisions of the refresh cycle: when the panel is refreshed in full,
//! when in part, when it is put to sleep and woken, and how long to wait.
//!
//! The cycle itself, with its rendering, its writes to the panel and its
//! waiting, is run by the caller; after each of these it asks the scheduler
//! what to do next.
use vstd::prelude::*;
use crate::binary_change_tracker::{
    any_changed, counted, difference, dirty_rectangles, highest, BinaryChangeTracker,
};
use crate::binary_framebuffer::{BinarisedColor, BinaryFrameBuffer};
use crate::geometry::{Point, Rectangle, Size};
use crate::renderer::container::ShiftedDisplay;
use crate::renderer::drawing_error::DrawingError;
use crate::renderer::image::ImageFile;
use crate::renderer::{draw, drawn_list, first_failure, reported, ColorFromTemplate, Primitive};

verus! {

/// A request to run the cycle again.
#[derive(Debug, Clone, Copy, PartialEq, Eq, Structural)]
pub enum RefreshSignal {
    /// Something may have changed.
    Normal,
    /// The next refresh must be a full one.
    Full,
}

/// How the panel is written in a cycle.
#[derive(Debug, Clone, Copy, PartialEq, Eq, Structural)]
pub enum RefreshMode {
    /// Nothing changed: the panel is left alone.
    Skip,
    /// Only the changed rectangles are written.
    Partial,
    /// The whole frame is written.
    Full,
}

/// What to do with the panel after a frame was rendered.
#[derive(Debug)]
pub struct RefreshPlan {
    /// The panel sleeps and must be woken before it is written.
    pub wake_up: bool,
    pub mode: RefreshMode,
    /// The rectangles that changed since the frame before.
    pub rects: Vec<Rectangle>,
}

/// How a wait for a signal ended.
#[derive(Debug, Clone, Copy, PartialEq, Eq, Structural)]
pub enum WaitOutcome {
    /// The time ran out before a signal came.
    TimedOut,
    /// Nobody is left to send a signal.
    Disconnected,
    Signal(RefreshSignal),
}

/// What follows a wait.
#[derive(Debug, Clone, Copy, PartialEq, Eq, Structural)]
pub enum AfterWait {
    /// The next step of the wait begins.
    NextStep,
    /// The queue of signals is drained and the cycle starts again.
    Render,
    /// The cycle ends.
    Stop,
}

/// A span of time: whole seconds and the nanoseconds beyond them.
#[derive(Debug, Clone, Copy, PartialEq, Eq, Structural)]
pub struct Span {
    pub secs: u64,
    pub nanos: u32,
}

/// Nanoseconds in a second.
pub const NANOS_PER_SEC: u32 = 1000000000;

/// Edge length of the tiles in which frames are compared.
pub const GRAIN: u32 = 8;

/// How long the panel stays awake after a cycle, in nanoseconds: signals
/// that come within this time find the panel awake.
pub const DEBOUNCE_NANOS: u32 = 50000000;

impl Span {
    /// The nanoseconds stay below a second.
    pub open spec fn wf(self) -> bool {
        self.nanos < NANOS_PER_SEC
    }

    /// The span in nanoseconds.
    pub open spec fn as_nanos(self) -> int {
        self.secs * NANOS_PER_SEC + self.nanos
    }

    /// The span of the given number of nanoseconds.
    pub open spec fn of_nanos(nanos: int) -> Span {
        Span {
            secs: (nanos / NANOS_PER_SEC as int) as u64,
            nanos: (nanos % NANOS_PER_SEC as int) as u32,
        }
    }

    /// The time from `earlier` to `self`, or no time at all where `earlier`
    /// is the later of the two.
    pub open spec fn spec_since(self, earlier: Span) -> Span {
        if self.as_nanos() >= earlier.as_nanos() {
            Span::of_nanos(self.as_nanos() - earlier.as_nanos())
        } else {
            Span::of_nanos(0)
        }
    }

    /// A span is told by its nanoseconds.
    pub proof fn lemma_of_nanos(self)
        requires
            self.wf(),
        ensures
            Span::of_nanos(self.as_nanos()) == self,
    {
        vstd::arithmetic::div_mod::lemma_fundamental_div_mod_converse(
            self.as_nanos(),
            NANOS_PER_SEC as int,
            self.secs as int,
            self.nanos as int,
        );
    }

    /// The time from `earlier` to `self`, or no time at all where `earlier`
    /// is the later of the two.
    pub fn since(self, earlier: Span) -> (span: Span)
        requires
            self.wf(),
            earlier.wf(),
        ensures
            span.wf(),
            span == self.spec_since(earlier),
    {
        let span = if self.secs < earlier.secs || (self.secs == earlier.secs && self.nanos
            <= earlier.nanos) {
            Span { secs: 0, nanos: 0 }
        } else if self.nanos >= earlier.nanos {
            Span { secs: self.secs - earlier.secs, nanos: self.nanos - earlier.nanos }
        } else {
            Span {
                secs: self.secs - earlier.secs - 1,
                nanos: self.nanos + NANOS_PER_SEC - earlier.nanos,
            }
        };
        proof {
            let wide = NANOS_PER_SEC as int;
            assert(self.as_nanos() - earlier.as_nanos() == (self.secs - earlier.secs) * wide
                + (self.nanos - earlier.nanos)) by (nonlinear_arith)
                requires
                    self.as_nanos() == self.secs * wide + self.nanos,
                    earlier.as_nanos() == earlier.secs * wide + earlier.nanos,
            ;
            if self.secs < earlier.secs {
                assert((self.secs - earlier.secs) * wide <= -wide) by (nonlinear_arith)
                    requires
                        self.secs - earlier.secs <= -1,
                        wide > 0,
                ;
            } else if self.secs > earlier.secs {
                assert((self.secs - earlier.secs) * wide >= wide) by (nonlinear_arith)
                    requires
                        self.secs - earlier.secs >= 1,
                        wide > 0,
                ;
                assert((self.secs - earlier.secs) * wide == (self.secs - earlier.secs - 1) * wide
                    + wide) by (nonlinear_arith);
            } else {
                assert((self.secs - earlier.secs) * wide == 0) by (nonlinear_arith)
                    requires
                        self.secs - earlier.secs == 0,
                ;
            }
            span.lemma_of_nanos();
        }
        span
    }
}

/// The way to write the panel: in full on the first cycle, after a full
/// signal and once a pixel was refreshed in part more often than allowed;
/// else in part where anything changed; else not at all.
pub open spec fn refresh_mode(
    force_full: bool,
    max_changes: u8,
    allowed: u8,
    changed: bool,
) -> RefreshMode {
    if force_full || max_changes > allowed {
        RefreshMode::Full
    } else if changed {
        RefreshMode::Partial
    } else {
        RefreshMode::Skip
    }
}

/// The steps of the wait after a cycle: a panel that is awake first waits
/// for the time of the debounce and then, put to sleep, for `until_wake`; a
/// panel that sleeps waits for `until_wake` only. A step without a time
/// waits until a signal comes.
pub open spec fn steps_of(asleep: bool, until_wake: Option<Span>) -> Seq<Option<Span>> {
    if asleep {
        seq![until_wake]
    } else {
        seq![Some(Span { secs: 0, nanos: DEBOUNCE_NANOS }), until_wake]
    }
}

/// The time left until the frame changes by itself, seen from `now`: none
/// where no frame was rendered or where the frame has no time to wake at,
/// and no time at all where that time has passed.
pub open spec fn time_left(rendered: bool, next_wake: Option<Span>, now: Span) -> Option<Span> {
    match next_wake {
        Some(at) => if rendered {
            Some(at.spec_since(now))
        } else {
            None
        },
        None => None,
    }
}

/// The state of the refresh cycle of one panel.
#[derive(Debug)]
pub struct Scheduler<C> {
    previous: BinaryFrameBuffer<C>,
    tracker: BinaryChangeTracker,
    force_full_render: bool,
    asleep: bool,
    max_partial_per_pixel: u8,
}

impl<C> Scheduler<C> {
    /// The frame that the panel shows, as far as the scheduler knows.
    pub closed spec fn shown(&self) -> Seq<bool> {
        self.previous@
    }

    /// For each pixel, the partial refreshes since the last full one.
    pub closed spec fn counters(&self) -> Seq<u8> {
        self.tracker.counters()
    }

    /// The highest number of partial refreshes of a pixel since the last
    /// full refresh.
    pub closed spec fn spec_max_changes(&self) -> u8 {
        self.tracker.spec_max_changes()
    }

    /// Width of the panel in pixels.
    pub closed spec fn spec_width(&self) -> u32 {
        self.tracker.spec_width()
    }

    /// Height of the panel in pixels.
    pub closed spec fn spec_height(&self) -> u32 {
        self.tracker.spec_height()
    }

    /// Whether the next refresh must be a full one.
    pub closed spec fn full_pending(&self) -> bool {
        self.force_full_render
    }

    /// Whether the panel sleeps.
    pub closed spec fn sleeping(&self) -> bool {
        self.asleep
    }

    /// How many partial refreshes of a pixel are allowed between two full
    /// ones.
    pub closed spec fn allowed(&self) -> u8 {
        self.max_partial_per_pixel
    }

    /// The scheduler is consistent: its frame and its counters have the
    /// shape of the panel.
    pub closed spec fn wf(&self) -> bool {
        &&& self.previous.wf()
        &&& self.tracker.wf()
        &&& self.previous.spec_width() == self.tracker.spec_width()
        &&& self.previous.spec_height() == self.tracker.spec_height()
        &&& self.tracker.spec_width() <= i32::MAX
        &&& self.tracker.spec_height() <= i32::MAX
        &&& self.tracker.spec_grain() == GRAIN
    }

    /// The scheduler of a panel of `width` by `height` pixels at the start
    /// of its first cycle: the panel is awake, and the first refresh will be
    /// a full one.
    pub fn new(width: u32, height: u32, max_partial_per_pixel: u8) -> (scheduler: Self)
        requires
            width <= i32::MAX,
            height <= i32::MAX,
            width * height <= u32::MAX,
        ensures
            scheduler.wf(),
            scheduler.spec_width() == width,
            scheduler.spec_height() == height,
            scheduler.full_pending(),
            !scheduler.sleeping(),
            scheduler.allowed() == max_partial_per_pixel,
            scheduler.spec_max_changes() == 0,
            scheduler.shown() == Seq::new((width * height) as nat, |i: int| false),
            scheduler.counters() == Seq::new((width * height) as nat, |i: int| 0u8),
    {
        let previous = BinaryFrameBuffer::<C>::new(width, height);
        let tracker = BinaryChangeTracker::new(width, height, GRAIN);
        Scheduler {
            previous,
            tracker,
            force_full_render: true,
            asleep: false,
            max_partial_per_pixel,
        }
    }

    /// Width of the panel in pixels.
    pub fn width(&self) -> (width: u32)
        ensures
            width == self.spec_width(),
    {
        self.tracker.width()
    }

    /// Height of the panel in pixels.
    pub fn height(&self) -> (height: u32)
        ensures
            height == self.spec_height(),
    {
        self.tracker.height()
    }

    /// The highest number of partial refreshes of a pixel since the last
    /// full refresh.
    pub fn get_max_changes(&self) -> (max: u8)
        ensures
            max == self.spec_max_changes(),
    {
        self.tracker.get_max_changes()
    }

    /// Whether the panel sleeps.
    pub fn is_asleep(&self) -> (asleep: bool)
        ensures
            asleep == self.sleeping(),
    {
        self.asleep
    }

    /// Whether the next refresh must be a full one.
    pub fn is_full_pending(&self) -> (pending: bool)
        ensures
            pending == self.full_pending(),
    {
        self.force_full_render
    }

    /// Decides how the panel is written after `frame` was rendered, and
    /// takes note that it is written so.
    ///
    /// The frame is compared with the frame that the panel shows. The
    /// refresh is a full one where one is pending or where a pixel has then
    /// been refreshed in part more often than allowed; it is a partial one
    /// where anything changed; else the panel is left alone. A panel that
    /// sleeps is woken before it is written. After a full refresh no full
    /// refresh is pending and every counter is back at zero; after a partial
    /// one the counters of the changed pixels are raised.
    pub fn plan_refresh(&mut self, frame: &BinaryFrameBuffer<C>) -> (plan: RefreshPlan)
        requires
            old(self).wf(),
            frame.wf(),
            frame.spec_width() == old(self).spec_width(),
            frame.spec_height() == old(self).spec_height(),
        ensures
            final(self).wf(),
            final(self).spec_width() == old(self).spec_width(),
            final(self).spec_height() == old(self).spec_height(),
            final(self).allowed() == old(self).allowed(),
            final(self).shown() == frame@,
            plan.mode == refresh_mode(
                old(self).full_pending(),
                highest(
                    old(self).spec_max_changes(),
                    counted(old(self).counters(), difference(frame@, old(self).shown())),
                    difference(frame@, old(self).shown()),
                    frame@.len(),
                ),
                old(self).allowed(),
                any_changed(difference(frame@, old(self).shown())),
            ),
            plan.rects@ == dirty_rectangles(
                difference(frame@, old(self).shown()),
                old(self).spec_width() as int,
                old(self).spec_height() as int,
                GRAIN as int,
            ),
            plan.wake_up == (old(self).sleeping() && plan.mode != RefreshMode::Skip),
            final(self).sleeping() == (old(self).sleeping() && plan.mode == RefreshMode::Skip),
            final(self).full_pending() == false,
            plan.mode == RefreshMode::Full ==> final(self).spec_max_changes() == 0
                && final(self).counters() == Seq::new(old(self).counters().len(), |i: int| 0u8),
            plan.mode != RefreshMode::Full ==> final(self).spec_max_changes() == highest(
                old(self).spec_max_changes(),
                final(self).counters(),
                difference(frame@, old(self).shown()),
                frame@.len(),
            ) && final(self).counters() == counted(
                old(self).counters(),
                difference(frame@, old(self).shown()),
            ),
    {
        let mut rects: Vec<Rectangle> = Vec::new();
        let changed: bool = self.tracker.update(frame, &mut self.previous, &mut rects);
        let full: bool = self.force_full_render || self.tracker.get_max_changes()
            > self.max_partial_per_pixel;
        let mode: RefreshMode = if full {
            RefreshMode::Full
        } else if changed {
            RefreshMode::Partial
        } else {
            RefreshMode::Skip
        };
        let wake_up: bool = self.asleep && mode != RefreshMode::Skip;
        if mode != RefreshMode::Skip {
            self.asleep = false;
        }
        if full {
            proof {
                frame.lemma_view();
                self.previous.lemma_view();
                self.tracker.lemma_counters_len();
            }
            self.tracker.reset(frame, &mut self.previous);
            self.force_full_render = false;
        }
        proof {
            assert(Seq::<Rectangle>::empty() + rects@ =~= rects@);
        }
        RefreshPlan { wake_up, mode, rects }
    }

    /// The steps of the wait that follows a cycle.
    ///
    /// `rendered` tells whether a frame was rendered in this cycle,
    /// `next_wake` is the time at which the frame will change by itself, if
    /// there is one, and `now` the present time, both counted from the same
    /// start. After a cycle without a frame there is no time to wake at.
    pub fn wait_steps(&self, rendered: bool, next_wake: Option<Span>, now: Span) -> (steps: Vec<
        Option<Span>,
    >)
        requires
            now.wf(),
            next_wake matches Some(at) ==> at.wf(),
        ensures
            steps@ == steps_of(self.sleeping(), time_left(rendered, next_wake, now)),
    {
        let max_sleep: Option<Span> = match next_wake {
            None => None,
            Some(at) => if rendered {
                Some(at.since(now))
            } else {
                None
            },
        };
        let mut steps: Vec<Option<Span>> = Vec::new();
        if !self.asleep {
            steps.push(Some(Span { secs: 0, nanos: DEBOUNCE_NANOS }));
        }
        steps.push(max_sleep);
        proof {
            assert(steps@ =~= steps_of(self.sleeping(), time_left(rendered, next_wake, now)));
        }
        steps
    }

    /// Begins the step `step` of a wait and tells whether the panel is to be
    /// put to sleep first: it is before any step after the first, unless it
    /// sleeps already.
    pub fn begin_step(&mut self, step: usize) -> (sleep: bool)
        requires
            old(self).wf(),
        ensures
            final(self).wf(),
            sleep == (step > 0 && !old(self).sleeping()),
            final(self).sleeping() == (old(self).sleeping() || step > 0),
            final(self).full_pending() == old(self).full_pending(),
            final(self).allowed() == old(self).allowed(),
            final(self).shown() == old(self).shown(),
            final(self).counters() == old(self).counters(),
            final(self).spec_max_changes() == old(self).spec_max_changes(),
            final(self).spec_width() == old(self).spec_width(),
            final(self).spec_height() == old(self).spec_height(),
    {
        if step > 0 && !self.asleep {
            self.asleep = true;
            true
        } else {
            false
        }
    }

    /// Ends a step of a wait. When the time ran out the next step follows;
    /// a signal starts the cycle again, and a full signal makes a full
    /// refresh pending; when nobody is left to send a signal the cycle ends.
    pub fn end_step(&mut self, outcome: WaitOutcome) -> (next: AfterWait)
        requires
            old(self).wf(),
        ensures
            final(self).wf(),
            next == match outcome {
                WaitOutcome::TimedOut => AfterWait::NextStep,
                WaitOutcome::Disconnected => AfterWait::Stop,
                WaitOutcome::Signal(_) => AfterWait::Render,
            },
            final(self).full_pending() == (old(self).full_pending() || outcome
                == WaitOutcome::Signal(RefreshSignal::Full)),
            final(self).sleeping() == old(self).sleeping(),
            final(self).allowed() == old(self).allowed(),
            final(self).shown() == old(self).shown(),
            final(self).counters() == old(self).counters(),
            final(self).spec_max_changes() == old(self).spec_max_changes(),
            final(self).spec_width() == old(self).spec_width(),
            final(self).spec_height() == old(self).spec_height(),
    {
        match outcome {
            WaitOutcome::TimedOut => AfterWait::NextStep,
            WaitOutcome::Disconnected => AfterWait::Stop,
            WaitOutcome::Signal(RefreshSignal::Normal) => AfterWait::Render,
            WaitOutcome::Signal(RefreshSignal::Full) => {
                self.force_full_render = true;
                AfterWait::Render
            },
        }
    }

    /// Takes note of a signal that was found in the queue before the cycle
    /// starts again: a full signal makes a full refresh pending, however
    /// many signals were queued.
    pub fn queued(&mut self, signal: RefreshSignal)
        requires
            old(self).wf(),
        ensures
            final(self).wf(),
            final(self).full_pending() == (old(self).full_pending() || signal
                == RefreshSignal::Full),
            final(self).sleeping() == old(self).sleeping(),
            final(self).allowed() == old(self).allowed(),
            final(self).shown() == old(self).shown(),
            final(self).counters() == old(self).counters(),
            final(self).spec_max_changes() == old(self).spec_max_changes(),
            final(self).spec_width() == old(self).spec_width(),
            final(self).spec_height() == old(self).spec_height(),
    {
        match signal {
            RefreshSignal::Normal => {},
            RefreshSignal::Full => {
                self.force_full_render = true;
            },
        }
    }

    /// Ends the cycle for good and tells whether the panel is to be put to
    /// sleep: it is unless it sleeps already.
    pub fn finish(&mut self) -> (sleep: bool)
        requires
            old(self).wf(),
        ensures
            final(self).wf(),
            sleep == !old(self).sleeping(),
            final(self).sleeping(),
            final(self).full_pending() == old(self).full_pending(),
            final(self).allowed() == old(self).allowed(),
            final(self).shown() == old(self).shown(),
            final(self).counters() == old(self).counters(),
            final(self).spec_max_changes() == old(self).spec_max_changes(),
            final(self).spec_width() == old(self).spec_width(),
            final(self).spec_height() == old(self).spec_height(),
    {
        let sleep: bool = !self.asleep;
        self.asleep = true;
        sleep
    }
}

/// Renders a frame: clears `target` to the bit `background` and draws the
/// primitives onto it, through the view of the whole frame.
pub fn render_frame<C: BinarisedColor + ColorFromTemplate>(
    target: &mut BinaryFrameBuffer<C>,
    background: bool,
    primitives: &Vec<Primitive>,
    files: &Vec<ImageFile>,
) -> (result: Result<(), DrawingError>)
    requires
        old(target).wf(),
    ensures
        final(target).wf(),
        final(target).spec_width() == old(target).spec_width(),
        final(target).spec_height() == old(target).spec_height(),
        final(target)@ == drawn_list::<C>(
            root_display(old(target).spec_width(), old(target).spec_height()),
            Seq::new(old(target)@.len(), |i: int| background),
            old(target).spec_width() as int,
            old(target).spec_height() as int,
            primitives@,
            files@,
            primitives@.len(),
        ),
        reported(result) == first_failure(
            root_display(old(target).spec_width(), old(target).spec_height()),
            old(target).spec_width() as int,
            old(target).spec_height() as int,
            primitives@,
            files@,
            primitives@.len(),
        ),
{
    target.fill(background);
    let display = ShiftedDisplay::from(target);
    draw(target, &display, primitives, files)
}

/// The view that covers a whole frame of `width` by `height` pixels.
pub open spec fn root_display(width: u32, height: u32) -> ShiftedDisplay {
    ShiftedDisplay {
        inner_bounds: Rectangle {
            top_left: Point { x: 0, y: 0 },
            size: Size { width, height },
        },
        outer_bounds: Rectangle {
            top_left: Point { x: 0, y: 0 },
            size: Size { width, height },
        },
        rotate: 0,
    }
}

} // verus!
