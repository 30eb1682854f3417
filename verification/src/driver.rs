use vstd::prelude::*;

use crate::binary32::{binary32_bits_from_u32, binary32_bits_of, floor_log2, lemma_floor_log2};
use crate::uniform::Uniform;
use vstd::arithmetic::div_mod::lemma_multiply_divide_lt;
use vstd::arithmetic::mul::{lemma_mul_inequality, lemma_mul_strict_inequality};
use vstd::arithmetic::power2::{
    lemma2_to64, lemma_pow2_adds, lemma_pow2_pos, lemma_pow2_strictly_increases, pow2,
};

verus! {

/// One event delivered to the interactive driver. The first three come from
/// the window system; the last hands back what a requested render came to,
/// so that the whole loop policy is one transition function.
#[derive(Clone, Copy, Debug, PartialEq, Eq, Structural)]
pub enum Event {
    CloseRequested,
    Resized(u32, u32),
    RedrawOpportunity,
    Rendered(RenderOutcome),
}

/// What one attempt to render and present a frame came to. `Lost` and
/// `Outdated` are the recoverable surface errors; `OutOfMemory` is fatal;
/// `Timeout` is logged by the caller and otherwise ignored.
#[derive(Clone, Copy, Debug, PartialEq, Eq, Structural)]
pub enum RenderOutcome {
    Success,
    Lost,
    Outdated,
    OutOfMemory,
    Timeout,
}

/// What the surrounding event loop must do next.
#[derive(Clone, Copy, Debug, PartialEq, Eq, Structural)]
pub enum Control {
    Continue,
    Render,
    Exit,
}

/// A surface size in pixels.
#[derive(Clone, Copy, Debug, PartialEq, Eq, Structural)]
pub struct Size {
    pub width: u32,
    pub height: u32,
}

/// The driver's answer to one event: what to do next, and whether (and to
/// what size) the surface must be reconfigured before the next frame.
#[derive(Clone, Copy, Debug, PartialEq, Eq)]
pub struct Response {
    pub control: Control,
    pub reconfigure: Option<Size>,
}

/// The interactive driver's state: the size the surface is configured to,
/// the uniform block, whether the loop is still running, and how many
/// frames have been presented so far.
#[derive(Clone, Copy, Debug, PartialEq, Eq, Structural)]
pub struct Driver {
    pub width: u32,
    pub height: u32,
    pub uniform: Uniform,
    pub running: bool,
    pub frames_presented: u64,
}

/// The encoding of a 32-bit integer fits in a 32-bit word.
pub proof fn lemma_binary32_bits_fit(n: nat)
    requires
        n < pow2(32),
    ensures
        binary32_bits_of(n) < pow2(32),
{
    lemma2_to64();
    if n != 0 {
        lemma_floor_log2(n);
        let e = floor_log2(n);
        if e > 32 {
            lemma_pow2_strictly_increases(32, e);
        }
        lemma_mul_inequality((126 + e) as int, 157, pow2(23) as int);
        if e <= 23 {
            lemma_pow2_adds((e + 1) as nat, (23 - e) as nat);
            lemma_mul_strict_inequality(
                n as int,
                pow2((e + 1) as nat) as int,
                pow2((23 - e) as nat) as int,
            );
            assert((e + 1) + ((23 - e) as nat) == 24);
        } else {
            lemma_pow2_pos((e - 23) as nat);
            lemma_pow2_adds((e - 23) as nat, 24);
            assert(((e - 23) as nat) + 24 == e + 1);
            lemma_multiply_divide_lt(n as int, pow2((e - 23) as nat) as int, pow2(24) as int);
        }
    }
}

impl Driver {
    /// The driver is well formed when the uniform's resolution words are the
    /// single-precision encodings of the configured size and the reserved
    /// word is zero.
    pub open spec fn wf(self) -> bool {
        &&& self.uniform.res_x_bits as nat == binary32_bits_of(self.width as nat)
        &&& self.uniform.res_y_bits as nat == binary32_bits_of(self.height as nat)
        &&& self.uniform.padding == 0
    }

    /// The state a session starts in: running, nothing presented, time zero.
    pub open spec fn spec_new(width: u32, height: u32) -> Driver {
        Driver {
            width: width,
            height: height,
            uniform: Uniform::spec_new(width, height),
            running: true,
            frames_presented: 0,
        }
    }

    /// Start an interactive session for a `width` by `height` surface.
    pub fn new(width: u32, height: u32) -> (d: Driver)
        ensures
            d == Driver::spec_new(width, height),
            d.wf(),
    {
        let uniform = Uniform::new(width, height);
        let d = Driver { width, height, uniform, running: true, frames_presented: 0 };
        proof {
            lemma2_to64();
            lemma_binary32_bits_fit(width as nat);
            lemma_binary32_bits_fit(height as nat);
        }
        d
    }

    /// The state after a resize to a positive `w` by `h` size: the surface
    /// size and the uniform's resolution words follow the new size; time,
    /// padding and the rest are kept.
    pub open spec fn spec_resized(self, w: u32, h: u32) -> Driver {
        Driver {
            width: w,
            height: h,
            uniform: Uniform {
                res_x_bits: binary32_bits_of(w as nat) as u32,
                res_y_bits: binary32_bits_of(h as nat) as u32,
                ..self.uniform
            },
            ..self
        }
    }

    /// The pure transition function: the state after `event`, and the
    /// response the surrounding loop must act on.
    pub open spec fn spec_step(self, event: Event) -> (Driver, Response) {
        match event {
            Event::CloseRequested => (
                Driver { running: false, ..self },
                Response { control: Control::Exit, reconfigure: None },
            ),
            Event::Resized(w, h) => {
                if w > 0 && h > 0 {
                    (
                        self.spec_resized(w, h),
                        Response {
                            control: Control::Continue,
                            reconfigure: Some(Size { width: w, height: h }),
                        },
                    )
                } else {
                    (self, Response { control: Control::Continue, reconfigure: None })
                }
            },
            Event::RedrawOpportunity => (
                self,
                Response {
                    control: if self.running {
                        Control::Render
                    } else {
                        Control::Exit
                    },
                    reconfigure: None,
                },
            ),
            Event::Rendered(outcome) => match outcome {
                RenderOutcome::Success => (
                    Driver {
                        frames_presented: if self.frames_presented < u64::MAX {
                            (self.frames_presented + 1) as u64
                        } else {
                            self.frames_presented
                        },
                        ..self
                    },
                    Response { control: Control::Continue, reconfigure: None },
                ),
                RenderOutcome::Lost | RenderOutcome::Outdated => (
                    self,
                    Response {
                        control: Control::Continue,
                        reconfigure: if self.width > 0 && self.height > 0 {
                            Some(Size { width: self.width, height: self.height })
                        } else {
                            None
                        },
                    },
                ),
                RenderOutcome::OutOfMemory => (
                    Driver { running: false, ..self },
                    Response { control: Control::Exit, reconfigure: None },
                ),
                RenderOutcome::Timeout => (
                    self,
                    Response { control: Control::Continue, reconfigure: None },
                ),
            },
        }
    }

    /// Window resize. A zero-area size is a no-op; otherwise the surface
    /// size and the uniform's resolution words follow the new size exactly,
    /// and the returned directive tells the caller to reconfigure to it.
    pub fn resize(&mut self, w: u32, h: u32) -> (r: Option<Size>)
        requires
            old(self).wf(),
        ensures
            final(self).wf(),
            w > 0 && h > 0 ==> *final(self) == old(self).spec_resized(w, h) && r == Some(
                Size { width: w, height: h },
            ),
            !(w > 0 && h > 0) ==> *final(self) == *old(self) && r is None,
    {
        if w > 0 && h > 0 {
            self.width = w;
            self.height = h;
            self.uniform.res_x_bits = binary32_bits_from_u32(w);
            self.uniform.res_y_bits = binary32_bits_from_u32(h);
            Some(Size { width: w, height: h })
        } else {
            None
        }
    }

    /// Overwrite the uniform's elapsed-time word (the caller supplies the
    /// single-precision bit pattern of the elapsed seconds); everything
    /// else is kept.
    pub fn set_time_bits(&mut self, bits: u32)
        requires
            old(self).wf(),
        ensures
            final(self).wf(),
            *final(self) == (Driver {
                uniform: Uniform { time_bits: bits, ..old(self).uniform },
                ..*old(self)
            }),
    {
        self.uniform.set_time_bits(bits);
    }

    /// Feed one event through the transition function.
    pub fn step(&mut self, event: Event) -> (r: Response)
        requires
            old(self).wf(),
        ensures
            final(self).wf(),
            (*final(self), r) == old(self).spec_step(event),
    {
        match event {
            Event::CloseRequested => {
                self.running = false;
                Response { control: Control::Exit, reconfigure: None }
            },
            Event::Resized(w, h) => {
                let reconfigure = self.resize(w, h);
                Response { control: Control::Continue, reconfigure }
            },
            Event::RedrawOpportunity => {
                let control = if self.running {
                    Control::Render
                } else {
                    Control::Exit
                };
                Response { control, reconfigure: None }
            },
            Event::Rendered(outcome) => match outcome {
                RenderOutcome::Success => {
                    if self.frames_presented < u64::MAX {
                        self.frames_presented = self.frames_presented + 1;
                    }
                    Response { control: Control::Continue, reconfigure: None }
                },
                RenderOutcome::Lost | RenderOutcome::Outdated => {
                    let reconfigure = if self.width > 0 && self.height > 0 {
                        Some(Size { width: self.width, height: self.height })
                    } else {
                        None
                    };
                    Response { control: Control::Continue, reconfigure }
                },
                RenderOutcome::OutOfMemory => {
                    self.running = false;
                    Response { control: Control::Exit, reconfigure: None }
                },
                RenderOutcome::Timeout => {
                    Response { control: Control::Continue, reconfigure: None }
                },
            },
        }
    }
}

/// The driver run over a whole event sequence: events are applied in order
/// until the loop has exited; events after that are never seen.
pub open spec fn run_steps(d: Driver, events: Seq<Event>) -> Driver
    decreases events.len(),
{
    if events.len() == 0 || !d.running {
        d
    } else {
        run_steps(d.spec_step(events[0]).0, events.skip(1))
    }
}

/// A driver whose loop has exited ignores every further event.
pub proof fn lemma_run_steps_stopped(d: Driver, events: Seq<Event>)
    requires
        !d.running,
    ensures
        run_steps(d, events) == d,
{
}

/// Law: a resize to a positive size updates the uniform's resolution words
/// to exactly the single-precision encodings of the new width and height,
/// records the new size, leaves the time word alone, and directs exactly
/// one surface reconfiguration, to that size, with the loop continuing.
pub proof fn lemma_resize_applies(d: Driver, w: u32, h: u32)
    requires
        d.wf(),
        w > 0,
        h > 0,
    ensures
        ({
            let (d2, r) = d.spec_step(Event::Resized(w, h));
            &&& d2.width == w && d2.height == h
            &&& d2.uniform.res_x_bits as nat == binary32_bits_of(w as nat)
            &&& d2.uniform.res_y_bits as nat == binary32_bits_of(h as nat)
            &&& d2.uniform.time_bits == d.uniform.time_bits
            &&& d2.running == d.running
            &&& d2.wf()
            &&& r.control == Control::Continue
            &&& r.reconfigure == Some(Size { width: w, height: h })
        }),
{
    lemma2_to64();
    lemma_binary32_bits_fit(w as nat);
    lemma_binary32_bits_fit(h as nat);
}

/// Law: a resize event with a zero width or height is a no-op: the driver
/// state — surface size and uniform resolution alike — is unchanged, and no
/// reconfiguration is directed.
pub proof fn lemma_resize_zero_is_noop(d: Driver, w: u32, h: u32)
    requires
        w == 0 || h == 0,
    ensures
        ({
            let (d2, r) = d.spec_step(Event::Resized(w, h));
            &&& d2 == d
            &&& r.control == Control::Continue
            &&& r.reconfigure is None
        }),
{
}

/// Law: a lost (or outdated) surface is recovered by a resize to the
/// current size: the response directs exactly one reconfiguration, to that
/// size, the driver state is unchanged, and the loop continues rather than
/// exits.
pub proof fn lemma_lost_surface_recovers(d: Driver, outcome: RenderOutcome)
    requires
        d.wf(),
        d.running,
        d.width > 0,
        d.height > 0,
        outcome == RenderOutcome::Lost || outcome == RenderOutcome::Outdated,
    ensures
        ({
            let (d2, r) = d.spec_step(Event::Rendered(outcome));
            &&& d2 == d
            &&& d2.running
            &&& r.control == Control::Continue
            &&& r.reconfigure == Some(Size { width: d.width, height: d.height })
        }),
{
}

/// Law: whatever events follow, a session that is asked to close before
/// anything else ends with the loop exited and not a single frame
/// presented.
pub proof fn lemma_close_first_presents_nothing(width: u32, height: u32, events: Seq<Event>)
    requires
        events.len() >= 1,
        events[0] == Event::CloseRequested,
    ensures
        ({
            let d = run_steps(Driver::spec_new(width, height), events);
            &&& !d.running
            &&& d.frames_presented == 0
        }),
{
    let d0 = Driver::spec_new(width, height);
    let d1 = d0.spec_step(Event::CloseRequested).0;
    lemma_run_steps_stopped(d1, events.skip(1));
}

} // verus!

