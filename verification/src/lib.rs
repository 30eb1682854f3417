//! A minimal shader-rendering harness, verified where it decides: the
//! per-frame uniform block and its exact 16-byte layout, the
//! single-precision encoding of viewport sizes, the interactive window
//! driver as a pure state machine (resize, redraw, surface-error recovery,
//! close), and the record-mode batch plan (frame names, synthetic times,
//! staging-buffer sizes). The GPU, window-system and file work around the
//! library is directed by these decisions and stays outside it.

pub mod binary32;
pub mod driver;
pub mod record;
pub mod uniform;

pub use crate::binary32::binary32_bits_from_u32;
pub use crate::driver::{Control, Driver, Event, RenderOutcome, Response, Size};
pub use crate::record::{
    bytes_per_row, frame_bytes_ok, frame_name, output_buffer_len, plan_recording, record,
    FrameOutput, FramePlan, RecordState,
};
pub use crate::uniform::Uniform;

use vstd::prelude::*;

verus! {

/// Command-line options for the harness: window size, record mode, logging.
pub struct Options {
    pub width: u32,
    pub height: u32,
    pub record: bool,
    pub verbose: bool,
}

impl Default for Options {
    /// The defaults match the CLI defaults: a 512x512 window, interactive, quiet.
    fn default() -> (r: Self)
        ensures
            r.width == 512,
            r.height == 512,
            !r.record,
            !r.verbose,
    {
        Options { width: 512, height: 512, record: false, verbose: false }
    }
}

/// The colour format of the render target, by mode: off-screen recording
/// draws into a linear sRGB-encoded RGBA texture fit for image export,
/// while on-screen rendering uses the display-native BGRA format.
#[derive(Clone, Copy, Debug, PartialEq, Eq, Structural)]
pub enum TargetFormat {
    Bgra8Unorm,
    Rgba8UnormSrgb,
}

/// Which colour format the pipeline's colour target uses: the sRGB-encoded
/// one when drawing off screen (headless), the display-native one otherwise.
pub fn target_format(headless: bool) -> (r: TargetFormat)
    ensures
        r == (if headless {
            TargetFormat::Rgba8UnormSrgb
        } else {
            TargetFormat::Bgra8Unorm
        }),
{
    if headless {
        TargetFormat::Rgba8UnormSrgb
    } else {
        TargetFormat::Bgra8Unorm
    }
}

} // verus!
