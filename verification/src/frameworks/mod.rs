//! Host implementations of iOS frameworks.
use vstd::prelude::*;

pub mod audio_toolbox;

verus! {

/// Host state of the frameworks, created when first needed.
pub struct FrameworkState {
    /// The audio-queue state of AudioToolbox.
    pub audio_toolbox: Option<audio_toolbox::audio_queue::State>,
}

} // verus!
