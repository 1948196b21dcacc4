//! Renderer settings injected per call: animation durations and
//! floating-window effects. These are snapshots of external
//! configuration; nothing here reads global state.

use vstd::prelude::*;

verus! {

#[derive(Clone, Copy, Debug, PartialEq, Eq, Structural)]
pub struct RendererSettings {
    /// Length of the window position animation, milliseconds.
    pub position_animation_length_ms: i64,
    /// Length of the scroll animation, milliseconds.
    pub scroll_animation_length_ms: i64,
    /// How many history rows to pre-seed when a scroll jumps beyond what
    /// the scrollback can show.
    pub scroll_animation_far_lines: u32,
    pub floating_shadow: bool,
    pub floating_blur: bool,
    /// Paint every cell with a distinct background for debugging.
    pub debug_renderer: bool,
}

impl RendererSettings {
    pub open spec fn wf(&self) -> bool {
        &&& 1 <= self.position_animation_length_ms <= 100_000
        &&& 1 <= self.scroll_animation_length_ms <= 100_000
        &&& self.scroll_animation_far_lines <= 100_000
    }

    pub fn new() -> (r: RendererSettings)
        ensures
            r.wf(),
            r.position_animation_length_ms == 150,
            r.scroll_animation_length_ms == 300,
            r.scroll_animation_far_lines == 1,
            r.floating_shadow,
            !r.floating_blur,
            !r.debug_renderer,
    {
        RendererSettings {
            position_animation_length_ms: 150,
            scroll_animation_length_ms: 300,
            scroll_animation_far_lines: 1,
            floating_shadow: true,
            floating_blur: false,
            debug_renderer: false,
        }
    }
}

} // verus!
