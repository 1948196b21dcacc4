//! Per-cell render decisions: which fragments produce a background
//! quad, which produce visible foreground content, and whether they
//! blend transparently. The actual rasterization is the canvas's job;
//! these decisions determine which cached pictures exist.

use crate::style::{Colors, Style};
use crate::units::GridScale;
use std::sync::Arc;
use vstd::prelude::*;

verus! {

/// What drawing one fragment's background would contribute.
pub struct BackgroundInfo {
    /// The cell background differs from the window default, so a
    /// background picture is needed.
    pub custom_color: bool,
    /// The cell blends with what is behind the window.
    pub transparent: bool,
}

/// Converts grid cells to pixels and owns the default colors that cell
/// styles fall back to.
pub struct GridRenderer {
    pub grid_scale: GridScale,
    pub default_colors: Colors,
    /// Paint every cell with a distinct background (debugging aid).
    pub debug_renderer: bool,
}

/// Does this fragment need a background of its own: any color differing
/// from the default background, any blending, or the debug coloring.
pub open spec fn spec_frag_custom_background(
    style: Option<Arc<Style>>,
    defaults: Colors,
    debug: bool,
) -> bool {
    match style {
        None => debug,
        Some(s) => debug || s.spec_background(defaults) != defaults.background || s.blend > 0,
    }
}

/// Does this fragment blend with what is behind the window?
pub open spec fn spec_frag_transparent(style: Option<Arc<Style>>) -> bool {
    match style {
        None => false,
        Some(s) => s.blend > 0,
    }
}

/// Is any character of this text visibly drawn (not a blank)?
pub open spec fn spec_has_visible_text(s: Seq<char>) -> bool {
    exists|i: int| 0 <= i < s.len() && s[i] != ' '
}

/// Does this fragment draw any foreground: visible text, an underline or
/// a strikethrough.
pub open spec fn spec_frag_foreground_drawn(text: Seq<char>, style: Option<Arc<Style>>) -> bool {
    spec_has_visible_text(text) || (style matches Some(s) && (s.underline || s.strikethrough))
}

/// Count of leading blanks: where the drawn part of the text starts.
pub open spec fn spec_leading_blanks(s: Seq<char>) -> int
    decreases s.len(),
{
    if s.len() == 0 {
        0
    } else if s[0] != ' ' {
        0
    } else {
        1 + spec_leading_blanks(s.drop_first())
    }
}

/// Whether any character of `text` is visibly drawn.
pub fn has_visible_text(text: &str) -> (r: bool)
    ensures
        r == spec_has_visible_text(text@),
{
    let n = text.unicode_len();
    let mut i: usize = 0;
    while i < n
        invariant
            i <= n,
            n == text@.len(),
            forall|j: int| 0 <= j < i ==> text@[j] == ' ',
        decreases n - i,
    {
        if text.get_char(i) != ' ' {
            return true;
        }
        i += 1;
    }
    false
}

/// Count the leading blanks of `text` (they shift where drawing starts
/// but are never drawn themselves).
pub fn count_leading_blanks(text: &str) -> (r: usize)
    ensures
        r == spec_leading_blanks(text@),
        r <= text@.len(),
{
    let n = text.unicode_len();
    proof {
        assert(text@.skip(0) =~= text@);
    }
    let mut i: usize = 0;
    while i < n
        invariant
            i <= n,
            n == text@.len(),
            forall|j: int| 0 <= j < i ==> text@[j] == ' ',
            spec_leading_blanks(text@) == i + spec_leading_blanks(text@.skip(i as int)),
        decreases n - i,
    {
        let c = text.get_char(i);
        proof {
            assert(text@.skip(i as int).len() > 0);
            assert(text@.skip(i as int)[0] == text@[i as int]);
        }
        if c != ' ' {
            proof {
                assert(spec_leading_blanks(text@.skip(i as int)) == 0);
            }
            return i;
        }
        proof {
            assert(text@.skip(i as int).drop_first() =~= text@.skip(i as int + 1));
        }
        i += 1;
    }
    proof {
        assert(text@.skip(n as int).len() == 0);
    }
    n
}

impl GridRenderer {
    pub fn new(grid_scale: GridScale, default_colors: Colors, debug_renderer: bool) -> (r:
        GridRenderer)
        ensures
            r.grid_scale == grid_scale,
            r.default_colors == default_colors,
            r.debug_renderer == debug_renderer,
    {
        GridRenderer { grid_scale, default_colors, debug_renderer }
    }

    /// Decide what one fragment's background contributes.
    pub fn draw_background(&self, style: &Option<Arc<Style>>) -> (r: BackgroundInfo)
        ensures
            r.custom_color == spec_frag_custom_background(
                *style,
                self.default_colors,
                self.debug_renderer,
            ),
            r.transparent == spec_frag_transparent(*style),
    {
        match style {
            None => BackgroundInfo { custom_color: self.debug_renderer, transparent: false },
            Some(s) => {
                let custom = if self.debug_renderer {
                    true
                } else {
                    let effective = s.background(&self.default_colors);
                    effective != self.default_colors.background || s.blend > 0
                };
                BackgroundInfo { custom_color: custom, transparent: s.blend > 0 }
            },
        }
    }

    /// Decide whether one fragment draws any foreground.
    pub fn draw_foreground(&self, text: &str, style: &Option<Arc<Style>>) -> (r: bool)
        ensures
            r == spec_frag_foreground_drawn(text@, *style),
    {
        let from_style = match style {
            Some(s) => s.underline || s.strikethrough,
            None => false,
        };
        from_style || has_visible_text(text)
    }
}

} // verus!
