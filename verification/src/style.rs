//! Shared text-style records.
//!
//! Many grid cells point at one style record, so styles are handed around
//! as reference-counted `Arc` handles. Colors are RGBA values packed into
//! `u32`; `blend` is a 0..=100 transparency level as delivered by the
//! protocol.

use std::sync::Arc;
use vstd::prelude::*;

verus! {

/// One highlight-group attribution for a style, as reported by the
/// editing engine. The names drive the border-row inference heuristic.
#[derive(Clone, Debug, PartialEq)]
pub struct HighlightInfo {
    pub ui_name: String,
    pub hi_name: String,
}

/// Foreground, background and special (underline) colors; `None` means
/// "use the default".
#[derive(Clone, Copy, Debug, PartialEq)]
pub struct Colors {
    pub foreground: Option<u32>,
    pub background: Option<u32>,
    pub special: Option<u32>,
}

impl Colors {
    pub fn new(foreground: Option<u32>, background: Option<u32>, special: Option<u32>) -> (r:
        Colors)
        ensures
            r == (Colors { foreground, background, special }),
    {
        Colors { foreground, background, special }
    }
}

/// One text style: colors, attributes and the highlight groups that
/// produced it.
#[derive(Clone, Debug, PartialEq)]
pub struct Style {
    pub colors: Colors,
    pub reverse: bool,
    pub italic: bool,
    pub bold: bool,
    pub strikethrough: bool,
    pub underline: bool,
    pub blend: u8,
    pub infos: Vec<HighlightInfo>,
}

impl Style {
    pub fn new(colors: Colors) -> (r: Style)
        ensures
            r.colors == colors,
            !r.reverse && !r.italic && !r.bold && !r.strikethrough && !r.underline,
            r.blend == 0,
            r.infos@.len() == 0,
    {
        Style {
            colors,
            reverse: false,
            italic: false,
            bold: false,
            strikethrough: false,
            underline: false,
            blend: 0,
            infos: Vec::new(),
        }
    }

    /// The effective foreground color under the given defaults.
    pub open spec fn spec_foreground(&self, default_colors: Colors) -> Option<u32> {
        if self.reverse {
            if self.colors.background is Some {
                self.colors.background
            } else {
                default_colors.background
            }
        } else {
            if self.colors.foreground is Some {
                self.colors.foreground
            } else {
                default_colors.foreground
            }
        }
    }

    /// The effective background color under the given defaults.
    pub open spec fn spec_background(&self, default_colors: Colors) -> Option<u32> {
        if self.reverse {
            if self.colors.foreground is Some {
                self.colors.foreground
            } else {
                default_colors.foreground
            }
        } else {
            if self.colors.background is Some {
                self.colors.background
            } else {
                default_colors.background
            }
        }
    }

    pub fn foreground(&self, default_colors: &Colors) -> (r: Option<u32>)
        ensures
            r == self.spec_foreground(*default_colors),
    {
        if self.reverse {
            match self.colors.background {
                Some(c) => Some(c),
                None => default_colors.background,
            }
        } else {
            match self.colors.foreground {
                Some(c) => Some(c),
                None => default_colors.foreground,
            }
        }
    }

    pub fn background(&self, default_colors: &Colors) -> (r: Option<u32>)
        ensures
            r == self.spec_background(*default_colors),
    {
        if self.reverse {
            match self.colors.foreground {
                Some(c) => Some(c),
                None => default_colors.foreground,
            }
        } else {
            match self.colors.background {
                Some(c) => Some(c),
                None => default_colors.background,
            }
        }
    }
}

/// Exact string comparison, character by character.
pub fn str_eq(a: &str, b: &str) -> (r: bool)
    ensures
        r == (a@ == b@),
{
    let n = a.unicode_len();
    let m = b.unicode_len();
    if n != m {
        return false;
    }
    let mut i: usize = 0;
    while i < n
        invariant
            i <= n,
            n == a@.len(),
            n == b@.len(),
            forall|j: int| 0 <= j < i ==> a@[j] == b@[j],
        decreases n - i,
    {
        if a.get_char(i) != b.get_char(i) {
            return false;
        }
        i += 1;
    }
    proof {
        assert(a@ =~= b@);
    }
    true
}

/// Relies on `Arc::clone` (std): the result is a new handle to the very
/// same style record, so the two handles are equal as values.
#[verifier::external_body]
pub fn clone_style_handle(s: &Arc<Style>) -> (r: Arc<Style>)
    ensures
        r == *s,
{
    Arc::clone(s)
}

/// Copy an optional style handle; the copy is equal to the original.
pub fn clone_optional_style(s: &Option<Arc<Style>>) -> (r: Option<Arc<Style>>)
    ensures
        r == *s,
{
    match s {
        Some(style) => Some(clone_style_handle(style)),
        None => None,
    }
}

} // verus!
