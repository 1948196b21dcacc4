//! Font selection keys: everything that distinguishes one concrete font
//! choice from another when looking up a cached font.

use vstd::prelude::*;

verus! {

/// How glyph outlines are fitted to the pixel grid.
#[derive(Clone, Copy, Debug, Hash, PartialEq, Eq, Structural)]
pub enum FontHinting {
    Full,
    Normal,
    Slight,
    Disabled,
}

/// How glyph edges are rasterized.
#[derive(Clone, Copy, Debug, Hash, PartialEq, Eq, Structural)]
pub enum FontEdging {
    AntiAlias,
    SubpixelAntiAlias,
    Alias,
}

/// Identifies one concrete font choice in the font cache.
#[derive(Clone, Debug, Hash, PartialEq, Eq)]
pub struct FontKey {
    pub bold: bool,
    pub italic: bool,
    pub family_name: Option<String>,
    pub hinting: FontHinting,
    pub edging: FontEdging,
}

impl FontKey {
    /// The key of the default font: regular weight and style, default
    /// family, full hinting, anti-aliased edges.
    pub fn base() -> (r: FontKey)
        ensures
            !r.bold,
            !r.italic,
            r.family_name is None,
            r.hinting == FontHinting::Full,
            r.edging == FontEdging::AntiAlias,
    {
        FontKey {
            bold: false,
            italic: false,
            family_name: None,
            hinting: FontHinting::Full,
            edging: FontEdging::AntiAlias,
        }
    }
}

} // verus!
