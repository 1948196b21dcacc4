//! Protocol records for embedded images: uploads, placements and the
//! render options that position and crop a placed image. Decoding the
//! image bytes themselves is the canvas's business; these are the plain
//! values the protocol carries.

use vstd::prelude::*;

verus! {

/// An image announced by the editing engine: raw bytes or a file path.
#[derive(Clone, Debug, PartialEq)]
pub struct Image {
    /// unique id associated with the image
    pub id: u32,
    /// bytes of the image loaded into memory
    pub data: Option<Vec<u8>>,
    /// path to the image on disk
    pub file: String,
}

/// What a placement is positioned relative to.
#[derive(Clone, Copy, Debug, PartialEq, Eq, Structural)]
pub enum Relative {
    Win,
    Cursor,
    Mouse,
    Placement,
}

/// Placement options for an image, all in character cells.
#[derive(Clone, Copy, Debug, PartialEq, Eq, Structural)]
pub struct Opts {
    pub relative: Option<Relative>,
    /// topmost row position (in character cells) of the image
    pub row: Option<u32>,
    /// leftmost column position (in character cells) of the image
    pub col: Option<u32>,
    /// width (in character cells) to resize the image to
    pub width: Option<u32>,
    /// height (in character cells) to resize the image to
    pub height: Option<u32>,
    /// window to use when `relative` is `Win`
    pub win: Option<i32>,
    /// z-index; lower values are drawn before higher ones
    pub z: Option<i32>,
}

/// One chunk of an image upload.
#[derive(Clone, Debug, PartialEq)]
pub struct UploadImage {
    pub img: Image,
    pub more_chunks: bool,
    pub base64: bool,
}

/// Make an uploaded image visible at a placement.
#[derive(Clone, Copy, Debug, PartialEq, Eq, Structural)]
pub struct ShowImage {
    pub opts: Opts,
    pub image_id: u32,
    pub placement_id: u32,
}

/// Register image bytes under an id.
#[derive(Clone, Debug, PartialEq)]
pub struct ImgAdd {
    pub id: u32,
    pub data: Vec<u8>,
}

/// Show a registered image scaled to a cell rectangle.
#[derive(Clone, Copy, Debug, PartialEq, Eq, Structural)]
pub struct ImgShow {
    pub id: u32,
    pub img_id: u32,
    pub width: u32,
    pub height: u32,
    pub keep_aspect: bool,
}

/// A pixel-space crop of a placed image.
#[derive(Clone, Copy, Debug, PartialEq, Eq, Structural, Default)]
pub struct Crop {
    pub x: i32,
    pub y: i32,
    pub width: i32,
    pub height: i32,
}

/// A cell-space position for a placed image.
#[derive(Clone, Copy, Debug, PartialEq, Eq, Structural, Default)]
pub struct Pos {
    pub row: i32,
    pub col: i32,
}

/// A cell-space size for a placed image.
#[derive(Clone, Copy, Debug, PartialEq, Eq, Structural, Default)]
pub struct Size {
    pub width: i32,
    pub height: i32,
}

/// Optional crop, position and size accompanying a show request.
#[derive(Clone, Copy, Debug, PartialEq, Eq, Structural, Default)]
pub struct ImageRenderOpts {
    pub crop: Option<Crop>,
    pub pos: Option<Pos>,
    pub size: Option<Size>,
}

} // verus!
