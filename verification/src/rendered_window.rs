//! Per-window compositor state: one grid-anchored surface with its row
//! caches, scroll animation and position animation.
//!
//! Rows live in two ring buffers: `actual_lines` (the authoritative
//! grid) and `scrollback_lines` (twice the inner height, holding both
//! history and the current view, rebuilt from `actual_lines` on every
//! flush). All fractional quantities are fixed-point thousandths.

use crate::animation::{ease_out_expo, spec_ease_out_expo, CriticallyDampedSpringAnimation};
use crate::fixed::SUBUNIT;
use crate::ring_buffer::RingBuffer;
use crate::settings::RendererSettings;
use crate::style::{clone_optional_style, Style};
use crate::units::{GridPos, GridRect, GridSize};
use std::sync::Arc;
use vstd::prelude::*;

verus! {

/// One styled stretch of text within a row.
#[derive(Debug)]
pub struct LineFragment {
    pub text: String,
    pub window_left: u64,
    pub width: u64,
    pub style: Option<Arc<Style>>,
}

impl Clone for LineFragment {
    fn clone(&self) -> (r: Self)
        ensures
            r == *self,
    {
        LineFragment {
            text: self.text.clone(),
            window_left: self.window_left,
            width: self.width,
            style: clone_optional_style(&self.style),
        }
    }
}

/// Rows at the top and bottom excluded from scrolling (window chrome);
/// `inferred` means they are re-derived from row styling at each flush.
#[derive(Clone, Debug, PartialEq)]
pub struct ViewportMargins {
    pub top: u64,
    pub bottom: u64,
    pub inferred: bool,
}

/// Whether a window is the base editor grid, a floating window or a
/// message window (whose tail matters more than its head).
#[derive(Clone, Copy, Debug, PartialEq, Eq, Structural)]
pub enum WindowType {
    Editor,
    Floating,
    Message,
}

/// Anchoring information of a floating window; its presence makes the
/// window float above the base grid.
#[derive(Clone, Copy, Debug, PartialEq, Eq, Structural)]
pub struct AnchorInfo {
    pub anchor_grid_id: u64,
    pub sort_order: u64,
}

/// An opaque recorded drawing for one row layer. The build id names the
/// rebuild that recorded it, so reuse of a cached picture is observable.
#[derive(Clone, Copy, Debug, PartialEq, Eq, Structural)]
pub struct Picture {
    pub build_id: u64,
}

/// Cached render state of one row: the submitted fragments, the lazily
/// built background/foreground pictures, and flags.
#[derive(Debug)]
pub struct Line {
    pub line_fragments: Vec<LineFragment>,
    pub background_picture: Option<Picture>,
    pub foreground_picture: Option<Picture>,
    pub has_transparency: bool,
    pub is_inferred_border: bool,
    pub is_valid: bool,
}

/// Two rows carry the same render state.
pub open spec fn line_eqv(a: Line, b: Line) -> bool {
    &&& a.line_fragments@ == b.line_fragments@
    &&& a.background_picture == b.background_picture
    &&& a.foreground_picture == b.foreground_picture
    &&& a.has_transparency == b.has_transparency
    &&& a.is_inferred_border == b.is_inferred_border
    &&& a.is_valid == b.is_valid
}

/// Two optional rows carry the same render state.
pub open spec fn opt_line_eqv(a: Option<Line>, b: Option<Line>) -> bool {
    match (a, b) {
        (Some(x), Some(y)) => line_eqv(x, y),
        (None, None) => true,
        _ => false,
    }
}

impl Clone for Line {
    fn clone(&self) -> (r: Self)
        ensures
            line_eqv(r, *self),
    {
        let r = Line {
            line_fragments: self.line_fragments.clone(),
            background_picture: self.background_picture,
            foreground_picture: self.foreground_picture,
            has_transparency: self.has_transparency,
            is_inferred_border: self.is_inferred_border,
            is_valid: self.is_valid,
        };
        proof {
            assert(r.line_fragments@ =~= self.line_fragments@);
        }
        r
    }
}

/// A protocol draw command addressed to one window.
pub enum WindowDrawCommand {
    Position {
        grid_position: GridPos,
        grid_size: GridSize,
        anchor_info: Option<AnchorInfo>,
        window_type: WindowType,
    },
    DrawLine { row: usize, line_fragments: Vec<LineFragment> },
    Scroll { top: u64, bottom: u64, left: u64, right: u64, rows: i64, cols: i64 },
    Clear,
    Show,
    Hide,
    Close,
    Viewport { scroll_delta: i64 },
    ViewportMargins { top: u64, bottom: u64, left: u64, right: u64 },
}

/// One drawing instruction for the shared canvas, in the order emitted.
/// Pixel coordinates are fixed-point thousandths.
#[derive(Clone, Copy, Debug, PartialEq, Eq, Structural)]
pub enum DrawOp {
    /// Directional drop shadow under a floating window.
    Shadow { region: crate::units::PixelRect },
    /// Backdrop blur behind a transparent floating window.
    BackdropBlur { region: crate::units::PixelRect },
    /// Fill the window rectangle with the default background; `opaque`
    /// windows replace what is below instead of blending.
    FillBackground { region: crate::units::PixelRect, opaque: bool },
    /// Replay one cached row picture at a pixel position; body rows are
    /// clipped to the inner viewport rectangle, border rows are not.
    Picture { build_id: u64, x: i64, y: i64, foreground: bool, clipped: bool },
}

/// Does `ops` hold, at or after `lo`, an instruction replaying picture
/// `build_id` at `(x, y)` on the given layer?
pub open spec fn spec_ops_has_picture(
    ops: Seq<DrawOp>,
    lo: int,
    build_id: u64,
    x: i64,
    y: int,
    foreground: bool,
    clipped: bool,
) -> bool {
    exists|k: int|
        lo <= k < ops.len() && ops[k] == (DrawOp::Picture {
            build_id,
            x,
            y: y as i64,
            foreground,
            clipped,
        })
}

/// A picture instruction survives appending more instructions.
proof fn lemma_ops_picture_extend(
    a: Seq<DrawOp>,
    b: Seq<DrawOp>,
    lo: int,
    build_id: u64,
    x: i64,
    y: int,
    foreground: bool,
    clipped: bool,
)
    requires
        0 <= lo,
        spec_ops_has_picture(a, lo, build_id, x, y, foreground, clipped),
        a.len() <= b.len(),
        b.subrange(0, a.len() as int) == a,
    ensures
        spec_ops_has_picture(b, lo, build_id, x, y, foreground, clipped),
{
    let k0 = choose|k: int|
        lo <= k < a.len() && a[k] == (DrawOp::Picture {
            build_id,
            x,
            y: y as i64,
            foreground,
            clipped,
        });
    assert(lo <= k0 < a.len());
    assert(b.subrange(0, a.len() as int) =~= a);
    assert(b.subrange(0, a.len() as int)[k0] == a[k0]);
    assert(b.subrange(0, a.len() as int)[k0] == b[0 + k0]);
    assert(b[k0] == a[k0]);
}

/// What a window drew this frame: its id and covered pixel rectangle,
/// for hit testing and shadow suppression.
#[derive(Clone, Copy, Debug, PartialEq, Eq, Structural)]
pub struct WindowDrawDetails {
    pub id: u64,
    pub region: crate::units::PixelRect,
}

/// Does this highlight-group name mark floating-window chrome?
pub open spec fn spec_is_float_border_name(s: Seq<char>) -> bool {
    s == "FloatBorder"@ || s == "FloatTitle"@ || s == "FloatFooter"@
}

/// Does this highlight-group name mark a window bar?
pub open spec fn spec_is_winbar_name(s: Seq<char>) -> bool {
    s == "WinBar"@ || s == "WinBarNC"@
}

/// Is this fragment styled purely as floating-window chrome? The last
/// highlight attribution decides, by either of its names.
pub open spec fn spec_frag_is_float_border(f: LineFragment) -> bool {
    match f.style {
        Some(style) => style.infos@.len() > 0 && {
            let info = style.infos@[style.infos@.len() - 1];
            spec_is_float_border_name(info.ui_name@) || spec_is_float_border_name(info.hi_name@)
        },
        None => false,
    }
}

/// Does this fragment carry a window-bar highlight?
pub open spec fn spec_frag_is_winbar(f: LineFragment) -> bool {
    match f.style {
        Some(style) => style.infos@.len() > 0 && {
            let info = style.infos@[style.infos@.len() - 1];
            spec_is_winbar_name(info.ui_name@) || spec_is_winbar_name(info.hi_name@)
        },
        None => false,
    }
}

/// Is this slot a border row: drawn, and styled as window chrome?
pub open spec fn spec_is_border_row(ol: Option<Line>) -> bool {
    match ol {
        Some(l) => l.is_inferred_border,
        None => false,
    }
}

/// A row is inferred to be window chrome when every fragment is purely
/// float-border styled, or any fragment carries a window-bar highlight.
pub open spec fn spec_line_is_inferred_border(frags: Seq<LineFragment>) -> bool {
    (forall|i: int| 0 <= i < frags.len() ==> spec_frag_is_float_border(#[trigger] frags[i]))
        || (exists|i: int| 0 <= i < frags.len() && spec_frag_is_winbar(#[trigger] frags[i]))
}

/// Does any fragment of the row need a custom background?
pub open spec fn spec_line_custom_background(
    frags: Seq<LineFragment>,
    defaults: crate::style::Colors,
    debug: bool,
) -> bool {
    exists|i: int|
        0 <= i < frags.len() && crate::grid_renderer::spec_frag_custom_background(
            (#[trigger] frags[i]).style,
            defaults,
            debug,
        )
}

/// Does any fragment of the row draw foreground content?
pub open spec fn spec_line_foreground_drawn(frags: Seq<LineFragment>) -> bool {
    exists|i: int|
        0 <= i < frags.len() && crate::grid_renderer::spec_frag_foreground_drawn(
            (#[trigger] frags[i]).text@,
            frags[i].style,
        )
}

/// Does any fragment of the row blend transparently?
pub open spec fn spec_line_transparent(frags: Seq<LineFragment>) -> bool {
    exists|i: int|
        0 <= i < frags.len() && crate::grid_renderer::spec_frag_transparent(
            (#[trigger] frags[i]).style,
        )
}

/// The relation between a freshly rebuilt row and the invalid row it
/// replaces: same fragments and border flag, pictures present exactly
/// when the fragments call for them, and marked valid.
pub open spec fn spec_rebuilt_line(
    l: Line,
    prev: Line,
    defaults: crate::style::Colors,
    debug: bool,
    id_lo: int,
    id_hi: int,
) -> bool {
    &&& l.line_fragments@ == prev.line_fragments@
    &&& l.is_inferred_border == prev.is_inferred_border
    &&& l.is_valid
    &&& (l.background_picture is Some <==> spec_line_custom_background(
        prev.line_fragments@,
        defaults,
        debug,
    ))
    &&& (l.foreground_picture is Some <==> spec_line_foreground_drawn(prev.line_fragments@))
    &&& l.has_transparency == spec_line_transparent(prev.line_fragments@)
    &&& (l.background_picture matches Some(p) ==> id_lo <= p.build_id < id_hi)
    &&& (l.foreground_picture matches Some(p) ==> id_lo <= p.build_id < id_hi)
}

/// How one slot relates to its pre-`prepare_lines` state: absent rows
/// stay absent, valid rows are untouched, invalid rows are rebuilt with
/// fresh picture ids.
pub open spec fn spec_prepared_slot(
    now: Option<Line>,
    prev: Option<Line>,
    defaults: crate::style::Colors,
    debug: bool,
    id_lo: int,
    id_hi: int,
) -> bool {
    match (now, prev) {
        (None, None) => true,
        (Some(l), Some(p)) => if p.is_valid {
            line_eqv(l, p)
        } else {
            spec_rebuilt_line(l, p, defaults, debug, id_lo, id_hi)
        },
        _ => false,
    }
}

/// Preparing the lines is idempotent on the caches: a slot that is
/// already valid keeps exactly the same pictures, so a second
/// `prepare_lines` call without an intervening `DrawLine` rebuilds
/// nothing.
pub proof fn lemma_prepare_preserves_valid_rows(
    now: Option<Line>,
    prev: Option<Line>,
    defaults: crate::style::Colors,
    debug: bool,
    id_lo: int,
    id_hi: int,
)
    requires
        spec_prepared_slot(now, prev, defaults, debug, id_lo, id_hi),
        prev matches Some(p) && p.is_valid,
    ensures
        now matches Some(l) && line_eqv(l, prev.unwrap()),
        now.unwrap().background_picture == prev.unwrap().background_picture,
        now.unwrap().foreground_picture == prev.unwrap().foreground_picture,
{
}

/// A copy of an optional row carries the same render state as its
/// source.
pub proof fn lemma_cloned_option_line(a: Option<Line>, b: Option<Line>)
    requires
        cloned(a, b),
    ensures
        opt_line_eqv(b, a),
{
}

/// The bounds a command must respect for the window it addresses: a
/// drawn row must exist, margins must fit the grid. The command stream
/// is assumed well-formed; the router drops commands that are not.
pub open spec fn spec_command_admitted(w: RenderedWindow, draw_command: WindowDrawCommand) -> bool {
    match draw_command {
        WindowDrawCommand::DrawLine { row, .. } => row < w.grid_size.height,
        WindowDrawCommand::ViewportMargins { top, bottom, .. } => top + bottom
            <= w.grid_size.height,
        _ => true,
    }
}

/// The field a freshly created window holds for an id, position and
/// size: what `RenderedWindow::new` guarantees.
pub open spec fn spec_freshly_created(
    w: RenderedWindow,
    id: u64,
    grid_position: GridPos,
    grid_size: GridSize,
) -> bool {
    &&& w.wf()
    &&& w.id == id
    &&& !w.hidden
    &&& w.anchor_info is None
    &&& w.window_type == WindowType::Editor
    &&& w.grid_size == grid_size
    &&& w.actual_lines@.len() == grid_size.height
    &&& w.scrollback_lines@.len() == 2 * grid_size.height
    &&& (forall|i: int| 0 <= i < w.actual_lines@.len() ==> w.actual_lines@[i] is None)
    &&& (forall|i: int| 0 <= i < w.scrollback_lines@.len() ==> w.scrollback_lines@[i] is None)
    &&& w.scroll_delta == 0
    &&& w.viewport_margins == (ViewportMargins { top: 0, bottom: 0, inferred: true })
    &&& w.grid_start_position == grid_position
    &&& w.grid_current_position == grid_position
    &&& w.grid_destination == grid_position
    &&& w.position_t == POSITION_DONE
    &&& w.scroll_animation.position == 0
    &&& w.scroll_animation.velocity == 0
    &&& !w.has_transparency
    &&& w.build_counter == 0
}

/// What one protocol command does to a window: the full relation
/// between the window before (`pre`) and after (`post`) handling
/// `draw_command`. This is the contract of
/// `RenderedWindow::handle_window_draw_command`, and the window
/// manager's routing contract holds each routed window to it.
pub open spec fn spec_command_applied(
    pre: RenderedWindow,
    post: RenderedWindow,
    draw_command: WindowDrawCommand,
) -> bool {
    &&& post.id == pre.id
    &&& post.build_counter == pre.build_counter
    &&& (!(draw_command is Position) ==> post.anchor_info == pre.anchor_info && post.grid_size
        == pre.grid_size && post.window_type == pre.window_type)
    &&& match draw_command {
        WindowDrawCommand::Position { grid_position, grid_size, anchor_info, window_type } => {
            &&& post.grid_size == grid_size
            &&& post.actual_lines@.len() == grid_size.height
            &&& post.scrollback_lines@.len() == 2 * grid_size.height
            &&& post.scroll_delta == 0
            &&& post.anchor_info == anchor_info
            &&& post.window_type == window_type
            &&& !post.hidden
            &&& post.grid_destination == grid_position
            &&& post.grid_current_position == pre.grid_current_position
            &&& post.viewport_margins == pre.viewport_margins
            &&& post.has_transparency == pre.has_transparency
            // rows that exist under both sizes are kept, new rows are empty
            &&& (forall|i: int|
                0 <= i < grid_size.height && i < pre.actual_lines@.len() ==> opt_line_eqv(
                    #[trigger] post.actual_lines@[i],
                    pre.actual_lines@[i],
                ))
            &&& (forall|i: int|
                pre.actual_lines@.len() <= i < grid_size.height ==> (
                #[trigger] post.actual_lines@[i]) is None)
            // the scrollback's current half is resynced from the rows
            &&& (forall|i: int|
                0 <= i < grid_size.height ==> opt_line_eqv(
                    #[trigger] post.scrollback_lines@[i],
                    post.actual_lines@[i],
                ))
            // a height change resets the scroll animation, otherwise it runs on
            &&& (grid_size.height != pre.grid_size.height ==> post.scroll_animation.position == 0
                && post.scroll_animation.velocity == 0)
            &&& (grid_size.height == pre.grid_size.height ==> post.scroll_animation
                == pre.scroll_animation)
            // becoming visible never interpolates from a stale spot
            &&& (pre.hidden ==> post.position_t == POSITION_DONE && post.grid_start_position
                == grid_position)
            // a new destination restarts the animation from the current
            // position, unless the window had not yet left its start
            &&& (!pre.hidden && pre.grid_destination != grid_position && (
            pre.grid_start_position.x != 0 || pre.grid_start_position.y != 0)
                ==> post.position_t == 0 && post.grid_start_position
                == pre.grid_current_position)
            &&& (!pre.hidden && pre.grid_destination != grid_position
                && pre.grid_start_position.x == 0 && pre.grid_start_position.y == 0
                ==> post.position_t == POSITION_DONE && post.grid_start_position == grid_position)
            &&& (!pre.hidden && pre.grid_destination == grid_position ==> post.position_t
                == pre.position_t && post.grid_start_position == pre.grid_start_position)
        },
        WindowDrawCommand::DrawLine { row, line_fragments } => {
            &&& post == (RenderedWindow { actual_lines: post.actual_lines, ..pre })
            &&& post.actual_lines@.len() == pre.actual_lines@.len()
            &&& (post.actual_lines@[row as int] matches Some(l) && {
                &&& l.line_fragments@ == line_fragments@
                &&& l.background_picture is None
                &&& l.foreground_picture is None
                &&& !l.has_transparency
                &&& !l.is_valid
                &&& l.is_inferred_border == (pre.viewport_margins.inferred
                    && spec_line_is_inferred_border(line_fragments@))
            })
            &&& (forall|i: int|
                0 <= i < pre.actual_lines@.len() && i != row ==> (
                #[trigger] post.actual_lines@[i]) == pre.actual_lines@[i])
        },
        WindowDrawCommand::Scroll { top, bottom, left, right, rows, cols } => {
            &&& post == (RenderedWindow { actual_lines: post.actual_lines, ..pre })
            &&& post.actual_lines@.len() == pre.actual_lines@.len()
            &&& (top == 0 && bottom == pre.grid_size.height && left == 0 && right
                == pre.grid_size.width && cols == 0 && pre.actual_lines@.len() > 0
                ==> forall|i: int|
                0 <= i < post.actual_lines@.len() ==> (#[trigger] post.actual_lines@[i])
                    == pre.actual_lines@[crate::ring_buffer::wrap_index(
                    i + rows,
                    post.actual_lines@.len() as int,
                )])
            &&& (!(top == 0 && bottom == pre.grid_size.height && left == 0 && right
                == pre.grid_size.width && cols == 0) ==> post.actual_lines@
                == pre.actual_lines@)
        },
        WindowDrawCommand::Clear => {
            &&& post == (RenderedWindow {
                scrollback_lines: post.scrollback_lines,
                scroll_delta: 0,
                scroll_animation: post.scroll_animation,
                ..pre
            })
            &&& post.scroll_delta == 0
            &&& post.scrollback_lines@.len() == pre.scrollback_lines@.len()
            &&& (forall|i: int|
                0 <= i < post.scrollback_lines@.len() ==> (
                #[trigger] post.scrollback_lines@[i]) is None)
            &&& post.scroll_animation.position == 0
            &&& post.scroll_animation.velocity == 0
        },
        WindowDrawCommand::Show => {
            &&& !post.hidden
            &&& (pre.hidden ==> post == (RenderedWindow {
                hidden: false,
                position_t: POSITION_DONE,
                grid_start_position: pre.grid_destination,
                scroll_animation: post.scroll_animation,
                ..pre
            }) && post.scroll_animation.position == 0 && post.scroll_animation.velocity == 0)
            &&& (!pre.hidden ==> post == pre)
        },
        WindowDrawCommand::Hide => post == (RenderedWindow { hidden: true, ..pre }),
        WindowDrawCommand::Viewport { scroll_delta } => post == (RenderedWindow {
            scroll_delta,
            ..pre
        }),
        WindowDrawCommand::ViewportMargins { top, bottom, left, right } => post == (
        RenderedWindow {
            viewport_margins: ViewportMargins { top, bottom, inferred: false },
            ..pre
        }),
        WindowDrawCommand::Close => post == pre,
    }
}

/// One grid-anchored window surface with animation and row caches.
pub struct RenderedWindow {
    pub id: u64,
    pub hidden: bool,
    pub anchor_info: Option<AnchorInfo>,
    pub window_type: WindowType,
    pub grid_size: GridSize,
    pub scrollback_lines: RingBuffer<Option<Line>>,
    pub actual_lines: RingBuffer<Option<Line>>,
    /// Pending external scroll request in whole rows, folded in at flush.
    pub scroll_delta: i64,
    pub viewport_margins: ViewportMargins,
    pub grid_start_position: GridPos,
    pub grid_current_position: GridPos,
    pub grid_destination: GridPos,
    /// Position animation parameter in thousandths; above one means the
    /// animation is finished (the stop sentinel is two).
    pub position_t: i64,
    pub scroll_animation: CriticallyDampedSpringAnimation,
    pub has_transparency: bool,
    /// Next picture build id; grows with every rebuilt row layer.
    pub build_counter: u64,
}

/// The position-animation parameter that marks "not animating".
pub const POSITION_DONE: i64 = 2000;

impl RenderedWindow {
    pub open spec fn wf(&self) -> bool {
        &&& self.actual_lines.inv()
        &&& self.scrollback_lines.inv()
        &&& self.actual_lines@.len() == self.grid_size.height
        &&& self.grid_size.height <= 0x10_0000
        &&& self.grid_size.width <= 0x10_0000
        &&& self.scrollback_lines@.len() <= 2 * self.grid_size.height
        &&& crate::units::pos_loose(self.grid_start_position)
        &&& crate::units::pos_loose(self.grid_current_position)
        &&& self.grid_destination.in_bounds()
        &&& self.viewport_margins.top <= 0x10_0000
        &&& self.viewport_margins.bottom <= 0x10_0000
        &&& 0 <= self.position_t <= POSITION_DONE
        &&& self.scroll_animation.wf()
        &&& -0x1000_0000 <= self.scroll_delta <= 0x1000_0000
    }

    pub fn new(id: u64, grid_position: GridPos, grid_size: GridSize) -> (r: RenderedWindow)
        requires
            grid_position.in_bounds(),
            1 <= grid_size.height <= 0x10_0000,
            1 <= grid_size.width <= 0x10_0000,
        ensures
            r.wf(),
            r.id == id,
            !r.hidden,
            r.anchor_info is None,
            r.window_type == WindowType::Editor,
            r.grid_size == grid_size,
            r.actual_lines@.len() == grid_size.height,
            r.scrollback_lines@.len() == 2 * grid_size.height,
            forall|i: int| 0 <= i < r.actual_lines@.len() ==> r.actual_lines@[i] is None,
            forall|i: int| 0 <= i < r.scrollback_lines@.len() ==> r.scrollback_lines@[i] is None,
            r.scroll_delta == 0,
            r.viewport_margins == (ViewportMargins { top: 0, bottom: 0, inferred: true }),
            r.grid_start_position == grid_position,
            r.grid_current_position == grid_position,
            r.grid_destination == grid_position,
            r.position_t == POSITION_DONE,
            r.scroll_animation.position == 0,
            r.scroll_animation.velocity == 0,
            !r.has_transparency,
            r.build_counter == 0,
    {
        let height = grid_size.height as usize;
        let actual_lines = RingBuffer::new(height, None);
        let scrollback_lines = RingBuffer::new(2 * height, None);
        RenderedWindow {
            id,
            hidden: false,
            anchor_info: None,
            window_type: WindowType::Editor,
            grid_size,
            scrollback_lines,
            actual_lines,
            scroll_delta: 0,
            viewport_margins: ViewportMargins { top: 0, bottom: 0, inferred: true },
            grid_start_position: grid_position,
            grid_current_position: grid_position,
            grid_destination: grid_position,
            position_t: POSITION_DONE,
            scroll_animation: CriticallyDampedSpringAnimation::new(),
            has_transparency: false,
            build_counter: 0,
        }
    }

    /// The pixel rectangle currently covered by the window.
    pub fn pixel_region(&self, grid_scale: crate::units::GridScale) -> (r: crate::units::PixelRect)
        requires
            self.wf(),
            grid_scale.in_bounds(),
        ensures
            r == crate::units::spec_grid_to_pixel(self.spec_grid_rect(), grid_scale),
            r.in_bounds(),
    {
        let rect = GridRect {
            min: self.grid_current_position,
            max: GridPos {
                x: self.grid_current_position.x + (self.grid_size.width as i64) * SUBUNIT,
                y: self.grid_current_position.y + (self.grid_size.height as i64) * SUBUNIT,
            },
        };
        crate::units::grid_to_pixel(rect, grid_scale)
    }

    /// The grid rectangle currently covered by the window.
    pub open spec fn spec_grid_rect(&self) -> GridRect {
        GridRect {
            min: self.grid_current_position,
            max: GridPos {
                x: (self.grid_current_position.x + self.grid_size.width * (SUBUNIT as int)) as i64,
                y: (self.grid_current_position.y + self.grid_size.height * (
                SUBUNIT as int)) as i64,
            },
        }
    }

    /// The animation target of this window inside `grid_rect`: the
    /// destination, clamped for floating windows so the right and bottom
    /// edges stay inside the grid while the left edge stays visible;
    /// message windows may extend above the top instead so that their
    /// last line stays visible.
    pub open spec fn spec_target_position(&self, grid_rect: GridRect) -> GridPos {
        let dest_x = self.grid_destination.x + grid_rect.min.x;
        let dest_y = self.grid_destination.y + grid_rect.min.y;
        if self.anchor_info is None {
            GridPos { x: dest_x as i64, y: dest_y as i64 }
        } else {
            let width = self.grid_size.width * (SUBUNIT as int);
            let height = if self.window_type is Message {
                self.grid_size.height * (SUBUNIT as int) - self.grid_destination.y
            } else {
                self.grid_size.height * (SUBUNIT as int)
            };
            let x0 = if dest_x <= grid_rect.max.x - width {
                dest_x
            } else {
                grid_rect.max.x - width
            };
            let x = if x0 >= grid_rect.min.x {
                x0
            } else {
                grid_rect.min.x as int
            };
            let y0 = if dest_y <= grid_rect.max.y - height {
                dest_y
            } else {
                grid_rect.max.y - height
            };
            let y = if self.window_type is Message {
                y0
            } else if y0 >= grid_rect.min.y {
                y0
            } else {
                grid_rect.min.y as int
            };
            GridPos { x: x as i64, y: y as i64 }
        }
    }

    /// Compute the clamped animation target (see `spec_target_position`).
    pub fn get_target_position(&self, grid_rect: &GridRect) -> (r: GridPos)
        requires
            self.wf(),
            grid_rect.in_bounds(),
        ensures
            r == self.spec_target_position(*grid_rect),
    {
        let dest_x = self.grid_destination.x + grid_rect.min.x;
        let dest_y = self.grid_destination.y + grid_rect.min.y;
        if self.anchor_info.is_none() {
            return GridPos { x: dest_x, y: dest_y };
        }
        let width = (self.grid_size.width as i64) * SUBUNIT;
        let height = if matches!(self.window_type, WindowType::Message) {
            // The message grid spans the full window, so the relative
            // position determines how much of it is really used.
            (self.grid_size.height as i64) * SUBUNIT - self.grid_destination.y
        } else {
            (self.grid_size.height as i64) * SUBUNIT
        };
        // Move a partially offscreen floating window in from the right,
        // but keep its left edge visible.
        let x0 = if dest_x <= grid_rect.max.x - width {
            dest_x
        } else {
            grid_rect.max.x - width
        };
        let x = if x0 >= grid_rect.min.x {
            x0
        } else {
            grid_rect.min.x
        };
        // For messages the last line matters most, so the position may go
        // negative; otherwise keep the first row on screen.
        let y0 = if dest_y <= grid_rect.max.y - height {
            dest_y
        } else {
            grid_rect.max.y - height
        };
        let y = if matches!(self.window_type, WindowType::Message) {
            y0
        } else if y0 >= grid_rect.min.y {
            y0
        } else {
            grid_rect.min.y
        };
        GridPos { x, y }
    }

    /// Check the border heuristic of one fragment (either form).
    fn frag_check(fragment: &LineFragment, float_border: bool) -> (r: bool)
        ensures
            float_border ==> r == spec_frag_is_float_border(*fragment),
            !float_border ==> r == spec_frag_is_winbar(*fragment),
    {
        match &fragment.style {
            Some(style) => {
                let n = style.infos.len();
                if n == 0 {
                    false
                } else {
                    let info = &style.infos[n - 1];
                    if float_border {
                        crate::style::str_eq(info.ui_name.as_str(), "FloatBorder")
                            || crate::style::str_eq(info.ui_name.as_str(), "FloatTitle")
                            || crate::style::str_eq(info.ui_name.as_str(), "FloatFooter")
                            || crate::style::str_eq(info.hi_name.as_str(), "FloatBorder")
                            || crate::style::str_eq(info.hi_name.as_str(), "FloatTitle")
                            || crate::style::str_eq(info.hi_name.as_str(), "FloatFooter")
                    } else {
                        crate::style::str_eq(info.ui_name.as_str(), "WinBar")
                            || crate::style::str_eq(info.ui_name.as_str(), "WinBarNC")
                            || crate::style::str_eq(info.hi_name.as_str(), "WinBar")
                            || crate::style::str_eq(info.hi_name.as_str(), "WinBarNC")
                    }
                }
            },
            None => false,
        }
    }

    /// Decide whether a freshly drawn row is window chrome.
    fn infer_border_row(line_fragments: &Vec<LineFragment>) -> (r: bool)
        ensures
            r == spec_line_is_inferred_border(line_fragments@),
    {
        let n = line_fragments.len();
        let mut all_border = true;
        let mut any_winbar = false;
        let mut i: usize = 0;
        while i < n
            invariant
                i <= n,
                n == line_fragments@.len(),
                all_border == (forall|j: int|
                    0 <= j < i ==> spec_frag_is_float_border(#[trigger] line_fragments@[j])),
                any_winbar == (exists|j: int|
                    0 <= j < i && spec_frag_is_winbar(#[trigger] line_fragments@[j])),
            decreases n - i,
        {
            let fb = Self::frag_check(&line_fragments[i], true);
            let wb = Self::frag_check(&line_fragments[i], false);
            all_border = all_border && fb;
            any_winbar = any_winbar || wb;
            i += 1;
        }
        all_border || any_winbar
    }

    /// Apply one protocol draw command to this window (every command but
    /// `Close`, which the window manager resolves).
    pub fn handle_window_draw_command(&mut self, draw_command: WindowDrawCommand)
        requires
            old(self).wf(),
            draw_command matches WindowDrawCommand::Position { grid_position, grid_size, .. }
                ==> grid_position.in_bounds() && 1 <= grid_size.height <= 0x10_0000 && 1
                <= grid_size.width <= 0x10_0000,
            draw_command matches WindowDrawCommand::DrawLine { row, .. } ==> row < old(self).grid_size.height,
            draw_command matches WindowDrawCommand::Scroll { rows, .. } ==> -0x1000_0000 <= rows
                <= 0x1000_0000,
            draw_command matches WindowDrawCommand::Viewport { scroll_delta } ==> -0x1000_0000
                <= scroll_delta <= 0x1000_0000,
            draw_command matches WindowDrawCommand::ViewportMargins { top, bottom, .. } ==> top
                + bottom <= old(self).grid_size.height,
        ensures
            final(self).wf(),
            spec_command_applied(*old(self), *final(self), draw_command),
    {
        match draw_command {
            WindowDrawCommand::Position { grid_position, grid_size, anchor_info, window_type } => {
                let old_height = self.actual_lines.len();
                if !(self.grid_destination == grid_position) {
                    if self.grid_start_position.x != 0 || self.grid_start_position.y != 0 {
                        // a new destination restarts the animation
                        self.position_t = 0;
                        self.grid_start_position = self.grid_current_position;
                    } else {
                        // still leaving the start position: do not animate
                        self.position_t = POSITION_DONE;
                        self.grid_start_position = grid_position;
                    }
                    self.grid_destination = grid_position;
                }
                let height = grid_size.height as usize;
                self.actual_lines.resize(height, None);
                self.grid_size = grid_size;
                self.scrollback_lines.resize(2 * height, None);
                self.copy_actual_into_scrollback();
                self.scroll_delta = 0;
                if height != old_height {
                    self.scroll_animation.reset();
                }
                self.anchor_info = anchor_info;
                self.window_type = window_type;
                if self.hidden {
                    self.hidden = false;
                    // becoming visible should not interpolate from a stale spot
                    self.position_t = POSITION_DONE;
                    self.grid_start_position = grid_position;
                    self.grid_destination = grid_position;
                }
            },
            WindowDrawCommand::DrawLine { row, line_fragments } => {
                let is_border = if self.viewport_margins.inferred {
                    Self::infer_border_row(&line_fragments)
                } else {
                    false
                };
                let line = Line {
                    line_fragments,
                    background_picture: None,
                    foreground_picture: None,
                    has_transparency: false,
                    is_inferred_border: is_border,
                    is_valid: false,
                };
                self.actual_lines.set(row as isize, Some(line));
                proof {
                    vstd::arithmetic::div_mod::lemma_small_mod(
                        row as nat,
                        self.actual_lines@.len() as nat,
                    );
                }
            },
            WindowDrawCommand::Scroll { top, bottom, left, right, rows, cols } => {
                if top == 0 && bottom == self.grid_size.height as u64 && left == 0 && right
                    == self.grid_size.width as u64 && cols == 0 {
                    self.actual_lines.rotate(rows as isize);
                }
            },
            WindowDrawCommand::Clear => {
                self.scroll_delta = 0;
                let n = self.scrollback_lines.len();
                let mut i: usize = 0;
                while i < n
                    invariant
                        i <= n,
                        n == self.scrollback_lines@.len(),
                        n <= 0x20_0000,
                        self.scrollback_lines.inv(),
                        *self == (RenderedWindow {
                            scrollback_lines: self.scrollback_lines,
                            scroll_delta: 0,
                            ..*old(self)
                        }),
                        forall|j: int|
                            0 <= j < i ==> (#[trigger] self.scrollback_lines@[j]) is None,
                        forall|j: int|
                            i <= j < n ==> (#[trigger] self.scrollback_lines@[j]) == old(self).scrollback_lines@[j],
                    decreases n - i,
                {
                    self.scrollback_lines.set(i as isize, None);
                    proof {
                        vstd::arithmetic::div_mod::lemma_small_mod(
                            i as nat,
                            self.scrollback_lines@.len() as nat,
                        );
                    }
                    i += 1;
                }
                self.scroll_animation.reset();
            },
            WindowDrawCommand::Show => {
                if self.hidden {
                    self.hidden = false;
                    // becoming visible should not animate the position
                    self.position_t = POSITION_DONE;
                    self.grid_start_position = self.grid_destination;
                    self.scroll_animation.reset();
                }
            },
            WindowDrawCommand::Hide => {
                self.hidden = true;
            },
            WindowDrawCommand::Viewport { scroll_delta } => {
                self.scroll_delta = scroll_delta;
            },
            WindowDrawCommand::ViewportMargins { top, bottom, left: _, right: _ } => {
                self.viewport_margins = ViewportMargins { top, bottom, inferred: false };
            },
            WindowDrawCommand::Close => {},
        }
    }

    /// Copy the whole actual window into the front of the scrollback
    /// ring (used right after a resize, when no margins apply yet).
    fn copy_actual_into_scrollback(&mut self)
        requires
            old(self).actual_lines.inv(),
            old(self).scrollback_lines.inv(),
            old(self).actual_lines@.len() <= old(self).scrollback_lines@.len(),
            old(self).scrollback_lines@.len() <= 0x20_0000,
        ensures
            final(self).actual_lines == old(self).actual_lines,
            final(self).scrollback_lines.inv(),
            final(self).scrollback_lines@.len() == old(self).scrollback_lines@.len(),
            forall|i: int|
                0 <= i < old(self).actual_lines@.len() ==> opt_line_eqv(
                    #[trigger] final(self).scrollback_lines@[i],
                    old(self).actual_lines@[i],
                ),
            forall|i: int|
                old(self).actual_lines@.len() <= i < old(self).scrollback_lines@.len() ==> final(self).scrollback_lines@[i] == old(self).scrollback_lines@[i],
            *final(self) == (RenderedWindow {
                scrollback_lines: final(self).scrollback_lines,
                ..*old(self)
            }),
    {
        let n = self.actual_lines.len();
        let mut i: usize = 0;
        while i < n
            invariant
                i <= n,
                n == self.actual_lines@.len(),
                n <= self.scrollback_lines@.len(),
                self.scrollback_lines@.len() <= 0x20_0000,
                self.actual_lines.inv(),
                self.scrollback_lines.inv(),
                self.actual_lines == old(self).actual_lines,
                self.scrollback_lines@.len() == old(self).scrollback_lines@.len(),
                forall|j: int|
                    0 <= j < i ==> opt_line_eqv(
                        #[trigger] self.scrollback_lines@[j],
                        old(self).actual_lines@[j],
                    ),
                forall|j: int|
                    i <= j < self.scrollback_lines@.len() ==> (
                    #[trigger] self.scrollback_lines@[j]) == old(self).scrollback_lines@[j],
                *self == (RenderedWindow { scrollback_lines: self.scrollback_lines, ..*old(self) }),
            decreases n - i,
        {
            let row = self.actual_lines.get(i as isize).clone();
            proof {
                vstd::arithmetic::div_mod::lemma_small_mod(i as nat, n as nat);
                vstd::arithmetic::div_mod::lemma_small_mod(
                    i as nat,
                    self.scrollback_lines@.len() as nat,
                );
            }
            self.scrollback_lines.set(i as isize, row);
            i += 1;
        }
    }

    /// The eased position between start and target for eased fraction
    /// `f` (thousandths).
    pub open spec fn spec_ease_point(start: GridPos, target: GridPos, f: int) -> GridPos {
        GridPos {
            x: (start.x + (target.x - start.x) * f / (SUBUNIT as int)) as i64,
            y: (start.y + (target.y - start.y) * f / (SUBUNIT as int)) as i64,
        }
    }

    /// The position-animation parameter after one frame of `dt_ms`: past
    /// the end it parks at the stop sentinel, otherwise it advances by
    /// `dt / length` and saturates at one.
    pub open spec fn spec_next_position_t(t: int, dt_ms: int, length_ms: int) -> int {
        if t >= SUBUNIT as int {
            POSITION_DONE as int
        } else {
            let inc = dt_ms * (SUBUNIT as int) / length_ms;
            if t + inc >= SUBUNIT as int {
                SUBUNIT as int
            } else {
                t + inc
            }
        }
    }

    /// Advance the position easing and the scroll spring by one frame.
    /// Returns whether anything is still animating, so the frame loop
    /// knows to schedule another frame.
    pub fn animate(&mut self, settings: &RendererSettings, grid_rect: &GridRect, dt_ms: i64) -> (r:
        bool)
        requires
            old(self).wf(),
            settings.wf(),
            grid_rect.min.in_bounds(),
            grid_rect.max.in_bounds(),
            0 <= dt_ms <= 100_000,
        ensures
            final(self).wf(),
            *final(self) == (RenderedWindow {
                grid_current_position: final(self).grid_current_position,
                position_t: final(self).position_t,
                scroll_animation: final(self).scroll_animation,
                ..*old(self)
            }),
            final(self).position_t == Self::spec_next_position_t(
                old(self).position_t as int,
                dt_ms as int,
                settings.position_animation_length_ms as int,
            ),
            final(self).grid_current_position == Self::spec_ease_point(
                old(self).grid_start_position,
                old(self).spec_target_position(*grid_rect),
                spec_ease_out_expo(final(self).position_t as int),
            ),
            final(self).scroll_animation == crate::animation::spec_spring_update(
                old(self).scroll_animation,
                dt_ms as int,
                settings.scroll_animation_length_ms as int,
            ).0,
            r == (old(self).position_t < SUBUNIT || final(self).grid_current_position != old(self).grid_current_position || crate::animation::spec_spring_update(
                old(self).scroll_animation,
                dt_ms as int,
                settings.scroll_animation_length_ms as int,
            ).1),
    {
        let mut animating = false;
        if self.position_t >= SUBUNIT {
            // at the destination: park the parameter to stop computing
            self.position_t = POSITION_DONE;
        } else {
            animating = true;
            let inc = (dt_ms * SUBUNIT).checked_div_euclid(
                settings.position_animation_length_ms,
            ).unwrap();
            self.position_t = if self.position_t + inc >= SUBUNIT {
                SUBUNIT
            } else {
                self.position_t + inc
            };
        }
        let prev_position = self.grid_current_position;
        let target = self.get_target_position(grid_rect);
        let eased = ease_out_expo(self.position_t);
        let start = self.grid_start_position;
        proof {
            lemma_scale_fraction((target.x - start.x) as int, spec_ease_out_expo(self.position_t as int));
            lemma_scale_fraction((target.y - start.y) as int, spec_ease_out_expo(self.position_t as int));
        }
        self.grid_current_position = GridPos {
            x: start.x + ((target.x - start.x) * eased).checked_div_euclid(SUBUNIT).unwrap(),
            y: start.y + ((target.y - start.y) * eased).checked_div_euclid(SUBUNIT).unwrap(),
        };
        if !(self.grid_current_position == prev_position) {
            animating = true;
        }
        let scrolling = self.scroll_animation.update(dt_ms, settings.scroll_animation_length_ms);
        if scrolling {
            animating = true;
        }
        animating
    }

    /// Re-derive the scroll-exempt margins from row styling, when they
    /// are not explicitly declared: the top margin is the run of border
    /// rows at the top, the bottom margin the run at the bottom of what
    /// remains.
    pub fn infer_viewport_margins(&mut self)
        requires
            old(self).wf(),
        ensures
            final(self).wf(),
            *final(self) == (RenderedWindow {
                viewport_margins: final(self).viewport_margins,
                ..*old(self)
            }),
            !old(self).viewport_margins.inferred ==> final(self).viewport_margins == old(self).viewport_margins,
            old(self).viewport_margins.inferred ==> {
                let lines = old(self).actual_lines@;
                let top = final(self).viewport_margins.top as int;
                let bottom = final(self).viewport_margins.bottom as int;
                &&& final(self).viewport_margins.inferred
                &&& 0 <= top <= lines.len()
                &&& 0 <= bottom <= lines.len() - top
                &&& (forall|i: int| 0 <= i < top ==> spec_is_border_row(#[trigger] lines[i]))
                &&& (top == lines.len() || !spec_is_border_row(lines[top]))
                &&& (forall|i: int|
                    lines.len() - bottom <= i < lines.len() ==> spec_is_border_row(
                        #[trigger] lines[i],
                    ))
                &&& (bottom == lines.len() - top || !spec_is_border_row(
                    lines[lines.len() - bottom - 1],
                ))
            },
    {
        if self.viewport_margins.inferred {
            let len = self.actual_lines.len();
            let mut top: usize = 0;
            while top < len
                invariant
                    0 <= top <= len,
                    len == self.actual_lines@.len(),
                    self == old(self),
                    self.wf(),
                    forall|i: int|
                        0 <= i < top ==> spec_is_border_row(#[trigger] self.actual_lines@[i]),
                ensures
                    top == len || !spec_is_border_row(self.actual_lines@[top as int]),
                decreases len - top,
            {
                proof {
                    vstd::arithmetic::div_mod::lemma_small_mod(top as nat, len as nat);
                }
                let border = match self.actual_lines.get(top as isize) {
                    Some(line) => line.is_inferred_border,
                    None => false,
                };
                if !border {
                    break;
                }
                top += 1;
            }
            let mut bottom: usize = 0;
            while bottom < len - top
                invariant
                    0 <= bottom <= len - top,
                    0 <= top <= len,
                    len == self.actual_lines@.len(),
                    self == old(self),
                    self.wf(),
                    forall|i: int|
                        len - bottom <= i < len ==> spec_is_border_row(
                            #[trigger] self.actual_lines@[i],
                        ),
                ensures
                    bottom == len - top || !spec_is_border_row(
                        self.actual_lines@[len - bottom - 1],
                    ),
                decreases len - top - bottom,
            {
                proof {
                    vstd::arithmetic::div_mod::lemma_small_mod((len - bottom - 1) as nat, len as nat);
                }
                let border = match self.actual_lines.get((len - bottom - 1) as isize) {
                    Some(line) => line.is_inferred_border,
                    None => false,
                };
                if !border {
                    break;
                }
                bottom += 1;
            }
            self.viewport_margins = ViewportMargins { top: top as u64, bottom: bottom as u64, inferred: true };
        }
    }

    /// Copy the inner view (actual rows below the top margin) into the
    /// front of the scrollback ring.
    fn copy_inner_into_scrollback(&mut self, top: usize, inner_size: usize)
        requires
            old(self).wf(),
            top + inner_size <= old(self).actual_lines@.len(),
            inner_size <= old(self).scrollback_lines@.len(),
            old(self).scrollback_lines@.len() > 0,
        ensures
            final(self).wf(),
            *final(self) == (RenderedWindow {
                scrollback_lines: final(self).scrollback_lines,
                ..*old(self)
            }),
            final(self).scrollback_lines@.len() == old(self).scrollback_lines@.len(),
            forall|i: int|
                0 <= i < inner_size ==> opt_line_eqv(
                    #[trigger] final(self).scrollback_lines@[i],
                    old(self).actual_lines@[top + i],
                ),
            forall|i: int|
                inner_size <= i < old(self).scrollback_lines@.len() ==> final(self).scrollback_lines@[i] == old(self).scrollback_lines@[i],
    {
        let mut i: usize = 0;
        while i < inner_size
            invariant
                i <= inner_size,
                top + inner_size <= self.actual_lines@.len(),
                inner_size <= self.scrollback_lines@.len(),
                self.scrollback_lines@.len() > 0,
                self.wf(),
                *self == (RenderedWindow { scrollback_lines: self.scrollback_lines, ..*old(self) }),
                self.scrollback_lines@.len() == old(self).scrollback_lines@.len(),
                forall|j: int|
                    0 <= j < i ==> opt_line_eqv(
                        #[trigger] self.scrollback_lines@[j],
                        old(self).actual_lines@[top + j],
                    ),
                forall|j: int|
                    i <= j < self.scrollback_lines@.len() ==> (
                    #[trigger] self.scrollback_lines@[j]) == old(self).scrollback_lines@[j],
            decreases inner_size - i,
        {
            proof {
                vstd::arithmetic::div_mod::lemma_small_mod(
                    (top + i) as nat,
                    self.actual_lines@.len() as nat,
                );
                vstd::arithmetic::div_mod::lemma_small_mod(
                    i as nat,
                    self.scrollback_lines@.len() as nat,
                );
            }
            let row = self.actual_lines.get((top + i) as isize).clone();
            self.scrollback_lines.set(i as isize, row);
            i += 1;
        }
    }

    /// Was ring slot `i` cleared by the bounded far jump: it lies in the
    /// stretch of `far` rows just outside the viewport in the scroll
    /// direction.
    pub open spec fn spec_far_emptied(
        i: int,
        delta: int,
        far: int,
        actual_len: int,
        n: int,
    ) -> bool {
        if delta > 0 {
            exists|j: int|
                -far <= j < 0 && crate::ring_buffer::wrap_index(j, n) == i
        } else {
            exists|j: int|
                actual_len <= j < actual_len + far && crate::ring_buffer::wrap_index(j, n) == i
        }
    }

    /// Fold the pending scroll into the scrollback ring and resync it
    /// from the actual rows, once per protocol frame.
    ///
    /// Margins are resolved first; if they changed the ring is resized to
    /// twice the inner height and all scroll state resets. Otherwise the
    /// ring rotates by the pending delta and the spring target moves by
    /// `-delta`, clamped to what the ring can show; a delta beyond that
    /// pre-seeds only `far_lines` rows of history (clearing them) and
    /// makes a short bounded jump instead of an unbounded one.
    #[verifier::rlimit(100)]
    pub fn flush(&mut self, settings: &RendererSettings)
        requires
            old(self).wf(),
            settings.wf(),
        ensures
            final(self).wf(),
            *final(self) == (RenderedWindow {
                scrollback_lines: final(self).scrollback_lines,
                scroll_delta: 0,
                scroll_animation: final(self).scroll_animation,
                viewport_margins: final(self).viewport_margins,
                ..*old(self)
            }),
            final(self).scroll_delta == 0,
            !old(self).viewport_margins.inferred ==> final(self).viewport_margins == old(self).viewport_margins,
            ({
                let lines = old(self).actual_lines@;
                let len = lines.len() as int;
                let mtop = final(self).viewport_margins.top as int;
                let mbottom = final(self).viewport_margins.bottom as int;
                let top = if mtop <= len {
                    mtop
                } else {
                    len
                };
                let bottom = if mbottom <= len - top {
                    mbottom
                } else {
                    len - top
                };
                let inner = len - top - bottom;
                let n = 2 * inner;
                let delta = old(self).scroll_delta as int;
                let far0 = settings.scroll_animation_far_lines as int;
                let far = if far0 <= len {
                    far0
                } else {
                    len
                };
                let max_delta = if n - old(self).grid_size.height >= 0 {
                    n - old(self).grid_size.height
                } else {
                    0
                };
                let resized = n != old(self).scrollback_lines@.len();
                &&& final(self).scrollback_lines@.len() == n
                &&& (resized ==> {
                    &&& (forall|i: int|
                        0 <= i < inner ==> opt_line_eqv(
                            #[trigger] final(self).scrollback_lines@[i],
                            lines[top + i],
                        ))
                    &&& (forall|i: int|
                        inner <= i < n ==> (#[trigger] final(self).scrollback_lines@[i]) is None)
                    &&& final(self).scroll_animation.position == 0
                    &&& final(self).scroll_animation.velocity == 0
                })
                &&& (!resized && (delta == 0 || -max_delta <= delta <= max_delta) ==> {
                    &&& (forall|i: int|
                        0 <= i < inner ==> opt_line_eqv(
                            #[trigger] final(self).scrollback_lines@[i],
                            lines[top + i],
                        ))
                    &&& (n > 0 ==> forall|i: int|
                        inner <= i < n ==> (#[trigger] final(self).scrollback_lines@[i]) == old(self).scrollback_lines@[crate::ring_buffer::wrap_index(i + delta, n)])
                    &&& final(self).scroll_animation.velocity == old(self).scroll_animation.velocity
                    &&& (delta == 0 ==> final(self).scroll_animation.position == old(self).scroll_animation.position)
                    &&& (delta != 0 ==> final(self).scroll_animation.position
                        == crate::fixed::spec_clamp(
                        old(self).scroll_animation.position - delta * (SUBUNIT as int),
                        -(if max_delta * (SUBUNIT as int) <= crate::animation::SPRING_LIMIT as int {
                            max_delta * (SUBUNIT as int)
                        } else {
                            crate::animation::SPRING_LIMIT as int
                        }),
                        (if max_delta * (SUBUNIT as int) <= crate::animation::SPRING_LIMIT as int {
                            max_delta * (SUBUNIT as int)
                        } else {
                            crate::animation::SPRING_LIMIT as int
                        }),
                    ))
                })
                &&& (!resized && delta != 0 && !(-max_delta <= delta <= max_delta) ==> {
                    // the bounded far jump: the spring lands within
                    // far rows of the target, never at the raw delta
                    &&& final(self).scroll_animation.position == (if delta > 0 {
                        -far * (SUBUNIT as int)
                    } else {
                        far * (SUBUNIT as int)
                    })
                    &&& -far * (SUBUNIT as int) <= final(self).scroll_animation.position <= far * (
                    SUBUNIT as int)
                    &&& final(self).scroll_animation.velocity == old(self).scroll_animation.velocity
                    &&& (forall|i: int|
                        0 <= i < inner && !Self::spec_far_emptied(i, delta, far, len, n) ==> opt_line_eqv(
                            #[trigger] final(self).scrollback_lines@[i],
                            lines[top + i],
                        ))
                    &&& (forall|i: int|
                        0 <= i < n && Self::spec_far_emptied(i, delta, far, len, n) ==> (
                        #[trigger] final(self).scrollback_lines@[i]) is None)
                    &&& (n > 0 ==> forall|i: int|
                        inner <= i < n && !Self::spec_far_emptied(i, delta, far, len, n) ==> (
                        #[trigger] final(self).scrollback_lines@[i]) == old(self).scrollback_lines@[crate::ring_buffer::wrap_index(i + delta, n)])
                })
            }),
    {
        self.infer_viewport_margins();
        let len = self.actual_lines.len();
        let mtop = self.viewport_margins.top;
        let top: usize = if mtop <= len as u64 {
            mtop as usize
        } else {
            len
        };
        let mbottom = self.viewport_margins.bottom;
        let bottom: usize = if mbottom <= (len - top) as u64 {
            mbottom as usize
        } else {
            len - top
        };
        let inner_size = len - top - bottom;
        if 2 * inner_size != self.scrollback_lines.len() {
            // margins changed: fit the ring to the inner view only, with
            // no stale history in the new ring
            self.scrollback_lines.resize(2 * inner_size, None);
            if inner_size > 0 {
            let ghost wpre = *self;
            let mut j: usize = inner_size;
            while j < 2 * inner_size
                invariant
                    inner_size <= j <= 2 * inner_size,
                    2 * inner_size <= 0x20_0000,
                    self.scrollback_lines@.len() == 2 * inner_size,
                    2 * inner_size > 0,
                    self.scrollback_lines.inv(),
                    *self == (RenderedWindow {
                        scrollback_lines: self.scrollback_lines,
                        ..wpre
                    }),
                    forall|i: int|
                        inner_size <= i < j ==> (#[trigger] self.scrollback_lines@[i]) is None,
                    forall|i: int|
                        0 <= i < inner_size || j <= i < 2 * inner_size ==> (
                        #[trigger] self.scrollback_lines@[i]) == wpre.scrollback_lines@[i],
                decreases 2 * inner_size - j,
            {
                proof {
                    vstd::arithmetic::div_mod::lemma_small_mod(
                        j as nat,
                        (2 * inner_size) as nat,
                    );
                }
                self.scrollback_lines.set(j as isize, None);
                j += 1;
            }
            self.copy_inner_into_scrollback(top, inner_size);
            }
            self.scroll_delta = 0;
            self.scroll_animation.reset();
            return;
        }
        let scroll_delta = self.scroll_delta;
        self.scrollback_lines.rotate(scroll_delta as isize);
        if inner_size > 0 {
            self.copy_inner_into_scrollback(top, inner_size);
        }
        if scroll_delta != 0 {
            let n = self.scrollback_lines.len();
            let height = self.grid_size.height as i64;
            let max_delta: i64 = if n as i64 - height >= 0 {
                n as i64 - height
            } else {
                0
            };
            let abs_delta: i64 = if scroll_delta >= 0 {
                scroll_delta
            } else {
                -scroll_delta
            };
            if abs_delta > max_delta {
                // Do a limited scroll with empty lines when scrolling far
                let far0 = settings.scroll_animation_far_lines as i64;
                let far: i64 = if far0 <= len as i64 {
                    far0
                } else {
                    len as i64
                };
                if n > 0 {
                    let ghost wpre = *self;
                    if scroll_delta > 0 {
                        let mut j: i64 = -far;
                        while j < 0
                            invariant
                                -far <= j <= 0,
                                0 <= far <= 0x10_0000,
                                n == self.scrollback_lines@.len(),
                                n > 0,
                                self.scrollback_lines.inv(),
                                *self == (RenderedWindow {
                                    scrollback_lines: self.scrollback_lines,
                                    ..wpre
                                }),
                                forall|i: int|
                                    0 <= i < n && (exists|j2: int|
                                        -far <= j2 < j && crate::ring_buffer::wrap_index(
                                            j2,
                                            n as int,
                                        ) == i) ==> (#[trigger] self.scrollback_lines@[i])
                                        is None,
                                forall|i: int|
                                    0 <= i < n && !(exists|j2: int|
                                        -far <= j2 < j && crate::ring_buffer::wrap_index(
                                            j2,
                                            n as int,
                                        ) == i) ==> (#[trigger] self.scrollback_lines@[i])
                                        == wpre.scrollback_lines@[i],
                            decreases 0 - j,
                        {
                            self.scrollback_lines.set(j as isize, None);
                            j += 1;
                        }
                    } else {
                        let mut j: i64 = len as i64;
                        while j < len as i64 + far
                            invariant
                                len as i64 <= j <= len as i64 + far,
                                0 <= far <= 0x10_0000,
                                len <= 0x10_0000,
                                n == self.scrollback_lines@.len(),
                                n > 0,
                                self.scrollback_lines.inv(),
                                *self == (RenderedWindow {
                                    scrollback_lines: self.scrollback_lines,
                                    ..wpre
                                }),
                                forall|i: int|
                                    0 <= i < n && (exists|j2: int|
                                        len <= j2 < j && crate::ring_buffer::wrap_index(
                                            j2,
                                            n as int,
                                        ) == i) ==> (#[trigger] self.scrollback_lines@[i])
                                        is None,
                                forall|i: int|
                                    0 <= i < n && !(exists|j2: int|
                                        len <= j2 < j && crate::ring_buffer::wrap_index(
                                            j2,
                                            n as int,
                                        ) == i) ==> (#[trigger] self.scrollback_lines@[i])
                                        == wpre.scrollback_lines@[i],
                            decreases len as i64 + far - j,
                        {
                            self.scrollback_lines.set(j as isize, None);
                            j += 1;
                        }
                    }
                }
                self.scroll_animation.position = if scroll_delta > 0 {
                    -far * SUBUNIT
                } else {
                    far * SUBUNIT
                };
            } else {
                let bound: i64 = if max_delta * SUBUNIT <= crate::animation::SPRING_LIMIT {
                    max_delta * SUBUNIT
                } else {
                    crate::animation::SPRING_LIMIT
                };
                let adjusted = self.scroll_animation.position - scroll_delta * SUBUNIT;
                self.scroll_animation.position = crate::fixed::clamp_i64(
                    adjusted,
                    -bound,
                    bound,
                );
            }
        }
        self.scroll_delta = 0;
    }

    /// Rebuild one invalid row in place: run the background and
    /// foreground decisions over its fragments and record the pictures.
    fn rebuild_line(
        line: &mut Line,
        grid_renderer: &crate::grid_renderer::GridRenderer,
        base_id: u64,
    )
        requires
            !old(line).is_valid,
            base_id + 2 <= u64::MAX,
        ensures
            spec_rebuilt_line(
                *final(line),
                *old(line),
                grid_renderer.default_colors,
                grid_renderer.debug_renderer,
                base_id as int,
                base_id + 2,
            ),
    {
        let n = line.line_fragments.len();
        let mut custom_background = false;
        let mut has_transparency = false;
        let mut foreground_drawn = false;
        let mut i: usize = 0;
        while i < n
            invariant
                i <= n,
                n == line.line_fragments@.len(),
                *line == *old(line),
                custom_background == (exists|j: int|
                    0 <= j < i && crate::grid_renderer::spec_frag_custom_background(
                        (#[trigger] line.line_fragments@[j]).style,
                        grid_renderer.default_colors,
                        grid_renderer.debug_renderer,
                    )),
                has_transparency == (exists|j: int|
                    0 <= j < i && crate::grid_renderer::spec_frag_transparent(
                        (#[trigger] line.line_fragments@[j]).style,
                    )),
                foreground_drawn == (exists|j: int|
                    0 <= j < i && crate::grid_renderer::spec_frag_foreground_drawn(
                        (#[trigger] line.line_fragments@[j]).text@,
                        line.line_fragments@[j].style,
                    )),
            decreases n - i,
        {
            let background_info = grid_renderer.draw_background(&line.line_fragments[i].style);
            if background_info.custom_color {
                custom_background = true;
            }
            if background_info.transparent {
                has_transparency = true;
            }
            let drawn = grid_renderer.draw_foreground(
                line.line_fragments[i].text.as_str(),
                &line.line_fragments[i].style,
            );
            if drawn {
                foreground_drawn = true;
            }
            i += 1;
        }
        line.background_picture = if custom_background {
            Some(Picture { build_id: base_id })
        } else {
            None
        };
        line.foreground_picture = if foreground_drawn {
            Some(Picture { build_id: base_id + 1 })
        } else {
            None
        };
        line.has_transparency = has_transparency;
        line.is_valid = true;
    }

    /// Is scrollback ring slot `idx` part of the view this frame: some
    /// visible row (the animated window plus one) lands on it.
    pub open spec fn spec_visible_slot(&self, idx: int) -> bool {
        exists|i: int|
            0 <= i <= self.grid_size.height && #[trigger] crate::ring_buffer::wrap_index(
                crate::fixed::spec_floor_units(self.scroll_animation.position as int) + i,
                self.scrollback_lines@.len() as int,
            ) == idx
    }

    /// Is actual-grid slot `idx` a margin (border) row under the current
    /// margins, clamped to the grid height?
    pub open spec fn spec_border_slot(&self, idx: int) -> bool {
        let len = self.actual_lines@.len() as int;
        let top = if self.viewport_margins.top <= len {
            self.viewport_margins.top as int
        } else {
            len
        };
        let bottom = if self.viewport_margins.bottom <= len - top {
            self.viewport_margins.bottom as int
        } else {
            len - top
        };
        idx < top || idx >= len - bottom
    }

    /// Lazily rebuild the cached pictures of every row that will be
    /// visible this frame: the animated scroll window of the scrollback
    /// ring plus the margin rows of the actual grid. Rows already valid
    /// keep their pictures untouched, so a second call right after is a
    /// no-op on the caches; rows outside the view are left alone. The
    /// caches live in the ring, so a body row stays cached until the
    /// next flush re-clones its (still unprepared) actual-grid source.
    #[verifier::rlimit(60)]
    pub fn prepare_lines(&mut self, grid_renderer: &crate::grid_renderer::GridRenderer)
        requires
            old(self).wf(),
            old(self).build_counter + 0x1_0000_0000 < u64::MAX,
        ensures
            final(self).wf(),
            *final(self) == (RenderedWindow {
                scrollback_lines: final(self).scrollback_lines,
                actual_lines: final(self).actual_lines,
                build_counter: final(self).build_counter,
                ..*old(self)
            }),
            final(self).build_counter >= old(self).build_counter,
            final(self).build_counter <= old(self).build_counter + 0x1_0000_0000,
            final(self).scrollback_lines@.len() == old(self).scrollback_lines@.len(),
            final(self).actual_lines@.len() == old(self).actual_lines@.len(),
            // visible ring slots are prepared; all other ring slots are untouched
            forall|idx: int|
                0 <= idx < old(self).scrollback_lines@.len() && old(self).spec_visible_slot(idx)
                    ==> spec_prepared_slot(
                    #[trigger] final(self).scrollback_lines@[idx],
                    old(self).scrollback_lines@[idx],
                    grid_renderer.default_colors,
                    grid_renderer.debug_renderer,
                    old(self).build_counter as int,
                    final(self).build_counter as int,
                ),
            forall|idx: int|
                0 <= idx < old(self).scrollback_lines@.len() && !old(self).spec_visible_slot(idx)
                    ==> (#[trigger] final(self).scrollback_lines@[idx]) == old(self).scrollback_lines@[idx],
            // after the call every visible slot holds no invalid row
            forall|idx: int|
                0 <= idx < final(self).scrollback_lines@.len() && old(self).spec_visible_slot(idx)
                    ==> ((#[trigger] final(self).scrollback_lines@[idx]) matches Some(l) ==> l.is_valid),
            // margin rows of the actual grid are prepared too
            forall|idx: int|
                0 <= idx < old(self).actual_lines@.len() && old(self).spec_border_slot(idx)
                    ==> spec_prepared_slot(
                    #[trigger] final(self).actual_lines@[idx],
                    old(self).actual_lines@[idx],
                    grid_renderer.default_colors,
                    grid_renderer.debug_renderer,
                    old(self).build_counter as int,
                    final(self).build_counter as int,
                ),
            forall|idx: int|
                0 <= idx < old(self).actual_lines@.len() && !old(self).spec_border_slot(idx)
                    ==> (#[trigger] final(self).actual_lines@[idx]) == old(self).actual_lines@[idx],
    {
        let scroll_offset_lines = crate::fixed::floor_units(self.scroll_animation.position);
        let height = self.grid_size.height as i64;
        let ghost pre = *old(self);
        let n = self.scrollback_lines.len();
        if n > 0 {
            let mut i: i64 = 0;
            while i < height + 1
                invariant
                    0 <= i <= height + 1,
                    height == pre.grid_size.height,
                    scroll_offset_lines == crate::fixed::spec_floor_units(
                        pre.scroll_animation.position as int,
                    ),
                    -crate::animation::SPRING_LIMIT <= scroll_offset_lines
                        <= crate::animation::SPRING_LIMIT,
                    n == self.scrollback_lines@.len(),
                    n > 0,
                    pre.wf(),
                    self.wf(),
                    *self == (RenderedWindow {
                        scrollback_lines: self.scrollback_lines,
                        build_counter: self.build_counter,
                        ..pre
                    }),
                    self.build_counter >= pre.build_counter,
                    self.build_counter <= pre.build_counter + 2 * i,
                    pre.build_counter + 0x1_0000_0000 < u64::MAX,
                    forall|idx: int|
                        0 <= idx < n && (exists|k: int|
                            0 <= k < i && #[trigger] crate::ring_buffer::wrap_index(
                                scroll_offset_lines + k,
                                n as int,
                            ) == idx) ==> spec_prepared_slot(
                            #[trigger] self.scrollback_lines@[idx],
                            pre.scrollback_lines@[idx],
                            grid_renderer.default_colors,
                            grid_renderer.debug_renderer,
                            pre.build_counter as int,
                            self.build_counter as int,
                        ),
                    forall|idx: int|
                        0 <= idx < n && !(exists|k: int|
                            0 <= k < i && #[trigger] crate::ring_buffer::wrap_index(
                                scroll_offset_lines + k,
                                n as int,
                            ) == idx) ==> (#[trigger] self.scrollback_lines@[idx]) == pre.scrollback_lines@[idx],
                    forall|idx: int|
                        0 <= idx < n && (exists|k: int|
                            0 <= k < i && #[trigger] crate::ring_buffer::wrap_index(
                                scroll_offset_lines + k,
                                n as int,
                            ) == idx) ==> ((#[trigger] self.scrollback_lines@[idx]) matches Some(
                            l,
                        ) ==> l.is_valid),
                decreases height + 1 - i,
            {
                let base_id = self.build_counter;
                let slot = self.scrollback_lines.get_mut((scroll_offset_lines + i) as isize);
                let mut rebuilt = false;
                match slot {
                    Some(line) => {
                        if !line.is_valid {
                            Self::rebuild_line(line, grid_renderer, base_id);
                            rebuilt = true;
                        }
                    },
                    None => {},
                }
                if rebuilt {
                    self.build_counter = self.build_counter + 2;
                }
                i += 1;
            }
        }
        let ghost mid_counter = self.build_counter as int;
        let len = self.actual_lines.len();
        let top: usize = if self.viewport_margins.top <= len as u64 {
            self.viewport_margins.top as usize
        } else {
            len
        };
        let bottom: usize = if self.viewport_margins.bottom <= (len - top) as u64 {
            self.viewport_margins.bottom as usize
        } else {
            len - top
        };
        let ghost mid = *self;
        let mut b: usize = 0;
        while b < top
            invariant
                b <= top,
                top <= len,
                bottom <= len - top,
                len == self.actual_lines@.len(),
                len > 0 || top == 0,
                mid.wf(),
                self.wf(),
                *self == (RenderedWindow {
                    actual_lines: self.actual_lines,
                    build_counter: self.build_counter,
                    ..mid
                }),
                self.build_counter >= mid.build_counter,
                self.build_counter <= mid.build_counter + 2 * b,
                mid.build_counter + 0x1000_0000 < u64::MAX,
                mid.build_counter >= pre.build_counter,
                forall|idx: int|
                    0 <= idx < b ==> spec_prepared_slot(
                        #[trigger] self.actual_lines@[idx],
                        mid.actual_lines@[idx],
                        grid_renderer.default_colors,
                        grid_renderer.debug_renderer,
                        mid.build_counter as int,
                        self.build_counter as int,
                    ),
                forall|idx: int|
                    b <= idx < len ==> (#[trigger] self.actual_lines@[idx]) == mid.actual_lines@[idx],
            decreases top - b,
        {
            proof {
                vstd::arithmetic::div_mod::lemma_small_mod(b as nat, len as nat);
            }
            let base_id = self.build_counter;
            let slot = self.actual_lines.get_mut(b as isize);
            let mut rebuilt = false;
            match slot {
                Some(line) => {
                    if !line.is_valid {
                        Self::rebuild_line(line, grid_renderer, base_id);
                        rebuilt = true;
                    }
                },
                None => {},
            }
            if rebuilt {
                self.build_counter = self.build_counter + 2;
            }
            b += 1;
        }
        let ghost mid2 = *self;
        let mut c: usize = len - bottom;
        while c < len
            invariant
                len - bottom <= c <= len,
                top <= len - bottom,
                len == self.actual_lines@.len(),
                mid2.wf(),
                self.wf(),
                *self == (RenderedWindow {
                    actual_lines: self.actual_lines,
                    build_counter: self.build_counter,
                    ..mid2
                }),
                self.build_counter >= mid2.build_counter,
                self.build_counter <= mid2.build_counter + 2 * (c - (len - bottom)),
                mid2.build_counter + 0x100_0000 < u64::MAX,
                mid2.build_counter >= mid.build_counter,
                forall|idx: int|
                    len - bottom <= idx < c ==> spec_prepared_slot(
                        #[trigger] self.actual_lines@[idx],
                        mid2.actual_lines@[idx],
                        grid_renderer.default_colors,
                        grid_renderer.debug_renderer,
                        mid2.build_counter as int,
                        self.build_counter as int,
                    ),
                forall|idx: int|
                    (0 <= idx < len - bottom || c <= idx < len) ==> (
                    #[trigger] self.actual_lines@[idx]) == mid2.actual_lines@[idx],
            decreases len - c,
        {
            proof {
                vstd::arithmetic::div_mod::lemma_small_mod(c as nat, len as nat);
            }
            let base_id = self.build_counter;
            let slot = self.actual_lines.get_mut(c as isize);
            let mut rebuilt = false;
            match slot {
                Some(line) => {
                    if !line.is_valid {
                        Self::rebuild_line(line, grid_renderer, base_id);
                        rebuilt = true;
                    }
                },
                None => {},
            }
            if rebuilt {
                self.build_counter = self.build_counter + 2;
            }
            c += 1;
        }
    }

    /// Pixel offset (thousandths) of the sub-row scroll position: how far
    /// below the row grid the view currently sits.
    pub open spec fn spec_scroll_offset_pixels(&self, cell_height: int) -> int {
        (crate::fixed::spec_floor_units(self.scroll_animation.position as int) * (SUBUNIT as int)
            - self.scroll_animation.position) * cell_height / (SUBUNIT as int)
    }

    /// Where visible row `i` of the scroll window is drawn.
    pub open spec fn spec_body_row_y(&self, region_top: int, cell_height: int, i: int) -> int {
        region_top + self.spec_scroll_offset_pixels(cell_height) + (i
            + self.viewport_margins.top) * cell_height
    }

    /// Where border row `idx` of the actual grid is drawn.
    pub open spec fn spec_border_row_y(&self, region_top: int, cell_height: int, idx: int) -> int {
        region_top + idx * cell_height
    }

    /// Emit this window's draw instructions for one frame: a drop shadow
    /// (unless another floating window already covers the same
    /// rectangle), a backdrop blur when transparent, the background
    /// fill, and every cached row picture — backgrounds before
    /// foregrounds, border rows unclipped, body rows clipped to the
    /// inner viewport. Returns the drawn rectangle and id.
    #[verifier::rlimit(100)]
    pub fn draw(
        &mut self,
        settings: &RendererSettings,
        grid_scale: crate::units::GridScale,
        default_background_opaque: bool,
        previous_floating_rects: &mut Vec<crate::units::PixelRect>,
        ops: &mut Vec<DrawOp>,
    ) -> (r: WindowDrawDetails)
        requires
            old(self).wf(),
            settings.wf(),
            grid_scale.in_bounds(),
            old(ops)@.len() < usize::MAX - 0x100_0000,
            old(previous_floating_rects)@.len() < usize::MAX - 1,
        ensures
            final(self).wf(),
            *final(self) == (RenderedWindow {
                has_transparency: final(self).has_transparency,
                ..*old(self)
            }),
            r.id == old(self).id,
            r.region == crate::units::spec_grid_to_pixel(old(self).spec_grid_rect(), grid_scale),
            // instructions are only appended
            final(ops)@.len() >= old(ops)@.len(),
            final(ops)@.len() <= old(ops)@.len() + 0x100_0000,
            final(ops)@.subrange(0, old(ops)@.len() as int) == old(ops)@,
            // the shadow comes first, exactly when this floating window
            // is not nested inside an already drawn floating rectangle
            ({
                let wants_shadow = old(self).anchor_info is Some && settings.floating_shadow
                    && !(exists|k: int|
                    0 <= k < old(previous_floating_rects)@.len() && spec_rect_contains(
                        #[trigger] old(previous_floating_rects)@[k],
                        r.region,
                    ));
                if wants_shadow {
                    &&& final(ops)@.len() > old(ops)@.len()
                    &&& final(ops)@[old(ops)@.len() as int] == (DrawOp::Shadow {
                        region: r.region,
                    })
                    &&& final(previous_floating_rects)@ == old(previous_floating_rects)@.push(
                        r.region,
                    )
                } else {
                    final(previous_floating_rects)@ == old(previous_floating_rects)@
                }
            }),
            // the window rectangle is always filled
            exists|k: int|
                old(ops)@.len() <= k < final(ops)@.len() && final(ops)@[k] == (
                DrawOp::FillBackground { region: r.region, opaque: default_background_opaque && old(self).anchor_info is None }),
            // every cached picture of a visible body row is replayed
            forall|i: int|
                #![trigger crate::ring_buffer::wrap_index(crate::fixed::spec_floor_units(old(self).scroll_animation.position as int) + i, old(self).scrollback_lines@.len() as int)]
                0 <= i <= old(self).grid_size.height && old(self).scrollback_lines@.len() > 0
                    ==> ({
                    let idx = crate::ring_buffer::wrap_index(
                        crate::fixed::spec_floor_units(old(self).scroll_animation.position as int)
                            + i,
                        old(self).scrollback_lines@.len() as int,
                    );
                    old(self).scrollback_lines@[idx] matches Some(l) ==> {
                        &&& (l.background_picture matches Some(p) ==> spec_ops_has_picture(
                            final(ops)@,
                            old(ops)@.len() as int,
                            p.build_id,
                            r.region.left,
                            old(self).spec_body_row_y(
                                r.region.top as int,
                                grid_scale.height as int,
                                i,
                            ),
                            false,
                            true,
                        ))
                        &&& (l.foreground_picture matches Some(p) ==> spec_ops_has_picture(
                            final(ops)@,
                            old(ops)@.len() as int,
                            p.build_id,
                            r.region.left,
                            old(self).spec_body_row_y(
                                r.region.top as int,
                                grid_scale.height as int,
                                i,
                            ),
                            true,
                            true,
                        ))
                    }
                }),
    {
        let pixel_region = self.pixel_region(grid_scale);
        let details = WindowDrawDetails { id: self.id, region: pixel_region };
        // shadow, suppressed when nested inside an earlier floating rect
        if self.anchor_info.is_some() && settings.floating_shadow {
            let mut covered = false;
            let m = previous_floating_rects.len();
            let mut k: usize = 0;
            while k < m
                invariant
                    k <= m,
                    m == previous_floating_rects@.len(),
                    covered == (exists|j: int|
                        0 <= j < k && spec_rect_contains(
                            #[trigger] previous_floating_rects@[j],
                            pixel_region,
                        )),
                decreases m - k,
            {
                if previous_floating_rects[k].contains_rect(&pixel_region) {
                    covered = true;
                }
                k += 1;
            }
            if !covered {
                ops.push(DrawOp::Shadow { region: pixel_region });
                previous_floating_rects.push(pixel_region);
            }
        }
        let ghost prev_after = previous_floating_rects@;
        // backdrop blur for transparent floating windows
        let mut any_transparency = false;
        let n = self.scrollback_lines.len();
        let height = self.grid_size.height as i64;
        let scroll_offset_lines = crate::fixed::floor_units(self.scroll_animation.position);
        if n > 0 {
            let mut i: i64 = 0;
            while i < height + 1
                invariant
                    0 <= i <= height + 1,
                    n == self.scrollback_lines@.len(),
                    n > 0,
                    self.wf(),
                    self == old(self),
                    -crate::animation::SPRING_LIMIT <= scroll_offset_lines
                        <= crate::animation::SPRING_LIMIT,
                    height == self.grid_size.height,
                decreases height + 1 - i,
            {
                match self.scrollback_lines.get((scroll_offset_lines + i) as isize) {
                    Some(line) => {
                        if line.has_transparency {
                            any_transparency = true;
                        }
                    },
                    None => {},
                }
                i += 1;
            }
        }
        if self.anchor_info.is_some() && any_transparency && settings.floating_blur {
            ops.push(DrawOp::BackdropBlur { region: pixel_region });
        }
        // base fill: the opaque editor window replaces, floats blend
        ops.push(
            DrawOp::FillBackground {
                region: pixel_region,
                opaque: default_background_opaque && self.anchor_info.is_none(),
            },
        );
        let ghost ops_base = ops@;
        // border rows first (unclipped), in two margin stretches
        let len = self.actual_lines.len();
        let top: usize = if self.viewport_margins.top <= len as u64 {
            self.viewport_margins.top as usize
        } else {
            len
        };
        let bottom: usize = if self.viewport_margins.bottom <= (len - top) as u64 {
            self.viewport_margins.bottom as usize
        } else {
            len - top
        };
        let mut b: usize = 0;
        while b < top
            invariant
                b <= top,
                top <= len,
                len == self.actual_lines@.len(),
                self.wf(),
                self == old(self),
                grid_scale.in_bounds(),
                ops@.len() <= old(ops)@.len() + 0x60_0000 + 3 + 2 * b,
                old(ops)@.len() < usize::MAX - 0x100_0000,
                ops@.len() >= ops_base.len(),
                ops_base.len() >= old(ops)@.len(),
                ops@.subrange(0, ops_base.len() as int) == ops_base,
                ops@.subrange(0, old(ops)@.len() as int) == old(ops)@,
                pixel_region.in_bounds(),
                previous_floating_rects@ == prev_after,
            decreases top - b,
        {
            proof {
                vstd::arithmetic::div_mod::lemma_small_mod(b as nat, len as nat);
                crate::fixed::lemma_mul_abs_bound(
                    b as int,
                    grid_scale.height as int,
                    0x10_0000,
                    0x10_0000,
                );
            }
            match self.actual_lines.get(b as isize) {
                Some(line) => {
                    let y = pixel_region.top + (b as i64) * grid_scale.height;
                    match &line.background_picture {
                        Some(p) => {
                            ops.push(
                                DrawOp::Picture {
                                    build_id: p.build_id,
                                    x: pixel_region.left,
                                    y,
                                    foreground: false,
                                    clipped: false,
                                },
                            );
                        },
                        None => {},
                    }
                    match &line.foreground_picture {
                        Some(p) => {
                            ops.push(
                                DrawOp::Picture {
                                    build_id: p.build_id,
                                    x: pixel_region.left,
                                    y,
                                    foreground: true,
                                    clipped: false,
                                },
                            );
                        },
                        None => {},
                    }
                },
                None => {},
            }
            b += 1;
        }
        let mut c: usize = len - bottom;
        while c < len
            invariant
                len - bottom <= c <= len,
                len == self.actual_lines@.len(),
                self.wf(),
                self == old(self),
                grid_scale.in_bounds(),
                ops@.len() <= old(ops)@.len() + 0x80_0000 + 3 + 2 * c,
                old(ops)@.len() < usize::MAX - 0x100_0000,
                ops@.len() >= ops_base.len(),
                ops_base.len() >= old(ops)@.len(),
                ops@.subrange(0, ops_base.len() as int) == ops_base,
                ops@.subrange(0, old(ops)@.len() as int) == old(ops)@,
                pixel_region.in_bounds(),
                previous_floating_rects@ == prev_after,
            decreases len - c,
        {
            proof {
                vstd::arithmetic::div_mod::lemma_small_mod(c as nat, len as nat);
                crate::fixed::lemma_mul_abs_bound(
                    c as int,
                    grid_scale.height as int,
                    0x10_0000,
                    0x10_0000,
                );
            }
            match self.actual_lines.get(c as isize) {
                Some(line) => {
                    let y = pixel_region.top + (c as i64) * grid_scale.height;
                    match &line.background_picture {
                        Some(p) => {
                            ops.push(
                                DrawOp::Picture {
                                    build_id: p.build_id,
                                    x: pixel_region.left,
                                    y,
                                    foreground: false,
                                    clipped: false,
                                },
                            );
                        },
                        None => {},
                    }
                    match &line.foreground_picture {
                        Some(p) => {
                            ops.push(
                                DrawOp::Picture {
                                    build_id: p.build_id,
                                    x: pixel_region.left,
                                    y,
                                    foreground: true,
                                    clipped: false,
                                },
                            );
                        },
                        None => {},
                    }
                },
                None => {},
            }
            c += 1;
        }
        // body rows of the animated scroll window, clipped to the inner
        // viewport: backgrounds then foregrounds
        let sub_row = crate::fixed::floor_subunits(self.scroll_animation.position)
            - self.scroll_animation.position;
        proof {
            crate::fixed::lemma_mul_abs_bound(
                sub_row as int,
                grid_scale.height as int,
                SUBUNIT as int,
                crate::units::SCALE_LIMIT as int,
            );
        }
        let scroll_offset_pixels = (sub_row * grid_scale.height).checked_div_euclid(
            SUBUNIT,
        ).unwrap();
        proof {
            vstd::arithmetic::div_mod::lemma_div_is_ordered(
                -(SUBUNIT as int) * (crate::units::SCALE_LIMIT as int),
                sub_row * grid_scale.height,
                SUBUNIT as int,
            );
            vstd::arithmetic::div_mod::lemma_div_is_ordered(
                sub_row * grid_scale.height,
                (SUBUNIT as int) * (crate::units::SCALE_LIMIT as int),
                SUBUNIT as int,
            );
        }
        if n > 0 {
            let mut pass: u8 = 0;
            while pass < 2
                invariant
                    pass <= 2,
                    n == self.scrollback_lines@.len(),
                    n > 0,
                    self.wf(),
                    self == old(self),
                    grid_scale.in_bounds(),
                    height == self.grid_size.height,
                    -crate::animation::SPRING_LIMIT <= scroll_offset_lines
                        <= crate::animation::SPRING_LIMIT,
                    scroll_offset_pixels as int == self.spec_scroll_offset_pixels(
                        grid_scale.height as int,
                    ),
                    ops@.len() <= old(ops)@.len() + 0x80_0000 + 3 + 2 * self.actual_lines@.len()
                        + (pass as int) * 0x20_0002,
                    old(ops)@.len() < usize::MAX - 0x100_0000,
                    ops@.len() >= ops_base.len(),
                    ops_base.len() >= old(ops)@.len(),
                    ops@.subrange(0, ops_base.len() as int) == ops_base,
                    ops@.subrange(0, old(ops)@.len() as int) == old(ops)@,
                    pixel_region.in_bounds(),
                    previous_floating_rects@ == prev_after,
                    -0x1000_0000_0000 <= scroll_offset_pixels <= 0x1000_0000_0000,
                    pass >= 1 ==> forall|i: int|
                        #![trigger crate::ring_buffer::wrap_index(scroll_offset_lines + i, n as int)]
                        0 <= i <= height ==> ({
                            let idx = crate::ring_buffer::wrap_index(
                                scroll_offset_lines + i,
                                n as int,
                            );
                            self.scrollback_lines@[idx] matches Some(l)
                                ==> (l.background_picture matches Some(p) ==> spec_ops_has_picture(
                                ops@,
                                old(ops)@.len() as int,
                                p.build_id,
                                pixel_region.left,
                                self.spec_body_row_y(
                                    pixel_region.top as int,
                                    grid_scale.height as int,
                                    i,
                                ),
                                false,
                                true,
                            ))
                        }),
                    pass >= 2 ==> forall|i: int|
                        #![trigger crate::ring_buffer::wrap_index(scroll_offset_lines + i, n as int)]
                        0 <= i <= height ==> ({
                            let idx = crate::ring_buffer::wrap_index(
                                scroll_offset_lines + i,
                                n as int,
                            );
                            self.scrollback_lines@[idx] matches Some(l)
                                ==> (l.foreground_picture matches Some(p) ==> spec_ops_has_picture(
                                ops@,
                                old(ops)@.len() as int,
                                p.build_id,
                                pixel_region.left,
                                self.spec_body_row_y(
                                    pixel_region.top as int,
                                    grid_scale.height as int,
                                    i,
                                ),
                                true,
                                true,
                            ))
                        }),
                decreases 2 - pass,
            {
                let foreground_pass = pass == 1;
                let mut i: i64 = 0;
                while i < height + 1
                    invariant
                        0 <= i <= height + 1,
                        n == self.scrollback_lines@.len(),
                        n > 0,
                        self.wf(),
                        self == old(self),
                        grid_scale.in_bounds(),
                        height == self.grid_size.height,
                        -crate::animation::SPRING_LIMIT <= scroll_offset_lines
                            <= crate::animation::SPRING_LIMIT,
                        scroll_offset_pixels as int == self.spec_scroll_offset_pixels(
                            grid_scale.height as int,
                        ),
                        ops@.len() <= old(ops)@.len() + 0x80_0000 + 3 + 2
                            * self.actual_lines@.len() + (pass as int) * 0x20_0002 + i + 1,
                        old(ops)@.len() < usize::MAX - 0x100_0000,
                        ops@.len() >= ops_base.len(),
                        ops_base.len() >= old(ops)@.len(),
                        ops@.subrange(0, ops_base.len() as int) == ops_base,
                        ops@.subrange(0, old(ops)@.len() as int) == old(ops)@,
                        pixel_region.in_bounds(),
                        previous_floating_rects@ == prev_after,
                        -0x1000_0000_0000 <= scroll_offset_pixels <= 0x1000_0000_0000,
                        foreground_pass == (pass == 1),
                        pass < 2,
                        forall|i2: int|
                            #![trigger crate::ring_buffer::wrap_index(scroll_offset_lines + i2, n as int)]
                            0 <= i2 < i ==> ({
                                let idx = crate::ring_buffer::wrap_index(
                                    scroll_offset_lines + i2,
                                    n as int,
                                );
                                self.scrollback_lines@[idx] matches Some(l) ==> ({
                                    let pic = if foreground_pass {
                                        l.foreground_picture
                                    } else {
                                        l.background_picture
                                    };
                                    pic matches Some(p) ==> spec_ops_has_picture(
                                        ops@,
                                        old(ops)@.len() as int,
                                        p.build_id,
                                        pixel_region.left,
                                        self.spec_body_row_y(
                                            pixel_region.top as int,
                                            grid_scale.height as int,
                                            i2,
                                        ),
                                        foreground_pass,
                                        true,
                                    )
                                })
                            }),
                        pass >= 1 ==> forall|i2: int|
                            #![trigger crate::ring_buffer::wrap_index(scroll_offset_lines + i2, n as int)]
                            0 <= i2 <= height ==> ({
                                let idx = crate::ring_buffer::wrap_index(
                                    scroll_offset_lines + i2,
                                    n as int,
                                );
                                self.scrollback_lines@[idx] matches Some(l)
                                    ==> (l.background_picture matches Some(p) ==> spec_ops_has_picture(
                                    ops@,
                                    old(ops)@.len() as int,
                                    p.build_id,
                                    pixel_region.left,
                                    self.spec_body_row_y(
                                        pixel_region.top as int,
                                        grid_scale.height as int,
                                        i2,
                                    ),
                                    false,
                                    true,
                                ))
                            }),
                    decreases height + 1 - i,
                {
                    let ghost ops_it = ops@;
                    match self.scrollback_lines.get((scroll_offset_lines + i) as isize) {
                        Some(line) => {
                            let pic = if foreground_pass {
                                &line.foreground_picture
                            } else {
                                &line.background_picture
                            };
                            match pic {
                                Some(p) => {
                                    let row_offset = i + self.viewport_margins.top as i64;
                                    proof {
                                        crate::fixed::lemma_mul_abs_bound(
                                            row_offset as int,
                                            grid_scale.height as int,
                                            0x20_0001,
                                            0x10_0000,
                                        );
                                    }
                                    let y = pixel_region.top + scroll_offset_pixels + row_offset
                                        * grid_scale.height;
                                    proof {
                                        assert(row_offset as int == i + self.viewport_margins.top);
                                        assert(y as int == self.spec_body_row_y(
                                            pixel_region.top as int,
                                            grid_scale.height as int,
                                            i as int,
                                        ));
                                    }
                                    ops.push(
                                        DrawOp::Picture {
                                            build_id: p.build_id,
                                            x: pixel_region.left,
                                            y,
                                            foreground: foreground_pass,
                                            clipped: true,
                                        },
                                    );
                                    proof {
                                        assert(ops@[ops@.len() - 1] == (DrawOp::Picture {
                                            build_id: p.build_id,
                                            x: pixel_region.left,
                                            y: self.spec_body_row_y(
                                                pixel_region.top as int,
                                                grid_scale.height as int,
                                                i as int,
                                            ) as i64,
                                            foreground: foreground_pass,
                                            clipped: true,
                                        }));
                                        assert(spec_ops_has_picture(
                                            ops@,
                                            old(ops)@.len() as int,
                                            p.build_id,
                                            pixel_region.left,
                                            self.spec_body_row_y(
                                                pixel_region.top as int,
                                                grid_scale.height as int,
                                                i as int,
                                            ),
                                            foreground_pass,
                                            true,
                                        ));
                                    }
                                },
                                None => {},
                            }
                        },
                        None => {},
                    }
                    proof {
                        let nowops = ops@;
                        assert(nowops.subrange(0, ops_it.len() as int) =~= ops_it);
                        assert forall|i2: int|
                            #![trigger crate::ring_buffer::wrap_index(scroll_offset_lines + i2, n as int)]
                            0 <= i2 < i + 1 implies ({
                            let idx = crate::ring_buffer::wrap_index(
                                scroll_offset_lines + i2,
                                n as int,
                            );
                            self.scrollback_lines@[idx] matches Some(l) ==> ({
                                let pic2 = if foreground_pass {
                                    l.foreground_picture
                                } else {
                                    l.background_picture
                                };
                                pic2 matches Some(p) ==> spec_ops_has_picture(
                                    nowops,
                                    old(ops)@.len() as int,
                                    p.build_id,
                                    pixel_region.left,
                                    self.spec_body_row_y(
                                        pixel_region.top as int,
                                        grid_scale.height as int,
                                        i2,
                                    ),
                                    foreground_pass,
                                    true,
                                )
                            })
                        }) by {
                            let idx = crate::ring_buffer::wrap_index(
                                scroll_offset_lines + i2,
                                n as int,
                            );
                            if self.scrollback_lines@[idx] is Some {
                                let l = self.scrollback_lines@[idx].unwrap();
                                let pic2 = if foreground_pass {
                                    l.foreground_picture
                                } else {
                                    l.background_picture
                                };
                                if pic2 is Some && 0 <= i2 < i {
                                    lemma_ops_picture_extend(
                                        ops_it,
                                        nowops,
                                        old(ops)@.len() as int,
                                        pic2.unwrap().build_id,
                                        pixel_region.left,
                                        self.spec_body_row_y(
                                            pixel_region.top as int,
                                            grid_scale.height as int,
                                            i2,
                                        ),
                                        foreground_pass,
                                        true,
                                    );
                                }
                            }
                        }
                        if pass >= 1 {
                            assert forall|i2: int|
                                #![trigger crate::ring_buffer::wrap_index(scroll_offset_lines + i2, n as int)]
                                0 <= i2 <= height implies ({
                                let idx = crate::ring_buffer::wrap_index(
                                    scroll_offset_lines + i2,
                                    n as int,
                                );
                                self.scrollback_lines@[idx] matches Some(l)
                                    ==> (l.background_picture matches Some(p)
                                    ==> spec_ops_has_picture(
                                    nowops,
                                    old(ops)@.len() as int,
                                    p.build_id,
                                    pixel_region.left,
                                    self.spec_body_row_y(
                                        pixel_region.top as int,
                                        grid_scale.height as int,
                                        i2,
                                    ),
                                    false,
                                    true,
                                ))
                            }) by {
                                let idx = crate::ring_buffer::wrap_index(
                                    scroll_offset_lines + i2,
                                    n as int,
                                );
                                if self.scrollback_lines@[idx] is Some {
                                    let l = self.scrollback_lines@[idx].unwrap();
                                    if l.background_picture is Some {
                                        lemma_ops_picture_extend(
                                            ops_it,
                                            nowops,
                                            old(ops)@.len() as int,
                                            l.background_picture.unwrap().build_id,
                                            pixel_region.left,
                                            self.spec_body_row_y(
                                                pixel_region.top as int,
                                                grid_scale.height as int,
                                                i2,
                                            ),
                                            false,
                                            true,
                                        );
                                    }
                                }
                            }
                        }
                    }
                    i += 1;
                }
                pass += 1;
            }
        }
        self.has_transparency = any_transparency;
        proof {
            assert(ops@.subrange(0, ops_base.len() as int) =~= ops_base);
            assert(ops@[ops_base.len() - 1] == ops_base[ops_base.len() - 1]);
            if ops_base.len() >= 2 {
                assert(ops@[old(ops)@.len() as int] == ops_base[old(ops)@.len() as int]);
            }
        }
        details
    }
}

/// Does `outer` contain `inner` entirely?
pub open spec fn spec_rect_contains(
    outer: crate::units::PixelRect,
    inner: crate::units::PixelRect,
) -> bool {
    outer.left <= inner.left && outer.top <= inner.top && inner.right <= outer.right
        && inner.bottom <= outer.bottom
}

/// Scaling a distance by an eased fraction in `[0, 1]` never overshoots:
/// the scaled distance lies between zero and the distance.
proof fn lemma_scale_fraction(d: int, f: int)
    requires
        0 <= f <= SUBUNIT as int,
    ensures
        d >= 0 ==> 0 <= d * f / (SUBUNIT as int) <= d,
        d < 0 ==> d <= d * f / (SUBUNIT as int) <= 0,
{
    let s = SUBUNIT as int;
    if d >= 0 {
        assert(0 <= d * f <= d * s) by (nonlinear_arith)
            requires
                0 <= f <= s,
                0 <= d,
        {
        }
        vstd::arithmetic::div_mod::lemma_div_is_ordered(0, d * f, s);
        vstd::arithmetic::div_mod::lemma_div_is_ordered(d * f, d * s, s);
        assert(d * s / s == d) by {
            vstd::arithmetic::div_mod::lemma_div_multiples_vanish(d, s);
        }
        assert(0int / s == 0) by {
            vstd::arithmetic::div_mod::lemma_div_multiples_vanish(0, s);
        }
    } else {
        assert(d * s <= d * f <= 0) by (nonlinear_arith)
            requires
                0 <= f <= s,
                d < 0,
        {
        }
        vstd::arithmetic::div_mod::lemma_div_is_ordered(d * s, d * f, s);
        vstd::arithmetic::div_mod::lemma_div_is_ordered(d * f, 0, s);
        assert(d * s / s == d) by {
            vstd::arithmetic::div_mod::lemma_div_multiples_vanish(d, s);
        }
    }
}

/// A floating window is never placed left of the grid, and when it fits
/// horizontally its right edge never passes the grid's right edge.
pub proof fn lemma_floating_placement_clamp(w: RenderedWindow, grid_rect: GridRect)
    requires
        w.wf(),
        grid_rect.in_bounds(),
        w.anchor_info is Some,
    ensures
        w.spec_target_position(grid_rect).x >= grid_rect.min.x,
        w.grid_size.width * (SUBUNIT as int) <= grid_rect.max.x - grid_rect.min.x
            ==> w.spec_target_position(grid_rect).x + w.grid_size.width * (SUBUNIT as int)
            <= grid_rect.max.x,
{
}

} // verus!
