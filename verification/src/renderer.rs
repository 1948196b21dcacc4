//! Multi-window frame compositor: owns every window, routes draw
//! commands by id, and runs the per-frame animate → prepare → draw
//! sequence over all windows in a stable z-order (base windows before
//! floating ones, each group in ascending id order).

use crate::grid_renderer::GridRenderer;
use crate::rendered_window::{
    spec_command_admitted, spec_command_applied, spec_freshly_created, DrawOp, RenderedWindow,
    WindowDrawCommand, WindowDrawDetails,
};
use crate::settings::RendererSettings;
use crate::units::{GridPos, GridRect, GridScale, PixelRect};
use vstd::prelude::*;

verus! {

/// The z-order key of a window: floating windows sort above base
/// windows, ties break by id.
pub open spec fn spec_z_key(w: RenderedWindow) -> (int, int) {
    (
        if w.anchor_info is Some {
            1int
        } else {
            0int
        },
        w.id as int,
    )
}

/// Strictly before in z-order.
pub open spec fn spec_z_before(a: RenderedWindow, b: RenderedWindow) -> bool {
    spec_z_key(a).0 < spec_z_key(b).0 || (spec_z_key(a).0 == spec_z_key(b).0 && spec_z_key(a).1
        < spec_z_key(b).1)
}

/// What one frame does to one window: the position easing and the
/// scroll spring advance exactly as `RenderedWindow::animate` computes,
/// the row caches of the rows this frame shows are rebuilt per
/// `RenderedWindow::prepare_lines`, and nothing else moves.
pub open spec fn spec_window_frame_advanced(
    pre: RenderedWindow,
    post: RenderedWindow,
    settings: RendererSettings,
    grid_rect: GridRect,
    dt_ms: int,
    defaults: crate::style::Colors,
    debug: bool,
) -> bool {
    &&& post == (RenderedWindow {
        grid_current_position: post.grid_current_position,
        position_t: post.position_t,
        scroll_animation: post.scroll_animation,
        scrollback_lines: post.scrollback_lines,
        actual_lines: post.actual_lines,
        build_counter: post.build_counter,
        has_transparency: post.has_transparency,
        ..pre
    })
    &&& post.position_t == RenderedWindow::spec_next_position_t(
        pre.position_t as int,
        dt_ms,
        settings.position_animation_length_ms as int,
    )
    &&& post.grid_current_position == RenderedWindow::spec_ease_point(
        pre.grid_start_position,
        pre.spec_target_position(grid_rect),
        crate::animation::spec_ease_out_expo(post.position_t as int),
    )
    &&& post.scroll_animation == crate::animation::spec_spring_update(
        pre.scroll_animation,
        dt_ms,
        settings.scroll_animation_length_ms as int,
    ).0
    &&& pre.build_counter <= post.build_counter <= pre.build_counter + 0x1_0000_0000
    &&& post.scrollback_lines@.len() == pre.scrollback_lines@.len()
    &&& post.actual_lines@.len() == pre.actual_lines@.len()
    // the rows the animated scroll window shows are freshly prepared,
    // every other ring slot is untouched
    &&& (forall|idx: int|
        0 <= idx < pre.scrollback_lines@.len() && spec_frame_visible_slot(pre, post, idx)
            ==> crate::rendered_window::spec_prepared_slot(
            #[trigger] post.scrollback_lines@[idx],
            pre.scrollback_lines@[idx],
            defaults,
            debug,
            pre.build_counter as int,
            post.build_counter as int,
        ))
    &&& (forall|idx: int|
        0 <= idx < pre.scrollback_lines@.len() && !spec_frame_visible_slot(pre, post, idx) ==> (
        #[trigger] post.scrollback_lines@[idx]) == pre.scrollback_lines@[idx])
    // margin rows of the actual grid are prepared too
    &&& (forall|idx: int|
        0 <= idx < pre.actual_lines@.len() && pre.spec_border_slot(idx)
            ==> crate::rendered_window::spec_prepared_slot(
            #[trigger] post.actual_lines@[idx],
            pre.actual_lines@[idx],
            defaults,
            debug,
            pre.build_counter as int,
            post.build_counter as int,
        ))
    &&& (forall|idx: int|
        0 <= idx < pre.actual_lines@.len() && !pre.spec_border_slot(idx) ==> (
        #[trigger] post.actual_lines@[idx]) == pre.actual_lines@[idx])
}

/// Is ring slot `idx` shown this frame: some visible row of the
/// advanced scroll position lands on it.
pub open spec fn spec_frame_visible_slot(
    pre: RenderedWindow,
    post: RenderedWindow,
    idx: int,
) -> bool {
    exists|k: int|
        0 <= k <= pre.grid_size.height && #[trigger] crate::ring_buffer::wrap_index(
            crate::fixed::spec_floor_units(post.scroll_animation.position as int) + k,
            pre.scrollback_lines@.len() as int,
        ) == idx
}

/// Does this window ask the frame loop for another frame: its position
/// easing has not finished, the eased position still moves, or the
/// scroll spring still runs.
pub open spec fn spec_window_animating(
    w: RenderedWindow,
    settings: RendererSettings,
    grid_rect: GridRect,
    dt_ms: int,
) -> bool {
    ||| w.position_t < crate::fixed::SUBUNIT
    ||| RenderedWindow::spec_ease_point(
        w.grid_start_position,
        w.spec_target_position(grid_rect),
        crate::animation::spec_ease_out_expo(
            RenderedWindow::spec_next_position_t(
                w.position_t as int,
                dt_ms,
                settings.position_animation_length_ms as int,
            ),
        ),
    ) != w.grid_current_position
    ||| crate::animation::spec_spring_update(
        w.scroll_animation,
        dt_ms,
        settings.scroll_animation_length_ms as int,
    ).1
}

/// Does the instruction list fill `region` with the given blending?
pub open spec fn spec_ops_has_fill(ops: Seq<DrawOp>, region: PixelRect, opaque: bool) -> bool {
    exists|k: int|
        0 <= k < ops.len() && ops[k] == (DrawOp::FillBackground { region, opaque })
}

/// An instruction already in the list survives appending more.
proof fn lemma_op_preserved(a: Seq<DrawOp>, b: Seq<DrawOp>, k: int)
    requires
        0 <= k < a.len(),
        a.len() <= b.len(),
        b.subrange(0, a.len() as int) == a,
    ensures
        b[k] == a[k],
{
    assert(b.subrange(0, a.len() as int)[k] == b[k]);
}

pub struct Renderer {
    pub windows: Vec<RenderedWindow>,
    pub grid_renderer: GridRenderer,
}

impl Renderer {
    /// Well-formed: every window well-formed, strictly ordered by
    /// z-order key (which also makes ids unique), and few enough to
    /// iterate safely.
    pub open spec fn wf(&self) -> bool {
        &&& forall|i: int| 0 <= i < self.windows@.len() ==> (#[trigger] self.windows@[i]).wf()
        &&& forall|i: int, j: int|
            0 <= i < j < self.windows@.len() ==> spec_z_before(
                self.windows@[i],
                self.windows@[j],
            )
        &&& forall|i: int, j: int|
            0 <= i < j < self.windows@.len() ==> (#[trigger] self.windows@[i]).id != (
            #[trigger] self.windows@[j]).id
        &&& self.windows@.len() <= 0x80
    }

    /// No window carries this id.
    pub open spec fn spec_absent(&self, id: u64) -> bool {
        forall|i: int| 0 <= i < self.windows@.len() ==> (#[trigger] self.windows@[i]).id != id
    }

    /// Some window carries this id.
    pub open spec fn spec_has_window(ws: Seq<RenderedWindow>, id: u64) -> bool {
        exists|i: int| 0 <= i < ws.len() && (#[trigger] ws[i]).id == id
    }

    /// The index of the window carrying this id (unique under `wf`).
    pub open spec fn spec_window_index(ws: Seq<RenderedWindow>, id: u64) -> int {
        choose|i: int| 0 <= i < ws.len() && (#[trigger] ws[i]).id == id
    }

    pub fn new(grid_renderer: GridRenderer) -> (r: Renderer)
        ensures
            r.wf(),
            r.windows@.len() == 0,
            r.grid_renderer == grid_renderer,
    {
        Renderer { windows: Vec::new(), grid_renderer }
    }

    /// Index of the window with `id`, if it exists.
    fn find_window(&self, id: u64) -> (r: Option<usize>)
        requires
            self.wf(),
        ensures
            match r {
                Some(i) => i < self.windows@.len() && self.windows@[i as int].id == id
                    && Self::spec_window_index(self.windows@, id) == i as int,
                None => self.spec_absent(id),
            },
    {
        let n = self.windows.len();
        let mut i: usize = 0;
        while i < n
            invariant
                i <= n,
                n == self.windows@.len(),
                self.wf(),
                forall|j: int| 0 <= j < i ==> (#[trigger] self.windows@[j]).id != id,
            decreases n - i,
        {
            if self.windows[i].id == id {
                proof {
                    assert(self.wf());
                    assert(Self::spec_has_window(self.windows@, id));
                    let ci = Self::spec_window_index(self.windows@, id);
                    assert(0 <= ci < self.windows@.len() && self.windows@[ci].id == id);
                    if ci != i as int {
                        let a = if ci < i as int { ci } else { i as int };
                        let b = if ci < i as int { i as int } else { ci };
                        assert(0 <= a < b < self.windows@.len());
                        assert(self.windows@[a].id != self.windows@[b].id);
                        assert(false);
                    }
                }
                return Some(i);
            }
            i += 1;
        }
        None
    }

    /// Apply one protocol command to the window with `id`. `Close`
    /// removes the window; a `Position` for an unknown id creates the
    /// window first. Commands for unknown windows are otherwise
    /// dropped, as the protocol only addresses windows it created.
    pub fn handle_window_draw_command(&mut self, id: u64, command: WindowDrawCommand)
        requires
            old(self).wf(),
            command matches WindowDrawCommand::Position { grid_position, grid_size, .. }
                ==> grid_position.in_bounds() && 1 <= grid_size.height <= 0x10_0000 && 1
                <= grid_size.width <= 0x10_0000,
            command matches WindowDrawCommand::Scroll { rows, .. } ==> -0x1000_0000 <= rows
                <= 0x1000_0000,
            command matches WindowDrawCommand::Viewport { scroll_delta } ==> -0x1000_0000
                <= scroll_delta <= 0x1000_0000,
        ensures
            final(self).wf(),
            final(self).grid_renderer == old(self).grid_renderer,
            command is Close ==> final(self).spec_absent(id),
            match command {
                // Close removes exactly the addressed window
                WindowDrawCommand::Close => if Self::spec_has_window(old(self).windows@, id) {
                    final(self).windows@ == old(self).windows@.remove(
                        Self::spec_window_index(old(self).windows@, id),
                    )
                } else {
                    final(self).windows@ == old(self).windows@
                },
                // a Position re-places the addressed window in z-order
                // (or creates it first), with the per-window Position
                // contract holding of it
                WindowDrawCommand::Position { grid_position, grid_size, .. } => {
                    &&& Self::spec_has_window(old(self).windows@, id) ==> ({
                        let i = Self::spec_window_index(old(self).windows@, id);
                        exists|p: int|
                            0 <= p < final(self).windows@.len() && final(self).windows@ == old(self).windows@.remove(i).insert(p, final(self).windows@[p])
                                && #[trigger] spec_command_applied(
                                old(self).windows@[i],
                                final(self).windows@[p],
                                command,
                            )
                    })
                    &&& !Self::spec_has_window(old(self).windows@, id) && old(self).windows@.len() < 0x80 ==> exists|p: int|
                        0 <= p < final(self).windows@.len() && final(self).windows@ == old(self).windows@.insert(p, final(self).windows@[p]) && final(self).windows@[p].id == id && (exists|w0: RenderedWindow|
                            spec_freshly_created(w0, id, grid_position, grid_size)
                                && #[trigger] spec_command_applied(
                                w0,
                                final(self).windows@[p],
                                command,
                            ))
                    &&& !Self::spec_has_window(old(self).windows@, id) && old(self).windows@.len() >= 0x80 ==> final(self).windows@ == old(self).windows@
                },
                // every other command is forwarded to the addressed
                // window alone, when its bounds admit it, and dropped
                // otherwise
                _ => if Self::spec_has_window(old(self).windows@, id) {
                    let i = Self::spec_window_index(old(self).windows@, id);
                    if spec_command_admitted(old(self).windows@[i], command) {
                        &&& final(self).windows@.len() == old(self).windows@.len()
                        &&& spec_command_applied(
                            old(self).windows@[i],
                            final(self).windows@[i],
                            command,
                        )
                        &&& (forall|j: int|
                            0 <= j < old(self).windows@.len() && j != i ==> (
                            #[trigger] final(self).windows@[j]) == old(self).windows@[j])
                    } else {
                        final(self).windows@ == old(self).windows@
                    }
                } else {
                    final(self).windows@ == old(self).windows@
                },
            },
    {
        let ghost cmd0 = command;
        let found = self.find_window(id);
        match command {
            WindowDrawCommand::Close => {
                match found {
                    Some(i) => {
                        let _removed = self.take_window(i);
                    },
                    None => {},
                }
            },
            WindowDrawCommand::Position { grid_position, grid_size, anchor_info, window_type } => {
                match found {
                    Some(i) => {
                        // the anchor may change, so the window re-enters
                        // the z-order at its new place
                        let mut w = self.take_window(i);
                        w.handle_window_draw_command(
                            WindowDrawCommand::Position {
                                grid_position,
                                grid_size,
                                anchor_info,
                                window_type,
                            },
                        );
                        let ghost wv = w;
                        let ghost mid = self.windows@;
                        self.insert_in_order(w);
                        proof {
                            let p = choose|p: int|
                                0 <= p <= mid.len() && self.windows@ == mid.insert(p, wv);
                            assert(self.windows@[p] == wv);
                            assert(spec_command_applied(
                                old(self).windows@[i as int],
                                self.windows@[p],
                                cmd0,
                            ));
                            assert(self.windows@ == old(self).windows@.remove(i as int).insert(
                                p,
                                self.windows@[p],
                            ));
                        }
                    },
                    None => {
                        if self.windows.len() < 0x80 {
                            let mut new_window = RenderedWindow::new(id, grid_position, grid_size);
                            let ghost w0 = new_window;
                            new_window.handle_window_draw_command(
                                WindowDrawCommand::Position {
                                    grid_position,
                                    grid_size,
                                    anchor_info,
                                    window_type,
                                },
                            );
                            let ghost wv = new_window;
                            let ghost mid = self.windows@;
                            self.insert_in_order(new_window);
                            proof {
                                let p = choose|p: int|
                                    0 <= p <= mid.len() && self.windows@ == mid.insert(p, wv);
                                assert(self.windows@[p] == wv);
                                assert(spec_freshly_created(w0, id, grid_position, grid_size));
                                assert(spec_command_applied(w0, self.windows@[p], cmd0));
                                assert(self.windows@ == old(self).windows@.insert(
                                    p,
                                    self.windows@[p],
                                ));
                            }
                        }
                    },
                }
            },
            other => {
                match found {
                    Some(i) => {
                        let ghost pre = self.windows@;
                        let needs_row_bound = match &other {
                            WindowDrawCommand::DrawLine { row, .. } => Some(*row),
                            _ => None,
                        };
                        let height = self.windows[i].grid_size.height;
                        let ok = match needs_row_bound {
                            Some(row) => row < height as usize,
                            None => true,
                        };
                        let margins_ok = match &other {
                            WindowDrawCommand::ViewportMargins { top, bottom, .. } => *top
                                <= height as u64 && *bottom <= height as u64 - *top,
                            _ => true,
                        };
                        if ok && margins_ok {
                            let w = &mut self.windows[i];
                            w.handle_window_draw_command(other);
                            proof {
                                assert(self.windows@[i as int].id == pre[i as int].id);
                                assert(self.windows@[i as int].anchor_info == pre[
                                    i as int].anchor_info);
                                assert forall|a: int, b: int|
                                    0 <= a < b < self.windows@.len() implies spec_z_before(
                                    self.windows@[a],
                                    self.windows@[b],
                                ) by {
                                    assert(spec_z_before(pre[a], pre[b]));
                                    if a != i {
                                        assert(self.windows@[a] == pre[a]);
                                    }
                                    if b != i {
                                        assert(self.windows@[b] == pre[b]);
                                    }
                                }
                                assert forall|a: int, b: int|
                                    0 <= a < b < self.windows@.len() implies (
                                #[trigger] self.windows@[a]).id != (
                                #[trigger] self.windows@[b]).id by {
                                    assert(pre[a].id != pre[b].id);
                                    if a != i {
                                        assert(self.windows@[a] == pre[a]);
                                    }
                                    if b != i {
                                        assert(self.windows@[b] == pre[b]);
                                    }
                                }
                            }
                        }
                    },
                    None => {},
                }
            },
        }
    }

    /// Remove and return the window at `i`; its id then occurs nowhere.
    fn take_window(&mut self, i: usize) -> (w: RenderedWindow)
        requires
            old(self).wf(),
            i < old(self).windows@.len(),
        ensures
            final(self).wf(),
            final(self).grid_renderer == old(self).grid_renderer,
            final(self).windows@.len() == old(self).windows@.len() - 1,
            w == old(self).windows@[i as int],
            final(self).windows@ == old(self).windows@.remove(i as int),
            final(self).spec_absent(w.id),
            final(self).windows@.len() < 0x80,
        {
        let w = self.windows.remove(i);
        proof {
            assert forall|a: int, b: int|
                0 <= a < b < self.windows@.len() implies spec_z_before(
                self.windows@[a],
                self.windows@[b],
            ) by {
                if b < i {
                } else if a < i {
                    assert(self.windows@[b] == old(self).windows@[b + 1]);
                } else {
                    assert(self.windows@[a] == old(self).windows@[a + 1]);
                    assert(self.windows@[b] == old(self).windows@[b + 1]);
                }
            }
            assert forall|k: int|
                0 <= k < self.windows@.len() implies (#[trigger] self.windows@[k]).id != w.id by {
                if k >= i {
                    assert(self.windows@[k] == old(self).windows@[k + 1]);
                    assert(old(self).windows@[i as int].id != old(self).windows@[k + 1].id);
                } else {
                    assert(self.windows@[k] == old(self).windows@[k]);
                    assert(old(self).windows@[k].id != old(self).windows@[i as int].id);
                }
            }
            assert forall|a: int, b: int|
                0 <= a < b < self.windows@.len() implies (#[trigger] self.windows@[a]).id != (
            #[trigger] self.windows@[b]).id by {
                if b < i {
                } else if a < i {
                    assert(self.windows@[b] == old(self).windows@[b + 1]);
                } else {
                    assert(self.windows@[a] == old(self).windows@[a + 1]);
                    assert(self.windows@[b] == old(self).windows@[b + 1]);
                }
            }
        }
        w
    }

    /// Insert a window at its z-order position.
    fn insert_in_order(&mut self, w: RenderedWindow)
        requires
            old(self).wf(),
            w.wf(),
            old(self).spec_absent(w.id),
            old(self).windows@.len() < 0x80,
        ensures
            final(self).wf(),
            final(self).grid_renderer == old(self).grid_renderer,
            final(self).windows@.len() == old(self).windows@.len() + 1,
            exists|p: int|
                0 <= p <= old(self).windows@.len() && final(self).windows@ == old(self).windows@.insert(p, w),
    {
        let n = self.windows.len();
        let mut pos: usize = 0;
        loop
            invariant
                pos <= n,
                n == self.windows@.len(),
                self == old(self),
                self.wf(),
                w.wf(),
                self.spec_absent(w.id),
                forall|j: int| 0 <= j < pos ==> spec_z_before(#[trigger] self.windows@[j], w),
            ensures
                pos == n || !spec_z_before(self.windows@[pos as int], w),
            decreases n - pos,
        {
            if pos >= n {
                break;
            }
            let cur = &self.windows[pos];
            let cur_key_floating: bool = cur.anchor_info.is_some();
            let w_floating: bool = w.anchor_info.is_some();
            let before = if cur_key_floating != w_floating {
                !cur_key_floating
            } else {
                cur.id < w.id
            };
            proof {
                assert(before == spec_z_before(self.windows@[pos as int], w));
            }
            if !before {
                break;
            }
            pos += 1;
        }
        proof {
            if pos < self.windows@.len() {
                assert(!spec_z_before(self.windows@[pos as int], w));
                assert(self.windows@[pos as int].id != w.id);
                assert(spec_z_before(w, self.windows@[pos as int]));
            }
        }
        self.windows.insert(pos, w);
        proof {
            assert forall|a: int, b: int|
                0 <= a < b < self.windows@.len() implies (#[trigger] self.windows@[a]).id != (
            #[trigger] self.windows@[b]).id by {
                if b < pos {
                } else if a < pos && b == pos {
                } else if a < pos {
                    assert(self.windows@[b] == old(self).windows@[b - 1]);
                } else if a == pos {
                    assert(self.windows@[b] == old(self).windows@[b - 1]);
                } else {
                    assert(self.windows@[a] == old(self).windows@[a - 1]);
                    assert(self.windows@[b] == old(self).windows@[b - 1]);
                }
            }
            assert forall|a: int, b: int|
                0 <= a < b < self.windows@.len() implies spec_z_before(
                self.windows@[a],
                self.windows@[b],
            ) by {
                if b < pos {
                } else if a < pos && b == pos {
                } else if a < pos {
                    assert(self.windows@[b] == old(self).windows@[b - 1]);
                    assert(spec_z_before(self.windows@[a], old(self).windows@[pos as int]));
                } else if a == pos {
                    assert(self.windows@[b] == old(self).windows@[b - 1]);
                    if b - 1 > pos as int - 1 {
                        assert(old(self).windows@[b - 1].id != w.id);
                        assert(!spec_z_before(old(self).windows@[b - 1], w) ==> spec_z_before(
                            w,
                            old(self).windows@[b - 1],
                        ));
                        assert(pos < old(self).windows@.len() ==> !spec_z_before(
                            old(self).windows@[pos as int],
                            w,
                        ));
                        assert(b - 1 >= pos);
                        if spec_z_before(old(self).windows@[b - 1], w) {
                            if b - 1 > pos {
                                assert(spec_z_before(
                                    old(self).windows@[pos as int],
                                    old(self).windows@[b - 1],
                                ));
                            }
                        }
                    }
                } else {
                    assert(self.windows@[a] == old(self).windows@[a - 1]);
                    assert(self.windows@[b] == old(self).windows@[b - 1]);
                }
            }
        }
    }

    /// Run one frame over every window in z-order: advance its
    /// animations, rebuild the row caches that this frame shows, and
    /// collect its draw instructions. Returns the per-window draw
    /// details in draw order and whether any window is still animating
    /// (so the frame loop schedules another frame).
    pub fn draw_frame(
        &mut self,
        settings: &RendererSettings,
        grid_rect: &GridRect,
        dt_ms: i64,
        default_background_opaque: bool,
        ops: &mut Vec<DrawOp>,
    ) -> (r: (Vec<WindowDrawDetails>, bool))
        requires
            old(self).wf(),
            settings.wf(),
            grid_rect.min.in_bounds(),
            grid_rect.max.in_bounds(),
            old(self).grid_renderer.grid_scale.in_bounds(),
            0 <= dt_ms <= 100_000,
            old(ops)@.len() == 0,
            forall|i: int|
                0 <= i < old(self).windows@.len() ==> (#[trigger] old(self).windows@[i]).build_counter
                    + 0x1_0000_0000 < u64::MAX,
        ensures
            final(self).wf(),
            final(self).windows@.len() == old(self).windows@.len(),
            final(self).grid_renderer == old(self).grid_renderer,
            r.0@.len() == old(self).windows@.len(),
            // details come back in draw order, one per window, with the
            // pixel rectangle the advanced window covers
            forall|i: int|
                0 <= i < r.0@.len() ==> (#[trigger] r.0@[i]) == (WindowDrawDetails {
                    id: old(self).windows@[i].id,
                    region: crate::units::spec_grid_to_pixel(
                        final(self).windows@[i].spec_grid_rect(),
                        old(self).grid_renderer.grid_scale,
                    ),
                }),
            // every window is advanced by exactly one frame
            forall|i: int|
                0 <= i < old(self).windows@.len() ==> spec_window_frame_advanced(
                    old(self).windows@[i],
                    #[trigger] final(self).windows@[i],
                    *settings,
                    *grid_rect,
                    dt_ms as int,
                    old(self).grid_renderer.default_colors,
                    old(self).grid_renderer.debug_renderer,
                ),
            // another frame is wanted exactly when some window still animates
            r.1 == exists|i: int|
                0 <= i < old(self).windows@.len() && spec_window_animating(
                    #[trigger] old(self).windows@[i],
                    *settings,
                    *grid_rect,
                    dt_ms as int,
                ),
            // each window's rectangle was filled on the shared canvas
            forall|i: int|
                0 <= i < r.0@.len() ==> spec_ops_has_fill(
                    final(ops)@,
                    (#[trigger] r.0@[i]).region,
                    default_background_opaque && old(self).windows@[i].anchor_info is None,
                ),
    {
        let mut details: Vec<WindowDrawDetails> = Vec::new();
        let mut animating = false;
        let mut previous_floating_rects: Vec<PixelRect> = Vec::new();
        let ghost mut fill_at: Seq<int> = Seq::empty();
        let n = self.windows.len();
        let mut i: usize = 0;
        while i < n
            invariant
                i <= n,
                n == self.windows@.len(),
                n == old(self).windows@.len(),
                self.wf(),
                settings.wf(),
                grid_rect.min.in_bounds(),
                grid_rect.max.in_bounds(),
                self.grid_renderer == old(self).grid_renderer,
                self.grid_renderer.grid_scale.in_bounds(),
                0 <= dt_ms <= 100_000,
                details@.len() == i,
                previous_floating_rects@.len() <= i,
                ops@.len() <= i * 0x100_0000,
                forall|j: int|
                    i <= j < n ==> (#[trigger] self.windows@[j]) == old(self).windows@[j],
                forall|j: int|
                    0 <= j < old(self).windows@.len() ==> (
                    #[trigger] old(self).windows@[j]).build_counter + 0x1_0000_0000 < u64::MAX,
                forall|j: int|
                    0 <= j < n ==> (#[trigger] self.windows@[j]).id == old(self).windows@[j].id,
                forall|j: int|
                    0 <= j < i ==> (#[trigger] details@[j]) == (WindowDrawDetails {
                        id: old(self).windows@[j].id,
                        region: crate::units::spec_grid_to_pixel(
                            self.windows@[j].spec_grid_rect(),
                            old(self).grid_renderer.grid_scale,
                        ),
                    }),
                forall|j: int|
                    0 <= j < i ==> spec_window_frame_advanced(
                        old(self).windows@[j],
                        #[trigger] self.windows@[j],
                        *settings,
                        *grid_rect,
                        dt_ms as int,
                        old(self).grid_renderer.default_colors,
                        old(self).grid_renderer.debug_renderer,
                    ),
                animating == exists|j: int|
                    0 <= j < i && spec_window_animating(
                        #[trigger] old(self).windows@[j],
                        *settings,
                        *grid_rect,
                        dt_ms as int,
                    ),
                fill_at.len() == i,
                forall|j: int|
                    0 <= j < i ==> 0 <= #[trigger] fill_at[j] < ops@.len() && ops@[fill_at[j]]
                        == (DrawOp::FillBackground {
                        region: details@[j].region,
                        opaque: default_background_opaque && old(self).windows@[j].anchor_info
                            is None,
                    }),
            decreases n - i,
        {
            let ghost pre = self.windows@;
            let ghost ops_pre = ops@;
            let ghost was_animating = animating;
            let grid_renderer = GridRenderer {
                grid_scale: self.grid_renderer.grid_scale,
                default_colors: self.grid_renderer.default_colors,
                debug_renderer: self.grid_renderer.debug_renderer,
            };
            let grid_scale = grid_renderer.grid_scale;
            let w = &mut self.windows[i];
            let window_animating = w.animate(settings, grid_rect, dt_ms);
            if window_animating {
                animating = true;
            }
            w.prepare_lines(&grid_renderer);
            let detail = w.draw(
                settings,
                grid_scale,
                default_background_opaque,
                &mut previous_floating_rects,
                ops,
            );
            details.push(detail);
            proof {
                let wi = self.windows@[i as int];
                let w0 = old(self).windows@[i as int];
                assert(wi.id == pre[i as int].id);
                assert(spec_window_frame_advanced(
                    w0,
                    wi,
                    *settings,
                    *grid_rect,
                    dt_ms as int,
                    old(self).grid_renderer.default_colors,
                    old(self).grid_renderer.debug_renderer,
                ));
                assert(window_animating == spec_window_animating(
                    w0,
                    *settings,
                    *grid_rect,
                    dt_ms as int,
                ));
                assert(detail == (WindowDrawDetails {
                    id: w0.id,
                    region: crate::units::spec_grid_to_pixel(
                        wi.spec_grid_rect(),
                        old(self).grid_renderer.grid_scale,
                    ),
                }));
                // the still-animating flag stays an exact disjunction
                assert(animating == exists|j: int|
                    0 <= j < i + 1 && spec_window_animating(
                        #[trigger] old(self).windows@[j],
                        *settings,
                        *grid_rect,
                        dt_ms as int,
                    )) by {
                    if animating {
                        if was_animating {
                            let j0 = choose|j: int|
                                0 <= j < i && spec_window_animating(
                                    old(self).windows@[j],
                                    *settings,
                                    *grid_rect,
                                    dt_ms as int,
                                );
                            assert(spec_window_animating(
                                old(self).windows@[j0],
                                *settings,
                                *grid_rect,
                                dt_ms as int,
                            ));
                        } else {
                            assert(spec_window_animating(
                                old(self).windows@[i as int],
                                *settings,
                                *grid_rect,
                                dt_ms as int,
                            ));
                        }
                    } else {
                        if exists|j: int|
                            0 <= j < i + 1 && spec_window_animating(
                                old(self).windows@[j],
                                *settings,
                                *grid_rect,
                                dt_ms as int,
                            ) {
                            let j0 = choose|j: int|
                                0 <= j < i + 1 && spec_window_animating(
                                    old(self).windows@[j],
                                    *settings,
                                    *grid_rect,
                                    dt_ms as int,
                                );
                            assert(false);
                        }
                    }
                }
                // earlier windows' fill instructions survive the appends
                let ki = choose|k: int|
                    0 <= k < ops@.len() && ops@[k] == (DrawOp::FillBackground {
                        region: detail.region,
                        opaque: default_background_opaque && w0.anchor_info is None,
                    });
                fill_at = fill_at.push(ki);
                assert forall|j: int|
                    0 <= j < i + 1 implies 0 <= #[trigger] fill_at[j] < ops@.len()
                    && ops@[fill_at[j]] == (DrawOp::FillBackground {
                    region: details@[j].region,
                    opaque: default_background_opaque && old(self).windows@[j].anchor_info
                        is None,
                }) by {
                    if j < i {
                        lemma_op_preserved(ops_pre, ops@, fill_at[j]);
                    }
                }
                assert forall|a: int, b: int|
                    0 <= a < b < self.windows@.len() implies spec_z_before(
                    self.windows@[a],
                    self.windows@[b],
                ) by {
                    assert(spec_z_before(pre[a], pre[b]));
                    assert(self.windows@[a].anchor_info == pre[a].anchor_info);
                    assert(self.windows@[a].id == pre[a].id);
                    assert(self.windows@[b].anchor_info == pre[b].anchor_info);
                    assert(self.windows@[b].id == pre[b].id);
                }
            }
            i += 1;
        }
        let result = (details, animating);
        proof {
            assert forall|j: int| 0 <= j < result.0@.len() implies spec_ops_has_fill(
                ops@,
                (#[trigger] result.0@[j]).region,
                default_background_opaque && old(self).windows@[j].anchor_info is None,
            ) by {
                assert(result.0@[j] == details@[j]);
                assert(0 <= fill_at[j] < ops@.len() && ops@[fill_at[j]]
                    == (DrawOp::FillBackground {
                    region: details@[j].region,
                    opaque: default_background_opaque && old(self).windows@[j].anchor_info
                        is None,
                }));
            }
        }
        result
    }
}

} // verus!
