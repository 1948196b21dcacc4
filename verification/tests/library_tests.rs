//! Behaviour of the ring buffer, animation, pacing, placement clamping,
//! cache rebuilds and the window compositor on concrete values.

use smoothgrid::animation::{ease_out_expo, CriticallyDampedSpringAnimation};
use smoothgrid::box_drawing::is_box_char;
use smoothgrid::fixed::{clamp_i64, floor_units};
use smoothgrid::grid_renderer::{count_leading_blanks, has_visible_text, GridRenderer};
use smoothgrid::renderer::Renderer;
use smoothgrid::rendered_window::{
    AnchorInfo, DrawOp, LineFragment, RenderedWindow, WindowDrawCommand, WindowType,
};
use smoothgrid::ring_buffer::RingBuffer;
use smoothgrid::settings::RendererSettings;
use smoothgrid::style::{str_eq, Colors, HighlightInfo, Style};
use smoothgrid::units::{GridPos, GridRect, GridScale, GridSize};
use smoothgrid::vsync::{vsync_interval, FrameTimes};
use std::sync::Arc;

fn default_colors() -> Colors {
    Colors {
        foreground: Some(0xFFFFFFFF),
        background: Some(0x000000FF),
        special: Some(0x888888FF),
    }
}

fn plain_fragment(text: &str) -> LineFragment {
    LineFragment {
        text: text.to_string(),
        window_left: 0,
        width: text.len() as u64,
        style: None,
    }
}

fn test_settings() -> RendererSettings {
    RendererSettings::new()
}

// Ring rotation reads like a naive shift: non-vacated slots are
// unchanged, and rotating by at least the length is survived.
#[test]
fn ring_rotate_matches_naive_shift() {
    let mut ring: RingBuffer<u64> = RingBuffer::new(5, 0);
    for i in 0..5 {
        ring.set(i as isize, 10 + i as u64);
    }
    ring.rotate(2);
    // logical index i now reads the old element at i + 2
    assert_eq!(*ring.get(0), 12);
    assert_eq!(*ring.get(1), 13);
    assert_eq!(*ring.get(2), 14);
    // vacated slots wrap around, available to be overwritten
    assert_eq!(*ring.get(3), 10);
    assert_eq!(*ring.get(4), 11);

    ring.rotate(-2);
    assert_eq!(*ring.get(0), 10);
    assert_eq!(*ring.get(4), 14);

    // rotating by the length or more must not corrupt anything
    ring.rotate(5);
    assert_eq!(*ring.get(0), 10);
    ring.rotate(17);
    assert_eq!(*ring.get(0), 12);
}

#[test]
fn ring_resize_resets_rotation() {
    let mut ring: RingBuffer<u64> = RingBuffer::new(4, 0);
    for i in 0..4 {
        ring.set(i as isize, i as u64);
    }
    ring.rotate(3);
    ring.resize(6, 9);
    assert_eq!(ring.len(), 6);
    // the logical prefix survives, new slots hold the default
    assert_eq!(*ring.get(0), 3);
    assert_eq!(*ring.get(4), 9);
    assert_eq!(*ring.get(5), 9);
}

// The spring converges to its target and then reports the animation
// finished.
#[test]
fn spring_converges_to_target() {
    let mut spring = CriticallyDampedSpringAnimation::new();
    spring.position = 5000;
    spring.velocity = 2000;
    let mut running = true;
    let mut steps = 0;
    while running && steps < 10_000 {
        running = spring.update(10, 300);
        steps += 1;
    }
    assert!(!running, "spring still running after {steps} steps");
    // within a hundredth of a row of the target, snapped to exactly zero
    assert_eq!(spring.position, 0);
    assert_eq!(spring.velocity, 0);
    // once settled it stays settled and keeps reporting finished
    assert!(!spring.update(10, 300));
    assert_eq!(spring.position, 0);
}

#[test]
fn spring_reset_stops_animation() {
    let mut spring = CriticallyDampedSpringAnimation::new();
    spring.position = 123_000;
    spring.velocity = -500;
    spring.reset();
    assert_eq!(spring.position, 0);
    assert_eq!(spring.velocity, 0);
    assert!(!spring.update(16, 300));
}

#[test]
fn ease_out_expo_endpoints_and_midpoint() {
    assert_eq!(ease_out_expo(0), 0);
    assert_eq!(ease_out_expo(-5), 0);
    assert_eq!(ease_out_expo(1000), 1000);
    assert_eq!(ease_out_expo(2000), 1000);
    // halfway through the curve has already covered ~97%
    assert_eq!(ease_out_expo(500), 969);
}

#[test]
fn fixed_point_floor_and_clamp() {
    assert_eq!(floor_units(1700), 1);
    assert_eq!(floor_units(-500), -1);
    assert_eq!(floor_units(-2000), -2);
    assert_eq!(floor_units(999), 0);
    assert_eq!(clamp_i64(5, -3, 3), 3);
    assert_eq!(clamp_i64(-5, -3, 3), -3);
    assert_eq!(clamp_i64(2, -3, 3), 2);
}

// A floating window wider than the grid is pinned to the left edge; one
// that fits never hangs over the right edge.
#[test]
fn floating_window_clamps_to_grid() {
    let mut w = RenderedWindow::new(
        7,
        GridPos { x: 0, y: 0 },
        GridSize { width: 50, height: 10 },
    );
    w.handle_window_draw_command(WindowDrawCommand::Position {
        grid_position: GridPos { x: 70_000, y: 2_000 },
        grid_size: GridSize { width: 50, height: 10 },
        anchor_info: Some(AnchorInfo { anchor_grid_id: 1, sort_order: 1 }),
        window_type: WindowType::Floating,
    });
    let grid_rect = GridRect {
        min: GridPos { x: 0, y: 0 },
        max: GridPos { x: 80_000, y: 24_000 },
    };
    // width 50 cells = 50_000 thousandths; requested x 70_000 would place
    // the right edge at 120_000, past the grid
    let target = w.get_target_position(&grid_rect);
    assert_eq!(target.x, 30_000);
    assert!(target.x >= grid_rect.min.x);
    assert!(target.x + 50_000 <= grid_rect.max.x);

    // wider than the whole grid: pinned to the left edge
    w.handle_window_draw_command(WindowDrawCommand::Position {
        grid_position: GridPos { x: 5_000, y: 0 },
        grid_size: GridSize { width: 100, height: 10 },
        anchor_info: Some(AnchorInfo { anchor_grid_id: 1, sort_order: 1 }),
        window_type: WindowType::Floating,
    });
    let target = w.get_target_position(&grid_rect);
    assert_eq!(target.x, grid_rect.min.x);
}

fn drawn_window() -> RenderedWindow {
    let mut w = RenderedWindow::new(
        1,
        GridPos { x: 0, y: 0 },
        GridSize { width: 8, height: 4 },
    );
    w.handle_window_draw_command(WindowDrawCommand::DrawLine {
        row: 0,
        line_fragments: vec![plain_fragment("hello")],
    });
    w.handle_window_draw_command(WindowDrawCommand::DrawLine {
        row: 1,
        line_fragments: vec![plain_fragment("        ")],
    });
    w.flush(&test_settings());
    w
}

// Preparing twice in a row without new content must not rebuild any
// cached picture: the build ids stay identical.
#[test]
fn prepare_lines_is_idempotent() {
    let mut w = drawn_window();
    let renderer = GridRenderer::new(
        GridScale { width: 8_000, height: 16_000 },
        default_colors(),
        false,
    );
    w.prepare_lines(&renderer);
    let first: Vec<Option<(Option<u64>, Option<u64>)>> = (0..8)
        .map(|i| {
            w.scrollback_lines.get(i).as_ref().map(|l| {
                (
                    l.background_picture.map(|p| p.build_id),
                    l.foreground_picture.map(|p| p.build_id),
                )
            })
        })
        .collect();
    let counter_after_first = w.build_counter;
    w.prepare_lines(&renderer);
    let second: Vec<Option<(Option<u64>, Option<u64>)>> = (0..8)
        .map(|i| {
            w.scrollback_lines.get(i).as_ref().map(|l| {
                (
                    l.background_picture.map(|p| p.build_id),
                    l.foreground_picture.map(|p| p.build_id),
                )
            })
        })
        .collect();
    assert_eq!(first, second);
    assert_eq!(w.build_counter, counter_after_first);
}

// A row whose cells all use the default background gets no background
// picture at all, and an all-blank row gets no foreground picture.
#[test]
fn default_background_produces_no_picture() {
    let mut w = drawn_window();
    let renderer = GridRenderer::new(
        GridScale { width: 8_000, height: 16_000 },
        default_colors(),
        false,
    );
    w.prepare_lines(&renderer);
    let text_row = w.scrollback_lines.get(0).as_ref().unwrap();
    assert!(text_row.background_picture.is_none());
    assert!(text_row.foreground_picture.is_some());
    assert!(text_row.is_valid);
    let blank_row = w.scrollback_lines.get(1).as_ref().unwrap();
    assert!(blank_row.background_picture.is_none());
    assert!(blank_row.foreground_picture.is_none());
    assert!(blank_row.is_valid);
}

// A fresh DrawLine invalidates exactly that row, and the next prepare
// rebuilds it with a new picture.
#[test]
fn draw_line_invalidates_row() {
    let mut w = drawn_window();
    let renderer = GridRenderer::new(
        GridScale { width: 8_000, height: 16_000 },
        default_colors(),
        false,
    );
    w.prepare_lines(&renderer);
    let old_id = w
        .scrollback_lines
        .get(0)
        .as_ref()
        .unwrap()
        .foreground_picture
        .unwrap()
        .build_id;
    w.handle_window_draw_command(WindowDrawCommand::DrawLine {
        row: 0,
        line_fragments: vec![plain_fragment("changed")],
    });
    w.flush(&test_settings());
    w.prepare_lines(&renderer);
    let new_id = w
        .scrollback_lines
        .get(0)
        .as_ref()
        .unwrap()
        .foreground_picture
        .unwrap()
        .build_id;
    assert_ne!(old_id, new_id);
}

// A scroll delta beyond what the scrollback can show makes a small
// bounded jump: the spring lands within `far_lines` rows, never at the
// raw delta.
#[test]
fn far_scroll_jump_is_bounded() {
    let mut w = drawn_window();
    let mut settings = test_settings();
    settings.scroll_animation_far_lines = 2;
    w.handle_window_draw_command(WindowDrawCommand::Viewport { scroll_delta: 5_000 });
    w.flush(&settings);
    let far = 2_000; // two rows, in thousandths
    assert!(w.scroll_animation.position >= -far);
    assert!(w.scroll_animation.position <= far);
    assert_eq!(w.scroll_animation.position, -far);

    w.handle_window_draw_command(WindowDrawCommand::Viewport { scroll_delta: -5_000 });
    w.flush(&settings);
    assert_eq!(w.scroll_animation.position, far);
}

// A small scroll delta moves the spring target by exactly `-delta`.
#[test]
fn small_scroll_delta_moves_spring() {
    let mut w = drawn_window();
    let settings = test_settings();
    w.handle_window_draw_command(WindowDrawCommand::Viewport { scroll_delta: 2 });
    w.flush(&settings);
    assert_eq!(w.scroll_animation.position, -2_000);
}

// Rows styled as floating-window chrome are inferred to be margins at
// flush time.
#[test]
fn border_rows_become_inferred_margins() {
    let border_style = Arc::new(Style {
        colors: Colors { foreground: None, background: None, special: None },
        reverse: false,
        italic: false,
        bold: false,
        strikethrough: false,
        underline: false,
        blend: 0,
        infos: vec![HighlightInfo {
            ui_name: "FloatBorder".to_string(),
            hi_name: "".to_string(),
        }],
    });
    let mut w = RenderedWindow::new(
        2,
        GridPos { x: 0, y: 0 },
        GridSize { width: 4, height: 3 },
    );
    w.handle_window_draw_command(WindowDrawCommand::DrawLine {
        row: 0,
        line_fragments: vec![LineFragment {
            text: "+--+".to_string(),
            window_left: 0,
            width: 4,
            style: Some(border_style.clone()),
        }],
    });
    w.handle_window_draw_command(WindowDrawCommand::DrawLine {
        row: 1,
        line_fragments: vec![plain_fragment("body")],
    });
    w.handle_window_draw_command(WindowDrawCommand::DrawLine {
        row: 2,
        line_fragments: vec![LineFragment {
            text: "+--+".to_string(),
            window_left: 0,
            width: 4,
            style: Some(border_style),
        }],
    });
    w.flush(&test_settings());
    assert!(w.viewport_margins.inferred);
    assert_eq!(w.viewport_margins.top, 1);
    assert_eq!(w.viewport_margins.bottom, 1);
    // one inner row, scrollback twice as deep
    assert_eq!(w.scrollback_lines.len(), 2);
}

// Explicit margins disable the inference.
#[test]
fn explicit_margins_stick() {
    let mut w = drawn_window();
    w.handle_window_draw_command(WindowDrawCommand::ViewportMargins {
        top: 1,
        bottom: 1,
        left: 0,
        right: 0,
    });
    w.flush(&test_settings());
    assert!(!w.viewport_margins.inferred);
    assert_eq!(w.viewport_margins.top, 1);
    assert_eq!(w.viewport_margins.bottom, 1);
    assert_eq!(w.scrollback_lines.len(), 4);
}

#[test]
fn draw_emits_fill_and_pictures() {
    let mut w = drawn_window();
    let renderer = GridRenderer::new(
        GridScale { width: 8_000, height: 16_000 },
        default_colors(),
        false,
    );
    w.prepare_lines(&renderer);
    let mut rects = Vec::new();
    let mut ops: Vec<DrawOp> = Vec::new();
    let details = w.draw(
        &test_settings(),
        GridScale { width: 8_000, height: 16_000 },
        true,
        &mut rects,
        &mut ops,
    );
    assert_eq!(details.id, 1);
    // the base window fills opaquely and has no shadow
    assert!(ops.iter().any(|op| matches!(
        op,
        DrawOp::FillBackground { opaque: true, .. }
    )));
    assert!(!ops.iter().any(|op| matches!(op, DrawOp::Shadow { .. })));
    assert!(rects.is_empty());
    // the text row's foreground picture is replayed
    let fg_id = w
        .scrollback_lines
        .get(0)
        .as_ref()
        .unwrap()
        .foreground_picture
        .unwrap()
        .build_id;
    assert!(ops.iter().any(|op| matches!(
        op,
        DrawOp::Picture { build_id, foreground: true, .. } if *build_id == fg_id
    )));
}

#[test]
fn compositor_routes_commands_and_orders_windows() {
    let grid_renderer = GridRenderer::new(
        GridScale { width: 8_000, height: 16_000 },
        default_colors(),
        false,
    );
    let mut renderer = Renderer::new(grid_renderer);
    renderer.handle_window_draw_command(
        4,
        WindowDrawCommand::Position {
            grid_position: GridPos { x: 0, y: 0 },
            grid_size: GridSize { width: 8, height: 4 },
            anchor_info: None,
            window_type: WindowType::Editor,
        },
    );
    renderer.handle_window_draw_command(
        2,
        WindowDrawCommand::Position {
            grid_position: GridPos { x: 1_000, y: 1_000 },
            grid_size: GridSize { width: 4, height: 2 },
            anchor_info: Some(AnchorInfo { anchor_grid_id: 4, sort_order: 10 }),
            window_type: WindowType::Floating,
        },
    );
    let grid_rect = GridRect {
        min: GridPos { x: 0, y: 0 },
        max: GridPos { x: 64_000, y: 64_000 },
    };
    let mut ops: Vec<DrawOp> = Vec::new();
    let (details, _animating) = renderer.draw_frame(
        &test_settings(),
        &grid_rect,
        16,
        true,
        &mut ops,
    );
    // base window first, floating window above it
    assert_eq!(details.len(), 2);
    assert_eq!(details[0].id, 4);
    assert_eq!(details[1].id, 2);

    renderer.handle_window_draw_command(2, WindowDrawCommand::Close);
    let mut ops2: Vec<DrawOp> = Vec::new();
    let (details, _) = renderer.draw_frame(&test_settings(), &grid_rect, 16, true, &mut ops2);
    assert_eq!(details.len(), 1);
    assert_eq!(details[0].id, 4);
}

#[test]
fn vsync_interval_matches_refresh_ratio() {
    // 60 Hz display, 60 Hz desired: every vsync
    assert_eq!(vsync_interval(16_667, 60), 1);
    // 60 Hz display, 30 Hz desired: every other vsync
    assert_eq!(vsync_interval(16_667, 30), 2);
    // 120 Hz display, 30 Hz desired
    assert_eq!(vsync_interval(8_333, 30), 4);
    // no measurement yet
    assert_eq!(vsync_interval(0, 60), 1);
    // absurdly low desired rates are clamped to 30
    assert_eq!(vsync_interval(16_667, 1), 2);
}

#[test]
fn frame_times_average_over_window() {
    let mut times = FrameTimes::new();
    assert_eq!(times.average(), 0);
    times.add_sample(10_000);
    times.add_sample(20_000);
    times.add_sample(30_000);
    assert_eq!(times.average(), 20_000);
    // the window keeps only the most recent samples
    for _ in 0..10 {
        times.add_sample(1_000);
    }
    assert_eq!(times.average(), 1_000);
}

#[test]
fn box_char_detection() {
    assert!(is_box_char("─"));
    assert!(is_box_char("│x"));
    assert!(is_box_char("█"));
    assert!(is_box_char("░"));
    assert!(!is_box_char("a"));
    assert!(!is_box_char(""));
    assert!(!is_box_char("┄"));
}

#[test]
fn text_helpers_match_contents() {
    assert!(str_eq("FloatBorder", "FloatBorder"));
    assert!(!str_eq("FloatBorder", "WinBar"));
    assert!(!str_eq("a", "ab"));
    assert!(has_visible_text(" x "));
    assert!(!has_visible_text("    "));
    assert!(!has_visible_text(""));
    assert_eq!(count_leading_blanks("   ab"), 3);
    assert_eq!(count_leading_blanks("ab"), 0);
    assert_eq!(count_leading_blanks("  "), 2);
}

#[test]
fn show_hide_toggle_visibility() {
    let mut w = drawn_window();
    w.handle_window_draw_command(WindowDrawCommand::Hide);
    assert!(w.hidden);
    w.handle_window_draw_command(WindowDrawCommand::Show);
    assert!(!w.hidden);
    // becoming visible snaps the scroll animation
    assert_eq!(w.scroll_animation.position, 0);
}

#[test]
fn clear_resets_scrollback() {
    let mut w = drawn_window();
    w.handle_window_draw_command(WindowDrawCommand::Viewport { scroll_delta: 1 });
    w.handle_window_draw_command(WindowDrawCommand::Clear);
    assert_eq!(w.scroll_delta, 0);
    for i in 0..8 {
        assert!(w.scrollback_lines.get(i).is_none());
    }
    assert_eq!(w.scroll_animation.position, 0);
}
