//! Scrollback/viewport model behaviour: construction, internal region
//! shifts, and the virtual-line view across the actual window and the
//! banked history while the animated scroll position catches up.

use smoothgrid::scrollback_buffer::ScrollbackBuffer;

fn assign_lines(buffer: &mut ScrollbackBuffer<i32>, lines: &[i32]) {
    buffer
        .actual_lines
        .iter_mut()
        .zip(lines.iter())
        .for_each(|(line, new_value)| *line = Some(*new_value));
}

fn assign_lines_at(buffer: &mut ScrollbackBuffer<i32>, pos: usize, lines: &[i32]) {
    buffer
        .actual_lines
        .iter_mut()
        .skip(pos)
        .zip(lines.iter())
        .for_each(|(line, new_value)| *line = Some(*new_value));
}

fn lines(lines: &[i32]) -> Vec<Option<i32>> {
    lines.iter().map(|v| Some(*v)).collect()
}

fn get_visible_lines(buffer: &ScrollbackBuffer<i32>) -> Vec<Option<i32>> {
    // Always return one extra line, to simulate what's happening when scrolling
    (0..buffer.actual_lines.len() + 1)
        .map(|i| buffer.get_visible_line(i).cloned())
        .collect()
}

#[test]
fn create() {
    let buffer = ScrollbackBuffer::<i32>::new(3);
    assert_eq!(buffer.actual_lines, [None, None, None]);
    assert_eq!(buffer.scrollback_lines.len(), 0);
    assert_eq!(buffer.actual_position, 0);
    assert_eq!(buffer.scroll_position, 0);
}

#[test]
fn scroll_internal_down() {
    let mut buffer = ScrollbackBuffer::<i32>::new(5);
    assign_lines(&mut buffer, &[1, 2, 3, 4, 5]);
    buffer.scroll_internal(0, 5, 3);
    assert_eq!(buffer.actual_lines[0..2], lines(&[4, 5]));
}

#[test]
fn scroll_internal_down_one_less_than_full() {
    let mut buffer = ScrollbackBuffer::<i32>::new(5);
    assign_lines(&mut buffer, &[1, 2, 3, 4, 5]);
    buffer.scroll_internal(0, 5, 4);
    assert_eq!(buffer.actual_lines[0..1], lines(&[5]));
}

#[test]
fn scroll_internal_down_full() {
    let mut buffer = ScrollbackBuffer::<i32>::new(5);
    assign_lines(&mut buffer, &[1, 2, 3, 4, 5]);
    buffer.scroll_internal(0, 5, 5);
    // Nothing should happen, since everything is invalidated
    assert_eq!(buffer.actual_lines[0..5], lines(&[1, 2, 3, 4, 5]));
}

#[test]
fn scroll_internal_down_more_than_full() {
    let mut buffer = ScrollbackBuffer::<i32>::new(5);
    assign_lines(&mut buffer, &[1, 2, 3, 4, 5]);
    buffer.scroll_internal(0, 5, 5);
    // Nothing should happen, since everything is invalidated
    assert_eq!(buffer.actual_lines[0..5], lines(&[1, 2, 3, 4, 5]));
}

#[test]
fn scroll_internal_up() {
    let mut buffer = ScrollbackBuffer::<i32>::new(5);
    assign_lines(&mut buffer, &[1, 2, 3, 4, 5]);
    buffer.scroll_internal(0, 5, -3);
    assert_eq!(buffer.actual_lines[3..5], lines(&[1, 2]));
}

#[test]
fn scroll_internal_up_one_less_than_full() {
    let mut buffer = ScrollbackBuffer::<i32>::new(5);
    assign_lines(&mut buffer, &[1, 2, 3, 4, 5]);
    buffer.scroll_internal(0, 5, -4);
    assert_eq!(buffer.actual_lines[4..5], lines(&[1]));
}

#[test]
fn scroll_internal_up_full() {
    let mut buffer = ScrollbackBuffer::<i32>::new(5);
    assign_lines(&mut buffer, &[1, 2, 3, 4, 5]);
    buffer.scroll_internal(0, 5, -5);
    // Nothing should happen, since everything is invalidated
    assert_eq!(buffer.actual_lines[0..5], lines(&[1, 2, 3, 4, 5]));
}

#[test]
fn scroll_internal_up_more_than_full() {
    let mut buffer = ScrollbackBuffer::<i32>::new(5);
    assign_lines(&mut buffer, &[1, 2, 3, 4, 5]);
    buffer.scroll_internal(0, 5, -5);
    // Nothing should happen, since everything is invalidated
    assert_eq!(buffer.actual_lines[0..5], lines(&[1, 2, 3, 4, 5]));
}

#[test]
fn scroll_internal_middle_down() {
    let mut buffer = ScrollbackBuffer::<i32>::new(5);
    assign_lines(&mut buffer, &[1, 2, 3, 4, 5]);
    buffer.scroll_internal(1, 4, 1);
    assert_eq!(buffer.actual_lines[0..3], lines(&[1, 3, 4]));
    assert_eq!(buffer.actual_lines[4..5], lines(&[5]));
}

#[test]
fn scroll_internal_middle_up() {
    let mut buffer = ScrollbackBuffer::<i32>::new(5);
    assign_lines(&mut buffer, &[1, 2, 3, 4, 5]);
    buffer.scroll_internal(1, 4, -1);
    assert_eq!(buffer.actual_lines[0..1], lines(&[1]));
    assert_eq!(buffer.actual_lines[2..5], lines(&[2, 3, 5]));
}

#[test]
fn scroll_down() {
    let mut buffer = ScrollbackBuffer::<i32>::new(5);
    assign_lines(&mut buffer, &[1, 2, 3, 4, 5]);
    buffer.scroll(2);
    buffer.scroll_internal(0, 5, 2);
    assign_lines_at(&mut buffer, 3, &[6, 7]);
    assert_eq!(buffer.scroll_position, 0);
    assert_eq!(buffer.actual_position, 2);
    assert_eq!(get_visible_lines(&buffer), lines(&[1, 2, 3, 4, 5, 6]));
    assert_eq!(buffer.get_scroll_delta(), -2000);
    assert_eq!(buffer.get_scroll_offset(), 0);

    buffer.scroll_position = 500;
    assert_eq!(get_visible_lines(&buffer), lines(&[1, 2, 3, 4, 5, 6]));
    assert_eq!(buffer.get_scroll_delta(), -1500);
    assert_eq!(buffer.get_scroll_offset(), -500);

    buffer.scroll_position = 1000;
    assert_eq!(get_visible_lines(&buffer), lines(&[2, 3, 4, 5, 6, 7]));
    assert_eq!(buffer.get_scroll_delta(), -1000);
    assert_eq!(buffer.get_scroll_offset(), 0);

    buffer.scroll_position = 1200;
    assert_eq!(get_visible_lines(&buffer), lines(&[2, 3, 4, 5, 6, 7]));
    assert_eq!(buffer.get_scroll_delta(), -800);
    assert_eq!(buffer.get_scroll_offset(), -200);

    buffer.scroll_position = 1700;
    assert_eq!(get_visible_lines(&buffer), lines(&[2, 3, 4, 5, 6, 7]));
    assert_eq!(buffer.get_scroll_delta(), -300);
    assert_eq!(buffer.get_scroll_offset(), -700);

    buffer.scroll_position = 2000;
    assert_eq!(
        get_visible_lines(&buffer),
        &[Some(3), Some(4), Some(5), Some(6), Some(7), None]
    );
    assert_eq!(buffer.get_scroll_delta(), 0);
    assert_eq!(buffer.get_scroll_offset(), 0);
}

#[test]
fn scroll_up() {
    let mut buffer = ScrollbackBuffer::<i32>::new(5);
    assign_lines(&mut buffer, &[1, 2, 3, 4, 5]);
    buffer.scroll(-2);
    buffer.scroll_internal(0, 5, -2);
    assign_lines_at(&mut buffer, 0, &[-1, 0]);
    assert_eq!(buffer.scroll_position, 0);
    assert_eq!(buffer.actual_position, -2);
    assert_eq!(
        get_visible_lines(&buffer),
        &[Some(1), Some(2), Some(3), Some(4), Some(5), None]
    );
    assert_eq!(buffer.get_scroll_delta(), 2000);
    assert_eq!(buffer.get_scroll_offset(), 0);

    buffer.scroll_position = -500;
    assert_eq!(get_visible_lines(&buffer), lines(&[0, 1, 2, 3, 4, 5]));
    assert_eq!(buffer.get_scroll_delta(), 1500);
    assert_eq!(buffer.get_scroll_offset(), -500);

    buffer.scroll_position = -1000;
    assert_eq!(get_visible_lines(&buffer), lines(&[0, 1, 2, 3, 4, 5]));
    assert_eq!(buffer.get_scroll_delta(), 1000);
    assert_eq!(buffer.get_scroll_offset(), 0);

    buffer.scroll_position = -1200;
    assert_eq!(get_visible_lines(&buffer), lines(&[-1, 0, 1, 2, 3, 4]));
    assert_eq!(buffer.get_scroll_delta(), 800);
    assert_eq!(buffer.get_scroll_offset(), -800);

    buffer.scroll_position = -1700;
    assert_eq!(get_visible_lines(&buffer), lines(&[-1, 0, 1, 2, 3, 4]));
    assert_eq!(buffer.get_scroll_delta(), 300);
    assert_eq!(buffer.get_scroll_offset(), -300);

    buffer.scroll_position = -2000;
    assert_eq!(get_visible_lines(&buffer), lines(&[-1, 0, 1, 2, 3, 4]));
    assert_eq!(buffer.get_scroll_delta(), 0);
    assert_eq!(buffer.get_scroll_offset(), 0);
}

#[test]
fn visible_line_far_past_the_window_is_empty() {
    let mut buffer = ScrollbackBuffer::<i32>::new(3);
    assign_lines(&mut buffer, &[1, 2, 3]);
    assert_eq!(buffer.get_visible_line(3), None);
    assert_eq!(buffer.get_visible_line(1_000_000), None);
    assert_eq!(buffer.get_visible_line(usize::MAX), None);
}
