//! Character-grid behaviour: construction, cell access, clearing,
//! resizing, and the region scroll in both its optimized full-width form
//! (which keeps scrolled-out rows for the smooth-scrolling view) and its
//! in-place partial form.

use rand::{thread_rng, Rng};
use smoothgrid::grid::{default_cell, CharacterGrid, GridCell};
use smoothgrid::style::{Colors, Style};
use std::sync::Arc;

#[derive(Debug)]
struct Context {
    none_colors: Colors,
    size: (usize, usize),
    x: usize,
    y: usize,
}

impl Context {
    fn new() -> Self {
        let size = (
            (thread_rng().gen::<usize>() % 500) + 1,
            (thread_rng().gen::<usize>() % 500) + 1,
        );
        let (x, y) = (
            thread_rng().gen::<usize>() % size.0,
            thread_rng().gen::<usize>() % size.1,
        );
        Self {
            none_colors: Colors {
                foreground: None,
                background: None,
                special: None,
            },
            size,
            x,
            y,
        }
    }
}

fn assert_all_cells_equal_to(context: &Context, grid: &CharacterGrid, cell: &GridCell) {
    for x in 0..context.size.0 {
        for y in 0..context.size.1 {
            assert_eq!(grid.get_cell(x, y), Some(cell));
        }
    }
}

fn assert_grid_cell_equal_to_char(grid: &CharacterGrid, x: usize, y: usize, chr: &str) {
    let chr = chr.to_string();
    let value = (chr, None);
    let cell = Some(&value);
    assert_eq!(grid.get_cell(x, y), cell);
}

fn assert_scrolled_row_equal_to(grid: &CharacterGrid, row: usize, expected: &str) {
    let values: Vec<GridCell> = expected
        .chars()
        .map(|chr| (chr.to_string(), None))
        .collect();
    let row = grid.scrolled_row(row);
    assert_eq!(row, &values);
}

fn create_initialized_grid(lines: &Vec<&str>) -> CharacterGrid {
    let num_lines = lines.len();
    assert_ne!(num_lines, 0);
    let line_lengths: Vec<usize> = lines.iter().map(|s| s.len()).collect();
    let num_columns = line_lengths[0];
    assert_eq!(line_lengths, vec![num_columns; num_lines]);
    let mut grid = CharacterGrid::new((num_columns, num_lines));
    for (row_nr, line) in lines.iter().enumerate() {
        for (col_nr, chr) in line.chars().enumerate() {
            *grid.get_cell_mut(col_nr, row_nr).unwrap() = (chr.to_string(), None);
        }
    }
    grid
}

fn set_grid_line_to_chars(grid: &mut CharacterGrid, row: usize, value: &str) {
    assert_eq!(value.len(), grid.width);
    for (col_nr, chr) in value.chars().enumerate() {
        *grid.get_cell_mut(col_nr, row).unwrap() = (chr.to_string(), None);
    }
}

#[test]
fn new_constructs_grid() {
    let context = Context::new();

    // RUN FUNCTION
    let character_grid = CharacterGrid::new(context.size);
    assert_eq!(character_grid.width, context.size.0);
    assert_eq!(character_grid.height, context.size.1);
    assert_all_cells_equal_to(&context, &character_grid, &default_cell());
}

#[test]
fn get_cell_returns_expected_cell() {
    let context = Context::new();
    let mut character_grid = CharacterGrid::new(context.size);

    character_grid.lines[context.y].characters[context.x] = (
        "foo".to_string(),
        Some(Arc::new(Style::new(context.none_colors.clone()))),
    );
    let result = (
        "foo".to_string(),
        Some(Arc::new(Style::new(context.none_colors.clone()))),
    );

    // RUN FUNCTION
    assert_eq!(
        character_grid.get_cell(context.x, context.y).unwrap(),
        &result
    );
}

#[test]
fn get_cell_mut_modifiers_grid_properly() {
    let context = Context::new();
    let mut character_grid = CharacterGrid::new(context.size);

    character_grid.lines[context.y].characters[context.x] = (
        "foo".to_string(),
        Some(Arc::new(Style::new(context.none_colors.clone()))),
    );
    let result = (
        "bar".to_string(),
        Some(Arc::new(Style::new(context.none_colors.clone()))),
    );

    // RUN FUNCTION
    let cell = character_grid.get_cell_mut(context.x, context.y).unwrap();
    *cell = (
        "bar".to_string(),
        Some(Arc::new(Style::new(context.none_colors.clone()))),
    );

    assert_eq!(
        character_grid.get_cell_mut(context.x, context.y).unwrap(),
        &result
    );
}

#[test]
fn set_all_characters_sets_all_cells_to_given_character() {
    let context = Context::new();
    let grid_cell = (
        "foo".to_string(),
        Some(Arc::new(Style::new(context.none_colors.clone()))),
    );
    let mut character_grid = CharacterGrid::new(context.size);

    // RUN FUNCTION
    character_grid.set_all_characters(grid_cell.clone());
    assert_all_cells_equal_to(&context, &character_grid, &grid_cell);
}

#[test]
fn clear_empties_buffer() {
    let context = Context::new();
    let mut character_grid = CharacterGrid::new(context.size);

    let grid_cell = (
        "foo".to_string(),
        Some(Arc::new(Style::new(context.none_colors.clone()))),
    );
    character_grid.set_all_characters(grid_cell.clone());

    // RUN FUNCTION
    character_grid.clear();

    assert_eq!(character_grid.width, context.size.0);
    assert_eq!(character_grid.height, context.size.1);
    assert_all_cells_equal_to(&context, &character_grid, &default_cell());
}

#[test]
fn resize_clears_and_resizes_grid() {
    let context = Context::new();
    let mut character_grid = CharacterGrid::new(context.size);
    let (width, height) = (
        (thread_rng().gen::<usize>() % 500) + 1,
        (thread_rng().gen::<usize>() % 500) + 1,
    );

    let grid_cell = (
        "foo".to_string(),
        Some(Arc::new(Style::new(context.none_colors))),
    );
    character_grid.set_all_characters(grid_cell.clone());

    // RUN FUNCTION
    character_grid.resize((width, height));

    assert_eq!(character_grid.width, width);
    assert_eq!(character_grid.height, height);

    let (original_width, original_height) = context.size;
    for x in 0..original_width.min(width) {
        for y in 0..original_height.min(height) {
            assert_eq!(character_grid.get_cell(x, y).unwrap(), &grid_cell);
        }
    }

    for x in original_width..width {
        for y in original_height..height {
            assert_eq!(character_grid.get_cell(x, y).unwrap(), &default_cell());
        }
    }
}

#[test]
fn scroll_down_moves_the_grid_correctly() {
    let mut grid = create_initialized_grid(&["abcd", "efgh", "ijkl", "mnop"].to_vec());

    grid.scroll_region(0, 4, 0, 4, 2, 0);
    assert_grid_cell_equal_to_char(&grid, 0, 0, "i");
    assert_grid_cell_equal_to_char(&grid, 3, 0, "l");
    assert_grid_cell_equal_to_char(&grid, 0, 1, "m");

    assert_eq!(grid.scroll_offset, -2000);
    // The scrolled rows should display the old view
    assert_scrolled_row_equal_to(&grid, 0, "abcd");
    assert_scrolled_row_equal_to(&grid, 1, "efgh");
    assert_scrolled_row_equal_to(&grid, 2, "ijkl");
    assert_scrolled_row_equal_to(&grid, 3, "mnop");
}

#[test]
fn scroll_up_moves_the_grid_correctly() {
    let mut grid = create_initialized_grid(&["abcd", "efgh", "ijkl", "mnop"].to_vec());

    grid.scroll_region(0, 4, 0, 4, -2, 0);
    assert_grid_cell_equal_to_char(&grid, 0, 2, "a");
    assert_grid_cell_equal_to_char(&grid, 0, 3, "e");
    assert_grid_cell_equal_to_char(&grid, 3, 3, "h");

    assert_eq!(grid.scroll_offset, 2000);
    // The scrolled rows should display the old view
    assert_scrolled_row_equal_to(&grid, 0, "abcd");
    assert_scrolled_row_equal_to(&grid, 1, "efgh");
    assert_scrolled_row_equal_to(&grid, 2, "ijkl");
    assert_scrolled_row_equal_to(&grid, 3, "mnop");
}

#[test]
fn partial_scroll_lines_down_moves_the_grid_correctly() {
    let mut grid = create_initialized_grid(&["abcd", "efgh", "ijkl", "mnop"].to_vec());

    grid.scroll_region(1, 3, 0, 4, 1, 0);
    // The initial line is not touched
    assert_grid_cell_equal_to_char(&grid, 0, 0, "a");

    assert_grid_cell_equal_to_char(&grid, 0, 1, "i");
    assert_grid_cell_equal_to_char(&grid, 3, 1, "l");

    // The last line is not touched either
    assert_grid_cell_equal_to_char(&grid, 0, 3, "m");

    // Partial scrolling resets the offset
    assert_eq!(grid.scroll_offset, 0);
}

#[test]
fn partial_scroll_lines_up_moves_the_grid_correctly() {
    let mut grid = create_initialized_grid(&["abcd", "efgh", "ijkl", "mnop"].to_vec());

    grid.scroll_region(1, 3, 0, 4, -1, 0);
    // The initial line is not touched
    assert_grid_cell_equal_to_char(&grid, 0, 0, "a");

    assert_grid_cell_equal_to_char(&grid, 0, 2, "e");
    assert_grid_cell_equal_to_char(&grid, 3, 2, "h");

    // The last line is not touched either
    assert_grid_cell_equal_to_char(&grid, 0, 3, "m");

    // Partial scrolling resets the offset
    assert_eq!(grid.scroll_offset, 0);
}

#[test]
fn scroll_left_moves_the_grid_correctly() {
    let mut grid = create_initialized_grid(&["abcd", "efgh", "ijkl", "mnop"].to_vec());

    grid.scroll_region(0, 4, 0, 4, 0, 1);
    assert_grid_cell_equal_to_char(&grid, 0, 0, "b");
    assert_grid_cell_equal_to_char(&grid, 2, 2, "l");

    // Left scrolling resets the offset
    assert_eq!(grid.scroll_offset, 0);
}

#[test]
fn scroll_right_moves_the_grid_correctly() {
    let mut grid = create_initialized_grid(&["abcd", "efgh", "ijkl", "mnop"].to_vec());

    grid.scroll_region(0, 4, 0, 4, 0, -3);
    assert_grid_cell_equal_to_char(&grid, 3, 0, "a");
    assert_grid_cell_equal_to_char(&grid, 3, 3, "m");

    // Right scrolling resets the offset
    assert_eq!(grid.scroll_offset, 0);
}

#[test]
fn scroll_inner_box_diagonally_moves_the_grid_correctly() {
    let mut grid = create_initialized_grid(&["abcd", "efgh", "ijkl", "mnop"].to_vec());

    grid.scroll_region(1, 3, 1, 3, 1, 1);
    // The first row is preserved
    assert_grid_cell_equal_to_char(&grid, 0, 0, "a");
    assert_grid_cell_equal_to_char(&grid, 1, 0, "b");

    // The first character is not touched
    assert_grid_cell_equal_to_char(&grid, 0, 1, "e");

    // Only k is part of the box now
    assert_grid_cell_equal_to_char(&grid, 1, 1, "k");

    // The last character is not touched
    assert_grid_cell_equal_to_char(&grid, 3, 1, "h");

    // The last row is preserved
    assert_grid_cell_equal_to_char(&grid, 0, 3, "m");

    // Partial scrolling resets the offset
    assert_eq!(grid.scroll_offset, 0);
}

#[test]
fn smooth_scrolling_down_works_as_it_should() {
    let mut grid = create_initialized_grid(&["1", "2", "3", "4"].to_vec());
    // Scroll down one line
    grid.scroll_region(0, 4, 0, 1, 1, 0);
    set_grid_line_to_chars(&mut grid, 3, "5");

    assert_eq!(grid.top_index, 1);
    assert_eq!(grid.scroll_offset, -1000);
    // The scrolled rows should display the old view
    assert_scrolled_row_equal_to(&grid, 0, "1");
    assert_scrolled_row_equal_to(&grid, 1, "2");
    assert_scrolled_row_equal_to(&grid, 2, "3");
    assert_scrolled_row_equal_to(&grid, 3, "4");

    grid.scroll_offset = -500;
    assert_scrolled_row_equal_to(&grid, 0, "1");
    assert_scrolled_row_equal_to(&grid, 1, "2");
    assert_scrolled_row_equal_to(&grid, 2, "3");
    assert_scrolled_row_equal_to(&grid, 3, "4");
    assert_scrolled_row_equal_to(&grid, 4, "5");

    grid.scroll_offset = 0;
    assert_scrolled_row_equal_to(&grid, 0, "2");
    assert_scrolled_row_equal_to(&grid, 1, "3");
    assert_scrolled_row_equal_to(&grid, 2, "4");
    assert_scrolled_row_equal_to(&grid, 3, "5");

    // Scroll one more line
    grid.scroll_region(0, 4, 0, 1, 1, 0);
    set_grid_line_to_chars(&mut grid, 3, "6");
    assert_eq!(grid.top_index, 2);
    assert_eq!(grid.scroll_offset, -1000);

    // And again two more, before the smooth scrolling catches up
    grid.scroll_region(0, 4, 0, 1, 2, 0);
    set_grid_line_to_chars(&mut grid, 2, "7");
    set_grid_line_to_chars(&mut grid, 3, "8");
    assert_eq!(grid.top_index, 4);
    assert_eq!(grid.scroll_offset, -3000);

    assert_scrolled_row_equal_to(&grid, 0, "2");
    assert_scrolled_row_equal_to(&grid, 1, "3");
    assert_scrolled_row_equal_to(&grid, 2, "4");
    assert_scrolled_row_equal_to(&grid, 3, "5");

    // Smooth scroll one line
    grid.scroll_offset = -2000;
    assert_scrolled_row_equal_to(&grid, 0, "3");
    assert_scrolled_row_equal_to(&grid, 1, "4");
    assert_scrolled_row_equal_to(&grid, 2, "5");
    assert_scrolled_row_equal_to(&grid, 3, "6");

    // Smooth scroll one line
    grid.scroll_offset = -1000;
    assert_scrolled_row_equal_to(&grid, 0, "4");
    assert_scrolled_row_equal_to(&grid, 1, "5");
    assert_scrolled_row_equal_to(&grid, 2, "6");
    assert_scrolled_row_equal_to(&grid, 3, "7");

    // Smooth scroll one line
    grid.scroll_offset = 0;
    assert_scrolled_row_equal_to(&grid, 0, "5");
    assert_scrolled_row_equal_to(&grid, 1, "6");
    assert_scrolled_row_equal_to(&grid, 2, "7");
    assert_scrolled_row_equal_to(&grid, 3, "8");
}

#[test]
fn smooth_scrolling_up_works_as_it_should() {
    let mut grid = create_initialized_grid(&["1", "2", "3", "4"].to_vec());
    // Scroll down one line
    grid.scroll_region(0, 4, 0, 1, -1, 0);
    set_grid_line_to_chars(&mut grid, 0, "5");

    assert_eq!(grid.top_index, -1);
    assert_eq!(grid.scroll_offset, 1000);
    // The scrolled rows should display the old view
    assert_scrolled_row_equal_to(&grid, 0, "1");
    assert_scrolled_row_equal_to(&grid, 1, "2");
    assert_scrolled_row_equal_to(&grid, 2, "3");
    assert_scrolled_row_equal_to(&grid, 3, "4");

    grid.scroll_offset = 500;
    assert_scrolled_row_equal_to(&grid, 0, "5");
    assert_scrolled_row_equal_to(&grid, 1, "1");
    assert_scrolled_row_equal_to(&grid, 2, "2");
    assert_scrolled_row_equal_to(&grid, 3, "3");
    assert_scrolled_row_equal_to(&grid, 4, "4");

    grid.scroll_offset = 0;
    assert_scrolled_row_equal_to(&grid, 0, "5");
    assert_scrolled_row_equal_to(&grid, 1, "1");
    assert_scrolled_row_equal_to(&grid, 2, "2");
    assert_scrolled_row_equal_to(&grid, 3, "3");
}

#[test]
fn smooth_scrolling_down_then_up_works_as_it_should() {
    let mut grid = create_initialized_grid(&["1", "2", "3", "4"].to_vec());
    // Scroll down one line
    grid.scroll_region(0, 4, 0, 1, 1, 0);
    set_grid_line_to_chars(&mut grid, 3, "5");

    grid.scroll_offset = -500;
    assert_scrolled_row_equal_to(&grid, 0, "1");
    assert_scrolled_row_equal_to(&grid, 1, "2");
    assert_scrolled_row_equal_to(&grid, 2, "3");
    assert_scrolled_row_equal_to(&grid, 3, "4");
    assert_scrolled_row_equal_to(&grid, 4, "5");

    // Scroll up two lines
    grid.scroll_region(0, 4, 0, 1, -2, 0);
    set_grid_line_to_chars(&mut grid, 0, "0");
    set_grid_line_to_chars(&mut grid, 1, "1");
    assert_eq!(grid.scroll_offset, 1500);

    // The smooth scrolling view should not change automatically
    assert_scrolled_row_equal_to(&grid, 0, "1");
    assert_scrolled_row_equal_to(&grid, 1, "2");
    assert_scrolled_row_equal_to(&grid, 2, "3");
    assert_scrolled_row_equal_to(&grid, 3, "4");
    assert_scrolled_row_equal_to(&grid, 4, "5");

    grid.scroll_offset = 500;
    // Start scrolling the topmost actual line into view
    assert_scrolled_row_equal_to(&grid, 0, "0");
    assert_scrolled_row_equal_to(&grid, 1, "1");
    assert_scrolled_row_equal_to(&grid, 2, "2");
    assert_scrolled_row_equal_to(&grid, 3, "3");
    assert_scrolled_row_equal_to(&grid, 4, "4");
}

#[test]
fn smooth_scrolling_one_screen_down_works() {
    let mut grid = create_initialized_grid(&["1", "2", "3", "4"].to_vec());
    // Scroll down one screen
    grid.scroll_region(0, 4, 0, 1, 4, 0);
    set_grid_line_to_chars(&mut grid, 0, "5");
    set_grid_line_to_chars(&mut grid, 1, "6");
    set_grid_line_to_chars(&mut grid, 2, "7");
    set_grid_line_to_chars(&mut grid, 3, "8");

    assert_eq!(grid.scroll_offset, -4000);

    assert_scrolled_row_equal_to(&grid, 0, "1");
    assert_scrolled_row_equal_to(&grid, 1, "2");
    assert_scrolled_row_equal_to(&grid, 2, "3");
    assert_scrolled_row_equal_to(&grid, 3, "4");

    grid.scroll_offset = 0;
    assert_scrolled_row_equal_to(&grid, 0, "5");
    assert_scrolled_row_equal_to(&grid, 1, "6");
    assert_scrolled_row_equal_to(&grid, 2, "7");
    assert_scrolled_row_equal_to(&grid, 3, "8");
}

#[test]
fn smooth_scrolling_more_than_one_screen_down_works_makes_a_small_jump() {
    let mut grid = create_initialized_grid(&["1", "2", "3", "4"].to_vec());
    // Scroll down one screen
    grid.scroll_region(0, 4, 0, 1, 4, 0);
    set_grid_line_to_chars(&mut grid, 0, "5");
    set_grid_line_to_chars(&mut grid, 1, "6");
    set_grid_line_to_chars(&mut grid, 2, "7");
    set_grid_line_to_chars(&mut grid, 3, "8");

    assert_eq!(grid.scroll_offset, -4000);

    // And another line, before the smooth scrolling has caught up
    grid.scroll_region(0, 4, 0, 1, 1, 0);
    set_grid_line_to_chars(&mut grid, 3, "9");

    // There's now a one row jump
    assert_eq!(grid.scroll_offset, -4000);
    assert_scrolled_row_equal_to(&grid, 0, "2");
    assert_scrolled_row_equal_to(&grid, 1, "3");
    assert_scrolled_row_equal_to(&grid, 2, "4");
    assert_scrolled_row_equal_to(&grid, 3, "5");

    grid.scroll_offset = 0;
    assert_scrolled_row_equal_to(&grid, 0, "6");
    assert_scrolled_row_equal_to(&grid, 1, "7");
    assert_scrolled_row_equal_to(&grid, 2, "8");
    assert_scrolled_row_equal_to(&grid, 3, "9");
}

#[test]
fn scrolling_down_more_than_one_screen_at_onece_jumps_to_the_destination() {
    let mut grid = create_initialized_grid(&["1", "2", "3", "4"].to_vec());
    // Scroll down more than one screen
    grid.scroll_region(0, 4, 0, 1, 5, 0);
    set_grid_line_to_chars(&mut grid, 0, "6");
    set_grid_line_to_chars(&mut grid, 1, "7");
    set_grid_line_to_chars(&mut grid, 2, "8");
    set_grid_line_to_chars(&mut grid, 3, "9");

    // The scrolling has to jump to the final destination, since there's missing data
    // (row 5)
    assert_eq!(grid.scroll_offset, 0);
    assert_scrolled_row_equal_to(&grid, 0, "6");
    assert_scrolled_row_equal_to(&grid, 1, "7");
    assert_scrolled_row_equal_to(&grid, 2, "8");
    assert_scrolled_row_equal_to(&grid, 3, "9");
}

#[test]
fn smooth_scrolling_one_screen_up_works() {
    let mut grid = create_initialized_grid(&["5", "6", "7", "8"].to_vec());
    // Scroll up one screen
    grid.scroll_region(0, 4, 0, 1, -4, 0);
    set_grid_line_to_chars(&mut grid, 0, "1");
    set_grid_line_to_chars(&mut grid, 1, "2");
    set_grid_line_to_chars(&mut grid, 2, "3");
    set_grid_line_to_chars(&mut grid, 3, "4");

    assert_eq!(grid.scroll_offset, 4000);

    assert_scrolled_row_equal_to(&grid, 0, "5");
    assert_scrolled_row_equal_to(&grid, 1, "6");
    assert_scrolled_row_equal_to(&grid, 2, "7");
    assert_scrolled_row_equal_to(&grid, 3, "8");

    grid.scroll_offset = 0;
    assert_scrolled_row_equal_to(&grid, 0, "1");
    assert_scrolled_row_equal_to(&grid, 1, "2");
    assert_scrolled_row_equal_to(&grid, 2, "3");
    assert_scrolled_row_equal_to(&grid, 3, "4");
}

#[test]
fn smooth_scrolling_more_than_one_screen_up_works_makes_a_small_jump() {
    let mut grid = create_initialized_grid(&["5", "6", "7", "8"].to_vec());
    // Scroll up one screen
    grid.scroll_region(0, 4, 0, 1, -4, 0);
    set_grid_line_to_chars(&mut grid, 0, "1");
    set_grid_line_to_chars(&mut grid, 1, "2");
    set_grid_line_to_chars(&mut grid, 2, "3");
    set_grid_line_to_chars(&mut grid, 3, "4");

    assert_eq!(grid.scroll_offset, 4000);

    // And another line, before the smooth scrolling has caught up
    grid.scroll_region(0, 4, 0, 1, -1, 0);
    set_grid_line_to_chars(&mut grid, 0, "0");

    // There's now a one row jump
    assert_eq!(grid.scroll_offset, 4000);
    assert_scrolled_row_equal_to(&grid, 0, "4");
    assert_scrolled_row_equal_to(&grid, 1, "5");
    assert_scrolled_row_equal_to(&grid, 2, "6");
    assert_scrolled_row_equal_to(&grid, 3, "7");

    grid.scroll_offset = 0;
    assert_scrolled_row_equal_to(&grid, 0, "0");
    assert_scrolled_row_equal_to(&grid, 1, "1");
    assert_scrolled_row_equal_to(&grid, 2, "2");
    assert_scrolled_row_equal_to(&grid, 3, "3");
}

#[test]
fn scrolling_up_more_than_one_screen_at_onece_jumps_to_the_destination() {
    let mut grid = create_initialized_grid(&["6", "7", "8", "9"].to_vec());
    // Scroll up more than one screen
    grid.scroll_region(0, 4, 0, 1, -5, 0);
    set_grid_line_to_chars(&mut grid, 0, "1");
    set_grid_line_to_chars(&mut grid, 1, "2");
    set_grid_line_to_chars(&mut grid, 2, "3");
    set_grid_line_to_chars(&mut grid, 3, "4");

    // The scrolling has to jump to the final destination, since there's missing data
    // (row 5)
    assert_eq!(grid.scroll_offset, 0);
    assert_scrolled_row_equal_to(&grid, 0, "1");
    assert_scrolled_row_equal_to(&grid, 1, "2");
    assert_scrolled_row_equal_to(&grid, 2, "3");
    assert_scrolled_row_equal_to(&grid, 3, "4");
}

#[test]
fn cell_access_wraps_any_row_index() {
    let grid = create_initialized_grid(&["ab", "cd"].to_vec());
    // the doubled buffer holds four rows; any index wraps modulo four
    assert_eq!(grid.get_cell(0, 0), grid.get_cell(0, 4));
    assert_eq!(grid.get_cell(1, 1), grid.get_cell(1, 5));
    assert_eq!(grid.get_cell(0, 2), grid.get_cell(0, 6));
    // columns outside the width still yield nothing
    assert_eq!(grid.get_cell(2, 7), None);
    // the scrolled view wraps the same way
    assert_eq!(grid.scrolled_row(0), grid.scrolled_row(4));
}
