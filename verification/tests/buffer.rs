use line_editor::buffer::{coordinate, Buffer, Cell, Line, Lines, Pos};
use line_editor::builder::BufferBuilder;
use line_editor::style::{Color, Style, StyleFlags};

fn plain() -> Option<Style> {
    Some(Style::reset())
}

fn cell(text: &str) -> Cell {
    Cell { text: text.to_string(), style: plain() }
}

fn line(cells: &[&str]) -> Line {
    Line(cells.iter().map(|c| cell(c)).collect())
}

fn numbered(n: usize, dot_line: u16) -> Buffer {
    let lines = (0..n).map(|i| line(&[&format!("{}", i)])).collect();
    Buffer { width: 20, lines: Lines(lines), dot: Pos::new(1, dot_line) }
}

fn shown(buf: &Buffer) -> Vec<String> {
    buf.lines.0.iter().map(|l| l.0.iter().map(|c| c.text.as_str()).collect()).collect()
}

#[test]
fn positions() {
    assert_eq!(Pos::new(3, 4), Pos { col: 3, line: 4 });
    assert_eq!(Pos::default(), Pos { col: 0, line: 0 });
    assert_eq!(coordinate(0), 0);
    assert_eq!(coordinate(65535), 65535);
    assert_eq!(coordinate(65536), 65535);
}

#[test]
fn line_width_adds_up_the_cells() {
    assert_eq!(Line::new(80).width(), 0);
    assert_eq!(line(&["a", "\u{4e16}", "^A"]).width(), 5);
    assert_eq!(Line::width_slice(&line(&["a", "\u{4e16}", "^A"]).0[..2]), 3);
}

#[test]
fn find_difference_of_equal_lines() {
    assert_eq!(line(&["a", "b"]).find_difference(&line(&["a", "b"])), None);
    assert_eq!(line(&[]).find_difference(&line(&[])), None);
}

#[test]
fn find_difference_in_a_cell() {
    assert_eq!(line(&["a", "b", "c"]).find_difference(&line(&["a", "x", "c"])), Some(1));
    assert_eq!(line(&["a"]).find_difference(&line(&["b"])), Some(0));
}

#[test]
fn find_difference_in_the_style() {
    let mut other = line(&["a", "b"]);
    other.0[1].style = None;
    assert_eq!(line(&["a", "b"]).find_difference(&other), Some(1));
    other.0[1].style =
        Some(Style { fg: Some(Color::Red), bg: None, flags: StyleFlags::empty() });
    assert_eq!(line(&["a", "b"]).find_difference(&other), Some(1));
}

#[test]
fn find_difference_in_the_length() {
    assert_eq!(line(&["a", "b"]).find_difference(&line(&["a"])), Some(1));
    assert_eq!(line(&["a"]).find_difference(&line(&["a", "b"])), Some(1));
    assert_eq!(line(&[]).find_difference(&line(&["a"])), Some(0));
}

#[test]
fn new_and_empty_buffers() {
    let b = Buffer::new(80);
    assert_eq!(b, Buffer { width: 80, lines: Lines(vec![line(&[])]), dot: Pos::new(0, 0) });
    let e = Buffer::empty();
    assert_eq!(e, Buffer { width: 0, lines: Lines(vec![]), dot: Pos::new(0, 0) });
    assert_eq!(e.cursor(), Pos::new(0, 0));
    assert_eq!(e.column(), 0);
}

#[test]
fn cursor_is_behind_the_last_cell() {
    let b = Buffer {
        width: 10,
        lines: Lines(vec![line(&["a"]), line(&["b", "\u{4e16}"])]),
        dot: Pos::new(0, 0),
    };
    assert_eq!(b.cursor(), Pos::new(3, 1));
    assert_eq!(b.column(), 3);
}

#[test]
fn trim_to_lines_keeps_a_range() {
    let mut b = numbered(10, 7);
    b.trim_to_lines(5..8);
    assert_eq!(shown(&b), ["5", "6", "7"]);
    assert_eq!(b.dot, Pos::new(1, 2));
}

#[test]
fn trim_to_lines_from_the_start() {
    let mut b = numbered(10, 1);
    b.trim_to_lines(0..3);
    assert_eq!(shown(&b), ["0", "1", "2"]);
    assert_eq!(b.dot, Pos::new(1, 1));
}

#[test]
fn trim_to_lines_stops_at_the_last_line() {
    let mut b = numbered(4, 3);
    b.trim_to_lines(2..9);
    assert_eq!(shown(&b), ["2", "3"]);
    assert_eq!(b.dot, Pos::new(1, 1));
    let mut b = numbered(4, 3);
    b.trim_to_lines(0..9);
    assert_eq!(shown(&b), ["0", "1", "2", "3"]);
    assert_eq!(b.dot, Pos::new(1, 3));
}

#[test]
fn trim_to_lines_moves_the_dot_no_further_than_the_top() {
    let mut b = numbered(6, 1);
    b.trim_to_lines(3..5);
    assert_eq!(shown(&b), ["3", "4"]);
    assert_eq!(b.dot, Pos::new(1, 0));
}

#[test]
fn ten_lines_in_three_rows_with_the_cursor_low() {
    let mut b = numbered(10, 7);
    b.trim_to_height(3);
    assert_eq!(shown(&b), ["5", "6", "7"]);
    assert_eq!(b.dot, Pos::new(1, 2));
}

#[test]
fn ten_lines_in_three_rows_with_the_cursor_high() {
    let mut b = numbered(10, 1);
    b.trim_to_height(3);
    assert_eq!(shown(&b), ["0", "1", "2"]);
    assert_eq!(b.dot, Pos::new(1, 1));
}

#[test]
fn a_frame_that_fits_is_not_trimmed() {
    let mut b = numbered(3, 2);
    b.trim_to_height(3);
    assert_eq!(shown(&b), ["0", "1", "2"]);
    assert_eq!(b.dot, Pos::new(1, 2));
    let mut b = numbered(3, 2);
    b.trim_to_height(24);
    assert_eq!(shown(&b), ["0", "1", "2"]);
}

#[test]
fn the_cursor_on_the_last_row_of_the_window() {
    let mut b = numbered(10, 3);
    b.trim_to_height(3);
    assert_eq!(shown(&b), ["1", "2", "3"]);
    assert_eq!(b.dot, Pos::new(1, 2));
    let mut b = numbered(10, 9);
    b.trim_to_height(1);
    assert_eq!(shown(&b), ["9"]);
    assert_eq!(b.dot, Pos::new(1, 0));
}

#[test]
fn extend_appends_lines() {
    let mut a = numbered(2, 1);
    let b = numbered(3, 2);
    a.extend(&b, false);
    assert_eq!(shown(&a), ["0", "1", "0", "1", "2"]);
    assert_eq!(a.dot, Pos::new(1, 1));
    let mut a = numbered(2, 1);
    let mut b = numbered(3, 2);
    b.dot.col = 7;
    a.extend(&b, true);
    assert_eq!(a.dot, Pos::new(7, 4));
}

#[test]
fn new_line_appends_an_empty_line() {
    let mut a = numbered(2, 1);
    a.new_line(false, None);
    assert_eq!(shown(&a), ["0", "1", ""]);
    assert_eq!(a.dot, Pos::new(1, 1));
    a.new_line(true, Some(5));
    assert_eq!(shown(&a), ["0", "1", "", ""]);
    assert_eq!(a.dot, Pos::new(0, 2));
}

#[test]
fn a_buffer_can_be_copied() {
    let a = numbered(3, 1);
    assert_eq!(a.clone(), a);
    assert_eq!(a.lines.copy_range(1, 3), Lines(vec![line(&["1"]), line(&["2"])]));
}

#[test]
fn builder_starts_with_one_empty_line() {
    let b = BufferBuilder::new(40);
    assert_eq!(b.cursor(), Pos::new(0, 0));
    assert_eq!(b.buffer(), Buffer::new(40));
    assert_eq!(Buffer::builder(40).buffer(), Buffer::new(40));
}
