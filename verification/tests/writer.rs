use line_editor::ansi::encode;
use line_editor::buffer::{Buffer, Cell, Line, Lines, Pos};
use line_editor::builder::BufferBuilder;
use line_editor::style::{Color, Style, StyleFlags};
use line_editor::width::wcswidth;
use line_editor::screen::{blank_columns, redraw_is_exact};
use line_editor::writer::{write_delta_pos, TermOp, Writer};

fn red() -> Style {
    Style { fg: Some(Color::Red), bg: None, flags: StyleFlags::empty() }
}

fn frame(width: u16, text: &str, dot: Pos) -> Buffer {
    let mut b = BufferBuilder::new(width);
    b.write_str(text);
    let mut buf = b.buffer();
    buf.dot = dot;
    buf
}

/// A terminal that does what the operations ask for, on rows of cells.
struct Terminal {
    rows: Vec<Vec<Cell>>,
    row: usize,
    col: u16,
    pen: Option<Style>,
    saved: (usize, u16),
}

fn width(cells: &[Cell]) -> u16 {
    cells.iter().map(|c| wcswidth(&c.text)).sum()
}

fn cells_upto(cells: &[Cell], col: u16) -> usize {
    (0..=cells.len()).rev().find(|k| width(&cells[..*k]) <= col).unwrap()
}

impl Terminal {
    fn showing(buf: &Buffer) -> Terminal {
        Terminal {
            rows: buf.lines.0.iter().map(|l| l.0.clone()).collect(),
            row: buf.dot.line as usize,
            col: buf.dot.col,
            pen: None,
            saved: (0, 0),
        }
    }

    fn apply(&mut self, op: &TermOp) {
        match op {
            TermOp::HideCursor | TermOp::ShowCursor => {}
            TermOp::MoveUp(n) => self.row -= (*n).max(1) as usize,
            TermOp::MoveDown(n) => self.row += (*n).max(1) as usize,
            TermOp::MoveRight(n) => self.col += (*n).max(1),
            TermOp::CarriageReturn => self.col = 0,
            TermOp::LineFeed => {
                self.row += 1;
                self.col = 0;
            }
            TermOp::ClearLine => {
                if self.row < self.rows.len() {
                    let keep = cells_upto(&self.rows[self.row], self.col);
                    self.rows[self.row].truncate(keep);
                }
            }
            TermOp::ClearBelow => {
                if self.row < self.rows.len() {
                    let keep = cells_upto(&self.rows[self.row], self.col);
                    self.rows[self.row].truncate(keep);
                    self.rows.truncate(self.row + 1);
                }
            }
            TermOp::SavePosition => self.saved = (self.row, self.col),
            TermOp::RestorePosition => {
                self.row = self.saved.0;
                self.col = self.saved.1;
            }
            TermOp::SetStyle(style) => self.pen = *style,
            TermOp::Print(text) => {
                while self.rows.len() <= self.row {
                    self.rows.push(Vec::new());
                }
                let cells = &mut self.rows[self.row];
                assert_eq!(width(cells), self.col, "text is only written at the end of a row");
                cells.push(Cell { text: text.clone(), style: self.pen });
                self.col += wcswidth(text);
            }
        }
    }

    fn replay(&mut self, ops: &[TermOp]) {
        for op in ops {
            self.apply(op);
        }
    }

    fn shows(&self, buf: &Buffer) -> bool {
        let n = self.rows.len().max(buf.lines.0.len());
        (0..n).all(|i| {
            let on_screen = self.rows.get(i).map(|r| r.as_slice()).unwrap_or(&[]);
            let wanted = buf.lines.0.get(i).map(|l| l.0.as_slice()).unwrap_or(&[]);
            on_screen == wanted
        })
    }
}

fn redraw(old: &Buffer, new: &Buffer) -> Vec<TermOp> {
    let mut w = Writer::new();
    w.commit_buffer(None, old.clone(), true);
    let ops = w.commit_buffer(None, new.clone(), false);
    assert_eq!(w.buffer(), new);
    let mut t = Terminal::showing(old);
    t.replay(&ops);
    assert!(t.shows(new));
    assert_eq!((t.row, t.col), (new.dot.line as usize, new.dot.col));
    assert_eq!(t.pen, None);
    ops
}

fn print(text: &str) -> TermOp {
    TermOp::Print(text.to_string())
}

#[test]
fn the_first_frame_is_written_in_full() {
    let mut w = Writer::new();
    assert_eq!(w.buffer(), &Buffer::empty());
    let new = frame(10, "ab\nc", Pos::new(1, 1));
    let ops = w.commit_buffer(None, new.clone(), false);
    assert_eq!(
        ops,
        vec![
            TermOp::HideCursor,
            TermOp::CarriageReturn,
            TermOp::SetStyle(Some(Style::reset())),
            print("a"),
            print("b"),
            TermOp::LineFeed,
            print("c"),
            TermOp::SetStyle(None),
            TermOp::CarriageReturn,
            TermOp::MoveRight(1),
            TermOp::ShowCursor,
        ]
    );
    assert_eq!(w.buffer(), &new);
}

#[test]
fn an_unchanged_frame_writes_no_text() {
    let f = frame(10, "ab\ncd\nef", Pos::new(1, 1));
    let ops = redraw(&f, &f);
    assert_eq!(
        ops,
        vec![
            TermOp::HideCursor,
            TermOp::MoveUp(1),
            TermOp::CarriageReturn,
            TermOp::LineFeed,
            TermOp::LineFeed,
            TermOp::MoveUp(1),
            TermOp::CarriageReturn,
            TermOp::MoveRight(1),
            TermOp::ShowCursor,
        ]
    );
    assert_eq!(encode(&ops), "\x1b[?25l\x1b[1A\r\n\n\x1b[1A\r\x1b[1C\x1b[?25h");
}

#[test]
fn a_change_in_one_line_rewrites_its_tail() {
    let old = frame(10, "abcd", Pos::new(4, 0));
    let new = frame(10, "abXd", Pos::new(3, 0));
    let ops = redraw(&old, &new);
    assert_eq!(
        ops,
        vec![
            TermOp::HideCursor,
            TermOp::CarriageReturn,
            TermOp::MoveRight(2),
            TermOp::ClearLine,
            TermOp::SetStyle(Some(Style::reset())),
            print("X"),
            print("d"),
            TermOp::SetStyle(None),
            TermOp::CarriageReturn,
            TermOp::MoveRight(3),
            TermOp::ShowCursor,
        ]
    );
    assert_eq!(
        encode(&ops),
        "\x1b[?25l\r\x1b[2C\x1b[K\x1b[0;mXd\x1b[0;m\r\x1b[3C\x1b[?25h"
    );
}

#[test]
fn a_longer_line_is_only_added_to() {
    let old = frame(10, "ab", Pos::new(2, 0));
    let new = frame(10, "abc", Pos::new(3, 0));
    let ops = redraw(&old, &new);
    assert_eq!(
        ops,
        vec![
            TermOp::HideCursor,
            TermOp::CarriageReturn,
            TermOp::MoveRight(2),
            TermOp::SetStyle(Some(Style::reset())),
            print("c"),
            TermOp::SetStyle(None),
            TermOp::CarriageReturn,
            TermOp::MoveRight(3),
            TermOp::ShowCursor,
        ]
    );
}

#[test]
fn a_shorter_line_is_cleared_from_its_end() {
    let old = frame(10, "abc", Pos::new(3, 0));
    let new = frame(10, "ab", Pos::new(2, 0));
    let ops = redraw(&old, &new);
    assert_eq!(
        ops,
        vec![
            TermOp::HideCursor,
            TermOp::CarriageReturn,
            TermOp::MoveRight(2),
            TermOp::ClearLine,
            TermOp::CarriageReturn,
            TermOp::MoveRight(2),
            TermOp::ShowCursor,
        ]
    );
}

#[test]
fn changes_in_several_lines() {
    let old = frame(10, "one\ntwo\nthree", Pos::new(5, 2));
    let new = frame(10, "one\ntWo\nthr\nfour", Pos::new(4, 3));
    let ops = redraw(&old, &new);
    assert_eq!(
        ops,
        vec![
            TermOp::HideCursor,
            TermOp::MoveUp(2),
            TermOp::CarriageReturn,
            TermOp::LineFeed,
            TermOp::MoveRight(1),
            TermOp::ClearLine,
            TermOp::SetStyle(Some(Style::reset())),
            print("W"),
            print("o"),
            TermOp::LineFeed,
            TermOp::MoveRight(3),
            TermOp::SetStyle(None),
            TermOp::ClearLine,
            TermOp::LineFeed,
            TermOp::SetStyle(Some(Style::reset())),
            print("f"),
            print("o"),
            print("u"),
            print("r"),
            TermOp::SetStyle(None),
            TermOp::CarriageReturn,
            TermOp::MoveRight(4),
            TermOp::ShowCursor,
        ]
    );
}

#[test]
fn fewer_lines_than_before_are_cleared_below() {
    let old = frame(10, "one\ntwo\nthree", Pos::new(5, 2));
    let new = frame(10, "one\ntwo", Pos::new(3, 1));
    let ops = redraw(&old, &new);
    assert_eq!(
        ops,
        vec![
            TermOp::HideCursor,
            TermOp::MoveUp(2),
            TermOp::CarriageReturn,
            TermOp::LineFeed,
            TermOp::SavePosition,
            TermOp::LineFeed,
            TermOp::ClearBelow,
            TermOp::RestorePosition,
            TermOp::CarriageReturn,
            TermOp::MoveRight(3),
            TermOp::ShowCursor,
        ]
    );
    assert_eq!(
        encode(&ops),
        "\x1b[?25l\x1b[2A\r\n\x1b7\n\x1b[J\x1b8\r\x1b[3C\x1b[?25h"
    );
}

#[test]
fn wide_cells_count_by_their_columns() {
    let old = frame(10, "\u{4e16}\u{754c}ab", Pos::new(6, 0));
    let new = frame(10, "\u{4e16}\u{754c}xb", Pos::new(6, 0));
    let ops = redraw(&old, &new);
    assert_eq!(ops[2], TermOp::MoveRight(4));
}

#[test]
fn the_style_is_switched_only_where_it_changes() {
    let mut b = BufferBuilder::new(10);
    b.write_str("a").write_str_styled("bc", red()).write_str("d");
    let new = b.buffer();
    let mut w = Writer::new();
    let ops = w.commit_buffer(None, new, false);
    assert_eq!(
        ops,
        vec![
            TermOp::HideCursor,
            TermOp::CarriageReturn,
            TermOp::SetStyle(Some(Style::reset())),
            print("a"),
            TermOp::SetStyle(Some(red())),
            print("b"),
            print("c"),
            TermOp::SetStyle(Some(Style::reset())),
            print("d"),
            TermOp::SetStyle(None),
            TermOp::CarriageReturn,
            TermOp::ShowCursor,
        ]
    );
    assert_eq!(
        encode(&ops),
        "\x1b[?25l\r\x1b[0;ma\x1b[0;31mbc\x1b[0;md\x1b[0;m\r\x1b[?25h"
    );
}

#[test]
fn a_full_repaint_clears_the_screen_first() {
    let f = frame(10, "ab", Pos::new(2, 0));
    let mut w = Writer::new();
    w.commit_buffer(None, f.clone(), false);
    let ops = w.commit_buffer(None, f.clone(), true);
    assert_eq!(
        ops,
        vec![
            TermOp::HideCursor,
            TermOp::CarriageReturn,
            print(" "),
            TermOp::ClearBelow,
            TermOp::CarriageReturn,
            TermOp::SetStyle(Some(Style::reset())),
            print("a"),
            print("b"),
            TermOp::SetStyle(None),
            TermOp::CarriageReturn,
            TermOp::MoveRight(2),
            TermOp::ShowCursor,
        ]
    );
}

#[test]
fn another_width_forces_a_full_repaint() {
    let mut w = Writer::new();
    w.commit_buffer(None, frame(10, "ab", Pos::new(2, 0)), false);
    let ops = w.commit_buffer(None, frame(12, "ab", Pos::new(2, 0)), false);
    assert_eq!(ops[2], print(" "));
    assert_eq!(ops[3], TermOp::ClearBelow);
    assert_eq!(ops.iter().filter(|op| matches!(op, TermOp::Print(_))).count(), 3);
}

#[test]
fn notices_are_written_above_the_frame() {
    let mut w = Writer::new();
    let notes = frame(10, "hi", Pos::new(0, 0));
    let ops = w.commit_buffer(Some(notes), frame(10, "a", Pos::new(1, 0)), false);
    assert_eq!(
        ops,
        vec![
            TermOp::HideCursor,
            TermOp::CarriageReturn,
            TermOp::SetStyle(Some(Style::reset())),
            print("h"),
            print("i"),
            TermOp::SetStyle(None),
            TermOp::ClearLine,
            TermOp::LineFeed,
            TermOp::SetStyle(Some(Style::reset())),
            print("a"),
            TermOp::SetStyle(None),
            TermOp::CarriageReturn,
            TermOp::MoveRight(1),
            TermOp::ShowCursor,
        ]
    );
}

#[test]
fn reset_buffer_forgets_the_frame() {
    let mut w = Writer::new();
    w.commit_buffer(None, frame(10, "ab", Pos::new(2, 0)), false);
    w.reset_buffer();
    assert_eq!(w.buffer(), &Buffer::empty());
    let ops = w.commit_buffer(None, frame(10, "ab", Pos::new(2, 0)), false);
    assert_eq!(ops.iter().filter(|op| matches!(op, TermOp::Print(_))).count(), 2);
}

#[test]
fn the_cursor_moves_by_differences() {
    let mut ops = Vec::new();
    write_delta_pos(&mut ops, Pos::new(9, 1), Pos::new(4, 3));
    assert_eq!(ops, vec![TermOp::MoveDown(2), TermOp::CarriageReturn, TermOp::MoveRight(4)]);
    let mut ops = Vec::new();
    write_delta_pos(&mut ops, Pos::new(9, 3), Pos::new(0, 1));
    assert_eq!(ops, vec![TermOp::MoveUp(2), TermOp::CarriageReturn]);
    let mut ops = Vec::new();
    write_delta_pos(&mut ops, Pos::new(9, 3), Pos::new(9, 3));
    assert_eq!(ops, vec![TermOp::CarriageReturn, TermOp::MoveRight(9)]);
}

#[test]
fn every_operation_has_its_sequence() {
    let ops = vec![
        TermOp::HideCursor,
        TermOp::ShowCursor,
        TermOp::MoveUp(12),
        TermOp::MoveDown(3),
        TermOp::MoveRight(65535),
        TermOp::CarriageReturn,
        TermOp::LineFeed,
        TermOp::ClearLine,
        TermOp::ClearBelow,
        TermOp::SavePosition,
        TermOp::RestorePosition,
        TermOp::SetStyle(None),
        TermOp::SetStyle(Some(red())),
        print("\u{4e16}"),
    ];
    let codes: Vec<String> = ops.iter().map(|op| op.code()).collect();
    assert_eq!(
        codes,
        [
            "\x1b[?25l",
            "\x1b[?25h",
            "\x1b[12A",
            "\x1b[3B",
            "\x1b[65535C",
            "\r",
            "\n",
            "\x1b[K",
            "\x1b[J",
            "\x1b7",
            "\x1b8",
            "\x1b[0;m",
            "\x1b[0;31m",
            "\u{4e16}",
        ]
    );
    assert_eq!(encode(&ops), codes.concat());
    assert_eq!(encode(&Vec::new()), "");
}

#[test]
fn the_frame_on_the_screen_can_be_changed() {
    let mut w = Writer::new();
    w.commit_buffer(None, frame(10, "ab", Pos::new(2, 0)), false);
    w.buffer_mut().dot = Pos::new(0, 0);
    assert_eq!(w.buffer(), &frame(10, "ab", Pos::new(0, 0)));
    *w.buffer_mut() = frame(10, "abc", Pos::new(3, 0));
    let ops = w.commit_buffer(None, frame(10, "abcd", Pos::new(4, 0)), false);
    assert_eq!(ops.iter().filter(|op| matches!(op, TermOp::Print(_))).count(), 1);
}

#[test]
fn a_frame_of_no_lines_clears_from_the_first_row() {
    let old = frame(10, "one\ntwo", Pos::new(1, 1));
    let new = Buffer { width: 10, lines: Lines(vec![]), dot: Pos::new(0, 0) };
    let ops = redraw(&old, &new);
    assert_eq!(
        ops,
        vec![
            TermOp::HideCursor,
            TermOp::MoveUp(1),
            TermOp::CarriageReturn,
            TermOp::SavePosition,
            TermOp::ClearBelow,
            TermOp::RestorePosition,
            TermOp::CarriageReturn,
            TermOp::ShowCursor,
        ]
    );
    let old = frame(10, "one", Pos::new(3, 0));
    redraw(&old, &new);
}

#[test]
fn cells_are_measured() {
    assert_eq!(blank_columns(), 1);
    let solid = frame(10, "a\u{4e16}\nb", Pos::new(0, 0));
    assert!(solid.is_solid());
    assert!(solid.is_narrow());
    assert!(solid.lines.0[0].is_solid());
    assert!(solid.lines.0[0].is_narrow());
    let mut marked = frame(10, "ab", Pos::new(0, 0));
    marked.lines.0[0].0.push(Cell { text: "\u{301}".to_string(), style: None });
    assert!(!marked.is_solid());
    assert!(!marked.lines.0[0].is_solid());
    assert!(marked.is_narrow());
    let long = "\u{4e16}".repeat(40000);
    let wide = Line(vec![Cell { text: long, style: None }]);
    assert!(wide.is_solid());
    assert!(Line(vec![]).is_solid());
    assert!(Line(vec![]).is_narrow());
    let many = Line((0..65536).map(|_| Cell { text: "a".to_string(), style: None }).collect());
    assert!(!many.is_narrow());
    let fits = Line((0..65535).map(|_| Cell { text: "a".to_string(), style: None }).collect());
    assert!(fits.is_narrow());
}

#[test]
fn frames_that_redraw_exactly() {
    let old = frame(10, "ab", Pos::new(2, 0));
    let new = frame(10, "abc", Pos::new(3, 0));
    assert!(redraw_is_exact(&old, &new, false));
    assert!(redraw_is_exact(&old, &new, true));
    assert!(redraw_is_exact(&old, &frame(12, "abc", Pos::new(3, 0)), false));
    assert!(redraw_is_exact(&Buffer::empty(), &new, false));
    let mut marked = frame(10, "ab", Pos::new(0, 0));
    marked.lines.0[0].0.push(Cell { text: "\u{301}".to_string(), style: None });
    assert!(!redraw_is_exact(&marked, &new, false));
    assert!(!redraw_is_exact(&old, &marked, false));
    assert!(!redraw_is_exact(&old, &marked, true));
}
