use line_editor::buffer::{Buffer, Cell, Line, Lines, Pos};
use line_editor::builder::BufferBuilder;
use line_editor::style::{Color, Style, StyleFlags};
use line_editor::ui::{Text, TextSegment};

fn red() -> Style {
    Style { fg: Some(Color::Red), bg: None, flags: StyleFlags::empty() }
}

fn rows(buf: &Buffer) -> Vec<String> {
    buf.lines.0.iter().map(|l| l.0.iter().map(|c| c.text.as_str()).collect()).collect()
}

fn built(width: u16, eager: bool, s: &str) -> Buffer {
    let mut b = BufferBuilder::new(width);
    b.eager_wrap(eager).write_str(s);
    b.buffer()
}

#[test]
fn characters_become_cells() {
    let mut b = BufferBuilder::new(10);
    b.write_char('a').write_char_styled('b', red());
    assert_eq!(b.col, 2);
    assert_eq!(
        b.buffer().lines,
        Lines(vec![Line(vec![
            Cell { text: "a".to_string(), style: Some(Style::reset()) },
            Cell { text: "b".to_string(), style: Some(red()) },
        ])])
    );
}

#[test]
fn control_characters_are_shown_with_a_caret() {
    let mut b = BufferBuilder::new(20);
    b.write_char('\u{1}').write_char('\t').write_char('\u{1f}').write_char('\u{7f}');
    b.write_char_styled('\u{0}', red());
    let reversed = Style { flags: StyleFlags { reverse: true, ..StyleFlags::empty() }, ..Style::reset() };
    let red_reversed = Style { flags: StyleFlags { reverse: true, ..StyleFlags::empty() }, ..red() };
    assert_eq!(b.col, 10);
    assert_eq!(
        b.buffer().lines,
        Lines(vec![Line(vec![
            Cell { text: "^A".to_string(), style: Some(reversed) },
            Cell { text: "^I".to_string(), style: Some(reversed) },
            Cell { text: "^_".to_string(), style: Some(reversed) },
            Cell { text: "^?".to_string(), style: Some(reversed) },
            Cell { text: "^@".to_string(), style: Some(red_reversed) },
        ])])
    );
}

#[test]
fn a_line_feed_starts_a_new_line() {
    let b = built(10, false, "ab\ncd\n");
    assert_eq!(rows(&b), ["ab", "cd", ""]);
}

#[test]
fn a_full_line_wraps_when_the_next_cell_comes() {
    let b = built(3, false, "abc");
    assert_eq!(rows(&b), ["abc"]);
    let b = built(3, false, "abcd");
    assert_eq!(rows(&b), ["abc", "d"]);
}

#[test]
fn a_full_line_wraps_at_once_with_eager_wrap() {
    let b = built(3, true, "abc");
    assert_eq!(rows(&b), ["abc", ""]);
    let b = built(3, true, "abcdefg");
    assert_eq!(rows(&b), ["abc", "def", "g"]);
}

#[test]
fn a_wide_cell_that_does_not_fit_goes_to_the_next_line() {
    let b = built(3, false, "ab\u{4e16}c");
    assert_eq!(rows(&b), ["ab", "\u{4e16}c"]);
    let b = built(4, true, "ab\u{4e16}c");
    assert_eq!(rows(&b), ["ab\u{4e16}", "c"]);
}

#[test]
fn new_lines_start_with_the_indent() {
    let mut b = BufferBuilder::new(5);
    b.write_str("> ").indent(2).write_str("abcde");
    assert_eq!(b.cursor(), Pos::new(4, 1));
    let buf = b.buffer();
    assert_eq!(rows(&buf), ["> abc", "  de"]);
    assert_eq!(buf.lines.0[1].0[0], Cell { text: " ".to_string(), style: None });
}

#[test]
fn newline_resets_the_column() {
    let mut b = BufferBuilder::new(9);
    b.write_str("abc").newline();
    assert_eq!(b.cursor(), Pos::new(0, 1));
    b.indent(3).newline();
    assert_eq!(b.cursor(), Pos::new(3, 2));
}

#[test]
fn spaces_wrap_like_cells() {
    let mut b = BufferBuilder::new(4);
    b.write_str("ab").write_spaces(3);
    assert_eq!(rows(&b.buffer()), ["ab  ", " "]);
    let mut b = BufferBuilder::new(4);
    b.write_spaces_styled(2, red());
    assert_eq!(
        b.buffer().lines,
        Lines(vec![Line(vec![
            Cell { text: " ".to_string(), style: Some(red()) },
            Cell { text: " ".to_string(), style: Some(red()) },
        ])])
    );
}

#[test]
fn dot_marks_the_cursor() {
    let mut b = BufferBuilder::new(4);
    b.write_str("abcdef").dot().write_str("gh");
    let buf = b.buffer();
    assert_eq!(buf.dot, Pos::new(2, 1));
    assert_eq!(rows(&buf), ["abcd", "efgh"]);
}

#[test]
fn text_is_written_segment_by_segment() {
    let mut t = Text::plain("ab");
    t.push(TextSegment::styled("cd", red()));
    let mut b = BufferBuilder::new(3);
    b.write_text(&t);
    let buf = b.buffer();
    assert_eq!(rows(&buf), ["abc", "d"]);
    assert_eq!(buf.lines.0[0].0[2].style, Some(red()));
    assert_eq!(buf.lines.0[0].0[1].style, Some(Style::reset()));
}

#[test]
fn lines_can_be_taken_over() {
    let mut b = BufferBuilder::new(10);
    let lines = built(10, false, "ab\ncde").lines;
    b.lines(lines).write_char('f');
    assert_eq!(b.cursor(), Pos::new(4, 1));
    assert_eq!(rows(&b.buffer()), ["ab", "cdef"]);
    let mut b = BufferBuilder::new(10);
    b.lines(Lines(vec![])).write_char('x');
    assert_eq!(rows(&b.buffer()), ["x"]);
}

#[test]
fn a_width_of_nothing_puts_each_cell_on_its_own_line() {
    let b = built(0, false, "ab");
    assert_eq!(rows(&b), ["", "a", "b"]);
}

#[test]
fn a_cell_is_placed_by_the_width_it_is_given() {
    let reversed =
        Style { flags: StyleFlags { reverse: true, ..StyleFlags::empty() }, ..Style::reset() };
    let caret = Cell { text: "^A".to_string(), style: Some(reversed) };
    let mut b = BufferBuilder::new(3);
    b.place(caret.clone(), 2);
    assert_eq!(b.cursor(), Pos::new(2, 0));
    b.place(caret.clone(), 2);
    assert_eq!(b.cursor(), Pos::new(2, 1));
    assert_eq!(b.buffer().lines, Lines(vec![Line(vec![caret.clone()]), Line(vec![caret.clone()])]));
    let mut b = BufferBuilder::new(3);
    b.eager_wrap(true).place(caret.clone(), 3);
    assert_eq!(b.cursor(), Pos::new(0, 1));
    assert_eq!(rows(&b.buffer()), ["^A", ""]);
}
