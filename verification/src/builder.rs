//! Laying text out into a frame: cells are put one after the other, and a
//! line that is full gives way to the next.

use crate::buffer::{
    clip, coordinate, row_cols, Buffer, Cell, CellView, FrameView, Line, Lines, Pos,
};
use crate::style::Style;
use crate::text::push_char;
use crate::ui::{segments_view, SegmentView, Text};
use crate::width::{columns, wcswidth};
use vstd::prelude::*;
use vstd::std_specs::iter::IteratorSpec;

verus! {

/// A frame that is being laid out.
#[derive(Debug)]
pub struct BufferBuilder {
    /// The width of the screen.
    pub width: u16,
    /// The column behind the last cell of the last line.
    pub col: u16,
    /// The number of blank cells that start each new line.
    pub indent: u16,
    /// Whether a line that a cell fills to the last column gives way to a new
    /// one at once, rather than when the next cell comes.
    pub eager_wrap: bool,
    pub lines: Lines,
    /// The position the user perceives as the position of the cursor.
    pub dot: Pos,
}

/// A frame that is being laid out, by what it shows.
pub struct Layout {
    pub width: u16,
    pub col: u16,
    pub indent: u16,
    pub eager_wrap: bool,
    pub lines: Seq<Seq<CellView>>,
    pub dot: Pos,
}

impl View for BufferBuilder {
    type V = Layout;

    open spec fn view(&self) -> Layout {
        Layout {
            width: self.width,
            col: self.col,
            indent: self.indent,
            eager_wrap: self.eager_wrap,
            lines: self.lines@,
            dot: self.dot,
        }
    }
}

/// The cell that shows a blank in `style`.
pub open spec fn blank(style: Option<Style>) -> CellView {
    CellView { text: seq![' '], style }
}

/// Whether `c` is a control character: one that is shown as a caret and a
/// letter, not sent to the terminal.
pub open spec fn is_control(c: char) -> bool {
    c as u32 <= 0x1f || c == '\x7f'
}

/// The character that stands for the control character `c` behind a caret:
/// the one 64 places on, and `?` for the last of them.
pub open spec fn caret_letter(c: char) -> char {
    if c == '\x7f' {
        '?'
    } else {
        ((c as u32) + 0x40) as char
    }
}

/// The cell that shows `c` in `style`: a caret and a letter in reversed
/// colors for a control character, else the character itself.
pub open spec fn cell_of(c: char, style: Style) -> CellView {
    if is_control(c) {
        CellView { text: seq!['^', caret_letter(c)], style: Some(style.with_reverse(true)) }
    } else {
        CellView { text: seq![c], style: Some(style) }
    }
}

impl Layout {
    /// The layout of a frame of one empty line.
    pub open spec fn start(width: u16) -> Layout {
        Layout {
            width,
            col: 0,
            indent: 0,
            eager_wrap: false,
            lines: seq![Seq::<CellView>::empty()],
            dot: Pos { col: 0, line: 0 },
        }
    }

    /// Where the next cell goes.
    pub open spec fn cursor(self) -> Pos {
        Pos { col: self.col, line: clip((self.lines.len() - 1) as nat) }
    }

    /// The frame that was laid out.
    pub open spec fn frame(self) -> FrameView {
        FrameView { width: self.width, lines: self.lines, dot: self.dot }
    }

    /// A new, empty line.
    pub open spec fn push_line(self) -> Layout {
        Layout { lines: self.lines.push(Seq::empty()), col: 0, ..self }
    }

    /// `n` times `cell` at the end of the last line, where the cell takes
    /// `wide` columns.
    pub open spec fn push_cells(self, cell: CellView, n: nat, wide: u16) -> Layout {
        let cells = Seq::new(n, |i: int| cell);
        Layout {
            lines: if self.lines.len() == 0 {
                seq![cells]
            } else {
                self.lines.update(self.lines.len() - 1, self.lines.last() + cells)
            },
            col: clip((self.col + wide * n) as nat),
            ..self
        }
    }

    /// A new line, which starts with the indent.
    pub open spec fn newline(self) -> Layout {
        if self.indent > 0 {
            self.push_line().push_cells(blank(None), self.indent as nat, columns(seq![' ']))
        } else {
            self.push_line()
        }
    }

    /// `cell` where it fits, for a cell that takes `wide` columns and is
    /// given room for `room`. A cell that would go beyond the last column
    /// goes on a new line. With `eager_wrap`, a cell that reaches the last
    /// column is followed by a new line.
    pub open spec fn place_in(self, cell: CellView, room: u16, wide: u16) -> Layout {
        if self.col + room > self.width {
            self.newline().push_cells(cell, 1, wide)
        } else {
            let put = self.push_cells(cell, 1, wide);
            if put.col == put.width && put.eager_wrap {
                put.newline()
            } else {
                put
            }
        }
    }

    /// `cell` where it fits, for a cell that takes `wide` columns.
    pub open spec fn place(self, cell: CellView, wide: u16) -> Layout {
        self.place_in(cell, wide, wide)
    }

    /// `c` in `style`: a line feed starts a new line, any other character
    /// is placed as a cell.
    pub open spec fn write_char(self, c: char, style: Style) -> Layout {
        if c == '\n' {
            self.newline()
        } else {
            self.place(cell_of(c, style), columns(cell_of(c, style).text))
        }
    }

    /// `n` blanks in `style`, each given room for one column.
    pub open spec fn write_spaces(self, n: nat, style: Style) -> Layout
        decreases n,
    {
        if n == 0 {
            self
        } else {
            self.write_spaces((n - 1) as nat, style).place_in(
                blank(Some(style)),
                1,
                columns(seq![' ']),
            )
        }
    }

    /// The characters of `s` in `style`, one after the other.
    pub open spec fn write_str(self, s: Seq<char>, style: Style) -> Layout
        decreases s.len(),
    {
        if s.len() == 0 {
            self
        } else {
            self.write_str(s.drop_last(), style).write_char(s.last(), style)
        }
    }

    /// The segments of `text`, one after the other, each in its style.
    pub open spec fn write_text(self, text: Seq<SegmentView>) -> Layout
        decreases text.len(),
    {
        if text.len() == 0 {
            self
        } else {
            self.write_text(text.drop_last()).write_str(text.last().text, text.last().style)
        }
    }
}

/// Placing text never takes a line away.
pub proof fn lemma_write_str_lines(l: Layout, s: Seq<char>, style: Style)
    ensures
        l.write_str(s, style).lines.len() >= l.lines.len(),
        l.write_str(s, style).width == l.width,
        l.write_str(s, style).indent == l.indent,
        l.write_str(s, style).eager_wrap == l.eager_wrap,
        l.write_str(s, style).dot == l.dot,
    decreases s.len(),
{
    if s.len() > 0 {
        lemma_write_str_lines(l, s.drop_last(), style);
    }
}

/// Placing text never takes a line away.
pub proof fn lemma_write_text_lines(l: Layout, text: Seq<SegmentView>)
    ensures
        l.write_text(text).lines.len() >= l.lines.len(),
        l.write_text(text).width == l.width,
        l.write_text(text).indent == l.indent,
        l.write_text(text).eager_wrap == l.eager_wrap,
        l.write_text(text).dot == l.dot,
    decreases text.len(),
{
    if text.len() > 0 {
        lemma_write_text_lines(l, text.drop_last());
        lemma_write_str_lines(
            l.write_text(text.drop_last()),
            text.last().text,
            text.last().style,
        );
    }
}

/// Placing blanks never takes a line away.
pub proof fn lemma_write_spaces_lines(l: Layout, n: nat, style: Style)
    ensures
        l.write_spaces(n, style).lines.len() >= l.lines.len(),
        l.write_spaces(n, style).width == l.width,
        l.write_spaces(n, style).indent == l.indent,
        l.write_spaces(n, style).eager_wrap == l.eager_wrap,
        l.write_spaces(n, style).dot == l.dot,
    decreases n,
{
    if n > 0 {
        lemma_write_spaces_lines(l, (n - 1) as nat, style);
    }
}

/// Whether a row is a head: it holds at least one cell, and all but the last
/// are the blanks of an indent. This is how a row looks that a cell has been
/// put on for want of room on the row before.
pub open spec fn is_head(row: Seq<CellView>) -> bool {
    row.len() > 0 && forall|j: int| 0 <= j < row.len() - 1 ==> #[trigger] row[j] == blank(None)
}

/// Whether a row keeps within `width` columns. A head is let off: the cell
/// at its end may have had no room on any row.
pub open spec fn row_fits(row: Seq<CellView>, width: u16) -> bool {
    row_cols(row) <= width || is_head(row)
}

impl Layout {
    /// Whether the layout is in order: it has a line, `col` is the width of
    /// the last line, and every line keeps within the width.
    pub open spec fn tidy(self) -> bool {
        &&& self.lines.len() > 0
        &&& self.col == clip(row_cols(self.lines.last()))
        &&& forall|i: int| 0 <= i < self.lines.len() ==> row_fits(#[trigger] self.lines[i], self.width)
    }
}

proof fn lemma_repeat_cols(cell: CellView, n: nat)
    ensures
        row_cols(Seq::new(n, |i: int| cell)) == columns(cell.text) * n,
    decreases n,
{
    let cells = Seq::new(n, |i: int| cell);
    if n > 0 {
        assert(cells.drop_last() =~= Seq::new((n - 1) as nat, |i: int| cell));
        lemma_repeat_cols(cell, (n - 1) as nat);
        assert(columns(cell.text) * n == columns(cell.text) * (n - 1) + columns(cell.text))
            by (nonlinear_arith);
    } else {
        assert(columns(cell.text) * n == 0) by (nonlinear_arith)
            requires
                n == 0,
        ;
    }
}

proof fn lemma_push_cells_col(l: Layout, cell: CellView, n: nat)
    requires
        l.lines.len() > 0,
        l.col == clip(row_cols(l.lines.last())),
    ensures
        l.push_cells(cell, n, columns(cell.text)).lines.len() == l.lines.len(),
        l.push_cells(cell, n, columns(cell.text)).col == clip(
            row_cols(l.push_cells(cell, n, columns(cell.text)).lines.last()),
        ),
        row_cols(l.push_cells(cell, n, columns(cell.text)).lines.last()) == row_cols(
            l.lines.last(),
        ) + columns(cell.text) * n,
        forall|i: int|
            0 <= i < l.lines.len() - 1 ==> #[trigger] l.push_cells(
                cell,
                n,
                columns(cell.text),
            ).lines[i] == l.lines[i],
{
    let cells = Seq::new(n, |i: int| cell);
    lemma_repeat_cols(cell, n);
    crate::buffer::lemma_row_cols_concat(l.lines.last(), cells);
    assert(columns(cell.text) * n >= 0) by (nonlinear_arith)
        requires
            columns(cell.text) >= 0,
            n >= 0,
    ;
}

/// A new line leaves a layout in order.
pub proof fn lemma_newline_tidy(l: Layout)
    requires
        l.tidy(),
    ensures
        l.newline().tidy(),
        l.newline().width == l.width,
        is_head(l.newline().lines.last()) || l.newline().lines.last().len() == 0,
        l.newline().lines.last() == Seq::new(l.indent as nat, |i: int| blank(None)),
{
    let a = l.push_line();
    assert(a.lines.last() =~= Seq::<CellView>::empty());
    assert forall|i: int| 0 <= i < a.lines.len() implies row_fits(#[trigger] a.lines[i], a.width) by {
        if i < l.lines.len() {
            assert(a.lines[i] == l.lines[i]);
        }
    }
    if l.indent > 0 {
        lemma_push_cells_col(a, blank(None), l.indent as nat);
        let b = a.push_cells(blank(None), l.indent as nat, columns(seq![' ']));
        assert(b.lines.last() =~= Seq::new(l.indent as nat, |i: int| blank(None)));
        assert(is_head(b.lines.last()));
        assert forall|i: int| 0 <= i < b.lines.len() implies row_fits(#[trigger] b.lines[i], b.width) by {
            if i < b.lines.len() - 1 {
                assert(b.lines[i] == a.lines[i]);
            }
        }
    } else {
        assert(a.lines.last() =~= Seq::new(0, |i: int| blank(None)));
    }
}

/// A cell that is placed by its own width, with room for that or more,
/// leaves a layout in order.
pub proof fn lemma_place_tidy(l: Layout, cell: CellView, room: u16)
    requires
        l.tidy(),
        l.width < u16::MAX,
        columns(cell.text) <= room,
    ensures
        l.place_in(cell, room, columns(cell.text)).tidy(),
        l.place_in(cell, room, columns(cell.text)).width == l.width,
{
    if l.col + room > l.width {
        lemma_newline_tidy(l);
        let a = l.newline();
        lemma_push_cells_col(a, cell, 1);
        let b = a.push_cells(cell, 1, columns(cell.text));
        let row = b.lines.last();
        assert(row =~= a.lines.last().push(cell));
        assert(is_head(row));
        assert forall|i: int| 0 <= i < b.lines.len() implies row_fits(#[trigger] b.lines[i], b.width) by {
            if i < b.lines.len() - 1 {
                assert(b.lines[i] == a.lines[i]);
            }
        }
    } else {
        lemma_push_cells_col(l, cell, 1);
        let b = l.push_cells(cell, 1, columns(cell.text));
        assert(row_cols(l.lines.last()) == l.col);
        assert(columns(cell.text) * 1 == columns(cell.text)) by (nonlinear_arith);
        assert(row_cols(b.lines.last()) <= b.width);
        assert forall|i: int| 0 <= i < b.lines.len() implies row_fits(#[trigger] b.lines[i], b.width) by {
            if i < b.lines.len() - 1 {
                assert(b.lines[i] == l.lines[i]);
            }
        }
        if b.col == b.width && b.eager_wrap {
            lemma_newline_tidy(b);
        }
    }
}

/// A character that is written leaves a layout in order.
pub proof fn lemma_write_char_tidy(l: Layout, c: char, style: Style)
    requires
        l.tidy(),
        l.width < u16::MAX,
    ensures
        l.write_char(c, style).tidy(),
        l.write_char(c, style).width == l.width,
{
    if c == '\n' {
        lemma_newline_tidy(l);
    } else {
        lemma_place_tidy(l, cell_of(c, style), columns(cell_of(c, style).text));
    }
}

/// Characters that are written leave a layout in order.
pub proof fn lemma_write_str_tidy(l: Layout, s: Seq<char>, style: Style)
    requires
        l.tidy(),
        l.width < u16::MAX,
    ensures
        l.write_str(s, style).tidy(),
        l.write_str(s, style).width == l.width,
    decreases s.len(),
{
    if s.len() > 0 {
        lemma_write_str_tidy(l, s.drop_last(), style);
        lemma_write_char_tidy(l.write_str(s.drop_last(), style), s.last(), style);
    }
}

/// Text that is written leaves a layout in order.
pub proof fn lemma_write_text_tidy(l: Layout, text: Seq<SegmentView>)
    requires
        l.tidy(),
        l.width < u16::MAX,
    ensures
        l.write_text(text).tidy(),
        l.write_text(text).width == l.width,
    decreases text.len(),
{
    if text.len() > 0 {
        lemma_write_text_tidy(l, text.drop_last());
        lemma_write_str_tidy(
            l.write_text(text.drop_last()),
            text.last().text,
            text.last().style,
        );
    }
}

/// Blanks that are written leave a layout in order, where a blank takes no
/// more than the one column that it is placed by.
pub proof fn lemma_write_spaces_tidy(l: Layout, n: nat, style: Style)
    requires
        l.tidy(),
        l.width < u16::MAX,
        columns(seq![' ']) <= 1,
    ensures
        l.write_spaces(n, style).tidy(),
        l.write_spaces(n, style).width == l.width,
    decreases n,
{
    if n > 0 {
        lemma_write_spaces_tidy(l, (n - 1) as nat, style);
        lemma_place_tidy(l.write_spaces((n - 1) as nat, style), blank(Some(style)), 1);
    }
}

impl Buffer {
    /// Starts the layout of a frame for a screen of the given width.
    pub fn builder(width: u16) -> (r: BufferBuilder)
        ensures
            r@ == Layout::start(width),
    {
        BufferBuilder::new(width)
    }
}

impl BufferBuilder {
    /// Starts the layout of a frame for a screen of the given width.
    pub fn new(width: u16) -> (r: BufferBuilder)
        ensures
            r@ == Layout::start(width),
    {
        let mut lines: Vec<Line> = Vec::new();
        lines.push(Line::new(width));
        let r = BufferBuilder {
            width,
            col: 0,
            indent: 0,
            eager_wrap: false,
            lines: Lines(lines),
            dot: Pos { col: 0, line: 0 },
        };
        assert(r@.lines =~= seq![Seq::<CellView>::empty()]);
        r
    }

    /// Where the next cell goes.
    pub fn cursor(&self) -> (p: Pos)
        requires
            self@.lines.len() > 0,
        ensures
            p == self@.cursor(),
    {
        Pos { col: self.col, line: coordinate(self.lines.0.len() - 1) }
    }

    /// The frame that was laid out.
    pub fn buffer(self) -> (r: Buffer)
        ensures
            r@ == self@.frame(),
    {
        Buffer { width: self.width, lines: self.lines, dot: self.dot }
    }

    /// Sets the number of blank cells that start each new line.
    pub fn indent(&mut self, indent: u16) -> (r: &mut Self)
        ensures
            r@ == (Layout { indent, ..old(self)@ }),
            *final(self) == *final(r),
    {
        self.indent = indent;
        self
    }

    /// Sets whether a line that is filled to the last column gives way to a
    /// new one at once.
    pub fn eager_wrap(&mut self, wrap: bool) -> (r: &mut Self)
        ensures
            r@ == (Layout { eager_wrap: wrap, ..old(self)@ }),
            *final(self) == *final(r),
    {
        self.eager_wrap = wrap;
        self
    }

    /// Goes on from the lines `lines`, behind the last cell of the last.
    pub fn lines(&mut self, lines: Lines) -> (r: &mut Self)
        ensures
            r@ == (Layout {
                lines: lines@,
                col: if lines@.len() == 0 {
                    0
                } else {
                    clip(row_cols(lines@.last()))
                },
                ..old(self)@
            }),
            *final(self) == *final(r),
    {
        let n = lines.0.len();
        self.col = if n == 0 {
            0
        } else {
            assert(lines@.last() == lines.0@[n - 1]@);
            lines.0[n - 1].width()
        };
        self.lines = lines;
        self
    }

    /// Puts the dot where the next cell goes.
    pub fn dot(&mut self) -> (r: &mut Self)
        requires
            old(self)@.lines.len() > 0,
        ensures
            r@ == (Layout { dot: old(self)@.cursor(), ..old(self)@ }),
            *final(self) == *final(r),
    {
        self.dot = self.cursor();
        self
    }

    /// Starts a new line, with the indent.
    pub fn newline(&mut self) -> (r: &mut Self)
        ensures
            r@ == old(self)@.newline(),
            *final(self) == *final(r),
    {
        self.push_line();
        if self.indent > 0 {
            let cell = Cell { text: String::from_str(" "), style: None };
            proof {
                reveal_strlit(" ");
                assert(cell@.text =~= seq![' ']);
            }
            let n = self.indent;
            let wide = wcswidth(cell.text.as_str());
            self.push_cell_n(cell, n, wide);
        }
        self
    }

    /// Writes `c` in `style`.
    pub fn write_char_styled(&mut self, c: char, style: Style) -> (r: &mut Self)
        ensures
            r@ == old(self)@.write_char(c, style),
            *final(self) == *final(r),
    {
        if c == '\n' {
            return self.newline();
        }
        let v = c as u32;
        let cell = if v <= 0x1f || v == 0x7f {
            let mut style = style;
            style.flags.reverse = true;
            let letter = ((#[verifier::truncate] (v as u8)) ^ 0x40) as char;
            assert(letter == caret_letter(c)) by {
                let b = v as u8;
                assert(v <= 0x1f ==> (b ^ 0x40) == b + 0x40) by (bit_vector)
                    requires
                        b == v as u8,
                        v <= 0x7f,
                ;
                assert(v == 0x7f ==> (b ^ 0x40) == 0x3f) by (bit_vector)
                    requires
                        b == v as u8,
                        v <= 0x7f,
                ;
            }
            let mut text = String::from_str("^");
            push_char(&mut text, letter);
            proof {
                reveal_strlit("^");
                assert(text@ =~= seq!['^', caret_letter(c)]);
            }
            Cell { text, style: Some(style) }
        } else {
            let mut text = String::new();
            push_char(&mut text, c);
            assert(text@ =~= seq![c]);
            Cell { text, style: Some(style) }
        };
        assert(cell@ == cell_of(c, style));
        let wide = wcswidth(cell.text.as_str());
        self.place(cell, wide);
        self
    }

    /// Writes `c` in the plain style.
    pub fn write_char(&mut self, c: char) -> (r: &mut Self)
        ensures
            r@ == old(self)@.write_char(c, Style::plain()),
            *final(self) == *final(r),
    {
        self.write_char_styled(c, Style::reset())
    }

    /// Writes `n` blanks in `style`.
    pub fn write_spaces_styled(&mut self, n: usize, style: Style) -> (r: &mut Self)
        ensures
            r@ == old(self)@.write_spaces(n as nat, style),
            *final(self) == *final(r),
    {
        let mut i: usize = 0;
        while i < n
            invariant
                i <= n,
                self@ == old(self)@.write_spaces(i as nat, style),
            decreases n - i,
        {
            let cell = Cell { text: String::from_str(" "), style: Some(style) };
            proof {
                reveal_strlit(" ");
                assert(cell@.text =~= seq![' ']);
            }
            let wide = wcswidth(cell.text.as_str());
            self.place_in(cell, 1, wide);
            i += 1;
        }
        self
    }

    /// Writes `n` blanks in the plain style.
    pub fn write_spaces(&mut self, n: usize) -> (r: &mut Self)
        ensures
            r@ == old(self)@.write_spaces(n as nat, Style::plain()),
            *final(self) == *final(r),
    {
        self.write_spaces_styled(n, Style::reset())
    }

    /// Writes the characters of `s` in `style`.
    pub fn write_str_styled(&mut self, s: &str, style: Style) -> (r: &mut Self)
        ensures
            r@ == old(self)@.write_str(s@, style),
            *final(self) == *final(r),
    {
        broadcast use {vstd::string::axiom_spec_iter, vstd::string::next_postcondition};

        let mut chars = s.chars();
        let ghost all = s@;
        let ghost mut done: int = 0;
        assert(all.take(0) =~= Seq::<char>::empty());
        assert(all.skip(0) =~= all);
        loop
            invariant_except_break
                0 <= done <= all.len(),
                self@ == old(self)@.write_str(all.take(done), style),
                chars.remaining() == all.skip(done),
            ensures
                self@ == old(self)@.write_str(all, style),
            decreases all.len() - done,
        {
            let ghost before = chars.remaining();
            match chars.next() {
                Some(c) => {
                    assert(before[0] == all[done]);
                    assert(all.take(done + 1).drop_last() =~= all.take(done));
                    assert(all.skip(done).drop_first() =~= all.skip(done + 1));
                    self.write_char_styled(c, style);
                    proof {
                        done = done + 1;
                    }
                },
                None => {
                    assert(all.take(done) =~= all);
                    break ;
                },
            }
        }
        self
    }

    /// Writes the characters of `s` in the plain style.
    pub fn write_str(&mut self, s: &str) -> (r: &mut Self)
        ensures
            r@ == old(self)@.write_str(s@, Style::plain()),
            *final(self) == *final(r),
    {
        self.write_str_styled(s, Style::reset())
    }

    /// Writes the segments of `text`, each in its style.
    pub fn write_text(&mut self, text: &Text) -> (r: &mut Self)
        ensures
            r@ == old(self)@.write_text(text@),
            *final(self) == *final(r),
    {
        let segments = text.segments();
        let mut i: usize = 0;
        assert(text@.take(0) =~= Seq::<SegmentView>::empty());
        while i < segments.len()
            invariant
                i <= segments.len(),
                segments_view(segments@) == text@,
                self@ == old(self)@.write_text(text@.take(i as int)),
            decreases segments.len() - i,
        {
            assert(text@.take(i + 1).drop_last() =~= text@.take(i as int));
            assert(text@.take(i + 1).last() == segments@[i as int]@);
            self.write_str_styled(segments[i].text.as_str(), segments[i].style);
            i += 1;
        }
        assert(text@.take(i as int) =~= text@);
        self
    }

    /// Puts `cell` where it fits, for a cell that was measured to take
    /// `wide` columns: on a new line if it would go beyond the last column.
    pub fn place(&mut self, cell: Cell, wide: u16) -> (r: &mut Self)
        ensures
            r@ == old(self)@.place(cell@, wide),
            *final(self) == *final(r),
    {
        self.place_in(cell, wide, wide);
        self
    }

    fn place_in(&mut self, cell: Cell, room: u16, wide: u16)
        ensures
            final(self)@ == old(self)@.place_in(cell@, room, wide),
    {
        if self.col as u32 + room as u32 > self.width as u32 {
            self.newline();
            self.push_cell(cell, wide);
        } else {
            self.push_cell(cell, wide);
            if self.col == self.width && self.eager_wrap {
                self.newline();
            }
        }
    }

    fn push_line(&mut self)
        ensures
            final(self)@ == old(self)@.push_line(),
    {
        self.lines.0.push(Line::new(self.width));
        self.col = 0;
        assert(self@.lines =~= old(self)@.lines.push(Seq::<CellView>::empty()));
    }

    fn push_cell(&mut self, cell: Cell, wide: u16)
        ensures
            final(self)@ == old(self)@.push_cells(cell@, 1, wide),
    {
        self.push_cell_n(cell, 1, wide);
    }

    fn push_cell_n(&mut self, cell: Cell, n: u16, wide: u16)
        ensures
            final(self)@ == old(self)@.push_cells(cell@, n as nat, wide),
    {
        if self.lines.0.len() == 0 {
            self.lines.0.push(Line::new(self.width));
        }
        let last = self.lines.0.len() - 1;
        let ghost lines0 = self.lines@;
        let ghost row0 = lines0[last as int];
        let ghost col0 = self.col;
        let mut line = Line(Vec::new());
        std::mem::swap(&mut line, &mut self.lines.0[last]);
        let ghost emptied = self.lines.0@;
        let ghost rest = *self;
        let mut i: u16 = 0;
        assert(row0 + Seq::new(0, |k: int| cell@) =~= row0);
        while i < n
            invariant
                i <= n,
                self.lines.0@ == emptied,
                *self == (BufferBuilder { col: self.col, ..rest }),
                line@ == row0 + Seq::new(i as nat, |k: int| cell@),
                self.col == clip((col0 + wide * i) as nat),
            decreases n - i,
        {
            let ghost before = line@;
            line.0.push(cell.clone());
            assert(line@ =~= before.push(cell@));
            assert(line@ =~= row0 + Seq::new((i + 1) as nat, |k: int| cell@));
            assert(wide * (i + 1) == wide * i + wide) by (nonlinear_arith);
            assert(wide * i >= 0) by (nonlinear_arith)
                requires
                    wide >= 0,
                    i >= 0,
            ;
            self.col = self.col.saturating_add(wide);
            i += 1;
        }
        self.lines.0[last] = line;
        proof {
            let cells = Seq::new(n as nat, |k: int| cell@);
            assert(emptied.len() == last + 1);
            assert(forall|k: int| 0 <= k < last ==> emptied[k] == old(self).lines.0@[k]);
            assert(self@.lines =~= lines0.update(last as int, row0 + cells));
            if old(self)@.lines.len() == 0 {
                assert(row0 =~= Seq::<CellView>::empty());
                assert(row0 + cells =~= cells);
                assert(self@.lines =~= seq![cells]);
            } else {
                assert(self@.lines =~= old(self)@.lines.update(
                    old(self)@.lines.len() - 1,
                    old(self)@.lines.last() + cells,
                ));
            }
        }
    }
}

} // verus!
