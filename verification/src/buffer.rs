//! Frames: what the terminal is meant to show, as lines of cells, and where
//! the cursor is meant to stand.

use crate::style::Style;
use crate::width::{columns, wcswidth};
use std::ops::Range;
use vstd::prelude::*;

verus! {

/// An indivisible unit on the screen. It is not necessarily 1 column wide.
#[derive(Debug, PartialEq, Eq)]
pub struct Cell {
    pub text: String,
    pub style: Option<Style>,
}

/// What a cell shows.
pub struct CellView {
    pub text: Seq<char>,
    pub style: Option<Style>,
}

impl View for Cell {
    type V = CellView;

    open spec fn view(&self) -> CellView {
        CellView { text: self.text@, style: self.style }
    }
}

impl Clone for Cell {
    fn clone(&self) -> (r: Cell)
        ensures
            r@ == self@,
    {
        Cell { text: self.text.clone(), style: self.style }
    }
}

impl Cell {
    /// Whether two cells show the same text in the same style.
    pub fn same(&self, other: &Cell) -> (r: bool)
        ensures
            r == (self@ == other@),
    {
        self.text == other.text && self.style == other.style
    }
}

/// A line/column position, both counted from 0.
#[derive(Clone, Copy, Debug, PartialEq, Eq, Hash, Structural)]
pub struct Pos {
    pub col: u16,
    pub line: u16,
}

impl Pos {
    /// The position in column `col` of line `line`.
    pub fn new(col: u16, line: u16) -> (r: Pos)
        ensures
            r == (Pos { col, line }),
    {
        Pos { col, line }
    }
}

impl Default for Pos {
    fn default() -> (r: Pos)
        ensures
            r == (Pos { col: 0, line: 0 }),
    {
        Pos { col: 0, line: 0 }
    }
}

/// What a sequence of cells shows.
pub open spec fn cells_view(cells: Seq<Cell>) -> Seq<CellView> {
    cells.map_values(|c: Cell| c@)
}

/// The columns that a row of cells takes: the sum of the cells' widths.
pub open spec fn row_cols(row: Seq<CellView>) -> nat
    decreases row.len(),
{
    if row.len() == 0 {
        0
    } else {
        row_cols(row.drop_last()) + columns(row.last().text) as nat
    }
}

/// A count of columns as a screen coordinate: it stops at the largest one.
pub open spec fn clip(n: nat) -> u16 {
    if n > u16::MAX {
        u16::MAX
    } else {
        n as u16
    }
}

/// `n` as a screen coordinate: the largest one where `n` is beyond it.
pub fn coordinate(n: usize) -> (r: u16)
    ensures
        r == clip(n as nat),
{
    if n > u16::MAX as usize {
        u16::MAX
    } else {
        n as u16
    }
}

/// The number of leading cells in which two rows agree.
pub open spec fn common_prefix(a: Seq<CellView>, b: Seq<CellView>) -> nat
    decreases a.len(),
{
    if a.len() == 0 || b.len() == 0 || a[0] != b[0] {
        0
    } else {
        1 + common_prefix(a.drop_first(), b.drop_first())
    }
}

/// The index of the first cell in which `a` differs from `b`, where a missing
/// cell differs from any cell; `None` where the rows are equal.
pub open spec fn first_difference(a: Seq<CellView>, b: Seq<CellView>) -> Option<int> {
    if a == b {
        None
    } else {
        Some(common_prefix(a, b) as int)
    }
}

/// Rows are additive in their width.
pub proof fn lemma_row_cols_concat(a: Seq<CellView>, b: Seq<CellView>)
    ensures
        row_cols(a + b) == row_cols(a) + row_cols(b),
    decreases b.len(),
{
    if b.len() == 0 {
        assert(a + b =~= a);
    } else {
        assert((a + b).drop_last() =~= a + b.drop_last());
        assert((a + b).last() == b.last());
        lemma_row_cols_concat(a, b.drop_last());
    }
}

/// A prefix of a row is no wider than the row.
pub proof fn lemma_row_cols_take(row: Seq<CellView>, k: int)
    requires
        0 <= k <= row.len(),
    ensures
        row_cols(row.take(k)) + row_cols(row.skip(k)) == row_cols(row),
{
    assert(row.take(k) + row.skip(k) =~= row);
    lemma_row_cols_concat(row.take(k), row.skip(k));
}

/// The common prefix is one: the rows agree on it, and differ right after it
/// where both go on.
pub proof fn lemma_common_prefix(a: Seq<CellView>, b: Seq<CellView>)
    ensures
        common_prefix(a, b) <= a.len(),
        common_prefix(a, b) <= b.len(),
        a.take(common_prefix(a, b) as int) == b.take(common_prefix(a, b) as int),
        common_prefix(a, b) < a.len() && common_prefix(a, b) < b.len() ==> a[common_prefix(
            a,
            b,
        ) as int] != b[common_prefix(a, b) as int],
    decreases a.len(),
{
    if a.len() == 0 || b.len() == 0 || a[0] != b[0] {
        assert(a.take(0) =~= b.take(0));
    } else {
        let n = common_prefix(a.drop_first(), b.drop_first());
        lemma_common_prefix(a.drop_first(), b.drop_first());
        assert(a.take(n as int + 1) =~= seq![a[0]] + a.drop_first().take(n as int));
        assert(b.take(n as int + 1) =~= seq![b[0]] + b.drop_first().take(n as int));
    }
}

/// Rows that agree on their first `k` cells and not on the next have `k` as
/// their common prefix.
pub proof fn lemma_common_prefix_is(a: Seq<CellView>, b: Seq<CellView>, k: int)
    requires
        0 <= k <= a.len(),
        k <= b.len(),
        a.take(k) == b.take(k),
        k == a.len() || k == b.len() || a[k] != b[k],
    ensures
        common_prefix(a, b) == k,
    decreases k,
{
    if k == 0 {
    } else {
        assert(a[0] == a.take(k)[0]);
        assert(b[0] == b.take(k)[0]);
        assert(a.drop_first().take(k - 1) =~= a.take(k).drop_first());
        assert(b.drop_first().take(k - 1) =~= b.take(k).drop_first());
        lemma_common_prefix_is(a.drop_first(), b.drop_first(), k - 1);
    }
}

/// A single line.
#[derive(Debug, PartialEq, Eq)]
pub struct Line(pub Vec<Cell>);

impl View for Line {
    type V = Seq<CellView>;

    open spec fn view(&self) -> Seq<CellView> {
        cells_view(self.0@)
    }
}

impl Clone for Line {
    fn clone(&self) -> (r: Line)
        ensures
            r@ == self@,
    {
        let mut cells: Vec<Cell> = Vec::with_capacity(self.0.len());
        let mut i: usize = 0;
        while i < self.0.len()
            invariant
                i <= self.0.len(),
                cells_view(cells@) == self@.take(i as int),
            decreases self.0.len() - i,
        {
            let ghost before = cells@;
            cells.push(self.0[i].clone());
            assert(cells_view(cells@) =~= cells_view(before).push(self@[i as int]));
            assert(self@.take(i + 1) =~= self@.take(i as int).push(self@[i as int]));
            i += 1;
        }
        assert(self@.take(i as int) =~= self@);
        Line(cells)
    }
}

impl Line {
    /// An empty line, with room for `width` cells.
    pub fn new(width: u16) -> (r: Line)
        ensures
            r@ == Seq::<CellView>::empty(),
    {
        let r = Line(Vec::with_capacity(width as usize));
        assert(r@ =~= Seq::<CellView>::empty());
        r
    }

    /// The columns that the line takes.
    pub fn width(&self) -> (w: u16)
        ensures
            w == clip(row_cols(self@)),
    {
        Line::width_slice(self.0.as_slice())
    }

    /// The columns that `slice` takes.
    pub fn width_slice(slice: &[Cell]) -> (w: u16)
        ensures
            w == clip(row_cols(cells_view(slice@))),
    {
        let ghost row = cells_view(slice@);
        let mut w: u16 = 0;
        let mut i: usize = 0;
        while i < slice.len()
            invariant
                i <= slice.len(),
                row == cells_view(slice@),
                w == clip(row_cols(row.take(i as int))),
            decreases slice.len() - i,
        {
            assert(row.take(i + 1).drop_last() =~= row.take(i as int));
            w = w.saturating_add(wcswidth(slice[i].text.as_str()));
            i += 1;
        }
        assert(row.take(i as int) =~= row);
        w
    }

    /// Find the index of the first cell in which this line differs from
    /// another.
    pub fn find_difference(&self, other: &Line) -> (r: Option<usize>)
        ensures
            match r {
                Some(at) => first_difference(self@, other@) == Some(at as int),
                None => first_difference(self@, other@).is_none(),
            },
    {
        let mut i: usize = 0;
        while i < self.0.len()
            invariant
                i <= self.0.len(),
                i <= other.0.len(),
                self@.take(i as int) == other@.take(i as int),
            decreases self.0.len() - i,
        {
            if i >= other.0.len() || !self.0[i].same(&other.0[i]) {
                proof {
                    lemma_common_prefix_is(self@, other@, i as int);
                    assert(self@ != other@) by {
                        if self@ == other@ {
                            assert(self@[i as int] == other@[i as int]);
                        }
                    }
                }
                return Some(i);
            }
            assert(self@.take(i + 1) =~= self@.take(i as int).push(self@[i as int]));
            assert(other@.take(i + 1) =~= other@.take(i as int).push(other@[i as int]));
            i += 1;
        }
        assert(self@.take(i as int) =~= self@);
        if self.0.len() < other.0.len() {
            proof {
                lemma_common_prefix_is(self@, other@, i as int);
            }
            return Some(self.0.len());
        }
        assert(other@.take(i as int) =~= other@);
        None
    }
}

/// Multiple lines.
#[derive(Debug, PartialEq, Eq)]
pub struct Lines(pub Vec<Line>);

/// What a sequence of lines shows.
pub open spec fn lines_view(lines: Seq<Line>) -> Seq<Seq<CellView>> {
    lines.map_values(|l: Line| l@)
}

impl View for Lines {
    type V = Seq<Seq<CellView>>;

    open spec fn view(&self) -> Seq<Seq<CellView>> {
        lines_view(self.0@)
    }
}

impl Lines {
    /// A copy of the lines from `from` up to `to`.
    pub fn copy_range(&self, from: usize, to: usize) -> (r: Lines)
        requires
            from <= to <= self.0.len(),
        ensures
            r@ == self@.subrange(from as int, to as int),
    {
        let mut lines: Vec<Line> = Vec::with_capacity(to - from);
        let mut i: usize = from;
        while i < to
            invariant
                from <= i <= to,
                to <= self.0.len(),
                lines_view(lines@) == self@.subrange(from as int, i as int),
            decreases to - i,
        {
            let ghost before = lines@;
            lines.push(self.0[i].clone());
            assert(lines_view(lines@) =~= lines_view(before).push(self@[i as int]));
            assert(self@.subrange(from as int, i + 1) =~= self@.subrange(from as int, i as int).push(
                self@[i as int],
            ));
            i += 1;
        }
        Lines(lines)
    }
}

impl Clone for Lines {
    fn clone(&self) -> (r: Lines)
        ensures
            r@ == self@,
    {
        let r = self.copy_range(0, self.0.len());
        assert(self@.subrange(0, self.0.len() as int) =~= self@);
        r
    }
}

/// A frame: lines of cells for a screen of a given width, and the position
/// that the user perceives as that of the cursor.
#[derive(Debug, PartialEq, Eq)]
pub struct Buffer {
    /// The width of the screen.
    pub width: u16,
    /// The content of the buffer.
    pub lines: Lines,
    /// The position the user perceives as the position of the cursor.
    pub dot: Pos,
}

/// What a frame shows.
pub struct FrameView {
    pub width: u16,
    pub lines: Seq<Seq<CellView>>,
    pub dot: Pos,
}

impl View for Buffer {
    type V = FrameView;

    open spec fn view(&self) -> FrameView {
        FrameView { width: self.width, lines: self.lines@, dot: self.dot }
    }
}

impl Clone for Buffer {
    fn clone(&self) -> (r: Buffer)
        ensures
            r@ == self@,
    {
        Buffer { width: self.width, lines: self.lines.clone(), dot: self.dot }
    }
}

impl FrameView {
    /// The frame of no lines and no width.
    pub open spec fn empty() -> FrameView {
        FrameView { width: 0, lines: Seq::empty(), dot: Pos { col: 0, line: 0 } }
    }

    /// Where the cursor stands once every line has been written: at the end
    /// of the last line.
    pub open spec fn cursor(self) -> Pos {
        if self.lines.len() == 0 {
            Pos { col: 0, line: 0 }
        } else {
            Pos {
                col: clip(row_cols(self.lines.last())),
                line: clip((self.lines.len() - 1) as nat),
            }
        }
    }

    /// The frame cut down to the lines from `start` up to `end`, or up to
    /// the last one where `end` lies beyond it. The dot moves up with the
    /// lines, and stops at the first.
    pub open spec fn trim(self, start: int, end: int) -> FrameView {
        let stop = if end < self.lines.len() {
            end
        } else {
            self.lines.len() as int
        };
        FrameView {
            width: self.width,
            lines: self.lines.subrange(start, stop),
            dot: Pos {
                col: self.dot.col,
                line: if self.dot.line >= start {
                    (self.dot.line - start) as u16
                } else {
                    0
                },
            },
        }
    }

    /// The frame cut down to `height` lines that hold the dot: the first
    /// `height` lines where the dot is among them, else the `height` lines
    /// that end with the dot's.
    pub open spec fn fit(self, height: u16) -> FrameView {
        if self.lines.len() <= height {
            self
        } else if self.dot.line < height {
            self.trim(0, height as int)
        } else {
            self.trim(self.dot.line - height + 1, self.dot.line + 1)
        }
    }
}

/// A frame cut down to a height shows the dot: it has no more lines than
/// the height, and the dot is on the line that it was on.
pub proof fn lemma_fit_shows_dot(frame: FrameView, height: u16)
    requires
        frame.dot.line < frame.lines.len(),
        height > 0,
    ensures
        frame.fit(height).lines.len() <= height,
        frame.fit(height).dot.line < frame.fit(height).lines.len(),
        frame.fit(height).lines[frame.fit(height).dot.line as int] == frame.lines[frame.dot.line as int],
        frame.fit(height).dot.col == frame.dot.col,
        frame.fit(height).width == frame.width,
{
}

impl Buffer {
    /// The frame of no lines and no width: what a screen shows before
    /// anything is drawn.
    pub fn empty() -> (r: Buffer)
        ensures
            r@ == FrameView::empty(),
    {
        let r = Buffer { width: 0, lines: Lines(Vec::new()), dot: Pos { col: 0, line: 0 } };
        assert(r@.lines =~= Seq::empty());
        r
    }

    /// A frame of one empty line.
    pub fn new(width: u16) -> (r: Buffer)
        ensures
            r@ == (FrameView {
                width,
                lines: seq![Seq::<CellView>::empty()],
                dot: Pos { col: 0, line: 0 },
            }),
    {
        let mut lines: Vec<Line> = Vec::new();
        lines.push(Line::new(width));
        let r = Buffer { width, lines: Lines(lines), dot: Pos { col: 0, line: 0 } };
        assert(r@.lines =~= seq![Seq::<CellView>::empty()]);
        r
    }

    /// Returns the column the cursor is in.
    pub fn column(&self) -> (c: u16)
        ensures
            c == self@.cursor().col,
    {
        let n = self.lines.0.len();
        if n == 0 {
            0
        } else {
            assert(self@.lines.last() == self.lines.0@[n - 1]@);
            self.lines.0[n - 1].width()
        }
    }

    /// Returns the current position of the cursor.
    pub fn cursor(&self) -> (p: Pos)
        ensures
            p == self@.cursor(),
    {
        let n = self.lines.0.len();
        if n == 0 {
            Pos { col: 0, line: 0 }
        } else {
            assert(self@.lines.last() == self.lines.0@[n - 1]@);
            Pos { col: self.lines.0[n - 1].width(), line: coordinate(n - 1) }
        }
    }

    /// Keeps the lines of `range`, and moves the dot up by the lines that
    /// went before them.
    pub fn trim_to_lines(&mut self, range: Range<usize>)
        requires
            range.start <= range.end,
            range.start <= old(self)@.lines.len(),
        ensures
            final(self)@ == old(self)@.trim(range.start as int, range.end as int),
    {
        let n = self.lines.0.len();
        let stop = if range.end < n {
            range.end
        } else {
            n
        };
        if range.start == 0 {
            self.lines.0.truncate(stop);
            assert(self.lines@ =~= old(self)@.lines.subrange(0, stop as int));
        } else {
            self.lines = self.lines.copy_range(range.start, stop);
            self.dot.line = if range.start > self.dot.line as usize {
                0
            } else {
                self.dot.line - range.start as u16
            };
        }
    }

    /// Cuts the frame down to `height` lines that hold the dot.
    pub fn trim_to_height(&mut self, height: u16)
        requires
            old(self)@.dot.line < old(self)@.lines.len(),
        ensures
            final(self)@ == old(self)@.fit(height),
            final(self)@.dot.line < u16::MAX,
    {
        if self.lines.0.len() <= height as usize {
        } else if self.dot.line < height {
            self.trim_to_lines(0..height as usize);
        } else {
            let from = (self.dot.line - height) as usize + 1;
            let to = self.dot.line as usize + 1;
            self.trim_to_lines(from..to);
        }
    }

    /// Appends the lines of `buffer`. With `move_dot`, the dot goes to where
    /// the dot of `buffer` comes to stand.
    pub fn extend(&mut self, buffer: &Buffer, move_dot: bool)
        requires
            move_dot ==> buffer@.dot.line + old(self)@.lines.len() <= u16::MAX,
        ensures
            final(self)@.width == old(self)@.width,
            final(self)@.lines == old(self)@.lines + buffer@.lines,
            final(self)@.dot == if move_dot {
                Pos {
                    col: buffer@.dot.col,
                    line: (buffer@.dot.line as int + old(self)@.lines.len()) as u16,
                }
            } else {
                old(self)@.dot
            },
    {
        if move_dot {
            self.dot.line = buffer.dot.line + self.lines.0.len() as u16;
            self.dot.col = buffer.dot.col;
        }
        let mut i: usize = 0;
        while i < buffer.lines.0.len()
            invariant
                i <= buffer.lines.0.len(),
                self.width == old(self).width,
                self.lines@ == old(self)@.lines + buffer@.lines.take(i as int),
                self.dot == if move_dot {
                    Pos {
                        col: buffer@.dot.col,
                        line: (buffer@.dot.line as int + old(self)@.lines.len()) as u16,
                    }
                } else {
                    old(self)@.dot
                },
            decreases buffer.lines.0.len() - i,
        {
            let ghost before = self.lines.0@;
            self.lines.0.push(buffer.lines.0[i].clone());
            assert(self.lines@ =~= lines_view(before).push(buffer@.lines[i as int]));
            assert(buffer@.lines.take(i + 1) =~= buffer@.lines.take(i as int).push(
                buffer@.lines[i as int],
            ));
            assert(self.lines@ =~= old(self)@.lines + buffer@.lines.take(i + 1));
            i += 1;
        }
        assert(buffer@.lines.take(i as int) =~= buffer@.lines);
    }

    /// Appends an empty line. With `move_dot`, the dot goes to the start of
    /// the line below the one it is on.
    pub fn new_line(&mut self, move_dot: bool, width: Option<u16>)
        requires
            move_dot ==> old(self)@.dot.line < u16::MAX,
        ensures
            final(self)@.width == old(self)@.width,
            final(self)@.lines == old(self)@.lines.push(Seq::<CellView>::empty()),
            final(self)@.dot == if move_dot {
                Pos { col: 0, line: (old(self)@.dot.line + 1) as u16 }
            } else {
                old(self)@.dot
            },
    {
        if move_dot {
            self.dot.line += 1;
            self.dot.col = 0;
        }
        let w = match width {
            Some(w) => w,
            None => self.width,
        };
        self.lines.0.push(Line::new(w));
        assert(self.lines@ =~= old(self)@.lines.push(Seq::<CellView>::empty()));
    }
}

} // verus!
