//! The renderer: it keeps the frame that the terminal shows, and turns the
//! next frame into terminal operations that only touch what has changed.

use crate::buffer::{
    cells_view, clip, first_difference, lemma_common_prefix, row_cols, Buffer, Cell, CellView,
    FrameView, Line, Lines, Pos,
};
use crate::style::Style;
use vstd::slice::slice_subrange;
use vstd::prelude::*;

verus! {

/// One thing that a terminal is asked to do.
#[derive(Debug, PartialEq, Eq)]
pub enum TermOp {
    /// Stop showing the cursor.
    HideCursor,
    /// Show the cursor again.
    ShowCursor,
    /// Move the cursor up by so many rows.
    MoveUp(u16),
    /// Move the cursor down by so many rows.
    MoveDown(u16),
    /// Move the cursor right by so many columns.
    MoveRight(u16),
    /// Move the cursor to the first column of its row.
    CarriageReturn,
    /// Move the cursor to the first column of the next row.
    LineFeed,
    /// Clear the cursor's row from the cursor on.
    ClearLine,
    /// Clear the cursor's row from the cursor on, and every row below.
    ClearBelow,
    /// Remember where the cursor stands.
    SavePosition,
    /// Move the cursor to where it stood when last remembered.
    RestorePosition,
    /// Draw what follows in this style, or plainly.
    SetStyle(Option<Style>),
    /// Write this text at the cursor.
    Print(String),
}

/// What an operation asks for.
pub enum OpView {
    HideCursor,
    ShowCursor,
    MoveUp(u16),
    MoveDown(u16),
    MoveRight(u16),
    CarriageReturn,
    LineFeed,
    ClearLine,
    ClearBelow,
    SavePosition,
    RestorePosition,
    SetStyle(Option<Style>),
    Print(Seq<char>),
}

impl View for TermOp {
    type V = OpView;

    open spec fn view(&self) -> OpView {
        match self {
            TermOp::HideCursor => OpView::HideCursor,
            TermOp::ShowCursor => OpView::ShowCursor,
            TermOp::MoveUp(n) => OpView::MoveUp(*n),
            TermOp::MoveDown(n) => OpView::MoveDown(*n),
            TermOp::MoveRight(n) => OpView::MoveRight(*n),
            TermOp::CarriageReturn => OpView::CarriageReturn,
            TermOp::LineFeed => OpView::LineFeed,
            TermOp::ClearLine => OpView::ClearLine,
            TermOp::ClearBelow => OpView::ClearBelow,
            TermOp::SavePosition => OpView::SavePosition,
            TermOp::RestorePosition => OpView::RestorePosition,
            TermOp::SetStyle(s) => OpView::SetStyle(*s),
            TermOp::Print(t) => OpView::Print(t@),
        }
    }
}

/// What a sequence of operations asks for.
pub open spec fn ops_view(ops: Seq<TermOp>) -> Seq<OpView> {
    ops.map_values(|op: TermOp| op@)
}

/// The operations that change the style in use from `pen` to `to`: none where
/// they are the same.
pub open spec fn switch_ops(pen: Option<Style>, to: Option<Style>) -> Seq<OpView> {
    if pen == to {
        seq![]
    } else {
        seq![OpView::SetStyle(to)]
    }
}

/// The operations that write `cells` from left to right, starting with the
/// style `pen` in use. The style is switched only between cells that differ
/// in it.
pub open spec fn paint_ops(cells: Seq<CellView>, pen: Option<Style>) -> Seq<OpView>
    decreases cells.len(),
{
    if cells.len() == 0 {
        seq![]
    } else {
        paint_ops(cells.drop_last(), pen) + switch_ops(
            paint_pen(cells.drop_last(), pen),
            cells.last().style,
        ) + seq![OpView::Print(cells.last().text)]
    }
}

/// The style in use after `paint_ops`.
pub open spec fn paint_pen(cells: Seq<CellView>, pen: Option<Style>) -> Option<Style> {
    if cells.len() == 0 {
        pen
    } else {
        cells.last().style
    }
}

/// The style in use once a row's stale tail has been cleared: clearing is
/// done in the plain style.
pub open spec fn pen_at_difference(old: Seq<CellView>, at: int, pen: Option<Style>) -> Option<
    Style,
> {
    if at < old.len() {
        None
    } else {
        pen
    }
}

/// The operations that turn the row `old` on the screen into `new`, with the
/// cursor at the start of the row. Where there is no old row to go by, the
/// whole of `new` is written. Else nothing is done to an equal row, and in
/// any other the cursor moves right to the first cell that differs, the rest
/// of the old row is cleared if it had more cells, and the cells of `new`
/// from there on are written.
pub open spec fn line_ops(old: Option<Seq<CellView>>, new: Seq<CellView>, pen: Option<Style>) -> Seq<
    OpView,
> {
    match old {
        None => paint_ops(new, pen),
        Some(old) => match first_difference(new, old) {
            None => seq![],
            Some(at) => {
                let col = clip(row_cols(new.take(at)));
                let right = if col > 0 {
                    seq![OpView::MoveRight(col)]
                } else {
                    seq![]
                };
                let clear = if at < old.len() {
                    switch_ops(pen, None) + seq![OpView::ClearLine]
                } else {
                    seq![]
                };
                right + clear + paint_ops(new.skip(at), pen_at_difference(old, at, pen))
            },
        },
    }
}

/// The style in use after `line_ops`.
pub open spec fn line_pen(old: Option<Seq<CellView>>, new: Seq<CellView>, pen: Option<Style>) -> Option<
    Style,
> {
    match old {
        None => paint_pen(new, pen),
        Some(old) => match first_difference(new, old) {
            None => pen,
            Some(at) => paint_pen(new.skip(at), pen_at_difference(old, at, pen)),
        },
    }
}

/// The row of the frame on the screen that line `i` of the next frame is
/// held against: none when everything is repainted, or where the old frame
/// has no such line.
pub open spec fn row_before(before: Seq<Seq<CellView>>, full: bool, i: int) -> Option<
    Seq<CellView>,
> {
    if !full && 0 <= i < before.len() {
        Some(before[i])
    } else {
        None
    }
}

/// The operations that draw the first `n` lines of `after` over `before`,
/// line by line, with a line feed between two lines.
pub open spec fn lines_ops(
    before: Seq<Seq<CellView>>,
    after: Seq<Seq<CellView>>,
    full: bool,
    pen: Option<Style>,
    n: nat,
) -> Seq<OpView>
    decreases n,
{
    if n == 0 {
        seq![]
    } else {
        let i = (n - 1) as nat;
        let feed = if i > 0 {
            seq![OpView::LineFeed]
        } else {
            seq![]
        };
        lines_ops(before, after, full, pen, i) + feed + line_ops(
            row_before(before, full, i as int),
            after[i as int],
            lines_pen(before, after, full, pen, i),
        )
    }
}

/// The style in use after `lines_ops`.
pub open spec fn lines_pen(
    before: Seq<Seq<CellView>>,
    after: Seq<Seq<CellView>>,
    full: bool,
    pen: Option<Style>,
    n: nat,
) -> Option<Style>
    decreases n,
{
    if n == 0 {
        pen
    } else {
        let i = (n - 1) as nat;
        line_pen(
            row_before(before, full, i as int),
            after[i as int],
            lines_pen(before, after, full, pen, i),
        )
    }
}

/// The operations that write the first `n` lines of the notices above the
/// frame: each line in full, the rest of its row cleared in the plain style,
/// and a line feed after it.
pub open spec fn notes_ops(notes: Seq<Seq<CellView>>, n: nat) -> Seq<OpView>
    decreases n,
{
    if n == 0 {
        seq![]
    } else {
        let i = (n - 1) as nat;
        notes_ops(notes, i) + paint_ops(notes[i as int], None) + switch_ops(
            paint_pen(notes[i as int], None),
            None,
        ) + seq![OpView::ClearLine, OpView::LineFeed]
    }
}

/// The operations that write the notices, if there are any.
pub open spec fn above_ops(notes: Option<FrameView>) -> Seq<OpView> {
    match notes {
        Some(notes) => notes_ops(notes.lines, notes.lines.len()),
        None => seq![],
    }
}

/// What a line shows, if there is one.
pub open spec fn line_view(line: Option<&Line>) -> Option<Seq<CellView>> {
    match line {
        Some(line) => Some(line@),
        None => None,
    }
}

/// What the notices show, if there are any.
pub open spec fn frame_view(notes: Option<Buffer>) -> Option<FrameView> {
    match notes {
        Some(notes) => Some(notes@),
        None => None,
    }
}

/// The operations that take the cursor from `from` to `to`: up or down by
/// the rows between them, to the first column, and right by the column of
/// `to`. No operation names a position on the screen.
pub open spec fn delta_ops(from: Pos, to: Pos) -> Seq<OpView> {
    let rows = if to.line > from.line {
        seq![OpView::MoveDown((to.line - from.line) as u16)]
    } else if from.line > to.line {
        seq![OpView::MoveUp((from.line - to.line) as u16)]
    } else {
        seq![]
    };
    let cols = if to.col > 0 {
        seq![OpView::MoveRight(to.col)]
    } else {
        seq![]
    };
    rows + seq![OpView::CarriageReturn] + cols
}

/// Whether drawing `new` over `old` has to repaint everything although it
/// was not asked to: the width has changed and something is on the screen.
pub open spec fn width_changed(old: FrameView, new: FrameView) -> bool {
    new.width != old.width && old.lines.len() > 0
}

/// The lines on the screen that the next frame is held against.
pub open spec fn lines_before(old: FrameView, new: FrameView) -> Seq<Seq<CellView>> {
    if width_changed(old, new) {
        Seq::empty()
    } else {
        old.lines
    }
}

/// The operations that go before the lines: hide the cursor, take it up by
/// `up` rows to the start of the frame and, for a full repaint, clear the
/// screen from there.
pub open spec fn head_ops(up: u16, full: bool) -> Seq<OpView> {
    let up = if up > 0 {
        seq![OpView::MoveUp(up)]
    } else {
        seq![]
    };
    let clear = if full {
        seq![OpView::Print(seq![' ']), OpView::ClearBelow, OpView::CarriageReturn]
    } else {
        seq![]
    };
    seq![OpView::HideCursor] + up + seq![OpView::CarriageReturn] + clear
}

/// The operations that clear what the old frame had below the new one, with
/// the cursor on the last line of the new frame, and leave the cursor where
/// it was. The clear starts on the row below the cursor. A new frame of no
/// lines has no last line: the cursor is then on the first row of the old
/// frame, and the clear starts there.
pub open spec fn below_ops(before: Seq<Seq<CellView>>, new: FrameView, full: bool) -> Seq<OpView> {
    if full || before.len() <= new.lines.len() {
        seq![]
    } else if new.lines.len() == 0 {
        seq![OpView::SavePosition, OpView::ClearBelow, OpView::RestorePosition]
    } else {
        seq![
            OpView::SavePosition,
            OpView::LineFeed,
            OpView::ClearBelow,
            OpView::RestorePosition,
        ]
    }
}

/// The operations that come after the lines: back to the plain style, clear
/// what the old frame had below the new one, take the cursor to the dot and
/// show it.
pub open spec fn tail_ops(
    before: Seq<Seq<CellView>>,
    new: FrameView,
    full: bool,
    pen: Option<Style>,
) -> Seq<OpView> {
    switch_ops(pen, None) + below_ops(before, new, full) + delta_ops(new.cursor(), new.dot)
        + seq![OpView::ShowCursor]
}

/// The operations that bring a screen which shows `old` to show `new`, below
/// the notices if there are any. With `refresh`, or where the width has
/// changed, everything is cleared and written again.
pub open spec fn commit_ops(
    old: FrameView,
    notes: Option<FrameView>,
    new: FrameView,
    refresh: bool,
) -> Seq<OpView> {
    let full = refresh || width_changed(old, new);
    let before = lines_before(old, new);
    head_ops(old.dot.line, full) + above_ops(notes) + lines_ops(before, new.lines, full, None, new.lines.len())
        + tail_ops(before, new, full, lines_pen(before, new.lines, full, None, new.lines.len()))
}

proof fn lemma_ops_push(ops: Seq<TermOp>, op: TermOp)
    ensures
        ops_view(ops.push(op)) == ops_view(ops).push(op@),
{
    assert(ops_view(ops.push(op)) =~= ops_view(ops).push(op@));
}

fn emit(out: &mut Vec<TermOp>, op: TermOp)
    ensures
        ops_view(final(out)@) == ops_view(old(out)@).push(op@),
{
    proof {
        lemma_ops_push(out@, op);
    }
    out.push(op);
}

fn switch_style(out: &mut Vec<TermOp>, pen: &mut Option<Style>, to: Option<Style>)
    ensures
        ops_view(final(out)@) == ops_view(old(out)@) + switch_ops(*old(pen), to),
        *final(pen) == to,
{
    if *pen != to {
        emit(out, TermOp::SetStyle(to));
        *pen = to;
        assert(ops_view(out@) =~= ops_view(old(out)@) + switch_ops(*old(pen), to));
    } else {
        assert(ops_view(out@) =~= ops_view(old(out)@) + switch_ops(*old(pen), to));
    }
}

fn write_cells(out: &mut Vec<TermOp>, pen: &mut Option<Style>, cells: &Vec<Cell>, from: usize)
    requires
        from <= cells.len(),
    ensures
        ops_view(final(out)@) == ops_view(old(out)@) + paint_ops(
            cells_view(cells@).skip(from as int),
            *old(pen),
        ),
        *final(pen) == paint_pen(cells_view(cells@).skip(from as int), *old(pen)),
{
    let ghost row = cells_view(cells@).skip(from as int);
    let mut i: usize = from;
    assert(ops_view(out@) =~= ops_view(old(out)@) + paint_ops(row.take(0), *old(pen)));
    while i < cells.len()
        invariant
            from <= i <= cells.len(),
            row == cells_view(cells@).skip(from as int),
            ops_view(out@) == ops_view(old(out)@) + paint_ops(row.take(i - from), *old(pen)),
            *pen == paint_pen(row.take(i - from), *old(pen)),
        decreases cells.len() - i,
    {
        let ghost done = row.take(i - from);
        let ghost next = row.take(i - from + 1);
        assert(next.drop_last() =~= done);
        assert(next.last() == cells@[i as int]@);
        switch_style(out, pen, cells[i].style);
        emit(out, TermOp::Print(cells[i].text.clone()));
        assert(ops_view(out@) =~= ops_view(old(out)@) + paint_ops(next, *old(pen)));
        i += 1;
    }
    assert(row.take(i - from) =~= row);
}

fn put_head(out: &mut Vec<TermOp>, up: u16, full: bool)
    ensures
        ops_view(final(out)@) == ops_view(old(out)@) + head_ops(up, full),
{
    emit(out, TermOp::HideCursor);
    if up > 0 {
        emit(out, TermOp::MoveUp(up));
    }
    emit(out, TermOp::CarriageReturn);
    if full {
        // The space keeps a terminal multiplexer from saving the screen that
        // the clear wipes.
        let space = String::from_str(" ");
        proof {
            reveal_strlit(" ");
            assert(space@ =~= seq![' ']);
        }
        emit(out, TermOp::Print(space));
        emit(out, TermOp::ClearBelow);
        emit(out, TermOp::CarriageReturn);
    }
    assert(ops_view(out@) =~= ops_view(old(out)@) + head_ops(up, full));
}

fn put_notes(out: &mut Vec<TermOp>, notes: &Buffer)
    ensures
        ops_view(final(out)@) == ops_view(old(out)@) + notes_ops(
            notes@.lines,
            notes@.lines.len(),
        ),
{
    let mut k: usize = 0;
    assert(ops_view(out@) =~= ops_view(old(out)@) + notes_ops(notes@.lines, 0));
    while k < notes.lines.0.len()
        invariant
            k <= notes.lines.0.len(),
            ops_view(out@) == ops_view(old(out)@) + notes_ops(notes@.lines, k as nat),
        decreases notes.lines.0.len() - k,
    {
        let ghost start = ops_view(out@);
        let mut pen: Option<Style> = None;
        let line = &notes.lines.0[k];
        assert(line@ == notes@.lines[k as int]);
        assert(line@.skip(0) =~= line@);
        write_cells(out, &mut pen, &line.0, 0);
        switch_style(out, &mut pen, None);
        emit(out, TermOp::ClearLine);
        emit(out, TermOp::LineFeed);
        assert(ops_view(out@) =~= start + (paint_ops(line@, None) + switch_ops(
            paint_pen(line@, None),
            None,
        ) + seq![OpView::ClearLine, OpView::LineFeed]));
        assert(ops_view(out@) =~= ops_view(old(out)@) + notes_ops(notes@.lines, (k + 1) as nat));
        k += 1;
    }
}

fn put_line(out: &mut Vec<TermOp>, pen: &mut Option<Style>, held: Option<&Line>, line: &Line)
    ensures
        ops_view(final(out)@) == ops_view(old(out)@) + line_ops(
            line_view(held),
            line@,
            *old(pen),
        ),
        *final(pen) == line_pen(line_view(held), line@, *old(pen)),
{
    match held {
        Some(old_line) => {
            match line.find_difference(old_line) {
                Some(at) => {
                    proof {
                        lemma_common_prefix(line@, old_line@);
                    }
                    let first_col = Line::width_slice(slice_subrange(line.0.as_slice(), 0, at));
                    assert(cells_view(line.0@.subrange(0, at as int)) =~= line@.take(at as int));
                    if first_col > 0 {
                        emit(out, TermOp::MoveRight(first_col));
                    }
                    if at < old_line.0.len() {
                        switch_style(out, pen, None);
                        emit(out, TermOp::ClearLine);
                    }
                    write_cells(out, pen, &line.0, at);
                    assert(ops_view(out@) =~= ops_view(old(out)@) + line_ops(
                        line_view(held),
                        line@,
                        *old(pen),
                    ));
                },
                None => {
                    assert(ops_view(out@) =~= ops_view(old(out)@) + line_ops(
                        line_view(held),
                        line@,
                        *old(pen),
                    ));
                },
            }
        },
        None => {
            assert(line@.skip(0) =~= line@);
            write_cells(out, pen, &line.0, 0);
        },
    }
}

fn put_lines(
    out: &mut Vec<TermOp>,
    pen: &mut Option<Style>,
    before: &Lines,
    after: &Lines,
    full: bool,
)
    ensures
        ops_view(final(out)@) == ops_view(old(out)@) + lines_ops(
            before@,
            after@,
            full,
            *old(pen),
            after@.len(),
        ),
        *final(pen) == lines_pen(before@, after@, full, *old(pen), after@.len()),
{
    let mut i: usize = 0;
    assert(ops_view(out@) =~= ops_view(old(out)@) + lines_ops(
        before@,
        after@,
        full,
        *old(pen),
        0,
    ));
    while i < after.0.len()
        invariant
            i <= after.0.len(),
            ops_view(out@) == ops_view(old(out)@) + lines_ops(
                before@,
                after@,
                full,
                *old(pen),
                i as nat,
            ),
            *pen == lines_pen(before@, after@, full, *old(pen), i as nat),
        decreases after.0.len() - i,
    {
        let ghost start = ops_view(out@);
        let ghost pen0 = *pen;
        let line = &after.0[i];
        assert(line@ == after@[i as int]);
        if i > 0 {
            emit(out, TermOp::LineFeed);
        }
        let ghost feed = if i > 0 {
            seq![OpView::LineFeed]
        } else {
            seq![]
        };
        assert(ops_view(out@) =~= start + feed);
        let held: Option<&Line> = if !full && i < before.0.len() {
            assert(before.0@[i as int]@ == before@[i as int]);
            Some(&before.0[i])
        } else {
            None
        };
        assert(line_view(held) == row_before(before@, full, i as int));
        put_line(out, pen, held, line);
        assert(ops_view(out@) =~= start + (feed + line_ops(
            row_before(before@, full, i as int),
            line@,
            pen0,
        )));
        assert(ops_view(out@) =~= ops_view(old(out)@) + lines_ops(
            before@,
            after@,
            full,
            *old(pen),
            (i + 1) as nat,
        ));
        i += 1;
    }
}

fn put_tail(
    out: &mut Vec<TermOp>,
    pen: Option<Style>,
    before: &Lines,
    buffer: &Buffer,
    full: bool,
)
    ensures
        ops_view(final(out)@) == ops_view(old(out)@) + tail_ops(before@, buffer@, full, pen),
{
    let mut current = pen;
    switch_style(out, &mut current, None);
    if !full && before.0.len() > buffer.lines.0.len() {
        emit(out, TermOp::SavePosition);
        if buffer.lines.0.len() > 0 {
            // The rows to clear start below the last line of the frame.
            emit(out, TermOp::LineFeed);
        }
        emit(out, TermOp::ClearBelow);
        emit(out, TermOp::RestorePosition);
    }
    write_delta_pos(out, buffer.cursor(), buffer.dot);
    emit(out, TermOp::ShowCursor);
    assert(ops_view(out@) =~= ops_view(old(out)@) + tail_ops(before@, buffer@, full, pen));
}

/// The renderer's state: the frame that the terminal shows.
#[derive(Debug)]
pub struct Writer {
    buffer: Buffer,
}

impl View for Writer {
    type V = FrameView;

    closed spec fn view(&self) -> FrameView {
        self.buffer@
    }
}

impl Writer {
    /// A renderer for a screen on which nothing is drawn yet.
    pub fn new() -> (r: Writer)
        ensures
            r@ == FrameView::empty(),
    {
        Writer { buffer: Buffer::empty() }
    }

    /// Returns a reference the current buffer.
    pub fn buffer(&self) -> (r: &Buffer)
        ensures
            r@ == self@,
    {
        &self.buffer
    }

    /// Returns a mutable reference to the current buffer.
    pub fn buffer_mut(&mut self) -> (r: &mut Buffer)
        ensures
            r@ == old(self)@,
            final(self)@ == final(r)@,
    {
        &mut self.buffer
    }

    /// Forgets the frame on the screen: the next one is drawn as on an
    /// empty screen.
    pub fn reset_buffer(&mut self)
        ensures
            final(self)@ == FrameView::empty(),
    {
        self.buffer = Buffer::empty();
    }

    /// Makes `buffer` the frame on the screen, and returns the operations
    /// that bring the terminal there from the frame before.
    pub fn commit_buffer(&mut self, notes: Option<Buffer>, buffer: Buffer, refresh: bool) -> (ops:
        Vec<TermOp>)
        ensures
            ops_view(ops@) == commit_ops(old(self)@, frame_view(notes), buffer@, refresh),
            final(self)@ == buffer@,
    {
        let ghost old_frame = self@;
        let ghost new_frame = buffer@;
        let mut full = refresh;
        let up = self.buffer.dot.line;

        // A frame of another width cannot be held against: repaint it all.
        if buffer.width != self.buffer.width && self.buffer.lines.0.len() > 0 {
            self.buffer.lines.0.clear();
            full = true;
        }
        assert(self.buffer.lines@ =~= lines_before(old_frame, new_frame));

        let mut out: Vec<TermOp> = Vec::new();
        assert(ops_view(out@) =~= Seq::<OpView>::empty());
        put_head(&mut out, up, full);
        let ghost head = ops_view(out@);
        match &notes {
            Some(notes) => {
                put_notes(&mut out, notes);
            },
            None => {},
        }
        let ghost above = ops_view(out@);
        assert(above =~= head + above_ops(frame_view(notes)));
        let mut pen: Option<Style> = None;
        put_lines(&mut out, &mut pen, &self.buffer.lines, &buffer.lines, full);
        put_tail(&mut out, pen, &self.buffer.lines, &buffer, full);
        assert(ops_view(out@) =~= commit_ops(old_frame, frame_view(notes), new_frame, refresh));
        self.buffer = buffer;
        out
    }
}

/// Appends the operations that take the cursor from `from` to `to`.
pub fn write_delta_pos(out: &mut Vec<TermOp>, from: Pos, to: Pos)
    ensures
        ops_view(final(out)@) == ops_view(old(out)@) + delta_ops(from, to),
{
    if to.line > from.line {
        emit(out, TermOp::MoveDown(to.line - from.line));
    } else if from.line > to.line {
        emit(out, TermOp::MoveUp(from.line - to.line));
    }
    emit(out, TermOp::CarriageReturn);
    if to.col > 0 {
        emit(out, TermOp::MoveRight(to.col));
    }
    assert(ops_view(out@) =~= ops_view(old(out)@) + delta_ops(from, to));
}

} // verus!
