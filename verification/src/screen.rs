//! A model of the terminal, and what the renderer's operations do to it.
//!
//! The model keeps the rows of cells below the place where the frame starts,
//! the cursor and the style in use. It knows nothing of the screen's width or
//! height: it is meant for operations that stay within a frame.

use crate::buffer::{
    common_prefix, lemma_common_prefix, lemma_row_cols_concat, lemma_row_cols_take, row_cols,
    Buffer, CellView, FrameView, Line, Pos,
};
use crate::builder::blank;
use crate::style::Style;
use crate::width::{columns, wcswidth};
use crate::writer::{
    below_ops, commit_ops, delta_ops, head_ops, line_ops, line_pen, lines_before, lines_ops,
    lines_pen, paint_ops, paint_pen, pen_at_difference, row_before, switch_ops, tail_ops,
    width_changed, OpView,
};
use vstd::prelude::*;

verus! {

/// What a terminal shows and remembers.
pub struct Screen {
    /// The rows of cells, from the row where the frame starts.
    pub rows: Seq<Seq<CellView>>,
    /// The cursor's row, counted from the row where the frame starts.
    pub row: int,
    /// The cursor's column.
    pub col: int,
    /// The style in which text is written.
    pub pen: Option<Style>,
    /// The position that was last saved.
    pub saved: (int, int),
    /// Whether every operation so far was one that the model has an answer
    /// for: text was only written where a cell starts or the row ends, and
    /// never above the frame.
    pub ok: bool,
}

/// Row `i` of `rows`: empty where there is no such row.
pub open spec fn row_at(rows: Seq<Seq<CellView>>, i: int) -> Seq<CellView> {
    if 0 <= i < rows.len() {
        rows[i]
    } else {
        Seq::empty()
    }
}

/// `rows` with row `i` replaced, after as many empty rows as it takes to have
/// a row `i`.
pub open spec fn with_row(rows: Seq<Seq<CellView>>, i: int, row: Seq<CellView>) -> Seq<
    Seq<CellView>,
> {
    if i < rows.len() {
        rows.update(i, row)
    } else {
        (rows + Seq::new((i - rows.len()) as nat, |k: int| Seq::<CellView>::empty())).push(row)
    }
}

/// The number of leading cells of `row` that lie within its first `c`
/// columns.
pub open spec fn cells_upto(row: Seq<CellView>, c: int) -> nat
    decreases row.len(),
{
    if row.len() == 0 || columns(row[0].text) > c {
        0
    } else {
        1 + cells_upto(row.drop_first(), c - columns(row[0].text))
    }
}

/// The number of leading cells of `row` that start before column `c`.
pub open spec fn cells_reaching(row: Seq<CellView>, c: int) -> nat
    decreases row.len(),
{
    if c <= 0 || row.len() == 0 {
        0
    } else {
        1 + cells_reaching(row.drop_first(), c - columns(row[0].text))
    }
}

/// The distance that a movement by `n` covers: terminals take a count of 0
/// for 1.
pub open spec fn steps(n: u16) -> int {
    if n == 0 {
        1
    } else {
        n as int
    }
}

/// Whether every cell of `row` takes at least one column.
pub open spec fn solid(row: Seq<CellView>) -> bool {
    forall|j: int| 0 <= j < row.len() ==> columns(#[trigger] row[j].text) > 0
}

/// Whether every cell of every row takes at least one column.
pub open spec fn all_solid(rows: Seq<Seq<CellView>>) -> bool {
    forall|i: int| 0 <= i < rows.len() ==> solid(#[trigger] rows[i])
}

/// Whether the width of every row is a screen coordinate.
pub open spec fn all_narrow(rows: Seq<Seq<CellView>>) -> bool {
    forall|i: int| 0 <= i < rows.len() ==> row_cols(#[trigger] rows[i]) <= u16::MAX
}

impl Screen {
    /// A terminal that shows `frame`, with the cursor on the frame's dot and
    /// the plain style in use.
    pub open spec fn showing(frame: FrameView) -> Screen {
        Screen {
            rows: frame.lines,
            row: frame.dot.line as int,
            col: frame.dot.col as int,
            pen: None,
            saved: (0, 0),
            ok: true,
        }
    }

    /// The row that the cursor is on.
    pub open spec fn current(self) -> Seq<CellView> {
        row_at(self.rows, self.row)
    }

    /// Whether the terminal shows exactly the rows `rows`, cell for cell.
    pub open spec fn shows(self, rows: Seq<Seq<CellView>>) -> bool {
        forall|i: int| #[trigger] row_at(self.rows, i) == row_at(rows, i)
    }

    /// The terminal after `text` was written at the cursor, in the style in
    /// use: the cell takes the place of the cells whose columns it covers.
    pub open spec fn print(self, text: Seq<char>) -> Screen {
        let cur = self.current();
        let k = cells_upto(cur, self.col) as int;
        let fits = self.row >= 0 && row_cols(cur.take(k)) == self.col;
        let cell = CellView { text, style: self.pen };
        let row = cur.take(k).push(cell) + cur.skip(
            cells_reaching(cur, self.col + columns(text)) as int,
        );
        Screen {
            rows: if fits {
                with_row(self.rows, self.row, row)
            } else {
                self.rows
            },
            col: self.col + columns(text),
            ok: self.ok && fits,
            ..self
        }
    }

    /// The terminal after the cursor's row was cleared from the cursor on.
    pub open spec fn clear_line(self) -> Screen {
        let cur = self.current();
        Screen {
            rows: if 0 <= self.row < self.rows.len() {
                self.rows.update(self.row, cur.take(cells_upto(cur, self.col) as int))
            } else {
                self.rows
            },
            ..self
        }
    }

    /// The terminal after the cursor's row was cleared from the cursor on,
    /// and every row below it.
    pub open spec fn clear_below(self) -> Screen {
        let cur = self.current();
        Screen {
            rows: if 0 <= self.row < self.rows.len() {
                self.rows.take(self.row).push(cur.take(cells_upto(cur, self.col) as int))
            } else if self.row < 0 {
                Seq::empty()
            } else {
                self.rows
            },
            ..self
        }
    }

    /// The terminal after one operation.
    pub open spec fn apply(self, op: OpView) -> Screen {
        match op {
            OpView::HideCursor => self,
            OpView::ShowCursor => self,
            OpView::MoveUp(n) => Screen { row: self.row - steps(n), ..self },
            OpView::MoveDown(n) => Screen { row: self.row + steps(n), ..self },
            OpView::MoveRight(n) => Screen { col: self.col + steps(n), ..self },
            OpView::CarriageReturn => Screen { col: 0, ..self },
            OpView::LineFeed => Screen { row: self.row + 1, col: 0, ..self },
            OpView::ClearLine => self.clear_line(),
            OpView::ClearBelow => self.clear_below(),
            OpView::SavePosition => Screen { saved: (self.row, self.col), ..self },
            OpView::RestorePosition => Screen { row: self.saved.0, col: self.saved.1, ..self },
            OpView::SetStyle(style) => Screen { pen: style, ..self },
            OpView::Print(text) => self.print(text),
        }
    }

    /// The terminal after the operations `ops`, one after the other.
    pub open spec fn replay(self, ops: Seq<OpView>) -> Screen
        decreases ops.len(),
    {
        if ops.len() == 0 {
            self
        } else {
            self.apply(ops[0]).replay(ops.drop_first())
        }
    }
}

/// Replaying one sequence after another is replaying them joined.
pub proof fn lemma_replay_concat(s: Screen, a: Seq<OpView>, b: Seq<OpView>)
    ensures
        s.replay(a + b) == s.replay(a).replay(b),
    decreases a.len(),
{
    if a.len() == 0 {
        assert(a + b =~= b);
    } else {
        assert((a + b)[0] == a[0]);
        assert((a + b).drop_first() =~= a.drop_first() + b);
        lemma_replay_concat(s.apply(a[0]), a.drop_first(), b);
    }
}

proof fn lemma_replay_one(s: Screen, op: OpView)
    ensures
        s.replay(seq![op]) == s.apply(op),
{
    assert(seq![op].drop_first() =~= Seq::<OpView>::empty());
    assert(s.apply(op).replay(seq![op].drop_first()) == s.apply(op));
}

proof fn lemma_replay_push(s: Screen, ops: Seq<OpView>, op: OpView)
    ensures
        s.replay(ops.push(op)) == s.replay(ops).apply(op),
{
    assert(ops.push(op) =~= ops + seq![op]);
    lemma_replay_concat(s, ops, seq![op]);
    lemma_replay_one(s.replay(ops), op);
}

proof fn lemma_row_cols_front(row: Seq<CellView>)
    requires
        row.len() > 0,
    ensures
        row_cols(row) == columns(row[0].text) + row_cols(row.drop_first()),
{
    let head = seq![row[0]];
    assert(head.drop_last() =~= Seq::<CellView>::empty());
    assert(row_cols(head.drop_last()) == 0);
    assert(head.last() == row[0]);
    assert(row_cols(head) == columns(row[0].text) as nat);
    assert(head + row.drop_first() =~= row);
    lemma_row_cols_concat(head, row.drop_first());
}

/// In a row whose cells all take a column, the cells within the columns of
/// the first `k` cells are those `k` cells.
proof fn lemma_cells_upto_boundary(row: Seq<CellView>, k: int)
    requires
        solid(row),
        0 <= k <= row.len(),
    ensures
        cells_upto(row, row_cols(row.take(k)) as int) == k,
    decreases row.len(),
{
    if k == 0 {
        assert(row.take(0) =~= Seq::<CellView>::empty());
        if row.len() > 0 {
            assert(columns(row[0].text) > 0);
        }
    } else {
        let rest = row.drop_first();
        assert(row.take(k)[0] == row[0]);
        assert(row.take(k).drop_first() =~= rest.take(k - 1));
        lemma_row_cols_front(row.take(k));
        assert(solid(rest)) by {
            assert forall|j: int| 0 <= j < rest.len() implies columns(#[trigger] rest[j].text)
                > 0 by {
                assert(rest[j] == row[j + 1]);
            }
        }
        lemma_cells_upto_boundary(rest, k - 1);
    }
}

/// No cell of a row starts at or beyond a column to the right of the row.
proof fn lemma_cells_reaching_beyond(row: Seq<CellView>, c: int)
    requires
        c > row_cols(row) || (c >= row_cols(row) && row.len() == 0),
    ensures
        cells_reaching(row, c) == row.len(),
    decreases row.len(),
{
    if row.len() > 0 {
        lemma_row_cols_front(row);
        lemma_cells_reaching_beyond(row.drop_first(), c - columns(row[0].text));
    }
}

proof fn lemma_with_row(rows: Seq<Seq<CellView>>, i: int, row: Seq<CellView>)
    requires
        0 <= i,
    ensures
        forall|k: int|
            #[trigger] row_at(with_row(rows, i, row), k) == if k == i {
                row
            } else {
                row_at(rows, k)
            },
{
    assert forall|k: int|
        #[trigger] row_at(with_row(rows, i, row), k) == if k == i {
            row
        } else {
            row_at(rows, k)
        } by {
        if i < rows.len() {
        } else {
            let padded = rows + Seq::new(
                (i - rows.len()) as nat,
                |k: int| Seq::<CellView>::empty(),
            );
            assert(padded.len() == i);
            assert(with_row(rows, i, row) == padded.push(row));
            if 0 <= k < i {
                assert(padded.push(row)[k] == padded[k]);
            }
        }
    }
}

/// Whether `t` is `s` after work on the cursor's row alone: the row now
/// holds `row`, every other row is as it was, and the cursor is still on it.
pub open spec fn row_became(s: Screen, t: Screen, row: Seq<CellView>) -> bool {
    &&& t.ok
    &&& t.row == s.row
    &&& t.saved == s.saved
    &&& forall|k: int|
        #[trigger] row_at(t.rows, k) == if k == s.row {
            row
        } else {
            row_at(s.rows, k)
        }
}

proof fn lemma_solid_concat(a: Seq<CellView>, b: Seq<CellView>)
    requires
        solid(a),
        solid(b),
    ensures
        solid(a + b),
{
    assert forall|j: int| 0 <= j < (a + b).len() implies columns(#[trigger] (a + b)[j].text)
        > 0 by {
        if j < a.len() {
            assert((a + b)[j] == a[j]);
        } else {
            assert((a + b)[j] == b[j - a.len()]);
        }
    }
}

proof fn lemma_solid_part(row: Seq<CellView>, k: int)
    requires
        solid(row),
        0 <= k <= row.len(),
    ensures
        solid(row.take(k)),
        solid(row.skip(k)),
{
    assert forall|j: int| 0 <= j < row.take(k).len() implies columns(
        #[trigger] row.take(k)[j].text,
    ) > 0 by {
        assert(row.take(k)[j] == row[j]);
    }
    assert forall|j: int| 0 <= j < row.skip(k).len() implies columns(
        #[trigger] row.skip(k)[j].text,
    ) > 0 by {
        assert(row.skip(k)[j] == row[j + k]);
    }
}

/// Writing one cell at the end of the cursor's row appends it.
proof fn lemma_print_appends(s: Screen, text: Seq<char>)
    requires
        s.ok,
        s.row >= 0,
        solid(s.current()),
        s.col == row_cols(s.current()),
        columns(text) > 0,
    ensures
        row_became(s, s.print(text), s.current().push(CellView { text, style: s.pen })),
        s.print(text).col == s.col + columns(text),
        s.print(text).pen == s.pen,
{
    let cur = s.current();
    assert(cur.take(cur.len() as int) =~= cur);
    lemma_cells_upto_boundary(cur, cur.len() as int);
    lemma_cells_reaching_beyond(cur, s.col + columns(text));
    let cell = CellView { text, style: s.pen };
    assert(cur.take(cur.len() as int).push(cell) + cur.skip(cur.len() as int) =~= cur.push(cell));
    lemma_with_row(s.rows, s.row, cur.push(cell));
}

/// Writing cells at the end of the cursor's row appends them.
proof fn lemma_paint_appends(s: Screen, cells: Seq<CellView>)
    requires
        s.ok,
        s.row >= 0,
        solid(s.current()),
        solid(cells),
        s.col == row_cols(s.current()),
    ensures
        row_became(s, s.replay(paint_ops(cells, s.pen)), s.current() + cells),
        s.replay(paint_ops(cells, s.pen)).col == s.col + row_cols(cells),
        s.replay(paint_ops(cells, s.pen)).pen == paint_pen(cells, s.pen),
    decreases cells.len(),
{
    let cur = s.current();
    if cells.len() == 0 {
        assert(cur + cells =~= cur);
    } else {
        let init = cells.drop_last();
        let last = cells.last();
        lemma_solid_part(cells, cells.len() - 1);
        assert(cells.take(cells.len() - 1) =~= init);
        lemma_paint_appends(s, init);
        let a = paint_ops(init, s.pen);
        let sw = switch_ops(paint_pen(init, s.pen), last.style);
        let t1 = s.replay(a);
        lemma_replay_concat(s, a, sw);
        let t2 = t1.replay(sw);
        assert(t2 == Screen { pen: last.style, ..t1 }) by {
            if paint_pen(init, s.pen) == last.style {
            } else {
                lemma_replay_one(t1, OpView::SetStyle(last.style));
            }
        }
        assert(paint_ops(cells, s.pen) == (a + sw).push(OpView::Print(last.text)));
        lemma_replay_push(s, a + sw, OpView::Print(last.text));
        assert(t2.current() == cur + init);
        lemma_solid_concat(cur, init);
        lemma_row_cols_concat(cur, init);
        assert(columns(last.text) > 0);
        lemma_print_appends(t2, last.text);
        assert((cur + init).push(last) =~= cur + cells);
        assert(init.push(last) =~= cells);
        lemma_row_cols_concat(init, seq![last]);
        assert(seq![last].drop_last() =~= Seq::<CellView>::empty());
        assert(init + seq![last] =~= cells);
    }
}

/// The operations that take the cursor from one position to another take
/// it there, from whatever column it is in.
proof fn lemma_delta_lands(s: Screen, from: Pos, to: Pos)
    requires
        s.row == from.line,
    ensures
        s.replay(delta_ops(from, to)) == (Screen { row: to.line as int, col: to.col as int, ..s }),
{
    let rows = if to.line > from.line {
        seq![OpView::MoveDown((to.line - from.line) as u16)]
    } else if from.line > to.line {
        seq![OpView::MoveUp((from.line - to.line) as u16)]
    } else {
        seq![]
    };
    let cols = if to.col > 0 {
        seq![OpView::MoveRight(to.col)]
    } else {
        seq![]
    };
    assert(delta_ops(from, to) == rows + seq![OpView::CarriageReturn] + cols);
    lemma_replay_concat(s, rows + seq![OpView::CarriageReturn], cols);
    lemma_replay_concat(s, rows, seq![OpView::CarriageReturn]);
    let r1 = s.replay(rows);
    assert(r1 == Screen { row: to.line as int, ..s }) by {
        if to.line > from.line {
            lemma_replay_one(s, OpView::MoveDown((to.line - from.line) as u16));
        } else if from.line > to.line {
            lemma_replay_one(s, OpView::MoveUp((from.line - to.line) as u16));
        }
    }
    lemma_replay_one(r1, OpView::CarriageReturn);
    let r2 = r1.apply(OpView::CarriageReturn);
    if to.col > 0 {
        lemma_replay_one(r2, OpView::MoveRight(to.col));
    }
}

/// The operations that take the lines go to the start of the frame.
proof fn lemma_head_lands(s: Screen, up: u16)
    requires
        s.row == up,
    ensures
        s.replay(head_ops(up, false)) == (Screen { row: 0, col: 0, ..s }),
{
    let rise = if up > 0 {
        seq![OpView::MoveUp(up)]
    } else {
        seq![]
    };
    assert(head_ops(up, false) =~= (seq![OpView::HideCursor] + rise).push(OpView::CarriageReturn));
    lemma_replay_push(s, seq![OpView::HideCursor] + rise, OpView::CarriageReturn);
    lemma_replay_concat(s, seq![OpView::HideCursor], rise);
    lemma_replay_one(s, OpView::HideCursor);
    if up > 0 {
        lemma_replay_one(s, OpView::MoveUp(up));
    }
}

/// Drawing one line over the row that the screen holds for it leaves the
/// line on the screen, and no other row changed.
proof fn lemma_line_drawn(s: Screen, held: Option<Seq<CellView>>, new: Seq<CellView>)
    requires
        s.ok,
        s.row >= 0,
        s.col == 0,
        solid(new),
        row_cols(new) <= u16::MAX,
        match held {
            Some(old) => s.current() == old && solid(old),
            None => s.current().len() == 0,
        },
    ensures
        row_became(s, s.replay(line_ops(held, new, s.pen)), new),
        s.replay(line_ops(held, new, s.pen)).pen == line_pen(held, new, s.pen),
{
    match held {
        None => {
            assert(s.current() =~= Seq::<CellView>::empty());
            lemma_paint_appends(s, new);
            assert(s.current() + new =~= new);
        },
        Some(old) => {
            if new == old {
            } else {
                lemma_common_prefix(new, old);
                let at = common_prefix(new, old) as int;
                let kept = new.take(at);
                lemma_row_cols_take(new, at);
                let col = row_cols(kept);
                let right = if col > 0 {
                    seq![OpView::MoveRight(col as u16)]
                } else {
                    seq![]
                };
                let clear = if at < old.len() {
                    switch_ops(s.pen, None) + seq![OpView::ClearLine]
                } else {
                    seq![]
                };
                let pen = pen_at_difference(old, at, s.pen);
                let paint = paint_ops(new.skip(at), pen);
                assert(line_ops(held, new, s.pen) == right + clear + paint);
                lemma_replay_concat(s, right + clear, paint);
                lemma_replay_concat(s, right, clear);
                let t1 = s.replay(right);
                assert(t1 == Screen { col: col as int, ..s }) by {
                    if col > 0 {
                        lemma_replay_one(s, OpView::MoveRight(col as u16));
                    }
                }
                let t2 = t1.replay(clear);
                assert(t2.pen == pen && t2.col == col && row_became(s, t2, kept)) by {
                    if at < old.len() {
                        let sw = switch_ops(s.pen, None);
                        lemma_replay_concat(t1, sw, seq![OpView::ClearLine]);
                        let t1b = t1.replay(sw);
                        assert(t1b == Screen { pen: None, ..t1 }) by {
                            if s.pen != None::<Style> {
                                lemma_replay_one(t1, OpView::SetStyle(None));
                            }
                        }
                        lemma_replay_one(t1b, OpView::ClearLine);
                        assert(old.take(at) == kept);
                        lemma_cells_upto_boundary(old, at);
                        assert(0 <= s.row < s.rows.len());
                    } else {
                        assert(old.take(at) =~= old);
                    }
                }
                lemma_solid_part(new, at);
                assert(t2.current() == kept);
                lemma_paint_appends(t2, new.skip(at));
                assert(kept + new.skip(at) =~= new);
            }
        },
    }
}

/// The state of the screen between two lines: the first `n` rows hold the
/// new lines, the others what they held before, and the cursor is on the
/// last row that was drawn.
pub open spec fn lines_drawn(
    t: Screen,
    before: Seq<Seq<CellView>>,
    after: Seq<Seq<CellView>>,
    n: nat,
) -> bool {
    &&& t.ok
    &&& t.row == if n == 0 {
        0
    } else {
        n - 1
    }
    &&& (n == 0 ==> t.col == 0)
    &&& forall|k: int|
        #[trigger] row_at(t.rows, k) == if 0 <= k < n {
            after[k]
        } else {
            row_at(before, k)
        }
}

proof fn lemma_lines_drawn(
    s: Screen,
    before: Seq<Seq<CellView>>,
    after: Seq<Seq<CellView>>,
    n: nat,
)
    requires
        s.ok,
        s.row == 0,
        s.col == 0,
        s.shows(before),
        all_solid(before),
        all_solid(after),
        all_narrow(after),
        n <= after.len(),
    ensures
        lines_drawn(s.replay(lines_ops(before, after, false, s.pen, n)), before, after, n),
        s.replay(lines_ops(before, after, false, s.pen, n)).pen == lines_pen(
            before,
            after,
            false,
            s.pen,
            n,
        ),
        s.replay(lines_ops(before, after, false, s.pen, n)).saved == s.saved,
    decreases n,
{
    if n == 0 {
        assert forall|k: int| #[trigger] row_at(s.rows, k) == row_at(before, k) by {}
    } else {
        let i = (n - 1) as nat;
        lemma_lines_drawn(s, before, after, i);
        let done = lines_ops(before, after, false, s.pen, i);
        let feed = if i > 0 {
            seq![OpView::LineFeed]
        } else {
            seq![]
        };
        let held = row_before(before, false, i as int);
        let pen = lines_pen(before, after, false, s.pen, i);
        let line = line_ops(held, after[i as int], pen);
        let t0 = s.replay(done);
        lemma_replay_concat(s, done + feed, line);
        lemma_replay_concat(s, done, feed);
        let t1 = t0.replay(feed);
        assert(t1 == Screen { row: i as int, col: 0, ..t0 }) by {
            if i > 0 {
                lemma_replay_one(t0, OpView::LineFeed);
            }
        }
        assert(t1.current() == row_at(before, i as int)) by {
            assert(row_at(t0.rows, i as int) == row_at(before, i as int));
        }
        assert(solid(after[i as int]));
        assert(row_cols(after[i as int]) <= u16::MAX);
        if i < before.len() {
            assert(solid(before[i as int]));
        }
        lemma_line_drawn(t1, held, after[i as int]);
        let t2 = t1.replay(line);
        assert forall|k: int|
            #[trigger] row_at(t2.rows, k) == if 0 <= k < n {
                after[k]
            } else {
                row_at(before, k)
            } by {
            assert(row_at(t1.rows, k) == row_at(t0.rows, k));
        }
    }
}

/// Once the lines are drawn, clearing what the old frame had below the new
/// one leaves the new frame on the screen, and the cursor where it was.
proof fn lemma_below_cleared(s: Screen, before: Seq<Seq<CellView>>, new: FrameView)
    requires
        lines_drawn(s, before, new.lines, new.lines.len()),
        all_solid(before),
    ensures
        s.replay(below_ops(before, new, false)).ok,
        s.replay(below_ops(before, new, false)).shows(new.lines),
        s.replay(below_ops(before, new, false)).row == s.row,
        s.replay(below_ops(before, new, false)).pen == s.pen,
{
    let n = new.lines.len();
    let below = below_ops(before, new, false);
    assert forall|k: int| row_at(s.rows, k) == (if 0 <= k < n {
        new.lines[k]
    } else {
        row_at(before, k)
    }) by {}
    if before.len() <= n {
        assert forall|k: int| #[trigger] row_at(s.rows, k) == row_at(new.lines, k) by {
            assert(row_at(s.rows, k) == if 0 <= k < n {
                new.lines[k]
            } else {
                row_at(before, k)
            });
        }
    } else {
        // The first row that the new frame does not have.
        let a = s.apply(OpView::SavePosition);
        let b = if n == 0 {
            a
        } else {
            a.apply(OpView::LineFeed)
        };
        let c = b.apply(OpView::ClearBelow);
        let d = c.apply(OpView::RestorePosition);
        if n == 0 {
            assert(below =~= seq![OpView::SavePosition, OpView::ClearBelow].push(
                OpView::RestorePosition,
            ));
            lemma_replay_push(
                s,
                seq![OpView::SavePosition, OpView::ClearBelow],
                OpView::RestorePosition,
            );
            assert(seq![OpView::SavePosition, OpView::ClearBelow] =~= seq![
                OpView::SavePosition,
            ].push(OpView::ClearBelow));
            lemma_replay_push(s, seq![OpView::SavePosition], OpView::ClearBelow);
            lemma_replay_one(s, OpView::SavePosition);
        } else {
            assert(below =~= seq![OpView::SavePosition, OpView::LineFeed, OpView::ClearBelow].push(
                OpView::RestorePosition,
            ));
            lemma_replay_push(
                s,
                seq![OpView::SavePosition, OpView::LineFeed, OpView::ClearBelow],
                OpView::RestorePosition,
            );
            assert(seq![OpView::SavePosition, OpView::LineFeed, OpView::ClearBelow] =~= seq![
                OpView::SavePosition,
                OpView::LineFeed,
            ].push(OpView::ClearBelow));
            lemma_replay_push(
                s,
                seq![OpView::SavePosition, OpView::LineFeed],
                OpView::ClearBelow,
            );
            assert(seq![OpView::SavePosition, OpView::LineFeed] =~= seq![
                OpView::SavePosition,
            ].push(OpView::LineFeed));
            lemma_replay_push(s, seq![OpView::SavePosition], OpView::LineFeed);
            lemma_replay_one(s, OpView::SavePosition);
        }
        assert(s.replay(below) == d);
        assert(b.row == n && b.col == 0);
        assert(row_at(b.rows, n as int) == before[n as int]) by {
            assert(row_at(s.rows, n as int) == row_at(before, n as int));
        }
        assert(solid(before[n as int]));
        assert(cells_upto(before[n as int], 0) == 0);
        assert forall|k: int| #[trigger] row_at(d.rows, k) == row_at(new.lines, k) by {
            assert(row_at(s.rows, k) == if 0 <= k < n {
                new.lines[k]
            } else {
                row_at(before, k)
            });
            if 0 <= n < b.rows.len() {
                assert(c.rows == b.rows.take(n as int).push(before[n as int].take(0)));
                if k == n {
                    assert(before[n as int].take(0) =~= Seq::<CellView>::empty());
                }
            } else {
                assert(c.rows == b.rows);
            }
        }
    }
}

/// Replaying what the renderer sends for a new frame, on a terminal that
/// shows the old one, leaves the new frame on the screen, cell for cell, and
/// the cursor on its dot.
///
/// This holds where nothing forces a full repaint, no notices are written,
/// every cell takes at least one column, and the rows and the number of
/// lines are small enough to be screen coordinates.
pub proof fn lemma_replay_shows_new_frame(old: FrameView, new: FrameView)
    requires
        !width_changed(old, new),
        all_solid(old.lines),
        all_solid(new.lines),
        all_narrow(new.lines),
        new.lines.len() <= u16::MAX,
    ensures
        Screen::showing(old).replay(commit_ops(old, None, new, false)).ok,
        Screen::showing(old).replay(commit_ops(old, None, new, false)).shows(new.lines),
        Screen::showing(old).replay(commit_ops(old, None, new, false)).row == new.dot.line,
        Screen::showing(old).replay(commit_ops(old, None, new, false)).col == new.dot.col,
        Screen::showing(old).replay(commit_ops(old, None, new, false)).pen == None::<Style>,
{
    let s0 = Screen::showing(old);
    let before = old.lines;
    let n = new.lines.len();
    let head = head_ops(old.dot.line, false);
    let lines = lines_ops(before, new.lines, false, None, n);
    let pen = lines_pen(before, new.lines, false, None, n);
    let tail = tail_ops(before, new, false, pen);
    assert(commit_ops(old, None, new, false) =~= head + lines + tail);
    lemma_replay_concat(s0, head + lines, tail);
    lemma_replay_concat(s0, head, lines);

    // To the start of the frame.
    lemma_head_lands(s0, old.dot.line);
    let s1 = s0.replay(head);

    // Line by line.
    assert(s1.shows(before));
    lemma_lines_drawn(s1, before, new.lines, n);
    let s2 = s1.replay(lines);

    // Below the frame, and to the dot.
    let sw = switch_ops(pen, None);
    let below = below_ops(before, new, false);
    let delta = delta_ops(new.cursor(), new.dot);
    assert(tail == (sw + below + delta).push(OpView::ShowCursor));
    lemma_replay_push(s2, sw + below + delta, OpView::ShowCursor);
    lemma_replay_concat(s2, sw + below, delta);
    lemma_replay_concat(s2, sw, below);
    let s3 = s2.replay(sw);
    assert(s3 == Screen { pen: None, ..s2 }) by {
        if pen != None::<Style> {
            lemma_replay_one(s2, OpView::SetStyle(None));
        }
    }
    lemma_below_cleared(s3, before, new);
    let s4 = s3.replay(below);
    assert(new.cursor().line == s4.row);
    lemma_delta_lands(s4, new.cursor(), new.dot);
}

/// What a full repaint leaves of `rows` on the screen: the rows, with a
/// blank on the first row if it is empty or there is none. The blank is the
/// one that is written before the screen is cleared.
pub open spec fn repainted(rows: Seq<Seq<CellView>>) -> Seq<Seq<CellView>> {
    if rows.len() == 0 {
        seq![seq![blank(None)]]
    } else if rows[0].len() == 0 {
        rows.update(0, seq![blank(None)])
    } else {
        rows
    }
}

proof fn lemma_paint_split(a: Seq<CellView>, b: Seq<CellView>, pen: Option<Style>)
    ensures
        paint_ops(a + b, pen) == paint_ops(a, pen) + paint_ops(b, paint_pen(a, pen)),
        paint_pen(a + b, pen) == paint_pen(b, paint_pen(a, pen)),
    decreases b.len(),
{
    if b.len() == 0 {
        assert(a + b =~= a);
        assert(paint_ops(a, pen) + paint_ops(b, paint_pen(a, pen)) =~= paint_ops(a, pen));
    } else {
        assert((a + b).drop_last() =~= a + b.drop_last());
        assert((a + b).last() == b.last());
        lemma_paint_split(a, b.drop_last(), pen);
        assert(paint_ops(a + b, pen) =~= paint_ops(a, pen) + paint_ops(b, paint_pen(a, pen)));
    }
}

/// Writing cells from the start of a row that holds one blank leaves the
/// cells, or the blank where there is no cell.
proof fn lemma_paint_over_blank(s: Screen, cells: Seq<CellView>)
    requires
        s.ok,
        s.row >= 0,
        s.col == 0,
        s.current() == seq![blank(None)],
        columns(seq![' ']) > 0,
        solid(cells),
    ensures
        row_became(
            s,
            s.replay(paint_ops(cells, s.pen)),
            if cells.len() == 0 {
                seq![blank(None)]
            } else {
                cells
            },
        ),
        s.replay(paint_ops(cells, s.pen)).pen == paint_pen(cells, s.pen),
{
    if cells.len() > 0 {
        let first = cells[0];
        let rest = cells.drop_first();
        let one = seq![first];
        assert(one + rest =~= cells);
        lemma_paint_split(one, rest, s.pen);
        assert(one.drop_last() =~= Seq::<CellView>::empty());
        let sw = switch_ops(s.pen, first.style);
        assert(one.last() == first);
        assert(paint_ops(one.drop_last(), s.pen) =~= Seq::<OpView>::empty());
        assert(paint_pen(one.drop_last(), s.pen) == s.pen);
        assert(paint_ops(one, s.pen) =~= sw.push(OpView::Print(first.text)));
        lemma_replay_concat(s, paint_ops(one, s.pen), paint_ops(rest, first.style));
        lemma_replay_push(s, sw, OpView::Print(first.text));
        let t1 = s.replay(sw);
        assert(t1 == Screen { pen: first.style, ..s }) by {
            if s.pen != first.style {
                lemma_replay_one(s, OpView::SetStyle(first.style));
            }
        }
        let cur = t1.current();
        let t2 = t1.print(first.text);
        assert(columns(first.text) > 0);
        assert(cells_upto(cur, 0) == 0);
        assert(cur.take(0) =~= Seq::<CellView>::empty());
        assert(cur.drop_first() =~= Seq::<CellView>::empty());
        assert(cells_reaching(cur.drop_first(), columns(first.text) - columns(cur[0].text)) == 0);
        assert(cells_reaching(cur, columns(first.text) as int) == 1);
        assert(cur.skip(1) =~= Seq::<CellView>::empty());
        assert(cur.take(0).push(first) + cur.skip(1) =~= one);
        lemma_with_row(t1.rows, t1.row, one);
        assert(t2.current() == one);
        assert(row_cols(one.drop_last()) == 0);
        assert(row_cols(one) == columns(first.text));
        lemma_solid_part(cells, 1);
        assert(cells.take(1) =~= one);
        assert(cells.skip(1) =~= rest);
        lemma_paint_appends(t2, rest);
    }
}

proof fn lemma_lines_repainted(
    s: Screen,
    before: Seq<Seq<CellView>>,
    after: Seq<Seq<CellView>>,
    n: nat,
)
    requires
        s.ok,
        s.row == 0,
        s.col == 0,
        s.shows(seq![seq![blank(None)]]),
        columns(seq![' ']) > 0,
        all_solid(after),
        n <= after.len(),
    ensures
        lines_drawn(
            s.replay(lines_ops(before, after, true, s.pen, n)),
            seq![seq![blank(None)]],
            repainted(after),
            n,
        ),
        s.replay(lines_ops(before, after, true, s.pen, n)).pen == lines_pen(
            before,
            after,
            true,
            s.pen,
            n,
        ),
    decreases n,
{
    let blanked = seq![seq![blank(None)]];
    if n == 0 {
        assert forall|k: int| #[trigger] row_at(s.rows, k) == row_at(blanked, k) by {}
    } else {
        let i = (n - 1) as nat;
        lemma_lines_repainted(s, before, after, i);
        let done = lines_ops(before, after, true, s.pen, i);
        let feed = if i > 0 {
            seq![OpView::LineFeed]
        } else {
            seq![]
        };
        let pen = lines_pen(before, after, true, s.pen, i);
        let line = paint_ops(after[i as int], pen);
        assert(line_ops(row_before(before, true, i as int), after[i as int], pen) == line);
        let t0 = s.replay(done);
        lemma_replay_concat(s, done + feed, line);
        lemma_replay_concat(s, done, feed);
        let t1 = t0.replay(feed);
        assert(t1 == Screen { row: i as int, col: 0, ..t0 }) by {
            if i > 0 {
                lemma_replay_one(t0, OpView::LineFeed);
            }
        }
        assert(t1.current() == row_at(blanked, i as int)) by {
            assert(row_at(t0.rows, i as int) == row_at(blanked, i as int));
        }
        assert(solid(after[i as int]));
        if i == 0 {
            lemma_paint_over_blank(t1, after[0]);
        } else {
            assert(t1.current() =~= Seq::<CellView>::empty());
            lemma_paint_appends(t1, after[i as int]);
            assert(t1.current() + after[i as int] =~= after[i as int]);
        }
        let t2 = t1.replay(line);
        assert forall|k: int|
            #[trigger] row_at(t2.rows, k) == if 0 <= k < n {
                repainted(after)[k]
            } else {
                row_at(blanked, k)
            } by {
            assert(row_at(t1.rows, k) == row_at(t0.rows, k));
        }
    }
}

/// Replaying what the renderer sends for a full repaint leaves the new frame
/// on the screen, whatever the frame before was, and the cursor on its dot.
/// The one thing that stays of the repaint itself is a blank on the first
/// row, where the new frame has nothing to put there.
///
/// This holds where no notices are written, every cell takes at least one
/// column and so does a blank, and the number of lines is small enough to be
/// a screen coordinate.
pub proof fn lemma_full_repaint_shows_new_frame(old: FrameView, new: FrameView, refresh: bool)
    requires
        refresh || width_changed(old, new),
        all_solid(old.lines),
        all_solid(new.lines),
        columns(seq![' ']) > 0,
        new.lines.len() <= u16::MAX,
    ensures
        Screen::showing(old).replay(commit_ops(old, None, new, refresh)).ok,
        Screen::showing(old).replay(commit_ops(old, None, new, refresh)).shows(
            repainted(new.lines),
        ),
        Screen::showing(old).replay(commit_ops(old, None, new, refresh)).row == new.dot.line,
        Screen::showing(old).replay(commit_ops(old, None, new, refresh)).col == new.dot.col,
        Screen::showing(old).replay(commit_ops(old, None, new, refresh)).pen == None::<Style>,
{
    let s0 = Screen::showing(old);
    let before = lines_before(old, new);
    let n = new.lines.len();
    let to_start = head_ops(old.dot.line, false);
    let wipe = seq![OpView::Print(seq![' ']), OpView::ClearBelow, OpView::CarriageReturn];
    let lines = lines_ops(before, new.lines, true, None, n);
    let pen = lines_pen(before, new.lines, true, None, n);
    let tail = tail_ops(before, new, true, pen);
    assert(head_ops(old.dot.line, true) =~= to_start + wipe);
    assert(commit_ops(old, None, new, refresh) =~= to_start + wipe + lines + tail);
    lemma_replay_concat(s0, to_start + wipe + lines, tail);
    lemma_replay_concat(s0, to_start + wipe, lines);
    lemma_replay_concat(s0, to_start, wipe);

    // To the start of the frame, and everything wiped but one blank.
    lemma_head_lands(s0, old.dot.line);
    let s1 = s0.replay(to_start);
    let cur = s1.current();
    assert(solid(cur)) by {
        if 0 < old.lines.len() {
            assert(solid(old.lines[0]));
        }
    }
    let a = s1.apply(OpView::Print(seq![' ']));
    let b = a.apply(OpView::ClearBelow);
    let c = b.apply(OpView::CarriageReturn);
    assert(wipe =~= seq![OpView::Print(seq![' ']), OpView::ClearBelow].push(
        OpView::CarriageReturn,
    ));
    lemma_replay_push(s1, seq![OpView::Print(seq![' ']), OpView::ClearBelow], OpView::CarriageReturn);
    assert(seq![OpView::Print(seq![' ']), OpView::ClearBelow] =~= seq![
        OpView::Print(seq![' ']),
    ].push(OpView::ClearBelow));
    lemma_replay_push(s1, seq![OpView::Print(seq![' '])], OpView::ClearBelow);
    lemma_replay_one(s1, OpView::Print(seq![' ']));
    assert(s1.replay(wipe) == c);
    let w = columns(seq![' ']) as int;
    assert(cells_upto(cur, 0) == 0) by {
        if cur.len() > 0 {
            assert(columns(cur[0].text) > 0);
        }
    }
    assert(cur.take(0) =~= Seq::<CellView>::empty());
    let tail_cells = cur.skip(cells_reaching(cur, w) as int);
    let row0 = seq![blank(None)] + tail_cells;
    assert(cur.take(0).push(blank(None)) + tail_cells =~= row0);
    lemma_reaching_within(cur, w);
    lemma_solid_part(cur, cells_reaching(cur, w) as int);
    lemma_with_row(s1.rows, 0, row0);
    assert(a.ok && a.row == 0 && a.col == w && a.current() == row0);
    assert(0 <= a.row < a.rows.len());
    assert(cells_upto(row0, w) == 1) by {
        assert(row0[0] == blank(None));
        assert(row0.drop_first() =~= tail_cells);
        if tail_cells.len() > 0 {
            assert(columns(tail_cells[0].text) > 0);
        }
        assert(cells_upto(tail_cells, 0) == 0);
    }
    assert(row0.take(1) =~= seq![blank(None)]);
    assert(b.rows =~= seq![seq![blank(None)]]);
    assert(c.shows(seq![seq![blank(None)]]));

    // Line by line.
    lemma_lines_repainted(c, before, new.lines, n);
    let s2 = c.replay(lines);

    // Back to the plain style, and to the dot.
    let sw = switch_ops(pen, None);
    let delta = delta_ops(new.cursor(), new.dot);
    assert(tail =~= (sw + delta).push(OpView::ShowCursor));
    lemma_replay_push(s2, sw + delta, OpView::ShowCursor);
    lemma_replay_concat(s2, sw, delta);
    let s3 = s2.replay(sw);
    assert(s3 == Screen { pen: None, ..s2 }) by {
        if pen != None::<Style> {
            lemma_replay_one(s2, OpView::SetStyle(None));
        }
    }
    assert(new.cursor().line == s3.row);
    lemma_delta_lands(s3, new.cursor(), new.dot);
    assert forall|k: int| #[trigger] row_at(s3.rows, k) == row_at(repainted(new.lines), k) by {
        assert(row_at(s2.rows, k) == if 0 <= k < n {
            repainted(new.lines)[k]
        } else {
            row_at(seq![seq![blank(None)]], k)
        });
    }
}

proof fn lemma_reaching_within(row: Seq<CellView>, c: int)
    ensures
        0 <= cells_reaching(row, c) <= row.len(),
    decreases row.len(),
{
    if c > 0 && row.len() > 0 {
        lemma_reaching_within(row.drop_first(), c - columns(row[0].text));
    }
}

/// The columns that a blank takes, as measured.
pub fn blank_columns() -> (w: u16)
    ensures
        w == columns(seq![' ']),
{
    proof {
        reveal_strlit(" ");
        assert(" "@ =~= seq![' ']);
    }
    wcswidth(" ")
}

impl Line {
    /// Whether every cell of the line takes at least one column, as
    /// measured.
    pub fn is_solid(&self) -> (r: bool)
        ensures
            r == solid(self@),
    {
        let mut i: usize = 0;
        while i < self.0.len()
            invariant
                i <= self.0.len(),
                forall|j: int| 0 <= j < i ==> columns(#[trigger] self@[j].text) > 0,
            decreases self.0.len() - i,
        {
            if wcswidth(self.0[i].text.as_str()) == 0 {
                assert(columns(self@[i as int].text) == 0);
                return false;
            }
            i += 1;
        }
        true
    }

    /// Whether the width of the line is a screen coordinate, as measured.
    pub fn is_narrow(&self) -> (r: bool)
        ensures
            r == (row_cols(self@) <= u16::MAX),
    {
        let mut wide: u32 = 0;
        let mut i: usize = 0;
        assert(self@.take(0) =~= Seq::<CellView>::empty());
        while i < self.0.len()
            invariant
                i <= self.0.len(),
                wide == row_cols(self@.take(i as int)),
                wide <= u16::MAX,
            decreases self.0.len() - i,
        {
            assert(self@.take(i + 1).drop_last() =~= self@.take(i as int));
            wide = wide + wcswidth(self.0[i].text.as_str()) as u32;
            if wide > u16::MAX as u32 {
                proof {
                    lemma_row_cols_take(self@, i + 1);
                }
                return false;
            }
            i += 1;
        }
        assert(self@.take(i as int) =~= self@);
        true
    }
}

impl Buffer {
    /// Whether every cell of the frame takes at least one column, as
    /// measured.
    pub fn is_solid(&self) -> (r: bool)
        ensures
            r == all_solid(self@.lines),
    {
        let mut i: usize = 0;
        while i < self.lines.0.len()
            invariant
                i <= self.lines.0.len(),
                forall|k: int| 0 <= k < i ==> solid(#[trigger] self@.lines[k]),
            decreases self.lines.0.len() - i,
        {
            assert(self@.lines[i as int] == self.lines.0@[i as int]@);
            if !self.lines.0[i].is_solid() {
                return false;
            }
            i += 1;
        }
        true
    }

    /// Whether the width of every line and the number of lines are screen
    /// coordinates, as measured.
    pub fn is_narrow(&self) -> (r: bool)
        ensures
            r == (all_narrow(self@.lines) && self@.lines.len() <= u16::MAX),
    {
        if self.lines.0.len() > u16::MAX as usize {
            return false;
        }
        let mut i: usize = 0;
        while i < self.lines.0.len()
            invariant
                i <= self.lines.0.len(),
                forall|k: int| 0 <= k < i ==> row_cols(#[trigger] self@.lines[k]) <= u16::MAX,
            decreases self.lines.0.len() - i,
        {
            assert(self@.lines[i as int] == self.lines.0@[i as int]@);
            if !self.lines.0[i].is_narrow() {
                return false;
            }
            i += 1;
        }
        true
    }
}

/// Whether the frames are such that what the renderer sends is sure to
/// leave the new one on the screen: every cell takes at least one column, a
/// blank does too where everything is painted again, and all sizes are
/// screen coordinates.
pub open spec fn exact_for(old: FrameView, new: FrameView, refresh: bool) -> bool {
    &&& all_solid(old.lines)
    &&& all_solid(new.lines)
    &&& new.lines.len() <= u16::MAX
    &&& if refresh || width_changed(old, new) {
        columns(seq![' ']) > 0
    } else {
        all_narrow(new.lines)
    }
}

/// Measures the frames, and tells whether what the renderer sends to draw
/// `new` over `old`, without notices, is sure to leave `new` on the screen
/// and the cursor on its dot. After a full repaint a blank stays on a first
/// row that has nothing else.
pub fn redraw_is_exact(old: &Buffer, new: &Buffer, refresh: bool) -> (r: bool)
    ensures
        r == exact_for(old@, new@, refresh),
        r ==> {
            let shown = Screen::showing(old@).replay(commit_ops(old@, None, new@, refresh));
            &&& shown.ok
            &&& shown.shows(
                if refresh || width_changed(old@, new@) {
                    repainted(new@.lines)
                } else {
                    new@.lines
                },
            )
            &&& shown.row == new@.dot.line
            &&& shown.col == new@.dot.col
        },
{
    let full = refresh || (new.width != old.width && old.lines.0.len() > 0);
    if !old.is_solid() || !new.is_solid() {
        return false;
    }
    if full {
        let r = new.lines.0.len() <= u16::MAX as usize && blank_columns() > 0;
        proof {
            if r {
                lemma_full_repaint_shows_new_frame(old@, new@, refresh);
            }
        }
        r
    } else {
        let r = new.is_narrow();
        proof {
            if r {
                lemma_replay_shows_new_frame(old@, new@);
            }
        }
        r
    }
}

/// Whether an operation only moves, hides or shows the cursor: it changes no
/// cell and no style.
pub open spec fn moves_only(op: OpView) -> bool {
    match op {
        OpView::HideCursor => true,
        OpView::ShowCursor => true,
        OpView::MoveUp(_) => true,
        OpView::MoveDown(_) => true,
        OpView::MoveRight(_) => true,
        OpView::CarriageReturn => true,
        OpView::LineFeed => true,
        _ => false,
    }
}

/// Whether every operation of `ops` only moves, hides or shows the cursor.
pub open spec fn all_move_only(ops: Seq<OpView>) -> bool {
    forall|k: int| 0 <= k < ops.len() ==> moves_only(#[trigger] ops[k])
}

proof fn lemma_same_lines_move_only(rows: Seq<Seq<CellView>>, n: nat)
    requires
        n <= rows.len(),
    ensures
        all_move_only(lines_ops(rows, rows, false, None, n)),
        lines_pen(rows, rows, false, None, n).is_none(),
    decreases n,
{
    if n > 0 {
        let i = (n - 1) as nat;
        lemma_same_lines_move_only(rows, i);
        assert(row_before(rows, false, i as int) == Some(rows[i as int]));
        assert(line_ops(Some(rows[i as int]), rows[i as int], None) =~= Seq::<OpView>::empty());
    }
}

/// Drawing the frame that is on the screen once more, without a full
/// repaint, writes no text, clears nothing and switches no style: all that
/// is sent moves, hides or shows the cursor.
pub proof fn lemma_unchanged_frame_paints_nothing(frame: FrameView)
    ensures
        all_move_only(commit_ops(frame, None, frame, false)),
{
    lemma_same_lines_move_only(frame.lines, frame.lines.len());
    assert(!width_changed(frame, frame));
}

} // verus!
