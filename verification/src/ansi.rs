//! The renderer's operations as the text that a terminal takes them from.

use crate::style::{decimal, Style};
use crate::writer::{ops_view, OpView, TermOp};
use crossterm::cursor::{Hide, MoveDown, MoveRight, MoveUp, RestorePosition, SavePosition, Show};
use crossterm::terminal::{Clear, ClearType};
use crossterm::Command;
use vstd::prelude::*;

verus! {

/// How much of the screen is cleared.
#[derive(Clone, Copy, Debug, PartialEq, Eq, Structural)]
pub enum Erase {
    /// The cursor's row from the cursor on.
    Line,
    /// The cursor's row from the cursor on, and every row below.
    Below,
}

/// The two characters that start a control sequence.
pub open spec fn csi() -> Seq<char> {
    seq!['\x1b', '[']
}

/// The control sequence that moves the cursor by `n`, in the direction that
/// `letter` names.
pub open spec fn move_code(n: u16, letter: char) -> Seq<char> {
    (csi() + decimal(n as nat)).push(letter)
}

/// The control sequence that clears.
pub open spec fn erase_code(erase: Erase) -> Seq<char> {
    match erase {
        Erase::Line => csi().push('K'),
        Erase::Below => csi().push('J'),
    }
}

/// The text that asks a terminal for `op`.
pub open spec fn op_code(op: OpView) -> Seq<char> {
    match op {
        OpView::HideCursor => csi() + seq!['?', '2', '5', 'l'],
        OpView::ShowCursor => csi() + seq!['?', '2', '5', 'h'],
        OpView::MoveUp(n) => move_code(n, 'A'),
        OpView::MoveDown(n) => move_code(n, 'B'),
        OpView::MoveRight(n) => move_code(n, 'C'),
        OpView::CarriageReturn => seq!['\r'],
        OpView::LineFeed => seq!['\n'],
        OpView::ClearLine => erase_code(Erase::Line),
        OpView::ClearBelow => erase_code(Erase::Below),
        OpView::SavePosition => seq!['\x1b', '7'],
        OpView::RestorePosition => seq!['\x1b', '8'],
        OpView::SetStyle(style) => (csi() + seq!['0', ';'] + match style {
            Some(style) => style.codes(),
            None => seq![],
        }).push('m'),
        OpView::Print(text) => text,
    }
}

/// The text that asks a terminal for `ops`, one after the other.
pub open spec fn ops_code(ops: Seq<OpView>) -> Seq<char>
    decreases ops.len(),
{
    if ops.len() == 0 {
        seq![]
    } else {
        ops_code(ops.drop_last()) + op_code(ops.last())
    }
}

/// The sequence that `crossterm::cursor::Hide` writes.
#[verifier::external_body]
fn hide_code() -> (s: String)
    ensures
        s@ == csi() + seq!['?', '2', '5', 'l'],
{
    let mut s = String::new();
    let _ = Hide.write_ansi(&mut s);
    s
}

/// The sequence that `crossterm::cursor::Show` writes.
#[verifier::external_body]
fn show_code() -> (s: String)
    ensures
        s@ == csi() + seq!['?', '2', '5', 'h'],
{
    let mut s = String::new();
    let _ = Show.write_ansi(&mut s);
    s
}

/// The sequence that `crossterm::cursor::MoveUp` writes: the number of rows
/// in decimal between the two starting characters and an `A`.
#[verifier::external_body]
fn up_code(n: u16) -> (s: String)
    ensures
        s@ == move_code(n, 'A'),
{
    let mut s = String::new();
    let _ = MoveUp(n).write_ansi(&mut s);
    s
}

/// The sequence that `crossterm::cursor::MoveDown` writes: as for `MoveUp`,
/// with a `B`.
#[verifier::external_body]
fn down_code(n: u16) -> (s: String)
    ensures
        s@ == move_code(n, 'B'),
{
    let mut s = String::new();
    let _ = MoveDown(n).write_ansi(&mut s);
    s
}

/// The sequence that `crossterm::cursor::MoveRight` writes: as for `MoveUp`,
/// with the number of columns and a `C`.
#[verifier::external_body]
fn right_code(n: u16) -> (s: String)
    ensures
        s@ == move_code(n, 'C'),
{
    let mut s = String::new();
    let _ = MoveRight(n).write_ansi(&mut s);
    s
}

/// The sequence that `crossterm::cursor::SavePosition` writes.
#[verifier::external_body]
fn save_code() -> (s: String)
    ensures
        s@ == seq!['\x1b', '7'],
{
    let mut s = String::new();
    let _ = SavePosition.write_ansi(&mut s);
    s
}

/// The sequence that `crossterm::cursor::RestorePosition` writes.
#[verifier::external_body]
fn restore_code() -> (s: String)
    ensures
        s@ == seq!['\x1b', '8'],
{
    let mut s = String::new();
    let _ = RestorePosition.write_ansi(&mut s);
    s
}

/// The sequence that `crossterm::terminal::Clear` writes, for its kinds
/// `UntilNewLine` and `FromCursorDown`: a `K` or a `J` behind the two
/// starting characters.
#[verifier::external_body]
fn clear_code(erase: Erase) -> (s: String)
    ensures
        s@ == erase_code(erase),
{
    let kind = match erase {
        Erase::Line => ClearType::UntilNewLine,
        Erase::Below => ClearType::FromCursorDown,
    };
    let mut s = String::new();
    let _ = Clear(kind).write_ansi(&mut s);
    s
}

fn style_code(style: Option<Style>) -> (s: String)
    ensures
        s@ == op_code(OpView::SetStyle(style)),
{
    proof {
        reveal_strlit("\x1b[0;");
        reveal_strlit("m");
    }
    let mut s = String::from_str("\x1b[0;");
    assert(s@ =~= csi() + seq!['0', ';']);
    match style {
        Some(style) => {
            let codes = style.to_codes();
            s.append(codes.as_str());
        },
        None => {},
    }
    s.append("m");
    assert(s@ =~= op_code(OpView::SetStyle(style)));
    s
}

impl TermOp {
    /// The text that asks a terminal for the operation.
    pub fn code(&self) -> (s: String)
        ensures
            s@ == op_code(self@),
    {
        match self {
            TermOp::HideCursor => hide_code(),
            TermOp::ShowCursor => show_code(),
            TermOp::MoveUp(n) => up_code(*n),
            TermOp::MoveDown(n) => down_code(*n),
            TermOp::MoveRight(n) => right_code(*n),
            TermOp::CarriageReturn => {
                proof {
                    reveal_strlit("\r");
                }
                let s = String::from_str("\r");
                assert(s@ =~= seq!['\r']);
                s
            },
            TermOp::LineFeed => {
                proof {
                    reveal_strlit("\n");
                }
                let s = String::from_str("\n");
                assert(s@ =~= seq!['\n']);
                s
            },
            TermOp::ClearLine => clear_code(Erase::Line),
            TermOp::ClearBelow => clear_code(Erase::Below),
            TermOp::SavePosition => save_code(),
            TermOp::RestorePosition => restore_code(),
            TermOp::SetStyle(style) => style_code(*style),
            TermOp::Print(text) => text.clone(),
        }
    }
}

/// The text that asks a terminal for `ops`, one after the other.
pub fn encode(ops: &Vec<TermOp>) -> (s: String)
    ensures
        s@ == ops_code(ops_view(ops@)),
{
    let mut s = String::new();
    let mut i: usize = 0;
    let ghost all = ops_view(ops@);
    assert(all.take(0) =~= Seq::<OpView>::empty());
    assert(s@ =~= ops_code(all.take(0)));
    while i < ops.len()
        invariant
            i <= ops.len(),
            all == ops_view(ops@),
            s@ == ops_code(all.take(i as int)),
        decreases ops.len() - i,
    {
        assert(all.take(i + 1).drop_last() =~= all.take(i as int));
        assert(all.take(i + 1).last() == ops@[i as int]@);
        let code = ops[i].code();
        s.append(code.as_str());
        i += 1;
    }
    assert(all.take(i as int) =~= all);
    s
}

} // verus!
