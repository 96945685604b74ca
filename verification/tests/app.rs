use line_editor::ansi::encode;
use line_editor::app::{App, AppSpec, AppState, Return};
use line_editor::buffer::{Buffer, Pos};
use line_editor::code_area::{CodeArea, CodeAreaState, CodeBuffer, PendingCode};
use line_editor::event::{Event, KeyCode, KeyEvent, KeyModifiers};
use line_editor::event_loop::{Action, EventLoop, Redraw, RedrawFlags, Signal};
use line_editor::style::{Color, Style, StyleFlags};
use line_editor::ui::Text;
use line_editor::view::CodeView;
use line_editor::writer::TermOp;

fn rows(buf: &Buffer) -> Vec<String> {
    buf.lines.0.iter().map(|l| l.0.iter().map(|c| c.text.as_str()).collect()).collect()
}

fn state(content: &str, dot: usize) -> CodeAreaState {
    CodeAreaState {
        buffer: CodeBuffer { content: content.to_string(), dot },
        pending: PendingCode::default(),
        hide_rprompt: false,
    }
}

fn key(c: char) -> Event {
    Event::Key(KeyEvent::new(KeyCode::Char(c)))
}

fn control(c: char) -> Event {
    Event::Key(KeyEvent {
        code: KeyCode::Char(c),
        modifiers: KeyModifiers { shift: false, control: true, alt: false, other: false },
    })
}

fn enter() -> Event {
    Event::Key(KeyEvent::new(KeyCode::Enter))
}

fn app() -> App {
    App::new(AppSpec { state: AppState::default() })
}

fn none() -> Redraw {
    Redraw { size: None, flags: RedrawFlags::empty() }
}

fn printed(ops: &[TermOp]) -> String {
    ops.iter()
        .map(|op| match op {
            TermOp::Print(t) => t.as_str(),
            TermOp::LineFeed => "\n",
            _ => "",
        })
        .collect()
}

#[test]
fn the_prompt_stands_before_the_text() {
    let area = CodeArea::new(state("ls -l", 2));
    let buf = area.render(&Text::plain("> "), &Text::empty(), 20, 5);
    assert_eq!(rows(&buf), ["> ls -l"]);
    assert_eq!(buf.dot, Pos::new(4, 0));
    assert_eq!(buf.width, 20);
}

#[test]
fn wrapped_lines_start_under_the_end_of_a_short_prompt() {
    let area = CodeArea::new(state("abcdefghij", 10));
    let buf = area.render(&Text::plain("> "), &Text::empty(), 8, 5);
    assert_eq!(rows(&buf), ["> abcdef", "  ghij"]);
    assert_eq!(buf.dot, Pos::new(6, 1));
}

#[test]
fn a_long_prompt_gives_no_indent() {
    let area = CodeArea::new(state("abcdefg", 0));
    let buf = area.render(&Text::plain("long>"), &Text::empty(), 8, 5);
    assert_eq!(rows(&buf), ["long>abc", "defg"]);
    assert_eq!(buf.dot, Pos::new(5, 0));
}

#[test]
fn a_prompt_of_two_lines_gives_no_indent() {
    let area = CodeArea::new(state("abcdefghijk", 0));
    let buf = area.render(&Text::plain("a\n> "), &Text::empty(), 8, 5);
    assert_eq!(rows(&buf), ["a", "> abcdef", "ghijk"]);
    assert_eq!(buf.dot, Pos::new(2, 1));
}

#[test]
fn a_line_filled_by_the_text_wraps_at_once() {
    let area = CodeArea::new(state("abcdef", 6));
    let buf = area.render(&Text::plain("> "), &Text::empty(), 8, 5);
    assert_eq!(rows(&buf), ["> abcdef", "  "]);
    assert_eq!(buf.dot, Pos::new(2, 1));
}

#[test]
fn the_right_prompt_stands_at_the_right_edge() {
    let area = CodeArea::new(state("ls", 2));
    let buf = area.render(&Text::plain("> "), &Text::plain("12:00"), 20, 5);
    assert_eq!(rows(&buf), ["> ls           12:00"]);
    assert_eq!(buf.dot, Pos::new(4, 0));
}

#[test]
fn the_right_prompt_is_left_out_where_there_is_no_room() {
    let area = CodeArea::new(state("ls", 2));
    let buf = area.render(&Text::plain("> "), &Text::plain("12:00"), 9, 5);
    assert_eq!(rows(&buf), ["> ls"]);
    let buf = area.render(&Text::plain("> "), &Text::plain("12:00"), 10, 5);
    assert_eq!(rows(&buf), ["> ls 12:00"]);
}

#[test]
fn the_right_prompt_can_be_hidden() {
    let mut s = state("ls", 2);
    s.hide_rprompt = true;
    let buf = CodeArea::new(s).render(&Text::plain("> "), &Text::plain("12:00"), 20, 5);
    assert_eq!(rows(&buf), ["> ls"]);
}

#[test]
fn the_pending_patch_is_shown_but_not_kept() {
    let mut s = state("git co", 6);
    s.pending = PendingCode { from: 4, to: 6, content: "commit".to_string() };
    let area = CodeArea::new(s);
    let buf = area.render(&Text::plain("> "), &Text::empty(), 20, 5);
    assert_eq!(rows(&buf), ["> git commit"]);
    assert_eq!(buf.dot, Pos::new(12, 0));
    assert_eq!(area.clone_state().buffer, CodeBuffer { content: "git co".to_string(), dot: 6 });
}

#[test]
fn a_frame_of_many_lines_is_cut_to_the_height() {
    let area = CodeArea::new(state("a\nb\nc\nd\ne", 6));
    let buf = area.render(&Text::empty(), &Text::empty(), 20, 2);
    assert_eq!(rows(&buf), ["c", "d"]);
    assert_eq!(buf.dot, Pos::new(0, 1));
    let area = CodeArea::new(state("a\nb\nc\nd\ne", 1));
    let buf = area.render(&Text::empty(), &Text::empty(), 20, 2);
    assert_eq!(rows(&buf), ["a", "b"]);
    assert_eq!(buf.dot, Pos::new(1, 0));
}

#[test]
fn the_view_is_laid_out_into_a_builder() {
    let s = state("ab", 1);
    let view = CodeView::get(&s, &Text::styled("$ ", Style {
        fg: Some(Color::Green),
        bg: None,
        flags: StyleFlags::empty(),
    }), &Text::empty());
    let mut b = Buffer::builder(10);
    view.render_view(&mut b);
    let buf = b.buffer();
    assert_eq!(rows(&buf), ["$ ab"]);
    assert_eq!(buf.dot, Pos::new(3, 0));
    assert_eq!(buf.lines.0[0].0[0].style.unwrap().fg, Some(Color::Green));
    assert_eq!(buf.lines.0[0].0[2].style, Some(Style::reset()));
}

#[test]
fn redraw_flags() {
    assert!(!RedrawFlags::empty().is_full());
    assert!(!RedrawFlags::empty().is_final());
    assert!(RedrawFlags::full().is_full());
    assert!(!RedrawFlags::full().is_final());
    assert!(RedrawFlags::last().is_final());
    let mut f = RedrawFlags::full();
    f.insert(RedrawFlags::last());
    assert!(f.is_full() && f.is_final());
    f.insert(RedrawFlags::empty());
    assert!(f.is_full() && f.is_final());
}

#[test]
fn requests_merge_with_the_last_size_and_all_flags() {
    let mut r = none();
    r.merge(Redraw { size: Some((80, 24)), flags: RedrawFlags::full() });
    assert_eq!(r, Redraw { size: Some((80, 24)), flags: RedrawFlags::full() });
    r.merge(Redraw { size: None, flags: RedrawFlags::last() });
    assert_eq!(r, Redraw { size: Some((80, 24)), flags: RedrawFlags { full: true, last: true } });
    r.merge(Redraw { size: Some((100, 30)), flags: RedrawFlags::empty() });
    assert_eq!(r, Redraw { size: Some((100, 30)), flags: RedrawFlags { full: true, last: true } });
}

#[test]
fn the_dispatcher_gathers_requests_between_frames() {
    let mut d = EventLoop::new();
    assert!(!d.is_done());
    assert_eq!(d.redraw(), none());
    d.merge(Redraw { size: Some((80, 24)), flags: RedrawFlags::empty() });
    d.merge(Redraw { size: None, flags: RedrawFlags::full() });
    assert_eq!(d.take_redraw(), Redraw { size: Some((80, 24)), flags: RedrawFlags::full() });
    assert_eq!(d.redraw(), Redraw { size: Some((80, 24)), flags: RedrawFlags::empty() });
    assert_eq!(d.answer(None, None), Action::Poll(None));
    let last = Redraw { size: Some((80, 24)), flags: RedrawFlags::last() };
    assert_eq!(d.answer(Some(Return::Break), None), Action::Finish(last));
    assert!(d.is_done());
    assert_eq!(d.take_outcome(), Some(Return::Break));
    assert!(!d.is_done());
    assert_eq!(d.redraw(), none());
}

#[test]
fn typing_a_line_and_entering_it() {
    let mut app = app();
    let prompt = Text::plain("> ");
    let first = app.first_redraw();
    assert_eq!(first, none());
    let ops = app.handle_redraw(first, (80, 24), &prompt, &Text::empty());
    assert_eq!(printed(&ops), "> ");

    assert_eq!(app.step(Signal::Input(Some(key('a')))), Action::Poll(None));
    assert_eq!(app.step(Signal::Polled(Some(key('b')))), Action::Poll(None));
    assert_eq!(app.step(Signal::Polled(Some(key('c')))), Action::Poll(None));
    let action = app.step(Signal::Polled(Some(enter())));
    let last = Redraw { size: None, flags: RedrawFlags::last() };
    assert_eq!(action, Action::Finish(last));
    assert!(app.is_done());

    let ops = app.handle_redraw(last, (80, 24), &prompt, &Text::empty());
    assert_eq!(printed(&ops), "abc\n");
    assert_eq!(app.end_session(), Some(Return::Input("abc".to_string())));
    assert_eq!(app.clone_state(), CodeAreaState::default());
    assert_eq!(app.clone_state().buffer, CodeBuffer { content: String::new(), dot: 0 });
    assert_eq!(app.clone_state().pending, PendingCode { from: 0, to: 0, content: String::new() });
    assert!(!app.is_done());
}

#[test]
fn a_burst_of_input_is_drawn_once() {
    let mut app = app();
    let prompt = Text::plain("> ");
    let first = app.first_redraw();
    app.handle_redraw(first, (80, 24), &prompt, &Text::empty());
    assert_eq!(app.step(Signal::Input(Some(key('l')))), Action::Poll(None));
    assert_eq!(app.step(Signal::Polled(Some(key('s')))), Action::Poll(None));
    let action = app.step(Signal::Polled(None));
    assert_eq!(action, Action::Draw(none()));
    let ops = app.handle_redraw(none(), (80, 24), &prompt, &Text::empty());
    assert_eq!(printed(&ops), "ls");
    assert_eq!(encode(&ops), "\x1b[?25l\r\x1b[2C\x1b[0;mls\x1b[0;m\r\x1b[4C\x1b[?25h");
}

#[test]
fn a_resize_asks_for_one_full_redraw_with_the_new_size() {
    let mut app = app();
    let first = app.first_redraw();
    app.handle_redraw(first, (40, 10), &Text::plain("> "), &Text::empty());
    let request = Redraw { size: Some((80, 24)), flags: RedrawFlags::full() };
    assert_eq!(app.step(Signal::Input(Some(Event::Resize(80, 24)))), Action::Poll(Some(request)));
    assert_eq!(app.step(Signal::Polled(None)), Action::Draw(none()));
    assert_eq!(app.step(Signal::Redraw(request)), Action::Draw(request));
    let ops = app.handle_redraw(request, (40, 10), &Text::plain("> "), &Text::empty());
    assert_eq!(ops[2], TermOp::Print(" ".to_string()));
    assert_eq!(ops[3], TermOp::ClearBelow);
    // The size stays for the frames that follow, the flag does not.
    let next = Redraw { size: Some((80, 24)), flags: RedrawFlags::empty() };
    assert_eq!(app.step(Signal::Polled(None)), Action::Draw(next));
}

#[test]
fn requests_that_come_together_are_drawn_as_one() {
    let mut app = app();
    app.first_redraw();
    assert_eq!(app.step(Signal::Input(Some(key('a')))), Action::Poll(None));
    let full = Redraw { size: None, flags: RedrawFlags::full() };
    assert_eq!(app.step(Signal::Redraw(full)), Action::Draw(full));
    assert_eq!(app.step(Signal::Redraw(none())), Action::Draw(none()));
}

#[test]
fn control_d_ends_the_input() {
    let mut app = app();
    app.first_redraw();
    app.step(Signal::Input(Some(key('a'))));
    let action = app.step(Signal::Polled(Some(control('d'))));
    assert_eq!(action, Action::Finish(Redraw { size: None, flags: RedrawFlags::last() }));
    assert_eq!(app.end_session(), Some(Return::Exit));
    assert_eq!(app.clone_state(), CodeAreaState::default());
}

#[test]
fn control_c_gives_the_line_up() {
    let mut app = app();
    app.set_state(AppState { notes: Some(vec!["note".to_string()]) });
    app.step(Signal::Input(Some(key('a'))));
    assert_eq!(app.step(Signal::Polled(Some(control('c')))), Action::Poll(None));
    assert_eq!(app.clone_state(), CodeAreaState::default());
    assert!(!app.is_done());
    let ops = app.handle_redraw(none(), (80, 24), &Text::plain("> "), &Text::empty());
    assert_eq!(printed(&ops), "> ");
}

#[test]
fn the_end_of_the_input_stops_without_a_frame() {
    let mut app = app();
    app.first_redraw();
    assert_eq!(app.step(Signal::Input(None)), Action::Stop);
    assert!(app.is_done());
    assert_eq!(app.end_session(), Some(Return::Exit));
}

#[test]
fn an_outcome_from_elsewhere_asks_for_the_last_frame() {
    let mut app = app();
    app.first_redraw();
    app.step(Signal::Redraw(Redraw { size: Some((80, 24)), flags: RedrawFlags::empty() }));
    let action = app.step(Signal::Return(Return::Break));
    assert_eq!(
        action,
        Action::Finish(Redraw { size: Some((80, 24)), flags: RedrawFlags::last() })
    );
    assert_eq!(app.end_session(), Some(Return::Break));
}

#[test]
fn nothing_happens_to_a_session_that_is_over() {
    let mut app = app();
    app.step(Signal::Input(Some(key('a'))));
    app.step(Signal::Polled(Some(enter())));
    assert!(app.is_done());
    assert_eq!(app.step(Signal::Input(Some(key('b')))), Action::Stop);
    assert_eq!(app.step(Signal::Polled(None)), Action::Stop);
    assert_eq!(app.step(Signal::Redraw(none())), Action::Stop);
    assert_eq!(app.step(Signal::Return(Return::Exit)), Action::Stop);
    assert_eq!(app.clone_state().buffer, CodeBuffer { content: "a".to_string(), dot: 1 });
    assert_eq!(app.end_session(), Some(Return::Input("a".to_string())));
}

#[test]
fn the_last_frame_ends_with_an_empty_line() {
    let mut app = app();
    app.set_code(state("ab", 2));
    let last = Redraw { size: None, flags: RedrawFlags::last() };
    let ops = app.handle_redraw(last, (80, 24), &Text::plain("> "), &Text::empty());
    assert_eq!(printed(&ops), "> ab\n");
    assert_eq!(ops[ops.len() - 2], TermOp::CarriageReturn);
    // The frame after the last one starts on an empty screen.
    let ops = app.handle_redraw(none(), (80, 24), &Text::plain("> "), &Text::empty());
    assert_eq!(printed(&ops), "> ab");
}

#[test]
fn notices_are_shown_once() {
    let mut app = App::new(AppSpec {
        state: AppState { notes: Some(vec!["one".to_string(), "two".to_string()]) },
    });
    let ops = app.handle_redraw(none(), (80, 24), &Text::plain("> "), &Text::empty());
    assert_eq!(printed(&ops), "one\ntwo\n> ");
    let ops = app.handle_redraw(none(), (80, 24), &Text::plain("> "), &Text::empty());
    assert_eq!(printed(&ops), "");
}

#[test]
fn notices_are_laid_out_below_each_other() {
    assert_eq!(App::render_notes(vec![], 10), None);
    let buf = App::render_notes(vec!["ab".to_string(), "cdefg".to_string()], 4).unwrap();
    assert_eq!(rows(&buf), ["ab", "cdef", "g"]);
    assert_eq!(buf.width, 4);
}

#[test]
fn app_state_resets_to_no_notices() {
    let mut s = AppState { notes: Some(vec!["x".to_string()]) };
    s.reset_state();
    assert_eq!(s, AppState { notes: None });
    assert_eq!(AppState::default(), AppState { notes: None });
    assert_eq!(app().commit_eof(), Return::Exit);
}

#[test]
fn a_prompt_of_half_the_width_gives_the_indent() {
    let area = CodeArea::new(state("abcdefgh", 8));
    let buf = area.render(&Text::plain("12345"), &Text::empty(), 10, 5);
    assert_eq!(rows(&buf), ["12345abcde", "     fgh"]);
    assert_eq!(buf.dot, Pos::new(8, 1));
    // One column more than half the width, and there is none.
    let buf = area.render(&Text::plain("123456"), &Text::empty(), 10, 5);
    assert_eq!(rows(&buf), ["123456abcd", "efgh"]);
    let buf = area.render(&Text::plain("12345"), &Text::empty(), 11, 5);
    assert_eq!(rows(&buf), ["12345abcdef", "     gh"]);
}

#[test]
fn a_window_of_no_rows_shows_nothing() {
    let mut app = app();
    app.set_code(state("ab", 2));
    app.handle_redraw(none(), (20, 5), &Text::plain("> "), &Text::empty());
    let ops = app.handle_redraw(none(), (20, 0), &Text::plain("> "), &Text::empty());
    assert_eq!(
        ops,
        vec![
            TermOp::HideCursor,
            TermOp::CarriageReturn,
            TermOp::SavePosition,
            TermOp::ClearBelow,
            TermOp::RestorePosition,
            TermOp::CarriageReturn,
            // The dot keeps its column when the lines go.
            TermOp::MoveRight(4),
            TermOp::ShowCursor,
        ]
    );
}
