use line_editor::app::Return;
use line_editor::code_area::{
    patch_pending, CodeArea, CodeAreaState, CodeBuffer, Handled, PendingCode,
};
use line_editor::event::{Event, KeyCode, KeyEvent, KeyModifiers};

fn buffer(content: &str, dot: usize) -> CodeBuffer {
    CodeBuffer { content: content.to_string(), dot }
}

fn patch(from: usize, to: usize, content: &str) -> PendingCode {
    PendingCode { from, to, content: content.to_string() }
}

fn area(content: &str, dot: usize) -> CodeArea {
    CodeArea::new(CodeAreaState {
        buffer: buffer(content, dot),
        pending: PendingCode::default(),
        hide_rprompt: false,
    })
}

fn key(code: KeyCode) -> KeyEvent {
    KeyEvent::new(code)
}

fn control(c: char) -> KeyEvent {
    KeyEvent {
        code: KeyCode::Char(c),
        modifiers: KeyModifiers { shift: false, control: true, alt: false, other: false },
    }
}

fn edited() -> Handled {
    Handled { handled: true, submitted: None }
}

#[test]
fn patch_inserts_at_an_empty_range() {
    let mut b = buffer("ab", 2);
    let r = patch_pending(&mut b, &patch(1, 1, "X"));
    assert_eq!(b, buffer("aXb", 3));
    assert_eq!(r, (1, 2));
}

#[test]
fn patch_at_the_end_appends() {
    let mut b = buffer("ab", 2);
    let r = patch_pending(&mut b, &patch(2, 2, "X"));
    assert_eq!(b, buffer("abX", 3));
    assert_eq!(r, (2, 3));
}

#[test]
fn patch_with_ends_in_the_wrong_order_is_skipped() {
    let mut b = buffer("ab", 2);
    let r = patch_pending(&mut b, &patch(2, 1, "X"));
    assert_eq!(b, buffer("ab", 2));
    assert_eq!(r, (0, 0));
}

#[test]
fn patch_beyond_the_text_is_skipped() {
    let mut b = buffer("ab", 1);
    let r = patch_pending(&mut b, &patch(1, 3, "X"));
    assert_eq!(b, buffer("ab", 1));
    assert_eq!(r, (0, 0));
}

#[test]
fn patch_of_nothing_for_nothing_is_skipped() {
    let mut b = buffer("ab", 1);
    let r = patch_pending(&mut b, &patch(1, 1, ""));
    assert_eq!(b, buffer("ab", 1));
    assert_eq!(r, (0, 0));
}

#[test]
fn patch_inside_a_character_is_skipped() {
    let mut b = buffer("h\u{e9}llo", 0);
    let r = patch_pending(&mut b, &patch(2, 3, "X"));
    assert_eq!(b, buffer("h\u{e9}llo", 0));
    assert_eq!(r, (0, 0));
}

#[test]
fn patch_leaves_a_dot_before_it() {
    let mut b = buffer("hello world", 2);
    let r = patch_pending(&mut b, &patch(6, 11, "there"));
    assert_eq!(b, buffer("hello there", 2));
    assert_eq!(r, (6, 11));
}

#[test]
fn patch_moves_a_dot_inside_it_behind_the_new_text() {
    let mut b = buffer("hello world", 8);
    let r = patch_pending(&mut b, &patch(6, 11, "you"));
    assert_eq!(b, buffer("hello you", 9));
    assert_eq!(r, (6, 9));
}

#[test]
fn patch_shifts_a_dot_behind_it() {
    let mut b = buffer("hello world", 11);
    let r = patch_pending(&mut b, &patch(0, 5, "hi"));
    assert_eq!(b, buffer("hi world", 8));
    assert_eq!(r, (0, 2));
}

#[test]
fn patch_can_delete() {
    let mut b = buffer("a\u{4e16}b", 5);
    let r = patch_pending(&mut b, &patch(1, 4, ""));
    assert_eq!(b, buffer("ab", 2));
    assert_eq!(r, (1, 1));
}

#[test]
fn insert_char_at_dot_counts_bytes() {
    let mut b = buffer("ab", 1);
    b.insert_char_at_dot('\u{e9}');
    assert_eq!(b, buffer("a\u{e9}b", 3));
    b.insert_char_at_dot('\u{1f600}');
    assert_eq!(b, buffer("a\u{e9}\u{1f600}b", 7));
}

#[test]
fn insert_at_dot_puts_a_string_in() {
    let mut b = buffer("ad", 1);
    b.insert_at_dot("bc");
    assert_eq!(b, buffer("abcd", 3));
    b.insert_at_dot("");
    assert_eq!(b, buffer("abcd", 3));
}

#[test]
fn erase_takes_a_whole_character() {
    let mut b = buffer("a\u{4e16}b", 4);
    b.erase_before_dot();
    assert_eq!(b, buffer("ab", 1));
    b.erase_before_dot();
    assert_eq!(b, buffer("b", 0));
    b.erase_before_dot();
    assert_eq!(b, buffer("b", 0));
}

#[test]
fn erase_undoes_insert() {
    for (content, dot) in [("", 0), ("ab", 0), ("ab", 1), ("ab", 2), ("\u{e9}\u{4e16}", 2)] {
        for c in ['x', '\u{e9}', '\u{4e16}', '\u{1f600}'] {
            let mut b = buffer(content, dot);
            b.insert_char_at_dot(c);
            assert_eq!(b.dot, dot + c.len_utf8());
            b.erase_before_dot();
            assert_eq!(b, buffer(content, dot));
        }
    }
}

#[test]
fn typing_fills_the_buffer() {
    let mut a = CodeArea::new(CodeAreaState::default());
    for c in "h\u{e9}llo \u{4e16}".chars() {
        assert_eq!(a.handle_key_event(key(KeyCode::Char(c))), edited());
    }
    assert_eq!(a.clone_state().buffer, buffer("h\u{e9}llo \u{4e16}", 10));
}

#[test]
fn typing_goes_in_at_the_dot() {
    let mut a = area("ad", 1);
    a.handle_key_event(key(KeyCode::Char('b')));
    a.handle_key_event(key(KeyCode::Char('c')));
    assert_eq!(a.clone_state().buffer, buffer("abcd", 3));
}

#[test]
fn backspace_key_erases() {
    let mut a = area("ab", 2);
    assert_eq!(a.handle_key_event(key(KeyCode::Backspace)), edited());
    assert_eq!(a.clone_state().buffer, buffer("a", 1));
}

#[test]
fn enter_submits_the_text() {
    let mut a = area("ls -l", 2);
    let r = a.handle_key_event(key(KeyCode::Enter));
    assert_eq!(
        r,
        Handled { handled: true, submitted: Some(Return::Input("ls -l".to_string())) }
    );
    assert_eq!(a.clone_state().buffer, buffer("ls -l", 2));
}

#[test]
fn a_key_without_a_binding_is_not_handled() {
    let mut a = area("ab", 1);
    let unhandled = Handled { handled: false, submitted: None };
    assert_eq!(a.handle_key_event(key(KeyCode::Left)), unhandled);
    assert_eq!(a.handle_key_event(key(KeyCode::F(5))), unhandled);
    assert_eq!(a.handle_key_event(control('x')), unhandled);
    assert_eq!(a.clone_state().buffer, buffer("ab", 1));
}

#[test]
fn only_keys_mean_something_to_the_code_area() {
    let mut a = area("ab", 1);
    let unhandled = Handled { handled: false, submitted: None };
    assert_eq!(a.handle(Event::Resize(80, 24)), unhandled);
    assert_eq!(a.handle(Event::Other), unhandled);
    assert_eq!(a.handle(Event::Key(key(KeyCode::Char('x')))), edited());
    assert_eq!(a.clone_state().buffer, buffer("axb", 2));
}

#[test]
fn reset_state_goes_back_to_the_defaults() {
    let mut s = CodeAreaState {
        buffer: buffer("abc", 3),
        pending: patch(0, 1, "x"),
        hide_rprompt: true,
    };
    s.reset_state();
    assert_eq!(s, CodeAreaState::default());
    assert_eq!(s.buffer, buffer("", 0));
    assert_eq!(s.pending, patch(0, 0, ""));
    assert!(!s.hide_rprompt);
}
