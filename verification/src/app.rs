//! One editing session: what it holds, how it answers to events, and how it
//! draws itself.

use crate::buffer::{Buffer, FrameView, Pos};
use crate::builder::Layout;
use crate::code_area::{
    lemma_empty_wf, lemma_key_keeps_wf, CodeArea, CodeAreaState, EditState, Editing,
};
use crate::event::{Event, KeyCode, KeyEvent, KeyModifiers};
use crate::event_loop::{Action, Dispatch, EventLoop, Redraw, RedrawFlags, Signal, SignalView};
use crate::screen::{all_move_only, lemma_unchanged_frame_paints_nothing};
use crate::style::Style;
use crate::ui::{SegmentView, Text};
use crate::view::Shown;
use crate::writer::{commit_ops, frame_view, ops_view, OpView, TermOp, Writer};
use vstd::prelude::*;

verus! {

/// How a session ended.
#[derive(Debug, PartialEq, Eq)]
pub enum Return {
    /// A line was entered.
    Input(String),
    /// The line was given up.
    Break,
    /// The end of input.
    Exit,
}

/// How a session ended, with the line as characters.
pub enum Outcome {
    Input(Seq<char>),
    Break,
    Exit,
}

impl View for Return {
    type V = Outcome;

    open spec fn view(&self) -> Outcome {
        match self {
            Return::Input(line) => Outcome::Input(line@),
            Return::Break => Outcome::Break,
            Return::Exit => Outcome::Exit,
        }
    }
}

/// How a session ended, if it did.
pub open spec fn return_view(r: Option<Return>) -> Option<Outcome> {
    match r {
        Some(r) => Some(r@),
        None => None,
    }
}

impl Clone for Return {
    fn clone(&self) -> (r: Return)
        ensures
            r@ == self@,
    {
        match self {
            Return::Input(line) => Return::Input(line.clone()),
            Return::Break => Return::Break,
            Return::Exit => Return::Exit,
        }
    }
}

/// What a session holds besides the text: notices to show above it.
#[derive(Debug, PartialEq, Eq)]
pub struct AppState {
    pub notes: Option<Vec<String>>,
}

/// What a session starts from.
#[derive(Debug)]
pub struct AppSpec {
    pub state: AppState,
}

/// What a sequence of strings holds.
pub open spec fn strings_view(strings: Seq<String>) -> Seq<Seq<char>> {
    strings.map_values(|s: String| s@)
}

/// What the notices hold, if there are any.
pub open spec fn notes_view(notes: Option<Vec<String>>) -> Option<Seq<Seq<char>>> {
    match notes {
        Some(notes) => Some(strings_view(notes@)),
        None => None,
    }
}

impl View for AppState {
    type V = Option<Seq<Seq<char>>>;

    open spec fn view(&self) -> Option<Seq<Seq<char>>> {
        notes_view(self.notes)
    }
}

impl Default for AppState {
    fn default() -> (r: AppState)
        ensures
            r@ == None::<Seq<Seq<char>>>,
    {
        AppState { notes: None }
    }
}

impl AppState {
    /// Back to no notices.
    pub fn reset_state(&mut self)
        ensures
            final(self)@ == None::<Seq<Seq<char>>>,
    {
        *self = AppState::default();
    }
}

/// A session: the dispatcher, the editing engine, the notices and the
/// renderer.
#[derive(Debug)]
pub struct App {
    event_loop: EventLoop,
    code_area: CodeArea,
    state: AppState,
    writer: Writer,
}

/// A session, by what it holds.
pub struct Session {
    pub dispatch: Dispatch,
    pub editing: Editing,
    /// The notices that the next frame shows above the text.
    pub notes: Option<Seq<Seq<char>>>,
    /// The frame that the terminal shows.
    pub screen: FrameView,
}

impl View for App {
    type V = Session;

    closed spec fn view(&self) -> Session {
        Session {
            dispatch: self.event_loop@,
            editing: self.code_area@,
            notes: self.state@,
            screen: self.writer@,
        }
    }
}

/// The layout of the notices, one below the other.
pub open spec fn notes_layout(notes: Seq<Seq<char>>, width: u16) -> Layout
    decreases notes.len(),
{
    if notes.len() == 0 {
        Layout::start(width)
    } else if notes.len() == 1 {
        Layout::start(width).write_str(notes[0], Style::plain())
    } else {
        notes_layout(notes.drop_last(), width).newline().write_str(notes.last(), Style::plain())
    }
}

/// The frame of the notices: none where there is no notice.
pub open spec fn notes_frame(notes: Option<Seq<Seq<char>>>, width: u16) -> Option<FrameView> {
    match notes {
        Some(notes) => if notes.len() == 0 {
            None
        } else {
            Some(notes_layout(notes, width).frame())
        },
        None => None,
    }
}

/// The frame with an empty line below it, and the dot at the start of the
/// line below the one it was on.
pub open spec fn closed_frame(frame: FrameView) -> FrameView {
    FrameView {
        width: frame.width,
        lines: frame.lines.push(Seq::empty()),
        dot: Pos { col: 0, line: (frame.dot.line + 1) as u16 },
    }
}

/// Whether `event` is the key that ends the input: control and `d`.
pub open spec fn is_end_of_input(event: Event) -> bool {
    event == Event::Key(
        KeyEvent { code: KeyCode::Char('d'), modifiers: KeyModifiers::only_control() },
    )
}

/// Whether `event` is the key that gives the line up: control and `c`.
pub open spec fn is_interrupt(event: Event) -> bool {
    event == Event::Key(
        KeyEvent { code: KeyCode::Char('c'), modifiers: KeyModifiers::only_control() },
    )
}

impl Session {
    /// A session at its start.
    pub open spec fn start(notes: Option<Seq<Seq<char>>>) -> Session {
        Session {
            dispatch: Dispatch::start(),
            editing: Editing::start(EditState::initial()),
            notes,
            screen: FrameView::empty(),
        }
    }

    /// Whether the dot lies within the text, between two characters.
    pub open spec fn wf(self) -> bool {
        self.editing.wf()
    }

    /// The session with text, pending patch, right prompt and notices back
    /// at their defaults.
    pub open spec fn reset(self) -> Session {
        Session {
            editing: Editing { state: EditState::initial(), ..self.editing },
            notes: None,
            ..self
        }
    }

    /// The session once it is over: all of `reset`, no frame on the screen,
    /// and the dispatcher ready for the next session.
    pub open spec fn ended(self) -> Session {
        Session { dispatch: Dispatch::start(), screen: FrameView::empty(), ..self.reset() }
    }

    /// What `event` does to text and notices. The key that gives the line
    /// up resets them. The key that ends the input and a change of the
    /// window's size do nothing to them. Every other event goes to the
    /// editing engine.
    pub open spec fn after_event(self, event: Event) -> Session {
        if is_end_of_input(event) {
            self
        } else if is_interrupt(event) {
            self.reset()
        } else {
            match event {
                Event::Resize(_, _) => self,
                _ => Session { editing: self.editing.event(event), ..self },
            }
        }
    }

    /// The outcome that `event` gives the session: the end of input for its
    /// key, the line for the key that enters it.
    pub open spec fn outcome_of(self, event: Event) -> Option<Outcome> {
        if is_end_of_input(event) {
            Some(Outcome::Exit)
        } else if is_interrupt(event) {
            None
        } else {
            match event {
                Event::Key(key) => self.editing.submits(key),
                _ => None,
            }
        }
    }

    /// The request to draw that `event` gives rise to: one for a change of
    /// the window's size, with the new size and a full repaint.
    pub open spec fn request_of(event: Event) -> Option<Redraw> {
        match event {
            Event::Resize(cols, rows) => Some(Redraw::resized(cols, rows)),
            _ => None,
        }
    }

    /// The session after `signal`. Nothing happens to a session that is
    /// over.
    pub open spec fn step(self, signal: SignalView) -> Session {
        if self.dispatch.done() {
            self
        } else {
            match signal {
                SignalView::Input(Some(e)) | SignalView::Polled(Some(e)) => Session {
                    dispatch: self.dispatch.answered(self.outcome_of(e)),
                    ..self.after_event(e)
                },
                SignalView::Input(None) => Session {
                    dispatch: Dispatch { outcome: Some(Outcome::Exit), ..self.dispatch },
                    ..self
                },
                SignalView::Polled(None) => Session {
                    dispatch: Dispatch { redraw: self.dispatch.redraw.drawn(), ..self.dispatch },
                    ..self
                },
                SignalView::Redraw(r) => Session {
                    dispatch: Dispatch {
                        redraw: self.dispatch.redraw.merged(r).drawn(),
                        ..self.dispatch
                    },
                    ..self
                },
                SignalView::Return(o) => Session {
                    dispatch: Dispatch { redraw: self.dispatch.redraw.as_last(), outcome: Some(o) },
                    ..self
                },
            }
        }
    }

    /// What the dispatcher asks for after `signal`. An event is taken in,
    /// and more input looked for before the next frame, unless it gives the
    /// session its outcome. Where no more input is there, and on a request to
    /// draw, a frame is drawn by all requests since the last frame. An outcome
    /// asks for the last frame. The end of the input ends the session without
    /// one, and so does any signal to a session that is over.
    pub open spec fn action(self, signal: SignalView) -> Action {
        if self.dispatch.done() {
            Action::Stop
        } else {
            match signal {
                SignalView::Input(Some(e)) | SignalView::Polled(Some(e)) => self.dispatch.answer(
                    self.outcome_of(e),
                    Session::request_of(e),
                ),
                SignalView::Input(None) => Action::Stop,
                SignalView::Polled(None) => Action::Draw(self.dispatch.redraw),
                SignalView::Redraw(r) => Action::Draw(self.dispatch.redraw.merged(r)),
                SignalView::Return(_) => Action::Finish(self.dispatch.redraw.as_last()),
            }
        }
    }

    /// The size that a frame is drawn for: that of the request where it
    /// knows one, else that of the window.
    pub open spec fn size_for(redraw: Redraw, window: (u16, u16)) -> (u16, u16) {
        match redraw.size {
            Some(size) => size,
            None => window,
        }
    }

    /// The frame that shows the session: the text with its prompts, cut
    /// down to the height, and closed by an empty line if it is the last.
    pub open spec fn frame(
        self,
        redraw: Redraw,
        window: (u16, u16),
        prompt: Seq<SegmentView>,
        rprompt: Seq<SegmentView>,
    ) -> FrameView {
        let size = Session::size_for(redraw, window);
        let frame = Shown::of(self.editing.state, prompt, rprompt).frame(size.0, size.1);
        if redraw.flags.last {
            closed_frame(frame)
        } else {
            frame
        }
    }

    /// The operations that draw the session as `redraw` says.
    pub open spec fn draw_ops(
        self,
        redraw: Redraw,
        window: (u16, u16),
        prompt: Seq<SegmentView>,
        rprompt: Seq<SegmentView>,
    ) -> Seq<OpView> {
        commit_ops(
            self.screen,
            notes_frame(self.notes, Session::size_for(redraw, window).0),
            self.frame(redraw, window, prompt, rprompt),
            redraw.flags.full,
        )
    }

    /// The session after it was drawn: the notices are shown and gone, and
    /// the screen holds the frame, or counts as empty after the last frame.
    pub open spec fn drawn(
        self,
        redraw: Redraw,
        window: (u16, u16),
        prompt: Seq<SegmentView>,
        rprompt: Seq<SegmentView>,
    ) -> Session {
        Session {
            notes: None,
            screen: if redraw.flags.last {
                FrameView::empty()
            } else {
                self.frame(redraw, window, prompt, rprompt)
            },
            ..self
        }
    }
}

/// However a session goes, a signal that gives it its outcome asks for the
/// last frame exactly once: the request is marked as the last, and the
/// session is over, so that every later signal only gets `Stop`.
pub proof fn lemma_outcome_ends_session(s: Session, o: Outcome, later: SignalView)
    requires
        !s.dispatch.done(),
    ensures
        s.action(SignalView::Return(o)) is Finish,
        s.action(SignalView::Return(o))->Finish_0.flags.last,
        s.step(SignalView::Return(o)).dispatch.outcome == Some(o),
        s.step(SignalView::Return(o)).action(later) == Action::Stop,
        s.step(SignalView::Return(o)).step(later) == s.step(SignalView::Return(o)),
{
}

/// No frame is drawn right after an event: first it is seen whether more
/// input is there already, so that a burst of input is drawn once. It makes
/// no difference to an event whether it was waited for or found.
pub proof fn lemma_events_are_drained(s: Session, e: Event)
    ensures
        !(s.action(SignalView::Input(Some(e))) is Draw),
        s.action(SignalView::Input(Some(e))) == s.action(SignalView::Polled(Some(e))),
        s.step(SignalView::Input(Some(e))) == s.step(SignalView::Polled(Some(e))),
        s.action(SignalView::Input(Some(e))) is Poll ==> s.step(
            SignalView::Input(Some(e)),
        ).dispatch == s.dispatch,
{
}

/// A change of the window's size gives rise to one request to draw, with the
/// new size and a full repaint, and the frame that follows is drawn by it.
pub proof fn lemma_resize_requests_full_redraw(s: Session, cols: u16, rows: u16)
    requires
        !s.dispatch.done(),
    ensures
        s.action(SignalView::Input(Some(Event::Resize(cols, rows)))) == Action::Poll(
            Some(Redraw::resized(cols, rows)),
        ),
        s.step(SignalView::Input(Some(Event::Resize(cols, rows)))).editing == s.editing,
        s.action(SignalView::Redraw(Redraw::resized(cols, rows))) is Draw,
        s.action(SignalView::Redraw(Redraw::resized(cols, rows)))->Draw_0.size == Some(
            (cols, rows),
        ),
        s.action(SignalView::Redraw(Redraw::resized(cols, rows)))->Draw_0.flags.full,
{
}

/// A session that is drawn again right after it was drawn, by the same
/// request but for the flags, with the same prompts and in the same window,
/// has no text written, nothing cleared and no style switched: all that is
/// sent moves, hides or shows the cursor.
pub proof fn lemma_redraw_paints_nothing(
    s: Session,
    redraw: Redraw,
    window: (u16, u16),
    prompt: Seq<SegmentView>,
    rprompt: Seq<SegmentView>,
)
    requires
        !redraw.flags.last,
    ensures
        all_move_only(
            s.drawn(redraw, window, prompt, rprompt).draw_ops(
                redraw.drawn(),
                window,
                prompt,
                rprompt,
            ),
        ),
{
    lemma_unchanged_frame_paints_nothing(s.frame(redraw, window, prompt, rprompt));
}

/// Every signal leaves the dot within the text, between two characters.
pub proof fn lemma_step_keeps_wf(s: Session, signal: SignalView)
    requires
        s.wf(),
    ensures
        s.step(signal).wf(),
{
    lemma_empty_wf();
    match signal {
        SignalView::Input(Some(e)) | SignalView::Polled(Some(e)) => {
            match e {
                Event::Key(key) => {
                    lemma_key_keeps_wf(s.editing, key);
                },
                _ => {},
            }
        },
        _ => {},
    }
}

impl App {
    /// A session that starts from `spec`.
    pub fn new(spec: AppSpec) -> (r: App)
        ensures
            r@ == Session::start(spec.state@),
            r@.wf(),
    {
        proof {
            lemma_empty_wf();
        }
        App {
            event_loop: EventLoop::new(),
            code_area: CodeArea::new(CodeAreaState::default()),
            state: spec.state,
            writer: Writer::new(),
        }
    }

    /// A copy of what is being edited.
    pub fn clone_state(&self) -> (r: CodeAreaState)
        ensures
            r@ == self@.editing.state,
    {
        self.code_area.clone_state()
    }

    /// Replaces what is being edited.
    pub fn set_code(&mut self, state: CodeAreaState)
        ensures
            final(self)@ == (Session {
                editing: Editing { state: state@, ..old(self)@.editing },
                ..old(self)@
            }),
    {
        self.code_area.set_state(state);
    }

    /// Replaces the notices.
    pub fn set_state(&mut self, state: AppState)
        ensures
            final(self)@ == (Session { notes: state@, ..old(self)@ }),
    {
        self.state = state;
    }

    /// Whether the dot lies within the text, between two characters.
    pub fn is_valid(&self) -> (r: bool)
        ensures
            r == self@.wf(),
    {
        self.code_area.is_valid()
    }

    /// Whether the session is over.
    pub fn is_done(&self) -> (r: bool)
        ensures
            r == self@.dispatch.done(),
    {
        self.event_loop.is_done()
    }

    /// The request that the first frame of a session is drawn by.
    pub fn first_redraw(&mut self) -> (r: Redraw)
        ensures
            r == old(self)@.dispatch.redraw,
            final(self)@ == (Session {
                dispatch: Dispatch {
                    redraw: old(self)@.dispatch.redraw.drawn(),
                    ..old(self)@.dispatch
                },
                ..old(self)@
            }),
    {
        self.event_loop.take_redraw()
    }

    fn reset_all_states(&mut self)
        ensures
            final(self)@ == old(self)@.reset(),
    {
        self.state.reset_state();
        self.code_area.reset_state();
    }

    /// The outcome of a session that the end of input closes.
    pub fn commit_eof(&self) -> (r: Return)
        ensures
            r@ == Outcome::Exit,
    {
        Return::Exit
    }

    /// Takes an event in, and returns the outcome that it gives the session
    /// and the request to draw that it gives rise to.
    pub fn handle_event(&mut self, event: Event) -> (r: (Option<Return>, Option<Redraw>))
        requires
            old(self)@.wf(),
        ensures
            final(self)@ == old(self)@.after_event(event),
            final(self)@.wf(),
            return_view(r.0) == old(self)@.outcome_of(event),
            r.1 == Session::request_of(event),
    {
        proof {
            lemma_empty_wf();
        }
        match event {
            Event::Key(key) => {
                let with_control = key.modifiers.is_control();
                match key.code {
                    KeyCode::Char(c) => {
                        if c == 'd' && with_control {
                            return (Some(self.commit_eof()), None);
                        }
                        if c == 'c' && with_control {
                            self.reset_all_states();
                            return (None, None);
                        }
                    },
                    _ => {},
                }
                let handled = self.code_area.handle(event);
                (handled.submitted, None)
            },
            Event::Resize(cols, rows) => (
                None,
                Some(Redraw { size: Some((cols, rows)), flags: RedrawFlags::full() }),
            ),
            Event::Other => {
                let handled = self.code_area.handle(event);
                (None, None)
            },
        }
    }

    /// Tells the dispatcher of `signal`, and returns what it asks for.
    pub fn step(&mut self, signal: Signal) -> (r: Action)
        requires
            old(self)@.wf(),
        ensures
            final(self)@ == old(self)@.step(signal@),
            final(self)@.wf(),
            r == old(self)@.action(signal@),
    {
        proof {
            lemma_step_keeps_wf(self@, signal@);
        }
        if self.event_loop.is_done() {
            return Action::Stop;
        }
        match signal {
            Signal::Input(Some(event)) | Signal::Polled(Some(event)) => {
                let answer = self.handle_event(event);
                self.event_loop.answer(answer.0, answer.1)
            },
            Signal::Input(None) => {
                self.event_loop.stop(Return::Exit);
                Action::Stop
            },
            Signal::Polled(None) => Action::Draw(self.event_loop.take_redraw()),
            Signal::Redraw(request) => {
                self.event_loop.merge(request);
                Action::Draw(self.event_loop.take_redraw())
            },
            Signal::Return(outcome) => Action::Finish(self.event_loop.finish(outcome)),
        }
    }

    /// The frame of the notices, one below the other: none where there is
    /// no notice.
    pub fn render_notes(notes: Vec<String>, width: u16) -> (r: Option<Buffer>)
        ensures
            frame_view(r) == notes_frame(Some(strings_view(notes@)), width),
    {
        if notes.len() == 0 {
            return None;
        }
        let ghost all = strings_view(notes@);
        let mut buf = Buffer::builder(width);
        let mut i: usize = 0;
        assert(all.take(0) =~= Seq::<Seq<char>>::empty());
        while i < notes.len()
            invariant
                i <= notes.len(),
                all == strings_view(notes@),
                buf@ == notes_layout(all.take(i as int), width),
            decreases notes.len() - i,
        {
            assert(all.take(i + 1).drop_last() =~= all.take(i as int));
            assert(all.take(i + 1).last() == notes@[i as int]@);
            assert(all.take(i + 1)[0] == all[0]);
            if i > 0 {
                buf.newline();
            }
            buf.write_str(notes[i].as_str());
            i += 1;
        }
        assert(all.take(i as int) =~= all);
        Some(buf.buffer())
    }

    /// The frame that shows what is being edited, with these prompts.
    pub fn render_app(&self, prompt: &Text, rprompt: &Text, width: u16, height: u16) -> (r: Buffer)
        requires
            self@.wf(),
        ensures
            r@ == Shown::of(self@.editing.state, prompt@, rprompt@).frame(width, height),
            r@.dot.line < u16::MAX,
    {
        self.code_area.render(prompt, rprompt, width, height)
    }

    /// Draws the session as `redraw` says, for a window of the size `window`
    /// where the request knows none, and returns the operations that bring
    /// the terminal there.
    pub fn handle_redraw(
        &mut self,
        redraw: Redraw,
        window: (u16, u16),
        prompt: &Text,
        rprompt: &Text,
    ) -> (ops: Vec<TermOp>)
        requires
            old(self)@.wf(),
        ensures
            ops_view(ops@) == old(self)@.draw_ops(redraw, window, prompt@, rprompt@),
            final(self)@ == old(self)@.drawn(redraw, window, prompt@, rprompt@),
    {
        let size = match redraw.size {
            Some(size) => size,
            None => window,
        };
        let mut notes: Option<Vec<String>> = None;
        std::mem::swap(&mut notes, &mut self.state.notes);
        let above = match notes {
            Some(notes) => App::render_notes(notes, size.0),
            None => None,
        };
        let mut buf = self.render_app(prompt, rprompt, size.0, size.1);
        if redraw.flags.is_final() {
            buf.new_line(true, Some(size.0));
            let ops = self.writer.commit_buffer(above, buf, redraw.flags.is_full());
            // The last frame stays as it is: whatever is drawn next starts
            // below it, on an empty screen.
            self.writer.reset_buffer();
            ops
        } else {
            self.writer.commit_buffer(above, buf, redraw.flags.is_full())
        }
    }

    /// Ends the session: text, pending patch, right prompt and notices are
    /// back at their defaults, the renderer holds no frame, and the
    /// dispatcher is ready for the next session. Returns the outcome, if the
    /// session had one.
    pub fn end_session(&mut self) -> (r: Option<Return>)
        ensures
            return_view(r) == old(self)@.dispatch.outcome,
            final(self)@ == old(self)@.ended(),
    {
        self.reset_all_states();
        self.writer.reset_buffer();
        self.event_loop.take_outcome()
    }
}

} // verus!
