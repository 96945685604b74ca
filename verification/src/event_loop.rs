//! The dispatcher: what it is told, what it asks for in return, and the
//! requests to draw that it gathers between two frames.

use crate::app::{return_view, Outcome, Return};
use crate::event::Event;
use vstd::prelude::*;

verus! {

/// How a frame is to be drawn.
#[derive(Clone, Copy, Debug, PartialEq, Eq, Hash, Structural)]
pub struct RedrawFlags {
    /// Clear the screen and write everything again.
    pub full: bool,
    /// This is the last frame of the session.
    pub last: bool,
}

impl RedrawFlags {
    /// No flag.
    pub open spec fn none() -> RedrawFlags {
        RedrawFlags { full: false, last: false }
    }

    /// The flags of either.
    pub open spec fn union(self, other: RedrawFlags) -> RedrawFlags {
        RedrawFlags { full: self.full || other.full, last: self.last || other.last }
    }

    /// No flag.
    pub fn empty() -> (r: RedrawFlags)
        ensures
            r == RedrawFlags::none(),
    {
        RedrawFlags { full: false, last: false }
    }

    /// The flag that asks for a full repaint.
    pub fn full() -> (r: RedrawFlags)
        ensures
            r == (RedrawFlags { full: true, last: false }),
    {
        RedrawFlags { full: true, last: false }
    }

    /// The flag that marks the last frame.
    pub fn last() -> (r: RedrawFlags)
        ensures
            r == (RedrawFlags { full: false, last: true }),
    {
        RedrawFlags { full: false, last: true }
    }

    /// Whether this is the last frame of the session.
    pub fn is_final(self) -> (r: bool)
        ensures
            r == self.last,
    {
        self.last
    }

    /// Whether everything is to be written again.
    pub fn is_full(self) -> (r: bool)
        ensures
            r == self.full,
    {
        self.full
    }

    /// Adds the flags of `other`.
    pub fn insert(&mut self, other: RedrawFlags)
        ensures
            *final(self) == old(self).union(other),
    {
        self.full = self.full || other.full;
        self.last = self.last || other.last;
    }
}

/// A request to draw a frame.
#[derive(Clone, Copy, Debug, PartialEq, Eq, Hash)]
pub struct Redraw {
    /// The size of the window in columns and rows, where the request knows
    /// it.
    pub size: Option<(u16, u16)>,
    pub flags: RedrawFlags,
}

impl Redraw {
    /// The request that knows no size and has no flag.
    pub open spec fn none() -> Redraw {
        Redraw { size: None, flags: RedrawFlags::none() }
    }

    /// Two requests as one: the size of the later one where it knows one,
    /// and the flags of both.
    pub open spec fn merged(self, later: Redraw) -> Redraw {
        Redraw {
            size: match later.size {
                Some(size) => Some(size),
                None => self.size,
            },
            flags: self.flags.union(later.flags),
        }
    }

    /// The request once it has been drawn: the size stays, the flags go.
    pub open spec fn drawn(self) -> Redraw {
        Redraw { size: self.size, flags: RedrawFlags::none() }
    }

    /// The request as the last one of the session.
    pub open spec fn as_last(self) -> Redraw {
        Redraw { size: self.size, flags: RedrawFlags { last: true, ..self.flags } }
    }

    /// The request that a change of the window's size gives rise to: the new
    /// size, and a full repaint.
    pub open spec fn resized(cols: u16, rows: u16) -> Redraw {
        Redraw { size: Some((cols, rows)), flags: RedrawFlags { full: true, last: false } }
    }

    /// Takes `later` in.
    pub fn merge(&mut self, later: Redraw)
        ensures
            *final(self) == old(self).merged(later),
    {
        match later.size {
            Some(size) => {
                self.size = Some(size);
            },
            None => {},
        }
        self.flags.insert(later.flags);
    }
}

/// Merging requests one by one is merging them in any grouping.
pub proof fn lemma_merge_associative(a: Redraw, b: Redraw, c: Redraw)
    ensures
        a.merged(b).merged(c) == a.merged(b.merged(c)),
{
}

/// A merged request asks for a full repaint exactly if one of the two did,
/// and carries the size that was given last.
pub proof fn lemma_merge_keeps(a: Redraw, b: Redraw)
    ensures
        a.merged(b).flags.full == (a.flags.full || b.flags.full),
        a.merged(b).flags.last == (a.flags.last || b.flags.last),
        b.size.is_some() ==> a.merged(b).size == b.size,
        b.size.is_none() ==> a.merged(b).size == a.size,
{
}

/// What the dispatcher is told.
#[derive(Debug, PartialEq, Eq)]
pub enum Signal {
    /// The input that was waited for: an event, or the end of the input.
    Input(Option<Event>),
    /// The answer to a poll: an event that was already there, or none.
    Polled(Option<Event>),
    /// A request to draw.
    Redraw(Redraw),
    /// The session is to end with this outcome.
    Return(Return),
}

/// What the dispatcher is told, with a line as characters.
pub enum SignalView {
    Input(Option<Event>),
    Polled(Option<Event>),
    Redraw(Redraw),
    Return(Outcome),
}

impl View for Signal {
    type V = SignalView;

    open spec fn view(&self) -> SignalView {
        match self {
            Signal::Input(e) => SignalView::Input(*e),
            Signal::Polled(e) => SignalView::Polled(*e),
            Signal::Redraw(r) => SignalView::Redraw(*r),
            Signal::Return(r) => SignalView::Return(r@),
        }
    }
}

/// What the dispatcher asks for.
#[derive(Clone, Copy, Debug, PartialEq, Eq)]
pub enum Action {
    /// Draw a frame as this request says, then wait for input, for a
    /// request to draw, or for the session's outcome, whichever comes first.
    Draw(Redraw),
    /// Pass this request to draw on, if there is one, and then see whether
    /// there is more input already: further events are taken in before the
    /// next frame is drawn.
    Poll(Option<Redraw>),
    /// Draw the last frame as this request says, then end the session.
    Finish(Redraw),
    /// End the session without another frame.
    Stop,
}

/// The dispatcher's own state.
#[derive(Debug)]
pub struct EventLoop {
    redraw: Redraw,
    outcome: Option<Return>,
}

/// The dispatcher's own state, with a line as characters.
pub struct Dispatch {
    /// The requests to draw that came in since the last frame, as one.
    pub redraw: Redraw,
    /// The outcome of the session, once it is known.
    pub outcome: Option<Outcome>,
}

impl View for EventLoop {
    type V = Dispatch;

    closed spec fn view(&self) -> Dispatch {
        Dispatch {
            redraw: self.redraw,
            outcome: match self.outcome {
                Some(r) => Some(r@),
                None => None,
            },
        }
    }
}

impl Dispatch {
    /// The state at the start of a session.
    pub open spec fn start() -> Dispatch {
        Dispatch { redraw: Redraw::none(), outcome: None }
    }

    /// Whether the session is over.
    pub open spec fn done(self) -> bool {
        self.outcome.is_some()
    }

    /// The state after an event that gave the session `outcome`: with an
    /// outcome the session is over, and its last frame is still to draw.
    pub open spec fn answered(self, outcome: Option<Outcome>) -> Dispatch {
        match outcome {
            Some(o) => Dispatch { redraw: self.redraw.as_last(), outcome: Some(o) },
            None => self,
        }
    }

    /// What is asked for after such an event: the last frame where the
    /// session has an outcome, else a look for more input.
    pub open spec fn answer(self, outcome: Option<Outcome>, request: Option<Redraw>) -> Action {
        match outcome {
            Some(_) => Action::Finish(self.redraw.as_last()),
            None => Action::Poll(request),
        }
    }
}

impl EventLoop {
    /// A dispatcher at the start of a session.
    pub fn new() -> (r: EventLoop)
        ensures
            r@ == Dispatch::start(),
    {
        EventLoop { redraw: Redraw { size: None, flags: RedrawFlags::empty() }, outcome: None }
    }

    /// Whether the session is over.
    pub fn is_done(&self) -> (r: bool)
        ensures
            r == self@.done(),
    {
        self.outcome.is_some()
    }

    /// The requests to draw that came in since the last frame, as one.
    pub fn redraw(&self) -> (r: Redraw)
        ensures
            r == self@.redraw,
    {
        self.redraw
    }

    /// Ends the session with `outcome`, without a last frame.
    pub fn stop(&mut self, outcome: Return)
        ensures
            final(self)@ == (Dispatch { outcome: Some(outcome@), ..old(self)@ }),
    {
        self.outcome = Some(outcome);
    }

    /// Takes a request to draw in.
    pub fn merge(&mut self, request: Redraw)
        ensures
            final(self)@ == (Dispatch { redraw: old(self)@.redraw.merged(request), ..old(self)@ }),
    {
        self.redraw.merge(request);
    }

    /// The request that the next frame is drawn by. Its flags are not kept
    /// for the frame after it.
    pub fn take_redraw(&mut self) -> (r: Redraw)
        ensures
            r == old(self)@.redraw,
            final(self)@ == (Dispatch { redraw: old(self)@.redraw.drawn(), ..old(self)@ }),
    {
        let r = self.redraw;
        self.redraw.flags = RedrawFlags::empty();
        r
    }

    /// Ends the session with `outcome`, and returns the request that the
    /// last frame is drawn by.
    pub fn finish(&mut self, outcome: Return) -> (r: Redraw)
        ensures
            r == old(self)@.redraw.as_last(),
            final(self)@ == (Dispatch { redraw: r, outcome: Some(outcome@) }),
    {
        self.redraw.flags.insert(RedrawFlags::last());
        self.outcome = Some(outcome);
        self.redraw
    }

    /// Goes on after an event that gave the session `outcome` and gave rise
    /// to `request`.
    pub fn answer(&mut self, outcome: Option<Return>, request: Option<Redraw>) -> (r: Action)
        ensures
            final(self)@ == old(self)@.answered(return_view(outcome)),
            r == old(self)@.answer(return_view(outcome), request),
    {
        match outcome {
            Some(outcome) => Action::Finish(self.finish(outcome)),
            None => Action::Poll(request),
        }
    }

    /// Hands the outcome out and starts over.
    pub fn take_outcome(&mut self) -> (r: Option<Return>)
        ensures
            return_view(r) == old(self)@.outcome,
            final(self)@ == Dispatch::start(),
    {
        let mut r: Option<Return> = None;
        std::mem::swap(&mut r, &mut self.outcome);
        self.redraw = Redraw { size: None, flags: RedrawFlags::empty() };
        r
    }
}

} // verus!
