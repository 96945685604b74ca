//! What the editing engine shows: the prompt, the text with the cursor in
//! it, and the right prompt where there is room for it.

use crate::buffer::{clip, Buffer, CellView, FrameView};
use crate::builder::{
    lemma_write_spaces_lines, lemma_write_spaces_tidy, lemma_write_text_lines,
    lemma_write_text_tidy, row_fits, BufferBuilder, Layout,
};
use crate::code_area::{patch_pending, CodeArea, CodeAreaState, EditState};
use crate::style::Style;
use crate::text::lemma_boundary_index;
use crate::ui::{
    can_split, segments_view, split_left, split_right, styled_view, SegmentView, Text,
};
use crate::width::{columns, wcswidth};
use vstd::prelude::*;

verus! {

/// What is to be shown.
#[derive(Debug)]
pub struct CodeView {
    prompt: Text,
    rprompt: Option<Text>,
    code: Text,
    dot: usize,
}

/// What is to be shown, as characters.
pub struct Shown {
    pub prompt: Seq<SegmentView>,
    pub rprompt: Option<Seq<SegmentView>>,
    pub code: Seq<SegmentView>,
    pub dot: int,
}

impl View for CodeView {
    type V = Shown;

    closed spec fn view(&self) -> Shown {
        Shown {
            prompt: self.prompt@,
            rprompt: styled_view(self.rprompt),
            code: self.code@,
            dot: self.dot as int,
        }
    }
}

/// The columns that the segments of a text take, one by one.
pub open spec fn text_cols(text: Seq<SegmentView>) -> nat
    decreases text.len(),
{
    if text.len() == 0 {
        0
    } else {
        text_cols(text.drop_last()) + columns(text.last().text) as nat
    }
}

impl Shown {
    /// What is shown of `state` with these prompts: the text with the
    /// pending patch applied, in the plain style, the dot where the patch
    /// leaves it, and the right prompt unless it is hidden.
    pub open spec fn of(state: EditState, prompt: Seq<SegmentView>, rprompt: Seq<SegmentView>) -> Shown {
        let patched = state.buffer.patch(state.pending);
        Shown {
            prompt,
            rprompt: if state.hide_rprompt {
                None
            } else {
                Some(rprompt)
            },
            code: seq![SegmentView { text: patched.content, style: Style::plain() }],
            dot: patched.dot,
        }
    }

    /// The layout after the prompt: a prompt on one line that takes no more
    /// than half the width makes the lines below it start under its end.
    pub open spec fn after_prompt(self, l: Layout) -> Layout {
        let a = (Layout { eager_wrap: true, ..l }).write_text(self.prompt);
        if a.lines.len() == 1 && a.col * 2 <= a.width {
            Layout { indent: a.col, ..a }
        } else {
            a
        }
    }

    /// The layout after the text: the dot is put where the text is cut.
    pub open spec fn after_code(self, l: Layout) -> Layout {
        let b = self.after_prompt(l).write_text(split_left(self.code, self.dot));
        let c = (Layout { dot: b.cursor(), ..b }).write_text(split_right(self.code, self.dot));
        Layout { eager_wrap: false, indent: 0, ..c }
    }

    /// The blanks that push the right prompt to the right edge: none where
    /// it does not fit behind the text with a blank to spare, or is empty.
    pub open spec fn padding(self, l: Layout) -> Option<nat> {
        match self.rprompt {
            Some(r) => {
                let wide = clip(text_cols(r));
                let c = self.after_code(l);
                if wide > 0 && c.width - c.col - wide > 0 {
                    Some((c.width - c.col - wide) as nat)
                } else {
                    None
                }
            },
            None => None,
        }
    }

    /// The layout of all that is shown, on top of `l`.
    pub open spec fn render(self, l: Layout) -> Layout {
        let c = self.after_code(l);
        match self.padding(l) {
            Some(pad) => c.write_spaces(pad, Style::plain()).write_text(self.rprompt->0),
            None => c,
        }
    }

    /// The frame that shows all this on a screen of the given size.
    pub open spec fn frame(self, width: u16, height: u16) -> FrameView {
        self.render(Layout::start(width)).frame().fit(height)
    }
}

/// The dot of what is laid out is on one of its lines.
pub proof fn lemma_render_dot(shown: Shown, l: Layout)
    requires
        l.lines.len() > 0,
    ensures
        shown.render(l).dot.line < shown.render(l).lines.len(),
{
    lemma_write_text_lines(Layout { eager_wrap: true, ..l }, shown.prompt);
    let a = shown.after_prompt(l);
    lemma_write_text_lines(a, split_left(shown.code, shown.dot));
    let b = a.write_text(split_left(shown.code, shown.dot));
    lemma_write_text_lines(Layout { dot: b.cursor(), ..b }, split_right(shown.code, shown.dot));
    let c = shown.after_code(l);
    match shown.padding(l) {
        Some(pad) => {
            lemma_write_spaces_lines(c, pad, Style::plain());
            lemma_write_text_lines(c.write_spaces(pad, Style::plain()), shown.rprompt->0);
        },
        None => {},
    }
}

/// Every line of the frame that shows an editing state keeps within the
/// width of the screen, but for a line that holds nothing besides its indent
/// and one cell: that cell had no room on any line.
///
/// This holds for a width below the largest coordinate, and where a blank
/// takes no more than one column.
pub proof fn lemma_frame_keeps_width(shown: Shown, width: u16, height: u16)
    requires
        width < u16::MAX,
        columns(seq![' ']) <= 1,
    ensures
        forall|i: int|
            0 <= i < shown.frame(width, height).lines.len() ==> row_fits(
                #[trigger] shown.frame(width, height).lines[i],
                width,
            ),
{
    let l = Layout::start(width);
    assert(l.lines.last() =~= Seq::<CellView>::empty());
    assert(l.tidy());
    let l1 = Layout { eager_wrap: true, ..l };
    assert(l1.tidy());
    lemma_write_text_tidy(l1, shown.prompt);
    let a = shown.after_prompt(l);
    assert(a.tidy());
    lemma_write_text_tidy(a, split_left(shown.code, shown.dot));
    let b = a.write_text(split_left(shown.code, shown.dot));
    let b1 = Layout { dot: b.cursor(), ..b };
    assert(b1.tidy());
    lemma_write_text_tidy(b1, split_right(shown.code, shown.dot));
    let c = shown.after_code(l);
    assert(c.tidy());
    match shown.padding(l) {
        Some(pad) => {
            lemma_write_spaces_tidy(c, pad, Style::plain());
            lemma_write_text_tidy(c.write_spaces(pad, Style::plain()), shown.rprompt->0);
        },
        None => {},
    }
    let laid = shown.render(l);
    assert(laid.tidy());
    lemma_render_dot(shown, l);
    let frame = laid.frame();
    let cut = frame.fit(height);
    assert forall|i: int| 0 <= i < cut.lines.len() implies row_fits(#[trigger] cut.lines[i], width) by {
        if frame.lines.len() <= height {
        } else if frame.dot.line < height {
            assert(cut.lines[i] == frame.lines[i]);
        } else {
            let start = frame.dot.line - height + 1;
            assert(cut.lines[i] == frame.lines[i + start]);
        }
    }
}

fn text_width(text: &Text) -> (w: u16)
    ensures
        w == clip(text_cols(text@)),
{
    let segments = text.segments();
    let mut w: u16 = 0;
    let mut i: usize = 0;
    assert(text@.take(0) =~= Seq::<SegmentView>::empty());
    while i < segments.len()
        invariant
            i <= segments.len(),
            segments_view(segments@) == text@,
            w == clip(text_cols(text@.take(i as int))),
        decreases segments.len() - i,
    {
        assert(text@.take(i + 1).drop_last() =~= text@.take(i as int));
        assert(text@.take(i + 1).last() == segments@[i as int]@);
        w = w.saturating_add(wcswidth(segments[i].text.as_str()));
        i += 1;
    }
    assert(text@.take(i as int) =~= text@);
    w
}

impl CodeView {
    /// What is to be shown of `state`, with these prompts.
    pub fn get(state: &CodeAreaState, prompt: &Text, rprompt: &Text) -> (r: CodeView)
        requires
            state@.buffer.wf(),
        ensures
            r@ == Shown::of(state@, prompt@, rprompt@),
            can_split(r@.code, r@.dot),
    {
        let mut code = state.buffer.clone();
        patch_pending(&mut code, &state.pending);
        let dot = code.dot;
        let styled = Text::plain(code.content.as_str());
        proof {
            lemma_boundary_index(code@.content, code@.dot);
            assert(styled@.drop_first() =~= Seq::<SegmentView>::empty());
        }
        CodeView {
            prompt: prompt.clone(),
            rprompt: if state.hide_rprompt {
                None
            } else {
                Some(rprompt.clone())
            },
            code: styled,
            dot,
        }
    }

    /// Lays all that is to be shown out into `buf`.
    pub fn render_view(self, buf: &mut BufferBuilder)
        requires
            old(buf)@.lines.len() > 0,
            can_split(self@.code, self@.dot),
        ensures
            final(buf)@ == self@.render(old(buf)@),
            final(buf)@.dot.line < final(buf)@.lines.len(),
    {
        let ghost l = buf@;
        let ghost shown = self@;
        buf.eager_wrap = true;
        buf.write_text(&self.prompt);
        proof {
            lemma_write_text_lines(Layout { eager_wrap: true, ..l }, shown.prompt);
        }
        if buf.lines.0.len() == 1 && (buf.col as u32) * 2 <= buf.width as u32 {
            buf.indent = buf.col;
        }
        assert(buf@ == shown.after_prompt(l));
        let ghost a = buf@;

        let parts = self.code.split_at(self.dot);
        buf.write_text(&parts.0);
        proof {
            lemma_write_text_lines(a, parts.0@);
        }
        let ghost b = buf@;
        buf.dot();
        buf.write_text(&parts.1);
        proof {
            lemma_write_text_lines(Layout { dot: b.cursor(), ..b }, parts.1@);
        }
        buf.eager_wrap = false;
        buf.indent = 0;
        assert(buf@ == shown.after_code(l));
        let ghost c = buf@;

        match &self.rprompt {
            Some(rprompt) => {
                let wide = text_width(rprompt);
                if wide > 0 && buf.width >= buf.col && buf.width - buf.col > wide {
                    // The right prompt is only written where there is room.
                    let pad = buf.width - buf.col - wide;
                    buf.write_spaces(pad as usize);
                    buf.write_text(rprompt);
                    proof {
                        lemma_write_spaces_lines(c, pad as nat, Style::plain());
                        lemma_write_text_lines(c.write_spaces(pad as nat, Style::plain()), rprompt@);
                    }
                }
            },
            None => {},
        }
    }
}

impl CodeArea {
    /// The frame that shows what is being edited, with these prompts, on a
    /// screen of the given size.
    pub fn render(&self, prompt: &Text, rprompt: &Text, width: u16, height: u16) -> (r: Buffer)
        requires
            self@.wf(),
        ensures
            r@ == Shown::of(self@.state, prompt@, rprompt@).frame(width, height),
            r@.dot.line < u16::MAX,
            width < u16::MAX && columns(seq![' ']) <= 1 ==> forall|i: int|
                0 <= i < r@.lines.len() ==> row_fits(#[trigger] r@.lines[i], width),
    {
        let view = CodeView::get(self.state(), prompt, rprompt);
        let mut buf = Buffer::builder(width);
        view.render_view(&mut buf);
        let mut buf = buf.buffer();
        buf.trim_to_height(height);
        proof {
            if width < u16::MAX && columns(seq![' ']) <= 1 {
                let frame = Shown::of(self@.state, prompt@, rprompt@).frame(width, height);
                lemma_frame_keeps_width(Shown::of(self@.state, prompt@, rprompt@), width, height);
                assert forall|i: int| 0 <= i < buf@.lines.len() implies row_fits(
                    #[trigger] buf@.lines[i],
                    width,
                ) by {
                    assert(row_fits(frame.lines[i], width));
                }
            }
        }
        buf
    }
}

} // verus!
