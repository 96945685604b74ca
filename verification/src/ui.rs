//! Styled text: runs of characters that each carry a style.

use crate::style::{Color, Style};
use crate::text::{byte_len, chars_before, lemma_boundary_index, on_boundary, split_str, str_len};
use vstd::prelude::*;
use vstd::std_specs::iter::IteratorSpec;

verus! {

/// Sets up a style step by step.
pub struct Styler {
    style: Style,
}

impl View for Styler {
    type V = Style;

    closed spec fn view(&self) -> Style {
        self.style
    }
}

impl Styler {
    /// Starts from `style`.
    pub fn new(style: Style) -> (r: Styler)
        ensures
            r@ == style,
    {
        Styler { style }
    }

    /// The style that was set up.
    pub fn build(self) -> (r: Style)
        ensures
            r == self@,
    {
        self.style
    }

    /// Sets the foreground color, or takes it away.
    pub fn fg(&mut self, color: Option<Color>) -> (r: &mut Self)
        ensures
            r@ == (Style { fg: color, ..old(self)@ }),
            *final(self) == *final(r),
    {
        self.style.fg = color;
        self
    }

    /// Sets the background color, or takes it away.
    pub fn bg(&mut self, color: Option<Color>) -> (r: &mut Self)
        ensures
            r@ == (Style { bg: color, ..old(self)@ }),
            *final(self) == *final(r),
    {
        self.style.bg = color;
        self
    }

    /// Switches `bold` on or off.
    pub fn bold(&mut self, bold: bool) -> (r: &mut Self)
        ensures
            r@ == old(self)@.with_bold(bold),
            *final(self) == *final(r),
    {
        self.style.flags.bold = bold;
        self
    }

    /// Switches `dim` on or off.
    pub fn dim(&mut self, dim: bool) -> (r: &mut Self)
        ensures
            r@ == old(self)@.with_dim(dim),
            *final(self) == *final(r),
    {
        self.style.flags.dim = dim;
        self
    }

    /// Switches `italic` on or off.
    pub fn italic(&mut self, italic: bool) -> (r: &mut Self)
        ensures
            r@ == old(self)@.with_italic(italic),
            *final(self) == *final(r),
    {
        self.style.flags.italic = italic;
        self
    }

    /// Switches `underlined` on or off.
    pub fn underlined(&mut self, underlined: bool) -> (r: &mut Self)
        ensures
            r@ == old(self)@.with_underlined(underlined),
            *final(self) == *final(r),
    {
        self.style.flags.underlined = underlined;
        self
    }

    /// Switches `blink` on or off.
    pub fn blink(&mut self, blink: bool) -> (r: &mut Self)
        ensures
            r@ == old(self)@.with_blink(blink),
            *final(self) == *final(r),
    {
        self.style.flags.blink = blink;
        self
    }

    /// Switches `reverse` on or off.
    pub fn reverse(&mut self, reverse: bool) -> (r: &mut Self)
        ensures
            r@ == old(self)@.with_reverse(reverse),
            *final(self) == *final(r),
    {
        self.style.flags.reverse = reverse;
        self
    }
}

/// A run of characters in one style.
#[derive(Debug, PartialEq, Eq)]
pub struct TextSegment {
    pub text: String,
    pub style: Style,
}

/// What a segment holds.
pub struct SegmentView {
    pub text: Seq<char>,
    pub style: Style,
}

impl View for TextSegment {
    type V = SegmentView;

    open spec fn view(&self) -> SegmentView {
        SegmentView { text: self.text@, style: self.style }
    }
}

impl Clone for TextSegment {
    fn clone(&self) -> (r: TextSegment)
        ensures
            r@ == self@,
    {
        TextSegment { text: self.text.clone(), style: self.style }
    }
}

impl TextSegment {
    /// The text that shows the segment on a terminal.
    pub fn to_ansi(&self) -> (r: String)
        ensures
            r@ == segment_code(self@),
    {
        if self.style == Style::reset() {
            self.text.clone()
        } else {
            proof {
                reveal_strlit("\x1b[");
                reveal_strlit("m");
                reveal_strlit("\x1b[m");
            }
            let mut r = String::from_str("\x1b[");
            r.append(self.style.to_codes().as_str());
            r.append("m");
            r.append(self.text.as_str());
            r.append("\x1b[m");
            assert(r@ =~= segment_code(self@));
            r
        }
    }

    /// A segment in the plain style.
    pub fn plain(text: &str) -> (r: TextSegment)
        ensures
            r@ == (SegmentView { text: text@, style: Style::plain() }),
    {
        TextSegment { text: String::from_str(text), style: Style::reset() }
    }

    /// A segment in the style `style`.
    pub fn styled(text: &str, style: Style) -> (r: TextSegment)
        ensures
            r@ == (SegmentView { text: text@, style }),
    {
        TextSegment { text: String::from_str(text), style }
    }
}

/// What a sequence of segments holds.
pub open spec fn segments_view(segments: Seq<TextSegment>) -> Seq<SegmentView> {
    segments.map_values(|s: TextSegment| s@)
}

/// The characters of the segments, one segment after the other.
pub open spec fn flat(segments: Seq<SegmentView>) -> Seq<char>
    decreases segments.len(),
{
    if segments.len() == 0 {
        seq![]
    } else {
        segments[0].text + flat(segments.drop_first())
    }
}

/// The number of bytes that encode the segments' characters.
pub open spec fn flat_bytes(segments: Seq<SegmentView>) -> nat
    decreases segments.len(),
{
    if segments.len() == 0 {
        0
    } else {
        byte_len(segments[0].text) + flat_bytes(segments.drop_first())
    }
}

/// Whether a text can be cut at the byte offset `index`: the offset lies
/// between two characters of the segment that it falls into, or beyond the
/// last segment.
pub open spec fn can_split(segments: Seq<SegmentView>, index: int) -> bool
    decreases segments.len(),
{
    if index <= 0 || segments.len() == 0 {
        true
    } else if byte_len(segments[0].text) < index {
        can_split(segments.drop_first(), index - byte_len(segments[0].text))
    } else {
        on_boundary(segments[0].text, index)
    }
}

/// The segments before the byte offset `index`. The segment that the offset
/// falls into gives its characters before the offset, also where those are
/// all it has.
pub open spec fn split_left(segments: Seq<SegmentView>, index: int) -> Seq<SegmentView>
    decreases segments.len(),
{
    if index <= 0 || segments.len() == 0 {
        seq![]
    } else if byte_len(segments[0].text) < index {
        seq![segments[0]] + split_left(segments.drop_first(), index - byte_len(segments[0].text))
    } else {
        seq![
            SegmentView {
                text: segments[0].text.take(chars_before(segments[0].text, index)),
                style: segments[0].style,
            },
        ]
    }
}

/// The segments from the byte offset `index` on. The segment that the offset
/// falls into gives its characters from the offset on, also where it has
/// none there.
pub open spec fn split_right(segments: Seq<SegmentView>, index: int) -> Seq<SegmentView>
    decreases segments.len(),
{
    if index <= 0 || segments.len() == 0 {
        segments
    } else if byte_len(segments[0].text) < index {
        split_right(segments.drop_first(), index - byte_len(segments[0].text))
    } else {
        seq![
            SegmentView {
                text: segments[0].text.skip(chars_before(segments[0].text, index)),
                style: segments[0].style,
            },
        ] + segments.drop_first()
    }
}

/// The two parts of a cut hold the characters of the whole, in order, and
/// the left part takes the first `index` bytes of them, or all where there
/// are fewer.
pub proof fn lemma_split_keeps_text(segments: Seq<SegmentView>, index: int)
    requires
        can_split(segments, index),
        0 <= index,
    ensures
        flat(split_left(segments, index)) + flat(split_right(segments, index)) == flat(segments),
        flat_bytes(split_left(segments, index)) == if index <= flat_bytes(segments) {
            index as nat
        } else {
            flat_bytes(segments)
        },
    decreases segments.len(),
{
    if index <= 0 || segments.len() == 0 {
        assert(flat(Seq::<SegmentView>::empty()) + flat(segments) =~= flat(segments));
    } else if byte_len(segments[0].text) < index {
        let rest = segments.drop_first();
        let left = split_left(rest, index - byte_len(segments[0].text));
        lemma_split_keeps_text(rest, index - byte_len(segments[0].text));
        let whole = seq![segments[0]] + left;
        assert(whole[0] == segments[0]);
        assert(whole.drop_first() =~= left);
        assert(flat(whole) + flat(split_right(segments, index)) =~= flat(segments));
    } else {
        let first = segments[0];
        let k = chars_before(first.text, index);
        lemma_boundary_index(first.text, index);
        let a = SegmentView { text: first.text.take(k), style: first.style };
        let b = SegmentView { text: first.text.skip(k), style: first.style };
        let right = seq![b] + segments.drop_first();
        assert(seq![a].drop_first() =~= Seq::<SegmentView>::empty());
        assert(flat(seq![a].drop_first()) =~= Seq::<char>::empty());
        assert(flat(seq![a]) =~= a.text);
        assert(right[0] == b);
        assert(right.drop_first() =~= segments.drop_first());
        assert(a.text + b.text =~= first.text);
        assert(flat(seq![a]) + flat(right) =~= flat(segments));
        assert(flat_bytes(seq![a].drop_first()) == 0);
    }
}

/// The text that shows `segment` on a terminal: its characters, between the
/// sequence that selects its style and the one that selects the plain style
/// unless its style is the plain one.
pub open spec fn segment_code(segment: SegmentView) -> Seq<char> {
    if segment.style == Style::plain() {
        segment.text
    } else {
        (seq!['\x1b', '['] + segment.style.codes()).push('m') + segment.text + seq![
            '\x1b',
            '[',
            'm',
        ]
    }
}

/// The text that shows `segments` on a terminal, one after the other.
pub open spec fn segments_code(segments: Seq<SegmentView>) -> Seq<char>
    decreases segments.len(),
{
    if segments.len() == 0 {
        seq![]
    } else {
        segments_code(segments.drop_last()) + segment_code(segments.last())
    }
}

/// Text of several styles.
#[derive(Debug, PartialEq, Eq)]
pub struct Text {
    segments: Vec<TextSegment>,
}

impl View for Text {
    type V = Seq<SegmentView>;

    closed spec fn view(&self) -> Seq<SegmentView> {
        segments_view(self.segments@)
    }
}

/// What a text holds, if there is one.
pub open spec fn styled_view(text: Option<Text>) -> Option<Seq<SegmentView>> {
    match text {
        Some(text) => Some(text@),
        None => None,
    }
}

impl Clone for Text {
    fn clone(&self) -> (r: Text)
        ensures
            r@ == self@,
    {
        let mut r = Text::empty();
        r.extend(self);
        assert(Seq::<SegmentView>::empty() + self@ =~= self@);
        r
    }
}

impl Text {
    /// The text of no segments.
    pub fn empty() -> (r: Text)
        ensures
            r@ == Seq::<SegmentView>::empty(),
    {
        let r = Text { segments: Vec::new() };
        assert(r@ =~= Seq::<SegmentView>::empty());
        r
    }

    /// A text of one segment in the plain style.
    pub fn plain(text: &str) -> (r: Text)
        ensures
            r@ == seq![SegmentView { text: text@, style: Style::plain() }],
    {
        let mut segments: Vec<TextSegment> = Vec::new();
        segments.push(TextSegment::plain(text));
        let r = Text { segments };
        assert(r@ =~= seq![SegmentView { text: text@, style: Style::plain() }]);
        r
    }

    /// A text of one segment in the style `style`.
    pub fn styled(text: &str, style: Style) -> (r: Text)
        ensures
            r@ == seq![SegmentView { text: text@, style }],
    {
        let mut segments: Vec<TextSegment> = Vec::new();
        segments.push(TextSegment::styled(text, style));
        let r = Text { segments };
        assert(r@ =~= seq![SegmentView { text: text@, style }]);
        r
    }

    /// Appends a segment.
    pub fn push(&mut self, segment: TextSegment)
        ensures
            final(self)@ == old(self)@.push(segment@),
    {
        self.segments.push(segment);
        assert(self@ =~= old(self)@.push(segment@));
    }

    /// The text that shows this text on a terminal.
    pub fn to_ansi(&self) -> (r: String)
        ensures
            r@ == segments_code(self@),
    {
        let mut r = String::new();
        let mut i: usize = 0;
        assert(self@.take(0) =~= Seq::<SegmentView>::empty());
        assert(r@ =~= segments_code(self@.take(0)));
        while i < self.segments.len()
            invariant
                i <= self.segments.len(),
                r@ == segments_code(self@.take(i as int)),
            decreases self.segments.len() - i,
        {
            assert(self@.take(i + 1).drop_last() =~= self@.take(i as int));
            assert(self@.take(i + 1).last() == self.segments@[i as int]@);
            r.append(self.segments[i].to_ansi().as_str());
            i += 1;
        }
        assert(self@.take(i as int) =~= self@);
        r
    }

    /// The segments, one by one.
    pub fn iter(&self) -> (r: std::slice::Iter<'_, TextSegment>)
        ensures
            segments_view(r.remaining().unref()) == self@,
    {
        broadcast use vstd::std_specs::slice::axiom_spec_slice_iter;

        let r = self.segments.iter();
        assert(r.remaining().unref() =~= self.segments@);
        r
    }

    /// The segments, in order.
    pub fn segments(&self) -> (r: &Vec<TextSegment>)
        ensures
            segments_view(r@) == self@,
    {
        &self.segments
    }

    /// Appends the segments of `other`.
    pub fn extend(&mut self, other: &Text)
        ensures
            final(self)@ == old(self)@ + other@,
    {
        let mut i: usize = 0;
        assert(self@ =~= old(self)@ + other@.take(0));
        while i < other.segments.len()
            invariant
                i <= other.segments.len(),
                self@ == old(self)@ + other@.take(i as int),
            decreases other.segments.len() - i,
        {
            let ghost before = self@;
            self.segments.push(other.segments[i].clone());
            assert(self@ =~= before.push(other@[i as int]));
            assert(other@.take(i + 1) =~= other@.take(i as int).push(other@[i as int]));
            assert(self@ =~= old(self)@ + other@.take(i + 1));
            i += 1;
        }
        assert(other@.take(i as int) =~= other@);
    }

    /// Whether the text has no character.
    pub fn is_blank(&self) -> (r: bool)
        ensures
            r == (flat(self@).len() == 0),
    {
        let mut i: usize = self.segments.len();
        assert(self@.skip(i as int) =~= Seq::<SegmentView>::empty());
        while i > 0
            invariant
                i <= self.segments.len(),
                flat(self@.skip(i as int)).len() == 0,
            decreases i,
        {
            i -= 1;
            let ghost tail = self@.skip(i as int);
            assert(tail[0] == self@[i as int]);
            assert(tail.drop_first() =~= self@.skip(i + 1));
            if !self.segments[i].text.as_str().is_empty() {
                proof {
                    lemma_flat_skip(self@, i as int);
                }
                return false;
            }
        }
        assert(self@.skip(0) =~= self@);
        true
    }

    /// Cuts the text in two at the byte offset `index`.
    pub fn split_at(&self, index: usize) -> (r: (Text, Text))
        requires
            can_split(self@, index as int),
        ensures
            r.0@ == split_left(self@, index as int),
            r.1@ == split_right(self@, index as int),
    {
        let mut left = Text::empty();
        let mut right = Text::empty();
        let mut offset: usize = 0;
        let mut to_consume: usize = index;
        let mut cut = false;
        assert(self@.skip(0) =~= self@);
        assert(left@ + split_left(self@, index as int) =~= split_left(self@, index as int));
        while to_consume > 0 && offset < self.segments.len()
            invariant_except_break
                offset <= self.segments.len(),
                can_split(self@.skip(offset as int), to_consume as int),
                !cut,
                right@ == Seq::<SegmentView>::empty(),
                left@ + split_left(self@.skip(offset as int), to_consume as int) == split_left(
                    self@,
                    index as int,
                ),
                split_right(self@.skip(offset as int), to_consume as int) == split_right(
                    self@,
                    index as int,
                ),
            ensures
                offset <= self.segments.len(),
                cut ==> offset < self.segments.len(),
                cut ==> left@ == split_left(self@, index as int),
                cut ==> right@ + self@.skip(offset + 1) == split_right(self@, index as int),
                !cut ==> right@ == Seq::<SegmentView>::empty(),
                !cut ==> left@ + split_left(self@.skip(offset as int), to_consume as int)
                    == split_left(self@, index as int),
                !cut ==> split_right(self@.skip(offset as int), to_consume as int) == split_right(
                    self@,
                    index as int,
                ),
                !cut ==> (to_consume == 0 || offset == self.segments.len()),
            decreases self.segments.len() - offset,
        {
            let ghost tail = self@.skip(offset as int);
            let ghost done = left@;
            assert(tail[0] == self@[offset as int]);
            assert(tail.drop_first() =~= self@.skip(offset + 1));
            let seg = &self.segments[offset];
            let n = str_len(seg.text.as_str());
            if n < to_consume {
                left.push(seg.clone());
                assert(left@ + split_left(tail.drop_first(), to_consume - n) =~= done + (seq![
                    tail[0],
                ] + split_left(tail.drop_first(), to_consume - n)));
                to_consume -= n;
                offset += 1;
            } else {
                let parts = split_str(seg.text.as_str(), to_consume);
                left.push(TextSegment { text: String::from_str(parts.0), style: seg.style });
                right.push(TextSegment { text: String::from_str(parts.1), style: seg.style });
                assert(left@ =~= done + split_left(tail, to_consume as int));
                assert(right@ + self@.skip(offset + 1) =~= split_right(tail, to_consume as int));
                cut = true;
                break ;
            }
        }
        let from = if cut {
            offset + 1
        } else {
            offset
        };
        proof {
            if !cut {
                let tail = self@.skip(offset as int);
                assert(split_left(tail, to_consume as int) =~= Seq::<SegmentView>::empty());
                assert(left@ + Seq::<SegmentView>::empty() =~= left@);
                assert(split_right(tail, to_consume as int) == tail);
                assert(right@ + tail =~= tail);
            }
        }
        let ghost head = right@;
        let mut i: usize = from;
        assert(self@.subrange(from as int, from as int) =~= Seq::<SegmentView>::empty());
        assert(head + Seq::<SegmentView>::empty() =~= head);
        while i < self.segments.len()
            invariant
                from <= i <= self.segments.len(),
                right@ == head + self@.subrange(from as int, i as int),
            decreases self.segments.len() - i,
        {
            let ghost before = right@;
            right.push(self.segments[i].clone());
            assert(self@.subrange(from as int, i + 1) =~= self@.subrange(
                from as int,
                i as int,
            ).push(self@[i as int]));
            assert(right@ =~= head + self@.subrange(from as int, i + 1));
            i += 1;
        }
        assert(self@.subrange(from as int, i as int) =~= self@.skip(from as int));
        (left, right)
    }
}

proof fn lemma_flat_skip(segments: Seq<SegmentView>, i: int)
    requires
        0 <= i <= segments.len(),
    ensures
        flat(segments.skip(i)).len() <= flat(segments).len(),
    decreases i,
{
    if i == 0 {
        assert(segments.skip(0) =~= segments);
    } else {
        lemma_flat_skip(segments.drop_first(), i - 1);
        assert(segments.drop_first().skip(i - 1) =~= segments.skip(i));
    }
}

} // verus!
