//! The editing engine: the text being edited with its cursor, a patch shown
//! over it for preview, and what each key does to them.

use crate::app::{return_view, Outcome, Return};
use crate::event::{Event, KeyCode, KeyEvent, KeyModifiers};
use crate::text::{
    byte_len, char_bytes, chars_before, is_boundary, lemma_boundary_index, lemma_byte_len_one,
    lemma_byte_len_split, lemma_char_bytes, lemma_encode_concat, lemma_index_boundary,
    on_boundary, push_char, split_str, str_len, utf8_len,
};
use vstd::prelude::*;

verus! {

/// The text being edited.
#[derive(Debug, PartialEq, Eq)]
pub struct CodeBuffer {
    /// Content of the buffer.
    pub content: String,
    /// Position of the dot (cursor), as a byte index.
    pub dot: usize,
}

/// Pending code, such as in a completion: `content` is shown in place of the
/// bytes from `from` up to `to`.
#[derive(Debug, PartialEq, Eq)]
pub struct PendingCode {
    pub from: usize,
    pub to: usize,
    pub content: String,
}

/// What is being edited, and how it is shown.
#[derive(Debug, PartialEq, Eq)]
pub struct CodeAreaState {
    pub buffer: CodeBuffer,
    pub pending: PendingCode,
    pub hide_rprompt: bool,
}

/// The text being edited, as characters, and the dot as a byte offset into
/// their encoding.
pub struct EditText {
    pub content: Seq<char>,
    pub dot: int,
}

/// A pending patch, as characters and byte offsets.
pub struct Patch {
    pub from: int,
    pub to: int,
    pub content: Seq<char>,
}

/// What is being edited, as characters and byte offsets.
pub struct EditState {
    pub buffer: EditText,
    pub pending: Patch,
    pub hide_rprompt: bool,
}

impl View for CodeBuffer {
    type V = EditText;

    open spec fn view(&self) -> EditText {
        EditText { content: self.content@, dot: self.dot as int }
    }
}

impl View for PendingCode {
    type V = Patch;

    open spec fn view(&self) -> Patch {
        Patch { from: self.from as int, to: self.to as int, content: self.content@ }
    }
}

impl View for CodeAreaState {
    type V = EditState;

    open spec fn view(&self) -> EditState {
        EditState { buffer: self.buffer@, pending: self.pending@, hide_rprompt: self.hide_rprompt }
    }
}

impl Patch {
    /// The patch that changes nothing.
    pub open spec fn none() -> Patch {
        Patch { from: 0, to: 0, content: Seq::empty() }
    }

    /// Whether the patch can be applied to `text` and changes it: its ends
    /// lie in this order within the text, between characters, and it is not
    /// an empty text for an empty range.
    pub open spec fn applies(self, text: Seq<char>) -> bool {
        &&& self.from <= self.to <= byte_len(text)
        &&& on_boundary(text, self.from)
        &&& on_boundary(text, self.to)
        &&& !(self.from == self.to && self.content.len() == 0)
    }
}

impl EditText {
    /// The empty text.
    pub open spec fn empty() -> EditText {
        EditText { content: Seq::empty(), dot: 0 }
    }

    /// Whether the dot lies within the text, between two characters.
    pub open spec fn wf(self) -> bool {
        on_boundary(self.content, self.dot)
    }

    /// The number of characters before the dot.
    pub open spec fn cursor(self) -> int {
        chars_before(self.content, self.dot)
    }

    /// The text with `c` put in at the dot, and the dot behind it.
    pub open spec fn insert(self, c: char) -> EditText {
        EditText {
            content: self.content.insert(self.cursor(), c),
            dot: self.dot + char_bytes(c),
        }
    }

    /// The text with `s` put in at the dot, and the dot behind it.
    pub open spec fn insert_str(self, s: Seq<char>) -> EditText {
        EditText {
            content: self.content.take(self.cursor()) + s + self.content.skip(self.cursor()),
            dot: self.dot + byte_len(s),
        }
    }

    /// The text without the character before the dot, and the dot where
    /// that character began. Nothing changes where the dot is at the start.
    pub open spec fn erase(self) -> EditText {
        if self.dot > 0 && self.content.len() > 0 {
            EditText {
                content: self.content.remove(self.cursor() - 1),
                dot: self.dot - char_bytes(self.content[self.cursor() - 1]),
            }
        } else {
            self
        }
    }

    /// The text with the patch `p` applied, where it applies: the bytes of
    /// its range give way to its content. A dot before the range stays, a
    /// dot within it goes behind the new content, and a dot behind it keeps
    /// its distance from the end of the text.
    pub open spec fn patch(self, p: Patch) -> EditText {
        if p.applies(self.content) {
            EditText {
                content: self.content.take(chars_before(self.content, p.from)) + p.content
                    + self.content.skip(chars_before(self.content, p.to)),
                dot: if self.dot < p.from {
                    self.dot
                } else if self.dot < p.to {
                    p.from + byte_len(p.content)
                } else {
                    self.dot - (p.to - p.from) + byte_len(p.content)
                },
            }
        } else {
            self
        }
    }
}

impl EditState {
    /// Nothing edited, nothing pending, the right prompt shown.
    pub open spec fn initial() -> EditState {
        EditState { buffer: EditText::empty(), pending: Patch::none(), hide_rprompt: false }
    }
}

/// The empty text, with the dot at its start, is well formed.
pub proof fn lemma_empty_wf()
    ensures
        EditText::empty().wf(),
        EditText::empty().cursor() == 0,
{
    lemma_index_boundary(Seq::<char>::empty(), 0);
    assert(Seq::<char>::empty().take(0) =~= Seq::<char>::empty());
    assert(byte_len(Seq::<char>::empty()) == 0);
}

/// Fewer characters take fewer bytes.
pub proof fn lemma_byte_len_grows(s: Seq<char>, j: int, k: int)
    requires
        0 <= j <= k <= s.len(),
    ensures
        byte_len(s.take(j)) + (k - j) <= byte_len(s.take(k)),
    decreases k - j,
{
    if j < k {
        lemma_byte_len_grows(s, j, k - 1);
        assert(s.take(k) =~= s.take(k - 1) + seq![s[k - 1]]);
        lemma_encode_concat(s.take(k - 1), seq![s[k - 1]]);
        lemma_byte_len_one(s[k - 1]);
        lemma_char_bytes(s[k - 1]);
    }
}

/// With a character put in at the dot, the dot is still between two
/// characters, and has one more before it.
pub proof fn lemma_insert_wf(t: EditText, c: char)
    requires
        t.wf(),
    ensures
        t.insert(c).wf(),
        t.insert(c).cursor() == t.cursor() + 1,
        t.insert(c).content[t.cursor()] == c,
{
    lemma_boundary_index(t.content, t.dot);
    let k = t.cursor();
    let new = t.content.insert(k, c);
    assert(new.take(k + 1) =~= t.content.take(k) + seq![c]);
    lemma_encode_concat(t.content.take(k), seq![c]);
    lemma_byte_len_one(c);
    lemma_index_boundary(new, k + 1);
}

/// Erase-backward undoes the insertion of a character: the text and the
/// dot are what they were.
pub proof fn lemma_erase_undoes_insert(t: EditText, c: char)
    requires
        t.wf(),
    ensures
        t.insert(c).erase() == t,
{
    lemma_insert_wf(t, c);
    lemma_char_bytes(c);
    lemma_boundary_index(t.content, t.dot);
    let k = t.cursor();
    assert(t.content.insert(k, c).remove(k) =~= t.content);
}

/// A text put in at the dot is as its characters put in one by one.
pub proof fn lemma_insert_str_push(t: EditText, s: Seq<char>, c: char)
    requires
        t.wf(),
    ensures
        t.insert_str(s).wf(),
        t.insert_str(s).cursor() == t.cursor() + s.len(),
        t.insert_str(s).insert(c) == t.insert_str(s.push(c)),
{
    lemma_boundary_index(t.content, t.dot);
    let k = t.cursor();
    let u = t.insert_str(s);
    assert(u.content.take(k + s.len()) =~= t.content.take(k) + s);
    lemma_encode_concat(t.content.take(k), s);
    lemma_index_boundary(u.content, k + s.len());
    assert(s.push(c) =~= s + seq![c]);
    lemma_encode_concat(s, seq![c]);
    lemma_byte_len_one(c);
    assert(u.content.insert(k + s.len(), c) =~= t.content.take(k) + s.push(c) + t.content.skip(
        k,
    ));
}

impl Default for CodeBuffer {
    fn default() -> (r: CodeBuffer)
        ensures
            r@ == EditText::empty(),
    {
        CodeBuffer { content: String::new(), dot: 0 }
    }
}

impl Default for PendingCode {
    fn default() -> (r: PendingCode)
        ensures
            r@ == Patch::none(),
    {
        PendingCode { from: 0, to: 0, content: String::new() }
    }
}

impl Default for CodeAreaState {
    fn default() -> (r: CodeAreaState)
        ensures
            r@ == EditState::initial(),
    {
        CodeAreaState {
            buffer: CodeBuffer::default(),
            pending: PendingCode::default(),
            hide_rprompt: false,
        }
    }
}

impl Clone for CodeBuffer {
    fn clone(&self) -> (r: CodeBuffer)
        ensures
            r@ == self@,
    {
        CodeBuffer { content: self.content.clone(), dot: self.dot }
    }
}

impl Clone for PendingCode {
    fn clone(&self) -> (r: PendingCode)
        ensures
            r@ == self@,
    {
        PendingCode { from: self.from, to: self.to, content: self.content.clone() }
    }
}

impl Clone for CodeAreaState {
    fn clone(&self) -> (r: CodeAreaState)
        ensures
            r@ == self@,
    {
        CodeAreaState {
            buffer: self.buffer.clone(),
            pending: self.pending.clone(),
            hide_rprompt: self.hide_rprompt,
        }
    }
}

impl CodeAreaState {
    /// Back to nothing edited, nothing pending, the right prompt shown.
    pub fn reset_state(&mut self)
        ensures
            final(self)@ == EditState::initial(),
    {
        *self = CodeAreaState::default();
    }
}

impl CodeBuffer {
    /// Whether the dot lies within the text, between two characters.
    pub fn is_valid(&self) -> (r: bool)
        ensures
            r == self@.wf(),
    {
        is_boundary(self.content.as_str(), self.dot)
    }

    /// Whether two buffers hold the same text with the dot at the same
    /// place.
    pub fn same(&self, other: &CodeBuffer) -> (r: bool)
        ensures
            r == (self@ == other@),
    {
        let r = self.dot == other.dot && self.content == other.content;
        assert(r == (self@ == other@)) by {
            if r {
                assert(self@.content == other@.content);
            }
        }
        r
    }

    /// Puts `s` in at the dot, and the dot behind it.
    pub fn insert_at_dot(&mut self, s: &str)
        requires
            old(self)@.wf(),
        ensures
            final(self)@ == old(self)@.insert_str(s@),
            final(self)@.wf(),
    {
        let parts = split_str(self.content.as_str(), self.dot);
        let mut text = String::from_str(parts.0);
        text.append(s);
        text.append(parts.1);
        let n = str_len(s);
        // The new text has a length, so the new dot, which is no more, is in
        // range.
        let total = str_len(text.as_str());
        proof {
            let t = old(self)@;
            let k = t.cursor();
            lemma_boundary_index(t.content, t.dot);
            lemma_encode_concat(t.content.take(k) + s@, t.content.skip(k));
            lemma_encode_concat(t.content.take(k), s@);
            assert(text@.take(k + s@.len()) =~= t.content.take(k) + s@);
            lemma_index_boundary(text@, k + s@.len());
        }
        self.dot = self.dot + n;
        self.content = text;
    }

    /// Puts `c` in at the dot, and the dot behind it.
    pub fn insert_char_at_dot(&mut self, c: char)
        requires
            old(self)@.wf(),
        ensures
            final(self)@ == old(self)@.insert(c),
            final(self)@.wf(),
    {
        let parts = split_str(self.content.as_str(), self.dot);
        let mut text = String::from_str(parts.0);
        push_char(&mut text, c);
        text.append(parts.1);
        let n = utf8_len(c);
        // The new text has a length, so the new dot, which is no more, is in
        // range.
        let total = str_len(text.as_str());
        proof {
            let t = old(self)@;
            let k = t.cursor();
            lemma_boundary_index(t.content, t.dot);
            assert(text@ =~= t.content.insert(k, c));
            lemma_insert_wf(t, c);
            lemma_boundary_index(text@, t.dot + char_bytes(c));
        }
        self.dot = self.dot + n;
        self.content = text;
    }

    /// Takes out the character before the dot, and moves the dot to where
    /// it began.
    pub fn erase_before_dot(&mut self)
        requires
            old(self)@.wf(),
        ensures
            final(self)@ == old(self)@.erase(),
            final(self)@.wf(),
    {
        if self.dot == 0 || self.content.as_str().is_empty() {
            return ;
        }
        let ghost t = self@;
        let ghost k = t.cursor();
        proof {
            lemma_boundary_index(t.content, t.dot);
        }
        // The character before the dot begins at the nearest offset before
        // it that lies between two characters.
        let text = self.content.as_str();
        let mut start: usize = self.dot - 1;
        while !is_boundary(text, start)
            invariant
                start < self.dot,
                text@ == t.content,
                self.dot == t.dot,
                forall|q: int| start < q < self.dot ==> !on_boundary(t.content, q),
            decreases start,
        {
            proof {
                lemma_index_boundary(t.content, 0);
                assert(t.content.take(0) =~= Seq::<char>::empty());
            }
            start -= 1;
        }
        proof {
            lemma_boundary_index(t.content, start as int);
            let j = chars_before(t.content, start as int);
            if j >= k {
                lemma_byte_len_grows(t.content, k, j);
            }
            if j < k - 1 {
                lemma_byte_len_grows(t.content, j, k - 1);
                lemma_byte_len_grows(t.content, k - 1, k);
                lemma_index_boundary(t.content, k - 1);
            }
            assert(j == k - 1);
            assert(t.content.take(k) =~= t.content.take(k - 1) + seq![t.content[k - 1]]);
            lemma_encode_concat(t.content.take(k - 1), seq![t.content[k - 1]]);
            lemma_byte_len_one(t.content[k - 1]);
        }
        let head = split_str(text, start);
        let tail = split_str(text, self.dot);
        let mut kept = String::from_str(head.0);
        kept.append(tail.1);
        proof {
            assert(kept@ =~= t.content.remove(k - 1));
            assert(kept@.take(k - 1) =~= t.content.take(k - 1));
            lemma_index_boundary(kept@, k - 1);
        }
        self.content = kept;
        self.dot = start;
    }
}

/// Applies the patch `p` to `b`, where it applies, and returns the byte range
/// that its content then takes in `b`: `(0, 0)` where it does not apply.
pub fn patch_pending(b: &mut CodeBuffer, p: &PendingCode) -> (r: (usize, usize))
    requires
        old(b)@.wf(),
    ensures
        final(b)@ == old(b)@.patch(p@),
        final(b)@.wf(),
        r == if p@.applies(old(b)@.content) {
            (p.from, (p.from + byte_len(p@.content)) as usize)
        } else {
            (0usize, 0usize)
        },
{
    let text = b.content.as_str();
    let len = str_len(text);
    if p.from > p.to || p.to > len {
        return (0, 0);
    }
    if !is_boundary(text, p.from) || !is_boundary(text, p.to) {
        return (0, 0);
    }
    if p.from == p.to && p.content.as_str().is_empty() {
        return (0, 0);
    }
    let ghost t = b@;
    let ghost kf = chars_before(t.content, p.from as int);
    let ghost kt = chars_before(t.content, p.to as int);
    let head = split_str(text, p.from);
    let tail = split_str(text, p.to);
    let mut patched = String::from_str(head.0);
    patched.append(p.content.as_str());
    patched.append(tail.1);
    let added = str_len(p.content.as_str());
    // The new text has a length, so the new dot, which is no more, is in
    // range.
    let total = str_len(patched.as_str());
    proof {
        lemma_boundary_index(t.content, t.dot);
        lemma_boundary_index(t.content, p.from as int);
        lemma_boundary_index(t.content, p.to as int);
        lemma_byte_len_split(t.content, kt);
        lemma_encode_concat(t.content.take(kf) + p@.content, t.content.skip(kt));
        lemma_encode_concat(t.content.take(kf), p@.content);
        assert(total == p.from + added + (len - p.to));
    }
    let dot = if b.dot < p.from {
        proof {
            let k = t.cursor();
            if k > kf {
                lemma_byte_len_grows(t.content, kf, k);
            }
            assert(patched@.take(k) =~= t.content.take(k));
            assert(t.content.take(kf).take(k) =~= t.content.take(k));
            lemma_index_boundary(patched@, k);
        }
        b.dot
    } else if b.dot < p.to {
        proof {
            assert(patched@.take(kf + p@.content.len()) =~= t.content.take(kf) + p@.content);
            lemma_index_boundary(patched@, kf + p@.content.len());
        }
        p.from + added
    } else {
        proof {
            let k = t.cursor();
            if k < kt {
                lemma_byte_len_grows(t.content, k, kt);
            }
            let moved = kf + p@.content.len() + (k - kt);
            assert(patched@.take(moved) =~= t.content.take(kf) + p@.content + t.content.skip(
                kt,
            ).take(k - kt));
            assert(t.content.take(k) =~= t.content.take(kt) + t.content.skip(kt).take(k - kt));
            lemma_encode_concat(t.content.take(kt), t.content.skip(kt).take(k - kt));
            lemma_encode_concat(
                t.content.take(kf) + p@.content,
                t.content.skip(kt).take(k - kt),
            );
            lemma_index_boundary(patched@, moved);
        }
        b.dot - (p.to - p.from) + added
    };
    b.content = patched;
    b.dot = dot;
    (p.from, p.from + added)
}

/// The editing engine: the state that is edited, and the run of characters
/// typed one right after the other, which counts as one edit.
#[derive(Debug)]
pub struct CodeArea {
    pub state: CodeAreaState,
    inserts: String,
    last_buffer: Option<CodeBuffer>,
}

/// The editing engine, as characters and byte offsets.
pub struct Editing {
    pub state: EditState,
    /// The characters of the run of insertions that is under way.
    pub inserts: Seq<char>,
    /// The text as the last insertion of the run left it.
    pub last: Option<EditText>,
}

/// What a text holds, if there is one.
pub open spec fn text_view(b: Option<CodeBuffer>) -> Option<EditText> {
    match b {
        Some(b) => Some(b@),
        None => None,
    }
}

impl View for CodeArea {
    type V = Editing;

    closed spec fn view(&self) -> Editing {
        Editing {
            state: self.state@,
            inserts: self.inserts@,
            last: text_view(self.last_buffer),
        }
    }
}

/// What a key did.
#[derive(Debug, PartialEq, Eq)]
pub struct Handled {
    /// Whether the key had a meaning to the editing engine.
    pub handled: bool,
    /// The line, where the key entered it.
    pub submitted: Option<Return>,
}

impl Editing {
    /// The editing engine at the start of a session that edits `state`.
    pub open spec fn start(state: EditState) -> Editing {
        Editing { state, inserts: Seq::empty(), last: None }
    }

    /// Whether the dot lies within the text, between two characters.
    pub open spec fn wf(self) -> bool {
        self.state.buffer.wf()
    }

    /// The same with another text.
    pub open spec fn with_buffer(self, buffer: EditText) -> Editing {
        Editing { state: EditState { buffer, ..self.state }, ..self }
    }

    /// The run of insertions ended.
    pub open spec fn end_run(self) -> Editing {
        Editing { inserts: Seq::empty(), last: None, ..self }
    }

    /// Whether the text is as the last insertion left it, so that another
    /// one goes on with the run.
    pub open spec fn in_run(self) -> bool {
        self.last == Some(self.state.buffer)
    }

    /// `c` typed: it goes on with the run if the text is as the run left
    /// it, and starts a new one if not.
    pub open spec fn typed(self, c: char) -> Editing {
        let inserts = if self.in_run() {
            self.inserts
        } else {
            Seq::empty()
        };
        let buffer = self.state.buffer.insert(c);
        Editing {
            state: EditState { buffer, ..self.state },
            inserts: inserts.push(c),
            last: Some(buffer),
        }
    }

    /// Whether `key` has a meaning to the editing engine: enter, erase, or a
    /// character without a modifier key.
    pub open spec fn handles(key: KeyEvent) -> bool {
        match key.code {
            KeyCode::Enter => true,
            KeyCode::Backspace => true,
            KeyCode::Char(_) => key.modifiers == KeyModifiers::none(),
            _ => false,
        }
    }

    /// The editing engine after `key`. A character without a modifier key is
    /// typed. Every other key ends the run of insertions, and the erase key
    /// takes out the character before the dot.
    pub open spec fn key(self, key: KeyEvent) -> Editing {
        match key.code {
            KeyCode::Backspace => self.end_run().with_buffer(self.state.buffer.erase()),
            KeyCode::Char(c) => if key.modifiers == KeyModifiers::none() {
                self.typed(c)
            } else {
                self.end_run()
            },
            _ => self.end_run(),
        }
    }

    /// The line that `key` enters: the text as it stands, for the enter key.
    pub open spec fn submits(self, key: KeyEvent) -> Option<Outcome> {
        match key.code {
            KeyCode::Enter => Some(Outcome::Input(self.state.buffer.content)),
            _ => None,
        }
    }

    /// The editing engine after `event`: only keys mean anything to it.
    pub open spec fn event(self, event: Event) -> Editing {
        match event {
            Event::Key(key) => self.key(key),
            _ => self,
        }
    }

    /// The editing engine after the characters `chars` were typed one by
    /// one, with no other key between them.
    pub open spec fn typed_all(self, chars: Seq<char>) -> Editing
        decreases chars.len(),
    {
        if chars.len() == 0 {
            self
        } else {
            self.typed_all(chars.drop_last()).key(KeyEvent::plain(chars.last()))
        }
    }
}

/// Every key leaves the dot within the text, between two characters.
pub proof fn lemma_key_keeps_wf(e: Editing, key: KeyEvent)
    requires
        e.wf(),
    ensures
        e.key(key).wf(),
{
    match key.code {
        KeyCode::Backspace => {
            lemma_erase_wf(e.state.buffer);
        },
        KeyCode::Char(c) => {
            lemma_insert_wf(e.state.buffer, c);
        },
        _ => {},
    }
}

/// With the character before the dot taken out, the dot is still between
/// two characters.
pub proof fn lemma_erase_wf(t: EditText)
    requires
        t.wf(),
    ensures
        t.erase().wf(),
        t.dot > 0 && t.content.len() > 0 ==> t.cursor() > 0 && t.erase().cursor() == t.cursor()
            - 1,
{
    if t.dot > 0 && t.content.len() > 0 {
        lemma_boundary_index(t.content, t.dot);
        let k = t.cursor();
        if k == 0 {
            assert(t.content.take(0) =~= Seq::<char>::empty());
        }
        assert(t.content.take(k) =~= t.content.take(k - 1) + seq![t.content[k - 1]]);
        lemma_encode_concat(t.content.take(k - 1), seq![t.content[k - 1]]);
        lemma_byte_len_one(t.content[k - 1]);
        let kept = t.content.remove(k - 1);
        assert(kept.take(k - 1) =~= t.content.take(k - 1));
        lemma_index_boundary(kept, k - 1);
    }
}

/// Characters typed one by one, with no other key between them, all go in
/// at the dot, in the order in which they were typed, and the dot moves on
/// by the bytes that encode them.
pub proof fn lemma_typing_inserts(e: Editing, chars: Seq<char>)
    requires
        e.wf(),
    ensures
        e.typed_all(chars).state.buffer == e.state.buffer.insert_str(chars),
        e.typed_all(chars).wf(),
        e.typed_all(chars).state.pending == e.state.pending,
        e.typed_all(chars).state.hide_rprompt == e.state.hide_rprompt,
    decreases chars.len(),
{
    let t = e.state.buffer;
    if chars.len() == 0 {
        lemma_boundary_index(t.content, t.dot);
        let k = t.cursor();
        assert(t.content.take(k) + chars + t.content.skip(k) =~= t.content);
        assert(byte_len(chars) == 0);
    } else {
        let init = chars.drop_last();
        lemma_typing_inserts(e, init);
        lemma_insert_str_push(t, init, chars.last());
        assert(init.push(chars.last()) =~= chars);
        lemma_insert_wf(t.insert_str(init), chars.last());
    }
}

/// Characters typed one by one, with no other key between them, make up one
/// run of insertions: they are added to the run that was under way if the
/// text is as that run left it, and are a run of their own if not.
pub proof fn lemma_typing_is_one_run(e: Editing, chars: Seq<char>)
    requires
        chars.len() > 0,
    ensures
        e.typed_all(chars).in_run(),
        e.typed_all(chars).inserts == if e.in_run() {
            e.inserts + chars
        } else {
            chars
        },
    decreases chars.len(),
{
    let init = chars.drop_last();
    if init.len() == 0 {
        assert(e.typed_all(init) == e);
        assert(Seq::<char>::empty().push(chars.last()) =~= chars);
        assert(e.inserts.push(chars.last()) =~= e.inserts + chars);
    } else {
        lemma_typing_is_one_run(e, init);
        assert(init.push(chars.last()) =~= chars);
        assert((e.inserts + init).push(chars.last()) =~= e.inserts + chars);
    }
}

/// Characters typed into an empty text, with no other key between them,
/// make up the text, and the dot is at its end.
pub proof fn lemma_typing_from_empty(chars: Seq<char>)
    ensures
        Editing::start(EditState::initial()).typed_all(chars).state.buffer == (EditText {
            content: chars,
            dot: byte_len(chars) as int,
        }),
{
    let e = Editing::start(EditState::initial());
    lemma_empty_wf();
    lemma_typing_inserts(e, chars);
    let t = e.state.buffer;
    assert(t.content.take(0) + chars + t.content.skip(0) =~= chars);
}

impl CodeArea {
    /// An editing engine that starts from `state`.
    pub fn new(state: CodeAreaState) -> (r: CodeArea)
        ensures
            r@ == Editing::start(state@),
    {
        CodeArea { state, inserts: String::new(), last_buffer: None }
    }

    /// Whether the dot lies within the text, between two characters.
    pub fn is_valid(&self) -> (r: bool)
        ensures
            r == self@.wf(),
    {
        self.state.buffer.is_valid()
    }

    /// What is being edited.
    pub fn state(&self) -> (r: &CodeAreaState)
        ensures
            r@ == self@.state,
    {
        &self.state
    }

    /// Replaces what is being edited. The run of insertions is not touched:
    /// the next character that is typed finds the text changed, and starts a
    /// new one.
    pub fn set_state(&mut self, state: CodeAreaState)
        ensures
            final(self)@ == (Editing { state: state@, ..old(self)@ }),
    {
        self.state = state;
    }

    /// A copy of what is being edited.
    pub fn clone_state(&self) -> (r: CodeAreaState)
        ensures
            r@ == self@.state,
    {
        self.state.clone()
    }

    /// The line as it stands, as the outcome of the session.
    pub fn submit(&self) -> (r: Return)
        ensures
            r@ == Outcome::Input(self@.state.buffer.content),
    {
        Return::Input(self.state.buffer.content.clone())
    }

    /// Back to nothing edited, nothing pending, the right prompt shown. The
    /// run of insertions is not touched: the next character that is typed
    /// finds the text changed, and starts a new one.
    pub fn reset_state(&mut self)
        ensures
            final(self)@ == (Editing { state: EditState::initial(), ..old(self)@ }),
    {
        self.state.reset_state();
    }

    fn reset_inserts(&mut self)
        ensures
            final(self)@ == old(self)@.end_run(),
    {
        self.inserts = String::new();
        self.last_buffer = None;
    }

    /// Handles an event: only keys mean anything to the editing engine.
    pub fn handle(&mut self, event: Event) -> (r: Handled)
        requires
            old(self)@.wf(),
        ensures
            final(self)@ == old(self)@.event(event),
            final(self)@.wf(),
            match event {
                Event::Key(key) => r.handled == Editing::handles(key) && return_view(r.submitted)
                    == old(self)@.submits(key),
                _ => !r.handled && r.submitted.is_none(),
            },
    {
        match event {
            Event::Key(key) => self.handle_key_event(key),
            _ => Handled { handled: false, submitted: None },
        }
    }

    /// Handles a key.
    pub fn handle_key_event(&mut self, key: KeyEvent) -> (r: Handled)
        requires
            old(self)@.wf(),
        ensures
            final(self)@ == old(self)@.key(key),
            final(self)@.wf(),
            r.handled == Editing::handles(key),
            return_view(r.submitted) == old(self)@.submits(key),
    {
        proof {
            lemma_key_keeps_wf(self@, key);
        }
        match key.code {
            KeyCode::Enter => {
                self.reset_inserts();
                Handled { handled: true, submitted: Some(self.submit()) }
            },
            KeyCode::Backspace => {
                self.reset_inserts();
                self.state.buffer.erase_before_dot();
                Handled { handled: true, submitted: None }
            },
            KeyCode::Char(c) => {
                if key.modifiers.is_empty() {
                    // A text that is not as the last insertion left it ends
                    // the run.
                    let in_run = match &self.last_buffer {
                        Some(last) => last.same(&self.state.buffer),
                        None => false,
                    };
                    if !in_run {
                        self.reset_inserts();
                    }
                    self.state.buffer.insert_char_at_dot(c);
                    push_char(&mut self.inserts, c);
                    self.last_buffer = Some(self.state.buffer.clone());
                    Handled { handled: true, submitted: None }
                } else {
                    self.reset_inserts();
                    Handled { handled: false, submitted: None }
                }
            },
            _ => {
                // A key with no binding.
                self.reset_inserts();
                Handled { handled: false, submitted: None }
            },
        }
    }
}

} // verus!
