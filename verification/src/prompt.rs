//! The prompt: a line of text that modules contribute to, each in its place,
//! and that is put together again whenever a module has something new.

use crate::style::Style;
use crate::ui::{flat, styled_view, SegmentView, Text, TextSegment};
use vstd::prelude::*;

verus! {

/// One contributor to the prompt.
///
/// What a module answers to the three questions that take it as it stands
/// is a matter of the module and of the question alone: it is named here, so
/// that the prompt can say what it does with the answers. What a module
/// computes may depend on anything, and nothing is promised of it.
pub trait PromptModule {
    /// The time in milliseconds after which the module's text should be
    /// computed again, if the module wants that.
    spec fn interval(&self) -> Option<u64>;

    /// Whether the module's text should be computed again, given whether
    /// the working directory has changed.
    spec fn wants(&self, wd_changed: bool) -> bool;

    /// The place of the module in the prompt: a module with a smaller place
    /// stands further left.
    spec fn place(&self) -> isize;

    /// Computes the module's text: none where it has nothing to show.
    fn compute(&mut self) -> Option<Text>;

    /// Whether the text should be computed again, given whether the working
    /// directory has changed.
    fn should_update(&self, wd_changed: bool) -> (r: bool)
        ensures
            r == self.wants(wd_changed),
    ;

    /// The time in milliseconds after which the text should be computed
    /// again, for a module that wants that.
    fn update_threshold(&self) -> (r: Option<u64>)
        ensures
            r == self.interval(),
    ;

    /// The place of the module in the prompt.
    fn position(&self) -> (r: isize)
        ensures
            r == self.place(),
    ;
}

/// How often the prompt looks for modules to update where none says so.
#[derive(Clone, Copy, Debug, PartialEq, Eq, Structural)]
pub struct PromptConfig {
    /// In milliseconds.
    pub threshold: u64,
}

impl Default for PromptConfig {
    fn default() -> (r: PromptConfig)
        ensures
            r == (PromptConfig { threshold: 200 }),
    {
        PromptConfig { threshold: 200 }
    }
}

/// A module with what the prompt keeps of it.
pub struct ModuleEntry<M> {
    pub module: M,
    /// The text that the module computed last.
    pub cached: Option<Text>,
    /// When the module computed it, in milliseconds.
    pub last_update: u64,
    /// The module's place, as it was when the module was added.
    pub position: isize,
}

/// A module with what the prompt keeps of it, the text as characters.
pub struct Entry<M> {
    pub module: M,
    pub cached: Option<Seq<SegmentView>>,
    pub last_update: u64,
    pub position: isize,
}

impl<M> View for ModuleEntry<M> {
    type V = Entry<M>;

    open spec fn view(&self) -> Entry<M> {
        Entry {
            module: self.module,
            cached: styled_view(self.cached),
            last_update: self.last_update,
            position: self.position,
        }
    }
}

impl<M> ModuleEntry<M> {
    /// Keeps what the module has computed at `now`.
    pub fn store(&mut self, computed: Option<Text>, now: u64)
        ensures
            final(self)@ == (Entry {
                cached: styled_view(computed),
                last_update: now,
                ..old(self)@
            }),
    {
        self.cached = computed;
        self.last_update = now;
    }
}

/// What the prompt keeps of its modules, in their order.
pub open spec fn entries_view<M>(entries: Seq<ModuleEntry<M>>) -> Seq<Entry<M>> {
    entries.map_values(|e: ModuleEntry<M>| e@)
}

/// The blank that stands between the texts of two modules.
pub open spec fn gap() -> SegmentView {
    SegmentView { text: seq![' '], style: Style::plain() }
}

/// `prompt` with `text` behind it, after a blank unless `prompt` has no
/// character yet.
pub open spec fn joined(prompt: Seq<SegmentView>, text: Seq<SegmentView>) -> Seq<SegmentView> {
    if flat(prompt).len() > 0 {
        prompt.push(gap()) + text
    } else {
        prompt + text
    }
}

/// The prompt that the entries make up: the texts of those that have one, in
/// the order of the entries.
pub open spec fn composed<M>(entries: Seq<Entry<M>>) -> Seq<SegmentView>
    decreases entries.len(),
{
    if entries.len() == 0 {
        seq![]
    } else {
        match entries.last().cached {
            Some(text) => joined(composed(entries.drop_last()), text),
            None => composed(entries.drop_last()),
        }
    }
}

/// Whether the entries stand in the order of their positions.
pub open spec fn ordered<M>(entries: Seq<Entry<M>>) -> bool {
    forall|i: int, j: int|
        0 <= i <= j < entries.len() ==> (#[trigger] entries[i]).position <= (
        #[trigger] entries[j]).position
}

/// The number of leading entries whose position is not beyond `position`:
/// where a new entry of that position goes, behind all that are its equals.
pub open spec fn slot<M>(entries: Seq<Entry<M>>, position: isize) -> int
    decreases entries.len(),
{
    if entries.len() == 0 || entries[0].position > position {
        0
    } else {
        1 + slot(entries.drop_first(), position)
    }
}

/// The time that has gone by at `now` since `then`: none where the clock
/// has gone back.
pub open spec fn elapsed(now: u64, then: u64) -> u64 {
    if now >= then {
        (now - then) as u64
    } else {
        0
    }
}

/// The intervals that the modules of the entries have, in their order.
pub open spec fn intervals_of<M: PromptModule>(entries: Seq<Entry<M>>) -> Seq<Option<u64>> {
    entries.map_values(|e: Entry<M>| e.module.interval())
}

/// Whether the module of an entry is due at `now`.
pub open spec fn due_entry<M: PromptModule>(e: Entry<M>, wd_changed: bool, now: u64) -> bool {
    due(e.module.interval(), elapsed(now, e.last_update), e.module.wants(wd_changed))
}

/// Whether the module of an entry is computed again on a request to update.
pub open spec fn asked_entry<M: PromptModule>(e: Entry<M>, force: bool, wd_changed: bool) -> bool {
    force || e.module.wants(wd_changed)
}

/// Whether a module is due: it says so itself, or it has an interval and
/// more time than that has gone by since it was last computed.
pub open spec fn due(interval: Option<u64>, elapsed: u64, wanted: bool) -> bool {
    wanted || match interval {
        Some(t) => elapsed > t,
        None => false,
    }
}

/// The shortest of the intervals that there are.
pub open spec fn shortest(intervals: Seq<Option<u64>>) -> Option<u64>
    decreases intervals.len(),
{
    if intervals.len() == 0 {
        None
    } else {
        match (shortest(intervals.drop_last()), intervals.last()) {
            (Some(a), Some(b)) => if a <= b {
                Some(a)
            } else {
                Some(b)
            },
            (Some(a), None) => Some(a),
            (None, b) => b,
        }
    }
}

/// The time to wait before the modules are looked at again: the shortest of
/// the modules' intervals, but not less than `floor`, and `floor` where no
/// module has an interval.
pub open spec fn wake_after(floor: u64, intervals: Seq<Option<u64>>) -> u64 {
    match shortest(intervals) {
        Some(t) => if t < floor {
            floor
        } else {
            t
        },
        None => floor,
    }
}

/// Whether a module is due.
pub fn is_due(interval: Option<u64>, elapsed: u64, wanted: bool) -> (r: bool)
    ensures
        r == due(interval, elapsed, wanted),
{
    wanted || match interval {
        Some(t) => elapsed > t,
        None => false,
    }
}

/// The time to wait before the modules are looked at again.
pub fn wake_threshold(floor: u64, intervals: &Vec<Option<u64>>) -> (r: u64)
    ensures
        r == wake_after(floor, intervals@),
{
    let mut least: Option<u64> = None;
    let mut k: usize = 0;
    assert(intervals@.take(0) =~= Seq::<Option<u64>>::empty());
    while k < intervals.len()
        invariant
            k <= intervals.len(),
            least == shortest(intervals@.take(k as int)),
        decreases intervals.len() - k,
    {
        assert(intervals@.take(k + 1).drop_last() =~= intervals@.take(k as int));
        assert(intervals@.take(k + 1).last() == intervals[k as int]);
        least = match (least, intervals[k]) {
            (Some(a), Some(b)) => if a <= b {
                Some(a)
            } else {
                Some(b)
            },
            (Some(a), None) => Some(a),
            (None, b) => b,
        };
        k += 1;
    }
    assert(intervals@.take(k as int) =~= intervals@);
    match least {
        Some(t) => if t < floor {
            floor
        } else {
            t
        },
        None => floor,
    }
}

/// Appends the text of a module to the prompt, after a blank unless the
/// prompt has no character yet.
pub fn push_module_text(prompt: &mut Text, text: &Text)
    ensures
        final(prompt)@ == joined(old(prompt)@, text@),
{
    if !prompt.is_blank() {
        let blank = TextSegment::plain(" ");
        proof {
            reveal_strlit(" ");
            assert(blank@.text =~= seq![' ']);
        }
        prompt.push(blank);
    }
    prompt.extend(text);
}

/// The prompt and its modules.
pub struct Prompt<M: PromptModule> {
    modules: Vec<ModuleEntry<M>>,
    config: PromptConfig,
    last_prompt: Text,
}

/// The prompt, by what it keeps.
pub struct PromptState<M> {
    pub entries: Seq<Entry<M>>,
    pub config: PromptConfig,
    /// The prompt as it was published last.
    pub published: Seq<SegmentView>,
}

impl<M: PromptModule> View for Prompt<M> {
    type V = PromptState<M>;

    closed spec fn view(&self) -> PromptState<M> {
        PromptState {
            entries: entries_view(self.modules@),
            config: self.config,
            published: self.last_prompt@,
        }
    }
}

/// What modules have computed, as characters: for each module that was
/// computed again its text, or that it has none.
pub open spec fn computed_view(computed: Seq<Option<Option<Text>>>) -> Seq<
    Option<Option<Seq<SegmentView>>>,
> {
    computed.map_values(
        |c: Option<Option<Text>>|
            match c {
                Some(text) => Some(styled_view(text)),
                None => None,
            },
    )
}

/// Whether any module was computed again.
pub open spec fn any_computed(computed: Seq<Option<Option<Seq<SegmentView>>>>) -> bool {
    exists|i: int| 0 <= i < computed.len() && (#[trigger] computed[i]).is_some()
}

impl<M> PromptState<M> {
    /// Whether the entries stand in the order of their positions.
    pub open spec fn wf(self) -> bool {
        ordered(self.entries)
    }

    /// The prompt with `module` added at `position`, with no text yet: behind
    /// the modules that are at that position already.
    pub open spec fn with_module(self, module: M, position: isize, now: u64) -> PromptState<M> {
        PromptState {
            entries: self.entries.insert(
                slot(self.entries, position),
                Entry { module, cached: None, last_update: now, position },
            ),
            ..self
        }
    }

    /// The entries once they have taken in what was computed at `now`: an
    /// entry whose module was computed again keeps the new text and the
    /// time, any other entry is as it was.
    pub open spec fn taken(
        self,
        computed: Seq<Option<Option<Seq<SegmentView>>>>,
        now: u64,
    ) -> Seq<Entry<M>> {
        Seq::new(
            self.entries.len(),
            |i: int|
                match computed[i] {
                    Some(cached) => Entry { cached, last_update: now, ..self.entries[i] },
                    None => self.entries[i],
                },
        )
    }

    /// The prompt once it has taken in what was computed at `now`: where a
    /// module was computed again, the entries keep what was computed and the
    /// prompt that they make up is published; else nothing changes.
    pub open spec fn settled(
        self,
        computed: Seq<Option<Option<Seq<SegmentView>>>>,
        now: u64,
    ) -> PromptState<M> {
        if any_computed(computed) {
            PromptState {
                entries: self.taken(computed, now),
                published: composed(self.taken(computed, now)),
                config: self.config,
            }
        } else {
            self
        }
    }
}

impl<M: PromptModule> PromptState<M> {
    /// Whether `later` is this prompt after each module that `chosen` picks
    /// was computed again at `now`, and no other: an entry that was picked
    /// has the time `now` and is in its place, with whatever its module has
    /// computed and has become; any other entry is as it was.
    pub open spec fn computed_again(
        self,
        later: PromptState<M>,
        chosen: Seq<bool>,
        now: u64,
    ) -> bool {
        &&& later.config == self.config
        &&& later.entries.len() == self.entries.len()
        &&& forall|i: int|
            0 <= i < self.entries.len() ==> if chosen[i] {
                &&& (#[trigger] later.entries[i]).last_update == now
                &&& later.entries[i].position == self.entries[i].position
            } else {
                later.entries[i] == self.entries[i]
            }
    }

    /// For each entry, whether its module is computed again on a request to
    /// update: all are if the request forces it, else those that want it.
    pub open spec fn asked(self, force: bool, wd_changed: bool) -> Seq<bool> {
        self.entries.map_values(|e: Entry<M>| asked_entry(e, force, wd_changed))
    }

    /// For each entry, whether its module is due at `now`.
    pub open spec fn due_now(self, wd_changed: bool, now: u64) -> Seq<bool> {
        self.entries.map_values(|e: Entry<M>| due_entry(e, wd_changed, now))
    }
}

/// A new entry goes behind all entries whose position is not beyond its
/// own, and the order is kept.
pub proof fn lemma_slot_keeps_order<M>(entries: Seq<Entry<M>>, e: Entry<M>)
    requires
        ordered(entries),
    ensures
        0 <= slot(entries, e.position) <= entries.len(),
        forall|i: int| 0 <= i < slot(entries, e.position) ==> (#[trigger] entries[i]).position <= e.position,
        forall|i: int|
            slot(entries, e.position) <= i < entries.len() ==> (#[trigger] entries[i]).position
                > e.position,
        ordered(entries.insert(slot(entries, e.position), e)),
    decreases entries.len(),
{
    let k = slot(entries, e.position);
    if entries.len() == 0 || entries[0].position > e.position {
        assert forall|i: int| 0 <= i < entries.len() implies (#[trigger] entries[i]).position
            > e.position by {
            assert(entries[0].position <= entries[i].position);
        }
    } else {
        let rest = entries.drop_first();
        assert(ordered(rest)) by {
            assert forall|i: int, j: int| 0 <= i <= j < rest.len() implies (#[trigger] rest[i]).position
                <= (#[trigger] rest[j]).position by {
                assert(rest[i] == entries[i + 1]);
                assert(rest[j] == entries[j + 1]);
            }
        }
        lemma_slot_keeps_order(rest, e);
        assert forall|i: int| 0 <= i < k implies (#[trigger] entries[i]).position
            <= e.position by {
            if i > 0 {
                assert(entries[i] == rest[i - 1]);
            }
        }
        assert forall|i: int| k <= i < entries.len() implies (#[trigger] entries[i]).position
            > e.position by {
            assert(entries[i] == rest[i - 1]);
        }
    }
    let all = entries.insert(k, e);
    assert forall|i: int, j: int| 0 <= i <= j < all.len() implies (#[trigger] all[i]).position
        <= (#[trigger] all[j]).position by {
        if i < k {
            assert(all[i] == entries[i]);
        } else if i > k {
            assert(all[i] == entries[i - 1]);
        }
        if j < k {
            assert(all[j] == entries[j]);
        } else if j > k {
            assert(all[j] == entries[j - 1]);
        }
    }
}

/// Entries that differ from ordered ones in nothing but what was computed
/// are ordered.
proof fn lemma_same_places<M>(before: Seq<Entry<M>>, after: Seq<Entry<M>>)
    requires
        ordered(before),
        after.len() == before.len(),
        forall|i: int| 0 <= i < before.len() ==> (#[trigger] after[i]).position == before[i].position,
    ensures
        ordered(after),
{
    assert forall|a: int, b: int| 0 <= a <= b < after.len() implies (#[trigger] after[a]).position
        <= (#[trigger] after[b]).position by {
        assert(before[a].position <= before[b].position);
    }
}

impl<M: PromptModule> Prompt<M> {
    /// A prompt without modules.
    pub fn new(config: PromptConfig) -> (r: Prompt<M>)
        ensures
            r@ == (PromptState::<M> { entries: Seq::empty(), config, published: Seq::empty() }),
            r@.wf(),
    {
        let r = Prompt { modules: Vec::new(), config, last_prompt: Text::empty() };
        assert(r@.entries =~= Seq::<Entry<M>>::empty());
        r
    }

    /// The prompt as it was published last.
    pub fn prompt(&self) -> (r: &Text)
        ensures
            r@ == self@.published,
    {
        &self.last_prompt
    }

    /// The number of modules.
    pub fn len(&self) -> (n: usize)
        ensures
            n == self@.entries.len(),
    {
        self.modules.len()
    }

    /// Adds a module at `position`, with no text yet: behind the modules
    /// that are at that position already, so that modules of one position
    /// stand in the order in which they were added.
    pub fn add_module_at(&mut self, module: M, position: isize, now: u64)
        requires
            old(self)@.wf(),
        ensures
            final(self)@ == old(self)@.with_module(module, position, now),
            final(self)@.wf(),
    {
        let ghost entries = self@.entries;
        let ghost entry = Entry { module, cached: None, last_update: now, position };
        let mut k: usize = 0;
        assert(entries.skip(0) =~= entries);
        while k < self.modules.len() && self.modules[k].position <= position
            invariant
                k <= self.modules.len(),
                entries == entries_view(self.modules@),
                slot(entries, position) == k + slot(entries.skip(k as int), position),
            decreases self.modules.len() - k,
        {
            assert(entries.skip(k as int)[0] == entries[k as int]);
            assert(entries.skip(k as int).drop_first() =~= entries.skip(k + 1));
            k += 1;
        }
        proof {
            if k < self.modules.len() {
                assert(entries.skip(k as int)[0] == entries[k as int]);
            }
            lemma_slot_keeps_order(entries, entry);
        }
        self.modules.insert(
            k,
            ModuleEntry { module, cached: None, last_update: now, position },
        );
        assert(self@.entries =~= entries.insert(k as int, entry));
    }

    /// Adds a module at the place that it has.
    pub fn add_module(&mut self, module: M, now: u64)
        requires
            old(self)@.wf(),
        ensures
            final(self)@ == old(self)@.with_module(module, module.place(), now),
            final(self)@.wf(),
    {
        let position = module.position();
        self.add_module_at(module, position, now);
    }

    /// The prompt that the modules' texts make up.
    pub fn compose(&self) -> (r: Text)
        ensures
            r@ == composed(self@.entries),
    {
        let mut prompt = Text::empty();
        let mut i: usize = 0;
        let ghost entries = self@.entries;
        assert(entries.take(0) =~= Seq::<Entry<M>>::empty());
        while i < self.modules.len()
            invariant
                i <= self.modules.len(),
                entries == entries_view(self.modules@),
                prompt@ == composed(entries.take(i as int)),
            decreases self.modules.len() - i,
        {
            assert(entries.take(i + 1).drop_last() =~= entries.take(i as int));
            assert(entries.take(i + 1).last() == self.modules@[i as int]@);
            match &self.modules[i].cached {
                Some(text) => {
                    push_module_text(&mut prompt, text);
                },
                None => {},
            }
            i += 1;
        }
        assert(entries.take(i as int) =~= entries);
        prompt
    }

    /// The time to wait before the modules are looked at again: the
    /// shortest of the intervals that the modules have, but not less than
    /// the configured one.
    pub fn threshold(&self) -> (r: u64)
        ensures
            r == wake_after(self@.config.threshold, intervals_of(self@.entries)),
    {
        let ghost all = intervals_of(self@.entries);
        let mut intervals: Vec<Option<u64>> = Vec::new();
        let mut i: usize = 0;
        assert(intervals@ =~= all.take(0));
        while i < self.modules.len()
            invariant
                i <= self.modules.len(),
                all == intervals_of(self@.entries),
                intervals@ == all.take(i as int),
            decreases self.modules.len() - i,
        {
            intervals.push(self.modules[i].module.update_threshold());
            assert(intervals@ =~= all.take(i + 1));
            i += 1;
        }
        assert(all.take(i as int) =~= all);
        wake_threshold(self.config.threshold, &intervals)
    }

    /// Answers a request to update: computes every module again that is
    /// forced or wants it, and publishes the prompt.
    pub fn update(&mut self, force: bool, wd_changed: bool, now: u64) -> (r: Text)
        requires
            old(self)@.wf(),
        ensures
            old(self)@.computed_again(final(self)@, old(self)@.asked(force, wd_changed), now),
            r@ == composed(final(self)@.entries),
            final(self)@.published == r@,
            final(self)@.wf(),
    {
        let ghost before = self@;
        let ghost chosen = before.asked(force, wd_changed);
        let mut i: usize = 0;
        while i < self.modules.len()
            invariant
                i <= self.modules.len(),
                self@.config == before.config,
                self@.published == before.published,
                self@.entries.len() == before.entries.len(),
                chosen == before.asked(force, wd_changed),
                forall|k: int|
                    0 <= k < i ==> if chosen[k] {
                        &&& (#[trigger] self@.entries[k]).last_update == now
                        &&& self@.entries[k].position == before.entries[k].position
                    } else {
                        self@.entries[k] == before.entries[k]
                    },
                forall|k: int| i <= k < self.modules.len() ==> (#[trigger] self@.entries[k]) == before.entries[k],
            decreases self.modules.len() - i,
        {
            let ghost entries = self.modules@;
            let ghost start = self@.entries;
            let asked = force || self.modules[i].module.should_update(wd_changed);
            assert(asked == chosen[i as int]) by {
                assert(start[i as int] == before.entries[i as int]);
            }
            if asked {
                let computed = self.modules[i].module.compute();
                self.modules[i].store(computed, now);
                assert(self@.entries[i as int].last_update == now);
            } else {
                assert(self@.entries[i as int] == start[i as int]);
            }
            assert(forall|k: int| 0 <= k < entries.len() && k != i ==> self.modules@[k] == entries[k]);
            assert(self@.entries[i as int].position == start[i as int].position);
            assert forall|k: int| 0 <= k < self.modules.len() && k != i implies (
            #[trigger] self@.entries[k]) == start[k] by {
                assert(self.modules@[k] == entries[k]);
            }
            i += 1;
        }
        let prompt = self.compose();
        self.last_prompt = prompt.clone();
        proof {
            lemma_same_places(before.entries, self@.entries);
        }
        prompt
    }

    /// Takes in what modules have computed at `now`: `computed` holds for
    /// each module, in the order of the entries, its answer if it was
    /// computed again. Where one was, the prompt that the entries now make
    /// up is published and returned.
    pub fn settle(&mut self, computed: Vec<Option<Option<Text>>>, now: u64) -> (r: Option<Text>)
        requires
            old(self)@.wf(),
            computed.len() == old(self)@.entries.len(),
        ensures
            final(self)@ == old(self)@.settled(computed_view(computed@), now),
            final(self)@.wf(),
            match r {
                Some(prompt) => any_computed(computed_view(computed@)) && prompt@ == composed(
                    old(self)@.taken(computed_view(computed@), now),
                ),
                None => !any_computed(computed_view(computed@)),
            },
    {
        let ghost before = self@;
        let ghost all = computed_view(computed@);
        let mut computed = computed;
        let mut late = false;
        let mut i: usize = computed.len();
        while i > 0
            invariant
                i == computed.len(),
                i <= self.modules.len(),
                self.modules.len() == before.entries.len(),
                all.len() == before.entries.len(),
                computed_view(computed@) == all.take(i as int),
                self@.config == before.config,
                self@.published == before.published,
                forall|k: int| 0 <= k < i ==> (#[trigger] self@.entries[k]) == before.entries[k],
                forall|k: int|
                    i <= k < before.entries.len() ==> (#[trigger] self@.entries[k])
                        == before.taken(all, now)[k],
                late == (exists|k: int| i <= k < all.len() && (#[trigger] all[k]).is_some()),
            decreases i,
        {
            let ghost held = computed@;
            let ghost entries = self.modules@;
            let ghost kept = self@.entries;
            let answer = computed.pop();
            i -= 1;
            assert(computed_view(computed@) =~= all.take(i as int));
            assert(all[i as int] == all.take(i + 1)[i as int]);
            assert(all[i as int] == computed_view(held)[i as int]);
            assert(answer == Some(held[i as int]));
            match answer {
                Some(Some(text)) => {
                    self.modules[i].store(text, now);
                    assert(forall|k: int|
                        0 <= k < entries.len() && k != i ==> self.modules@[k] == entries[k]);
                    assert(all[i as int] == Some(styled_view(text)));
                    late = true;
                },
                _ => {
                    assert(all[i as int].is_none());
                },
            }
            assert forall|k: int| 0 <= k < self.modules.len() && k != i implies (
            #[trigger] self@.entries[k]) == kept[k] by {
                assert(self.modules@[k] == entries[k]);
            }
            assert(kept[i as int] == before.entries[i as int]);
            assert(kept[i as int] == entries[i as int]@);
            assert(self@.entries[i as int] == self.modules@[i as int]@);
            assert(self@.entries[i as int] == before.taken(all, now)[i as int]);
        }
        proof {
            assert(self@.entries =~= before.taken(all, now));
            assert(late == any_computed(all));
            if !late {
                assert(self@.entries =~= before.entries);
            }
            lemma_same_places(before.entries, self@.entries);
        }
        if late {
            let prompt = self.compose();
            self.last_prompt = prompt.clone();
            Some(prompt)
        } else {
            None
        }
    }

    /// Looks at each module when the wait is over: computes every module
    /// again that is due, and publishes the prompt if there was one.
    /// Returns the new prompt then, for which nobody has asked.
    pub fn check_updates(&mut self, wd_changed: bool, now: u64) -> (r: Option<Text>)
        requires
            old(self)@.wf(),
        ensures
            old(self)@.computed_again(final(self)@, old(self)@.due_now(wd_changed, now), now),
            final(self)@.wf(),
            r.is_some() == (exists|i: int|
                0 <= i < old(self)@.entries.len() && due_entry(
                    #[trigger] old(self)@.entries[i],
                    wd_changed,
                    now,
                )),
            match r {
                Some(prompt) => prompt@ == composed(final(self)@.entries) && final(self)@.published
                    == prompt@,
                None => final(self)@ == old(self)@,
            },
    {
        let ghost before = self@;
        let ghost chosen = before.due_now(wd_changed, now);
        let mut computed: Vec<Option<Option<Text>>> = Vec::new();
        let mut i: usize = 0;
        while i < self.modules.len()
            invariant
                i <= self.modules.len(),
                computed.len() == i,
                self@.config == before.config,
                self@.published == before.published,
                self@.entries.len() == before.entries.len(),
                chosen == before.due_now(wd_changed, now),
                forall|k: int| 0 <= k < i ==> (#[trigger] computed@[k]).is_some() == chosen[k],
                forall|k: int|
                    0 <= k < self.modules.len() ==> (#[trigger] self@.entries[k]).position
                        == before.entries[k].position,
                forall|k: int|
                    0 <= k < i && !chosen[k] ==> (#[trigger] self@.entries[k]) == before.entries[k],
                forall|k: int| i <= k < self.modules.len() ==> (#[trigger] self@.entries[k]) == before.entries[k],
            decreases self.modules.len() - i,
        {
            let ghost entries = self.modules@;
            let ghost start = self@.entries;
            let ghost held = computed@;
            assert(start[i as int] == before.entries[i as int]);
            let interval = self.modules[i].module.update_threshold();
            let wanted = self.modules[i].module.should_update(wd_changed);
            let gone = now.saturating_sub(self.modules[i].last_update);
            let is_due = is_due(interval, gone, wanted);
            assert(is_due == chosen[i as int]);
            if is_due {
                let answer = self.modules[i].module.compute();
                computed.push(Some(answer));
            } else {
                computed.push(None);
            }
            assert(forall|k: int| 0 <= k < entries.len() && k != i ==> self.modules@[k] == entries[k]);
            assert(self@.entries[i as int].position == start[i as int].position);
            assert(!is_due ==> self@.entries[i as int] == start[i as int]);
            assert forall|k: int| 0 <= k < self.modules.len() && k != i implies (
            #[trigger] self@.entries[k]) == start[k] by {
                assert(self.modules@[k] == entries[k]);
            }
            assert(forall|k: int| 0 <= k < i ==> computed@[k] == held[k]);
            i += 1;
        }
        let ghost mid = self@;
        let ghost all = computed_view(computed@);
        assert(forall|k: int| 0 <= k < all.len() ==> (#[trigger] all[k]).is_some() == chosen[k]) by {
            assert forall|k: int| 0 <= k < all.len() implies (#[trigger] all[k]).is_some()
                == chosen[k] by {
                assert(computed@[k].is_some() == chosen[k]);
            }
        }
        proof {
            lemma_same_places(before.entries, mid.entries);
        }
        let r = self.settle(computed, now);
        proof {
            let due_some = exists|i: int|
                0 <= i < before.entries.len() && due_entry(
                    #[trigger] before.entries[i],
                    wd_changed,
                    now,
                );
            if any_computed(all) {
                let k = choose|k: int| 0 <= k < all.len() && (#[trigger] all[k]).is_some();
                assert(chosen[k]);
                assert(due_entry(before.entries[k], wd_changed, now));
            }
            if due_some {
                let k = choose|i: int|
                    0 <= i < before.entries.len() && due_entry(
                        #[trigger] before.entries[i],
                        wd_changed,
                        now,
                    );
                assert(chosen[k]);
                assert(all[k].is_some());
            }
            if !any_computed(all) {
                assert(mid.entries =~= before.entries);
            }
        }
        r
    }
}

} // verus!
