use line_editor::prompt::{
    is_due, push_module_text, wake_threshold, ModuleEntry, Prompt, PromptConfig, PromptModule,
};
use line_editor::style::{Color, Style, StyleFlags};
use line_editor::ui::{Text, TextSegment};

/// A module that shows its name and how often it was computed.
struct Counter {
    name: &'static str,
    position: isize,
    interval: Option<u64>,
    on_wd_change: bool,
    shown: bool,
    computed: u32,
}

impl Counter {
    fn new(name: &'static str, position: isize) -> Counter {
        Counter { name, position, interval: None, on_wd_change: false, shown: true, computed: 0 }
    }
}

impl PromptModule for Counter {
    fn interval(&self) -> Option<u64> {
        self.interval
    }

    fn wants(&self, wd_changed: bool) -> bool {
        self.on_wd_change && wd_changed
    }

    fn place(&self) -> isize {
        self.position
    }

    fn compute(&mut self) -> Option<Text> {
        self.computed += 1;
        if self.shown {
            Some(Text::plain(&format!("{}{}", self.name, self.computed)))
        } else {
            None
        }
    }

    fn should_update(&self, wd_changed: bool) -> bool {
        self.wants(wd_changed)
    }

    fn update_threshold(&self) -> Option<u64> {
        self.interval()
    }

    fn position(&self) -> isize {
        self.place()
    }
}

fn shown(text: &Text) -> String {
    text.segments().iter().map(|s| s.text.as_str()).collect()
}

fn prompt(modules: Vec<Counter>) -> Prompt<Counter> {
    let mut p = Prompt::new(PromptConfig::default());
    for m in modules {
        p.add_module(m, 0);
    }
    p
}

#[test]
fn the_default_threshold() {
    assert_eq!(PromptConfig::default(), PromptConfig { threshold: 200 });
}

#[test]
fn a_new_prompt_is_empty() {
    let p: Prompt<Counter> = Prompt::new(PromptConfig { threshold: 50 });
    assert_eq!(p.len(), 0);
    assert_eq!(p.prompt(), &Text::empty());
    assert_eq!(p.compose(), Text::empty());
    assert_eq!(p.threshold(), 50);
}

#[test]
fn modules_stand_in_the_order_of_their_positions() {
    let mut p = prompt(vec![
        Counter::new("c", 5),
        Counter::new("a", -1),
        Counter::new("z", isize::MAX),
        Counter::new("b", 0),
    ]);
    assert_eq!(p.len(), 4);
    assert_eq!(shown(&p.update(true, false, 10)), "a1 b1 c1 z1");
}

#[test]
fn modules_of_one_position_stand_as_they_were_added() {
    let mut p = prompt(vec![
        Counter::new("x", 1),
        Counter::new("first", 0),
        Counter::new("second", 0),
        Counter::new("third", 0),
    ]);
    assert_eq!(shown(&p.update(true, false, 10)), "first1 second1 third1 x1");
    let mut p: Prompt<Counter> = Prompt::new(PromptConfig::default());
    p.add_module_at(Counter::new("b", 9), 2, 0);
    p.add_module_at(Counter::new("a", 9), 1, 0);
    p.add_module_at(Counter::new("c", 9), 2, 0);
    assert_eq!(shown(&p.update(true, false, 10)), "a1 b1 c1");
}

#[test]
fn modules_without_text_are_left_out() {
    let mut hidden = Counter::new("h", 1);
    hidden.shown = false;
    let mut p = prompt(vec![Counter::new("a", 0), hidden, Counter::new("b", 2)]);
    let text = p.update(true, false, 10);
    assert_eq!(shown(&text), "a1 b1");
    assert_eq!(
        text.segments(),
        &vec![TextSegment::plain("a1"), TextSegment::plain(" "), TextSegment::plain("b1")]
    );
    assert_eq!(p.prompt(), &text);
}

#[test]
fn an_update_computes_what_is_forced_or_wants_it() {
    let mut on_wd = Counter::new("wd", 1);
    on_wd.on_wd_change = true;
    let mut p = prompt(vec![Counter::new("a", 0), on_wd]);
    assert_eq!(shown(&p.update(false, false, 10)), "");
    assert_eq!(shown(&p.update(false, true, 20)), "wd1");
    assert_eq!(shown(&p.update(true, false, 30)), "a1 wd2");
    assert_eq!(shown(&p.update(false, false, 40)), "a1 wd2");
    assert_eq!(shown(p.prompt()), "a1 wd2");
}

#[test]
fn a_check_computes_what_is_due() {
    let mut timed = Counter::new("t", 0);
    timed.interval = Some(100);
    let mut on_wd = Counter::new("wd", 1);
    on_wd.on_wd_change = true;
    let mut p = prompt(vec![timed, on_wd, Counter::new("never", 2)]);
    assert_eq!(p.check_updates(false, 100), None);
    assert_eq!(shown(p.prompt()), "");
    assert_eq!(p.check_updates(false, 101).map(|t| shown(&t)), Some("t1".to_string()));
    assert_eq!(shown(p.prompt()), "t1");
    assert_eq!(p.check_updates(false, 201), None);
    assert_eq!(p.check_updates(true, 201).map(|t| shown(&t)), Some("t1 wd1".to_string()));
    assert_eq!(p.check_updates(true, 202).map(|t| shown(&t)), Some("t2 wd2".to_string()));
    // A clock that went back makes nothing due.
    assert_eq!(p.check_updates(false, 5), None);
}

#[test]
fn due_by_wish_or_by_time() {
    assert!(is_due(None, 0, true));
    assert!(!is_due(None, u64::MAX, false));
    assert!(!is_due(Some(10), 10, false));
    assert!(is_due(Some(10), 11, false));
    assert!(is_due(Some(10), 0, true));
}

#[test]
fn the_wait_is_the_shortest_interval_but_not_below_the_floor() {
    assert_eq!(wake_threshold(200, &vec![]), 200);
    assert_eq!(wake_threshold(200, &vec![None, None]), 200);
    assert_eq!(wake_threshold(200, &vec![Some(500), None, Some(300)]), 300);
    assert_eq!(wake_threshold(200, &vec![Some(500), Some(50)]), 200);
    assert_eq!(wake_threshold(200, &vec![Some(200)]), 200);
    assert_eq!(wake_threshold(0, &vec![Some(7), Some(9)]), 7);
}

#[test]
fn the_prompt_waits_by_its_modules() {
    let mut slow = Counter::new("s", 0);
    slow.interval = Some(1000);
    let mut slower = Counter::new("t", 1);
    slower.interval = Some(5000);
    let p = prompt(vec![slow, Counter::new("n", 2), slower]);
    assert_eq!(p.threshold(), 1000);
    let mut quick = Counter::new("q", 0);
    quick.interval = Some(10);
    assert_eq!(prompt(vec![quick]).threshold(), 200);
    assert_eq!(prompt(vec![Counter::new("n", 0)]).threshold(), 200);
}

#[test]
fn module_texts_are_joined_with_a_blank() {
    let red = Style { fg: Some(Color::Red), bg: None, flags: StyleFlags::empty() };
    let mut p = Text::empty();
    push_module_text(&mut p, &Text::styled("a", red));
    assert_eq!(p, Text::styled("a", red));
    push_module_text(&mut p, &Text::plain("b"));
    assert_eq!(
        p.segments(),
        &vec![TextSegment::styled("a", red), TextSegment::plain(" "), TextSegment::plain("b")]
    );
    let mut p = Text::plain("");
    push_module_text(&mut p, &Text::plain("b"));
    assert_eq!(p.segments(), &vec![TextSegment::plain(""), TextSegment::plain("b")]);
}

#[test]
fn an_entry_keeps_what_was_computed() {
    let mut e = ModuleEntry { module: (), cached: None, last_update: 3, position: -2 };
    e.store(Some(Text::plain("a")), 9);
    assert_eq!((e.cached.clone(), e.last_update, e.position), (Some(Text::plain("a")), 9, -2));
    e.store(None, 12);
    assert_eq!((e.cached, e.last_update, e.position), (None, 12, -2));
}

#[test]
fn computed_texts_are_taken_in_and_published() {
    let mut p = prompt(vec![Counter::new("a", 0), Counter::new("b", 1), Counter::new("c", 2)]);
    assert_eq!(p.settle(vec![None, None, None], 5), None);
    assert_eq!(shown(p.prompt()), "");
    let got = p.settle(vec![Some(Some(Text::plain("x"))), None, Some(Some(Text::plain("z")))], 6);
    assert_eq!(got.map(|t| shown(&t)), Some("x z".to_string()));
    assert_eq!(shown(p.prompt()), "x z");
    // A module that was computed again and has no text is left out; the
    // others keep what they had.
    let got = p.settle(vec![Some(None), Some(Some(Text::plain("y"))), None], 7);
    assert_eq!(got.map(|t| shown(&t)), Some("y z".to_string()));
    assert_eq!(shown(p.prompt()), "y z");
    assert_eq!(p.settle(vec![None, None, None], 8), None);
    assert_eq!(shown(p.prompt()), "y z");
}
