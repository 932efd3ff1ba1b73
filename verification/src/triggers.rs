//! The trigger list: markdown headings name sections, list items are triggers.
use vstd::prelude::*;

use crate::text::{
    chars_of, copy_string, is_digit_char,
    lines, lines_of_str, opt_text, owned, seqs, slice, starts_with, starts_with_chars, string_of,
    strs, trim, trim_chars,
};

use crate::ui::Key;

verus! {

/// One trigger of the list, with the section it stands in.
#[derive(Debug, Clone)]
pub struct TriggerItem {
    pub section: String,
    pub text: String,
}

pub open spec fn trigger_views(v: Seq<TriggerItem>) -> Seq<(Seq<char>, Seq<char>)> {
    v.map_values(|t: TriggerItem| (t.section@, t.text@))
}

pub open spec fn section_views(v: Seq<(String, Vec<String>)>) -> Seq<(Seq<char>, Seq<Seq<char>>)> {
    v.map_values(|p: (String, Vec<String>)| (p.0@, strs(p.1@)))
}

/// What `str::trim_start_matches('#')` returns.
pub open spec fn strip_hashes(s: Seq<char>) -> Seq<char>
    decreases s.len(),
{
    if s.len() > 0 && s[0] == '#' {
        strip_hashes(s.drop_first())
    } else {
        s
    }
}

/// The section name that a trimmed line starting with `#` gives, if any.
pub open spec fn trigger_heading(s: Seq<char>) -> Option<Seq<char>> {
    if s.len() > 0 && s[0] == '#' && trim(strip_hashes(s)).len() > 0 {
        Some(trim(strip_hashes(s)))
    } else {
        None
    }
}

/// How many ASCII digits a text starts with.
pub open spec fn digit_run(s: Seq<char>) -> nat
    decreases s.len(),
{
    if s.len() > 0 && crate::text::is_digit(s[0]) {
        1 + digit_run(s.drop_first())
    } else {
        0
    }
}

/// The text of a numbered item: one or more ASCII digits, then `.` or `)`,
/// then the text (trimmed).
pub open spec fn numbered_item(s: Seq<char>) -> Option<Seq<char>> {
    let d = digit_run(s) as int;
    if d > 0 && d < s.len() && (s[d] == '.' || s[d] == ')') {
        Some(trim(s.skip(d + 1)))
    } else {
        None
    }
}

/// The item text that a trimmed line holds: `- x`, `* x`, `\u{2022} x`, `1. x` or `1) x`.
pub open spec fn trigger_item_text(s: Seq<char>) -> Option<Seq<char>> {
    if starts_with(s, "- "@) {
        Some(s.skip("- "@.len() as int))
    } else if starts_with(s, "* "@) {
        Some(s.skip("* "@.len() as int))
    } else if starts_with(s, seq!['\u{2022}', ' ']) {
        Some(s.skip(2))
    } else {
        numbered_item(s)
    }
}

/// The state of a reading of the trigger list.
pub struct TriggerScan {
    pub sections: Seq<(Seq<char>, Seq<Seq<char>>)>,
    pub current: Option<Seq<char>>,
    pub items: Seq<Seq<char>>,
}

pub open spec fn section_name(current: Option<Seq<char>>) -> Seq<char> {
    match current {
        Some(n) => n,
        None => "Untitled"@,
    }
}

pub open spec fn trigger_step(st: TriggerScan, line: Seq<char>) -> TriggerScan {
    let s = trim(line);
    match trigger_heading(s) {
        Some(h) => if st.current is Some || st.items.len() > 0 {
            TriggerScan {
                sections: st.sections.push((section_name(st.current), st.items)),
                current: Some(h),
                items: seq![],
            }
        } else {
            TriggerScan { sections: st.sections, current: Some(h), items: st.items }
        },
        None => match trigger_item_text(s) {
            Some(t) => TriggerScan {
                sections: st.sections,
                current: st.current,
                items: st.items.push(trim(t)),
            },
            None => st,
        },
    }
}

pub open spec fn trigger_scan(ls: Seq<Seq<char>>) -> TriggerScan
    decreases ls.len(),
{
    if ls.len() == 0 {
        TriggerScan { sections: seq![], current: None, items: seq![] }
    } else {
        trigger_step(trigger_scan(ls.drop_last()), ls.last())
    }
}

/// The sections of a trigger list: each heading with the items under it; items
/// before the first heading stand in a section named `Untitled`.
pub open spec fn trigger_sections(content: Seq<char>) -> Seq<(Seq<char>, Seq<Seq<char>>)> {
    let st = trigger_scan(lines(content));
    if st.current is Some || st.items.len() > 0 {
        st.sections.push((section_name(st.current), st.items))
    } else {
        st.sections
    }
}

/// Every item of every section, in order, with its section's name.
pub open spec fn flatten_sections(secs: Seq<(Seq<char>, Seq<Seq<char>>)>) -> Seq<
    (Seq<char>, Seq<char>),
>
    decreases secs.len(),
{
    if secs.len() == 0 {
        seq![]
    } else {
        flatten_sections(secs.drop_last()) + secs.last().1.map_values(
            |it: Seq<char>| (secs.last().0, it),
        )
    }
}

/// The triggers and sections of a trigger list; `None` when it holds no trigger.
pub open spec fn trigger_list(content: Seq<char>) -> Option<
    (Seq<(Seq<char>, Seq<char>)>, Seq<(Seq<char>, Seq<Seq<char>>)>),
> {
    let secs = trigger_sections(content);
    let triggers = flatten_sections(secs);
    if triggers.len() == 0 {
        None
    } else {
        Some((triggers, secs))
    }
}

fn strip_hashes_chars(v: &Vec<char>) -> (r: Vec<char>)
    ensures
        r@ == strip_hashes(v@),
{
    let mut i: usize = 0;
    assert(v@.skip(0) =~= v@);
    while i < v.len() && v[i] == '#'
        invariant
            i <= v.len(),
            strip_hashes(v@) == strip_hashes(v@.skip(i as int)),
        decreases v.len() - i,
    {
        assert(v@.skip(i as int).drop_first() =~= v@.skip(i + 1));
        i = i + 1;
    }
    slice(v, i, v.len())
}

fn trigger_heading_of(s: &Vec<char>) -> (r: Option<Vec<char>>)
    ensures
        match r {
            Some(h) => trigger_heading(s@) == Some(h@),
            None => trigger_heading(s@) is None,
        },
{
    if s.len() > 0 && s[0] == '#' {
        let h = trim_chars(&strip_hashes_chars(s));
        if h.len() > 0 {
            return Some(h);
        }
    }
    None
}

fn numbered_item_of(s: &Vec<char>) -> (r: Option<Vec<char>>)
    ensures
        match r {
            Some(t) => numbered_item(s@) == Some(t@),
            None => numbered_item(s@) is None,
        },
{
    let mut k: usize = 0;
    assert(s@.skip(0) =~= s@);
    while k < s.len() && is_digit_char(s[k])
        invariant
            k <= s.len(),
            digit_run(s@) == k + digit_run(s@.skip(k as int)),
        decreases s.len() - k,
    {
        assert(s@.skip(k as int).drop_first() =~= s@.skip(k + 1));
        k = k + 1;
    }
    assert(digit_run(s@) == k);
    if k > 0 && k < s.len() && (s[k] == '.' || s[k] == ')') {
        let rest = slice(s, k + 1, s.len());
        assert(rest@ =~= s@.skip(k + 1));
        Some(trim_chars(&rest))
    } else {
        None
    }
}

fn trigger_item_text_of(s: &Vec<char>) -> (r: Option<Vec<char>>)
    ensures
        match r {
            Some(t) => trigger_item_text(s@) == Some(t@),
            None => trigger_item_text(s@) is None,
        },
{
    let dash = chars_of("- ");
    let star = chars_of("* ");
    let bullet = vec!['\u{2022}', ' '];
    assert(bullet@ =~= seq!['\u{2022}', ' ']);
    if starts_with_chars(s, &dash) {
        return Some(slice(s, dash.len(), s.len()));
    }
    if starts_with_chars(s, &star) {
        return Some(slice(s, star.len(), s.len()));
    }
    if starts_with_chars(s, &bullet) {
        return Some(slice(s, 2, s.len()));
    }
    numbered_item_of(s)
}

fn section_name_of(current: &Option<String>) -> (r: String)
    ensures
        r@ == section_name(opt_text(*current)),
{
    match current {
        Some(n) => copy_string(n),
        None => owned("Untitled"),
    }
}

/// Reads a trigger list. Any heading starts a section; `- x`, `* x`,
/// `\u{2022} x`, `1. x` and `1) x` lines are triggers. `None` when the list
/// holds no trigger.
pub fn parse_trigger_list(content: &str) -> (r: Option<(Vec<TriggerItem>, Vec<(String, Vec<String>)>)>)
    ensures
        match r {
            Some((triggers, sections)) => trigger_list(content@) == Some(
                (trigger_views(triggers@), section_views(sections@)),
            ),
            None => trigger_list(content@) is None,
        },
{
    let ls = lines_of_str(content);
    let ghost lv = seqs(ls@);
    let mut sections: Vec<(String, Vec<String>)> = Vec::new();
    let mut current: Option<String> = None;
    let mut items: Vec<String> = Vec::new();
    let mut i: usize = 0;
    assert(lv.take(0) =~= seq![]);
    assert(section_views(sections@) =~= seq![]);
    assert(strs(items@) =~= seq![]);
    while i < ls.len()
        invariant
            i <= ls.len(),
            lv == seqs(ls@),
            lv == lines(content@),
            trigger_scan(lv.take(i as int)) == (TriggerScan {
                sections: section_views(sections@),
                current: opt_text(current),
                items: strs(items@),
            }),
        decreases ls.len() - i,
    {
        assert(lv.take(i + 1).drop_last() =~= lv.take(i as int));
        let s = trim_chars(&ls[i]);
        match trigger_heading_of(&s) {
            Some(h) => {
                if current.is_some() || items.len() > 0 {
                    let name = section_name_of(&current);
                    sections.push((name, items));
                    items = Vec::new();
                }
                current = Some(string_of(&h));
            },
            None => match trigger_item_text_of(&s) {
                Some(t) => {
                    let tt = trim_chars(&t);
                    items.push(string_of(&tt));
                },
                None => {},
            },
        }
        i = i + 1;
        assert(section_views(sections@) =~= trigger_scan(lv.take(i as int)).sections);
        assert(strs(items@) =~= trigger_scan(lv.take(i as int)).items);
    }
    assert(lv.take(ls.len() as int) =~= lv);
    if current.is_some() || items.len() > 0 {
        let name = section_name_of(&current);
        sections.push((name, items));
    }
    assert(section_views(sections@) =~= trigger_sections(content@));
    let ghost secs = section_views(sections@);
    let mut triggers: Vec<TriggerItem> = Vec::new();
    let mut k: usize = 0;
    while k < sections.len()
        invariant
            k <= sections.len(),
            secs == section_views(sections@),
            trigger_views(triggers@) == flatten_sections(secs.take(k as int)),
        decreases sections.len() - k,
    {
        assert(secs.take(k + 1).drop_last() =~= secs.take(k as int));
        let ghost before = trigger_views(triggers@);
        let ghost name = sections[k as int].0@;
        let ghost its = strs(sections[k as int].1@);
        let mut j: usize = 0;
        assert(its.take(0).map_values(|it: Seq<char>| (name, it)) =~= seq![]);
        assert(before + seq![] =~= before);
        while j < sections[k].1.len()
            invariant
                k < sections.len(),
                j <= sections[k as int].1.len(),
                secs == section_views(sections@),
                name == sections[k as int].0@,
                its == strs(sections[k as int].1@),
                trigger_views(triggers@) == before + its.take(j as int).map_values(
                    |it: Seq<char>| (name, it),
                ),
            decreases sections[k as int].1.len() - j,
        {
            let item = TriggerItem {
                section: copy_string(&sections[k].0),
                text: copy_string(&sections[k].1[j]),
            };
            let ghost prev = trigger_views(triggers@);
            triggers.push(item);
            assert(trigger_views(triggers@) =~= prev.push((name, its[j as int])));
            assert(its.take(j + 1).map_values(|it: Seq<char>| (name, it)) =~= its.take(
                j as int,
            ).map_values(|it: Seq<char>| (name, it)).push((name, its[j as int])));
            j = j + 1;
        }
        k = k + 1;
        assert(its.take(j as int) =~= secs.take(k as int).last().1);
        assert(trigger_views(triggers@) =~= flatten_sections(secs.take(k as int)));
    }
    assert(secs.take(sections.len() as int) =~= secs);
    if triggers.len() == 0 {
        None
    } else {
        Some((triggers, sections))
    }
}

// ── Every item line gives a trigger ─────────────────────────────────────

/// The texts of the list-item lines (`- x`, `* x`, `\u{2022} x`, `1. x`,
/// `1) x`) of a text, in order, whatever headings stand between them.
pub open spec fn item_line_texts(ls: Seq<Seq<char>>) -> Seq<Seq<char>>
    decreases ls.len(),
{
    if ls.len() == 0 {
        seq![]
    } else {
        let s = trim(ls.last());
        if trigger_heading(s) is None && trigger_item_text(s) is Some {
            item_line_texts(ls.drop_last()).push(trim(trigger_item_text(s)->0))
        } else {
            item_line_texts(ls.drop_last())
        }
    }
}

/// The texts of the triggers of some sections, in order.
pub open spec fn trigger_texts(secs: Seq<(Seq<char>, Seq<Seq<char>>)>) -> Seq<Seq<char>> {
    flatten_sections(secs).map_values(|p: (Seq<char>, Seq<char>)| p.1)
}

proof fn lemma_trigger_texts_push(secs: Seq<(Seq<char>, Seq<Seq<char>>)>, x: (Seq<char>, Seq<Seq<char>>))
    ensures
        trigger_texts(secs.push(x)) == trigger_texts(secs) + x.1,
{
    assert(secs.push(x).drop_last() =~= secs);
    assert(secs.push(x).last() == x);
    let a = flatten_sections(secs);
    let b = x.1.map_values(|it: Seq<char>| (x.0, it));
    assert((a + b).map_values(|p: (Seq<char>, Seq<char>)| p.1) =~= a.map_values(
        |p: (Seq<char>, Seq<char>)| p.1,
    ) + x.1);
}

proof fn lemma_trigger_scan_texts(ls: Seq<Seq<char>>)
    ensures
        trigger_texts(trigger_scan(ls).sections) + trigger_scan(ls).items == item_line_texts(ls),
    decreases ls.len(),
{
    if ls.len() == 0 {
        assert(trigger_texts(Seq::<(Seq<char>, Seq<Seq<char>>)>::empty()) =~= Seq::<Seq<char>>::empty());
        assert(Seq::<Seq<char>>::empty() + Seq::<Seq<char>>::empty() =~= Seq::<Seq<char>>::empty());
    } else {
        lemma_trigger_scan_texts(ls.drop_last());
        let st = trigger_scan(ls.drop_last());
        let s = trim(ls.last());
        match trigger_heading(s) {
            Some(h) => {
                if st.current is Some || st.items.len() > 0 {
                    lemma_trigger_texts_push(st.sections, (section_name(st.current), st.items));
                    assert(trigger_texts(st.sections) + st.items + Seq::<Seq<char>>::empty()
                        =~= trigger_texts(st.sections) + st.items);
                }
            },
            None => match trigger_item_text(s) {
                Some(t) => {
                    assert(trigger_texts(st.sections) + st.items.push(trim(t)) =~= (trigger_texts(st.sections)
                        + st.items).push(trim(t)));
                },
                None => {},
            },
        }
    }
}

/// Every list-item line of a trigger list gives one trigger, in order,
/// whether or not a heading comes before it (items before the first heading
/// stand in the section `Untitled`); the list reads as holding no trigger
/// exactly when it has no item line.
pub proof fn law_every_item_line_is_a_trigger(content: Seq<char>)
    ensures
        trigger_texts(trigger_sections(content)) == item_line_texts(lines(content)),
        trigger_list(content) is None <==> item_line_texts(lines(content)).len() == 0,
{
    let st = trigger_scan(lines(content));
    lemma_trigger_scan_texts(lines(content));
    if st.current is Some || st.items.len() > 0 {
        lemma_trigger_texts_push(st.sections, (section_name(st.current), st.items));
    } else {
        assert(st.items =~= Seq::<Seq<char>>::empty());
        assert(trigger_texts(st.sections) + st.items =~= trigger_texts(st.sections));
    }
}

// ── Walking through the list ────────────────────────────────────────────

/// A walk through the trigger list: the trigger shown, and whether the walk
/// has reached its end.
#[derive(Debug, Clone, Copy, PartialEq, Eq, Structural)]
pub struct TriggerWalk {
    pub index: usize,
    pub finished: bool,
}

/// What a key does to a walk over `count` triggers: the walk after it, and
/// whether the walk ends. Space, `l` and Enter go on (past the last trigger
/// to the end screen), `b`, `j` and Up go back, `b` on the end screen returns
/// to the last trigger, `q` and Ctrl-C quit, and any other key quits the end
/// screen.
pub open spec fn walk_next(w: TriggerWalk, key: Key, count: nat) -> (TriggerWalk, bool) {
    if key == Key::Char('q') || key == Key::CtrlC {
        (w, true)
    } else if key == Key::Char('b') && w.finished {
        (TriggerWalk { index: (count - 1) as usize, finished: false }, false)
    } else if w.finished {
        (w, true)
    } else if key == Key::Char('l') || key == Key::Char(' ') || key == Key::Enter {
        if w.index < count - 1 {
            (TriggerWalk { index: (w.index + 1) as usize, ..w }, false)
        } else {
            (TriggerWalk { finished: true, ..w }, false)
        }
    } else if key == Key::Char('b') || key == Key::Char('j') || key == Key::Up {
        if w.index > 0 {
            (TriggerWalk { index: (w.index - 1) as usize, ..w }, false)
        } else {
            (w, false)
        }
    } else {
        (w, false)
    }
}

impl TriggerWalk {
    /// A walk at the first trigger.
    pub fn new() -> (r: Self)
        ensures
            r.index == 0,
            !r.finished,
    {
        TriggerWalk { index: 0, finished: false }
    }

    /// Takes a key; returns whether the walk ends.
    pub fn key(&mut self, key: Key, count: usize) -> (quit: bool)
        requires
            count > 0,
        ensures
            (*final(self), quit) == walk_next(*old(self), key, count as nat),
    {
        if key == Key::Char('q') || key == Key::CtrlC {
            return true;
        }
        if key == Key::Char('b') && self.finished {
            self.index = count - 1;
            self.finished = false;
            return false;
        }
        if self.finished {
            return true;
        }
        if key == Key::Char('l') || key == Key::Char(' ') || key == Key::Enter {
            if self.index < count - 1 {
                self.index = self.index + 1;
            } else {
                self.finished = true;
            }
        } else if key == Key::Char('b') || key == Key::Char('j') || key == Key::Up {
            if self.index > 0 {
                self.index = self.index - 1;
            }
        }
        false
    }
}

/// A walk over a nonempty list stays on one of its triggers.
pub proof fn law_walk_in_range(w: TriggerWalk, key: Key, count: nat)
    requires
        count > 0,
        w.index < count,
    ensures
        walk_next(w, key, count).0.index < count,
{
}

} // verus!
