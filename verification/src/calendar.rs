//! The calendar: `## YYYY` headings set the year, `- MM/DD description`
//! lines are events.
use vstd::prelude::*;

use crate::text::{
    chars_of, find_char, find_char_in, lemma_find, lines, lines_of_str, parse_i32, parse_i32_spec,
    parse_u32, parse_unsigned, seqs, slice, starts_with, string_of, strip_prefix, strip_prefix_chars, trim,
    trim_chars,
};

verus! {

/// One dated event.
#[derive(Debug, Clone)]
pub struct CalendarEvent {
    pub year: i32,
    pub month: u32,
    pub day: u32,
    pub description: String,
}

pub struct EventView {
    pub year: i32,
    pub month: u32,
    pub day: u32,
    pub description: Seq<char>,
}

impl View for CalendarEvent {
    type V = EventView;

    open spec fn view(&self) -> EventView {
        EventView {
            year: self.year,
            month: self.month,
            day: self.day,
            description: self.description@,
        }
    }
}

pub open spec fn event_views(v: Seq<CalendarEvent>) -> Seq<EventView> {
    v.map_values(|e: CalendarEvent| e@)
}

/// The month, day and description that the text after `- ` holds:
/// `MM/DD description`, both numbers unsigned and exactly one `/`.
pub open spec fn event_fields(rest: Seq<char>) -> Option<(u32, u32, Seq<char>)> {
    match find_char(rest, ' ') {
        None => None,
        Some(sp) => {
            let d = rest.take(sp);
            let desc = trim(rest.skip(sp + 1));
            match find_char(d, '/') {
                None => None,
                Some(sl) => {
                    let m = d.take(sl);
                    let dd = d.skip(sl + 1);
                    if find_char(dd, '/') is Some {
                        None
                    } else {
                        match (parse_unsigned(m, 0xffff_ffff), parse_unsigned(dd, 0xffff_ffff)) {
                            (Some(mv), Some(dv)) => Some((mv as u32, dv as u32, desc)),
                            _ => None,
                        }
                    }
                },
            }
        },
    }
}

pub open spec fn calendar_step(st: (i32, Seq<EventView>), line: Seq<char>) -> (i32, Seq<EventView>) {
    let t = trim(line);
    let (year, events) = st;
    match strip_prefix(t, "## "@) {
        Some(y) => match parse_i32_spec(trim(y)) {
            Some(v) => (v as i32, events),
            None => st,
        },
        None => match strip_prefix(t, "- "@) {
            Some(rest) => match event_fields(rest) {
                Some((m, d, desc)) => (
                    year,
                    events.push(EventView { year: year, month: m, day: d, description: desc }),
                ),
                None => st,
            },
            None => st,
        },
    }
}

pub open spec fn calendar_scan(ls: Seq<Seq<char>>, year: i32) -> (i32, Seq<EventView>)
    decreases ls.len(),
{
    if ls.len() == 0 {
        (year, seq![])
    } else {
        calendar_step(calendar_scan(ls.drop_last(), year), ls.last())
    }
}

/// The events of `calendar.md`, dated in `year` until a `## YYYY` heading.
pub open spec fn calendar_of(content: Seq<char>, year: i32) -> Seq<EventView> {
    calendar_scan(lines(content), year).1
}

fn event_fields_of(rest: &Vec<char>) -> (r: Option<(u32, u32, Vec<char>)>)
    ensures
        match r {
            Some((m, d, desc)) => event_fields(rest@) == Some((m, d, desc@)),
            None => event_fields(rest@) is None,
        },
{
    match find_char_in(rest, ' ') {
        None => None,
        Some(sp) => {
            proof {
                lemma_find(rest@, seq![' ']);
                assert(crate::text::occurs_at(rest@, seq![' '], sp as int));
                assert(seq![' '].len() == 1);
            }
            assert(sp + 1 <= rest.len());
            let d = slice(rest, 0, sp);
            assert(d@ =~= rest@.take(sp as int));
            let tail = slice(rest, sp + 1, rest.len());
            assert(tail@ =~= rest@.skip(sp + 1));
            let desc = trim_chars(&tail);
            match find_char_in(&d, '/') {
                None => None,
                Some(sl) => {
                    proof {
                        lemma_find(d@, seq!['/']);
                        assert(crate::text::occurs_at(d@, seq!['/'], sl as int));
                        assert(seq!['/'].len() == 1);
                    }
                    assert(sl + 1 <= d.len());
                    let m = slice(&d, 0, sl);
                    assert(m@ =~= d@.take(sl as int));
                    let dd = slice(&d, sl + 1, d.len());
                    assert(dd@ =~= d@.skip(sl + 1));
                    if find_char_in(&dd, '/').is_some() {
                        None
                    } else {
                        match (parse_u32(&m), parse_u32(&dd)) {
                            (Some(mv), Some(dv)) => Some((mv, dv, desc)),
                            _ => None,
                        }
                    }
                },
            }
        },
    }
}

/// Reads `calendar.md`, dating events in `current_year` until a `## YYYY` heading.
pub fn parse_calendar(content: &str, current_year: i32) -> (r: Vec<CalendarEvent>)
    ensures
        event_views(r@) == calendar_of(content@, current_year),
{
    let ls = lines_of_str(content);
    let ghost lv = seqs(ls@);
    let mut year = current_year;
    let mut events: Vec<CalendarEvent> = Vec::new();
    let h2 = chars_of("## ");
    let dash = chars_of("- ");
    let mut i: usize = 0;
    assert(lv.take(0) =~= seq![]);
    assert(event_views(events@) =~= seq![]);
    while i < ls.len()
        invariant
            i <= ls.len(),
            lv == seqs(ls@),
            lv == lines(content@),
            h2@ == "## "@,
            dash@ == "- "@,
            calendar_scan(lv.take(i as int), current_year) == (year, event_views(events@)),
        decreases ls.len() - i,
    {
        assert(lv.take(i + 1).drop_last() =~= lv.take(i as int));
        let t = trim_chars(&ls[i]);
        match strip_prefix_chars(&t, &h2) {
            Some(y) => {
                match parse_i32(&trim_chars(&y)) {
                    Some(v) => {
                        year = v;
                    },
                    None => {},
                }
            },
            None => match strip_prefix_chars(&t, &dash) {
                Some(rest) => match event_fields_of(&rest) {
                    Some((m, d, desc)) => {
                        let ghost e0 = event_views(events@);
                        let ev = CalendarEvent {
                            year: year,
                            month: m,
                            day: d,
                            description: string_of(&desc),
                        };
                        events.push(ev);
                        assert(event_views(events@) =~= e0.push(
                            EventView { year: year, month: m, day: d, description: desc@ },
                        ));
                    },
                    None => {},
                },
                None => {},
            },
        }
        i = i + 1;
    }
    assert(lv.take(ls.len() as int) =~= lv);
    events
}

/// Reads `calendar.md`, dating events in `current_year` (the year of today's
/// date, which the program reads from the clock) until a `## YYYY` heading.
pub fn load_calendar(content: &str, current_year: i32) -> (r: Vec<CalendarEvent>)
    ensures
        event_views(r@) == calendar_of(content@, current_year),
{
    parse_calendar(content, current_year)
}

// ── Day numbers ─────────────────────────────────────────────────────────

/// `year * 10000 + month * 100 + day`, the number by which dates are compared,
/// with the month and day taken as `i32` as `as` converts them.
pub open spec fn day_num(year: i32, month: u32, day: u32) -> int {
    year * 10000 + (month as i32) * 100 + (day as i32)
}

/// Whether computing `day_num` in `i32` stays in range at every step.
pub open spec fn day_num_fits(year: i32, month: u32, day: u32) -> bool {
    &&& i32::MIN <= year * 10000 <= i32::MAX
    &&& i32::MIN <= (month as i32) * 100 <= i32::MAX
    &&& i32::MIN <= year * 10000 + (month as i32) * 100 <= i32::MAX
    &&& i32::MIN <= day_num(year, month, day) <= i32::MAX
}

pub open spec fn event_num(e: EventView) -> int {
    day_num(e.year, e.month, e.day)
}

pub open spec fn event_fits(e: EventView) -> bool {
    day_num_fits(e.year, e.month, e.day)
}

pub open spec fn events_fit(es: Seq<EventView>) -> bool {
    forall|i: int| 0 <= i < es.len() ==> event_fits(#[trigger] es[i])
}

pub fn day_number(year: i32, month: u32, day: u32) -> (r: i32)
    requires
        day_num_fits(year, month, day),
    ensures
        r == day_num(year, month, day),
{
    year * 10000 + (month as i32) * 100 + (day as i32)
}

pub fn event_number(e: &CalendarEvent) -> (r: i32)
    requires
        event_fits(e@),
    ensures
        r == event_num(e@),
{
    day_number(e.year, e.month, e.day)
}

/// Whether every event's day number can be computed.
pub fn calendar_fits(events: &Vec<CalendarEvent>) -> (r: bool)
    ensures
        r == events_fit(event_views(events@)),
{
    let ghost ev = event_views(events@);
    let mut k: usize = 0;
    while k < events.len()
        invariant
            k <= events.len(),
            ev == event_views(events@),
            forall|j: int| 0 <= j < k ==> event_fits(#[trigger] ev[j]),
        decreases events.len() - k,
    {
        let e = &events[k];
        let y = e.year as i64;
        let m = (e.month as i32) as i64;
        let d = (e.day as i32) as i64;
        let a = y * 10000;
        let b = m * 100;
        if a < i32::MIN as i64 || a > i32::MAX as i64 || b < i32::MIN as i64 || b > i32::MAX as i64
            || a + b < i32::MIN as i64 || a + b > i32::MAX as i64 || a + b + d < i32::MIN as i64
            || a + b + d > i32::MAX as i64 {
            assert(ev[k as int] == e@);
            assert(!event_fits(ev[k as int]));
            return false;
        }
        assert(ev[k as int] == e@);
        k = k + 1;
    }
    true
}

/// The day number of a date when it lies in `i32`, `None` when it does not.
pub fn day_number_checked(year: i32, month: u32, day: u32) -> (r: Option<i32>)
    ensures
        r == if i32::MIN <= day_num(year, month, day) <= i32::MAX {
            Some(day_num(year, month, day) as i32)
        } else {
            None
        },
{
    let mi = month as i32;
    let di = day as i32;
    let n = (year as i64) * 10000 + (mi as i64) * 100 + (di as i64);
    assert(n == day_num(year, month, day));
    if n < i32::MIN as i64 || n > i32::MAX as i64 {
        None
    } else {
        Some(n as i32)
    }
}

/// An event line that no `## ` heading line comes before is dated in
/// `current_year`: reading lines none of which is a `## ` heading keeps the
/// year and dates every event in it.
pub proof fn law_events_before_a_heading(ls: Seq<Seq<char>>, current_year: i32)
    requires
        forall|i: int| 0 <= i < ls.len() ==> !starts_with(trim(#[trigger] ls[i]), "## "@),
    ensures
        calendar_scan(ls, current_year).0 == current_year,
        forall|k: int|
            0 <= k < calendar_scan(ls, current_year).1.len() ==> #[trigger] calendar_scan(ls, current_year).1[k].year
                == current_year,
    decreases ls.len(),
{
    if ls.len() > 0 {
        let init = ls.drop_last();
        assert forall|i: int| 0 <= i < init.len() implies !starts_with(trim(#[trigger] init[i]), "## "@) by {
            assert(init[i] == ls[i]);
        }
        law_events_before_a_heading(init, current_year);
        assert(!starts_with(trim(ls[ls.len() - 1]), "## "@));
        let (y, es) = calendar_scan(init, current_year);
        let r = calendar_scan(ls, current_year).1;
        assert forall|k: int| 0 <= k < r.len() implies #[trigger] r[k].year == current_year by {
            if k < es.len() {
                assert(r[k] == es[k]);
            }
        }
    }
}

/// For a calendar file with no `## ` heading line, every event is dated in
/// `current_year`.
pub proof fn law_calendar_without_headings(content: Seq<char>, current_year: i32)
    requires
        forall|i: int| 0 <= i < lines(content).len() ==> !starts_with(trim(#[trigger] lines(content)[i]), "## "@),
    ensures
        forall|k: int|
            0 <= k < calendar_of(content, current_year).len() ==> #[trigger] calendar_of(content, current_year)[k].year
                == current_year,
{
    law_events_before_a_heading(lines(content), current_year);
}

} // verus!
