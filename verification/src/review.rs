//! The weekly review: its steps, the state of each screen and viewer, and
//! what a key does to them.
use vstd::prelude::*;

use crate::calendar::{event_num, event_number, event_views, events_fit, CalendarEvent};
use crate::listing::{board_stems, list_weekly_board_dates, sorted_texts};
use crate::projects::{project_views, Project, ProjectView};
use crate::text::{
    chars_of, concat, sat_sub, lines, lines_of_str, owned, seqs, starts_with, starts_with_chars, strip_prefix,
    strip_prefix_chars, string_of, strs, copy_string,
};
use crate::triggers::{parse_trigger_list, trigger_list, trigger_views, TriggerItem};
use crate::ui::{styled_views, StyledLine};

verus! {

// ── Steps ───────────────────────────────────────────────────────────────

/// The viewer a review step shows beside its text.
#[derive(Debug, Clone, Copy, PartialEq, Eq, Structural)]
pub enum ReviewViewer {
    Calendar,
    Projects,
    Waiting,
    Someday,
    Trigger,
    Checklists,
    Altitudes,
    Brainstorm,
}

/// One step of the weekly review.
#[derive(Debug, Clone)]
pub struct ReviewStep {
    pub phase: &'static str,
    pub phase_color: &'static str,
    pub title: &'static str,
    pub desc: &'static str,
    pub viewer: Option<ReviewViewer>,
}

pub struct StepView {
    pub phase: Seq<char>,
    pub phase_color: Seq<char>,
    pub title: Seq<char>,
    pub desc: Seq<char>,
    pub viewer: Option<ReviewViewer>,
}

impl View for ReviewStep {
    type V = StepView;

    open spec fn view(&self) -> StepView {
        StepView {
            phase: self.phase@,
            phase_color: self.phase_color@,
            title: self.title@,
            desc: self.desc@,
            viewer: self.viewer,
        }
    }
}

pub open spec fn step_views(v: Seq<ReviewStep>) -> Seq<StepView> {
    v.map_values(|s: ReviewStep| s@)
}

/// The steps of the weekly review: Get Clear, Get Current, Get Creative.
pub open spec fn review_plan() -> Seq<StepView> {
    seq![
        StepView {
            phase: "Get Clear"@,
            phase_color: "link"@,
            title: "Collect Loose Papers & Materials"@,
            desc: "Gather all scraps of paper, receipts, sticky notes, business\n\
                   cards, and anything else that's been accumulating. Put them\n\
                   in your physical inbox."@,
            viewer: Some(ReviewViewer::Altitudes),
        },
        StepView {
            phase: "Get Clear"@,
            phase_color: "link"@,
            title: "Process Physical Inbox to Zero"@,
            desc: "Go through every item in your physical inbox. For each item:\n\
                   \u{2022} Is it actionable? \u{2192} Decide next action & organize\n\
                   \u{2022} Not actionable? \u{2192} Trash, reference, or incubate\n\
                   \u{2022} Get your inbox to empty."@,
            viewer: None,
        },
        StepView {
            phase: "Get Clear"@,
            phase_color: "link"@,
            title: "Process Digital Inboxes to Zero"@,
            desc: "Process all digital inboxes:\n\
                   \u{2022} Email inbox \u{2192} zero\n\
                   \u{2022} Voicemail \u{2192} zero\n\
                   \u{2022} Text messages \u{2192} zero\n\
                   \u{2022} Any app notifications \u{2192} clear"@,
            viewer: None,
        },
        StepView {
            phase: "Get Clear"@,
            phase_color: "link"@,
            title: "Empty Your Head"@,
            desc: "Do a quick mind sweep. Capture anything still bouncing\n\
                   around in your head \u{2014} open loops, ideas, concerns, tasks.\n\
                   Get it all out and into your inbox or trigger list.\n\n\
                   Tip: Run gtd inbox for a focused capture session."@,
            viewer: None,
        },
        StepView {
            phase: "Get Current"@,
            phase_color: "accent"@,
            title: "Review 'Next Actions' Lists"@,
            desc: "Look at every item on your next action lists.\n\
                   \u{2022} Check off completed items\n\
                   \u{2022} Update any stale actions\n\
                   \u{2022} Make sure each project has a next action"@,
            viewer: Some(ReviewViewer::Projects),
        },
        StepView {
            phase: "Get Current"@,
            phase_color: "accent"@,
            title: "Review Previous Calendar"@,
            desc: "Look back at last week's calendar.\n\
                   \u{2022} Any incomplete items to carry forward?\n\
                   \u{2022} Any follow-ups needed from meetings?\n\
                   \u{2022} Capture any loose ends."@,
            viewer: Some(ReviewViewer::Calendar),
        },
        StepView {
            phase: "Get Current"@,
            phase_color: "accent"@,
            title: "Review Upcoming Calendar"@,
            desc: "Look at the next 2-4 weeks of your calendar.\n\
                   \u{2022} Any prep needed for upcoming events?\n\
                   \u{2022} Any travel arrangements to make?\n\
                   \u{2022} Any items that need to be delegated or deferred?"@,
            viewer: Some(ReviewViewer::Calendar),
        },
        StepView {
            phase: "Get Current"@,
            phase_color: "accent"@,
            title: "Review 'Waiting For' List"@,
            desc: "Check each item you're waiting on from others.\n\
                   \u{2022} Any need follow-up?\n\
                   \u{2022} Any that have come in and need acknowledgment?\n\
                   \u{2022} Any that are no longer needed?"@,
            viewer: Some(ReviewViewer::Waiting),
        },
        StepView {
            phase: "Get Current"@,
            phase_color: "accent"@,
            title: "Review 'Project' Lists"@,
            desc: "Review your full project list (any outcome requiring 2+ steps).\n\
                   \u{2022} Is each project still active and relevant?\n\
                   \u{2022} Does each have a clearly defined next action?\n\
                   \u{2022} Any projects to mark complete?\n\
                   \u{2022} Any new projects to add?"@,
            viewer: Some(ReviewViewer::Projects),
        },
        StepView {
            phase: "Get Current"@,
            phase_color: "accent"@,
            title: "Review 'Someday/Maybe' List"@,
            desc: "Look through your someday/maybe list.\n\
                   \u{2022} Any items ready to activate as projects?\n\
                   \u{2022} Any items no longer interesting? Remove them.\n\
                   \u{2022} Any new someday/maybe items to add?"@,
            viewer: Some(ReviewViewer::Someday),
        },
        StepView {
            phase: "Get Current"@,
            phase_color: "accent"@,
            title: "Review Any Relevant Checklists"@,
            desc: "Check any reference checklists you maintain.\n\
                   \u{2022} Travel packing lists\n\
                   \u{2022} Weekly routines\n\
                   \u{2022} Project templates\n\
                   \u{2022} Any other recurring checklists"@,
            viewer: Some(ReviewViewer::Checklists),
        },
        StepView {
            phase: "Get Creative"@,
            phase_color: "purple"@,
            title: "Review Trigger List for New Ideas"@,
            desc: "Use your trigger list to generate new ideas.\n\
                   \u{2022} Run gtd trigger to walk through it\n\
                   \u{2022} Anything new come to mind?\n\
                   \u{2022} Any new projects, actions, or someday/maybe items?\n\n\
                   Tip: Run gtd trigger for a guided trigger list session."@,
            viewer: Some(ReviewViewer::Trigger),
        },
        StepView {
            phase: "Get Creative"@,
            phase_color: "purple"@,
            title: "Brainstorm New Ideas"@,
            desc: "Review your brainstorm ideas and wild thoughts.\n\
                   \u{2022} What ideas are worth pursuing?\n\
                   \u{2022} Any patterns in what you're avoiding?\n\
                   \u{2022} Press 'b' to brainstorm 30 new ideas with AI"@,
            viewer: Some(ReviewViewer::Brainstorm),
        },
    ]
}

/// The steps of the weekly review.
pub fn review_steps() -> (r: Vec<ReviewStep>)
    ensures
        step_views(r@) == review_plan(),
{
    let mut steps: Vec<ReviewStep> = Vec::new();
    steps.push(
        ReviewStep {
            phase: "Get Clear",
            phase_color: "link",
            title: "Collect Loose Papers & Materials",
            desc: "Gather all scraps of paper, receipts, sticky notes, business\n\
                   cards, and anything else that's been accumulating. Put them\n\
                   in your physical inbox.",
            viewer: Some(ReviewViewer::Altitudes),
        },
    );
    steps.push(
        ReviewStep {
            phase: "Get Clear",
            phase_color: "link",
            title: "Process Physical Inbox to Zero",
            desc: "Go through every item in your physical inbox. For each item:\n\
                   \u{2022} Is it actionable? \u{2192} Decide next action & organize\n\
                   \u{2022} Not actionable? \u{2192} Trash, reference, or incubate\n\
                   \u{2022} Get your inbox to empty.",
            viewer: None,
        },
    );
    steps.push(
        ReviewStep {
            phase: "Get Clear",
            phase_color: "link",
            title: "Process Digital Inboxes to Zero",
            desc: "Process all digital inboxes:\n\
                   \u{2022} Email inbox \u{2192} zero\n\
                   \u{2022} Voicemail \u{2192} zero\n\
                   \u{2022} Text messages \u{2192} zero\n\
                   \u{2022} Any app notifications \u{2192} clear",
            viewer: None,
        },
    );
    steps.push(
        ReviewStep {
            phase: "Get Clear",
            phase_color: "link",
            title: "Empty Your Head",
            desc: "Do a quick mind sweep. Capture anything still bouncing\n\
                   around in your head \u{2014} open loops, ideas, concerns, tasks.\n\
                   Get it all out and into your inbox or trigger list.\n\n\
                   Tip: Run gtd inbox for a focused capture session.",
            viewer: None,
        },
    );
    steps.push(
        ReviewStep {
            phase: "Get Current",
            phase_color: "accent",
            title: "Review 'Next Actions' Lists",
            desc: "Look at every item on your next action lists.\n\
                   \u{2022} Check off completed items\n\
                   \u{2022} Update any stale actions\n\
                   \u{2022} Make sure each project has a next action",
            viewer: Some(ReviewViewer::Projects),
        },
    );
    steps.push(
        ReviewStep {
            phase: "Get Current",
            phase_color: "accent",
            title: "Review Previous Calendar",
            desc: "Look back at last week's calendar.\n\
                   \u{2022} Any incomplete items to carry forward?\n\
                   \u{2022} Any follow-ups needed from meetings?\n\
                   \u{2022} Capture any loose ends.",
            viewer: Some(ReviewViewer::Calendar),
        },
    );
    steps.push(
        ReviewStep {
            phase: "Get Current",
            phase_color: "accent",
            title: "Review Upcoming Calendar",
            desc: "Look at the next 2-4 weeks of your calendar.\n\
                   \u{2022} Any prep needed for upcoming events?\n\
                   \u{2022} Any travel arrangements to make?\n\
                   \u{2022} Any items that need to be delegated or deferred?",
            viewer: Some(ReviewViewer::Calendar),
        },
    );
    steps.push(
        ReviewStep {
            phase: "Get Current",
            phase_color: "accent",
            title: "Review 'Waiting For' List",
            desc: "Check each item you're waiting on from others.\n\
                   \u{2022} Any need follow-up?\n\
                   \u{2022} Any that have come in and need acknowledgment?\n\
                   \u{2022} Any that are no longer needed?",
            viewer: Some(ReviewViewer::Waiting),
        },
    );
    steps.push(
        ReviewStep {
            phase: "Get Current",
            phase_color: "accent",
            title: "Review 'Project' Lists",
            desc: "Review your full project list (any outcome requiring 2+ steps).\n\
                   \u{2022} Is each project still active and relevant?\n\
                   \u{2022} Does each have a clearly defined next action?\n\
                   \u{2022} Any projects to mark complete?\n\
                   \u{2022} Any new projects to add?",
            viewer: Some(ReviewViewer::Projects),
        },
    );
    steps.push(
        ReviewStep {
            phase: "Get Current",
            phase_color: "accent",
            title: "Review 'Someday/Maybe' List",
            desc: "Look through your someday/maybe list.\n\
                   \u{2022} Any items ready to activate as projects?\n\
                   \u{2022} Any items no longer interesting? Remove them.\n\
                   \u{2022} Any new someday/maybe items to add?",
            viewer: Some(ReviewViewer::Someday),
        },
    );
    steps.push(
        ReviewStep {
            phase: "Get Current",
            phase_color: "accent",
            title: "Review Any Relevant Checklists",
            desc: "Check any reference checklists you maintain.\n\
                   \u{2022} Travel packing lists\n\
                   \u{2022} Weekly routines\n\
                   \u{2022} Project templates\n\
                   \u{2022} Any other recurring checklists",
            viewer: Some(ReviewViewer::Checklists),
        },
    );
    steps.push(
        ReviewStep {
            phase: "Get Creative",
            phase_color: "purple",
            title: "Review Trigger List for New Ideas",
            desc: "Use your trigger list to generate new ideas.\n\
                   \u{2022} Run gtd trigger to walk through it\n\
                   \u{2022} Anything new come to mind?\n\
                   \u{2022} Any new projects, actions, or someday/maybe items?\n\n\
                   Tip: Run gtd trigger for a guided trigger list session.",
            viewer: Some(ReviewViewer::Trigger),
        },
    );
    steps.push(
        ReviewStep {
            phase: "Get Creative",
            phase_color: "purple",
            title: "Brainstorm New Ideas",
            desc: "Review your brainstorm ideas and wild thoughts.\n\
                   \u{2022} What ideas are worth pursuing?\n\
                   \u{2022} Any patterns in what you're avoiding?\n\
                   \u{2022} Press 'b' to brainstorm 30 new ideas with AI",
            viewer: Some(ReviewViewer::Brainstorm),
        },
    );
    assert(step_views(steps@) =~= review_plan());
    steps
}

// ── Viewer states ───────────────────────────────────────────────────────

/// A list viewer (projects, waiting for, someday/maybe): the first shown
/// line, the line under the cursor, and which entries show their items.
pub struct ListState {
    pub scroll: usize,
    pub cursor: usize,
    pub expanded: Vec<bool>,
}

impl ListState {
    /// A list viewer at the top with every entry expanded (one flag at least).
    pub fn new(size: usize) -> (r: Self)
        ensures
            r.scroll == 0,
            r.cursor == 0,
            r.expanded@ == Seq::new(if size > 1 { size as nat } else { 1 }, |i: int| true),
    {
        let n = if size > 1 {
            size
        } else {
            1
        };
        let mut expanded: Vec<bool> = Vec::new();
        let mut i: usize = 0;
        while i < n
            invariant
                i <= n,
                expanded@ == Seq::new(i as nat, |k: int| true),
            decreases n - i,
        {
            expanded.push(true);
            i = i + 1;
            assert(expanded@ =~= Seq::new(i as nat, |k: int| true));
        }
        ListState { scroll: 0, cursor: 0, expanded }
    }
}

/// The trigger viewer: the triggers and the one shown.
pub struct TriggerState {
    pub triggers: Vec<TriggerItem>,
    pub index: usize,
}

/// The triggers that the trigger list file gives, none when it is missing
/// or cannot be read.
pub open spec fn triggers_of(content: Option<Seq<char>>) -> Seq<(Seq<char>, Seq<char>)> {
    match content {
        Some(c) => match trigger_list(c) {
            Some(t) => t.0,
            None => seq![],
        },
        None => seq![],
    }
}

impl TriggerState {
    /// The trigger viewer at its first trigger, over the trigger list file's
    /// content (`None` where there is no such file).
    pub fn new(content: Option<&str>) -> (r: Self)
        ensures
            trigger_views(r.triggers@) == triggers_of(
                match content {
                    Some(c) => Some(c@),
                    None => None,
                },
            ),
            r.index == 0,
    {
        let triggers = match content {
            Some(c) => match parse_trigger_list(c) {
                Some((t, _)) => t,
                None => Vec::new(),
            },
            None => Vec::new(),
        };
        proof {
            if trigger_views(triggers@).len() == 0 {
                assert(trigger_views(triggers@) =~= seq![]);
            }
        }
        assert(content is None ==> trigger_views(triggers@) =~= seq![]);
        TriggerState { triggers, index: 0 }
    }
}

/// The calendar viewer: the first shown event and the one under the cursor.
pub struct CalendarState {
    pub scroll: usize,
    pub cursor: usize,
}

/// The index of the first event from index `k` on that falls on or after `today`.
pub open spec fn first_from(es: Seq<crate::calendar::EventView>, today: int, k: int) -> Option<int>
    decreases es.len() - k,
{
    if k < 0 || k >= es.len() {
        None
    } else if event_num(es[k]) >= today {
        Some(k)
    } else {
        first_from(es, today, k + 1)
    }
}

/// Where the calendar viewer opens: on the first event from today on, on the
/// first event when there is none.
pub open spec fn calendar_cursor(es: Seq<crate::calendar::EventView>, today: int) -> int {
    match first_from(es, today, 0) {
        Some(k) => k,
        None => 0,
    }
}

impl CalendarState {
    /// The calendar viewer on the first event from today on (the first event
    /// when none is), scrolled to show two events before it.
    pub fn new(events: &Vec<CalendarEvent>, today_num: i32) -> (r: Self)
        requires
            events_fit(event_views(events@)),
        ensures
            r.cursor == calendar_cursor(event_views(events@), today_num as int),
            r.scroll == sat_sub(r.cursor as int, 2),
    {
        let ghost ev = event_views(events@);
        let mut k: usize = 0;
        while k < events.len()
            invariant
                k <= events.len(),
                ev == event_views(events@),
                events_fit(ev),
                first_from(ev, today_num as int, 0) == first_from(ev, today_num as int, k as int),
            decreases events.len() - k,
        {
            assert(ev[k as int] == events@[k as int]@);
            if event_number(&events[k]) >= today_num {
                return CalendarState { scroll: k.saturating_sub(2), cursor: k };
            }
            k = k + 1;
        }
        CalendarState { scroll: 0, cursor: 0 }
    }
}

/// The checklists viewer: the checklist names, the first shown and the one
/// under the cursor.
pub struct ChecklistsState {
    pub files: Vec<String>,
    pub scroll: usize,
    pub cursor: usize,
}

impl ChecklistsState {
    pub fn new(files: Vec<String>) -> (r: Self)
        ensures
            r.files@ == files@,
            r.scroll == 0,
            r.cursor == 0,
    {
        ChecklistsState { files, scroll: 0, cursor: 0 }
    }

    /// Takes a new list of checklists, keeping the cursor on one of them.
    pub fn reload(&mut self, files: Vec<String>)
        requires
            files.len() > 0 || old(self).cursor == 0,
        ensures
            final(self).files@ == files@,
            final(self).scroll == old(self).scroll,
            final(self).cursor == (if old(self).cursor >= files.len() && old(self).cursor > 0 {
                (files.len() - 1) as usize
            } else {
                old(self).cursor
            }),
    {
        self.files = files;
        if self.cursor >= self.files.len() && self.cursor > 0 {
            self.cursor = self.files.len() - 1;
        }
    }
}

/// The altitudes viewer: its lines and the first shown.
pub struct AltitudesState {
    pub lines: Vec<StyledLine>,
    pub scroll: usize,
}

impl AltitudesState {
    pub fn new(lines: Vec<StyledLine>) -> (r: Self)
        ensures
            styled_views(r.lines@) == styled_views(lines@),
            r.scroll == 0,
    {
        AltitudesState { lines, scroll: 0 }
    }
}

/// The brainstorm viewer: the brainstorm file's lines, the first shown and
/// the one under the cursor.
pub struct BrainstormState {
    pub lines: Vec<String>,
    pub scroll: usize,
    pub cursor: usize,
}

/// The lines shown for the brainstorm file: its lines, or a note that there
/// is none (`None` where there is no such file).
pub open spec fn brainstorm_lines(content: Option<Seq<char>>) -> Seq<Seq<char>> {
    match content {
        Some(c) => lines(c),
        None => seq!["# Brainstorm"@, seq![], "No brainstorm file found."@],
    }
}

pub open spec fn opt_str(o: Option<&str>) -> Option<Seq<char>> {
    match o {
        Some(c) => Some(c@),
        None => None,
    }
}

fn brainstorm_lines_exec(content: Option<&str>) -> (r: Vec<String>)
    ensures
        strs(r@) == brainstorm_lines(opt_str(content)),
{
    match content {
        Some(c) => {
            let ls = lines_of_str(c);
            let mut r: Vec<String> = Vec::new();
            let mut k: usize = 0;
            while k < ls.len()
                invariant
                    k <= ls.len(),
                    strs(r@) == seqs(ls@).take(k as int),
                decreases ls.len() - k,
            {
                let ghost r0 = strs(r@);
                r.push(string_of(&ls[k]));
                assert(strs(r@) =~= r0.push(seqs(ls@)[k as int]));
                k = k + 1;
                assert(strs(r@) =~= seqs(ls@).take(k as int));
            }
            assert(seqs(ls@).take(ls.len() as int) =~= seqs(ls@));
            r
        },
        None => {
            let mut r: Vec<String> = Vec::new();
            r.push(owned("# Brainstorm"));
            r.push(string_of(&Vec::new()));
            r.push(owned("No brainstorm file found."));
            assert(strs(r@) =~= brainstorm_lines(None));
            r
        },
    }
}

impl BrainstormState {
    /// The brainstorm viewer at the top, over the brainstorm file's content.
    pub fn new(content: Option<&str>) -> (r: Self)
        ensures
            strs(r.lines@) == brainstorm_lines(opt_str(content)),
            r.scroll == 0,
            r.cursor == 0,
    {
        BrainstormState { lines: brainstorm_lines_exec(content), scroll: 0, cursor: 0 }
    }

    /// Takes the brainstorm file's new content, keeping the cursor on a line.
    pub fn reload(&mut self, content: Option<&str>)
        ensures
            strs(final(self).lines@) == brainstorm_lines(opt_str(content)),
            final(self).scroll == old(self).scroll,
            final(self).cursor == (if old(self).cursor <= sat_sub(
                brainstorm_lines(opt_str(content)).len() as int,
                1,
            ) {
                old(self).cursor as int
            } else {
                sat_sub(brainstorm_lines(opt_str(content)).len() as int, 1)
            }),
    {
        self.lines = brainstorm_lines_exec(content);
        let last = self.lines.len().saturating_sub(1);
        if self.cursor > last {
            self.cursor = last;
        }
    }
}

/// The summary screen: the first shown line.
pub struct SummaryState {
    pub scroll: u16,
}

impl SummaryState {
    pub fn new() -> (r: Self)
        ensures
            r.scroll == 0,
    {
        SummaryState { scroll: 0 }
    }
}

/// The assessment screen: the dates of the weekly boards, the one shown
/// (none when there are no boards) and the first shown line.
pub struct AssessmentState {
    pub all_dates: Vec<String>,
    pub date_index: Option<usize>,
    pub scroll: u16,
}

impl AssessmentState {
    /// The assessment screen on the latest board, over the names of the
    /// files in the weekly boards' directory.
    pub fn new(names: &Vec<String>) -> (r: Self)
        ensures
            sorted_texts(strs(r.all_dates@)),
            strs(r.all_dates@).to_multiset() == board_stems(strs(names@)).to_multiset(),
            r.date_index == (if r.all_dates.len() == 0 {
                None
            } else {
                Some((r.all_dates.len() - 1) as usize)
            }),
            r.scroll == 0,
    {
        let all_dates = list_weekly_board_dates(names);
        let date_index = if all_dates.len() == 0 {
            None
        } else {
            Some(all_dates.len() - 1)
        };
        AssessmentState { all_dates, date_index, scroll: 0 }
    }

    /// Takes the board dates anew, keeping the shown board's index where it
    /// is still valid, else moving to the latest.
    pub fn reload_dates(&mut self, names: &Vec<String>)
        ensures
            sorted_texts(strs(final(self).all_dates@)),
            strs(final(self).all_dates@).to_multiset() == board_stems(strs(names@)).to_multiset(),
            final(self).date_index == (match old(self).date_index {
                Some(i) if i < final(self).all_dates.len() => Some(i),
                _ => if final(self).all_dates.len() == 0 {
                    None
                } else {
                    Some((final(self).all_dates.len() - 1) as usize)
                },
            }),
            final(self).scroll == old(self).scroll,
    {
        self.all_dates = list_weekly_board_dates(names);
        let keep = match self.date_index {
            Some(idx) => idx < self.all_dates.len(),
            None => false,
        };
        if !keep {
            self.date_index = if self.all_dates.len() == 0 {
                None
            } else {
                Some(self.all_dates.len() - 1)
            };
        }
    }

    /// Whether the shown board's index is that of a date.
    pub open spec fn wf(&self) -> bool {
        self.date_index matches Some(i) ==> i < self.all_dates.len()
    }

    /// The date of the shown board.
    pub fn current_date(&self) -> (r: Option<String>)
        requires
            self.wf(),
        ensures
            match self.date_index {
                Some(i) => r matches Some(d) && d@ == self.all_dates@[i as int]@,
                None => r is None,
            },
    {
        match self.date_index {
            Some(i) => Some(copy_string(&self.all_dates[i])),
            None => None,
        }
    }

    /// The date of the board before the shown one, if any.
    pub fn prev_date(&self) -> (r: Option<String>)
        requires
            self.wf(),
        ensures
            match self.date_index {
                Some(i) => if i > 0 {
                    r matches Some(d) && d@ == self.all_dates@[i - 1]@
                } else {
                    r is None
                },
                None => r is None,
            },
    {
        match self.date_index {
            Some(i) => if i > 0 {
                Some(copy_string(&self.all_dates[i - 1]))
            } else {
                None
            },
            None => None,
        }
    }
}

// ── List viewers ────────────────────────────────────────────────────────

/// Whether entry `i` of a list shows its items: its flag, or yes past the flags.
pub open spec fn shown(expanded: Seq<bool>, i: int) -> bool {
    if 0 <= i < expanded.len() {
        expanded[i]
    } else {
        true
    }
}

/// The lines entry `i` takes: its name, and its items when it shows them.
pub open spec fn entry_lines(ps: Seq<ProjectView>, expanded: Seq<bool>, i: int) -> nat {
    1 + if shown(expanded, i) {
        ps[i].items.len()
    } else {
        0
    }
}

/// The lines the first `n` entries take.
pub open spec fn lines_before(ps: Seq<ProjectView>, expanded: Seq<bool>, n: int) -> nat
    decreases n,
{
    if n <= 0 {
        0
    } else {
        lines_before(ps, expanded, n - 1) + entry_lines(ps, expanded, n - 1)
    }
}

/// The lines a list viewer shows.
pub open spec fn list_lines(ps: Seq<ProjectView>, expanded: Seq<bool>) -> nat {
    lines_before(ps, expanded, ps.len() as int)
}

/// The viewers that show a list of entries.
pub open spec fn is_list_viewer(v: Option<ReviewViewer>) -> bool {
    v == Some(ReviewViewer::Projects) || v == Some(ReviewViewer::Waiting) || v == Some(
        ReviewViewer::Someday,
    )
}

proof fn lemma_lines_before_mono(ps: Seq<ProjectView>, expanded: Seq<bool>, a: int, b: int)
    requires
        0 <= a <= b,
    ensures
        lines_before(ps, expanded, a) + (b - a) <= lines_before(ps, expanded, b),
    decreases b - a,
{
    if a < b {
        lemma_lines_before_mono(ps, expanded, a, b - 1);
    }
}

/// Lines keep adding up: the lines of entries `a` to `b` are at least the
/// entries' count.
pub proof fn lemma_lines_before_grows(ps: Seq<ProjectView>, expanded: Seq<bool>, a: int, b: int)
    requires
        0 <= a <= b,
    ensures
        lines_before(ps, expanded, a) <= lines_before(ps, expanded, b),
{
    lemma_lines_before_mono(ps, expanded, a, b);
}

/// The lines shown by the list viewer of a step over the entries of its list
/// (`items`, the list that the step's viewer names); 0 for other viewers.
pub fn list_total_lines(viewer: Option<ReviewViewer>, expanded: &Vec<bool>, items: &Vec<Project>) -> (r: usize)
    requires
        is_list_viewer(viewer) ==> list_lines(project_views(items@), expanded@) <= usize::MAX,
    ensures
        r == (if is_list_viewer(viewer) {
            list_lines(project_views(items@), expanded@)
        } else {
            0
        }),
{
    if !(viewer == Some(ReviewViewer::Projects) || viewer == Some(ReviewViewer::Waiting) || viewer
        == Some(ReviewViewer::Someday)) {
        return 0;
    }
    let ghost ps = project_views(items@);
    let mut total: usize = 0;
    let mut i: usize = 0;
    while i < items.len()
        invariant
            i <= items.len(),
            ps == project_views(items@),
            total == lines_before(ps, expanded@, i as int),
            list_lines(ps, expanded@) <= usize::MAX,
        decreases items.len() - i,
    {
        proof {
            lemma_lines_before_mono(ps, expanded@, i + 1, items.len() as int);
        }
        assert(ps[i as int] == items@[i as int]@);
        total = total + 1;
        let show = if i < expanded.len() {
            expanded[i]
        } else {
            true
        };
        if show {
            total = total + items[i].items.len();
        }
        i = i + 1;
    }
    total
}

/// The entry of a list viewer whose name or item stands at line `cursor`.
pub open spec fn entry_at(ps: Seq<ProjectView>, expanded: Seq<bool>, cursor: int, i: int) -> bool {
    0 <= i < ps.len() && lines_before(ps, expanded, i) <= cursor < lines_before(ps, expanded, i + 1)
}

/// The entry, and the item within it, at line `cursor` of a list over the
/// given entries (item 0 for the entry's own line).
pub fn list_item_at_line_with_item(expanded: &Vec<bool>, cursor: usize, projects: &Vec<Project>) -> (r: Option<(usize, usize)>)
    ensures
        match r {
            Some((i, j)) => entry_at(project_views(projects@), expanded@, cursor as int, i as int)
                && j == (if cursor == lines_before(project_views(projects@), expanded@, i as int) {
                0
            } else {
                cursor - lines_before(project_views(projects@), expanded@, i as int) - 1
            }),
            None => cursor >= list_lines(project_views(projects@), expanded@),
        },
{
    let ghost ps = project_views(projects@);
    let mut line: usize = 0;
    let mut i: usize = 0;
    while i < projects.len()
        invariant
            i <= projects.len(),
            ps == project_views(projects@),
            line == lines_before(ps, expanded@, i as int),
            line <= cursor,
        decreases projects.len() - i,
    {
        assert(ps[i as int] == projects@[i as int]@);
        if line == cursor {
            return Some((i, 0));
        }
        line = line + 1;
        let show = if i < expanded.len() {
            expanded[i]
        } else {
            true
        };
        if show {
            let n = projects[i].items.len();
            if cursor - line < n {
                return Some((i, cursor - line));
            }
            line = line + n;
        }
        i = i + 1;
    }
    None
}

/// The entry at line `cursor` of the list viewer of a step, over the entries
/// of its list; `None` for other viewers.
pub fn list_item_at_line(viewer: Option<ReviewViewer>, expanded: &Vec<bool>, cursor: usize, items: &Vec<Project>) -> (r: Option<usize>)
    ensures
        is_list_viewer(viewer) ==> match r {
            Some(i) => entry_at(project_views(items@), expanded@, cursor as int, i as int),
            None => cursor >= list_lines(project_views(items@), expanded@),
        },
        !is_list_viewer(viewer) ==> r is None,
{
    if !(viewer == Some(ReviewViewer::Projects) || viewer == Some(ReviewViewer::Waiting) || viewer
        == Some(ReviewViewer::Someday)) {
        return None;
    }
    match list_item_at_line_with_item(expanded, cursor, items) {
        Some((i, _)) => Some(i),
        None => None,
    }
}

/// The entry at a line is unique, and there is one exactly at the lines
/// the list shows.
pub proof fn law_list_lines(ps: Seq<ProjectView>, expanded: Seq<bool>, cursor: int, i: int, k: int)
    requires
        entry_at(ps, expanded, cursor, i),
        entry_at(ps, expanded, cursor, k),
    ensures
        i == k,
        0 <= cursor < list_lines(ps, expanded),
{
    if i < k {
        lemma_lines_before_mono(ps, expanded, i + 1, k);
    } else if k < i {
        lemma_lines_before_mono(ps, expanded, k + 1, i);
    }
    lemma_lines_before_mono(ps, expanded, i + 1, ps.len() as int);
}

/// Every line a list shows belongs to an entry.
pub proof fn law_list_lines_covered(ps: Seq<ProjectView>, expanded: Seq<bool>, cursor: int)
    requires
        0 <= cursor < list_lines(ps, expanded),
    ensures
        exists|i: int| entry_at(ps, expanded, cursor, i),
    decreases ps.len(),
{
    let n = ps.len() as int;
    if cursor >= lines_before(ps, expanded, n - 1) {
        assert(entry_at(ps, expanded, cursor, n - 1));
    } else {
        let q = ps.drop_last();
        assert forall|m: int| 0 <= m <= n - 1 implies lines_before(q, expanded, m) == lines_before(
            ps,
            expanded,
            m,
        ) by {
            lemma_lines_before_prefix(ps, q, expanded, m);
        }
        law_list_lines_covered(q, expanded, cursor);
        let i = choose|i: int| entry_at(q, expanded, cursor, i);
        lemma_lines_before_prefix(ps, q, expanded, i);
        lemma_lines_before_prefix(ps, q, expanded, i + 1);
        assert(entry_at(ps, expanded, cursor, i));
    }
}

proof fn lemma_lines_before_prefix(ps: Seq<ProjectView>, q: Seq<ProjectView>, expanded: Seq<bool>, m: int)
    requires
        ps.len() > 0,
        q == ps.drop_last(),
        0 <= m <= q.len(),
    ensures
        lines_before(q, expanded, m) == lines_before(ps, expanded, m),
    decreases m,
{
    if m > 0 {
        lemma_lines_before_prefix(ps, q, expanded, m - 1);
        assert(q[m - 1] == ps[m - 1]);
    }
}

// ── Scrolling ───────────────────────────────────────────────────────────

/// The first shown line after the cursor moved: the view follows the cursor
/// so that it stays among the `visible` lines shown.
pub open spec fn follow(scroll: int, cursor: int, visible: int) -> int {
    if cursor < scroll {
        cursor
    } else if cursor >= scroll + visible {
        cursor - visible + 1
    } else {
        scroll
    }
}

/// Half the terminal's rows: the lines a viewer shows.
pub open spec fn visible_rows(rows: u16) -> int {
    (rows / 2) as int
}

/// Moves the first shown line so that the cursor is among the lines shown.
pub fn auto_scroll(scroll: usize, cursor: usize, rows: u16) -> (r: usize)
    requires
        rows >= 2 || cursor < usize::MAX,
    ensures
        r == follow(scroll as int, cursor as int, visible_rows(rows)),
{
    let visible = (rows / 2) as usize;
    if cursor < scroll {
        cursor
    } else if cursor - scroll >= visible {
        cursor - visible + 1
    } else {
        scroll
    }
}

/// After a move the cursor is among the lines shown, on a terminal with at
/// least two rows.
pub proof fn law_auto_scroll(scroll: int, cursor: int, rows: u16)
    requires
        0 <= scroll,
        0 <= cursor,
        rows >= 2,
    ensures
        0 <= follow(scroll, cursor, visible_rows(rows)) <= cursor < follow(
            scroll,
            cursor,
            visible_rows(rows),
        ) + visible_rows(rows),
{
}

pub fn auto_scroll_list(list: &mut ListState, rows: u16)
    requires
        rows >= 2 || old(list).cursor < usize::MAX,
    ensures
        final(list).scroll == follow(old(list).scroll as int, old(list).cursor as int, visible_rows(rows)),
        final(list).cursor == old(list).cursor,
        final(list).expanded@ == old(list).expanded@,
{
    list.scroll = auto_scroll(list.scroll, list.cursor, rows);
}

pub fn auto_scroll_calendar(cal: &mut CalendarState, rows: u16)
    requires
        rows >= 2 || old(cal).cursor < usize::MAX,
    ensures
        final(cal).scroll == follow(old(cal).scroll as int, old(cal).cursor as int, visible_rows(rows)),
        final(cal).cursor == old(cal).cursor,
{
    cal.scroll = auto_scroll(cal.scroll, cal.cursor, rows);
}

pub fn auto_scroll_checklists(checklists: &mut ChecklistsState, rows: u16)
    requires
        rows >= 2 || old(checklists).cursor < usize::MAX,
    ensures
        final(checklists).scroll == follow(
            old(checklists).scroll as int,
            old(checklists).cursor as int,
            visible_rows(rows),
        ),
        final(checklists).cursor == old(checklists).cursor,
        final(checklists).files@ == old(checklists).files@,
{
    checklists.scroll = auto_scroll(checklists.scroll, checklists.cursor, rows);
}

pub fn auto_scroll_brainstorm(bs: &mut BrainstormState, rows: u16)
    requires
        rows >= 2 || old(bs).cursor < usize::MAX,
    ensures
        final(bs).scroll == follow(old(bs).scroll as int, old(bs).cursor as int, visible_rows(rows)),
        final(bs).cursor == old(bs).cursor,
        final(bs).lines@ == old(bs).lines@,
{
    bs.scroll = auto_scroll(bs.scroll, bs.cursor, rows);
}

// ── Marking a next action ───────────────────────────────────────────────

/// An item without its `[>] ` mark.
pub open spec fn unmarked(x: Seq<char>) -> Seq<char> {
    match strip_prefix(x, "[>] "@) {
        Some(r) => r,
        None => x,
    }
}

/// An item with a `[>] ` mark (left as it is when it has one).
pub open spec fn marked(x: Seq<char>) -> Seq<char> {
    if starts_with(x, "[>] "@) {
        x
    } else {
        "[>] "@ + x
    }
}

/// The items of a project with item `j` made its next action: every item's
/// mark taken off once, then item `j` marked.
pub open spec fn with_next_action(items: Seq<Seq<char>>, j: int) -> Seq<Seq<char>> {
    items.map_values(|x: Seq<char>| unmarked(x)).update(j, marked(unmarked(items[j])))
}

/// Makes item `item_idx` of project `proj_idx` that project's next action.
pub fn mark_next_action(projects: &mut Vec<Project>, proj_idx: usize, item_idx: usize)
    requires
        proj_idx < old(projects).len(),
        item_idx < old(projects)@[proj_idx as int].items.len(),
    ensures
        project_views(final(projects)@) == project_views(old(projects)@).update(
            proj_idx as int,
            ProjectView {
                items: with_next_action(
                    project_views(old(projects)@)[proj_idx as int].items,
                    item_idx as int,
                ),
                ..project_views(old(projects)@)[proj_idx as int]
            },
        ),
{
    let mark = chars_of("[>] ");
    let ghost old_items = strs(projects@[proj_idx as int].items@);
    let mut new_items: Vec<String> = Vec::new();
    let mut k: usize = 0;
    let n = projects[proj_idx].items.len();
    while k < n
        invariant
            k <= n,
            proj_idx < projects.len(),
            n == projects@[proj_idx as int].items.len(),
            old_items == strs(projects@[proj_idx as int].items@),
            mark@ == "[>] "@,
            strs(new_items@) == old_items.take(k as int).map_values(|x: Seq<char>| unmarked(x)),
        decreases n - k,
    {
        let ghost r0 = strs(new_items@);
        let item = chars_of(projects[proj_idx].items[k].as_str());
        match strip_prefix_chars(&item, &mark) {
            Some(rest) => new_items.push(string_of(&rest)),
            None => new_items.push(string_of(&item)),
        }
        assert(strs(new_items@) =~= r0.push(unmarked(old_items[k as int])));
        k = k + 1;
        assert(strs(new_items@) =~= old_items.take(k as int).map_values(
            |x: Seq<char>| unmarked(x),
        ));
    }
    assert(old_items.take(n as int) =~= old_items);
    let current = chars_of(new_items[item_idx].as_str());
    let ghost before = strs(new_items@);
    assert(current@ == before[item_idx as int]);
    if !starts_with_chars(&current, &mark) {
        new_items.set(item_idx, string_of(&concat(&mark, &current)));
        assert(strs(new_items@) =~= before.update(item_idx as int, marked(before[item_idx as int])));
    } else {
        assert(before.update(item_idx as int, marked(before[item_idx as int])) =~= before);
    }
    assert(strs(new_items@) =~= with_next_action(old_items, item_idx as int));
    let ghost old_ps = project_views(projects@);
    let mut p = projects.remove(proj_idx);
    p.items = new_items;
    projects.insert(proj_idx, p);
    assert(project_views(projects@) =~= old_ps.update(
        proj_idx as int,
        ProjectView { items: with_next_action(old_ps[proj_idx as int].items, item_idx as int), ..old_ps[proj_idx as int] },
    ));
}

/// A project has at most one next action: after item `j` is made the next
/// action, it is the one item with a `[>] ` mark. This holds unless another
/// item carries the mark twice (`[>] [>] `), which one removal leaves marked.
pub proof fn law_one_next_action(items: Seq<Seq<char>>, j: int)
    requires
        0 <= j < items.len(),
        forall|i: int| 0 <= i < items.len() && i != j ==> !starts_with(#[trigger] items[i], "[>] [>] "@),
    ensures
        forall|i: int|
            0 <= i < items.len() ==> (starts_with(#[trigger] with_next_action(items, j)[i], "[>] "@)
                <==> i == j),
{
    reveal_strlit("[>] ");
    reveal_strlit("[>] [>] ");
    let r = with_next_action(items, j);
    assert(starts_with(marked(unmarked(items[j])), "[>] "@)) by {
        let u = unmarked(items[j]);
        if !starts_with(u, "[>] "@) {
            assert(("[>] "@ + u).subrange(0, 4) =~= "[>] "@);
        }
    }
    assert forall|i: int| 0 <= i < items.len() && i != j implies !starts_with(#[trigger] r[i], "[>] "@) by {
        let x = items[i];
        assert(r[i] == unmarked(x));
        if starts_with(x, "[>] "@) {
            let rest = x.skip(4);
            if starts_with(rest, "[>] "@) {
                assert(x.subrange(0, 8) =~= "[>] [>] "@) by {
                    assert forall|k: int| 0 <= k < 8 implies x.subrange(0, 8)[k] == "[>] [>] "@[k] by {
                        if k < 4 {
                            assert(x.subrange(0, 4)[k] == x[k]);
                        } else {
                            assert(rest.subrange(0, 4)[k - 4] == x[k]);
                        }
                    }
                }
            }
        }
    }
}

} // verus!
