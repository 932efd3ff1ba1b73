//! A weekly review session: the screen shown, the state of its viewer, and
//! what each key does. The terminal, the files and the editor stay outside:
//! a key gives the next state and an action for the caller to perform.
use vstd::prelude::*;

use crate::calendar::{event_views, events_fit, CalendarEvent};
use crate::listing::{board_stems, checklist_stems, load_checklist_files, sorted_texts};
use crate::projects::{copy_projects, project_views, Project, ProjectView};
use crate::review::{
    brainstorm_lines, calendar_cursor, opt_str, triggers_of,
    auto_scroll, entry_at, law_list_lines, law_list_lines_covered, follow, is_list_viewer, lines_before, list_item_at_line,
    list_item_at_line_with_item, list_lines, list_total_lines, mark_next_action, step_views,
    visible_rows, with_next_action, AltitudesState, AssessmentState, BrainstormState,
    CalendarState, ChecklistsState, ListState, ReviewStep, ReviewViewer, StepView,
    SummaryState, TriggerState,
};
use crate::text::{copy_string, sat_sub, strs};
use crate::triggers::trigger_views;
use crate::ui::{styled_views, Key, Tone};

verus! {

// ── Views ───────────────────────────────────────────────────────────────

pub struct ListView {
    pub scroll: usize,
    pub cursor: usize,
    pub expanded: Seq<bool>,
}

impl View for ListState {
    type V = ListView;

    open spec fn view(&self) -> ListView {
        ListView { scroll: self.scroll, cursor: self.cursor, expanded: self.expanded@ }
    }
}

pub struct TriggerView {
    pub triggers: Seq<(Seq<char>, Seq<char>)>,
    pub index: usize,
}

impl View for TriggerState {
    type V = TriggerView;

    open spec fn view(&self) -> TriggerView {
        TriggerView { triggers: trigger_views(self.triggers@), index: self.index }
    }
}

pub struct ChecklistsView {
    pub files: Seq<Seq<char>>,
    pub scroll: usize,
    pub cursor: usize,
}

impl View for ChecklistsState {
    type V = ChecklistsView;

    open spec fn view(&self) -> ChecklistsView {
        ChecklistsView { files: strs(self.files@), scroll: self.scroll, cursor: self.cursor }
    }
}

pub struct AltitudesView {
    pub lines: Seq<(Seq<char>, Tone, bool)>,
    pub scroll: usize,
}

impl View for AltitudesState {
    type V = AltitudesView;

    open spec fn view(&self) -> AltitudesView {
        AltitudesView { lines: styled_views(self.lines@), scroll: self.scroll }
    }
}

pub struct BrainstormView {
    pub lines: Seq<Seq<char>>,
    pub scroll: usize,
    pub cursor: usize,
}

impl View for BrainstormState {
    type V = BrainstormView;

    open spec fn view(&self) -> BrainstormView {
        BrainstormView { lines: strs(self.lines@), scroll: self.scroll, cursor: self.cursor }
    }
}

pub struct AssessmentView {
    pub dates: Seq<Seq<char>>,
    pub date_index: Option<usize>,
    pub scroll: u16,
}

impl View for AssessmentState {
    type V = AssessmentView;

    open spec fn view(&self) -> AssessmentView {
        AssessmentView {
            dates: strs(self.all_dates@),
            date_index: self.date_index,
            scroll: self.scroll,
        }
    }
}

/// The viewer shown beside a review step; at most one is open at a time.
pub enum ViewerState {
    Nothing,
    List(ListState),
    Trigger(TriggerState),
    Calendar(CalendarState),
    Checklists(ChecklistsState),
    Altitudes(AltitudesState),
    Brainstorm(BrainstormState),
}

pub enum ViewerView {
    Nothing,
    List(ListView),
    Trigger(TriggerView),
    Calendar { scroll: usize, cursor: usize },
    Checklists(ChecklistsView),
    Altitudes(AltitudesView),
    Brainstorm(BrainstormView),
}

impl View for ViewerState {
    type V = ViewerView;

    open spec fn view(&self) -> ViewerView {
        match self {
            ViewerState::Nothing => ViewerView::Nothing,
            ViewerState::List(l) => ViewerView::List(l@),
            ViewerState::Trigger(t) => ViewerView::Trigger(t@),
            ViewerState::Calendar(c) => ViewerView::Calendar { scroll: c.scroll, cursor: c.cursor },
            ViewerState::Checklists(c) => ViewerView::Checklists(c@),
            ViewerState::Altitudes(a) => ViewerView::Altitudes(a@),
            ViewerState::Brainstorm(b) => ViewerView::Brainstorm(b@),
        }
    }
}

/// A weekly review in progress.
pub struct ReviewSession {
    /// The step shown: 0 for the assessment screen, then the review's steps.
    pub step_index: usize,
    pub finished: bool,
    pub showing_summary: bool,
    pub summary: SummaryState,
    pub assessment: AssessmentState,
    pub viewer: ViewerState,
}

pub struct SessionView {
    pub step_index: usize,
    pub finished: bool,
    pub showing_summary: bool,
    pub summary_scroll: u16,
    pub assessment: AssessmentView,
    pub viewer: ViewerView,
}

impl View for ReviewSession {
    type V = SessionView;

    open spec fn view(&self) -> SessionView {
        SessionView {
            step_index: self.step_index,
            finished: self.finished,
            showing_summary: self.showing_summary,
            summary_scroll: self.summary.scroll,
            assessment: self.assessment@,
            viewer: self.viewer@,
        }
    }
}

/// What the caller does after a key.
pub enum ReviewAction {
    /// Draw the screen again.
    Stay,
    Quit,
    /// Read a line and add it to the inbox.
    Capture,
    /// Open the board of the given date in the editor.
    EditBoard(String),
    /// Run the accountability partner, then take the board dates anew.
    RunPartner,
    /// Open the viewer of the step now shown.
    OpenViewer,
    /// Open the file of the given viewer in the editor, then open the viewer anew.
    EditViewer(ReviewViewer),
    /// Open the checklist of the given name in the editor, then take the checklists anew.
    EditChecklist(String),
    /// Run the brainstorm, then take the brainstorm file anew.
    RunBrainstorm,
    /// Save the given projects.
    SaveProjects(Vec<Project>),
}

pub enum ActionView {
    Stay,
    Quit,
    Capture,
    EditBoard(Seq<char>),
    RunPartner,
    OpenViewer,
    EditViewer(ReviewViewer),
    EditChecklist(Seq<char>),
    RunBrainstorm,
    SaveProjects(Seq<ProjectView>),
}

impl View for ReviewAction {
    type V = ActionView;

    open spec fn view(&self) -> ActionView {
        match self {
            ReviewAction::Stay => ActionView::Stay,
            ReviewAction::Quit => ActionView::Quit,
            ReviewAction::Capture => ActionView::Capture,
            ReviewAction::EditBoard(d) => ActionView::EditBoard(d@),
            ReviewAction::RunPartner => ActionView::RunPartner,
            ReviewAction::OpenViewer => ActionView::OpenViewer,
            ReviewAction::EditViewer(v) => ActionView::EditViewer(*v),
            ReviewAction::EditChecklist(n) => ActionView::EditChecklist(n@),
            ReviewAction::RunBrainstorm => ActionView::RunBrainstorm,
            ReviewAction::SaveProjects(ps) => ActionView::SaveProjects(project_views(ps@)),
        }
    }
}

/// What the caller has observed when a key comes: the terminal's rows, the
/// lines of the summary and assessment screens, the entries of the list that
/// the shown step's viewer names, and the number of calendar events.
pub struct ReviewContext {
    pub rows: u16,
    pub summary_lines: usize,
    pub assessment_lines: usize,
    pub list: Vec<Project>,
    pub calendar_len: usize,
}

pub struct ContextView {
    pub rows: u16,
    pub summary_lines: usize,
    pub assessment_lines: usize,
    pub list: Seq<ProjectView>,
    pub calendar_len: usize,
}

impl View for ReviewContext {
    type V = ContextView;

    open spec fn view(&self) -> ContextView {
        ContextView {
            rows: self.rows,
            summary_lines: self.summary_lines,
            assessment_lines: self.assessment_lines,
            list: project_views(self.list@),
            calendar_len: self.calendar_len,
        }
    }
}

// ── What a key does ─────────────────────────────────────────────────────

pub open spec fn min_int(a: int, b: int) -> int {
    if a <= b {
        a
    } else {
        b
    }
}

/// The first shown line after scrolling down by three lines, not past `max`.
pub open spec fn scroll_down(scroll: int, max: int) -> int {
    if scroll < max {
        min_int(scroll + 3, max)
    } else {
        scroll
    }
}

/// How far a screen of `n` lines scrolls on a terminal of `rows` rows: three
/// rows go to the bars, and the count of lines is taken as a `u16`.
pub open spec fn screen_max_scroll(n: int, rows: u16) -> int {
    sat_sub(n % 65536, sat_sub(rows as int, 3))
}

/// The cursor moved down one line, when there is a line below it.
pub open spec fn cursor_down(cursor: int, len: int) -> int {
    if cursor + 1 < len {
        cursor + 1
    } else {
        cursor
    }
}

pub open spec fn summary_key(s: SessionView, key: Key, ctx: ContextView) -> (SessionView, ActionView) {
    if key == Key::Char(' ') {
        (SessionView { showing_summary: false, step_index: 0, ..s }, ActionView::Stay)
    } else if key == Key::Down || key == Key::Char('j') {
        (
            SessionView {
                summary_scroll: scroll_down(
                    s.summary_scroll as int,
                    screen_max_scroll(ctx.summary_lines as int, ctx.rows),
                ) as u16,
                ..s
            },
            ActionView::Stay,
        )
    } else if key == Key::Up || key == Key::Char('k') {
        (SessionView { summary_scroll: sat_sub(s.summary_scroll as int, 3) as u16, ..s }, ActionView::Stay)
    } else {
        (s, ActionView::Stay)
    }
}

pub open spec fn assessment_key(s: SessionView, key: Key, ctx: ContextView) -> (SessionView, ActionView) {
    let a = s.assessment;
    if key == Key::Char('h') {
        match a.date_index {
            Some(i) => if i > 0 {
                (
                    SessionView {
                        assessment: AssessmentView { date_index: Some((i - 1) as usize), scroll: 0, ..a },
                        ..s
                    },
                    ActionView::Stay,
                )
            } else {
                (s, ActionView::Stay)
            },
            None => (s, ActionView::Stay),
        }
    } else if key == Key::Char('l') {
        match a.date_index {
            Some(i) => if i + 1 < a.dates.len() {
                (
                    SessionView {
                        assessment: AssessmentView { date_index: Some((i + 1) as usize), scroll: 0, ..a },
                        ..s
                    },
                    ActionView::Stay,
                )
            } else {
                (s, ActionView::Stay)
            },
            None => (s, ActionView::Stay),
        }
    } else if key == Key::Down || key == Key::Char('j') {
        (
            SessionView {
                assessment: AssessmentView {
                    scroll: scroll_down(
                        a.scroll as int,
                        screen_max_scroll(ctx.assessment_lines as int, ctx.rows),
                    ) as u16,
                    ..a
                },
                ..s
            },
            ActionView::Stay,
        )
    } else if key == Key::Up || key == Key::Char('k') {
        (
            SessionView { assessment: AssessmentView { scroll: sat_sub(a.scroll as int, 3) as u16, ..a }, ..s },
            ActionView::Stay,
        )
    } else if key == Key::Char('e') {
        match a.date_index {
            Some(i) => (s, ActionView::EditBoard(a.dates[i as int])),
            None => (s, ActionView::Stay),
        }
    } else if key == Key::Char('p') {
        (s, ActionView::RunPartner)
    } else if key == Key::Char(' ') {
        (SessionView { step_index: 1, ..s }, ActionView::OpenViewer)
    } else if key == Key::Char('b') {
        (SessionView { showing_summary: true, step_index: 0, ..s }, ActionView::Stay)
    } else {
        (s, ActionView::Stay)
    }
}

/// The entry at line `cursor` of a list viewer, if the list shows that line.
pub open spec fn entry_index(ps: Seq<ProjectView>, expanded: Seq<bool>, cursor: int) -> Option<int> {
    if 0 <= cursor < list_lines(ps, expanded) {
        Some(choose|i: int| entry_at(ps, expanded, cursor, i))
    } else {
        None
    }
}

/// The entry and the item at line `cursor` (item 0 for the entry's own line).
pub open spec fn item_index(ps: Seq<ProjectView>, expanded: Seq<bool>, cursor: int) -> Option<(int, int)> {
    match entry_index(ps, expanded, cursor) {
        Some(i) => Some(
            (
                i,
                if cursor == lines_before(ps, expanded, i) {
                    0
                } else {
                    cursor - lines_before(ps, expanded, i) - 1
                },
            ),
        ),
        None => None,
    }
}

/// The list viewer after the cursor moved: its view follows the cursor.
pub open spec fn list_moved(l: ListView, cursor: int, rows: u16) -> ListView {
    ListView {
        cursor: cursor as usize,
        scroll: follow(l.scroll as int, cursor, visible_rows(rows)) as usize,
        ..l
    }
}

pub open spec fn list_key(l: ListView, viewer: Option<ReviewViewer>, key: Key, ctx: ContextView) -> Option<(ListView, ActionView)> {
    let total: int = if is_list_viewer(viewer) {
        list_lines(ctx.list, l.expanded) as int
    } else {
        0
    };
    if key == Key::Char('j') {
        Some((list_moved(l, cursor_down(l.cursor as int, total), ctx.rows), ActionView::Stay))
    } else if key == Key::Char('k') {
        Some((list_moved(l, sat_sub(l.cursor as int, 1), ctx.rows), ActionView::Stay))
    } else if key == Key::Char('x') || key == Key::Enter {
        let at = if is_list_viewer(viewer) {
            entry_index(ctx.list, l.expanded, l.cursor as int)
        } else {
            None
        };
        match at {
            Some(i) => Some(
                (ListView { expanded: l.expanded.update(i, !l.expanded[i]), ..l }, ActionView::Stay),
            ),
            None => Some((l, ActionView::Stay)),
        }
    } else if key == Key::Char('g') {
        Some((ListView { cursor: 0, scroll: 0, ..l }, ActionView::Stay))
    } else if key == Key::Char('G') {
        if total > 0 {
            Some((list_moved(l, total - 1, ctx.rows), ActionView::Stay))
        } else {
            Some((l, ActionView::Stay))
        }
    } else if key == Key::Char('u') {
        Some((list_moved(l, sat_sub(l.cursor as int, 10), ctx.rows), ActionView::Stay))
    } else if key == Key::Char('n') {
        if viewer == Some(ReviewViewer::Projects) {
            match item_index(ctx.list, l.expanded, l.cursor as int) {
                Some((i, j)) => Some(
                    (
                        l,
                        ActionView::SaveProjects(
                            ctx.list.update(
                                i,
                                ProjectView { items: with_next_action(ctx.list[i].items, j), ..ctx.list[i] },
                            ),
                        ),
                    ),
                ),
                None => Some((l, ActionView::Stay)),
            }
        } else {
            Some((l, ActionView::Stay))
        }
    } else {
        None
    }
}

/// A cursor over `len` lines after a key: down, up, top, bottom or a page
/// up, with the first shown line following it; `None` for other keys.
pub open spec fn cursor_key(scroll: usize, cursor: usize, len: int, key: Key, down: bool, rows: u16) -> Option<(usize, usize)> {
    let moved = |c: int| Some((follow(scroll as int, c, visible_rows(rows)) as usize, c as usize));
    if key == Key::Char('j') || (down && key == Key::Down) {
        moved(cursor_down(cursor as int, len))
    } else if key == Key::Char('k') || (down && key == Key::Up) {
        moved(sat_sub(cursor as int, 1))
    } else if key == Key::Char('g') {
        Some((0usize, 0usize))
    } else if key == Key::Char('G') {
        if len > 0 {
            moved(len - 1)
        } else {
            Some((scroll, cursor))
        }
    } else if key == Key::Char('u') {
        moved(sat_sub(cursor as int, 10))
    } else {
        None
    }
}

pub open spec fn altitudes_key(a: AltitudesView, key: Key, rows: u16) -> Option<AltitudesView> {
    let max = sat_sub(a.lines.len() as int, sat_sub(rows as int, 16));
    let to = |sc: int| Some(AltitudesView { scroll: sc as usize, ..a });
    if key == Key::Char('j') || key == Key::Down {
        to(scroll_down(a.scroll as int, max))
    } else if key == Key::Char('k') || key == Key::Up {
        to(sat_sub(a.scroll as int, 3))
    } else if key == Key::Char('g') {
        to(0)
    } else if key == Key::Char('G') {
        to(max)
    } else if key == Key::Char('u') {
        to(sat_sub(a.scroll as int, 10))
    } else {
        None
    }
}

pub open spec fn trigger_key(t: TriggerView, key: Key) -> Option<TriggerView> {
    if key == Key::Char('l') {
        Some(
            if t.index < t.triggers.len() - 1 {
                TriggerView { index: (t.index + 1) as usize, ..t }
            } else {
                t
            },
        )
    } else if key == Key::Char('h') {
        Some(
            if t.index > 0 {
                TriggerView { index: (t.index - 1) as usize, ..t }
            } else {
                t
            },
        )
    } else if key == Key::Char('g') {
        Some(TriggerView { index: 0, ..t })
    } else if key == Key::Char('G') {
        Some(
            if t.triggers.len() > 0 {
                TriggerView { index: (t.triggers.len() - 1) as usize, ..t }
            } else {
                t
            },
        )
    } else {
        None
    }
}

pub open spec fn brainstorm_key(b: BrainstormView, key: Key, rows: u16) -> Option<(BrainstormView, ActionView)> {
    let moved = |c: int| Some(
        (
            BrainstormView {
                cursor: c as usize,
                scroll: follow(b.scroll as int, c, visible_rows(rows)) as usize,
                ..b
            },
            ActionView::Stay,
        ),
    );
    if key == Key::Char('j') {
        moved(cursor_down(b.cursor as int, b.lines.len() as int))
    } else if key == Key::Char('k') {
        moved(sat_sub(b.cursor as int, 1))
    } else if key == Key::Char('G') {
        moved(
            if b.lines.len() > 0 {
                b.lines.len() - 1
            } else {
                b.cursor as int
            },
        )
    } else if key == Key::Char('g') {
        Some((b, ActionView::RunBrainstorm))
    } else {
        None
    }
}

/// What a key does to the open viewer itself, if anything.
pub open spec fn own_key(s: SessionView, steps: Seq<StepView>, key: Key, ctx: ContextView) -> Option<(SessionView, ActionView)> {
    let with = |v: ViewerView| SessionView { viewer: v, ..s };
    match s.viewer {
        ViewerView::Nothing => None,
        ViewerView::List(l) => match list_key(l, steps[s.step_index as int].viewer, key, ctx) {
            Some((l2, a)) => Some((with(ViewerView::List(l2)), a)),
            None => None,
        },
        ViewerView::Calendar { scroll, cursor } => match cursor_key(
            scroll,
            cursor,
            ctx.calendar_len as int,
            key,
            true,
            ctx.rows,
        ) {
            Some((sc, c)) => Some((with(ViewerView::Calendar { scroll: sc, cursor: c }), ActionView::Stay)),
            None => None,
        },
        ViewerView::Checklists(c) => if key == Key::Char('e') {
            if c.cursor < c.files.len() {
                Some((s, ActionView::EditChecklist(c.files[c.cursor as int])))
            } else {
                Some((s, ActionView::Stay))
            }
        } else {
            match cursor_key(c.scroll, c.cursor, c.files.len() as int, key, false, ctx.rows) {
                Some((sc, cu)) => Some(
                    (with(ViewerView::Checklists(ChecklistsView { scroll: sc, cursor: cu, ..c })), ActionView::Stay),
                ),
                None => None,
            }
        },
        ViewerView::Altitudes(a) => match altitudes_key(a, key, ctx.rows) {
            Some(a2) => Some((with(ViewerView::Altitudes(a2)), ActionView::Stay)),
            None => None,
        },
        ViewerView::Trigger(t) => match trigger_key(t, key) {
            Some(t2) => Some((with(ViewerView::Trigger(t2)), ActionView::Stay)),
            None => None,
        },
        ViewerView::Brainstorm(b) => match brainstorm_key(b, key, ctx.rows) {
            Some((b2, a)) => Some((with(ViewerView::Brainstorm(b2)), a)),
            None => None,
        },
    }
}

/// On to the next step, when there is one.
pub open spec fn advance(s: SessionView, steps: Seq<StepView>) -> (SessionView, ActionView) {
    if s.step_index < steps.len() - 1 {
        (SessionView { step_index: (s.step_index + 1) as usize, ..s }, ActionView::OpenViewer)
    } else {
        (s, ActionView::Stay)
    }
}

/// On to the next step, or the review finished after the last.
pub open spec fn advance_or_finish(s: SessionView, steps: Seq<StepView>) -> (SessionView, ActionView) {
    if s.step_index < steps.len() - 1 {
        (SessionView { step_index: (s.step_index + 1) as usize, ..s }, ActionView::OpenViewer)
    } else {
        (SessionView { finished: true, ..s }, ActionView::Stay)
    }
}

/// Back to the previous step, or from the first step to the assessment.
pub open spec fn go_back(s: SessionView) -> (SessionView, ActionView) {
    if s.step_index > 1 {
        (SessionView { step_index: (s.step_index - 1) as usize, ..s }, ActionView::OpenViewer)
    } else if s.step_index == 1 {
        (SessionView { step_index: 0, ..s }, ActionView::Stay)
    } else {
        (s, ActionView::Stay)
    }
}

/// The keys every step answers to: edit the viewer's file, move between
/// steps, finish.
pub open spec fn step_key(s: SessionView, steps: Seq<StepView>, key: Key) -> (SessionView, ActionView) {
    let open = !(s.viewer is Nothing);
    if key == Key::Char('e') {
        match steps[s.step_index as int].viewer {
            Some(v) => (s, ActionView::EditViewer(v)),
            None => (s, ActionView::Stay),
        }
    } else if open && key == Key::Char(' ') {
        advance(s, steps)
    } else if open && key == Key::Char('b') {
        go_back(s)
    } else if open && key == Key::Char('D') {
        advance_or_finish(s, steps)
    } else if (s.viewer is Nothing || s.viewer is Altitudes) && (key == Key::Char(' ') || key
        == Key::Enter) {
        advance_or_finish(s, steps)
    } else if s.viewer is Nothing && key == Key::Down {
        advance(s, steps)
    } else if s.viewer is Nothing && (key == Key::Char('b') || key == Key::Up) {
        go_back(s)
    } else {
        (s, ActionView::Stay)
    }
}

/// What a key does during the review: quit, capture, then by the screen shown.
pub open spec fn review_next(s: SessionView, steps: Seq<StepView>, key: Key, ctx: ContextView) -> (SessionView, ActionView) {
    if key == Key::Char('q') || key == Key::CtrlC || s.finished {
        (s, ActionView::Quit)
    } else if key == Key::Char('c') {
        (s, ActionView::Capture)
    } else if s.showing_summary {
        summary_key(s, key, ctx)
    } else if s.step_index == 0 {
        assessment_key(s, key, ctx)
    } else {
        match own_key(s, steps, key, ctx) {
            Some(r) => r,
            None => step_key(s, steps, key),
        }
    }
}

/// A session over the review's steps: a step shown (the first, the
/// assessment, while the summary is), and a board date when one is chosen.
pub open spec fn session_wf(s: SessionView, steps: Seq<StepView>) -> bool {
    &&& 2 <= steps.len() <= usize::MAX
    &&& s.step_index < steps.len()
    &&& (s.showing_summary ==> s.step_index == 0)
    &&& (s.assessment.date_index matches Some(i) ==> i < s.assessment.dates.len())
}

/// Scrolling down by three from `scroll` towards `max` stays within `limit`.
pub open spec fn scroll_down_fits(scroll: int, max: int, limit: int) -> bool {
    scroll < max ==> scroll + 3 <= limit
}

/// The keys on which the review would stop on an arithmetic overflow or an
/// index out of range: they are left out.
pub open spec fn key_fits(s: SessionView, steps: Seq<StepView>, key: Key, ctx: ContextView) -> bool {
    let down = key == Key::Char('j') || key == Key::Down;
    let viewer = steps[s.step_index as int].viewer;
    &&& (s.showing_summary && down ==> scroll_down_fits(
        s.summary_scroll as int,
        screen_max_scroll(ctx.summary_lines as int, ctx.rows),
        u16::MAX as int,
    ))
    &&& (!s.showing_summary && s.step_index == 0 && down ==> scroll_down_fits(
        s.assessment.scroll as int,
        screen_max_scroll(ctx.assessment_lines as int, ctx.rows),
        u16::MAX as int,
    ))
    &&& (match s.viewer {
        ViewerView::List(l) => {
            &&& (key == Key::Char('j') || key == Key::Char('G')) && is_list_viewer(viewer) ==> list_lines(
                ctx.list,
                l.expanded,
            ) <= usize::MAX
            &&& key == Key::Char('j') ==> l.cursor < usize::MAX
            &&& (key == Key::Char('x') || key == Key::Enter) && is_list_viewer(viewer) ==> (entry_index(
                ctx.list,
                l.expanded,
                l.cursor as int,
            ) matches Some(i) ==> i < l.expanded.len())
            &&& key == Key::Char('n') && viewer == Some(ReviewViewer::Projects) ==> (item_index(
                ctx.list,
                l.expanded,
                l.cursor as int,
            ) matches Some((i, j)) ==> j < ctx.list[i].items.len())
        },
        ViewerView::Calendar { scroll, cursor } => down ==> cursor < usize::MAX,
        ViewerView::Checklists(c) => key == Key::Char('j') ==> c.cursor < usize::MAX,
        ViewerView::Altitudes(a) => down ==> scroll_down_fits(
            a.scroll as int,
            sat_sub(a.lines.len() as int, sat_sub(ctx.rows as int, 16)),
            usize::MAX as int,
        ),
        ViewerView::Trigger(t) => key == Key::Char('l') ==> t.triggers.len() > 0,
        ViewerView::Brainstorm(b) => {
            &&& key == Key::Char('j') ==> b.cursor < usize::MAX
            &&& key == Key::Char('G') && b.lines.len() == 0 && ctx.rows < 2 ==> b.cursor < usize::MAX
        },
        ViewerView::Nothing => true,
    })
}

// ── Keys, step by step ──────────────────────────────────────────────────

fn screen_max_scroll_exec(n: usize, rows: u16) -> (r: u16)
    ensures
        r == screen_max_scroll(n as int, rows),
{
    let n16 = (n % 65536) as u16;
    let bars: u16 = if rows >= 3 {
        rows - 3
    } else {
        0
    };
    if n16 >= bars {
        n16 - bars
    } else {
        0
    }
}

fn scroll_down_u16(scroll: u16, max: u16) -> (r: u16)
    requires
        scroll_down_fits(scroll as int, max as int, u16::MAX as int),
    ensures
        r == scroll_down(scroll as int, max as int),
{
    if scroll < max {
        let t = scroll + 3;
        if t <= max {
            t
        } else {
            max
        }
    } else {
        scroll
    }
}

fn sat_sub_u16(a: u16, b: u16) -> (r: u16)
    ensures
        r == sat_sub(a as int, b as int),
{
    if a >= b {
        a - b
    } else {
        0
    }
}

fn sat_sub_usize(a: usize, b: usize) -> (r: usize)
    ensures
        r == sat_sub(a as int, b as int),
{
    if a >= b {
        a - b
    } else {
        0
    }
}

fn summary_key_exec(s: &mut ReviewSession, key: Key, ctx: &ReviewContext) -> (r: ReviewAction)
    requires
        key == Key::Char('j') || key == Key::Down ==> scroll_down_fits(
            old(s).summary.scroll as int,
            screen_max_scroll(ctx.summary_lines as int, ctx.rows),
            u16::MAX as int,
        ),
    ensures
        (final(s)@, r@) == summary_key(old(s)@, key, ctx@),
{
    if key == Key::Char(' ') {
        s.showing_summary = false;
        s.step_index = 0;
    } else if key == Key::Down || key == Key::Char('j') {
        let max = screen_max_scroll_exec(ctx.summary_lines, ctx.rows);
        s.summary.scroll = scroll_down_u16(s.summary.scroll, max);
    } else if key == Key::Up || key == Key::Char('k') {
        s.summary.scroll = sat_sub_u16(s.summary.scroll, 3);
    }
    ReviewAction::Stay
}

fn assessment_key_exec(s: &mut ReviewSession, key: Key, ctx: &ReviewContext) -> (r: ReviewAction)
    requires
        old(s).assessment.date_index matches Some(i) ==> i < old(s).assessment.all_dates.len(),
        key == Key::Char('j') || key == Key::Down ==> scroll_down_fits(
            old(s).assessment.scroll as int,
            screen_max_scroll(ctx.assessment_lines as int, ctx.rows),
            u16::MAX as int,
        ),
    ensures
        (final(s)@, r@) == assessment_key(old(s)@, key, ctx@),
{
    if key == Key::Char('h') {
        match s.assessment.date_index {
            Some(i) => if i > 0 {
                s.assessment.date_index = Some(i - 1);
                s.assessment.scroll = 0;
            },
            None => {},
        }
        ReviewAction::Stay
    } else if key == Key::Char('l') {
        match s.assessment.date_index {
            Some(i) => if i + 1 < s.assessment.all_dates.len() {
                s.assessment.date_index = Some(i + 1);
                s.assessment.scroll = 0;
            },
            None => {},
        }
        ReviewAction::Stay
    } else if key == Key::Down || key == Key::Char('j') {
        let max = screen_max_scroll_exec(ctx.assessment_lines, ctx.rows);
        s.assessment.scroll = scroll_down_u16(s.assessment.scroll, max);
        ReviewAction::Stay
    } else if key == Key::Up || key == Key::Char('k') {
        s.assessment.scroll = sat_sub_u16(s.assessment.scroll, 3);
        ReviewAction::Stay
    } else if key == Key::Char('e') {
        match s.assessment.date_index {
            Some(i) => ReviewAction::EditBoard(copy_string(&s.assessment.all_dates[i])),
            None => ReviewAction::Stay,
        }
    } else if key == Key::Char('p') {
        ReviewAction::RunPartner
    } else if key == Key::Char(' ') {
        s.step_index = 1;
        ReviewAction::OpenViewer
    } else if key == Key::Char('b') {
        s.showing_summary = true;
        s.step_index = 0;
        ReviewAction::Stay
    } else {
        ReviewAction::Stay
    }
}

/// The entry at a line, as `list_item_at_line` finds it, is `entry_index`.
proof fn lemma_entry_index(ps: Seq<ProjectView>, expanded: Seq<bool>, cursor: int, i: int)
    requires
        entry_at(ps, expanded, cursor, i),
    ensures
        entry_index(ps, expanded, cursor) == Some(i),
{
    law_list_lines(ps, expanded, cursor, i, i);
    let k = choose|k: int| entry_at(ps, expanded, cursor, k);
    law_list_lines(ps, expanded, cursor, i, k);
}

fn list_moved_exec(l: &mut ListState, cursor: usize, rows: u16)
    requires
        rows >= 2 || cursor < usize::MAX,
    ensures
        final(l)@ == list_moved(old(l)@, cursor as int, rows),
{
    l.cursor = cursor;
    l.scroll = auto_scroll(l.scroll, cursor, rows);
}

fn list_key_exec(l: &mut ListState, viewer: Option<ReviewViewer>, key: Key, ctx: &ReviewContext) -> (r: Option<ReviewAction>)
    requires
        (key == Key::Char('j') || key == Key::Char('G')) && is_list_viewer(viewer) ==> list_lines(
            ctx@.list,
            old(l).expanded@,
        ) <= usize::MAX,
        key == Key::Char('j') ==> old(l).cursor < usize::MAX,
        (key == Key::Char('x') || key == Key::Enter) && is_list_viewer(viewer) ==> (entry_index(
            ctx@.list,
            old(l).expanded@,
            old(l).cursor as int,
        ) matches Some(i) ==> i < old(l).expanded@.len()),
        key == Key::Char('n') && viewer == Some(ReviewViewer::Projects) ==> (item_index(
            ctx@.list,
            old(l).expanded@,
            old(l).cursor as int,
        ) matches Some((i, j)) ==> j < ctx@.list[i].items.len()),
    ensures
        match list_key(old(l)@, viewer, key, ctx@) {
            Some((l2, a)) => r matches Some(x) && x@ == a && final(l)@ == l2,
            None => r is None && final(l)@ == old(l)@,
        },
{
    let rows = ctx.rows;
    if key == Key::Char('j') {
        let total = list_total_lines(viewer, &l.expanded, &ctx.list);
        let c = if l.cursor + 1 < total {
            l.cursor + 1
        } else {
            l.cursor
        };
        list_moved_exec(l, c, rows);
        Some(ReviewAction::Stay)
    } else if key == Key::Char('k') {
        let c = sat_sub_usize(l.cursor, 1);
        list_moved_exec(l, c, rows);
        Some(ReviewAction::Stay)
    } else if key == Key::Char('x') || key == Key::Enter {
        match list_item_at_line(viewer, &l.expanded, l.cursor, &ctx.list) {
            Some(i) => {
                proof {
                    lemma_entry_index(ctx@.list, l.expanded@, l.cursor as int, i as int);
                }
                let flag = l.expanded[i];
                l.expanded.set(i, !flag);
            },
            None => {},
        }
        Some(ReviewAction::Stay)
    } else if key == Key::Char('g') {
        l.cursor = 0;
        l.scroll = 0;
        Some(ReviewAction::Stay)
    } else if key == Key::Char('G') {
        let total = list_total_lines(viewer, &l.expanded, &ctx.list);
        if total > 0 {
            list_moved_exec(l, total - 1, rows);
        }
        Some(ReviewAction::Stay)
    } else if key == Key::Char('u') {
        let c = sat_sub_usize(l.cursor, 10);
        list_moved_exec(l, c, rows);
        Some(ReviewAction::Stay)
    } else if key == Key::Char('n') {
        if viewer == Some(ReviewViewer::Projects) {
            match list_item_at_line_with_item(&l.expanded, l.cursor, &ctx.list) {
                Some((i, j)) => {
                    proof {
                        lemma_entry_index(ctx@.list, l.expanded@, l.cursor as int, i as int);
                    }
                    let mut projects = copy_projects(&ctx.list);
                    mark_next_action(&mut projects, i, j);
                    Some(ReviewAction::SaveProjects(projects))
                },
                None => Some(ReviewAction::Stay),
            }
        } else {
            Some(ReviewAction::Stay)
        }
    } else {
        None
    }
}

fn cursor_key_exec(scroll: usize, cursor: usize, len: usize, key: Key, down: bool, rows: u16) -> (r: Option<(usize, usize)>)
    requires
        key == Key::Char('j') || (down && key == Key::Down) ==> cursor < usize::MAX,
    ensures
        r == cursor_key(scroll, cursor, len as int, key, down, rows),
{
    if key == Key::Char('j') || (down && key == Key::Down) {
        let c = if cursor + 1 < len {
            cursor + 1
        } else {
            cursor
        };
        Some((auto_scroll(scroll, c, rows), c))
    } else if key == Key::Char('k') || (down && key == Key::Up) {
        let c = sat_sub_usize(cursor, 1);
        Some((auto_scroll(scroll, c, rows), c))
    } else if key == Key::Char('g') {
        Some((0, 0))
    } else if key == Key::Char('G') {
        if len > 0 {
            Some((auto_scroll(scroll, len - 1, rows), len - 1))
        } else {
            Some((scroll, cursor))
        }
    } else if key == Key::Char('u') {
        let c = sat_sub_usize(cursor, 10);
        Some((auto_scroll(scroll, c, rows), c))
    } else {
        None
    }
}

fn altitudes_key_exec(a: &mut AltitudesState, key: Key, rows: u16) -> (r: bool)
    requires
        key == Key::Char('j') || key == Key::Down ==> scroll_down_fits(
            old(a).scroll as int,
            sat_sub(old(a).lines.len() as int, sat_sub(rows as int, 16)),
            usize::MAX as int,
        ),
    ensures
        match altitudes_key(old(a)@, key, rows) {
            Some(a2) => r && final(a)@ == a2,
            None => !r && final(a)@ == old(a)@,
        },
{
    let height = sat_sub_usize(rows as usize, 16);
    let max = sat_sub_usize(a.lines.len(), height);
    if key == Key::Char('j') || key == Key::Down {
        if a.scroll < max {
            let t = a.scroll + 3;
            a.scroll = if t <= max {
                t
            } else {
                max
            };
        }
        true
    } else if key == Key::Char('k') || key == Key::Up {
        a.scroll = sat_sub_usize(a.scroll, 3);
        true
    } else if key == Key::Char('g') {
        a.scroll = 0;
        true
    } else if key == Key::Char('G') {
        a.scroll = max;
        true
    } else if key == Key::Char('u') {
        a.scroll = sat_sub_usize(a.scroll, 10);
        true
    } else {
        false
    }
}

fn trigger_key_exec(t: &mut TriggerState, key: Key) -> (r: bool)
    requires
        key == Key::Char('l') ==> old(t).triggers.len() > 0,
    ensures
        match trigger_key(old(t)@, key) {
            Some(t2) => r && final(t)@ == t2,
            None => !r && final(t)@ == old(t)@,
        },
{
    if key == Key::Char('l') {
        if t.index < t.triggers.len() - 1 {
            t.index = t.index + 1;
        }
        true
    } else if key == Key::Char('h') {
        if t.index > 0 {
            t.index = t.index - 1;
        }
        true
    } else if key == Key::Char('g') {
        t.index = 0;
        true
    } else if key == Key::Char('G') {
        if t.triggers.len() > 0 {
            t.index = t.triggers.len() - 1;
        }
        true
    } else {
        false
    }
}

fn brainstorm_key_exec(b: &mut BrainstormState, key: Key, rows: u16) -> (r: Option<ReviewAction>)
    requires
        key == Key::Char('j') ==> old(b).cursor < usize::MAX,
        key == Key::Char('G') && old(b).lines.len() == 0 && rows < 2 ==> old(b).cursor < usize::MAX,
    ensures
        match brainstorm_key(old(b)@, key, rows) {
            Some((b2, a)) => r matches Some(x) && x@ == a && final(b)@ == b2,
            None => r is None && final(b)@ == old(b)@,
        },
{
    if key == Key::Char('j') {
        let c = if b.cursor + 1 < b.lines.len() {
            b.cursor + 1
        } else {
            b.cursor
        };
        b.cursor = c;
        b.scroll = auto_scroll(b.scroll, c, rows);
        Some(ReviewAction::Stay)
    } else if key == Key::Char('k') {
        let c = sat_sub_usize(b.cursor, 1);
        b.cursor = c;
        b.scroll = auto_scroll(b.scroll, c, rows);
        Some(ReviewAction::Stay)
    } else if key == Key::Char('G') {
        let c = if b.lines.len() > 0 {
            b.lines.len() - 1
        } else {
            b.cursor
        };
        b.cursor = c;
        b.scroll = auto_scroll(b.scroll, c, rows);
        Some(ReviewAction::Stay)
    } else if key == Key::Char('g') {
        Some(ReviewAction::RunBrainstorm)
    } else {
        None
    }
}

fn own_key_exec(s: &mut ReviewSession, steps: &Vec<ReviewStep>, key: Key, ctx: &ReviewContext) -> (r: Option<ReviewAction>)
    requires
        old(s).step_index < steps.len(),
        key_fits(old(s)@, step_views(steps@), key, ctx@),
    ensures
        match own_key(old(s)@, step_views(steps@), key, ctx@) {
            Some((s2, a)) => r matches Some(x) && x@ == a && final(s)@ == s2,
            None => r is None && final(s)@ == old(s)@,
        },
{
    let viewer = steps[s.step_index].viewer;
    assert(viewer == step_views(steps@)[s.step_index as int].viewer);
    let rows = ctx.rows;
    match &mut s.viewer {
        ViewerState::Nothing => None,
        ViewerState::List(l) => list_key_exec(l, viewer, key, ctx),
        ViewerState::Calendar(c) => {
            match cursor_key_exec(c.scroll, c.cursor, ctx.calendar_len, key, true, rows) {
                Some((sc, cu)) => {
                    c.scroll = sc;
                    c.cursor = cu;
                    Some(ReviewAction::Stay)
                },
                None => None,
            }
        },
        ViewerState::Checklists(c) => {
            if key == Key::Char('e') {
                if c.cursor < c.files.len() {
                    Some(ReviewAction::EditChecklist(copy_string(&c.files[c.cursor])))
                } else {
                    Some(ReviewAction::Stay)
                }
            } else {
                match cursor_key_exec(c.scroll, c.cursor, c.files.len(), key, false, rows) {
                    Some((sc, cu)) => {
                        c.scroll = sc;
                        c.cursor = cu;
                        Some(ReviewAction::Stay)
                    },
                    None => None,
                }
            }
        },
        ViewerState::Altitudes(a) => if altitudes_key_exec(a, key, rows) {
            Some(ReviewAction::Stay)
        } else {
            None
        },
        ViewerState::Trigger(t) => if trigger_key_exec(t, key) {
            Some(ReviewAction::Stay)
        } else {
            None
        },
        ViewerState::Brainstorm(b) => brainstorm_key_exec(b, key, rows),
    }
}

fn step_key_exec(s: &mut ReviewSession, steps: &Vec<ReviewStep>, key: Key) -> (r: ReviewAction)
    requires
        1 <= old(s).step_index < steps.len(),
    ensures
        (final(s)@, r@) == step_key(old(s)@, step_views(steps@), key),
{
    let open = match s.viewer {
        ViewerState::Nothing => false,
        _ => true,
    };
    let none = !open;
    let alt = match s.viewer {
        ViewerState::Altitudes(_) => true,
        _ => false,
    };
    let last = steps.len() - 1;
    if key == Key::Char('e') {
        match steps[s.step_index].viewer {
            Some(v) => ReviewAction::EditViewer(v),
            None => ReviewAction::Stay,
        }
    } else if (open && key == Key::Char(' ')) || (none && key == Key::Down) {
        if s.step_index < last {
            s.step_index = s.step_index + 1;
            ReviewAction::OpenViewer
        } else {
            ReviewAction::Stay
        }
    } else if (open && key == Key::Char('b')) || (none && (key == Key::Char('b') || key == Key::Up)) {
        if s.step_index > 1 {
            s.step_index = s.step_index - 1;
            ReviewAction::OpenViewer
        } else {
            s.step_index = 0;
            ReviewAction::Stay
        }
    } else if (open && key == Key::Char('D')) || ((none || alt) && (key == Key::Char(' ') || key
        == Key::Enter)) {
        if s.step_index < last {
            s.step_index = s.step_index + 1;
            ReviewAction::OpenViewer
        } else {
            s.finished = true;
            ReviewAction::Stay
        }
    } else {
        ReviewAction::Stay
    }
}

impl ReviewSession {
    /// A review starting on the summary screen, over the names of the files
    /// in the weekly boards' directory.
    pub fn new(board_names: &Vec<String>) -> (r: Self)
        ensures
            r.step_index == 0,
            !r.finished,
            r.showing_summary,
            r.summary.scroll == 0,
            sorted_texts(strs(r.assessment.all_dates@)),
            strs(r.assessment.all_dates@).to_multiset() == board_stems(strs(board_names@)).to_multiset(),
            r.assessment.date_index == (if r.assessment.all_dates.len() == 0 {
                None
            } else {
                Some((r.assessment.all_dates.len() - 1) as usize)
            }),
            r.assessment.scroll == 0,
            r.viewer@ is Nothing,
    {
        ReviewSession {
            step_index: 0,
            finished: false,
            showing_summary: true,
            summary: SummaryState::new(),
            assessment: AssessmentState::new(board_names),
            viewer: ViewerState::Nothing,
        }
    }

    /// What a key does: the session's next state and what the caller does next.
    pub fn review_key(&mut self, steps: &Vec<ReviewStep>, key: Key, ctx: &ReviewContext) -> (r: ReviewAction)
        requires
            session_wf(old(self)@, step_views(steps@)),
            key_fits(old(self)@, step_views(steps@), key, ctx@),
        ensures
            (final(self)@, r@) == review_next(old(self)@, step_views(steps@), key, ctx@),
            session_wf(final(self)@, step_views(steps@)),
    {
        if key == Key::Char('q') || key == Key::CtrlC || self.finished {
            return ReviewAction::Quit;
        }
        if key == Key::Char('c') {
            return ReviewAction::Capture;
        }
        if self.showing_summary {
            return summary_key_exec(self, key, ctx);
        }
        if self.step_index == 0 {
            return assessment_key_exec(self, key, ctx);
        }
        match own_key_exec(self, steps, key, ctx) {
            Some(a) => a,
            None => step_key_exec(self, steps, key),
        }
    }
}

// ── Opening a viewer ────────────────────────────────────────────────────

/// What the caller has read for the viewer of a step: the number of entries
/// of its list, the calendar and today's day number, the trigger list file,
/// the checklists directory's entries (name, and whether a file), the lines
/// of the altitudes view, and the brainstorm file. Only what the viewer
/// names is read; the rest may be left empty.
pub struct ViewerInputs {
    pub list_len: usize,
    pub events: Vec<CalendarEvent>,
    pub today: i32,
    pub trigger_file: Option<String>,
    pub checklist_entries: Vec<(String, bool)>,
    pub altitudes: Vec<crate::ui::StyledLine>,
    pub brainstorm_file: Option<String>,
}

pub open spec fn opt_string(o: Option<String>) -> Option<Seq<char>> {
    match o {
        Some(c) => Some(c@),
        None => None,
    }
}

/// Opens the viewer that a step names, or none.
pub fn init_viewer_state(viewer: Option<ReviewViewer>, inputs: ViewerInputs) -> (r: ViewerState)
    requires
        viewer == Some(ReviewViewer::Calendar) ==> events_fit(event_views(inputs.events@)),
    ensures
        (viewer is None ==> r@ is Nothing),
        (is_list_viewer(viewer) ==> r@ == ViewerView::List(
            ListView {
                scroll: 0,
                cursor: 0,
                expanded: Seq::new(
                    if inputs.list_len > 1 {
                        inputs.list_len as nat
                    } else {
                        1
                    },
                    |i: int| true,
                ),
            },
        )),
        (viewer == Some(ReviewViewer::Trigger) ==> r@ == ViewerView::Trigger(
            TriggerView { triggers: triggers_of(opt_string(inputs.trigger_file)), index: 0 },
        )),
        (viewer == Some(ReviewViewer::Calendar) ==> r@ == ViewerView::Calendar {
            scroll: sat_sub(calendar_cursor(event_views(inputs.events@), inputs.today as int), 2) as usize,
            cursor: calendar_cursor(event_views(inputs.events@), inputs.today as int) as usize,
        }),
        (viewer == Some(ReviewViewer::Checklists) ==> (r@ matches ViewerView::Checklists(c) && c.scroll == 0
            && c.cursor == 0 && sorted_texts(c.files) && c.files.to_multiset() == checklist_stems(
            inputs.checklist_entries@.map_values(|e: (String, bool)| (e.0@, e.1)),
        ).to_multiset())),
        (viewer == Some(ReviewViewer::Altitudes) ==> r@ == ViewerView::Altitudes(
            AltitudesView { lines: styled_views(inputs.altitudes@), scroll: 0 },
        )),
        (viewer == Some(ReviewViewer::Brainstorm) ==> r@ == ViewerView::Brainstorm(
            BrainstormView {
                lines: brainstorm_lines(opt_string(inputs.brainstorm_file)),
                scroll: 0,
                cursor: 0,
            },
        )),
{
    match viewer {
        Some(ReviewViewer::Calendar) => {
            let c = CalendarState::new(&inputs.events, inputs.today);
            ViewerState::Calendar(c)
        },
        Some(ReviewViewer::Projects) | Some(ReviewViewer::Waiting) | Some(ReviewViewer::Someday) => {
            ViewerState::List(ListState::new(inputs.list_len))
        },
        Some(ReviewViewer::Trigger) => {
            let t = match &inputs.trigger_file {
                Some(c) => TriggerState::new(Some(c.as_str())),
                None => TriggerState::new(None),
            };
            ViewerState::Trigger(t)
        },
        Some(ReviewViewer::Checklists) => {
            let files = load_checklist_files(&inputs.checklist_entries);
            ViewerState::Checklists(ChecklistsState::new(files))
        },
        Some(ReviewViewer::Altitudes) => ViewerState::Altitudes(AltitudesState::new(inputs.altitudes)),
        Some(ReviewViewer::Brainstorm) => {
            let b = match &inputs.brainstorm_file {
                Some(c) => BrainstormState::new(Some(c.as_str())),
                None => BrainstormState::new(None),
            };
            ViewerState::Brainstorm(b)
        },
        None => ViewerState::Nothing,
    }
}

// ── Keys that would stop the review ─────────────────────────────────────

/// The lines a list shows, when that number fits in `usize`.
fn list_lines_checked(expanded: &Vec<bool>, items: &Vec<Project>) -> (r: Option<usize>)
    ensures
        match r {
            Some(n) => n == list_lines(project_views(items@), expanded@),
            None => list_lines(project_views(items@), expanded@) > usize::MAX,
        },
{
    let ghost ps = project_views(items@);
    let mut total: usize = 0;
    let mut i: usize = 0;
    while i < items.len()
        invariant
            i <= items.len(),
            ps == project_views(items@),
            total == lines_before(ps, expanded@, i as int),
        decreases items.len() - i,
    {
        assert(ps[i as int] == items@[i as int]@);
        let show = if i < expanded.len() {
            expanded[i]
        } else {
            true
        };
        let n = if show {
            items[i].items.len()
        } else {
            0
        };
        if total == usize::MAX || n > usize::MAX - total - 1 {
            proof {
                crate::review::lemma_lines_before_grows(ps, expanded@, i + 1, items.len() as int);
            }
            return None;
        }
        total = total + 1 + n;
        i = i + 1;
    }
    Some(total)
}

impl ReviewSession {
    /// Whether the session is over the given steps and the key can be taken
    /// without an arithmetic overflow or an index out of range.
    pub fn key_allowed(&self, steps: &Vec<ReviewStep>, key: Key, ctx: &ReviewContext) -> (r: bool)
        ensures
            r == (session_wf(self@, step_views(steps@)) && key_fits(self@, step_views(steps@), key, ctx@)),
    {
        if steps.len() < 2 || self.step_index >= steps.len() || (self.showing_summary
            && self.step_index != 0) {
            return false;
        }
        match self.assessment.date_index {
            Some(i) => if i >= self.assessment.all_dates.len() {
                return false;
            },
            None => {},
        }
        let down = key == Key::Char('j') || key == Key::Down;
        if self.showing_summary && down {
            let max = screen_max_scroll_exec(ctx.summary_lines, ctx.rows);
            if self.summary.scroll < max && self.summary.scroll > u16::MAX - 3 {
                return false;
            }
        }
        if !self.showing_summary && self.step_index == 0 && down {
            let max = screen_max_scroll_exec(ctx.assessment_lines, ctx.rows);
            if self.assessment.scroll < max && self.assessment.scroll > u16::MAX - 3 {
                return false;
            }
        }
        let viewer = steps[self.step_index].viewer;
        assert(viewer == step_views(steps@)[self.step_index as int].viewer);
        let listed = viewer == Some(ReviewViewer::Projects) || viewer == Some(ReviewViewer::Waiting)
            || viewer == Some(ReviewViewer::Someday);
        match &self.viewer {
            ViewerState::List(l) => {
                if (key == Key::Char('j') || key == Key::Char('G')) && listed {
                    if list_lines_checked(&l.expanded, &ctx.list).is_none() {
                        return false;
                    }
                }
                if key == Key::Char('j') && l.cursor == usize::MAX {
                    return false;
                }
                if (key == Key::Char('x') || key == Key::Enter) && listed {
                    match list_item_at_line(viewer, &l.expanded, l.cursor, &ctx.list) {
                        Some(i) => {
                            proof {
                                lemma_entry_index(ctx@.list, l.expanded@, l.cursor as int, i as int);
                            }
                            if i >= l.expanded.len() {
                                return false;
                            }
                        },
                        None => {},
                    }
                }
                if key == Key::Char('n') && viewer == Some(ReviewViewer::Projects) {
                    match list_item_at_line_with_item(&l.expanded, l.cursor, &ctx.list) {
                        Some((i, j)) => {
                            proof {
                                lemma_entry_index(ctx@.list, l.expanded@, l.cursor as int, i as int);
                            }
                            assert(ctx@.list[i as int] == ctx.list@[i as int]@);
                            if j >= ctx.list[i].items.len() {
                                return false;
                            }
                        },
                        None => {},
                    }
                }
                true
            },
            ViewerState::Calendar(c) => !(down && c.cursor == usize::MAX),
            ViewerState::Checklists(c) => !(key == Key::Char('j') && c.cursor == usize::MAX),
            ViewerState::Altitudes(a) => {
                let height = sat_sub_usize(ctx.rows as usize, 16);
                let max = sat_sub_usize(a.lines.len(), height);
                !(down && a.scroll < max && a.scroll > usize::MAX - 3)
            },
            ViewerState::Trigger(t) => !(key == Key::Char('l') && t.triggers.len() == 0),
            ViewerState::Brainstorm(b) => {
                !(key == Key::Char('j') && b.cursor == usize::MAX) && !(key == Key::Char('G')
                    && b.lines.len() == 0 && ctx.rows < 2 && b.cursor == usize::MAX)
            },
            ViewerState::Nothing => true,
        }
    }
}

// ── What the review keeps ───────────────────────────────────────────────

/// `q` and Ctrl-C quit from every screen, and so does every key once the
/// review is finished.
pub proof fn law_quit(s: SessionView, steps: Seq<StepView>, key: Key, ctx: ContextView)
    requires
        key == Key::Char('q') || key == Key::CtrlC || s.finished,
    ensures
        review_next(s, steps, key, ctx) == (s, ActionView::Quit),
{
}

/// The review finishes only from its last step.
pub proof fn law_finish_at_last_step(s: SessionView, steps: Seq<StepView>, key: Key, ctx: ContextView)
    requires
        session_wf(s, steps),
        !s.finished,
        review_next(s, steps, key, ctx).0.finished,
    ensures
        s.step_index == steps.len() - 1,
        !s.showing_summary,
{
}

proof fn lemma_own_key_keeps_step(s: SessionView, steps: Seq<StepView>, key: Key, ctx: ContextView)
    ensures
        own_key(s, steps, key, ctx) matches Some((t, a)) ==> t.step_index == s.step_index
            && t.finished == s.finished && t.showing_summary == s.showing_summary && a
            != ActionView::OpenViewer,
{
    match s.viewer {
        ViewerView::Nothing => {},
        ViewerView::List(l) => {},
        ViewerView::Calendar { scroll, cursor } => {},
        ViewerView::Checklists(c) => {},
        ViewerView::Altitudes(al) => {},
        ViewerView::Trigger(tr) => {},
        ViewerView::Brainstorm(br) => {},
    }
}

/// A key moves the review by at most one step, but for the way back from
/// the assessment to the summary; and a move to a step after the assessment
/// opens that step's viewer.
pub proof fn law_one_step_at_a_time(s: SessionView, steps: Seq<StepView>, key: Key, ctx: ContextView)
    requires
        session_wf(s, steps),
    ensures
        ({
            let (t, a) = review_next(s, steps, key, ctx);
            &&& -1 <= t.step_index - s.step_index <= 1
            &&& (t.step_index != s.step_index && t.step_index != 0 ==> a == ActionView::OpenViewer)
        }),
{
    lemma_own_key_keeps_step(s, steps, key, ctx);
}

/// What holds of the review between keys: a step of the review is shown
/// (the first while the summary is), a chosen board date is one of the
/// dates, and the review is finished only on its last step.
pub open spec fn review_inv(s: SessionView, steps: Seq<StepView>) -> bool {
    &&& session_wf(s, steps)
    &&& (s.finished ==> s.step_index == steps.len() - 1)
}

/// The review loop keeps `review_inv` on every key it takes, and it quits on
/// `q`, on Ctrl-C and on any key once finished.
pub proof fn law_review_loop(s: SessionView, steps: Seq<StepView>, key: Key, ctx: ContextView)
    requires
        review_inv(s, steps),
    ensures
        review_inv(review_next(s, steps, key, ctx).0, steps),
        key == Key::Char('q') || key == Key::CtrlC || s.finished ==> review_next(s, steps, key, ctx).1
            == ActionView::Quit,
{
    lemma_own_key_keeps_step(s, steps, key, ctx);
    let t = review_next(s, steps, key, ctx).0;
    if !s.finished && t.finished {
        law_finish_at_last_step(s, steps, key, ctx);
    }
}

/// In the trigger-list viewer, `h` shows the trigger before the one shown
/// (staying on the first), and `l` the one after it (staying on the last);
/// the list, the step and the rest of the review stay as they are.
pub proof fn law_trigger_viewer_steps(s: SessionView, steps: Seq<StepView>, ctx: ContextView, t: TriggerView)
    requires
        !s.finished,
        !s.showing_summary,
        s.step_index != 0,
        s.viewer == ViewerView::Trigger(t),
        t.index < t.triggers.len(),
    ensures
        review_next(s, steps, Key::Char('h'), ctx) == (
            SessionView {
                viewer: ViewerView::Trigger(
                    TriggerView { triggers: t.triggers, index: if t.index > 0 { (t.index - 1) as usize } else { 0 } },
                ),
                ..s
            },
            ActionView::Stay,
        ),
        review_next(s, steps, Key::Char('l'), ctx) == (
            SessionView {
                viewer: ViewerView::Trigger(
                    TriggerView {
                        triggers: t.triggers,
                        index: if t.index + 1 < t.triggers.len() { (t.index + 1) as usize } else { t.index },
                    },
                ),
                ..s
            },
            ActionView::Stay,
        ),
{
}

} // verus!
