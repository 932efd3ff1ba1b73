//! Project-style lists (projects, waiting-for, agendas, someday/maybe): a
//! `## ` heading per entry, `- ` items under it, an optional
//! `<!-- goal: ... -->` comment, and a `## Completed` section.
use vstd::prelude::*;

use crate::text::{
    chars_of, contains, contains_chars, copy_chars, eq_chars, join_lines, lemma_fold_concat,
    lemma_join_lines_concat, lemma_join_lines_one, lemma_trim_id, lines, lines_of_str, lower_text,
    no_newline, opt_text, plain_line, push_all, seqs, slice, starts_with, starts_with_chars,
    ends_with, ends_with_chars, string_of, strip_prefix, strip_prefix_chars, strs, to_lowercase,
    trim, trim_chars, words, words_of, is_ws, strip_cr, copy_string, is_ascii_text, occurs_at,
};
use crate::text::lemma_trimmed_ends;
use crate::horizons::{bullet_lines, is_comment_line, comment_inner, push_bullet_lines};

verus! {

/// Whether a project is still open or done.
#[derive(Debug, Clone, Copy, PartialEq, Eq, Structural)]
pub enum ProjectStatus {
    Active,
    Completed,
}

/// An entry of a project-style list.
#[derive(Debug, Clone)]
pub struct Project {
    pub name: String,
    pub items: Vec<String>,
    pub goal: Option<String>,
    pub status: ProjectStatus,
}

pub struct ProjectView {
    pub name: Seq<char>,
    pub items: Seq<Seq<char>>,
    pub goal: Option<Seq<char>>,
    pub status: ProjectStatus,
}

impl View for Project {
    type V = ProjectView;

    open spec fn view(&self) -> ProjectView {
        ProjectView {
            name: self.name@,
            items: strs(self.items@),
            goal: opt_text(self.goal),
            status: self.status,
        }
    }
}

pub open spec fn project_views(v: Seq<Project>) -> Seq<ProjectView> {
    v.map_values(|p: Project| p@)
}

/// A reading in progress.
pub struct ProjectScan {
    pub active: Seq<ProjectView>,
    pub completed: Seq<ProjectView>,
    pub name: Option<Seq<char>>,
    pub items: Seq<Seq<char>>,
    pub goal: Option<Seq<char>>,
    pub section: ProjectStatus,
}

pub open spec fn project_start() -> ProjectScan {
    ProjectScan {
        active: seq![],
        completed: seq![],
        name: None,
        items: seq![],
        goal: None,
        section: ProjectStatus::Active,
    }
}

/// Closes the current entry, if one is open, into the list of its section.
pub open spec fn flush_project(st: ProjectScan) -> ProjectScan {
    match st.name {
        Some(n) => {
            let p = ProjectView { name: n, items: st.items, goal: st.goal, status: st.section };
            ProjectScan {
                active: if st.section == ProjectStatus::Active {
                    st.active.push(p)
                } else {
                    st.active
                },
                completed: if st.section == ProjectStatus::Completed {
                    st.completed.push(p)
                } else {
                    st.completed
                },
                name: None,
                items: seq![],
                goal: None,
                section: st.section,
            }
        },
        None => st,
    }
}

/// The goal that the words of a comment set: the last `goal:X` word.
pub open spec fn goal_of_words(goal: Option<Seq<char>>, parts: Seq<Seq<char>>) -> Option<Seq<char>>
    decreases parts.len(),
{
    if parts.len() == 0 {
        goal
    } else {
        match strip_prefix(parts.last(), "goal:"@) {
            Some(v) => Some(trim(v)),
            None => goal_of_words(goal, parts.drop_last()),
        }
    }
}

pub open spec fn project_step(st: ProjectScan, line: Seq<char>) -> ProjectScan {
    let t = trim(line);
    match strip_prefix(t, "## "@) {
        Some(h) => {
            let hl = lower_text(trim(h));
            if contains(hl, "completed"@) {
                ProjectScan { section: ProjectStatus::Completed, ..flush_project(st) }
            } else {
                let f = flush_project(st);
                ProjectScan {
                    name: Some(trim(h)),
                    section: if hl == "active"@ {
                        ProjectStatus::Active
                    } else {
                        f.section
                    },
                    ..f
                }
            }
        },
        None => if is_comment_line(t) {
            ProjectScan { goal: goal_of_words(st.goal, words(comment_inner(t))), ..st }
        } else {
            match strip_prefix(t, "- "@) {
                Some(item) => if st.name is Some {
                    ProjectScan { items: st.items.push(item), ..st }
                } else {
                    st
                },
                None => st,
            }
        },
    }
}

pub open spec fn project_scan(ls: Seq<Seq<char>>) -> ProjectScan {
    ls.fold_left(project_start(), |st: ProjectScan, l: Seq<char>| project_step(st, l))
}

/// The active and completed entries that a project-style file holds. A `## `
/// heading that contains `completed` (lowercased) starts the completed
/// section; any other `## ` heading opens an entry (`## Active` switches
/// back); `- ` lines are its items; in a comment line, the words are read
/// one at a time and a `goal:X` word sets the goal to `X` (so `goal: X`
/// sets an empty goal).
pub open spec fn projects_of(content: Seq<char>) -> (Seq<ProjectView>, Seq<ProjectView>) {
    let st = flush_project(project_scan(lines(content)));
    (st.active, st.completed)
}

/// Whether a project-style file can be read: no comment line is shorter than
/// `<!---->`.
pub open spec fn projects_readable(content: Seq<char>) -> bool {
    forall|i: int|
        0 <= i < lines(content).len() ==> !(is_comment_line(trim(#[trigger] lines(content)[i]))
            && trim(lines(content)[i]).len() < 7)
}

fn flush_exec(
    name: &mut Option<String>,
    items: &mut Vec<String>,
    goal: &mut Option<String>,
    section: ProjectStatus,
    active: &mut Vec<Project>,
    completed: &mut Vec<Project>,
)
    ensures
        flush_project(
            ProjectScan {
                active: project_views(old(active)@),
                completed: project_views(old(completed)@),
                name: opt_text(*old(name)),
                items: strs(old(items)@),
                goal: opt_text(*old(goal)),
                section: section,
            },
        ) == (ProjectScan {
            active: project_views(final(active)@),
            completed: project_views(final(completed)@),
            name: opt_text(*final(name)),
            items: strs(final(items)@),
            goal: opt_text(*final(goal)),
            section: section,
        }),
{
    match name.take() {
        Some(n) => {
            let mut its: Vec<String> = Vec::new();
            std::mem::swap(&mut its, items);
            let g = goal.take();
            let p = Project { name: n, items: its, goal: g, status: section };
            let ghost pv = p@;
            match section {
                ProjectStatus::Active => {
                    let ghost a0 = project_views(active@);
                    active.push(p);
                    assert(project_views(active@) =~= a0.push(pv));
                },
                ProjectStatus::Completed => {
                    let ghost c0 = project_views(completed@);
                    completed.push(p);
                    assert(project_views(completed@) =~= c0.push(pv));
                },
            }
            assert(strs(items@) =~= seq![]);
        },
        None => {},
    }
}

fn goal_of_words_exec(goal: &mut Option<String>, parts: &Vec<Vec<char>>)
    ensures
        opt_text(*final(goal)) == goal_of_words(opt_text(*old(goal)), seqs(parts@)),
{
    let key = chars_of("goal:");
    let mut k: usize = 0;
    assert(seqs(parts@).take(0) =~= seq![]);
    while k < parts.len()
        invariant
            k <= parts.len(),
            key@ == "goal:"@,
            opt_text(*goal) == goal_of_words(opt_text(*old(goal)), seqs(parts@).take(k as int)),
        decreases parts.len() - k,
    {
        assert(seqs(parts@).take(k + 1).drop_last() =~= seqs(parts@).take(k as int));
        match strip_prefix_chars(&parts[k], &key) {
            Some(v) => {
                *goal = Some(string_of(&trim_chars(&v)));
            },
            None => {},
        }
        k = k + 1;
    }
    assert(seqs(parts@).take(parts.len() as int) =~= seqs(parts@));
}

/// Reads a project-style file into its active and completed entries.
pub fn load_md_list_with_status(content: &str) -> (r: (Vec<Project>, Vec<Project>))
    requires
        projects_readable(content@),
    ensures
        (project_views(r.0@), project_views(r.1@)) == projects_of(content@),
{
    let ls = lines_of_str(content);
    let ghost lv = seqs(ls@);
    let ghost f = |st: ProjectScan, l: Seq<char>| project_step(st, l);
    let mut active: Vec<Project> = Vec::new();
    let mut completed: Vec<Project> = Vec::new();
    let mut name: Option<String> = None;
    let mut items: Vec<String> = Vec::new();
    let mut goal: Option<String> = None;
    let mut section = ProjectStatus::Active;
    let h2 = chars_of("## ");
    let dash = chars_of("- ");
    let open_c = chars_of("<!--");
    let close_c = chars_of("-->");
    let done_word = chars_of("completed");
    let active_word = chars_of("active");
    let mut i: usize = 0;
    assert(lv.take(0) =~= seq![]);
    assert(project_views(active@) =~= seq![]);
    assert(project_views(completed@) =~= seq![]);
    assert(strs(items@) =~= seq![]);
    while i < ls.len()
        invariant
            i <= ls.len(),
            lv == seqs(ls@),
            lv == lines(content@),
            projects_readable(content@),
            f == (|st: ProjectScan, l: Seq<char>| project_step(st, l)),
            h2@ == "## "@,
            dash@ == "- "@,
            open_c@ == "<!--"@,
            close_c@ == "-->"@,
            done_word@ == "completed"@,
            active_word@ == "active"@,
            lv.take(i as int).fold_left(project_start(), f) == (ProjectScan {
                active: project_views(active@),
                completed: project_views(completed@),
                name: opt_text(name),
                items: strs(items@),
                goal: opt_text(goal),
                section: section,
            }),
        decreases ls.len() - i,
    {
        assert(lv.take(i + 1).drop_last() =~= lv.take(i as int));
        assert(lv[i as int] == ls[i as int]@);
        let t = trim_chars(&ls[i]);
        match strip_prefix_chars(&t, &h2) {
            Some(h) => {
                let th = trim_chars(&h);
                let hl = to_lowercase(&th);
                assert(hl@ == lower_text(th@));
                if contains_chars(&hl, &done_word) {
                    flush_exec(&mut name, &mut items, &mut goal, section, &mut active, &mut completed);
                    section = ProjectStatus::Completed;
                } else {
                    flush_exec(&mut name, &mut items, &mut goal, section, &mut active, &mut completed);
                    name = Some(string_of(&th));
                    if eq_chars(&hl, &active_word) {
                        section = ProjectStatus::Active;
                    }
                }
            },
            None => {
                if starts_with_chars(&t, &open_c) && ends_with_chars(&t, &close_c) {
                    assert(!(is_comment_line(trim(lv[i as int])) && trim(lv[i as int]).len() < 7));
                    let inner = trim_chars(&slice(&t, 4, t.len() - 3));
                    let parts = words_of(&inner);
                    goal_of_words_exec(&mut goal, &parts);
                } else {
                    match strip_prefix_chars(&t, &dash) {
                        Some(item) => {
                            if name.is_some() {
                                let ghost i0 = strs(items@);
                                items.push(string_of(&item));
                                assert(strs(items@) =~= i0.push(item@));
                            }
                        },
                        None => {},
                    }
                }
            },
        }
        i = i + 1;
    }
    assert(lv.take(ls.len() as int) =~= lv);
    flush_exec(&mut name, &mut items, &mut goal, section, &mut active, &mut completed);
    (active, completed)
}

/// Whether a project-style file can be read (see `projects_readable`).
pub fn projects_md_readable(content: &str) -> (r: bool)
    ensures
        r == projects_readable(content@),
{
    let ls = lines_of_str(content);
    let ghost lv = seqs(ls@);
    let open_c = chars_of("<!--");
    let close_c = chars_of("-->");
    let mut i: usize = 0;
    while i < ls.len()
        invariant
            i <= ls.len(),
            lv == seqs(ls@),
            lv == lines(content@),
            open_c@ == "<!--"@,
            close_c@ == "-->"@,
            forall|j: int|
                0 <= j < i ==> !(is_comment_line(trim(#[trigger] lv[j])) && trim(lv[j]).len() < 7),
        decreases ls.len() - i,
    {
        assert(lv[i as int] == ls[i as int]@);
        let t = trim_chars(&ls[i]);
        if starts_with_chars(&t, &open_c) && ends_with_chars(&t, &close_c) && t.len() < 7 {
            assert(is_comment_line(trim(lines(content@)[i as int])));
            return false;
        }
        i = i + 1;
    }
    true
}

/// The active projects of `projects.md`.
pub fn load_projects(content: &str) -> (r: Vec<Project>)
    requires
        projects_readable(content@),
    ensures
        project_views(r@) == projects_of(content@).0,
{
    load_md_list(content)
}

/// The active entries of a project-style file.
pub fn load_md_list(content: &str) -> (r: Vec<Project>)
    requires
        projects_readable(content@),
    ensures
        project_views(r@) == projects_of(content@).0,
{
    load_md_list_with_status(content).0
}

/// The completed projects of `projects.md`.
pub fn load_completed_projects(content: &str) -> (r: Vec<Project>)
    requires
        projects_readable(content@),
    ensures
        project_views(r@) == projects_of(content@).1,
{
    load_md_list_with_status(content).1
}

/// The entries of `waiting-for.md`.
pub fn load_waiting_for(content: &str) -> (r: Vec<Project>)
    requires
        projects_readable(content@),
    ensures
        project_views(r@) == projects_of(content@).0,
{
    load_md_list(content)
}

/// The agendas of `agendas.md`, one entry per person.
pub fn load_agendas(content: &str) -> (r: Vec<Project>)
    requires
        projects_readable(content@),
    ensures
        project_views(r@) == projects_of(content@).0,
{
    load_md_list(content)
}

/// The entries of `someday-maybe.md`.
pub fn load_someday_maybe(content: &str) -> (r: Vec<Project>)
    requires
        projects_readable(content@),
    ensures
        project_views(r@) == projects_of(content@).0,
{
    load_md_list(content)
}

// ── Writing ─────────────────────────────────────────────────────────────

/// An entry as `save_projects` writes it: heading, items, empty line.
pub open spec fn project_md(p: ProjectView) -> Seq<char> {
    "## "@ + p.name + "\n"@ + bullet_lines(p.items) + "\n"@
}

pub open spec fn projects_md(ps: Seq<ProjectView>) -> Seq<char>
    decreases ps.len(),
{
    if ps.len() == 0 {
        seq![]
    } else {
        projects_md(ps.drop_last()) + project_md(ps.last())
    }
}

/// An active entry as `save_projects_with_completed` writes it: with its goal comment.
pub open spec fn project_goal_md(p: ProjectView) -> Seq<char> {
    "## "@ + p.name + "\n"@ + match p.goal {
        Some(g) => "<!-- goal: "@ + g + " -->\n"@,
        None => seq![],
    } + bullet_lines(p.items) + "\n"@
}

pub open spec fn projects_goal_md(ps: Seq<ProjectView>) -> Seq<char>
    decreases ps.len(),
{
    if ps.len() == 0 {
        seq![]
    } else {
        projects_goal_md(ps.drop_last()) + project_goal_md(ps.last())
    }
}

/// Active entries with their goals, then, if there are any, a `## Completed`
/// section with the completed entries.
pub open spec fn projects_with_completed_md(active: Seq<ProjectView>, completed: Seq<ProjectView>) -> Seq<
    char,
> {
    projects_goal_md(active) + if completed.len() == 0 {
        seq![]
    } else {
        "## Completed\n"@ + projects_md(completed)
    }
}

fn push_project_md(out: &mut Vec<char>, p: &Project, with_goal: bool)
    ensures
        final(out)@ == old(out)@ + if with_goal {
            project_goal_md(p@)
        } else {
            project_md(p@)
        },
{
    push_all(out, &chars_of("## "));
    push_all(out, &chars_of(p.name.as_str()));
    push_all(out, &chars_of("\n"));
    let ghost o1 = out@;
    if with_goal {
        match &p.goal {
            Some(g) => {
                push_all(out, &chars_of("<!-- goal: "));
                push_all(out, &chars_of(g.as_str()));
                push_all(out, &chars_of(" -->\n"));
            },
            None => {},
        }
    }
    let ghost o2 = out@;
    push_bullet_lines(out, &p.items);
    push_all(out, &chars_of("\n"));
    assert(out@ =~= old(out)@ + if with_goal {
        project_goal_md(p@)
    } else {
        project_md(p@)
    });
}

/// The text that `save_projects` writes to `projects.md`.
pub fn render_projects(projects: &Vec<Project>) -> (r: String)
    ensures
        r@ == projects_md(project_views(projects@)),
{
    let mut out: Vec<char> = Vec::new();
    let ghost pv = project_views(projects@);
    let mut k: usize = 0;
    assert(pv.take(0) =~= seq![]);
    while k < projects.len()
        invariant
            k <= projects.len(),
            pv == project_views(projects@),
            out@ == projects_md(pv.take(k as int)),
        decreases projects.len() - k,
    {
        assert(pv.take(k + 1).drop_last() =~= pv.take(k as int));
        push_project_md(&mut out, &projects[k], false);
        k = k + 1;
    }
    assert(pv.take(projects.len() as int) =~= pv);
    string_of(&out)
}

/// The text that `save_projects_with_completed` writes to `projects.md`.
pub fn render_projects_with_completed(active: &Vec<Project>, completed: &Vec<Project>) -> (r: String)
    ensures
        r@ == projects_with_completed_md(project_views(active@), project_views(completed@)),
{
    let mut out: Vec<char> = Vec::new();
    let ghost av = project_views(active@);
    let mut k: usize = 0;
    assert(av.take(0) =~= seq![]);
    while k < active.len()
        invariant
            k <= active.len(),
            av == project_views(active@),
            out@ == projects_goal_md(av.take(k as int)),
        decreases active.len() - k,
    {
        assert(av.take(k + 1).drop_last() =~= av.take(k as int));
        push_project_md(&mut out, &active[k], true);
        k = k + 1;
    }
    assert(av.take(active.len() as int) =~= av);
    if completed.len() > 0 {
        let ghost head = out@;
        push_all(&mut out, &chars_of("## Completed\n"));
        let ghost h2 = out@;
        let ghost cv = project_views(completed@);
        let mut j: usize = 0;
        assert(cv.take(0) =~= seq![]);
        assert(h2 + seq![] =~= h2);
        while j < completed.len()
            invariant
                j <= completed.len(),
                cv == project_views(completed@),
                out@ == h2 + projects_md(cv.take(j as int)),
            decreases completed.len() - j,
        {
            assert(cv.take(j + 1).drop_last() =~= cv.take(j as int));
            let ghost o0 = out@;
            push_project_md(&mut out, &completed[j], false);
            j = j + 1;
            assert(out@ =~= h2 + projects_md(cv.take(j as int)));
        }
        assert(cv.take(completed.len() as int) =~= cv);
        assert(out@ =~= projects_with_completed_md(av, cv));
    } else {
        assert(out@ =~= projects_with_completed_md(av, project_views(completed@)));
    }
    string_of(&out)
}

/// A copy of a project.
pub fn copy_project(p: &Project) -> (r: Project)
    ensures
        r@ == p@,
{
    let mut items: Vec<String> = Vec::new();
    let mut k: usize = 0;
    while k < p.items.len()
        invariant
            k <= p.items.len(),
            strs(items@) == strs(p.items@).take(k as int),
        decreases p.items.len() - k,
    {
        let ghost i0 = strs(items@);
        items.push(copy_string(&p.items[k]));
        assert(strs(items@) =~= i0.push(strs(p.items@)[k as int]));
        k = k + 1;
        assert(strs(p.items@).take(k as int) =~= i0.push(strs(p.items@)[k - 1]));
    }
    assert(strs(p.items@).take(p.items.len() as int) =~= strs(p.items@));
    let goal = match &p.goal {
        Some(g) => Some(copy_string(g)),
        None => None,
    };
    Project { name: copy_string(&p.name), items, goal, status: p.status }
}

/// A copy of a list of projects.
pub fn copy_projects(ps: &Vec<Project>) -> (r: Vec<Project>)
    ensures
        project_views(r@) == project_views(ps@),
{
    let mut r: Vec<Project> = Vec::new();
    let mut k: usize = 0;
    while k < ps.len()
        invariant
            k <= ps.len(),
            project_views(r@) == project_views(ps@).take(k as int),
        decreases ps.len() - k,
    {
        let ghost r0 = project_views(r@);
        r.push(copy_project(&ps[k]));
        assert(project_views(r@) =~= r0.push(project_views(ps@)[k as int]));
        k = k + 1;
        assert(project_views(ps@).take(k as int) =~= r0.push(project_views(ps@)[k - 1]));
    }
    assert(project_views(ps@).take(ps.len() as int) =~= project_views(ps@));
    r
}

// ── Next actions ────────────────────────────────────────────────────────

/// The next action of a project: an item marked `[>] `.
#[derive(Debug, Clone)]
pub struct NextAction {
    pub project_name: String,
    pub action: String,
    pub goal: Option<String>,
}

pub struct NextActionView {
    pub project_name: Seq<char>,
    pub action: Seq<char>,
    pub goal: Option<Seq<char>>,
}

impl View for NextAction {
    type V = NextActionView;

    open spec fn view(&self) -> NextActionView {
        NextActionView {
            project_name: self.project_name@,
            action: self.action@,
            goal: opt_text(self.goal),
        }
    }
}

/// The first `[>] ` item of a project, if any.
pub open spec fn first_marked(items: Seq<Seq<char>>) -> Option<Seq<char>>
    decreases items.len(),
{
    if items.len() == 0 {
        None
    } else if starts_with(items[0], "[>] "@) {
        Some(items[0])
    } else {
        first_marked(items.drop_first())
    }
}

/// The next actions of some projects: for each project with a `[>] ` item,
/// its first such item without the mark.
pub open spec fn next_actions_of(ps: Seq<ProjectView>) -> Seq<NextActionView>
    decreases ps.len(),
{
    if ps.len() == 0 {
        seq![]
    } else {
        let p = ps.last();
        match first_marked(p.items) {
            Some(item) => next_actions_of(ps.drop_last()).push(
                NextActionView {
                    project_name: p.name,
                    action: item.skip("[>] "@.len() as int),
                    goal: p.goal,
                },
            ),
            None => next_actions_of(ps.drop_last()),
        }
    }
}

proof fn lemma_next_actions_len(ps: Seq<ProjectView>)
    ensures
        next_actions_of(ps).len() <= ps.len(),
    decreases ps.len(),
{
    if ps.len() > 0 {
        lemma_next_actions_len(ps.drop_last());
    }
}

fn first_marked_exec(items: &Vec<String>, mark: &Vec<char>) -> (r: Option<Vec<char>>)
    requires
        mark@ == "[>] "@,
    ensures
        match r {
            Some(x) => first_marked(strs(items@)) == Some(x@) && starts_with(x@, "[>] "@),
            None => first_marked(strs(items@)) is None,
        },
{
    let ghost iv = strs(items@);
    let mut k: usize = 0;
    assert(iv.skip(0) =~= iv);
    while k < items.len()
        invariant
            k <= items.len(),
            iv == strs(items@),
            mark@ == "[>] "@,
            first_marked(iv) == first_marked(iv.skip(k as int)),
        decreases items.len() - k,
    {
        let it = chars_of(items[k].as_str());
        assert(iv.skip(k as int)[0] == it@);
        if starts_with_chars(&it, mark) {
            return Some(it);
        }
        assert(iv.skip(k as int).drop_first() =~= iv.skip(k + 1));
        k = k + 1;
    }
    None
}

/// Collects the next actions (`[>] ` items) of some projects; each project
/// gives at most one, its first marked item.
pub fn load_next_actions(projects: &Vec<Project>) -> (r: Vec<NextAction>)
    ensures
        r@.map_values(|a: NextAction| a@) == next_actions_of(project_views(projects@)),
        r@.len() <= projects@.len(),
{
    let mark = chars_of("[>] ");
    let ghost pv = project_views(projects@);
    let mut actions: Vec<NextAction> = Vec::new();
    let mut k: usize = 0;
    assert(pv.take(0) =~= seq![]);
    assert(actions@.map_values(|a: NextAction| a@) =~= seq![]);
    while k < projects.len()
        invariant
            k <= projects.len(),
            pv == project_views(projects@),
            mark@ == "[>] "@,
            actions@.map_values(|a: NextAction| a@) == next_actions_of(pv.take(k as int)),
        decreases projects.len() - k,
    {
        assert(pv.take(k + 1).drop_last() =~= pv.take(k as int));
        let p = &projects[k];
        match first_marked_exec(&p.items, &mark) {
            Some(item) => {
                proof {
                    reveal_strlit("[>] ");
                }
                let ghost a0 = actions@.map_values(|a: NextAction| a@);
                let goal = match &p.goal {
                    Some(g) => Some(copy_string(g)),
                    None => None,
                };
                let action = NextAction {
                    project_name: copy_string(&p.name),
                    action: string_of(&slice(&item, mark.len(), item.len())),
                    goal: goal,
                };
                actions.push(action);
                assert(actions@.map_values(|a: NextAction| a@) =~= a0.push(
                    NextActionView {
                        project_name: pv[k as int].name,
                        action: item@.skip("[>] "@.len() as int),
                        goal: pv[k as int].goal,
                    },
                ));
            },
            None => {},
        }
        k = k + 1;
    }
    assert(pv.take(projects.len() as int) =~= pv);
    proof {
        lemma_next_actions_len(pv);
    }
    actions
}


// ── Saving then loading gives the projects back ────────────────────────

/// A project that `save_projects` writes in a form that reads back the same:
/// an active project without a goal (which that form does not write), a
/// one-line trimmed name that does not read as the completed section, and
/// items that stay on their line and end with a non-space.
pub open spec fn project_fits(p: ProjectView) -> bool {
    &&& p.status == ProjectStatus::Active
    &&& p.goal is None
    &&& p.name.len() > 0
    &&& trim(p.name) == p.name
    &&& no_newline(p.name)
    &&& !contains(lower_text(p.name), "completed"@)
    &&& forall|i: int| 0 <= i < p.items.len() ==> crate::board::item_line(#[trigger] p.items[i])
}

/// The lines that `save_projects` writes for one project.
pub open spec fn project_lines(p: ProjectView) -> Seq<Seq<char>> {
    seq!["## "@ + p.name] + p.items.map_values(|x: Seq<char>| "- "@ + x) + seq![Seq::<char>::empty()]
}

pub open spec fn projects_lines(ps: Seq<ProjectView>) -> Seq<Seq<char>>
    decreases ps.len(),
{
    if ps.len() == 0 {
        seq![]
    } else {
        projects_lines(ps.drop_last()) + project_lines(ps.last())
    }
}

/// Writing projects with `save_projects` (`render_projects`) and reading the
/// file back with `load_projects` gives the same projects.
pub proof fn law_projects_round_trip(ps: Seq<ProjectView>)
    requires
        forall|i: int| 0 <= i < ps.len() ==> project_fits(#[trigger] ps[i]),
    ensures
        projects_readable(projects_md(ps)),
        projects_of(projects_md(ps)) == (ps, Seq::<ProjectView>::empty()),
{
    lemma_projects_md_lines(ps);
    lemma_projects_lines_plain(ps);
    crate::text::lemma_lines_join_lines(projects_lines(ps));
    lemma_projects_lines_readable(ps);
    let f = |st: ProjectScan, l: Seq<char>| project_step(st, l);
    lemma_scan_projects(ps);
    if ps.len() > 0 {
        let st = projects_lines(ps).fold_left(project_start(), f);
        assert(flush_project(st).active =~= ps.drop_last().push(ps.last()));
        assert(ps.drop_last().push(ps.last()) =~= ps);
    }
}

/// The state after reading the lines of some projects: all but the last
/// stored, the last one open.
pub open spec fn open_after(ps: Seq<ProjectView>) -> ProjectScan {
    if ps.len() == 0 {
        project_start()
    } else {
        ProjectScan {
            active: ps.drop_last(),
            completed: seq![],
            name: Some(ps.last().name),
            items: ps.last().items,
            goal: None,
            section: ProjectStatus::Active,
        }
    }
}

proof fn lemma_scan_projects(ps: Seq<ProjectView>)
    requires
        forall|i: int| 0 <= i < ps.len() ==> project_fits(#[trigger] ps[i]),
    ensures
        projects_lines(ps).fold_left(project_start(), |st: ProjectScan, l: Seq<char>| project_step(st, l))
            == open_after(ps),
    decreases ps.len(),
{
    let f = |st: ProjectScan, l: Seq<char>| project_step(st, l);
    if ps.len() > 0 {
        let init = ps.drop_last();
        assert forall|i: int| 0 <= i < init.len() implies project_fits(#[trigger] init[i]) by {
            assert(init[i] == ps[i]);
        }
        lemma_scan_projects(init);
        assert(project_fits(ps[ps.len() - 1]));
        lemma_fold_concat(projects_lines(init), project_lines(ps.last()), project_start(), f);
        lemma_scan_one(init, ps.last());
        if init.len() > 0 {
            assert(init.drop_last().push(init.last()) =~= init);
        }
        assert(flush_project(open_after(init)).active =~= ps.drop_last());
    }
}

/// Reading one project's lines after others: the open one is stored and this
/// one opened.
proof fn lemma_scan_one(done: Seq<ProjectView>, p: ProjectView)
    requires
        project_fits(p),
    ensures
        project_lines(p).fold_left(open_after(done), |st: ProjectScan, l: Seq<char>| project_step(st, l))
            == (ProjectScan {
            active: flush_project(open_after(done)).active,
            completed: seq![],
            name: Some(p.name),
            items: p.items,
            goal: None,
            section: ProjectStatus::Active,
        }),
{
    reveal_strlit("## ");
    reveal_strlit("- ");
    reveal_strlit("<!--");
    let f = |st: ProjectScan, l: Seq<char>| project_step(st, l);
    let e: Seq<char> = seq![];
    let h = "## "@ + p.name;
    let its = p.items.map_values(|x: Seq<char>| "- "@ + x);
    // the heading
    crate::text::lemma_trimmed_ends(p.name);
    assert(h[0] == '#');
    assert(h.last() == p.name.last());
    lemma_trim_id(h);
    assert(h.subrange(0, 3) =~= "## "@);
    assert(h.skip(3) =~= p.name);
    let st0 = open_after(done);
    let st1 = ProjectScan {
        active: flush_project(st0).active,
        completed: seq![],
        name: Some(p.name),
        items: seq![],
        goal: None,
        section: ProjectStatus::Active,
    };
    assert(seq![h].drop_last() =~= Seq::<Seq<char>>::empty());
    assert(Seq::<Seq<char>>::empty().fold_left(st0, f) == st0);
    assert(seq![h].last() == h);
    assert(seq![h].fold_left(st0, f) == st1);
    // the items
    lemma_scan_items(st1, p.items);
    assert(Seq::<Seq<char>>::empty() + p.items =~= p.items);
    let st2 = ProjectScan { items: p.items, ..st1 };
    // the empty line
    assert(trim(e) == e);
    assert(!is_comment_line(e));
    assert(seq![e].drop_last() =~= Seq::<Seq<char>>::empty());
    assert(Seq::<Seq<char>>::empty().fold_left(st2, f) == st2);
    assert(seq![e].last() == e);
    assert(seq![e].fold_left(st2, f) == st2);
    lemma_fold_concat(seq![h] + its, seq![e], st0, f);
    lemma_fold_concat(seq![h], its, st0, f);
}

proof fn lemma_scan_items(st: ProjectScan, items: Seq<Seq<char>>)
    requires
        st.name is Some,
        forall|i: int| 0 <= i < items.len() ==> crate::board::item_line(#[trigger] items[i]),
    ensures
        items.map_values(|x: Seq<char>| "- "@ + x).fold_left(st, |s: ProjectScan, l: Seq<char>| project_step(s, l))
            == (ProjectScan { items: st.items + items, ..st }),
    decreases items.len(),
{
    reveal_strlit("## ");
    reveal_strlit("- ");
    reveal_strlit("<!--");
    let f = |s: ProjectScan, l: Seq<char>| project_step(s, l);
    let m = items.map_values(|x: Seq<char>| "- "@ + x);
    if items.len() == 0 {
        assert(m =~= Seq::<Seq<char>>::empty());
        assert(st.items + items =~= st.items);
    } else {
        let init = items.drop_last();
        assert forall|i: int| 0 <= i < init.len() implies crate::board::item_line(#[trigger] init[i]) by {
            assert(init[i] == items[i]);
        }
        lemma_scan_items(st, init);
        assert(m.drop_last() =~= init.map_values(|x: Seq<char>| "- "@ + x));
        let x = items.last();
        assert(crate::board::item_line(items[items.len() - 1]));
        let l = "- "@ + x;
        assert(m.last() == l);
        assert(l[0] == '-');
        assert(l.last() == x.last());
        lemma_trim_id(l);
        assert(l.subrange(0, 2) =~= "- "@);
        assert(l.skip(2) =~= x);
        assert(l.subrange(0, 3)[0] == '-');
        assert(!starts_with(l, "## "@));
        assert(!is_comment_line(l)) by {
            if starts_with(l, "<!--"@) {
                assert(l.subrange(0, 4)[0] == l[0]);
            }
        }
        assert((st.items + init).push(x) =~= st.items + items);
    }
}

proof fn lemma_project_md_lines(p: ProjectView)
    ensures
        project_md(p) == join_lines(project_lines(p)),
{
    reveal_strlit("\n");
    let e: Seq<char> = seq![];
    let h = "## "@ + p.name;
    let its = p.items.map_values(|x: Seq<char>| "- "@ + x);
    lemma_join_lines_one(h);
    lemma_join_lines_one(e);
    crate::board::lemma_bullets_join(p.items);
    lemma_join_lines_concat(seq![h], its);
    lemma_join_lines_concat(seq![h] + its, seq![e]);
    assert(project_md(p) =~= join_lines(project_lines(p)));
}

proof fn lemma_projects_md_lines(ps: Seq<ProjectView>)
    ensures
        projects_md(ps) == join_lines(projects_lines(ps)),
    decreases ps.len(),
{
    if ps.len() > 0 {
        lemma_projects_md_lines(ps.drop_last());
        lemma_project_md_lines(ps.last());
        lemma_join_lines_concat(projects_lines(ps.drop_last()), project_lines(ps.last()));
    }
}

proof fn lemma_projects_lines_plain(ps: Seq<ProjectView>)
    requires
        forall|i: int| 0 <= i < ps.len() ==> project_fits(#[trigger] ps[i]),
    ensures
        forall|i: int| 0 <= i < projects_lines(ps).len() ==> plain_line(#[trigger] projects_lines(ps)[i]),
        forall|i: int|
            0 <= i < projects_lines(ps).len() ==> !(is_comment_line(
                trim(#[trigger] projects_lines(ps)[i]),
            )),
    decreases ps.len(),
{
    reveal_strlit("## ");
    reveal_strlit("- ");
    reveal_strlit("<!--");
    if ps.len() > 0 {
        let init = ps.drop_last();
        assert forall|i: int| 0 <= i < init.len() implies project_fits(#[trigger] init[i]) by {
            assert(init[i] == ps[i]);
        }
        lemma_projects_lines_plain(init);
        let p = ps.last();
        assert(project_fits(ps[ps.len() - 1]));
        let a = projects_lines(init);
        let b = project_lines(p);
        crate::text::lemma_trimmed_ends(p.name);
        assert forall|i: int| 0 <= i < b.len() implies plain_line(#[trigger] b[i]) && !is_comment_line(
            trim(b[i]),
        ) by {
            if i == 0 {
                let h = "## "@ + p.name;
                assert(b[i] == h);
                assert(h.last() == p.name.last());
                assert forall|j: int| 0 <= j < h.len() implies h[j] != '\n' by {
                    if j >= 3 {
                        assert(h[j] == p.name[j - 3]);
                    }
                }
                assert(h[0] == '#');
                lemma_trim_id(h);
                if starts_with(h, "<!--"@) {
                    assert(h.subrange(0, 4)[0] == h[0]);
                }
            } else if i < b.len() - 1 {
                let x = p.items[i - 1];
                assert(crate::board::item_line(x));
                let l = "- "@ + x;
                assert(b[i] == l);
                assert(l.last() == x.last());
                assert forall|j: int| 0 <= j < l.len() implies l[j] != '\n' by {
                    if j >= 2 {
                        assert(l[j] == x[j - 2]);
                    }
                }
                assert(l[0] == '-');
                lemma_trim_id(l);
                if starts_with(l, "<!--"@) {
                    assert(l.subrange(0, 4)[0] == l[0]);
                }
            } else {
                assert(b[i] == Seq::<char>::empty());
                assert(trim(Seq::<char>::empty()) == Seq::<char>::empty());
            }
        }
        assert forall|i: int| 0 <= i < (a + b).len() implies plain_line(#[trigger] (a + b)[i]) && !(
        is_comment_line(trim((a + b)[i]))) by {
            if i < a.len() {
                assert((a + b)[i] == a[i]);
            } else {
                assert((a + b)[i] == b[i - a.len()]);
            }
        }
    }
}

proof fn lemma_projects_lines_readable(ps: Seq<ProjectView>)
    requires
        forall|i: int| 0 <= i < ps.len() ==> project_fits(#[trigger] ps[i]),
        lines(projects_md(ps)) == projects_lines(ps),
    ensures
        projects_readable(projects_md(ps)),
{
    lemma_projects_lines_plain(ps);
}

// ── Saving with the completed section, then loading ────────────────────

/// The comment line that `save_projects_with_completed` writes for a goal.
pub open spec fn goal_line(g: Seq<char>) -> Seq<char> {
    "<!-- goal: "@ + g + " -->"@
}

/// What a goal written in its comment line reads back as: the comment's
/// words read as `load_projects` reads them (so `goal: X` gives an empty
/// goal, and only a goal that starts with `goal:` gives more).
pub open spec fn goal_back(goal: Option<Seq<char>>) -> Option<Seq<char>> {
    match goal {
        Some(g) => goal_of_words(None, words(comment_inner(goal_line(g)))),
        None => None,
    }
}

/// A name and items that read back as they are under a `## ` heading, in
/// either section.
pub open spec fn entry_fits(p: ProjectView) -> bool {
    &&& p.name.len() > 0
    &&& trim(p.name) == p.name
    &&& no_newline(p.name)
    &&& !contains(lower_text(p.name), "completed"@)
    &&& forall|i: int| 0 <= i < p.items.len() ==> crate::board::item_line(#[trigger] p.items[i])
}

/// The lines written for one entry, with its goal line when `with_goal`.
pub open spec fn entry_lines(p: ProjectView, with_goal: bool) -> Seq<Seq<char>> {
    seq!["## "@ + p.name] + (if with_goal && p.goal is Some {
        seq![goal_line(p.goal->0)]
    } else {
        seq![]
    }) + p.items.map_values(|x: Seq<char>| "- "@ + x) + seq![Seq::<char>::empty()]
}

pub open spec fn entries_lines(ps: Seq<ProjectView>, with_goal: bool) -> Seq<Seq<char>>
    decreases ps.len(),
{
    if ps.len() == 0 {
        seq![]
    } else {
        entries_lines(ps.drop_last(), with_goal) + entry_lines(ps.last(), with_goal)
    }
}

/// The entries as they are read back in section `sec`.
pub open spec fn read_back(ps: Seq<ProjectView>, with_goal: bool, sec: ProjectStatus) -> Seq<ProjectView> {
    ps.map_values(
        |p: ProjectView|
            ProjectView {
                goal: if with_goal {
                    goal_back(p.goal)
                } else {
                    None
                },
                status: sec,
                ..p
            },
    )
}

/// The entries, written by `save_projects_with_completed` in one section,
/// that read back as they are.
pub open spec fn entries_fit(ps: Seq<ProjectView>, with_goal: bool, sec: ProjectStatus) -> bool {
    forall|i: int|
        0 <= i < ps.len() ==> {
            &&& entry_fits(#[trigger] ps[i])
            &&& (with_goal && ps[i].goal is Some ==> no_newline(ps[i].goal->0))
            &&& (sec == ProjectStatus::Completed ==> lower_text(ps[i].name) != "active"@)
        }
}

proof fn lemma_goal_line(g: Seq<char>)
    requires
        no_newline(g),
    ensures
        trim(goal_line(g)) == goal_line(g),
        is_comment_line(goal_line(g)),
        goal_line(g).len() >= 7,
        !starts_with(goal_line(g), "## "@),
        plain_line(goal_line(g)),
{
    reveal_strlit("<!-- goal: ");
    reveal_strlit(" -->");
    reveal_strlit("<!--");
    reveal_strlit("-->");
    reveal_strlit("## ");
    let t = goal_line(g);
    let n = t.len();
    assert(t[0] == '<');
    assert(t[n - 1] == '>');
    lemma_trim_id(t);
    assert(t.subrange(0, 4) =~= "<!--"@);
    assert(t.subrange(n - 3, n as int) =~= "-->"@);
    assert(t.subrange(0, 3)[0] == '<');
    assert forall|j: int| 0 <= j < t.len() implies t[j] != '\n' by {
        if 11 <= j < 11 + g.len() {
            assert(t[j] == g[j - 11]);
        }
    }
}

proof fn lemma_entry_scan(st: ProjectScan, p: ProjectView, with_goal: bool)
    requires
        entry_fits(p),
        with_goal && p.goal is Some ==> no_newline(p.goal->0),
        st.section == ProjectStatus::Active || lower_text(p.name) != "active"@,
        st.name is Some || (st.goal is None && st.items.len() == 0),
    ensures
        entry_lines(p, with_goal).fold_left(st, |s: ProjectScan, l: Seq<char>| project_step(s, l))
            == (ProjectScan {
            active: flush_project(st).active,
            completed: flush_project(st).completed,
            name: Some(p.name),
            items: p.items,
            goal: if with_goal {
                goal_back(p.goal)
            } else {
                None
            },
            section: st.section,
        }),
{
    reveal_strlit("## ");
    reveal_strlit("- ");
    reveal_strlit("<!--");
    let f = |s: ProjectScan, l: Seq<char>| project_step(s, l);
    let e: Seq<char> = seq![];
    let h = "## "@ + p.name;
    let its = p.items.map_values(|x: Seq<char>| "- "@ + x);
    crate::text::lemma_trimmed_ends(p.name);
    assert(h[0] == '#');
    assert(h.last() == p.name.last());
    lemma_trim_id(h);
    assert(h.subrange(0, 3) =~= "## "@);
    assert(h.skip(3) =~= p.name);
    let st1 = ProjectScan {
        active: flush_project(st).active,
        completed: flush_project(st).completed,
        name: Some(p.name),
        items: seq![],
        goal: None,
        section: st.section,
    };
    assert(seq![h].drop_last() =~= Seq::<Seq<char>>::empty());
    assert(seq![h].last() == h);
    assert(Seq::<Seq<char>>::empty().fold_left(st, f) == st);
    assert(strip_prefix(trim(h), "## "@) == Some(p.name));
    assert(flush_project(st).section == st.section);
    if st.name is None {
        assert(st.items =~= Seq::<Seq<char>>::empty());
    }
    assert(project_step(st, h) == st1);
    assert(seq![h].fold_left(st, f) == st1);
    let gl: Seq<Seq<char>> = if with_goal && p.goal is Some {
        seq![goal_line(p.goal->0)]
    } else {
        seq![]
    };
    let st2 = ProjectScan {
        goal: if with_goal {
            goal_back(p.goal)
        } else {
            None
        },
        ..st1
    };
    if with_goal && p.goal is Some {
        let g = p.goal->0;
        lemma_goal_line(g);
        assert(gl.drop_last() =~= Seq::<Seq<char>>::empty());
        assert(gl.last() == goal_line(g));
        assert(project_step(st1, goal_line(g)) == st2);
        assert(Seq::<Seq<char>>::empty().fold_left(st1, f) == st1);
        assert(gl.fold_left(st1, f) == f(gl.drop_last().fold_left(st1, f), gl.last()));
    } else {
        assert(gl =~= Seq::<Seq<char>>::empty());
        assert(st2 == st1);
    }
    assert(gl.fold_left(st1, f) == st2);
    lemma_scan_items(st2, p.items);
    assert(Seq::<Seq<char>>::empty() + p.items =~= p.items);
    let st3 = ProjectScan { items: p.items, ..st2 };
    assert(trim(e) == e);
    assert(!is_comment_line(e));
    assert(seq![e].drop_last() =~= Seq::<Seq<char>>::empty());
    assert(seq![e].last() == e);
    assert(Seq::<Seq<char>>::empty().fold_left(st3, f) == st3);
    assert(project_step(st3, e) == st3);
    assert(seq![e].fold_left(st3, f) == st3);
    lemma_fold_concat(seq![h], gl, st, f);
    lemma_fold_concat(seq![h] + gl, its, st, f);
    lemma_fold_concat(seq![h] + gl + its, seq![e], st, f);
}

/// The state after reading some entries in section `sec` from a state with
/// no entry open: all but the last stored, the last one open.
pub open spec fn entries_after(st0: ProjectScan, ps: Seq<ProjectView>, with_goal: bool) -> ProjectScan {
    if ps.len() == 0 {
        st0
    } else {
        let done = read_back(ps.drop_last(), with_goal, st0.section);
        ProjectScan {
            active: if st0.section == ProjectStatus::Active {
                st0.active + done
            } else {
                st0.active
            },
            completed: if st0.section == ProjectStatus::Completed {
                st0.completed + done
            } else {
                st0.completed
            },
            name: Some(ps.last().name),
            items: ps.last().items,
            goal: if with_goal {
                goal_back(ps.last().goal)
            } else {
                None
            },
            section: st0.section,
        }
    }
}

proof fn lemma_entries_scan(st0: ProjectScan, ps: Seq<ProjectView>, with_goal: bool)
    requires
        st0.name is None,
        st0.goal is None,
        st0.items.len() == 0,
        entries_fit(ps, with_goal, st0.section),
    ensures
        entries_lines(ps, with_goal).fold_left(st0, |s: ProjectScan, l: Seq<char>| project_step(s, l))
            == entries_after(st0, ps, with_goal),
        flush_project(entries_after(st0, ps, with_goal)).active == if st0.section == ProjectStatus::Active {
            st0.active + read_back(ps, with_goal, st0.section)
        } else {
            st0.active
        },
        flush_project(entries_after(st0, ps, with_goal)).completed == if st0.section
            == ProjectStatus::Completed {
            st0.completed + read_back(ps, with_goal, st0.section)
        } else {
            st0.completed
        },
    decreases ps.len(),
{
    let f = |s: ProjectScan, l: Seq<char>| project_step(s, l);
    let sec = st0.section;
    if ps.len() == 0 {
        assert(entries_lines(ps, with_goal) =~= Seq::<Seq<char>>::empty());
        assert(read_back(ps, with_goal, sec) =~= Seq::<ProjectView>::empty());
        assert(st0.active + Seq::<ProjectView>::empty() =~= st0.active);
        assert(st0.completed + Seq::<ProjectView>::empty() =~= st0.completed);
    } else {
        let init = ps.drop_last();
        assert(entries_fit(init, with_goal, sec)) by {
            assert forall|i: int| 0 <= i < init.len() implies {
                &&& entry_fits(#[trigger] init[i])
                &&& (with_goal && init[i].goal is Some ==> no_newline(init[i].goal->0))
                &&& (sec == ProjectStatus::Completed ==> lower_text(init[i].name) != "active"@)
            } by {
                assert(init[i] == ps[i]);
            }
        }
        lemma_entries_scan(st0, init, with_goal);
        let mid = entries_after(st0, init, with_goal);
        let p = ps.last();
        assert(p == ps[ps.len() - 1]);
        lemma_fold_concat(entries_lines(init, with_goal), entry_lines(p, with_goal), st0, f);
        lemma_entry_scan(mid, p, with_goal);
        assert(read_back(init, with_goal, sec) =~= read_back(ps, with_goal, sec).drop_last());
        assert(read_back(ps, with_goal, sec).last() == ProjectView {
            goal: if with_goal {
                goal_back(p.goal)
            } else {
                None
            },
            status: sec,
            ..p
        });
        assert(read_back(ps, with_goal, sec) =~= read_back(init, with_goal, sec).push(read_back(ps, with_goal, sec).last()));
        if init.len() == 0 {
            assert(read_back(init, with_goal, sec) =~= Seq::<ProjectView>::empty());
            assert(st0.active + Seq::<ProjectView>::empty() =~= st0.active);
            assert(st0.completed + Seq::<ProjectView>::empty() =~= st0.completed);
        } else {
            assert(read_back(init.drop_last(), with_goal, sec) =~= read_back(init, with_goal, sec).drop_last());
            assert(read_back(init, with_goal, sec) =~= read_back(init.drop_last(), with_goal, sec).push(
                read_back(init, with_goal, sec).last(),
            ));
        }
        assert(flush_project(entries_after(st0, ps, with_goal)).active =~= (if sec == ProjectStatus::Active {
            st0.active + read_back(ps, with_goal, sec)
        } else {
            st0.active
        }));
        assert(flush_project(entries_after(st0, ps, with_goal)).completed =~= (if sec
            == ProjectStatus::Completed {
            st0.completed + read_back(ps, with_goal, sec)
        } else {
            st0.completed
        }));
    }
}

proof fn lemma_entry_md_lines(p: ProjectView, with_goal: bool)
    ensures
        (if with_goal {
            project_goal_md(p)
        } else {
            project_md(p)
        }) == join_lines(entry_lines(p, with_goal)),
{
    reveal_strlit("\n");
    reveal_strlit(" -->\n");
    reveal_strlit(" -->");
    let e: Seq<char> = seq![];
    let h = "## "@ + p.name;
    let its = p.items.map_values(|x: Seq<char>| "- "@ + x);
    lemma_project_md_lines(p);
    if with_goal && p.goal is Some {
        let g = p.goal->0;
        let gl = goal_line(g);
        lemma_join_lines_one(h);
        lemma_join_lines_one(gl);
        lemma_join_lines_one(e);
        crate::board::lemma_bullets_join(p.items);
        lemma_join_lines_concat(seq![h], seq![gl]);
        lemma_join_lines_concat(seq![h] + seq![gl], its);
        lemma_join_lines_concat(seq![h] + seq![gl] + its, seq![e]);
        assert(project_goal_md(p) =~= join_lines(entry_lines(p, with_goal)));
    } else {
        assert(entry_lines(p, with_goal) =~= project_lines(p));
        if with_goal {
            assert(project_goal_md(p) =~= project_md(p));
        }
    }
}

proof fn lemma_entries_md_lines(ps: Seq<ProjectView>, with_goal: bool)
    ensures
        (if with_goal {
            projects_goal_md(ps)
        } else {
            projects_md(ps)
        }) == join_lines(entries_lines(ps, with_goal)),
    decreases ps.len(),
{
    if ps.len() > 0 {
        lemma_entries_md_lines(ps.drop_last(), with_goal);
        lemma_entry_md_lines(ps.last(), with_goal);
        lemma_join_lines_concat(entries_lines(ps.drop_last(), with_goal), entry_lines(ps.last(), with_goal));
    }
}

/// A line that reads as plain text and is no comment line too short to read.
pub open spec fn readable_line(l: Seq<char>) -> bool {
    plain_line(l) && !(is_comment_line(trim(l)) && trim(l).len() < 7)
}

pub open spec fn all_readable(ls: Seq<Seq<char>>) -> bool {
    forall|i: int| 0 <= i < ls.len() ==> readable_line(#[trigger] ls[i])
}

proof fn lemma_readable_concat(a: Seq<Seq<char>>, b: Seq<Seq<char>>)
    requires
        all_readable(a),
        all_readable(b),
    ensures
        all_readable(a + b),
{
    assert forall|i: int| 0 <= i < (a + b).len() implies readable_line(#[trigger] (a + b)[i]) by {
        if i < a.len() {
            assert((a + b)[i] == a[i]);
        } else {
            assert((a + b)[i] == b[i - a.len()]);
        }
    }
}

proof fn lemma_entries_readable(ps: Seq<ProjectView>, with_goal: bool, sec: ProjectStatus)
    requires
        entries_fit(ps, with_goal, sec),
    ensures
        all_readable(entries_lines(ps, with_goal)),
    decreases ps.len(),
{
    reveal_strlit("## ");
    reveal_strlit("- ");
    reveal_strlit("<!--");
    if ps.len() > 0 {
        let init = ps.drop_last();
        assert(entries_fit(init, with_goal, sec)) by {
            assert forall|i: int| 0 <= i < init.len() implies {
                &&& entry_fits(#[trigger] init[i])
                &&& (with_goal && init[i].goal is Some ==> no_newline(init[i].goal->0))
                &&& (sec == ProjectStatus::Completed ==> lower_text(init[i].name) != "active"@)
            } by {
                assert(init[i] == ps[i]);
            }
        }
        lemma_entries_readable(init, with_goal, sec);
        let p = ps.last();
        assert(p == ps[ps.len() - 1]);
        let h = "## "@ + p.name;
        let e: Seq<char> = seq![];
        let its = p.items.map_values(|x: Seq<char>| "- "@ + x);
        crate::text::lemma_trimmed_ends(p.name);
        assert(all_readable(seq![h])) by {
            assert(h.last() == p.name.last());
            assert forall|j: int| 0 <= j < h.len() implies h[j] != '\n' by {
                if j >= 3 {
                    assert(h[j] == p.name[j - 3]);
                }
            }
            assert(h[0] == '#');
            lemma_trim_id(h);
            if starts_with(h, "<!--"@) {
                assert(h.subrange(0, 4)[0] == h[0]);
            }
            assert(readable_line(seq![h][0]));
        }
        let gl: Seq<Seq<char>> = if with_goal && p.goal is Some {
            seq![goal_line(p.goal->0)]
        } else {
            seq![]
        };
        assert(all_readable(gl)) by {
            if with_goal && p.goal is Some {
                lemma_goal_line(p.goal->0);
                assert(readable_line(gl[0]));
            }
        }
        assert(all_readable(its)) by {
            assert forall|k: int| 0 <= k < its.len() implies readable_line(#[trigger] its[k]) by {
                let x = p.items[k];
                assert(crate::board::item_line(x));
                let l = "- "@ + x;
                assert(its[k] == l);
                assert(l.last() == x.last());
                assert forall|j: int| 0 <= j < l.len() implies l[j] != '\n' by {
                    if j >= 2 {
                        assert(l[j] == x[j - 2]);
                    }
                }
                assert(l[0] == '-');
                lemma_trim_id(l);
                if starts_with(l, "<!--"@) {
                    assert(l.subrange(0, 4)[0] == l[0]);
                }
            }
        }
        assert(all_readable(seq![e])) by {
            assert(trim(e) =~= e);
            assert(readable_line(seq![e][0]));
        }
        lemma_readable_concat(seq![h], gl);
        lemma_readable_concat(seq![h] + gl, its);
        lemma_readable_concat(seq![h] + gl + its, seq![e]);
        lemma_readable_concat(entries_lines(init, with_goal), entry_lines(p, with_goal));
    }
}

/// The lines that `save_projects_with_completed` writes.
pub open spec fn with_completed_lines(active: Seq<ProjectView>, completed: Seq<ProjectView>) -> Seq<Seq<char>> {
    entries_lines(active, true) + if completed.len() == 0 {
        seq![]
    } else {
        seq!["## Completed"@] + entries_lines(completed, false)
    }
}

/// Saving projects with `save_projects_with_completed`
/// (`render_projects_with_completed`) and reading the file back gives the
/// completed projects with no goal (that form writes none) and the completed
/// status, and the active projects with their names and items, each goal as
/// its comment line reads back (`goal_back`); for names and items that the
/// form carries as they are, and goals on one line.
pub proof fn law_completed_round_trip(active: Seq<ProjectView>, completed: Seq<ProjectView>)
    requires
        entries_fit(active, true, ProjectStatus::Active),
        entries_fit(completed, false, ProjectStatus::Completed),
    ensures
        projects_readable(projects_with_completed_md(active, completed)),
        projects_of(projects_with_completed_md(active, completed)) == (
            read_back(active, true, ProjectStatus::Active),
            read_back(completed, false, ProjectStatus::Completed),
        ),
{
    reveal_strlit("## Completed\n");
    reveal_strlit("## Completed");
    reveal_strlit("\n");
    reveal_strlit("## ");
    reveal_strlit("completed");
    reveal_strlit("Completed");
    reveal_strlit("<!--");
    let md = projects_with_completed_md(active, completed);
    let ls = with_completed_lines(active, completed);
    let hc = "## Completed"@;
    // the text is the lines joined
    lemma_entries_md_lines(active, true);
    lemma_entries_md_lines(completed, false);
    let tail: Seq<Seq<char>> = if completed.len() == 0 {
        seq![]
    } else {
        seq![hc] + entries_lines(completed, false)
    };
    lemma_join_lines_concat(entries_lines(active, true), tail);
    if completed.len() > 0 {
        lemma_join_lines_concat(seq![hc], entries_lines(completed, false));
        lemma_join_lines_one(hc);
    }
    assert(md =~= join_lines(ls));
    // every line is plain and readable
    lemma_entries_readable(active, true, ProjectStatus::Active);
    lemma_entries_readable(completed, false, ProjectStatus::Completed);
    assert(all_readable(tail)) by {
        if completed.len() > 0 {
            assert(hc[0] == '#');
            assert(hc.last() == 'd');
            lemma_trim_id(hc);
            assert(all_readable(seq![hc])) by {
                if starts_with(hc, "<!--"@) {
                    assert(hc.subrange(0, 4)[0] == hc[0]);
                }
                assert(readable_line(seq![hc][0]));
            }
            lemma_readable_concat(seq![hc], entries_lines(completed, false));
        }
    }
    lemma_readable_concat(entries_lines(active, true), tail);
    crate::text::lemma_lines_join_lines(ls);
    assert(lines(md) == ls);
    // reading
    let f = |st: ProjectScan, l: Seq<char>| project_step(st, l);
    let st0 = project_start();
    lemma_entries_scan(st0, active, true);
    lemma_fold_concat(entries_lines(active, true), tail, st0, f);
    let s1 = entries_after(st0, active, true);
    let ra = read_back(active, true, ProjectStatus::Active);
    let rc = read_back(completed, false, ProjectStatus::Completed);
    assert(Seq::<ProjectView>::empty() + ra =~= ra);
    if completed.len() == 0 {
        assert(tail.fold_left(s1, f) == s1);
        assert(rc =~= Seq::<ProjectView>::empty());
    } else {
        // the `## Completed` heading
        assert(hc.subrange(0, 3) =~= "## "@);
        assert(hc.skip(3) =~= "Completed"@);
        lemma_trim_id("Completed"@);
        assert(is_ascii_text("Completed"@));
        assert(lower_text("Completed"@) =~= "completed"@);
        assert("completed"@.subrange(0, 9) =~= "completed"@);
        assert(occurs_at("completed"@, "completed"@, 0));
        crate::text::lemma_find("completed"@, "completed"@);
        assert(contains(lower_text(trim("Completed"@)), "completed"@));
        let s2 = ProjectScan { section: ProjectStatus::Completed, ..flush_project(s1) };
        assert(project_step(s1, hc) == s2);
        assert(seq![hc].drop_last() =~= Seq::<Seq<char>>::empty());
        assert(Seq::<Seq<char>>::empty().fold_left(s1, f) == s1);
        assert(seq![hc].fold_left(s1, f) == s2);
        lemma_fold_concat(seq![hc], entries_lines(completed, false), s1, f);
        lemma_entries_scan(s2, completed, false);
        assert(Seq::<ProjectView>::empty() + rc =~= rc);
    }
}

} // verus!
