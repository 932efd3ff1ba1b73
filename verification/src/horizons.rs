//! The upper horizons of focus: purpose (H5), vision (H4), goals (H3) and
//! areas of focus (H2), each kept as a markdown file.
use vstd::prelude::*;

use crate::text::{
    chars_of, contains, contains_chars, copy_string, ends_with, ends_with_chars, find, find_chars,
    find_from_chars, lemma_find, lemma_find_from, lines, lines_of_str, lowercase, opt_text, owned,
    seqs, slice, starts_with, is_ascii_text, ascii_lower_char, starts_with_chars, string_of, strip_prefix, strip_prefix_chars, strs,
    to_lowercase, trim, trim_chars, words, words_of, eq_chars, concat, push_all,
};

verus! {

// ── Profile (H5) ────────────────────────────────────────────────────────

/// Who the user is: name, purpose, core values and roles.
#[derive(Debug, Clone)]
pub struct Profile {
    pub name: String,
    pub purpose: String,
    pub core_values: Vec<String>,
    pub roles: Vec<String>,
}

pub struct ProfileView {
    pub name: Seq<char>,
    pub purpose: Seq<char>,
    pub core_values: Seq<Seq<char>>,
    pub roles: Seq<Seq<char>>,
}

impl View for Profile {
    type V = ProfileView;

    open spec fn view(&self) -> ProfileView {
        ProfileView {
            name: self.name@,
            purpose: self.purpose@,
            core_values: strs(self.core_values@),
            roles: strs(self.roles@),
        }
    }
}

pub open spec fn empty_profile() -> ProfileView {
    ProfileView { name: seq![], purpose: seq![], core_values: seq![], roles: seq![] }
}

impl Default for Profile {
    fn default() -> (r: Self)
        ensures
            r@ == empty_profile(),
    {
        let r = Profile {
            name: String::new(),
            purpose: String::new(),
            core_values: Vec::new(),
            roles: Vec::new(),
        };
        assert(r@.core_values =~= seq![]);
        assert(r@.roles =~= seq![]);
        r
    }
}

/// The reading of `purpose.md` after some lines: the current `## ` section
/// (lowercased) and the profile so far.
pub open spec fn profile_step(st: (Seq<char>, ProfileView), line: Seq<char>) -> (
    Seq<char>,
    ProfileView,
) {
    let t = trim(line);
    let (section, p) = st;
    match strip_prefix(t, "## "@) {
        Some(h) => (lowercase(trim(h)), p),
        None => match strip_prefix(t, "- "@) {
            Some(raw) => {
                let item = trim(raw);
                if item.len() == 0 {
                    st
                } else if section == "identity"@ {
                    match strip_prefix(item, "Name:"@) {
                        Some(v) => (section, ProfileView { name: trim(v), ..p }),
                        None => match strip_prefix(item, "Purpose:"@) {
                            Some(v) => (section, ProfileView { purpose: trim(v), ..p }),
                            None => st,
                        },
                    }
                } else if section == "core values"@ {
                    (section, ProfileView { core_values: p.core_values.push(item), ..p })
                } else if section == "roles"@ {
                    (section, ProfileView { roles: p.roles.push(item), ..p })
                } else {
                    st
                }
            },
            None => st,
        },
    }
}

pub open spec fn profile_scan(ls: Seq<Seq<char>>) -> (Seq<char>, ProfileView)
    decreases ls.len(),
{
    if ls.len() == 0 {
        (seq![], empty_profile())
    } else {
        profile_step(profile_scan(ls.drop_last()), ls.last())
    }
}

/// The profile that `purpose.md` holds: `- Name:` and `- Purpose:` items under
/// `## Identity`, and the items under `## Core Values` and `## Roles`.
pub open spec fn profile_of(content: Seq<char>) -> ProfileView {
    profile_scan(lines(content)).1
}

/// Reads `purpose.md`.
pub fn parse_profile_md(content: &str) -> (r: Profile)
    ensures
        r@ == profile_of(content@),
{
    let ls = lines_of_str(content);
    let ghost lv = seqs(ls@);
    let mut profile = Profile::default();
    let mut section: Vec<char> = Vec::new();
    let h2 = chars_of("## ");
    let dash = chars_of("- ");
    let identity = chars_of("identity");
    let values = chars_of("core values");
    let roles = chars_of("roles");
    let name_key = chars_of("Name:");
    let purpose_key = chars_of("Purpose:");
    let mut i: usize = 0;
    assert(lv.take(0) =~= seq![]);
    while i < ls.len()
        invariant
            i <= ls.len(),
            lv == seqs(ls@),
            lv == lines(content@),
            h2@ == "## "@,
            dash@ == "- "@,
            identity@ == "identity"@,
            values@ == "core values"@,
            roles@ == "roles"@,
            name_key@ == "Name:"@,
            purpose_key@ == "Purpose:"@,
            profile_scan(lv.take(i as int)) == (section@, profile@),
        decreases ls.len() - i,
    {
        assert(lv.take(i + 1).drop_last() =~= lv.take(i as int));
        let ghost before = profile@;
        let t = trim_chars(&ls[i]);
        match strip_prefix_chars(&t, &h2) {
            Some(h) => {
                section = to_lowercase(&trim_chars(&h));
            },
            None => match strip_prefix_chars(&t, &dash) {
                Some(raw) => {
                    let item = trim_chars(&raw);
                    if item.len() == 0 {
                    } else if eq_chars(&section, &identity) {
                        match strip_prefix_chars(&item, &name_key) {
                            Some(v) => {
                                profile.name = string_of(&trim_chars(&v));
                            },
                            None => match strip_prefix_chars(&item, &purpose_key) {
                                Some(v) => {
                                    profile.purpose = string_of(&trim_chars(&v));
                                },
                                None => {},
                            },
                        }
                    } else if eq_chars(&section, &values) {
                        profile.core_values.push(string_of(&item));
                        assert(profile@.core_values =~= before.core_values.push(item@));
                    } else if eq_chars(&section, &roles) {
                        profile.roles.push(string_of(&item));
                        assert(profile@.roles =~= before.roles.push(item@));
                    }
                },
                None => {},
            },
        }
        i = i + 1;
    }
    assert(lv.take(ls.len() as int) =~= lv);
    profile
}

// ── Goals (H3) ──────────────────────────────────────────────────────────

/// Where a goal stands.
#[derive(Debug, Clone, Copy, PartialEq, Eq, Structural)]
pub enum GoalStatus {
    Active,
    Completed,
    Deferred,
    Dropped,
}

pub open spec fn goal_status_name(s: GoalStatus) -> Seq<char> {
    match s {
        GoalStatus::Active => "active"@,
        GoalStatus::Completed => "completed"@,
        GoalStatus::Deferred => "deferred"@,
        GoalStatus::Dropped => "dropped"@,
    }
}

/// The status a text names, compared after lowercasing; any other text is `Active`.
pub open spec fn goal_status_named(s: Seq<char>) -> GoalStatus {
    let l = lowercase(s);
    if l == "completed"@ {
        GoalStatus::Completed
    } else if l == "deferred"@ {
        GoalStatus::Deferred
    } else if l == "dropped"@ {
        GoalStatus::Dropped
    } else {
        GoalStatus::Active
    }
}

impl GoalStatus {
    pub fn _as_str(&self) -> (r: &'static str)
        ensures
            r@ == goal_status_name(*self),
    {
        match self {
            GoalStatus::Active => "active",
            GoalStatus::Completed => "completed",
            GoalStatus::Deferred => "deferred",
            GoalStatus::Dropped => "dropped",
        }
    }

    pub fn from_str(s: &str) -> (r: GoalStatus)
        ensures
            r == goal_status_named(s@),
            is_ascii_text(s@) ==> r == goal_status_named_ascii(s@),
    {
        let l = to_lowercase(&chars_of(s));
        if eq_chars(&l, &chars_of("completed")) {
            GoalStatus::Completed
        } else if eq_chars(&l, &chars_of("deferred")) {
            GoalStatus::Deferred
        } else if eq_chars(&l, &chars_of("dropped")) {
            GoalStatus::Dropped
        } else {
            GoalStatus::Active
        }
    }
}

/// The status an ASCII text names: the same comparison, with ASCII lowercasing.
pub open spec fn goal_status_named_ascii(s: Seq<char>) -> GoalStatus {
    let l = s.map_values(|c: char| ascii_lower_char(c));
    if l == "completed"@ {
        GoalStatus::Completed
    } else if l == "deferred"@ {
        GoalStatus::Deferred
    } else if l == "dropped"@ {
        GoalStatus::Dropped
    } else {
        GoalStatus::Active
    }
}

/// Reading a status back from its name gives the same status: the name is
/// ASCII, so `from_str` reads it by `goal_status_named_ascii`.
pub proof fn law_goal_status_round_trip(s: GoalStatus)
    ensures
        is_ascii_text(goal_status_name(s)),
        goal_status_named_ascii(goal_status_name(s)) == s,
{
    reveal_strlit("active");
    reveal_strlit("completed");
    reveal_strlit("deferred");
    reveal_strlit("dropped");
    let n = goal_status_name(s);
    assert(n.map_values(|c: char| ascii_lower_char(c)) =~= n);
}

/// A goal with its category, target date and status.
#[derive(Debug, Clone)]
pub struct Goal {
    pub text: String,
    pub category: String,
    pub target_date: Option<String>,
    pub status: GoalStatus,
}

pub struct GoalView {
    pub text: Seq<char>,
    pub category: Seq<char>,
    pub target_date: Option<Seq<char>>,
    pub status: GoalStatus,
}

impl View for Goal {
    type V = GoalView;

    open spec fn view(&self) -> GoalView {
        GoalView {
            text: self.text@,
            category: self.category@,
            target_date: opt_text(self.target_date),
            status: self.status,
        }
    }
}

pub open spec fn goal_views(v: Seq<Goal>) -> Seq<GoalView> {
    v.map_values(|g: Goal| g@)
}

impl Default for Goal {
    fn default() -> (r: Self)
        ensures
            r@ == (GoalView {
                text: seq![],
                category: seq![],
                target_date: None,
                status: GoalStatus::Active,
            }),
    {
        Goal {
            text: String::new(),
            category: String::new(),
            target_date: None,
            status: GoalStatus::Active,
        }
    }
}

/// Whether a word of a comment names a goal's field: `category:` or `target:`.
pub open spec fn is_meta_key(w: Seq<char>) -> bool {
    starts_with(w, "category:"@) || starts_with(w, "target:"@)
}

/// The value that a key word gives, with `v` what follows the key inside the
/// word: `v` itself (`category:X`), else the next word (`category: X`) unless
/// that is a key too, else nothing.
pub open spec fn meta_value(parts: Seq<Seq<char>>, j: int, v: Seq<char>) -> Seq<char> {
    if trim(v).len() > 0 {
        trim(v)
    } else if j + 1 < parts.len() && !is_meta_key(parts[j + 1]) {
        parts[j + 1]
    } else {
        seq![]
    }
}

/// A goal after reading word `j` of a comment: a `category:` word sets the
/// category, a `target:` word the target date; other words change nothing.
pub open spec fn meta_word(g: GoalView, parts: Seq<Seq<char>>, j: int) -> GoalView {
    match strip_prefix(parts[j], "category:"@) {
        Some(v) => GoalView { category: meta_value(parts, j, v), ..g },
        None => match strip_prefix(parts[j], "target:"@) {
            Some(v) => GoalView { target_date: Some(meta_value(parts, j, v)), ..g },
            None => g,
        },
    }
}

/// A goal after reading the first `k` words of a comment.
pub open spec fn meta_upto(g: GoalView, parts: Seq<Seq<char>>, k: int) -> GoalView
    decreases k,
{
    if k <= 0 {
        g
    } else {
        meta_word(meta_upto(g, parts, k - 1), parts, k - 1)
    }
}

/// A goal's category and target date after reading the words of a comment,
/// written `category:X target:Y` or `category: X target: Y`.
pub open spec fn apply_meta(g: GoalView, parts: Seq<Seq<char>>) -> GoalView {
    meta_upto(g, parts, parts.len() as int)
}

/// Removes each `<!-- ... -->` comment from an item's text, in order, reading
/// the words of each as metadata; stops at a `<!--` with no `-->` after it.
pub open spec fn strip_comments(text: Seq<char>, g: GoalView) -> (Seq<char>, GoalView)
    decreases text.len(),
{
    match find(text, "<!--"@) {
        None => (text, g),
        Some(start) => match find(text.skip(start), "-->"@) {
            None => (text, g),
            Some(off) => if off < 4 {
                (text, g)
            } else {
                proof {
                    reveal_strlit("<!--");
                    reveal_strlit("-->");
                    lemma_find(text, "<!--"@);
                    lemma_find(text.skip(start), "-->"@);
                }
                strip_comments(
                    text.take(start) + text.skip(start + off + 3),
                    apply_meta(g, words(text.subrange(start + 4, start + off))),
                )
            },
        },
    }
}

/// Whether removing the comments of an item's text meets a `<!--` whose first
/// `-->` overlaps it (`<!-->`, `<!--->`), on which the reading fails.
pub open spec fn comments_overlap(text: Seq<char>) -> bool
    decreases text.len(),
{
    match find(text, "<!--"@) {
        None => false,
        Some(start) => match find(text.skip(start), "-->"@) {
            None => false,
            Some(off) => if off < 4 {
                true
            } else {
                proof {
                    reveal_strlit("<!--");
                    reveal_strlit("-->");
                    lemma_find(text, "<!--"@);
                    lemma_find(text.skip(start), "-->"@);
                }
                comments_overlap(text.take(start) + text.skip(start + off + 3))
            },
        },
    }
}

/// A whole trimmed line that is a comment: `<!-- ... -->`.
pub open spec fn is_comment_line(t: Seq<char>) -> bool {
    starts_with(t, "<!--"@) && ends_with(t, "-->"@)
}

/// The inside of a comment line.
pub open spec fn comment_inner(t: Seq<char>) -> Seq<char> {
    trim(t.subrange(4, t.len() - 3))
}

pub open spec fn status_of_heading(h: Seq<char>) -> GoalStatus {
    if contains(h, "completed"@) {
        GoalStatus::Completed
    } else if contains(h, "deferred"@) {
        GoalStatus::Deferred
    } else if contains(h, "dropped"@) {
        GoalStatus::Dropped
    } else {
        GoalStatus::Active
    }
}

pub open spec fn new_goal(item: Seq<char>, status: GoalStatus) -> GoalView {
    let (text, g) = strip_comments(
        item,
        GoalView { text: seq![], category: seq![], target_date: None, status: status },
    );
    GoalView { text: trim(text), ..g }
}

pub open spec fn goals_step(st: (GoalStatus, Seq<GoalView>), line: Seq<char>) -> (
    GoalStatus,
    Seq<GoalView>,
) {
    let t = trim(line);
    let (status, goals) = st;
    match strip_prefix(t, "## "@) {
        Some(h) => (status_of_heading(lowercase(trim(h))), goals),
        None => match strip_prefix(t, "- "@) {
            Some(raw) => if trim(raw).len() == 0 {
                st
            } else {
                (status, goals.push(new_goal(trim(raw), status)))
            },
            None => if is_comment_line(t) && goals.len() > 0 {
                (
                    status,
                    goals.update(
                        goals.len() - 1,
                        apply_meta(goals.last(), words(comment_inner(t))),
                    ),
                )
            } else {
                st
            },
        },
    }
}

pub open spec fn goals_scan(ls: Seq<Seq<char>>) -> (GoalStatus, Seq<GoalView>)
    decreases ls.len(),
{
    if ls.len() == 0 {
        (GoalStatus::Active, seq![])
    } else {
        goals_step(goals_scan(ls.drop_last()), ls.last())
    }
}

/// The goals that `goals.md` holds, each with the status of the `## ` section it
/// stands in.
pub open spec fn goals_of(content: Seq<char>) -> Seq<GoalView> {
    goals_scan(lines(content)).1
}

/// Whether a line of `goals.md` is one on which reading fails: a comment line
/// shorter than `<!---->`, or an item whose comments overlap.
pub open spec fn goals_line_fails(line: Seq<char>) -> bool {
    let t = trim(line);
    match strip_prefix(t, "## "@) {
        Some(h) => false,
        None => match strip_prefix(t, "- "@) {
            Some(raw) => trim(raw).len() > 0 && comments_overlap(trim(raw)),
            None => is_comment_line(t) && t.len() < 7,
        },
    }
}

/// Whether `goals.md` can be read: no line of it fails.
pub open spec fn goals_readable(content: Seq<char>) -> bool {
    forall|i: int| 0 <= i < lines(content).len() ==> !goals_line_fails(#[trigger] lines(content)[i])
}

fn is_meta_key_exec(w: &Vec<char>, cat: &Vec<char>, tgt: &Vec<char>) -> (r: bool)
    requires
        cat@ == "category:"@,
        tgt@ == "target:"@,
    ensures
        r == is_meta_key(w@),
{
    starts_with_chars(w, cat) || starts_with_chars(w, tgt)
}

fn meta_value_exec(parts: &Vec<Vec<char>>, j: usize, v: &Vec<char>, cat: &Vec<char>, tgt: &Vec<char>) -> (r: String)
    requires
        j < parts.len(),
        cat@ == "category:"@,
        tgt@ == "target:"@,
    ensures
        r@ == meta_value(seqs(parts@), j as int, v@),
{
    let t = trim_chars(v);
    if t.len() > 0 {
        string_of(&t)
    } else if j + 1 < parts.len() && !is_meta_key_exec(&parts[j + 1], cat, tgt) {
        string_of(&parts[j + 1])
    } else {
        String::new()
    }
}

fn apply_meta_exec(g: &mut Goal, parts: &Vec<Vec<char>>)
    ensures
        final(g)@ == apply_meta(old(g)@, seqs(parts@)),
{
    let cat = chars_of("category:");
    let tgt = chars_of("target:");
    let ghost g0 = g@;
    let ghost ps = seqs(parts@);
    let mut k: usize = 0;
    while k < parts.len()
        invariant
            k <= parts.len(),
            cat@ == "category:"@,
            tgt@ == "target:"@,
            ps == seqs(parts@),
            g@ == meta_upto(g0, ps, k as int),
        decreases parts.len() - k,
    {
        assert(ps[k as int] == parts@[k as int]@);
        match strip_prefix_chars(&parts[k], &cat) {
            Some(v) => {
                g.category = meta_value_exec(parts, k, &v, &cat, &tgt);
            },
            None => match strip_prefix_chars(&parts[k], &tgt) {
                Some(v) => {
                    g.target_date = Some(meta_value_exec(parts, k, &v, &cat, &tgt));
                },
                None => {},
            },
        }
        k = k + 1;
    }
}

fn strip_comments_exec(text: Vec<char>, g: &mut Goal) -> (r: Vec<char>)
    requires
        !comments_overlap(text@),
    ensures
        (r@, final(g)@) == strip_comments(text@, old(g)@),
    decreases text@.len(),
{
    let open_c = chars_of("<!--");
    let close_c = chars_of("-->");
    match find_chars(&text, &open_c) {
        None => text,
        Some(start) => {
            proof {
                lemma_find(text@, "<!--"@);
            }
            let tail = slice(&text, start, text.len());
            assert(tail@ =~= text@.skip(start as int));
            match find_chars(&tail, &close_c) {
                None => text,
                Some(off) => {
                    proof {
                        reveal_strlit("<!--");
                        reveal_strlit("-->");
                        lemma_find(tail@, "-->"@);
                    }
                    let comment = slice(&text, start + 4, start + off);
                    let parts = words_of(&comment);
                    apply_meta_exec(g, &parts);
                    let head = slice(&text, 0, start);
                    let rest = slice(&text, start + off + 3, text.len());
                    assert(head@ =~= text@.take(start as int));
                    assert(rest@ =~= text@.skip(start + off + 3));
                    let next = concat(&head, &rest);
                    strip_comments_exec(next, g)
                },
            }
        },
    }
}

fn status_of_heading_exec(h: &Vec<char>) -> (r: GoalStatus)
    ensures
        r == status_of_heading(h@),
{
    if contains_chars(h, &chars_of("completed")) {
        GoalStatus::Completed
    } else if contains_chars(h, &chars_of("deferred")) {
        GoalStatus::Deferred
    } else if contains_chars(h, &chars_of("dropped")) {
        GoalStatus::Dropped
    } else {
        GoalStatus::Active
    }
}

fn comment_inner_of(t: &Vec<char>) -> (r: Vec<char>)
    requires
        t.len() >= 7,
    ensures
        r@ == comment_inner(t@),
{
    trim_chars(&slice(t, 4, t.len() - 3))
}

/// Reads `goals.md`. Items under a `## ` heading that contains `completed`,
/// `deferred` or `dropped` (lowercased) get that status, others are active;
/// `<!-- category: X target: Y -->` comments (or `category:X target:Y`), inside
/// an item or on the line after it, set the goal's category and target date.
pub fn parse_goals_md(content: &str) -> (r: Vec<Goal>)
    requires
        goals_readable(content@),
    ensures
        goal_views(r@) == goals_of(content@),
{
    let ls = lines_of_str(content);
    let ghost lv = seqs(ls@);
    let mut goals: Vec<Goal> = Vec::new();
    let mut status = GoalStatus::Active;
    let h2 = chars_of("## ");
    let dash = chars_of("- ");
    let open_c = chars_of("<!--");
    let close_c = chars_of("-->");
    let mut i: usize = 0;
    assert(lv.take(0) =~= seq![]);
    assert(goal_views(goals@) =~= seq![]);
    while i < ls.len()
        invariant
            i <= ls.len(),
            lv == seqs(ls@),
            lv == lines(content@),
            goals_readable(content@),
            h2@ == "## "@,
            dash@ == "- "@,
            open_c@ == "<!--"@,
            close_c@ == "-->"@,
            goals_scan(lv.take(i as int)) == (status, goal_views(goals@)),
        decreases ls.len() - i,
    {
        assert(lv.take(i + 1).drop_last() =~= lv.take(i as int));
        assert(!goals_line_fails(lv[i as int]));
        let ghost before = goal_views(goals@);
        let t = trim_chars(&ls[i]);
        match strip_prefix_chars(&t, &h2) {
            Some(h) => {
                status = status_of_heading_exec(&to_lowercase(&trim_chars(&h)));
            },
            None => match strip_prefix_chars(&t, &dash) {
                Some(raw) => {
                    let item = trim_chars(&raw);
                    if item.len() > 0 {
                        let mut g = Goal::default();
                        g.status = status;
                        let text = strip_comments_exec(item, &mut g);
                        g.text = string_of(&trim_chars(&text));
                        goals.push(g);
                        assert(goal_views(goals@) =~= before.push(new_goal(item@, status)));
                    }
                },
                None => {
                    if starts_with_chars(&t, &open_c) && ends_with_chars(&t, &close_c)
                        && goals.len() > 0 {
                        let inner = comment_inner_of(&t);
                        let parts = words_of(&inner);
                        let last = goals.len() - 1;
                        let mut g = goals.pop().unwrap();
                        apply_meta_exec(&mut g, &parts);
                        goals.push(g);
                        assert(goal_views(goals@) =~= before.update(
                            last as int,
                            apply_meta(before.last(), words(comment_inner(t@))),
                        ));
                    }
                },
            },
        }
        i = i + 1;
    }
    assert(lv.take(ls.len() as int) =~= lv);
    goals
}

/// Whether `goals.md` can be read (see `goals_readable`).
pub fn goals_md_readable(content: &str) -> (r: bool)
    ensures
        r == goals_readable(content@),
{
    let ls = lines_of_str(content);
    let ghost lv = seqs(ls@);
    let h2 = chars_of("## ");
    let dash = chars_of("- ");
    let open_c = chars_of("<!--");
    let close_c = chars_of("-->");
    let mut i: usize = 0;
    while i < ls.len()
        invariant
            i <= ls.len(),
            lv == seqs(ls@),
            lv == lines(content@),
            h2@ == "## "@,
            dash@ == "- "@,
            open_c@ == "<!--"@,
            close_c@ == "-->"@,
            forall|j: int| 0 <= j < i ==> !goals_line_fails(#[trigger] lv[j]),
        decreases ls.len() - i,
    {
        let t = trim_chars(&ls[i]);
        let fails = match strip_prefix_chars(&t, &h2) {
            Some(_) => false,
            None => match strip_prefix_chars(&t, &dash) {
                Some(raw) => {
                    let item = trim_chars(&raw);
                    item.len() > 0 && comments_overlap_exec(&item)
                },
                None => starts_with_chars(&t, &open_c) && ends_with_chars(&t, &close_c) && t.len()
                    < 7,
            },
        };
        assert(lv[i as int] == ls[i as int]@);
        if fails {
            assert(goals_line_fails(lines(content@)[i as int]));
            return false;
        }
        i = i + 1;
    }
    true
}

fn comments_overlap_exec(text: &Vec<char>) -> (r: bool)
    ensures
        r == comments_overlap(text@),
    decreases text@.len(),
{
    let open_c = chars_of("<!--");
    let close_c = chars_of("-->");
    match find_chars(text, &open_c) {
        None => false,
        Some(start) => {
            proof {
                lemma_find(text@, "<!--"@);
            }
            let tail = slice(text, start, text.len());
            assert(tail@ =~= text@.skip(start as int));
            match find_chars(&tail, &close_c) {
                None => false,
                Some(off) => {
                    proof {
                        reveal_strlit("<!--");
                        reveal_strlit("-->");
                        lemma_find(tail@, "-->"@);
                    }
                    if off < 4 {
                        true
                    } else {
                        let head = slice(text, 0, start);
                        let rest = slice(text, start + off + 3, text.len());
                        assert(head@ =~= text@.take(start as int));
                        assert(rest@ =~= text@.skip(start + off + 3));
                        let next = concat(&head, &rest);
                        comments_overlap_exec(&next)
                    }
                },
            }
        },
    }
}

// ── Areas of focus (H2) ─────────────────────────────────────────────────

/// An area of focus with its description and standards.
#[derive(Debug, Clone)]
pub struct Area {
    pub name: String,
    pub description: String,
    pub standards: Vec<String>,
}

pub struct AreaView {
    pub name: Seq<char>,
    pub description: Seq<char>,
    pub standards: Seq<Seq<char>>,
}

impl View for Area {
    type V = AreaView;

    open spec fn view(&self) -> AreaView {
        AreaView { name: self.name@, description: self.description@, standards: strs(self.standards@) }
    }
}

pub open spec fn area_views(v: Seq<Area>) -> Seq<AreaView> {
    v.map_values(|a: Area| a@)
}

/// An italic line: `*text*`.
pub open spec fn is_italic_line(t: Seq<char>) -> bool {
    starts_with(t, "*"@) && ends_with(t, "*"@) && t.len() > 2
}

pub open spec fn areas_step(st: (Seq<AreaView>, Option<AreaView>), line: Seq<char>) -> (
    Seq<AreaView>,
    Option<AreaView>,
) {
    let t = trim(line);
    let (areas, cur) = st;
    if starts_with(t, "# "@) && !starts_with(t, "## "@) {
        st
    } else if starts_with(t, ">"@) {
        st
    } else {
        match strip_prefix(t, "## "@) {
            Some(h) => {
                let areas2 = match cur {
                    Some(a) => areas.push(a),
                    None => areas,
                };
                (areas2, Some(AreaView { name: trim(h), description: seq![], standards: seq![] }))
            },
            None => if is_italic_line(t) {
                match cur {
                    Some(a) => (areas, Some(AreaView { description: t.subrange(1, t.len() - 1), ..a })),
                    None => st,
                }
            } else {
                match strip_prefix(t, "- "@) {
                    Some(raw) => if trim(raw).len() == 0 {
                        st
                    } else {
                        match cur {
                            Some(a) => (
                                areas,
                                Some(AreaView { standards: a.standards.push(trim(raw)), ..a }),
                            ),
                            None => st,
                        }
                    },
                    None => st,
                }
            },
        }
    }
}

pub open spec fn areas_scan(ls: Seq<Seq<char>>) -> (Seq<AreaView>, Option<AreaView>)
    decreases ls.len(),
{
    if ls.len() == 0 {
        (seq![], None)
    } else {
        areas_step(areas_scan(ls.drop_last()), ls.last())
    }
}

/// The areas that `areas.md` holds: each `## ` heading opens an area, an
/// italic `*...*` line is its description, `- ` items are its standards.
pub open spec fn areas_of(content: Seq<char>) -> Seq<AreaView> {
    let (areas, cur) = areas_scan(lines(content));
    match cur {
        Some(a) => areas.push(a),
        None => areas,
    }
}

/// Whether some line of a text is a `## ` heading.
pub open spec fn has_area_heading(ls: Seq<Seq<char>>) -> bool
    decreases ls.len(),
{
    ls.len() > 0 && (has_area_heading(ls.drop_last()) || starts_with(trim(ls.last()), "## "@))
}

/// The texts of the nonempty `- ` item lines of a text that come after its
/// first `## ` heading, in order.
pub open spec fn area_item_texts(ls: Seq<Seq<char>>) -> Seq<Seq<char>>
    decreases ls.len(),
{
    if ls.len() == 0 {
        seq![]
    } else {
        let t = trim(ls.last());
        match strip_prefix(t, "- "@) {
            Some(raw) => if trim(raw).len() > 0 && has_area_heading(ls.drop_last()) {
                area_item_texts(ls.drop_last()).push(trim(raw))
            } else {
                area_item_texts(ls.drop_last())
            },
            None => area_item_texts(ls.drop_last()),
        }
    }
}

/// The standards of some areas, one area after another.
pub open spec fn all_standards(areas: Seq<AreaView>) -> Seq<Seq<char>>
    decreases areas.len(),
{
    if areas.len() == 0 {
        seq![]
    } else {
        all_standards(areas.drop_last()) + areas.last().standards
    }
}

proof fn lemma_areas_scan_items(ls: Seq<Seq<char>>)
    ensures
        (areas_scan(ls).1 is Some) == has_area_heading(ls),
        all_standards(areas_scan(ls).0) + match areas_scan(ls).1 {
            Some(a) => a.standards,
            None => Seq::<Seq<char>>::empty(),
        } == area_item_texts(ls),
    decreases ls.len(),
{
    reveal_strlit("# ");
    reveal_strlit("## ");
    reveal_strlit("- ");
    reveal_strlit(">");
    reveal_strlit("*");
    if ls.len() == 0 {
        assert(all_standards(Seq::<AreaView>::empty()) + Seq::<Seq<char>>::empty() =~= Seq::<Seq<char>>::empty());
    } else {
        lemma_areas_scan_items(ls.drop_last());
        let (areas, cur) = areas_scan(ls.drop_last());
        let t = trim(ls.last());
        let cs = match cur {
            Some(a) => a.standards,
            None => Seq::<Seq<char>>::empty(),
        };
        if starts_with(t, "- "@) {
            assert(t[0] == '-') by {
                assert(t.subrange(0, 2)[0] == t[0]);
            }
            assert(!starts_with(t, "# "@)) by {
                if starts_with(t, "# "@) {
                    assert(t.subrange(0, 2)[0] == t[0]);
                }
            }
            assert(!starts_with(t, "## "@)) by {
                if starts_with(t, "## "@) {
                    assert(t.subrange(0, 3)[0] == t[0]);
                }
            }
            assert(!starts_with(t, ">"@)) by {
                if starts_with(t, ">"@) {
                    assert(t.subrange(0, 1)[0] == t[0]);
                }
            }
            assert(!is_italic_line(t)) by {
                if starts_with(t, "*"@) {
                    assert(t.subrange(0, 1)[0] == t[0]);
                }
            }
            match cur {
                Some(a) => {
                    let raw = t.skip(2);
                    if trim(raw).len() > 0 {
                        assert(all_standards(areas) + a.standards.push(trim(raw)) =~= (all_standards(areas)
                            + a.standards).push(trim(raw)));
                    }
                },
                None => {},
            }
        } else if starts_with(t, "## "@) {
            assert(t[0] == '#') by {
                assert(t.subrange(0, 3)[0] == t[0]);
            }
            assert(!starts_with(t, ">"@)) by {
                if starts_with(t, ">"@) {
                    assert(t.subrange(0, 1)[0] == t[0]);
                }
            }
            assert(!starts_with(t, "- "@));
            let areas2 = match cur {
                Some(a) => areas.push(a),
                None => areas,
            };
            match cur {
                Some(a) => {
                    assert(areas.push(a).drop_last() =~= areas);
                    assert(all_standards(areas2) + Seq::<Seq<char>>::empty() =~= all_standards(areas) + cs);
                },
                None => {
                    assert(all_standards(areas2) + Seq::<Seq<char>>::empty() =~= all_standards(areas) + cs);
                },
            }
        } else {
            assert(strip_prefix(t, "## "@) is None);
            assert(strip_prefix(t, "- "@) is None);
        }
    }
}

/// Every nonempty `- ` item line under an area heading is one of that
/// area's standards: the standards of all areas, area after area, are the
/// texts of those item lines in order (items before the first heading
/// belong to no area).
pub proof fn law_area_standards(content: Seq<char>)
    ensures
        all_standards(areas_of(content)) == area_item_texts(lines(content)),
{
    lemma_areas_scan_items(lines(content));
    let (areas, cur) = areas_scan(lines(content));
    match cur {
        Some(a) => {
            assert(areas.push(a).drop_last() =~= areas);
        },
        None => {
            assert(all_standards(areas) + Seq::<Seq<char>>::empty() =~= all_standards(areas));
        },
    }
}

/// Reads `areas.md`.
pub fn parse_areas_md(content: &str) -> (r: Vec<Area>)
    ensures
        area_views(r@) == areas_of(content@),
{
    let ls = lines_of_str(content);
    let ghost lv = seqs(ls@);
    let mut areas: Vec<Area> = Vec::new();
    let mut cur: Option<Area> = None;
    let h1 = chars_of("# ");
    let h2 = chars_of("## ");
    let quote = chars_of(">");
    let star = chars_of("*");
    let dash = chars_of("- ");
    let mut i: usize = 0;
    assert(lv.take(0) =~= seq![]);
    assert(area_views(areas@) =~= seq![]);
    while i < ls.len()
        invariant
            i <= ls.len(),
            lv == seqs(ls@),
            lv == lines(content@),
            h1@ == "# "@,
            h2@ == "## "@,
            quote@ == ">"@,
            star@ == "*"@,
            dash@ == "- "@,
            areas_scan(lv.take(i as int)) == (area_views(areas@), match cur {
                Some(a) => Some(a@),
                None => None::<AreaView>,
            }),
        decreases ls.len() - i,
    {
        assert(lv.take(i + 1).drop_last() =~= lv.take(i as int));
        let ghost before = area_views(areas@);
        let t = trim_chars(&ls[i]);
        if starts_with_chars(&t, &h1) && !starts_with_chars(&t, &h2) {
        } else if starts_with_chars(&t, &quote) {
        } else {
            match strip_prefix_chars(&t, &h2) {
                Some(h) => {
                    match cur.take() {
                        Some(a) => {
                            areas.push(a);
                        },
                        None => {},
                    }
                    let a = Area {
                        name: string_of(&trim_chars(&h)),
                        description: String::new(),
                        standards: Vec::new(),
                    };
                    assert(a@.standards =~= seq![]);
                    cur = Some(a);
                },
                None => {
                    if starts_with_chars(&t, &star) && ends_with_chars(&t, &star) && t.len() > 2 {
                        match cur.take() {
                            Some(mut a) => {
                                a.description = string_of(&slice(&t, 1, t.len() - 1));
                                cur = Some(a);
                            },
                            None => {},
                        }
                    } else {
                        match strip_prefix_chars(&t, &dash) {
                            Some(raw) => {
                                let item = trim_chars(&raw);
                                if item.len() > 0 {
                                    match cur.take() {
                                        Some(mut a) => {
                                            let ghost s0 = a@.standards;
                                            a.standards.push(string_of(&item));
                                            assert(a@.standards =~= s0.push(item@));
                                            cur = Some(a);
                                        },
                                        None => {},
                                    }
                                }
                            },
                            None => {},
                        }
                    }
                },
            }
        }
        i = i + 1;
        assert(area_views(areas@) =~= areas_scan(lv.take(i as int)).0);
    }
    assert(lv.take(ls.len() as int) =~= lv);
    match cur {
        Some(a) => {
            areas.push(a);
        },
        None => {},
    }
    assert(area_views(areas@) =~= areas_of(content@));
    areas
}

// ── Vision (H4) ─────────────────────────────────────────────────────────

/// One area of the vision: what success looks like there.
#[derive(Debug, Clone)]
pub struct VisionArea {
    pub category: String,
    pub vision_text: String,
    pub picture_of_success: Vec<String>,
}

pub struct VisionAreaView {
    pub category: Seq<char>,
    pub vision_text: Seq<char>,
    pub picture_of_success: Seq<Seq<char>>,
}

impl View for VisionArea {
    type V = VisionAreaView;

    open spec fn view(&self) -> VisionAreaView {
        VisionAreaView {
            category: self.category@,
            vision_text: self.vision_text@,
            picture_of_success: strs(self.picture_of_success@),
        }
    }
}

/// The vision over a time horizon.
#[derive(Debug, Clone)]
pub struct Vision {
    pub time_horizon: String,
    pub areas: Vec<VisionArea>,
}

pub struct VisionView {
    pub time_horizon: Seq<char>,
    pub areas: Seq<VisionAreaView>,
}

impl View for Vision {
    type V = VisionView;

    open spec fn view(&self) -> VisionView {
        VisionView {
            time_horizon: self.time_horizon@,
            areas: self.areas@.map_values(|a: VisionArea| a@),
        }
    }
}

pub open spec fn default_vision() -> VisionView {
    VisionView { time_horizon: "3 years"@, areas: seq![] }
}

impl Default for Vision {
    fn default() -> (r: Self)
        ensures
            r@ == default_vision(),
    {
        let r = Vision { time_horizon: owned("3 years"), areas: Vec::new() };
        assert(r@.areas =~= seq![]);
        r
    }
}

pub open spec fn vision_step(st: (VisionView, Option<VisionAreaView>), line: Seq<char>) -> (
    VisionView,
    Option<VisionAreaView>,
) {
    let t = trim(line);
    let (v, cur) = st;
    if starts_with(t, "# "@) && !starts_with(t, "## "@) {
        (VisionView { time_horizon: trim(t.skip("# "@.len() as int)), ..v }, cur)
    } else {
        match strip_prefix(t, "## "@) {
            Some(h) => {
                let v2 = match cur {
                    Some(a) => VisionView { areas: v.areas.push(a), ..v },
                    None => v,
                };
                (
                    v2,
                    Some(
                        VisionAreaView {
                            category: trim(h),
                            vision_text: seq![],
                            picture_of_success: seq![],
                        },
                    ),
                )
            },
            None => match strip_prefix(t, "- "@) {
                Some(raw) => if trim(raw).len() == 0 {
                    st
                } else {
                    match cur {
                        Some(a) => if a.vision_text.len() == 0 {
                            (v, Some(VisionAreaView { vision_text: trim(raw), ..a }))
                        } else {
                            (
                                v,
                                Some(
                                    VisionAreaView {
                                        picture_of_success: a.picture_of_success.push(trim(raw)),
                                        ..a
                                    },
                                ),
                            )
                        },
                        None => st,
                    }
                },
                None => if t.len() > 0 && !starts_with(t, "#"@) {
                    match cur {
                        Some(a) => if a.vision_text.len() == 0 {
                            (v, Some(VisionAreaView { vision_text: t, ..a }))
                        } else {
                            (
                                v,
                                Some(
                                    VisionAreaView { vision_text: a.vision_text.push(' ') + t, ..a },
                                ),
                            )
                        },
                        None => st,
                    }
                } else {
                    st
                },
            },
        }
    }
}

pub open spec fn vision_scan(ls: Seq<Seq<char>>) -> (VisionView, Option<VisionAreaView>)
    decreases ls.len(),
{
    if ls.len() == 0 {
        (default_vision(), None)
    } else {
        vision_step(vision_scan(ls.drop_last()), ls.last())
    }
}

/// The vision that `vision.md` holds: the `# ` title is the time horizon
/// (`3 years` when there is none), each `## ` heading opens an area whose first
/// item or text is its vision text; later items are its picture of success,
/// later text lines extend the vision text. `### ` lines are skipped.
pub open spec fn vision_of(content: Seq<char>) -> VisionView {
    let (v, cur) = vision_scan(lines(content));
    match cur {
        Some(a) => VisionView { areas: v.areas.push(a), ..v },
        None => v,
    }
}

/// Reads `vision.md`.
pub fn parse_vision_md(content: &str) -> (r: Vision)
    ensures
        r@ == vision_of(content@),
{
    let ls = lines_of_str(content);
    let ghost lv = seqs(ls@);
    let mut vision = Vision::default();
    let mut cur: Option<VisionArea> = None;
    let h1 = chars_of("# ");
    let h2 = chars_of("## ");
    let hash = chars_of("#");
    let dash = chars_of("- ");
    let mut i: usize = 0;
    assert(lv.take(0) =~= seq![]);
    while i < ls.len()
        invariant
            i <= ls.len(),
            lv == seqs(ls@),
            lv == lines(content@),
            h1@ == "# "@,
            h2@ == "## "@,
            hash@ == "#"@,
            dash@ == "- "@,
            vision_scan(lv.take(i as int)) == (vision@, match cur {
                Some(a) => Some(a@),
                None => None::<VisionAreaView>,
            }),
        decreases ls.len() - i,
    {
        assert(lv.take(i + 1).drop_last() =~= lv.take(i as int));
        let ghost before = vision@;
        let t = trim_chars(&ls[i]);
        if starts_with_chars(&t, &h1) && !starts_with_chars(&t, &h2) {
            vision.time_horizon = string_of(&trim_chars(&slice(&t, h1.len(), t.len())));
        } else {
            match strip_prefix_chars(&t, &h2) {
                Some(h) => {
                    match cur.take() {
                        Some(a) => {
                            vision.areas.push(a);
                            assert(vision@.areas =~= before.areas.push(a@));
                        },
                        None => {},
                    }
                    let a = VisionArea {
                        category: string_of(&trim_chars(&h)),
                        vision_text: String::new(),
                        picture_of_success: Vec::new(),
                    };
                    assert(a@.picture_of_success =~= seq![]);
                    cur = Some(a);
                },
                None => match strip_prefix_chars(&t, &dash) {
                    Some(raw) => {
                        let item = trim_chars(&raw);
                        if item.len() > 0 {
                            match cur.take() {
                                Some(mut a) => {
                                    if a.vision_text.as_str().is_empty() {
                                        a.vision_text = string_of(&item);
                                    } else {
                                        let ghost p0 = a@.picture_of_success;
                                        a.picture_of_success.push(string_of(&item));
                                        assert(a@.picture_of_success =~= p0.push(item@));
                                    }
                                    cur = Some(a);
                                },
                                None => {},
                            }
                        }
                    },
                    None => {
                        if t.len() > 0 && !starts_with_chars(&t, &hash) {
                            match cur.take() {
                                Some(mut a) => {
                                    if a.vision_text.as_str().is_empty() {
                                        a.vision_text = string_of(&t);
                                    } else {
                                        let mut vt = chars_of(a.vision_text.as_str());
                                        vt.push(' ');
                                        push_all(&mut vt, &t);
                                        a.vision_text = string_of(&vt);
                                    }
                                    cur = Some(a);
                                },
                                None => {},
                            }
                        }
                    },
                },
            }
        }
        i = i + 1;
        assert(vision@.areas =~= vision_scan(lv.take(i as int)).0.areas);
    }
    assert(lv.take(ls.len() as int) =~= lv);
    match cur {
        Some(a) => {
            let ghost b = vision@;
            vision.areas.push(a);
            assert(vision@.areas =~= b.areas.push(a@));
        },
        None => {},
    }
    vision
}

/// The markdown that the vision is written as.
pub open spec fn vision_md(v: VisionView) -> Seq<char> {
    "# "@ + v.time_horizon + "\n\n"@ + vision_areas_md(v.areas)
}

pub open spec fn vision_area_md(a: VisionAreaView) -> Seq<char> {
    "## "@ + a.category + "\n"@ + a.vision_text + "\n\n"@ + if a.picture_of_success.len() == 0 {
        seq![]
    } else {
        "### Picture of Success\n"@ + bullet_lines(a.picture_of_success) + "\n"@
    }
}

pub open spec fn vision_areas_md(areas: Seq<VisionAreaView>) -> Seq<char>
    decreases areas.len(),
{
    if areas.len() == 0 {
        seq![]
    } else {
        vision_areas_md(areas.drop_last()) + vision_area_md(areas.last())
    }
}

/// Each item as a `- item` line.
pub open spec fn bullet_lines(items: Seq<Seq<char>>) -> Seq<char>
    decreases items.len(),
{
    if items.len() == 0 {
        seq![]
    } else {
        bullet_lines(items.drop_last()) + "- "@ + items.last() + "\n"@
    }
}

/// Appends a `- item` line for each item.
pub fn push_bullet_lines(out: &mut Vec<char>, items: &Vec<String>)
    ensures
        final(out)@ == old(out)@ + bullet_lines(strs(items@)),
{
    let dash = chars_of("- ");
    let nl = chars_of("\n");
    let mut k: usize = 0;
    assert(strs(items@).take(0) =~= seq![]);
    assert(old(out)@ + seq![] =~= old(out)@);
    while k < items.len()
        invariant
            k <= items.len(),
            dash@ == "- "@,
            nl@ == "\n"@,
            out@ == old(out)@ + bullet_lines(strs(items@).take(k as int)),
        decreases items.len() - k,
    {
        assert(strs(items@).take(k + 1).drop_last() =~= strs(items@).take(k as int));
        push_all(out, &dash);
        push_all(out, &chars_of(items[k].as_str()));
        push_all(out, &nl);
        k = k + 1;
        assert(out@ =~= old(out)@ + bullet_lines(strs(items@).take(k as int)));
    }
    assert(strs(items@).take(items.len() as int) =~= strs(items@));
}

/// Writes the vision as markdown, in the form that `parse_vision_md` reads.
pub fn _render_vision_md(vision: &Vision) -> (r: String)
    ensures
        r@ == vision_md(vision@),
{
    let mut out: Vec<char> = Vec::new();
    push_all(&mut out, &chars_of("# "));
    push_all(&mut out, &chars_of(vision.time_horizon.as_str()));
    push_all(&mut out, &chars_of("\n\n"));
    let ghost head = out@;
    let ghost av = vision@.areas;
    let mut k: usize = 0;
    assert(av.take(0) =~= seq![]);
    assert(head + seq![] =~= head);
    while k < vision.areas.len()
        invariant
            k <= vision.areas.len(),
            av == vision@.areas,
            out@ == head + vision_areas_md(av.take(k as int)),
        decreases vision.areas.len() - k,
    {
        assert(av.take(k + 1).drop_last() =~= av.take(k as int));
        let ghost o0 = out@;
        let area = &vision.areas[k];
        push_all(&mut out, &chars_of("## "));
        push_all(&mut out, &chars_of(area.category.as_str()));
        push_all(&mut out, &chars_of("\n"));
        push_all(&mut out, &chars_of(area.vision_text.as_str()));
        push_all(&mut out, &chars_of("\n\n"));
        if area.picture_of_success.len() > 0 {
            push_all(&mut out, &chars_of("### Picture of Success\n"));
            push_bullet_lines(&mut out, &area.picture_of_success);
            push_all(&mut out, &chars_of("\n"));
        }
        assert(out@ =~= o0 + vision_area_md(av[k as int]));
        k = k + 1;
        assert(out@ =~= head + vision_areas_md(av.take(k as int)));
    }
    assert(av.take(vision.areas.len() as int) =~= av);
    string_of(&out)
}

// ── Reading the horizon files ───────────────────────────────────────────

/// The profile that `purpose.md` gives, the empty profile where the file is
/// missing or could not be read (`None`).
pub fn load_profile(content: Option<&str>) -> (r: Profile)
    ensures
        r@ == match content {
            Some(c) => profile_of(c@),
            None => empty_profile(),
        },
{
    match content {
        Some(c) => parse_profile_md(c),
        None => Profile::default(),
    }
}

/// The goals that `goals.md` gives, none where the file is missing.
pub fn load_goals(content: Option<&str>) -> (r: Vec<Goal>)
    requires
        content matches Some(c) ==> goals_readable(c@),
    ensures
        goal_views(r@) == match content {
            Some(c) => goals_of(c@),
            None => seq![],
        },
{
    match content {
        Some(c) => parse_goals_md(c),
        None => {
            let r: Vec<Goal> = Vec::new();
            assert(goal_views(r@) =~= seq![]);
            r
        },
    }
}

/// The areas of focus that `areas.md` gives, none where the file is missing.
pub fn load_areas(content: Option<&str>) -> (r: Vec<Area>)
    ensures
        area_views(r@) == match content {
            Some(c) => areas_of(c@),
            None => seq![],
        },
{
    match content {
        Some(c) => parse_areas_md(c),
        None => {
            let r: Vec<Area> = Vec::new();
            assert(area_views(r@) =~= seq![]);
            r
        },
    }
}

/// The vision that `vision.md` gives, the default vision where the file is
/// missing.
pub fn load_vision(content: Option<&str>) -> (r: Vision)
    ensures
        r@ == match content {
            Some(c) => vision_of(c@),
            None => default_vision(),
        },
{
    match content {
        Some(c) => parse_vision_md(c),
        None => Vision::default(),
    }
}

// ── A vision written and read back ──────────────────────────────────────

/// Text that stands alone on a line and that trimming leaves as it is.
pub open spec fn line_text(s: Seq<char>) -> bool {
    s.len() > 0 && trim(s) == s && crate::text::no_newline(s)
}

/// An area that `vision.md` holds as it is: a heading, a vision text that
/// reads as text (not a heading or an item), and items, each on one line.
pub open spec fn area_fits(a: VisionAreaView) -> bool {
    &&& line_text(a.category)
    &&& line_text(a.vision_text)
    &&& !starts_with(a.vision_text, "#"@)
    &&& !starts_with(a.vision_text, "- "@)
    &&& forall|j: int| 0 <= j < a.picture_of_success.len() ==> line_text(#[trigger] a.picture_of_success[j])
}

/// A vision that `vision.md` holds as it is.
pub open spec fn vision_fits(v: VisionView) -> bool {
    &&& line_text(v.time_horizon)
    &&& forall|i: int| 0 <= i < v.areas.len() ==> area_fits(#[trigger] v.areas[i])
}

pub open spec fn item_lines(items: Seq<Seq<char>>) -> Seq<Seq<char>> {
    items.map_values(|x: Seq<char>| "- "@ + x)
}

pub open spec fn area_lines(a: VisionAreaView) -> Seq<Seq<char>> {
    seq!["## "@ + a.category, a.vision_text, seq![]] + if a.picture_of_success.len() == 0 {
        seq![]
    } else {
        seq!["### Picture of Success"@] + item_lines(a.picture_of_success) + seq![seq![]]
    }
}

pub open spec fn areas_lines(areas: Seq<VisionAreaView>) -> Seq<Seq<char>>
    decreases areas.len(),
{
    if areas.len() == 0 {
        seq![]
    } else {
        areas_lines(areas.drop_last()) + area_lines(areas.last())
    }
}

pub open spec fn vision_lines(v: VisionView) -> Seq<Seq<char>> {
    seq!["# "@ + v.time_horizon, seq![]] + areas_lines(v.areas)
}

/// Reading lines from a state.
pub open spec fn vision_scan_from(st: (VisionView, Option<VisionAreaView>), ls: Seq<Seq<char>>) -> (
    VisionView,
    Option<VisionAreaView>,
)
    decreases ls.len(),
{
    if ls.len() == 0 {
        st
    } else {
        vision_step(vision_scan_from(st, ls.drop_last()), ls.last())
    }
}

proof fn lemma_scan_concat(a: Seq<Seq<char>>, b: Seq<Seq<char>>)
    ensures
        vision_scan(a + b) == vision_scan_from(vision_scan(a), b),
    decreases b.len(),
{
    if b.len() == 0 {
        assert(a + b =~= a);
    } else {
        assert((a + b).drop_last() =~= a + b.drop_last());
        lemma_scan_concat(a, b.drop_last());
    }
}

proof fn lemma_scan_from_concat(st: (VisionView, Option<VisionAreaView>), a: Seq<Seq<char>>, b: Seq<Seq<char>>)
    ensures
        vision_scan_from(st, a + b) == vision_scan_from(vision_scan_from(st, a), b),
    decreases b.len(),
{
    if b.len() == 0 {
        assert(a + b =~= a);
    } else {
        assert((a + b).drop_last() =~= a + b.drop_last());
        lemma_scan_from_concat(st, a, b.drop_last());
    }
}

proof fn lemma_scan_from_one(st: (VisionView, Option<VisionAreaView>), l: Seq<char>)
    ensures
        vision_scan_from(st, seq![l]) == vision_step(st, l),
{
    assert(seq![l].drop_last() =~= Seq::<Seq<char>>::empty());
    assert(vision_scan_from(st, seq![l].drop_last()) == st);
    assert(seq![l].last() == l);
}

proof fn lemma_scan_from_push(st: (VisionView, Option<VisionAreaView>), ls: Seq<Seq<char>>, l: Seq<char>)
    ensures
        vision_scan_from(st, ls.push(l)) == vision_step(vision_scan_from(st, ls), l),
{
    assert(ls.push(l).drop_last() =~= ls);
    assert(ls.push(l).last() == l);
}

/// A text that differs from `p` at an index of `p` does not start with `p`.
proof fn lemma_not_prefix(s: Seq<char>, p: Seq<char>, i: int)
    requires
        0 <= i < p.len(),
        i < s.len(),
        s[i] != p[i],
    ensures
        !starts_with(s, p),
{
    if starts_with(s, p) {
        assert(s.subrange(0, p.len() as int)[i] == s[i]);
    }
}

proof fn lemma_trim_line(s: Seq<char>)
    requires
        s.len() > 0,
        !crate::text::is_ws(s[0]),
        !crate::text::is_ws(s.last()),
    ensures
        trim(s) == s,
{
    crate::text::lemma_trim_wrap(seq![], s, seq![]);
    assert(Seq::<char>::empty() + s + Seq::<char>::empty() =~= s);
}

proof fn lemma_line_text_ends(s: Seq<char>)
    requires
        line_text(s),
    ensures
        !crate::text::is_ws(s[0]),
        !crate::text::is_ws(s.last()),
{
    crate::text::lemma_trimmed_ends(s);
}

/// A line led by a short prefix of non-space characters and ending in a
/// text line is its own trim.
proof fn lemma_led_trim(p: Seq<char>, x: Seq<char>)
    requires
        p.len() > 0,
        !crate::text::is_ws(p[0]),
        line_text(x),
    ensures
        trim(p + x) == p + x,
        (p + x).last() == x.last(),
{
    lemma_line_text_ends(x);
    assert((p + x)[0] == p[0]);
    assert((p + x).last() == x.last());
    lemma_trim_line(p + x);
}

proof fn lemma_blank_step(st: (VisionView, Option<VisionAreaView>))
    ensures
        vision_step(st, seq![]) == st,
{
    reveal_strlit("# ");
    reveal_strlit("## ");
    reveal_strlit("- ");
    reveal_strlit("#");
    assert(trim(seq![]) =~= Seq::<char>::empty());
}

proof fn lemma_items_scan(v: VisionView, a: VisionAreaView, items: Seq<Seq<char>>)
    requires
        a.vision_text.len() > 0,
        forall|j: int| 0 <= j < items.len() ==> line_text(#[trigger] items[j]),
    ensures
        vision_scan_from((v, Some(a)), item_lines(items)) == (
            v,
            Some(VisionAreaView { picture_of_success: a.picture_of_success + items, ..a }),
        ),
    decreases items.len(),
{
    if items.len() == 0 {
        assert(item_lines(items) =~= Seq::<Seq<char>>::empty());
        assert(a.picture_of_success + items =~= a.picture_of_success);
    } else {
        let init = items.drop_last();
        assert forall|j: int| 0 <= j < init.len() implies line_text(#[trigger] init[j]) by {
            assert(init[j] == items[j]);
        }
        lemma_items_scan(v, a, init);
        assert(item_lines(items) =~= item_lines(init).push("- "@ + items.last()));
        lemma_scan_from_push((v, Some(a)), item_lines(init), "- "@ + items.last());
        let x = items.last();
        assert(line_text(items[items.len() - 1]));
        reveal_strlit("- ");
        reveal_strlit("# ");
        reveal_strlit("## ");
        lemma_led_trim("- "@, x);
        let t = "- "@ + x;
        assert(strip_prefix(t, "- "@) == Some(x)) by {
            assert(t.subrange(0, 2) =~= "- "@);
            assert(t.skip(2) =~= x);
        }
        lemma_not_prefix(t, "# "@, 0);
        lemma_not_prefix(t, "## "@, 0);
        let a1 = VisionAreaView { picture_of_success: a.picture_of_success + init, ..a };
        assert(a.picture_of_success + init + seq![x] =~= a.picture_of_success + items);
        assert(a1.picture_of_success.push(x) =~= a.picture_of_success + items);
    }
}

proof fn lemma_area_scan(v: VisionView, cur: Option<VisionAreaView>, a: VisionAreaView)
    requires
        area_fits(a),
    ensures
        vision_scan_from((v, cur), area_lines(a)) == (
            match cur {
                Some(c) => VisionView { areas: v.areas.push(c), ..v },
                None => v,
            },
            Some(a),
        ),
{
    reveal_strlit("# ");
    reveal_strlit("## ");
    reveal_strlit("- ");
    reveal_strlit("#");
    reveal_strlit("### Picture of Success");
    let v1 = match cur {
        Some(c) => VisionView { areas: v.areas.push(c), ..v },
        None => v,
    };
    let head = "## "@ + a.category;
    lemma_led_trim("## "@, a.category);
    assert(strip_prefix(head, "## "@) == Some(a.category)) by {
        assert(head.subrange(0, 3) =~= "## "@);
        assert(head.skip(3) =~= a.category);
    }
    lemma_not_prefix(head, "# "@, 1);
    let a0 = VisionAreaView { category: a.category, vision_text: seq![], picture_of_success: seq![] };
    assert(vision_step((v, cur), head) == (v1, Some(a0)));
    let text = a.vision_text;
    lemma_line_text_ends(text);
    lemma_trim_line(text);
    assert(text[0] != '#') by {
        if text[0] == '#' {
            assert(text.subrange(0, 1) =~= "#"@);
        }
    }
    lemma_not_prefix(text, "# "@, 0);
    lemma_not_prefix(text, "## "@, 0);
    let a1 = VisionAreaView { vision_text: text, ..a0 };
    assert(vision_step((v1, Some(a0)), text) == (v1, Some(a1)));
    lemma_blank_step((v1, Some(a1)));
    let first = seq![head, text, seq![]];
    assert(first =~= seq![head] + seq![text] + seq![seq![]]);
    lemma_scan_from_concat((v, cur), seq![head] + seq![text], seq![seq![]]);
    lemma_scan_from_concat((v, cur), seq![head], seq![text]);
    lemma_scan_from_one((v, cur), head);
    lemma_scan_from_one((v1, Some(a0)), text);
    lemma_scan_from_one((v1, Some(a1)), seq![]);
    assert(vision_scan_from((v, cur), first) == (v1, Some(a1)));
    lemma_scan_from_concat((v, cur), first, if a.picture_of_success.len() == 0 {
        seq![]
    } else {
        seq!["### Picture of Success"@] + item_lines(a.picture_of_success) + seq![seq![]]
    });
    assert(area_lines(a) == first + if a.picture_of_success.len() == 0 {
        seq![]
    } else {
        seq!["### Picture of Success"@] + item_lines(a.picture_of_success) + seq![seq![]]
    });
    if a.picture_of_success.len() == 0 {
        assert(a1 == a);
    } else {
        let pic = "### Picture of Success"@;
        assert(trim(pic) == pic) by {
            lemma_trim_line(pic);
        }
        lemma_not_prefix(pic, "# "@, 1);
        lemma_not_prefix(pic, "## "@, 2);
        lemma_not_prefix(pic, "- "@, 0);
        assert(starts_with(pic, "#"@)) by {
            assert(pic.subrange(0, 1) =~= "#"@);
        }
        assert(vision_step((v1, Some(a1)), pic) == (v1, Some(a1)));
        lemma_scan_from_one((v1, Some(a1)), pic);
        lemma_items_scan(v1, a1, a.picture_of_success);
        assert(a1.picture_of_success + a.picture_of_success =~= a.picture_of_success);
        assert(VisionAreaView { picture_of_success: a1.picture_of_success + a.picture_of_success, ..a1 } == a);
        let rest = seq![pic] + item_lines(a.picture_of_success) + seq![seq![]];
        lemma_scan_from_concat((v1, Some(a1)), seq![pic] + item_lines(a.picture_of_success), seq![seq![]]);
        lemma_scan_from_concat((v1, Some(a1)), seq![pic], item_lines(a.picture_of_success));
        lemma_scan_from_one((v1, Some(a)), seq![]);
        lemma_blank_step((v1, Some(a)));
    }
}

proof fn lemma_areas_scan(h: Seq<char>, areas: Seq<VisionAreaView>)
    requires
        forall|i: int| 0 <= i < areas.len() ==> area_fits(#[trigger] areas[i]),
    ensures
        vision_scan_from((VisionView { time_horizon: h, areas: seq![] }, None), areas_lines(areas)) == if areas.len() == 0 {
            (VisionView { time_horizon: h, areas: seq![] }, None)
        } else {
            (VisionView { time_horizon: h, areas: areas.drop_last() }, Some(areas.last()))
        },
    decreases areas.len(),
{
    let s0 = (VisionView { time_horizon: h, areas: seq![] }, None::<VisionAreaView>);
    if areas.len() == 0 {
        assert(areas_lines(areas) =~= Seq::<Seq<char>>::empty());
    } else {
        let init = areas.drop_last();
        assert forall|i: int| 0 <= i < init.len() implies area_fits(#[trigger] init[i]) by {
            assert(init[i] == areas[i]);
        }
        lemma_areas_scan(h, init);
        assert(areas_lines(areas) == areas_lines(init) + area_lines(areas.last()));
        lemma_scan_from_concat(s0, areas_lines(init), area_lines(areas.last()));
        assert(area_fits(areas[areas.len() - 1]));
        let v_end = VisionView { time_horizon: h, areas: init };
        if init.len() == 0 {
            lemma_area_scan(VisionView { time_horizon: h, areas: seq![] }, None, areas.last());
            assert(init =~= Seq::<VisionAreaView>::empty());
            assert(VisionView { time_horizon: h, areas: seq![] } == v_end);
        } else {
            let v0 = VisionView { time_horizon: h, areas: init.drop_last() };
            lemma_area_scan(v0, Some(init.last()), areas.last());
            assert(init.drop_last().push(init.last()) =~= init);
            assert(VisionView { areas: v0.areas.push(init.last()), ..v0 } == v_end);
        }
        assert(vision_scan_from(s0, areas_lines(areas)) == (v_end, Some(areas.last())));
    }
}

proof fn lemma_item_lines_join(items: Seq<Seq<char>>)
    ensures
        crate::text::join_lines(item_lines(items)) == bullet_lines(items),
    decreases items.len(),
{
    if items.len() > 0 {
        lemma_item_lines_join(items.drop_last());
        assert(item_lines(items).drop_last() =~= item_lines(items.drop_last()));
        reveal_strlit("\n");
        assert(crate::text::join_lines(item_lines(items)) =~= bullet_lines(items));
    } else {
        assert(item_lines(items) =~= Seq::<Seq<char>>::empty());
    }
}

proof fn lemma_area_join(a: VisionAreaView)
    ensures
        crate::text::join_lines(area_lines(a)) == vision_area_md(a),
{
    reveal_strlit("\n");
    reveal_strlit("\n\n");
    reveal_strlit("### Picture of Success\n");
    reveal_strlit("### Picture of Success");
    let first = seq!["## "@ + a.category, a.vision_text, seq![]];
    assert(crate::text::join_lines(first) =~= "## "@ + a.category + "\n"@ + a.vision_text + "\n\n"@) by {
        assert(first =~= seq!["## "@ + a.category] + seq![a.vision_text] + seq![Seq::<char>::empty()]);
        crate::text::lemma_join_lines_concat(seq!["## "@ + a.category] + seq![a.vision_text], seq![Seq::<char>::empty()]);
        crate::text::lemma_join_lines_concat(seq!["## "@ + a.category], seq![a.vision_text]);
        crate::text::lemma_join_lines_one("## "@ + a.category);
        crate::text::lemma_join_lines_one(a.vision_text);
        crate::text::lemma_join_lines_one(Seq::<char>::empty());
    }
    if a.picture_of_success.len() == 0 {
        assert(area_lines(a) =~= first);
    } else {
        let pic = seq!["### Picture of Success"@];
        let items = item_lines(a.picture_of_success);
        crate::text::lemma_join_lines_concat(first, pic + items + seq![seq![]]);
        crate::text::lemma_join_lines_concat(pic + items, seq![seq![]]);
        crate::text::lemma_join_lines_concat(pic, items);
        crate::text::lemma_join_lines_one("### Picture of Success"@);
        crate::text::lemma_join_lines_one(seq![]);
        lemma_item_lines_join(a.picture_of_success);
        assert(area_lines(a) =~= first + (pic + items + seq![seq![]]));
        assert(crate::text::join_lines(area_lines(a)) =~= vision_area_md(a));
    }
}

proof fn lemma_areas_join(areas: Seq<VisionAreaView>)
    ensures
        crate::text::join_lines(areas_lines(areas)) == vision_areas_md(areas),
    decreases areas.len(),
{
    if areas.len() == 0 {
        assert(areas_lines(areas) =~= Seq::<Seq<char>>::empty());
    } else {
        lemma_areas_join(areas.drop_last());
        crate::text::lemma_join_lines_concat(areas_lines(areas.drop_last()), area_lines(areas.last()));
        lemma_area_join(areas.last());
    }
}

pub open spec fn all_plain_lines(ls: Seq<Seq<char>>) -> bool {
    forall|i: int| 0 <= i < ls.len() ==> crate::text::plain_line(#[trigger] ls[i])
}

proof fn lemma_plain_concat(a: Seq<Seq<char>>, b: Seq<Seq<char>>)
    requires
        all_plain_lines(a),
        all_plain_lines(b),
    ensures
        all_plain_lines(a + b),
{
    assert forall|i: int| 0 <= i < (a + b).len() implies crate::text::plain_line(#[trigger] (a + b)[i]) by {
        if i < a.len() {
            assert((a + b)[i] == a[i]);
        } else {
            assert((a + b)[i] == b[i - a.len()]);
        }
    }
}

/// A prefix without newlines before a line of text makes a plain line.
proof fn lemma_led_plain(p: Seq<char>, x: Seq<char>)
    requires
        crate::text::no_newline(p),
        line_text(x),
    ensures
        crate::text::plain_line(p + x),
{
    lemma_line_text_ends(x);
    assert((p + x).last() == x.last());
    assert forall|i: int| 0 <= i < (p + x).len() implies (p + x)[i] != '\n' by {
        if i < p.len() {
            assert((p + x)[i] == p[i]);
        } else {
            assert((p + x)[i] == x[i - p.len()]);
        }
    }
}

proof fn lemma_area_plain(a: VisionAreaView)
    requires
        area_fits(a),
    ensures
        all_plain_lines(area_lines(a)),
{
    reveal_strlit("## ");
    reveal_strlit("- ");
    reveal_strlit("### Picture of Success");
    lemma_led_plain("## "@, a.category);
    lemma_line_text_ends(a.vision_text);
    let first = seq!["## "@ + a.category, a.vision_text, seq![]];
    assert(all_plain_lines(first)) by {
        assert forall|i: int| 0 <= i < first.len() implies crate::text::plain_line(#[trigger] first[i]) by {
            if i == 0 {
            } else if i == 1 {
            } else {
                assert(first[i] =~= Seq::<char>::empty());
            }
        }
    }
    if a.picture_of_success.len() > 0 {
        let items = item_lines(a.picture_of_success);
        assert(all_plain_lines(items)) by {
            assert forall|j: int| 0 <= j < items.len() implies crate::text::plain_line(#[trigger] items[j]) by {
                assert(line_text(a.picture_of_success[j]));
                lemma_led_plain("- "@, a.picture_of_success[j]);
            }
        }
        let pic = seq!["### Picture of Success"@];
        assert(all_plain_lines(pic)) by {
            assert(crate::text::plain_line("### Picture of Success"@));
        }
        let end = seq![Seq::<char>::empty()];
        assert(all_plain_lines(end));
        lemma_plain_concat(pic, items);
        lemma_plain_concat(pic + items, end);
        lemma_plain_concat(first, pic + items + end);
    } else {
        assert(area_lines(a) =~= first);
    }
}

proof fn lemma_areas_plain(areas: Seq<VisionAreaView>)
    requires
        forall|i: int| 0 <= i < areas.len() ==> area_fits(#[trigger] areas[i]),
    ensures
        all_plain_lines(areas_lines(areas)),
    decreases areas.len(),
{
    if areas.len() > 0 {
        let init = areas.drop_last();
        assert forall|i: int| 0 <= i < init.len() implies area_fits(#[trigger] init[i]) by {
            assert(init[i] == areas[i]);
        }
        lemma_areas_plain(init);
        assert(area_fits(areas[areas.len() - 1]));
        lemma_area_plain(areas.last());
        lemma_plain_concat(areas_lines(init), area_lines(areas.last()));
    }
}

proof fn lemma_lines_plain(v: VisionView)
    requires
        vision_fits(v),
    ensures
        forall|i: int| 0 <= i < vision_lines(v).len() ==> crate::text::plain_line(#[trigger] vision_lines(v)[i]),
{
    reveal_strlit("# ");
    lemma_led_plain("# "@, v.time_horizon);
    let head = seq!["# "@ + v.time_horizon, seq![]];
    assert(all_plain_lines(head)) by {
        assert forall|i: int| 0 <= i < head.len() implies crate::text::plain_line(#[trigger] head[i]) by {
            if i == 1 {
                assert(head[i] =~= Seq::<char>::empty());
            }
        }
    }
    lemma_areas_plain(v.areas);
    lemma_plain_concat(head, areas_lines(v.areas));
}

/// Writing a vision to `vision.md` and reading it back gives the same
/// vision, for visions the file holds as they are (see `vision_fits`).
pub proof fn law_vision_round_trip(v: VisionView)
    requires
        vision_fits(v),
    ensures
        vision_of(vision_md(v)) == v,
{
    reveal_strlit("# ");
    reveal_strlit("## ");
    reveal_strlit("\n\n");
    let ls = vision_lines(v);
    let head = seq!["# "@ + v.time_horizon, seq![]];
    lemma_areas_join(v.areas);
    crate::text::lemma_join_lines_concat(head, areas_lines(v.areas));
    assert(crate::text::join_lines(head) =~= "# "@ + v.time_horizon + "\n\n"@) by {
        assert(head =~= seq!["# "@ + v.time_horizon] + seq![Seq::<char>::empty()]);
        crate::text::lemma_join_lines_concat(seq!["# "@ + v.time_horizon], seq![Seq::<char>::empty()]);
        crate::text::lemma_join_lines_one("# "@ + v.time_horizon);
        crate::text::lemma_join_lines_one(Seq::<char>::empty());
    }
    assert(crate::text::join_lines(ls) =~= vision_md(v));
    lemma_lines_plain(v);
    crate::text::lemma_lines_join_lines(ls);
    assert(lines(vision_md(v)) == ls);
    lemma_scan_concat(head, areas_lines(v.areas));
    lemma_led_trim("# "@, v.time_horizon);
    let t = "# "@ + v.time_horizon;
    assert(starts_with(t, "# "@)) by {
        assert(t.subrange(0, 2) =~= "# "@);
    }
    lemma_not_prefix(t, "## "@, 1);
    assert(t.skip(2) =~= v.time_horizon);
    assert(head =~= seq![t].push(seq![]));
    assert(seq![t].drop_last() =~= Seq::<Seq<char>>::empty());
    assert(vision_scan(seq![t].drop_last()) == (default_vision(), None::<VisionAreaView>));
    assert(vision_scan(seq![t]) == vision_step((default_vision(), None), t)) by {
        assert(seq![t].last() == t);
    }
    assert(vision_scan(head) == vision_step(vision_scan(seq![t]), seq![])) by {
        assert(head.drop_last() =~= seq![t]);
        assert(head.last() == Seq::<char>::empty());
    }
    let s1 = vision_step((default_vision(), None), t);
    assert(s1 == (VisionView { time_horizon: v.time_horizon, areas: seq![] }, None::<VisionAreaView>));
    lemma_blank_step(s1);
    assert(vision_scan(head) == s1);
    lemma_areas_scan(v.time_horizon, v.areas);
    assert(vision_scan(ls) == vision_scan_from(s1, areas_lines(v.areas)));
    if v.areas.len() > 0 {
        assert(v.areas.drop_last().push(v.areas.last()) =~= v.areas);
        let v0 = VisionView { time_horizon: v.time_horizon, areas: v.areas.drop_last() };
        assert(VisionView { areas: v0.areas.push(v.areas.last()), ..v0 } == v);
    } else {
        assert(v.areas =~= Seq::<VisionAreaView>::empty());
        assert(VisionView { time_horizon: v.time_horizon, areas: seq![] } == v);
    }
}

} // verus!
