//! Where the GTD files live: `~/data/gtd/` and the files in it. Paths are
//! handled as text, joined as `Path::join` joins them on Unix.
use vstd::prelude::*;

use crate::text::{chars_of, concat, push_all, string_of};

verus! {

/// What `Path::join` gives on Unix: an absolute `p` replaces `base`; otherwise
/// `p` is appended, after a `/` unless `base` is empty or already ends with one.
pub open spec fn path_join(base: Seq<char>, p: Seq<char>) -> Seq<char> {
    if p.len() > 0 && p[0] == '/' {
        p
    } else if base.len() == 0 || base.last() == '/' {
        base + p
    } else {
        base + seq!['/'] + p
    }
}

pub fn join_path(base: &str, p: &str) -> (r: String)
    ensures
        r@ == path_join(base@, p@),
{
    let b = chars_of(base);
    let q = chars_of(p);
    if q.len() > 0 && q[0] == '/' {
        string_of(&q)
    } else if b.len() == 0 || b[b.len() - 1] == '/' {
        string_of(&concat(&b, &q))
    } else {
        let mut r = b;
        r.push('/');
        push_all(&mut r, &q);
        string_of(&r)
    }
}

/// The data directory under a home directory: `home/data/gtd`.
pub open spec fn gtd_dir(home: Seq<char>) -> Seq<char> {
    path_join(path_join(home, "data"@), "gtd"@)
}

/// The data directory under the given home directory.
pub fn data_dir_for(home: &str) -> (r: String)
    ensures
        r@ == gtd_dir(home@),
{
    let d = join_path(home, "data");
    join_path(d.as_str(), "gtd")
}

/// The data directory, `~/data/gtd`; `None` when there is no home directory.
pub fn data_dir() -> (r: Option<String>)
    ensures
        r matches Some(d) ==> exists|h: Seq<char>| h.len() > 0 && d@ == gtd_dir(h),
{
    match crate::external::home_dir() {
        Some(h) => Some(data_dir_for(h.as_str())),
        None => None,
    }
}

/// The trigger list to read: `triggerlist.md` in the working directory if it
/// exists there, else the one in the data directory if that exists, else the
/// one in the working directory.
pub open spec fn trigger_list_choice(data_dir: Seq<char>, in_cwd: bool, in_data_dir: bool) -> Seq<
    char,
> {
    if in_cwd {
        "triggerlist.md"@
    } else if in_data_dir {
        path_join(data_dir, "triggerlist.md"@)
    } else {
        "triggerlist.md"@
    }
}

/// Picks the trigger list file, given whether `triggerlist.md` exists in the
/// working directory and in the data directory.
pub fn trigger_list_file(data_dir: &str, in_cwd: bool, in_data_dir: bool) -> (r: String)
    ensures
        r@ == trigger_list_choice(data_dir@, in_cwd, in_data_dir),
{
    if in_cwd {
        crate::text::owned("triggerlist.md")
    } else if in_data_dir {
        join_path(data_dir, "triggerlist.md")
    } else {
        crate::text::owned("triggerlist.md")
    }
}

/// No directory needs creating before the commands run.
pub fn ensure_dirs() {
}

pub fn purpose_file(data_dir: &str) -> (r: String)
    ensures
        r@ == path_join(data_dir@, "purpose.md"@),
{
    join_path(data_dir, "purpose.md")
}

pub fn goals_file(data_dir: &str) -> (r: String)
    ensures
        r@ == path_join(data_dir@, "goals.md"@),
{
    join_path(data_dir, "goals.md")
}

pub fn areas_file(data_dir: &str) -> (r: String)
    ensures
        r@ == path_join(data_dir@, "areas.md"@),
{
    join_path(data_dir, "areas.md")
}

pub fn vision_file(data_dir: &str) -> (r: String)
    ensures
        r@ == path_join(data_dir@, "vision.md"@),
{
    join_path(data_dir, "vision.md")
}

pub fn weekly_dir(data_dir: &str) -> (r: String)
    ensures
        r@ == path_join(data_dir@, "weekly"@),
{
    join_path(data_dir, "weekly")
}

/// The board file of a week: `weekly/<date>.md`.
pub fn weekly_board_path(data_dir: &str, date_str: &str) -> (r: String)
    ensures
        r@ == path_join(path_join(data_dir@, "weekly"@), date_str@ + ".md"@),
{
    let w = weekly_dir(data_dir);
    let mut name = chars_of(date_str);
    push_all(&mut name, &chars_of(".md"));
    let n = string_of(&name);
    join_path(w.as_str(), n.as_str())
}

pub fn calendar_path(data_dir: &str) -> (r: String)
    ensures
        r@ == path_join(data_dir@, "calendar.md"@),
{
    join_path(data_dir, "calendar.md")
}

pub fn projects_path(data_dir: &str) -> (r: String)
    ensures
        r@ == path_join(data_dir@, "projects.md"@),
{
    join_path(data_dir, "projects.md")
}

pub fn waiting_for_path(data_dir: &str) -> (r: String)
    ensures
        r@ == path_join(data_dir@, "waiting-for.md"@),
{
    join_path(data_dir, "waiting-for.md")
}

pub fn agendas_path(data_dir: &str) -> (r: String)
    ensures
        r@ == path_join(data_dir@, "agendas.md"@),
{
    join_path(data_dir, "agendas.md")
}

pub fn someday_maybe_path(data_dir: &str) -> (r: String)
    ensures
        r@ == path_join(data_dir@, "someday-maybe.md"@),
{
    join_path(data_dir, "someday-maybe.md")
}

pub fn checklists_dir(data_dir: &str) -> (r: String)
    ensures
        r@ == path_join(data_dir@, "checklists"@),
{
    join_path(data_dir, "checklists")
}

/// The file of a checklist: `checklists/<name>.md`.
pub fn checklist_path(data_dir: &str, name: &str) -> (r: String)
    ensures
        r@ == path_join(path_join(data_dir@, "checklists"@), name@ + ".md"@),
{
    let c = checklists_dir(data_dir);
    let mut n = chars_of(name);
    push_all(&mut n, &chars_of(".md"));
    let s = string_of(&n);
    join_path(c.as_str(), s.as_str())
}

pub fn brainstorm_path(data_dir: &str) -> (r: String)
    ensures
        r@ == path_join(data_dir@, "brainstorm.md"@),
{
    join_path(data_dir, "brainstorm.md")
}

} // verus!
