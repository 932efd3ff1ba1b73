//! Overviews of the whole system: the plain-text summary, the summary and
//! altitudes screens of the review, the assessment screen, and the notes
//! that the accountability partner left.
use vstd::prelude::*;

use crate::board::{decimal, decimal_u8, decimal_usize, BoardView, WeeklyBoard};
use crate::horizons::{
    area_views, goal_views, Area, AreaView, Goal, GoalStatus, GoalView, Profile, ProfileView, Vision,
    VisionAreaView, VisionView,
};
use crate::calendar::{event_num, event_number, event_views, events_fit, CalendarEvent, EventView};
use crate::listing::{board_gaps, compute_review_streak, weekly_run};
use crate::projects::{load_next_actions, next_actions_of, project_views, Project, ProjectView};
use crate::listing::{
    lemma_text_le_trans, lemma_text_lt_irrefl, lemma_text_lt_total, lemma_text_lt_trans, md_file_stem, text_lt,
    text_less,
};
use crate::ui::{divider, divider_line, push_styled_line, styled_line, styled_views, StyledLine, Tone};
use crate::text::{
    byte_len, char_byte_len, char_bytes, chars_list, chars_of, concat, copy_string, lemma_byte_len_concat, push_all, ends_with, ends_with_chars, eq_chars, find, find_chars, join,
    join_chars, lemma_find, lines, lines_of_str, owned, seqs, slice, starts_with,
    starts_with_chars, strip_prefix, strip_prefix_chars, string_of, strs, trim, trim_chars,
};

verus! {

// ── Sections of a weekly board ──────────────────────────────────────────

/// Reading the lines after a header: the lines gathered, and whether the
/// section has ended.
pub open spec fn section_step(st: (Seq<Seq<char>>, bool), line: Seq<char>) -> (Seq<Seq<char>>, bool) {
    let (acc, done) = st;
    let t = trim(line);
    if done {
        st
    } else if t.len() == 0 {
        if acc.len() > 0 {
            (acc, true)
        } else {
            st
        }
    } else if starts_with(t, "## "@) {
        (acc, true)
    } else {
        match strip_prefix(t, "- "@) {
            Some(rest) => (acc.push(rest), false),
            None => (acc.push(t), false),
        }
    }
}

pub open spec fn section_scan(ls: Seq<Seq<char>>) -> (Seq<Seq<char>>, bool)
    decreases ls.len(),
{
    if ls.len() == 0 {
        (seq![], false)
    } else {
        section_step(section_scan(ls.drop_last()), ls.last())
    }
}

/// The text under a header: after its first occurrence, the lines up to a
/// blank line (once there is text) or a `## ` heading, each without a `- `
/// bullet, joined by spaces; none when there is no such text.
pub open spec fn section_text(content: Seq<char>, header: Seq<char>) -> Option<Seq<char>> {
    match find(content, header) {
        None => None,
        Some(pos) => {
            let acc = section_scan(lines(content.skip(pos + header.len()))).0;
            if acc.len() == 0 {
                None
            } else {
                Some(join(acc, " "@))
            }
        },
    }
}

pub fn extract_section(content: &str, header: &str) -> (r: Option<String>)
    ensures
        match r {
            Some(t) => section_text(content@, header@) == Some(t@),
            None => section_text(content@, header@) is None,
        },
{
    let v = chars_of(content);
    let h = chars_of(header);
    let pos = match find_chars(&v, &h) {
        Some(p) => p,
        None => return None,
    };
    proof {
        lemma_find(v@, h@);
    }
    assert(pos + h.len() <= v.len());
    let after = slice(&v, pos + h.len(), v.len());
    assert(after@ =~= v@.skip(pos + h@.len()));
    let ls = crate::text::lines_of(&after);
    let ghost lv = seqs(ls@);
    let dash = chars_of("- ");
    let h2 = chars_of("## ");
    let mut acc: Vec<Vec<char>> = Vec::new();
    let mut done = false;
    let mut i: usize = 0;
    assert(lv.take(0) =~= seq![]);
    assert(seqs(acc@) =~= seq![]);
    while i < ls.len()
        invariant
            i <= ls.len(),
            lv == seqs(ls@),
            dash@ == "- "@,
            h2@ == "## "@,
            section_scan(lv.take(i as int)) == (seqs(acc@), done),
        decreases ls.len() - i,
    {
        assert(lv.take(i + 1).drop_last() =~= lv.take(i as int));
        let ghost a0 = seqs(acc@);
        if !done {
            let t = trim_chars(&ls[i]);
            if t.len() == 0 {
                if acc.len() > 0 {
                    done = true;
                }
            } else if starts_with_chars(&t, &h2) {
                done = true;
            } else {
                match strip_prefix_chars(&t, &dash) {
                    Some(rest) => {
                        acc.push(rest);
                        assert(seqs(acc@) =~= a0.push(section_step((a0, false), lv[i as int]).0.last()));
                    },
                    None => {
                        acc.push(t);
                        assert(seqs(acc@) =~= a0.push(section_step((a0, false), lv[i as int]).0.last()));
                    },
                }
            }
        }
        i = i + 1;
    }
    assert(lv.take(ls.len() as int) =~= lv);
    if acc.len() == 0 {
        None
    } else {
        Some(string_of(&join_chars(&acc, &chars_of(" "))))
    }
}

// ── The inbox ───────────────────────────────────────────────────────────

/// The open items of the inbox: `- [ ] ` lines, trimmed, without the box.
pub open spec fn open_items(ls: Seq<Seq<char>>) -> Seq<Seq<char>>
    decreases ls.len(),
{
    if ls.len() == 0 {
        seq![]
    } else {
        match strip_prefix(trim(ls.last()), "- [ ] "@) {
            Some(rest) => open_items(ls.drop_last()).push(rest),
            None => open_items(ls.drop_last()),
        }
    }
}

/// The open items of the inbox file.
pub fn load_inbox_open(content: &str) -> (r: Vec<String>)
    ensures
        strs(r@) == open_items(lines(content@)),
{
    let ls = lines_of_str(content);
    let ghost lv = seqs(ls@);
    let mark = chars_of("- [ ] ");
    let mut items: Vec<String> = Vec::new();
    let mut i: usize = 0;
    assert(lv.take(0) =~= seq![]);
    assert(strs(items@) =~= seq![]);
    while i < ls.len()
        invariant
            i <= ls.len(),
            lv == seqs(ls@),
            mark@ == "- [ ] "@,
            strs(items@) == open_items(lv.take(i as int)),
        decreases ls.len() - i,
    {
        assert(lv.take(i + 1).drop_last() =~= lv.take(i as int));
        let ghost i0 = strs(items@);
        match strip_prefix_chars(&trim_chars(&ls[i]), &mark) {
            Some(rest) => {
                items.push(string_of(&rest));
                assert(strs(items@) =~= i0.push(rest@));
            },
            None => {},
        }
        i = i + 1;
    }
    assert(lv.take(ls.len() as int) =~= lv);
    items
}

// ── The partner's latest notes ──────────────────────────────────────────

/// What the accountability partner last asked to watch and to do.
#[derive(Debug, Clone)]
pub struct AccountabilityNote {
    pub date: String,
    pub pattern: String,
    pub challenge: String,
}

/// A text with `p` taken off its end as often as it is there
/// (`str::trim_end_matches`).
pub open spec fn strip_all_suffix(s: Seq<char>, p: Seq<char>) -> Seq<char>
    decreases s.len(),
{
    if p.len() > 0 && ends_with(s, p) {
        strip_all_suffix(s.take(s.len() - p.len()), p)
    } else {
        s
    }
}

fn strip_all_suffix_chars(v: &Vec<char>, p: &Vec<char>) -> (r: Vec<char>)
    ensures
        r@ == strip_all_suffix(v@, p@),
{
    let mut n: usize = v.len();
    assert(v@.take(n as int) =~= v@);
    loop
        invariant
            n <= v.len(),
            strip_all_suffix(v@, p@) == strip_all_suffix(v@.take(n as int), p@),
        decreases n,
    {
        let cur = slice(v, 0, n);
        assert(cur@ =~= v@.take(n as int));
        if p.len() > 0 && ends_with_chars(&cur, p) {
            assert(v@.take(n as int).take(n - p@.len()) =~= v@.take(n - p.len()));
            n = n - p.len();
        } else {
            return cur;
        }
    }
}

/// A weekly board file that may hold the partner's notes: an `.md` file
/// other than the template.
pub open spec fn board_note_file(name: Seq<char>) -> bool {
    md_file_stem(name) is Some && name != "template.md"@
}

/// The notes a board file gives: its date, and the texts under
/// `Pattern to Watch:` and `One Challenge:`, when the file was read and
/// has both.
pub open spec fn note_of(name: Seq<char>, content: Option<Seq<char>>) -> Option<(Seq<char>, Seq<char>, Seq<char>)> {
    if !board_note_file(name) {
        None
    } else {
        match content {
            None => None,
            Some(c) => match (section_text(c, "Pattern to Watch:"@), section_text(c, "One Challenge:"@)) {
                (Some(p), Some(ch)) => Some((strip_all_suffix(name, ".md"@), p, ch)),
                _ => None,
            },
        }
    }
}

/// The latest notes among board files: of the files that give notes, the
/// one with the greatest name (the last of those so named).
pub open spec fn latest_note(files: Seq<(Seq<char>, Option<Seq<char>>)>) -> Option<(Seq<char>, (Seq<char>, Seq<char>, Seq<char>))>
    decreases files.len(),
{
    if files.len() == 0 {
        None
    } else {
        let best = latest_note(files.drop_last());
        let (name, content) = files.last();
        match note_of(name, content) {
            Some(n) => match best {
                Some((bname, bn)) => if text_lt(name, bname) {
                    best
                } else {
                    Some((name, n))
                },
                None => Some((name, n)),
            },
            None => best,
        }
    }
}

/// The notes returned are those of the board file with the greatest name
/// among the files that give notes: they come from such a file, no file that
/// gives notes has a greater name, and there are none only when no file
/// gives notes.
pub proof fn law_latest_note(files: Seq<(Seq<char>, Option<Seq<char>>)>)
    ensures
        latest_note(files) is None <==> forall|i: int| 0 <= i < files.len() ==> (#[trigger] note_of(files[i].0, files[i].1)) is None,
        latest_note(files) matches Some((bname, n)) ==> (exists|i: int|
            0 <= i < files.len() && files[i].0 == bname && #[trigger] note_of(files[i].0, files[i].1) == Some(n)),
        latest_note(files) matches Some((bname, n)) ==> forall|i: int|
            0 <= i < files.len() && (#[trigger] note_of(files[i].0, files[i].1)) is Some ==> !text_lt(bname, files[i].0),
    decreases files.len(),
{
    if files.len() > 0 {
        let init = files.drop_last();
        law_latest_note(init);
        let (name, content) = files.last();
        let last = files.len() - 1;
        assert(files[last] == files.last());
        assert forall|i: int| 0 <= i < init.len() implies files[i] == init[i] by {}
        let best = latest_note(init);
        match note_of(name, content) {
            Some(n) => {
                match best {
                    Some((bname, bn)) => {
                        let j = choose|j: int|
                            0 <= j < init.len() && init[j].0 == bname && #[trigger] note_of(init[j].0, init[j].1) == Some(bn);
                        assert(files[j] == init[j]);
                        if text_lt(name, bname) {
                            lemma_text_lt_total(name, bname);
                            if text_lt(bname, name) {
                                lemma_text_lt_trans(name, bname, name);
                                lemma_text_lt_irrefl(name);
                            }
                            assert forall|i: int|
                                0 <= i < files.len() && (#[trigger] note_of(files[i].0, files[i].1)) is Some implies !text_lt(
                                bname,
                                files[i].0,
                            ) by {
                                if i < init.len() {
                                    assert(files[i] == init[i]);
                                }
                            }
                        } else {
                            assert forall|i: int|
                                0 <= i < files.len() && (#[trigger] note_of(files[i].0, files[i].1)) is Some implies !text_lt(
                                name,
                                files[i].0,
                            ) by {
                                if i < init.len() {
                                    assert(files[i] == init[i]);
                                    lemma_text_le_trans(name, bname, files[i].0);
                                } else {
                                    lemma_text_lt_irrefl(name);
                                }
                            }
                        }
                    },
                    None => {
                        assert forall|i: int|
                            0 <= i < files.len() && (#[trigger] note_of(files[i].0, files[i].1)) is Some implies !text_lt(
                            name,
                            files[i].0,
                        ) by {
                            if i < init.len() {
                                assert(files[i] == init[i]);
                            } else {
                                lemma_text_lt_irrefl(name);
                            }
                        }
                    },
                }
            },
            None => {
                match best {
                    Some((bname, bn)) => {
                        let j = choose|j: int|
                            0 <= j < init.len() && init[j].0 == bname && #[trigger] note_of(init[j].0, init[j].1) == Some(bn);
                        assert(files[j] == init[j]);
                        assert forall|i: int|
                            0 <= i < files.len() && (#[trigger] note_of(files[i].0, files[i].1)) is Some implies !text_lt(
                            bname,
                            files[i].0,
                        ) by {
                            if i < init.len() {
                                assert(files[i] == init[i]);
                            }
                        }
                    },
                    None => {
                        assert forall|i: int| 0 <= i < files.len() implies (#[trigger] note_of(files[i].0, files[i].1)) is None by {
                            if i < init.len() {
                                assert(files[i] == init[i]);
                            }
                        }
                    },
                }
            },
        }
    }
}

pub open spec fn file_views(v: Seq<(String, Option<String>)>) -> Seq<(Seq<char>, Option<Seq<char>>)> {
    v.map_values(
        |f: (String, Option<String>)|
            (
                f.0@,
                match f.1 {
                    Some(c) => Some(c@),
                    None => None,
                },
            ),
    )
}

fn note_of_exec(name: &String, content: &Option<String>) -> (r: Option<AccountabilityNote>)
    ensures
        match r {
            Some(n) => note_of(
                name@,
                match content {
                    Some(c) => Some(c@),
                    None => None,
                },
            ) == Some((n.date@, n.pattern@, n.challenge@)),
            None => note_of(
                name@,
                match content {
                    Some(c) => Some(c@),
                    None => None,
                },
            ) is None,
        },
{
    let v = chars_of(name.as_str());
    match crate::listing::md_file_stem_of(&v) {
        None => return None,
        Some(_) => {},
    }
    if eq_chars(&v, &chars_of("template.md")) {
        return None;
    }
    match content {
        None => None,
        Some(c) => {
            let pattern = extract_section(c.as_str(), "Pattern to Watch:");
            let challenge = extract_section(c.as_str(), "One Challenge:");
            match (pattern, challenge) {
                (Some(p), Some(ch)) => Some(
                    AccountabilityNote {
                        date: string_of(&strip_all_suffix_chars(&v, &chars_of(".md"))),
                        pattern: p,
                        challenge: ch,
                    },
                ),
                _ => None,
            }
        },
    }
}

/// The partner's latest notes, over the weekly directory's files (each with
/// its content, `None` where it could not be read).
pub fn load_latest_accountability(files: &Vec<(String, Option<String>)>) -> (r: Option<AccountabilityNote>)
    ensures
        match r {
            Some(n) => latest_note(file_views(files@)) matches Some((_, t)) && t == (
                n.date@,
                n.pattern@,
                n.challenge@,
            ),
            None => latest_note(file_views(files@)) is None,
        },
{
    let ghost fv = file_views(files@);
    let mut best: Option<(String, AccountabilityNote)> = None;
    let mut i: usize = 0;
    assert(fv.take(0) =~= seq![]);
    while i < files.len()
        invariant
            i <= files.len(),
            fv == file_views(files@),
            match best {
                Some((bname, bn)) => latest_note(fv.take(i as int)) == Some(
                    (bname@, (bn.date@, bn.pattern@, bn.challenge@)),
                ),
                None => latest_note(fv.take(i as int)) is None,
            },
        decreases files.len() - i,
    {
        assert(fv.take(i + 1).drop_last() =~= fv.take(i as int));
        assert(fv[i as int] == fv.take(i + 1).last());
        let (name, content) = &files[i];
        match note_of_exec(name, content) {
            Some(n) => {
                let keep = match &best {
                    Some((bname, _)) => text_less(&chars_of(name.as_str()), &chars_of(bname.as_str())),
                    None => false,
                };
                if !keep {
                    best = Some((copy_string(name), n));
                }
            },
            None => {},
        }
        i = i + 1;
    }
    assert(fv.take(files.len() as int) =~= fv);
    match best {
        Some((_, n)) => Some(n),
        None => None,
    }
}

// ── Building screens ────────────────────────────────────────────────────

/// A shown line: text, colour, bold.
pub type Shown = (Seq<char>, Tone, bool);

/// The lines, when the condition holds.
pub open spec fn when(c: bool, ls: Seq<Shown>) -> Seq<Shown> {
    if c {
        ls
    } else {
        seq![]
    }
}

/// Items, each after a prefix, in a plain colour.
pub open spec fn bullet_items(prefix: Seq<char>, items: Seq<Seq<char>>, tone: Tone) -> Seq<Shown> {
    items.map_values(|x: Seq<char>| (prefix + x, tone, false))
}

fn push_line(out: &mut Vec<StyledLine>, text: &Vec<char>, tone: Tone, bold: bool)
    ensures
        styled_views(final(out)@) == styled_views(old(out)@).push((text@, tone, bold)),
{
    let ghost o0 = styled_views(out@);
    out.push((string_of(text), tone, bold));
    assert(styled_views(out@) =~= o0.push((text@, tone, bold)));
}

fn push_text(out: &mut Vec<StyledLine>, text: &str, tone: Tone, bold: bool)
    ensures
        styled_views(final(out)@) == styled_views(old(out)@).push((text@, tone, bold)),
{
    push_line(out, &chars_of(text), tone, bold);
}

fn push_blank(out: &mut Vec<StyledLine>, tone: Tone)
    ensures
        styled_views(final(out)@) == styled_views(old(out)@).push((seq![], tone, false)),
{
    push_line(out, &Vec::new(), tone, false);
}

fn push_bullets(out: &mut Vec<StyledLine>, prefix: &Vec<char>, items: &Vec<String>, tone: Tone)
    ensures
        styled_views(final(out)@) == styled_views(old(out)@) + bullet_items(prefix@, strs(items@), tone),
{
    let ghost o0 = styled_views(out@);
    let mut k: usize = 0;
    assert(o0 + bullet_items(prefix@, strs(items@).take(0), tone) =~= o0);
    while k < items.len()
        invariant
            k <= items.len(),
            styled_views(out@) == o0 + bullet_items(prefix@, strs(items@).take(k as int), tone),
        decreases items.len() - k,
    {
        push_line(out, &concat(prefix, &chars_of(items[k].as_str())), tone, false);
        k = k + 1;
        assert(styled_views(out@) =~= o0 + bullet_items(prefix@, strs(items@).take(k as int), tone));
    }
    assert(strs(items@).take(items.len() as int) =~= strs(items@));
}

/// The title of the partner's notes: the score out of ten, when there is one.
pub open spec fn score_title(score: Option<u8>) -> Seq<char> {
    match score {
        Some(s) => "Score: "@ + decimal(s as nat) + "/10"@,
        None => "Partner Notes"@,
    }
}

/// The partner's notes as shown: each line styled.
pub open spec fn styled_notes(notes: Seq<char>) -> Seq<Shown> {
    lines(notes).map_values(|l: Seq<char>| styled_line(l))
}

/// Who the user is and their purpose.
pub open spec fn profile_part(p: ProfileView) -> Seq<Shown> {
    when(p.name.len() > 0, seq![(p.name, Tone::FgBright, true), (seq![], Tone::Fg, false)]) + when(
        p.purpose.len() > 0,
        seq![("Purpose: "@ + p.purpose, Tone::Code, false)],
    )
}

/// The partner's score, its note, and the partner's notes.
pub open spec fn partner_part(b: BoardView) -> Seq<Shown> {
    match b.partner_notes {
        Some(notes) => seq![
            (seq![], Tone::Fg, false),
            ("\u{1f465} "@ + score_title(b.score), Tone::Accent, true),
        ] + match b.score_note {
            Some(n) => seq![(n, Tone::Fg, false)],
            None => seq![],
        } + styled_notes(notes),
        None => seq![],
    }
}

/// Last week's accomplishments and struggles.
pub open spec fn last_week_part(b: BoardView) -> Seq<Shown> {
    when(
        b.accomplishments.len() > 0 || b.struggles.len() > 0,
        seq![(seq![], Tone::Fg, false), ("\u{1f3c3} Last Week"@, Tone::AccentSoft, true)],
    ) + when(
        b.accomplishments.len() > 0,
        seq![("Accomplishments"@, Tone::Link, true)] + bullet_items(
            "  \u{2022} "@,
            b.accomplishments,
            Tone::Fg,
        ),
    ) + when(
        b.struggles.len() > 0,
        seq![("Struggles"@, Tone::Error, true)] + bullet_items("  \u{2022} "@, b.struggles, Tone::Fg),
    )
}

/// The assessment screen: who the user is and their purpose, the partner's
/// score and notes, and last week's accomplishments and struggles.
pub open spec fn assessment_lines(p: ProfileView, b: BoardView) -> Seq<Shown> {
    profile_part(p) + partner_part(b) + last_week_part(b)
}

fn push_styled_notes(out: &mut Vec<StyledLine>, notes: &String)
    ensures
        styled_views(final(out)@) == styled_views(old(out)@) + styled_notes(notes@),
{
    let ls = lines_of_str(notes.as_str());
    let ghost lv = seqs(ls@);
    let ghost o0 = styled_views(out@);
    let mut k: usize = 0;
    assert(o0 + lv.take(0).map_values(|l: Seq<char>| styled_line(l)) =~= o0);
    while k < ls.len()
        invariant
            k <= ls.len(),
            lv == seqs(ls@),
            styled_views(out@) == o0 + lv.take(k as int).map_values(|l: Seq<char>| styled_line(l)),
        decreases ls.len() - k,
    {
        let line = string_of(&ls[k]);
        push_styled_line(out, line.as_str());
        k = k + 1;
        assert(styled_views(out@) =~= o0 + lv.take(k as int).map_values(
            |l: Seq<char>| styled_line(l),
        ));
    }
    assert(lv.take(ls.len() as int) =~= lv);
}

fn push_profile_part(out: &mut Vec<StyledLine>, profile: &Profile)
    ensures
        styled_views(final(out)@) == styled_views(old(out)@) + profile_part(profile@),
{
    let ghost o0 = styled_views(out@);
    if !profile.name.as_str().is_empty() {
        push_line(out, &chars_of(profile.name.as_str()), Tone::FgBright, true);
        push_blank(out, Tone::Fg);
    }
    let ghost o1 = styled_views(out@);
    if !profile.purpose.as_str().is_empty() {
        push_line(out, &concat(&chars_of("Purpose: "), &chars_of(profile.purpose.as_str())), Tone::Code, false);
    }
    assert(styled_views(out@) =~= o0 + profile_part(profile@));
}

fn push_partner_part(out: &mut Vec<StyledLine>, board: &WeeklyBoard)
    ensures
        styled_views(final(out)@) == styled_views(old(out)@) + partner_part(board@),
{
    let ghost o0 = styled_views(out@);
    match &board.partner_notes {
        Some(notes) => {
            push_blank(out, Tone::Fg);
            let title = match board.score {
                Some(sc) => concat(&concat(&chars_of("Score: "), &decimal_u8(sc)), &chars_of("/10")),
                None => chars_of("Partner Notes"),
            };
            assert(title@ == score_title(board.score));
            push_line(out, &concat(&chars_of("\u{1f465} "), &title), Tone::Accent, true);
            let ghost o1 = styled_views(out@);
            match &board.score_note {
                Some(n) => push_line(out, &chars_of(n.as_str()), Tone::Fg, false),
                None => {},
            }
            let ghost o2 = styled_views(out@);
            assert(o2 =~= o1 + match board@.score_note {
                Some(n) => seq![(n, Tone::Fg, false)],
                None => seq![],
            });
            push_styled_notes(out, notes);
            assert(styled_views(out@) =~= o0 + partner_part(board@));
        },
        None => {
            assert(styled_views(out@) =~= o0 + partner_part(board@));
        },
    }
}

fn push_last_week_part(out: &mut Vec<StyledLine>, board: &WeeklyBoard)
    ensures
        styled_views(final(out)@) == styled_views(old(out)@) + last_week_part(board@),
{
    let ghost o0 = styled_views(out@);
    let ghost b = board@;
    if board.accomplishments.len() > 0 || board.struggles.len() > 0 {
        push_blank(out, Tone::Fg);
        push_text(out, "\u{1f3c3} Last Week", Tone::AccentSoft, true);
    }
    let bullet = chars_of("  \u{2022} ");
    let ghost o1 = styled_views(out@);
    if board.accomplishments.len() > 0 {
        push_text(out, "Accomplishments", Tone::Link, true);
        push_bullets(out, &bullet, &board.accomplishments, Tone::Fg);
    }
    let ghost o2 = styled_views(out@);
    assert(o2 =~= o1 + when(
        b.accomplishments.len() > 0,
        seq![("Accomplishments"@, Tone::Link, true)] + bullet_items("  \u{2022} "@, b.accomplishments, Tone::Fg),
    ));
    if board.struggles.len() > 0 {
        push_text(out, "Struggles", Tone::Error, true);
        push_bullets(out, &bullet, &board.struggles, Tone::Fg);
    }
    assert(styled_views(out@) =~= o2 + when(
        b.struggles.len() > 0,
        seq![("Struggles"@, Tone::Error, true)] + bullet_items("  \u{2022} "@, b.struggles, Tone::Fg),
    ));
    assert(styled_views(out@) =~= o0 + last_week_part(board@));
}

/// The lines of the assessment screen for a profile and a week's board.
pub fn build_assessment_lines(profile: &Profile, board: &WeeklyBoard, cols: u16) -> (r: Vec<StyledLine>)
    ensures
        styled_views(r@) == assessment_lines(profile@, board@),
{
    let mut out: Vec<StyledLine> = Vec::new();
    push_profile_part(&mut out, profile);
    push_partner_part(&mut out, board);
    push_last_week_part(&mut out, board);
    assert(styled_views(out@) =~= assessment_lines(profile@, board@));
    out
}

// ── The altitudes view ──────────────────────────────────────────────────

/// The goals still being pursued.
pub open spec fn active_goals(gs: Seq<GoalView>) -> Seq<GoalView>
    decreases gs.len(),
{
    if gs.len() == 0 {
        seq![]
    } else if gs.last().status == GoalStatus::Active {
        active_goals(gs.drop_last()).push(gs.last())
    } else {
        active_goals(gs.drop_last())
    }
}

pub open spec fn purpose_part(p: ProfileView) -> Seq<Shown> {
    seq![("\u{2550}\u{2550}\u{2550} H5 \u{b7} Purpose \u{2550}\u{2550}\u{2550}"@, Tone::Yellow, true)] + when(
        p.name.len() > 0,
        seq![("  Name: "@ + p.name, Tone::White, false)],
    ) + when(p.purpose.len() > 0, seq![("  Purpose: "@ + p.purpose, Tone::White, false)]) + when(
        p.core_values.len() > 0,
        seq![("  Values: "@ + join(p.core_values, ", "@), Tone::White, false)],
    ) + when(p.roles.len() > 0, seq![("  Roles: "@ + join(p.roles, ", "@), Tone::White, false)])
        + seq![(seq![], Tone::White, false)]
}

pub open spec fn vision_area_lines(areas: Seq<VisionAreaView>) -> Seq<Shown>
    decreases areas.len(),
{
    if areas.len() == 0 {
        seq![]
    } else {
        vision_area_lines(areas.drop_last()) + seq![
            ("  "@ + areas.last().category + ":"@, Tone::Cyan, true),
        ] + bullet_items("    \u{2022} "@, areas.last().picture_of_success, Tone::White)
    }
}

pub open spec fn vision_part(v: VisionView) -> Seq<Shown> {
    seq![("\u{2550}\u{2550}\u{2550} H4 \u{b7} Vision (3-year) \u{2550}\u{2550}\u{2550}"@, Tone::Yellow, true)] + if v.areas.len()
        == 0 {
        seq![("  No vision areas defined."@, Tone::DarkGrey, false)]
    } else {
        vision_area_lines(v.areas)
    } + seq![(seq![], Tone::White, false)]
}

pub open spec fn goal_line(g: GoalView) -> Shown {
    (
        "  \u{2022} "@ + g.text + " (target: "@ + match g.target_date {
            Some(d) => d,
            None => "no date"@,
        } + ")"@,
        Tone::White,
        false,
    )
}

pub open spec fn goals_part(gs: Seq<GoalView>) -> Seq<Shown> {
    seq![("\u{2550}\u{2550}\u{2550} H3 \u{b7} Goals \u{2550}\u{2550}\u{2550}"@, Tone::Yellow, true)] + if active_goals(gs).len()
        == 0 {
        seq![("  No active goals."@, Tone::DarkGrey, false)]
    } else {
        active_goals(gs).map_values(|g: GoalView| goal_line(g))
    } + seq![(seq![], Tone::White, false)]
}

pub open spec fn areas_part(areas: Seq<AreaView>) -> Seq<Shown> {
    seq![("\u{2550}\u{2550}\u{2550} H2 \u{b7} Areas of Focus \u{2550}\u{2550}\u{2550}"@, Tone::Yellow, true)] + if areas.len()
        == 0 {
        seq![("  No areas defined."@, Tone::DarkGrey, false)]
    } else {
        areas.map_values(|a: AreaView| ("  \u{2022} "@ + a.name, Tone::White, false))
    } + seq![(seq![], Tone::White, false)]
}

pub open spec fn projects_part(ps: Seq<ProjectView>) -> Seq<Shown> {
    seq![("\u{2550}\u{2550}\u{2550} H1 \u{b7} Projects \u{2550}\u{2550}\u{2550}"@, Tone::Yellow, true)] + if ps.len() == 0 {
        seq![("  No projects."@, Tone::DarkGrey, false)]
    } else {
        ps.map_values(|p: ProjectView| ("  \u{2022} "@ + p.name, Tone::White, false))
    }
}

/// The altitudes view: each horizon from purpose down to projects.
pub open spec fn altitudes_lines(p: ProfileView, v: VisionView, gs: Seq<GoalView>, areas: Seq<AreaView>, ps: Seq<ProjectView>) -> Seq<Shown> {
    purpose_part(p) + vision_part(v) + goals_part(gs) + areas_part(areas) + projects_part(ps)
}

fn push_purpose_part(out: &mut Vec<StyledLine>, p: &Profile)
    ensures
        styled_views(final(out)@) == styled_views(old(out)@) + purpose_part(p@),
{
    let ghost o0 = styled_views(out@);
    push_text(out, "\u{2550}\u{2550}\u{2550} H5 \u{b7} Purpose \u{2550}\u{2550}\u{2550}", Tone::Yellow, true);
    if !p.name.as_str().is_empty() {
        push_line(out, &concat(&chars_of("  Name: "), &chars_of(p.name.as_str())), Tone::White, false);
    }
    let ghost o1 = styled_views(out@);
    if !p.purpose.as_str().is_empty() {
        push_line(out, &concat(&chars_of("  Purpose: "), &chars_of(p.purpose.as_str())), Tone::White, false);
    }
    let ghost o2 = styled_views(out@);
    let sep = chars_of(", ");
    if p.core_values.len() > 0 {
        push_line(out, &concat(&chars_of("  Values: "), &join_chars(&chars_list(&p.core_values), &sep)), Tone::White, false);
    }
    let ghost o3 = styled_views(out@);
    if p.roles.len() > 0 {
        push_line(out, &concat(&chars_of("  Roles: "), &join_chars(&chars_list(&p.roles), &sep)), Tone::White, false);
    }
    let ghost o4 = styled_views(out@);
    push_blank(out, Tone::White);
    assert(o1 =~= o0 + seq![("\u{2550}\u{2550}\u{2550} H5 \u{b7} Purpose \u{2550}\u{2550}\u{2550}"@, Tone::Yellow, true)] + when(
        p@.name.len() > 0,
        seq![("  Name: "@ + p@.name, Tone::White, false)],
    ));
    assert(styled_views(out@) =~= o0 + purpose_part(p@));
}

fn push_vision_part(out: &mut Vec<StyledLine>, v: &Vision)
    ensures
        styled_views(final(out)@) == styled_views(old(out)@) + vision_part(v@),
{
    let ghost o0 = styled_views(out@);
    let ghost areas = v@.areas;
    push_text(out, "\u{2550}\u{2550}\u{2550} H4 \u{b7} Vision (3-year) \u{2550}\u{2550}\u{2550}", Tone::Yellow, true);
    let ghost o1 = styled_views(out@);
    if v.areas.len() == 0 {
        push_text(out, "  No vision areas defined.", Tone::DarkGrey, false);
    } else {
        let bullet = chars_of("    \u{2022} ");
        let mut k: usize = 0;
        assert(areas.take(0) =~= seq![]);
        assert(o1 + vision_area_lines(areas.take(0)) =~= o1);
        while k < v.areas.len()
            invariant
                k <= v.areas.len(),
                areas == v@.areas,
                bullet@ == "    \u{2022} "@,
                styled_views(out@) == o1 + vision_area_lines(areas.take(k as int)),
            decreases v.areas.len() - k,
        {
            assert(areas.take(k + 1).drop_last() =~= areas.take(k as int));
            assert(areas[k as int] == v.areas@[k as int]@);
            let ghost ok = styled_views(out@);
            let a = &v.areas[k];
            push_line(out, &concat(&concat(&chars_of("  "), &chars_of(a.category.as_str())), &chars_of(":")), Tone::Cyan, true);
            push_bullets(out, &bullet, &a.picture_of_success, Tone::White);
            k = k + 1;
            assert(styled_views(out@) =~= o1 + vision_area_lines(areas.take(k as int)));
        }
        assert(areas.take(v.areas.len() as int) =~= areas);
    }
    let ghost o2 = styled_views(out@);
    push_blank(out, Tone::White);
    assert(styled_views(out@) =~= o0 + vision_part(v@));
}

fn push_goals_part(out: &mut Vec<StyledLine>, goals: &Vec<Goal>)
    ensures
        styled_views(final(out)@) == styled_views(old(out)@) + goals_part(goal_views(goals@)),
{
    let ghost o0 = styled_views(out@);
    let ghost gv = goal_views(goals@);
    push_text(out, "\u{2550}\u{2550}\u{2550} H3 \u{b7} Goals \u{2550}\u{2550}\u{2550}", Tone::Yellow, true);
    let ghost o1 = styled_views(out@);
    let mut any = false;
    let mut k: usize = 0;
    assert(gv.take(0) =~= seq![]);
    assert(o1 + active_goals(gv.take(0)).map_values(|g: GoalView| goal_line(g)) =~= o1);
    while k < goals.len()
        invariant
            k <= goals.len(),
            gv == goal_views(goals@),
            any == (active_goals(gv.take(k as int)).len() > 0),
            styled_views(out@) == o1 + active_goals(gv.take(k as int)).map_values(|g: GoalView| goal_line(g)),
        decreases goals.len() - k,
    {
        assert(gv.take(k + 1).drop_last() =~= gv.take(k as int));
        assert(gv[k as int] == goals@[k as int]@);
        let g = &goals[k];
        if g.status == GoalStatus::Active {
            let target = match &g.target_date {
                Some(d) => chars_of(d.as_str()),
                None => chars_of("no date"),
            };
            let text = concat(
                &concat(&concat(&concat(&chars_of("  \u{2022} "), &chars_of(g.text.as_str())), &chars_of(" (target: ")), &target),
                &chars_of(")"),
            );
            push_line(out, &text, Tone::White, false);
            any = true;
        }
        k = k + 1;
        assert(styled_views(out@) =~= o1 + active_goals(gv.take(k as int)).map_values(|g: GoalView| goal_line(g)));
    }
    assert(gv.take(goals.len() as int) =~= gv);
    if !any {
        push_text(out, "  No active goals.", Tone::DarkGrey, false);
    }
    push_blank(out, Tone::White);
    assert(styled_views(out@) =~= o0 + goals_part(gv));
}

fn push_areas_part(out: &mut Vec<StyledLine>, areas: &Vec<Area>)
    ensures
        styled_views(final(out)@) == styled_views(old(out)@) + areas_part(area_views(areas@)),
{
    let ghost o0 = styled_views(out@);
    let ghost av = area_views(areas@);
    push_text(out, "\u{2550}\u{2550}\u{2550} H2 \u{b7} Areas of Focus \u{2550}\u{2550}\u{2550}", Tone::Yellow, true);
    let ghost o1 = styled_views(out@);
    if areas.len() == 0 {
        push_text(out, "  No areas defined.", Tone::DarkGrey, false);
    } else {
        let mut k: usize = 0;
        assert(o1 + av.take(0).map_values(|a: AreaView| ("  \u{2022} "@ + a.name, Tone::White, false)) =~= o1);
        while k < areas.len()
            invariant
                k <= areas.len(),
                av == area_views(areas@),
                styled_views(out@) == o1 + av.take(k as int).map_values(|a: AreaView| ("  \u{2022} "@ + a.name, Tone::White, false)),
            decreases areas.len() - k,
        {
            assert(av[k as int] == areas@[k as int]@);
            push_line(out, &concat(&chars_of("  \u{2022} "), &chars_of(areas[k].name.as_str())), Tone::White, false);
            k = k + 1;
            assert(styled_views(out@) =~= o1 + av.take(k as int).map_values(|a: AreaView| ("  \u{2022} "@ + a.name, Tone::White, false)));
        }
        assert(av.take(areas.len() as int) =~= av);
    }
    push_blank(out, Tone::White);
    assert(styled_views(out@) =~= o0 + areas_part(av));
}

fn push_projects_part(out: &mut Vec<StyledLine>, projects: &Vec<Project>)
    ensures
        styled_views(final(out)@) == styled_views(old(out)@) + projects_part(project_views(projects@)),
{
    let ghost o0 = styled_views(out@);
    let ghost pv = project_views(projects@);
    push_text(out, "\u{2550}\u{2550}\u{2550} H1 \u{b7} Projects \u{2550}\u{2550}\u{2550}", Tone::Yellow, true);
    let ghost o1 = styled_views(out@);
    if projects.len() == 0 {
        push_text(out, "  No projects.", Tone::DarkGrey, false);
    } else {
        let mut k: usize = 0;
        assert(o1 + pv.take(0).map_values(|p: ProjectView| ("  \u{2022} "@ + p.name, Tone::White, false)) =~= o1);
        while k < projects.len()
            invariant
                k <= projects.len(),
                pv == project_views(projects@),
                styled_views(out@) == o1 + pv.take(k as int).map_values(|p: ProjectView| ("  \u{2022} "@ + p.name, Tone::White, false)),
            decreases projects.len() - k,
        {
            assert(pv[k as int] == projects@[k as int]@);
            push_line(out, &concat(&chars_of("  \u{2022} "), &chars_of(projects[k].name.as_str())), Tone::White, false);
            k = k + 1;
            assert(styled_views(out@) =~= o1 + pv.take(k as int).map_values(|p: ProjectView| ("  \u{2022} "@ + p.name, Tone::White, false)));
        }
        assert(pv.take(projects.len() as int) =~= pv);
    }
    assert(styled_views(out@) =~= o0 + projects_part(pv));
}

/// The lines of the altitudes view.
pub fn build_altitudes_lines(profile: &Profile, vision: &Vision, goals: &Vec<Goal>, areas: &Vec<Area>, projects: &Vec<Project>) -> (r: Vec<StyledLine>)
    ensures
        styled_views(r@) == altitudes_lines(
            profile@,
            vision@,
            goal_views(goals@),
            area_views(areas@),
            project_views(projects@),
        ),
{
    let mut out: Vec<StyledLine> = Vec::new();
    push_purpose_part(&mut out, profile);
    push_vision_part(&mut out, vision);
    push_goals_part(&mut out, goals);
    push_areas_part(&mut out, areas);
    push_projects_part(&mut out, projects);
    assert(styled_views(out@) =~= altitudes_lines(
        profile@,
        vision@,
        goal_views(goals@),
        area_views(areas@),
        project_views(projects@),
    ));
    out
}

// ── The summary screen ──────────────────────────────────────────────────

/// `s` after a count: nothing for one.
pub open spec fn plural(n: nat) -> Seq<char> {
    if n == 1 {
        seq![]
    } else {
        "s"@
    }
}

/// The entries that have items.
pub open spec fn with_items(ps: Seq<ProjectView>) -> Seq<ProjectView>
    decreases ps.len(),
{
    if ps.len() == 0 {
        seq![]
    } else if ps.last().items.len() > 0 {
        with_items(ps.drop_last()).push(ps.last())
    } else {
        with_items(ps.drop_last())
    }
}

/// The events from `today` to a week later.
pub open spec fn this_week(es: Seq<EventView>, today: int) -> nat
    decreases es.len(),
{
    if es.len() == 0 {
        0
    } else {
        this_week(es.drop_last(), today) + if today <= event_num(es.last()) <= today + 7 {
            1nat
        } else {
            0nat
        }
    }
}

/// The longest start of a text that holds at most `n` bytes.
pub open spec fn take_bytes(s: Seq<char>, n: int) -> Seq<char>
    decreases s.len(),
{
    if s.len() == 0 || char_bytes(s[0]) > n {
        seq![]
    } else {
        seq![s[0]] + take_bytes(s.drop_first(), n - char_bytes(s[0]))
    }
}

/// A score note cut to 47 bytes and an ellipsis when it is longer than 50.
pub open spec fn short_note(note: Seq<char>) -> Seq<char> {
    if byte_len(note) > 50 {
        take_bytes(note, 47) + "..."@
    } else {
        note
    }
}

/// A note longer than 50 bytes is cut at a character boundary.
pub open spec fn note_cuts(note: Seq<char>) -> bool {
    byte_len(note) > 50 ==> byte_len(take_bytes(note, 47)) == 47
}

pub open spec fn count_line(label: Seq<char>, n: nat, noun: Seq<char>) -> Shown {
    (label + decimal(n) + noun + plural(n), Tone::Fg, false)
}

pub open spec fn summary_purpose_part(p: ProfileView) -> Seq<Shown> {
    when(
        p.purpose.len() > 0,
        seq![("Purpose"@, Tone::Accent, true), ("  "@ + p.purpose, Tone::Fg, false), (seq![], Tone::Fg, false)],
    )
}

pub open spec fn horizons_part(p: ProfileView, v: VisionView, gs: Seq<GoalView>, areas: Seq<AreaView>, ps: Seq<ProjectView>) -> Seq<Shown> {
    seq![
        (divider("Horizons"@), Tone::AccentSoft, false),
        if p.purpose.len() == 0 {
            ("  H5 Purpose          \u{2717} not set"@, Tone::Dim, false)
        } else {
            ("  H5 Purpose          \u{2713} set"@, Tone::Link, false)
        },
        if v.areas.len() == 0 {
            ("  H4 Vision           \u{2717} not set"@, Tone::Dim, false)
        } else {
            ("  H4 Vision           "@ + decimal(v.areas.len()) + " area"@ + plural(v.areas.len()), Tone::Link, false)
        },
        if gs.len() == 0 {
            ("  H3 Goals            no goals"@, Tone::Dim, false)
        } else {
            ("  H3 Goals            "@ + decimal(active_goals(gs).len()) + " active"@, Tone::Link, false)
        },
        if areas.len() == 0 {
            ("  H2 Areas            no areas"@, Tone::Dim, false)
        } else {
            ("  H2 Areas            "@ + decimal(areas.len()) + " area"@ + plural(areas.len()), Tone::Link, false)
        },
        if ps.len() == 0 {
            ("  H1 Projects         no projects"@, Tone::Dim, false)
        } else {
            ("  H1 Projects         "@ + decimal(with_items(ps).len()) + " active"@, Tone::Link, false)
        },
        (seq![], Tone::Fg, false),
    ]
}

pub open spec fn actions_part(next: nat, waiting: nat, agendas: nat, someday: nat) -> Seq<Shown> {
    seq![
        (divider("Actions & Commitments"@), Tone::AccentSoft, false),
        count_line("  Next Actions        "@, next, " item"@),
        count_line("  Waiting For         "@, waiting, " item"@),
        ("  Agendas             "@ + decimal(agendas) + " people"@, Tone::Fg, false),
        count_line("  Someday/Maybe       "@, someday, " item"@),
        (seq![], Tone::Fg, false),
    ]
}

pub open spec fn calendar_part(es: Seq<EventView>, today: int) -> Seq<Shown> {
    seq![
        (divider("Calendar"@), Tone::AccentSoft, false),
        count_line("  This week           "@, this_week(es, today), " event"@),
        (seq![], Tone::Fg, false),
    ]
}

pub open spec fn performance_part(dates: Seq<Seq<char>>, latest: BoardView) -> Seq<Shown> {
    seq![(divider("Recent Performance"@), Tone::AccentSoft, false)] + if dates.len() > 0 {
        seq![
            match latest.score {
                Some(sc) => (
                    "  Latest Score        "@ + decimal(sc as nat) + "/10 \u{2014} "@ + short_note(
                        match latest.score_note {
                            Some(n) => n,
                            None => seq![],
                        },
                    ),
                    Tone::Accent,
                    false,
                ),
                None => ("  Latest Score        no score"@, Tone::Dim, false),
            },
            (
                "  Reviews Completed   "@ + decimal(dates.len()) + " total ("@ + decimal(
                    1 + weekly_run(board_gaps(dates)),
                ) + " week streak)"@,
                Tone::Fg,
                false,
            ),
        ]
    } else {
        seq![("  Latest Score        no boards yet"@, Tone::Dim, false)]
    }
}

/// The summary screen: purpose, the horizons, actions and commitments, the
/// week's calendar, and the latest board's score and the review streak.
pub open spec fn summary_lines(
    p: ProfileView,
    gs: Seq<GoalView>,
    areas: Seq<AreaView>,
    v: VisionView,
    ps: Seq<ProjectView>,
    waiting: nat,
    agendas: nat,
    someday: nat,
    es: Seq<EventView>,
    dates: Seq<Seq<char>>,
    latest: BoardView,
    today: int,
) -> Seq<Shown> {
    summary_purpose_part(p) + horizons_part(p, v, gs, areas, ps) + actions_part(
        next_actions_of(ps).len(),
        waiting,
        agendas,
        someday,
    ) + calendar_part(es, today) + performance_part(dates, latest)
}

fn count_text(label: &str, n: usize, noun: &str) -> (r: Vec<char>)
    ensures
        r@ == label@ + decimal(n as nat) + noun@ + plural(n as nat),
{
    let mut r = concat(&concat(&chars_of(label), &decimal_usize(n)), &chars_of(noun));
    if n != 1 {
        r.push('s');
        proof {
            reveal_strlit("s");
        }
    }
    r
}

fn take_bytes_exec(v: &Vec<char>, n: usize) -> (r: Vec<char>)
    ensures
        r@ == take_bytes(v@, n as int),
{
    let mut used: usize = 0;
    let mut i: usize = 0;
    assert(v@.skip(0) =~= v@);
    assert(v@.take(0) + take_bytes(v@.skip(0), n as int) =~= take_bytes(v@, n as int));
    while i < v.len()
        invariant
            i <= v.len(),
            used <= n,
            take_bytes(v@, n as int) == v@.take(i as int) + take_bytes(v@.skip(i as int), n - used),
        decreases v.len() - i,
    {
        let ghost t = v@.skip(i as int);
        assert(t[0] == v@[i as int]);
        let w = char_byte_len(v[i]);
        if w > n - used {
            assert(take_bytes(t, n - used) =~= seq![]);
            let r = slice(v, 0, i);
            assert(r@ =~= v@.take(i as int) + seq![]);
            return r;
        }
        assert(t.drop_first() =~= v@.skip(i + 1));
        assert(v@.take(i as int) + (seq![v@[i as int]] + take_bytes(v@.skip(i + 1), n - used - w))
            =~= v@.take(i + 1) + take_bytes(v@.skip(i + 1), n - used - w));
        used = used + w;
        i = i + 1;
    }
    assert(v@.skip(v.len() as int) =~= seq![]);
    assert(v@.take(v.len() as int) =~= v@);
    copy_chars_all(v)
}

fn copy_chars_all(v: &Vec<char>) -> (r: Vec<char>)
    ensures
        r@ == v@ + seq![],
{
    let r = crate::text::copy_chars(v);
    assert(r@ =~= v@ + seq![]);
    r
}

fn push_horizons_part(
    out: &mut Vec<StyledLine>,
    profile: &Profile,
    vision: &Vision,
    goals: &Vec<Goal>,
    areas: &Vec<Area>,
    projects: &Vec<Project>,
)
    ensures
        styled_views(final(out)@) == styled_views(old(out)@) + horizons_part(
            profile@,
            vision@,
            goal_views(goals@),
            area_views(areas@),
            project_views(projects@),
        ),
{
    let ghost o0 = styled_views(out@);
    push_line(out, &chars_of(divider_line("Horizons").as_str()), Tone::AccentSoft, false);
    if profile.purpose.as_str().is_empty() {
        push_text(out, "  H5 Purpose          \u{2717} not set", Tone::Dim, false);
    } else {
        push_text(out, "  H5 Purpose          \u{2713} set", Tone::Link, false);
    }
    if vision.areas.len() == 0 {
        push_text(out, "  H4 Vision           \u{2717} not set", Tone::Dim, false);
    } else {
        push_line(out, &count_text("  H4 Vision           ", vision.areas.len(), " area"), Tone::Link, false);
    }
    if goals.len() == 0 {
        push_text(out, "  H3 Goals            no goals", Tone::Dim, false);
    } else {
        let n = count_active_goals(goals);
        push_line(out, &concat(&concat(&chars_of("  H3 Goals            "), &decimal_usize(n)), &chars_of(" active")), Tone::Link, false);
    }
    if areas.len() == 0 {
        push_text(out, "  H2 Areas            no areas", Tone::Dim, false);
    } else {
        push_line(out, &count_text("  H2 Areas            ", areas.len(), " area"), Tone::Link, false);
    }
    if projects.len() == 0 {
        push_text(out, "  H1 Projects         no projects", Tone::Dim, false);
    } else {
        let n = count_with_items(projects);
        push_line(out, &concat(&concat(&chars_of("  H1 Projects         "), &decimal_usize(n)), &chars_of(" active")), Tone::Link, false);
    }
    push_blank(out, Tone::Fg);
    assert(styled_views(out@) =~= o0 + horizons_part(
        profile@,
        vision@,
        goal_views(goals@),
        area_views(areas@),
        project_views(projects@),
    ));
}

proof fn lemma_active_goals_len(gs: Seq<GoalView>)
    ensures
        active_goals(gs).len() <= gs.len(),
    decreases gs.len(),
{
    if gs.len() > 0 {
        lemma_active_goals_len(gs.drop_last());
    }
}

proof fn lemma_with_items_len(ps: Seq<ProjectView>)
    ensures
        with_items(ps).len() <= ps.len(),
    decreases ps.len(),
{
    if ps.len() > 0 {
        lemma_with_items_len(ps.drop_last());
    }
}

fn count_active_goals(goals: &Vec<Goal>) -> (r: usize)
    ensures
        r == active_goals(goal_views(goals@)).len(),
{
    let ghost gv = goal_views(goals@);
    let mut n: usize = 0;
    let mut k: usize = 0;
    assert(gv.take(0) =~= seq![]);
    while k < goals.len()
        invariant
            k <= goals.len(),
            gv == goal_views(goals@),
            n == active_goals(gv.take(k as int)).len(),
        decreases goals.len() - k,
    {
        assert(gv.take(k + 1).drop_last() =~= gv.take(k as int));
        assert(gv[k as int] == goals@[k as int]@);
        proof {
            lemma_active_goals_len(gv.take(k as int));
        }
        if goals[k].status == GoalStatus::Active {
            n = n + 1;
        }
        k = k + 1;
    }
    assert(gv.take(goals.len() as int) =~= gv);
    n
}

fn count_with_items(ps: &Vec<Project>) -> (r: usize)
    ensures
        r == with_items(project_views(ps@)).len(),
{
    let ghost pv = project_views(ps@);
    let mut n: usize = 0;
    let mut k: usize = 0;
    assert(pv.take(0) =~= seq![]);
    while k < ps.len()
        invariant
            k <= ps.len(),
            pv == project_views(ps@),
            n == with_items(pv.take(k as int)).len(),
        decreases ps.len() - k,
    {
        assert(pv.take(k + 1).drop_last() =~= pv.take(k as int));
        assert(pv[k as int] == ps@[k as int]@);
        proof {
            lemma_with_items_len(pv.take(k as int));
        }
        if ps[k].items.len() > 0 {
            n = n + 1;
        }
        k = k + 1;
    }
    assert(pv.take(ps.len() as int) =~= pv);
    n
}

proof fn lemma_this_week_len(es: Seq<EventView>, today: int)
    ensures
        this_week(es, today) <= es.len(),
    decreases es.len(),
{
    if es.len() > 0 {
        lemma_this_week_len(es.drop_last(), today);
    }
}

fn count_this_week(events: &Vec<CalendarEvent>, today_num: i32) -> (r: usize)
    requires
        events_fit(event_views(events@)),
        today_num <= i32::MAX - 7,
    ensures
        r == this_week(event_views(events@), today_num as int),
{
    let ghost ev = event_views(events@);
    let mut n: usize = 0;
    let mut k: usize = 0;
    assert(ev.take(0) =~= seq![]);
    while k < events.len()
        invariant
            k <= events.len(),
            ev == event_views(events@),
            events_fit(ev),
            today_num <= i32::MAX - 7,
            n == this_week(ev.take(k as int), today_num as int),
        decreases events.len() - k,
    {
        assert(ev.take(k + 1).drop_last() =~= ev.take(k as int));
        assert(ev[k as int] == events@[k as int]@);
        proof {
            lemma_this_week_len(ev.take(k as int), today_num as int);
        }
        let num = event_number(&events[k]);
        if num >= today_num && num <= today_num + 7 {
            n = n + 1;
        }
        k = k + 1;
    }
    assert(ev.take(events.len() as int) =~= ev);
    n
}

fn push_performance_part(out: &mut Vec<StyledLine>, dates: &Vec<String>, latest: &WeeklyBoard)
    requires
        dates.len() > 0 && latest.score is Some ==> note_cuts(
            match latest@.score_note {
                Some(n) => n,
                None => seq![],
            },
        ),
    ensures
        styled_views(final(out)@) == styled_views(old(out)@) + performance_part(strs(dates@), latest@),
{
    let ghost o0 = styled_views(out@);
    push_line(out, &chars_of(divider_line("Recent Performance").as_str()), Tone::AccentSoft, false);
    if dates.len() > 0 {
        match latest.score {
            Some(sc) => {
                let note = match &latest.score_note {
                    Some(n) => chars_of(n.as_str()),
                    None => Vec::new(),
                };
                let short = if crate::text::byte_len_sat(&note) > 50 {
                    concat(&take_bytes_exec(&note, 47), &chars_of("..."))
                } else {
                    note
                };
                let text = concat(
                    &concat(&concat(&chars_of("  Latest Score        "), &decimal_u8(sc)), &chars_of("/10 \u{2014} ")),
                    &short,
                );
                push_line(out, &text, Tone::Accent, false);
            },
            None => push_text(out, "  Latest Score        no score", Tone::Dim, false),
        }
        let (total, streak) = compute_review_streak(dates);
        let text = concat(
            &concat(
                &concat(&concat(&chars_of("  Reviews Completed   "), &decimal_usize(total)), &chars_of(" total (")),
                &decimal_usize(streak),
            ),
            &chars_of(" week streak)"),
        );
        push_line(out, &text, Tone::Fg, false);
    } else {
        push_text(out, "  Latest Score        no boards yet", Tone::Dim, false);
    }
    assert(styled_views(out@) =~= o0 + performance_part(strs(dates@), latest@));
}

/// The lines of the summary screen. The next actions are those of the
/// projects; the review streak is read from the board dates.
pub fn build_summary_lines(
    profile: &Profile,
    goals: &Vec<Goal>,
    areas: &Vec<Area>,
    vision: &Vision,
    projects: &Vec<Project>,
    waiting: &Vec<Project>,
    agendas: &Vec<Project>,
    someday: &Vec<Project>,
    events: &Vec<CalendarEvent>,
    dates: &Vec<String>,
    latest: &WeeklyBoard,
    today_num: i32,
) -> (r: Vec<StyledLine>)
    requires
        events_fit(event_views(events@)),
        today_num <= i32::MAX - 7,
        dates.len() > 0 && latest.score is Some ==> note_cuts(
            match latest@.score_note {
                Some(n) => n,
                None => seq![],
            },
        ),
    ensures
        styled_views(r@) == summary_lines(
            profile@,
            goal_views(goals@),
            area_views(areas@),
            vision@,
            project_views(projects@),
            waiting.len() as nat,
            agendas.len() as nat,
            someday.len() as nat,
            event_views(events@),
            strs(dates@),
            latest@,
            today_num as int,
        ),
{
    let mut out: Vec<StyledLine> = Vec::new();
    if !profile.purpose.as_str().is_empty() {
        push_text(&mut out, "Purpose", Tone::Accent, true);
        push_line(&mut out, &concat(&chars_of("  "), &chars_of(profile.purpose.as_str())), Tone::Fg, false);
        push_blank(&mut out, Tone::Fg);
    }
    let ghost o1 = styled_views(out@);
    assert(o1 =~= summary_purpose_part(profile@));
    push_horizons_part(&mut out, profile, vision, goals, areas, projects);
    let ghost o2 = styled_views(out@);
    let next_actions = load_next_actions(projects);
    push_line(&mut out, &chars_of(divider_line("Actions & Commitments").as_str()), Tone::AccentSoft, false);
    push_line(&mut out, &count_text("  Next Actions        ", next_actions.len(), " item"), Tone::Fg, false);
    push_line(&mut out, &count_text("  Waiting For         ", waiting.len(), " item"), Tone::Fg, false);
    push_line(&mut out, &concat(&concat(&chars_of("  Agendas             "), &decimal_usize(agendas.len())), &chars_of(" people")), Tone::Fg, false);
    push_line(&mut out, &count_text("  Someday/Maybe       ", someday.len(), " item"), Tone::Fg, false);
    push_blank(&mut out, Tone::Fg);
    let ghost o3 = styled_views(out@);
    assert(o3 =~= o2 + actions_part(next_actions_of(project_views(projects@)).len(), waiting.len() as nat, agendas.len() as nat, someday.len() as nat));
    push_line(&mut out, &chars_of(divider_line("Calendar").as_str()), Tone::AccentSoft, false);
    let n = count_this_week(events, today_num);
    push_line(&mut out, &count_text("  This week           ", n, " event"), Tone::Fg, false);
    push_blank(&mut out, Tone::Fg);
    let ghost o4 = styled_views(out@);
    assert(o4 =~= o3 + calendar_part(event_views(events@), today_num as int));
    push_performance_part(&mut out, dates, latest);
    assert(styled_views(out@) =~= summary_lines(
        profile@,
        goal_views(goals@),
        area_views(areas@),
        vision@,
        project_views(projects@),
        waiting.len() as nat,
        agendas.len() as nat,
        someday.len() as nat,
        event_views(events@),
        strs(dates@),
        latest@,
        today_num as int,
    ));
    out
}

// ── The plain-text summary ──────────────────────────────────────────────

/// A line of text and its newline.
pub open spec fn ln(x: Seq<char>) -> Seq<char> {
    x.push('\n')
}

/// Items, each on a line after a prefix.
pub open spec fn items_md(prefix: Seq<char>, xs: Seq<Seq<char>>) -> Seq<char>
    decreases xs.len(),
{
    if xs.len() == 0 {
        seq![]
    } else {
        items_md(prefix, xs.drop_last()) + ln(prefix + xs.last())
    }
}

/// A count in brackets.
pub open spec fn counted(title: Seq<char>, n: nat) -> Seq<char> {
    title + " ("@ + decimal(n) + ")"@
}

pub open spec fn purpose_md(p: ProfileView) -> Seq<char> {
    if p.purpose.len() > 0 {
        ln("## Purpose"@) + ln(seq![]) + ln("> "@ + p.purpose) + ln(seq![])
    } else {
        seq![]
    }
}

pub open spec fn vision_areas_md(areas: Seq<VisionAreaView>) -> Seq<char>
    decreases areas.len(),
{
    if areas.len() == 0 {
        seq![]
    } else {
        let a = areas.last();
        vision_areas_md(areas.drop_last()) + ln("- **"@ + a.category + ":** "@ + a.vision_text)
            + items_md("  - "@, a.picture_of_success)
    }
}

pub open spec fn vision_md(v: VisionView) -> Seq<char> {
    if v.areas.len() > 0 {
        ln("## Vision ("@ + v.time_horizon + ")"@) + ln(seq![]) + vision_areas_md(v.areas) + ln(seq![])
    } else {
        seq![]
    }
}

pub open spec fn focus_areas_md(areas: Seq<AreaView>) -> Seq<char>
    decreases areas.len(),
{
    if areas.len() == 0 {
        seq![]
    } else {
        let a = areas.last();
        focus_areas_md(areas.drop_last()) + ln(
            if a.description.len() == 0 {
                "- **"@ + a.name + "**"@
            } else {
                "- **"@ + a.name + "** \u{2014} "@ + a.description
            },
        ) + items_md("  - "@, a.standards)
    }
}

pub open spec fn areas_md(areas: Seq<AreaView>) -> Seq<char> {
    if areas.len() > 0 {
        ln(counted("## Areas of Focus"@, areas.len())) + ln(seq![]) + focus_areas_md(areas) + ln(seq![])
    } else {
        seq![]
    }
}

pub open spec fn goal_md(g: GoalView) -> Seq<char> {
    if g.category.len() == 0 {
        ln("- [>] "@ + g.text)
    } else {
        ln("- [>] "@ + g.text + " ("@ + g.category + ")"@)
    }
}

pub open spec fn goal_list_md(gs: Seq<GoalView>) -> Seq<char>
    decreases gs.len(),
{
    if gs.len() == 0 {
        seq![]
    } else {
        goal_list_md(gs.drop_last()) + goal_md(gs.last())
    }
}

pub open spec fn goals_md(gs: Seq<GoalView>) -> Seq<char> {
    ln(counted("## Goals"@, active_goals(gs).len())) + ln(seq![]) + if active_goals(gs).len() == 0 {
        ln("No active goals"@)
    } else {
        goal_list_md(active_goals(gs))
    } + ln(seq![])
}

pub open spec fn project_list_md(ps: Seq<ProjectView>) -> Seq<char>
    decreases ps.len(),
{
    if ps.len() == 0 {
        seq![]
    } else {
        let p = ps.last();
        project_list_md(ps.drop_last()) + ln(
            match p.goal {
                Some(g) => "- "@ + p.name + " \u{2192} "@ + g,
                None => "- "@ + p.name + " \u{2192} ???"@,
            },
        ) + items_md("  - "@, p.items)
    }
}

pub open spec fn projects_md(ps: Seq<ProjectView>) -> Seq<char> {
    if with_items(ps).len() > 0 {
        ln(counted("## Projects"@, with_items(ps).len())) + ln(seq![]) + project_list_md(with_items(ps))
            + ln(seq![])
    } else {
        seq![]
    }
}

pub open spec fn entry_list_md(ps: Seq<ProjectView>) -> Seq<char>
    decreases ps.len(),
{
    if ps.len() == 0 {
        seq![]
    } else {
        entry_list_md(ps.drop_last()) + ln("- "@ + ps.last().name) + items_md("  - "@, ps.last().items)
    }
}

pub open spec fn entries_md(title: Seq<char>, ps: Seq<ProjectView>) -> Seq<char> {
    if ps.len() > 0 {
        ln(counted(title, ps.len())) + ln(seq![]) + entry_list_md(ps) + ln(seq![])
    } else {
        seq![]
    }
}

/// A whole number zero-padded to `width` digits (`{:0width}`).
pub open spec fn zero_padded(n: nat, width: nat) -> Seq<char> {
    Seq::new((if width > decimal(n).len() { width - decimal(n).len() } else { 0 }) as nat, |i: int| '0') + decimal(n)
}

/// A year as `{:04}` writes it: four digits at least, the sign counted.
pub open spec fn year_text(y: i32) -> Seq<char> {
    if y < 0 {
        "-"@ + zero_padded((-y) as nat, 3)
    } else {
        zero_padded(y as nat, 4)
    }
}

pub open spec fn date_text(e: EventView) -> Seq<char> {
    year_text(e.year) + "-"@ + zero_padded(e.month as nat, 2) + "-"@ + zero_padded(e.day as nat, 2)
}

/// The first `n` events from `today` on.
pub open spec fn upcoming(es: Seq<EventView>, today: int, n: nat) -> Seq<EventView>
    decreases es.len(),
{
    if es.len() == 0 || n == 0 {
        seq![]
    } else if event_num(es[0]) >= today {
        seq![es[0]] + upcoming(es.drop_first(), today, (n - 1) as nat)
    } else {
        upcoming(es.drop_first(), today, n)
    }
}

pub open spec fn event_md(e: EventView, today: int) -> Seq<char> {
    if event_num(e) == today {
        ln("- **"@ + date_text(e) + "** "@ + e.description)
    } else {
        ln("- "@ + date_text(e) + " "@ + e.description)
    }
}

pub open spec fn event_list_md(es: Seq<EventView>, today: int) -> Seq<char>
    decreases es.len(),
{
    if es.len() == 0 {
        seq![]
    } else {
        event_list_md(es.drop_last(), today) + event_md(es.last(), today)
    }
}

pub open spec fn upcoming_md(es: Seq<EventView>, today: int) -> Seq<char> {
    if upcoming(es, today, 5).len() > 0 {
        ln("## Upcoming"@) + ln(seq![]) + event_list_md(upcoming(es, today, 5), today) + ln(seq![])
    } else {
        seq![]
    }
}

pub open spec fn next_list_md(na: Seq<crate::projects::NextActionView>) -> Seq<char>
    decreases na.len(),
{
    if na.len() == 0 {
        seq![]
    } else {
        next_list_md(na.drop_last()) + ln("- [>] "@ + na.last().project_name + " \u{2192} "@ + na.last().action)
    }
}

pub open spec fn next_md(na: Seq<crate::projects::NextActionView>) -> Seq<char> {
    if na.len() > 0 {
        ln(counted("## Next Actions"@, na.len())) + ln(seq![]) + next_list_md(na) + ln(seq![])
    } else {
        seq![]
    }
}

pub open spec fn accountability_md(acc: Option<(Seq<char>, Seq<char>, Seq<char>)>) -> Seq<char> {
    match acc {
        Some((date, pattern, challenge)) => ln("## Accountability (from "@ + date + ")"@) + ln(seq![])
            + ln("**Pattern to Watch:**"@) + ln("- "@ + pattern) + ln(seq![]) + ln(
            "**One Challenge:**"@,
        ) + ln("- "@ + challenge) + ln(seq![]),
        None => seq![],
    }
}

pub open spec fn inbox_md(items: Seq<Seq<char>>) -> Seq<char> {
    if items.len() > 0 {
        ln(counted("## Inbox"@, items.len())) + ln(seq![]) + items_md("- [ ] "@, items) + ln(seq![])
    } else {
        seq![]
    }
}

/// The plain-text summary of the system: purpose, vision, areas of focus,
/// active goals, projects with items, waiting for, agendas, the next five
/// events from today, next actions, the partner's latest notes, and the
/// inbox's open items; each section only when it has something (but goals).
pub open spec fn summary_md(
    p: ProfileView,
    v: VisionView,
    gs: Seq<GoalView>,
    areas: Seq<AreaView>,
    ps: Seq<ProjectView>,
    inbox: Seq<Seq<char>>,
    es: Seq<EventView>,
    agendas: Seq<ProjectView>,
    waiting: Seq<ProjectView>,
    acc: Option<(Seq<char>, Seq<char>, Seq<char>)>,
    today: int,
) -> Seq<char> {
    purpose_md(p) + vision_md(v) + areas_md(areas) + goals_md(gs) + projects_md(ps) + entries_md(
        "## Waiting For"@,
        waiting,
    ) + entries_md("## Agendas"@, agendas) + upcoming_md(es, today) + next_md(next_actions_of(ps))
        + accountability_md(acc) + inbox_md(inbox)
}

fn push_ln(out: &mut Vec<char>, x: &Vec<char>)
    ensures
        final(out)@ == old(out)@ + ln(x@),
{
    let ghost o0 = out@;
    push_all(out, x);
    out.push('\n');
    assert(out@ =~= o0 + ln(x@));
}

fn push_ln_str(out: &mut Vec<char>, x: &str)
    ensures
        final(out)@ == old(out)@ + ln(x@),
{
    push_ln(out, &chars_of(x));
}

fn push_blank_ln(out: &mut Vec<char>)
    ensures
        final(out)@ == old(out)@ + ln(seq![]),
{
    push_ln(out, &Vec::new());
}

fn push_items_md(out: &mut Vec<char>, prefix: &Vec<char>, xs: &Vec<String>)
    ensures
        final(out)@ == old(out)@ + items_md(prefix@, strs(xs@)),
{
    let ghost o0 = out@;
    let ghost xv = strs(xs@);
    let mut k: usize = 0;
    assert(xv.take(0) =~= seq![]);
    assert(o0 + items_md(prefix@, xv.take(0)) =~= o0);
    while k < xs.len()
        invariant
            k <= xs.len(),
            xv == strs(xs@),
            out@ == o0 + items_md(prefix@, xv.take(k as int)),
        decreases xs.len() - k,
    {
        assert(xv.take(k + 1).drop_last() =~= xv.take(k as int));
        push_ln(out, &concat(prefix, &chars_of(xs[k].as_str())));
        k = k + 1;
        assert(out@ =~= o0 + items_md(prefix@, xv.take(k as int)));
    }
    assert(xv.take(xs.len() as int) =~= xv);
}

fn counted_text(title: &str, n: usize) -> (r: Vec<char>)
    ensures
        r@ == counted(title@, n as nat),
{
    concat(&concat(&concat(&chars_of(title), &chars_of(" (")), &decimal_usize(n)), &chars_of(")"))
}

fn push_purpose_md(out: &mut Vec<char>, p: &Profile)
    ensures
        final(out)@ == old(out)@ + purpose_md(p@),
{
    let ghost o0 = out@;
    if !p.purpose.as_str().is_empty() {
        push_ln_str(out, "## Purpose");
        push_blank_ln(out);
        push_ln(out, &concat(&chars_of("> "), &chars_of(p.purpose.as_str())));
        push_blank_ln(out);
    }
    assert(out@ =~= o0 + purpose_md(p@));
}

fn push_vision_md(out: &mut Vec<char>, v: &Vision)
    ensures
        final(out)@ == old(out)@ + vision_md(v@),
{
    let ghost o0 = out@;
    let ghost av = v@.areas;
    if v.areas.len() > 0 {
        push_ln(out, &concat(&concat(&chars_of("## Vision ("), &chars_of(v.time_horizon.as_str())), &chars_of(")")));
        push_blank_ln(out);
        let ghost o1 = out@;
        let sub = chars_of("  - ");
        let mut k: usize = 0;
        assert(av.take(0) =~= seq![]);
        assert(o1 + vision_areas_md(av.take(0)) =~= o1);
        while k < v.areas.len()
            invariant
                k <= v.areas.len(),
                av == v@.areas,
                sub@ == "  - "@,
                out@ == o1 + vision_areas_md(av.take(k as int)),
            decreases v.areas.len() - k,
        {
            assert(av.take(k + 1).drop_last() =~= av.take(k as int));
            assert(av[k as int] == v.areas@[k as int]@);
            let a = &v.areas[k];
            let head = concat(
                &concat(&concat(&chars_of("- **"), &chars_of(a.category.as_str())), &chars_of(":** ")),
                &chars_of(a.vision_text.as_str()),
            );
            push_ln(out, &head);
            push_items_md(out, &sub, &a.picture_of_success);
            k = k + 1;
            assert(out@ =~= o1 + vision_areas_md(av.take(k as int)));
        }
        assert(av.take(v.areas.len() as int) =~= av);
        push_blank_ln(out);
    }
    assert(out@ =~= o0 + vision_md(v@));
}

fn push_areas_md(out: &mut Vec<char>, areas: &Vec<Area>)
    ensures
        final(out)@ == old(out)@ + areas_md(area_views(areas@)),
{
    let ghost o0 = out@;
    let ghost av = area_views(areas@);
    if areas.len() > 0 {
        push_ln(out, &counted_text("## Areas of Focus", areas.len()));
        push_blank_ln(out);
        let ghost o1 = out@;
        let sub = chars_of("  - ");
        let mut k: usize = 0;
        assert(av.take(0) =~= seq![]);
        assert(o1 + focus_areas_md(av.take(0)) =~= o1);
        while k < areas.len()
            invariant
                k <= areas.len(),
                av == area_views(areas@),
                sub@ == "  - "@,
                out@ == o1 + focus_areas_md(av.take(k as int)),
            decreases areas.len() - k,
        {
            assert(av.take(k + 1).drop_last() =~= av.take(k as int));
            assert(av[k as int] == areas@[k as int]@);
            let a = &areas[k];
            let head = if a.description.as_str().is_empty() {
                concat(&concat(&chars_of("- **"), &chars_of(a.name.as_str())), &chars_of("**"))
            } else {
                concat(
                    &concat(&concat(&chars_of("- **"), &chars_of(a.name.as_str())), &chars_of("** \u{2014} ")),
                    &chars_of(a.description.as_str()),
                )
            };
            push_ln(out, &head);
            push_items_md(out, &sub, &a.standards);
            k = k + 1;
            assert(out@ =~= o1 + focus_areas_md(av.take(k as int)));
        }
        assert(av.take(areas.len() as int) =~= av);
        push_blank_ln(out);
    }
    assert(out@ =~= o0 + areas_md(av));
}

fn push_goals_md(out: &mut Vec<char>, goals: &Vec<Goal>)
    ensures
        final(out)@ == old(out)@ + goals_md(goal_views(goals@)),
{
    let ghost o0 = out@;
    let ghost gv = goal_views(goals@);
    let n = count_active_goals(goals);
    push_ln(out, &counted_text("## Goals", n));
    push_blank_ln(out);
    let ghost o1 = out@;
    if n == 0 {
        push_ln_str(out, "No active goals");
    } else {
        let mut k: usize = 0;
        assert(gv.take(0) =~= seq![]);
        assert(o1 + goal_list_md(active_goals(gv.take(0))) =~= o1);
        while k < goals.len()
            invariant
                k <= goals.len(),
                gv == goal_views(goals@),
                out@ == o1 + goal_list_md(active_goals(gv.take(k as int))),
            decreases goals.len() - k,
        {
            assert(gv.take(k + 1).drop_last() =~= gv.take(k as int));
            assert(gv[k as int] == goals@[k as int]@);
            let g = &goals[k];
            if g.status == GoalStatus::Active {
                let ghost a0 = active_goals(gv.take(k as int));
                assert(active_goals(gv.take(k + 1)) == a0.push(gv[k as int]));
                assert(a0.push(gv[k as int]).drop_last() =~= a0);
                let line = if g.category.as_str().is_empty() {
                    concat(&chars_of("- [>] "), &chars_of(g.text.as_str()))
                } else {
                    concat(
                        &concat(
                            &concat(&concat(&chars_of("- [>] "), &chars_of(g.text.as_str())), &chars_of(" (")),
                            &chars_of(g.category.as_str()),
                        ),
                        &chars_of(")"),
                    )
                };
                push_ln(out, &line);
            }
            k = k + 1;
            assert(out@ =~= o1 + goal_list_md(active_goals(gv.take(k as int))));
        }
        assert(gv.take(goals.len() as int) =~= gv);
    }
    push_blank_ln(out);
    assert(out@ =~= o0 + goals_md(gv));
}

fn push_projects_md(out: &mut Vec<char>, projects: &Vec<Project>)
    ensures
        final(out)@ == old(out)@ + projects_md(project_views(projects@)),
{
    let ghost o0 = out@;
    let ghost pv = project_views(projects@);
    let n = count_with_items(projects);
    if n > 0 {
        push_ln(out, &counted_text("## Projects", n));
        push_blank_ln(out);
        let ghost o1 = out@;
        let sub = chars_of("  - ");
        let mut k: usize = 0;
        assert(pv.take(0) =~= seq![]);
        assert(o1 + project_list_md(with_items(pv.take(0))) =~= o1);
        while k < projects.len()
            invariant
                k <= projects.len(),
                pv == project_views(projects@),
                sub@ == "  - "@,
                out@ == o1 + project_list_md(with_items(pv.take(k as int))),
            decreases projects.len() - k,
        {
            assert(pv.take(k + 1).drop_last() =~= pv.take(k as int));
            assert(pv[k as int] == projects@[k as int]@);
            let p = &projects[k];
            if p.items.len() > 0 {
                let ghost w0 = with_items(pv.take(k as int));
                assert(w0.push(pv[k as int]).drop_last() =~= w0);
                let head = match &p.goal {
                    Some(g) => concat(
                        &concat(&concat(&chars_of("- "), &chars_of(p.name.as_str())), &chars_of(" \u{2192} ")),
                        &chars_of(g.as_str()),
                    ),
                    None => concat(&concat(&chars_of("- "), &chars_of(p.name.as_str())), &chars_of(" \u{2192} ???")),
                };
                push_ln(out, &head);
                push_items_md(out, &sub, &p.items);
            }
            k = k + 1;
            assert(out@ =~= o1 + project_list_md(with_items(pv.take(k as int))));
        }
        assert(pv.take(projects.len() as int) =~= pv);
        push_blank_ln(out);
    }
    assert(out@ =~= o0 + projects_md(pv));
}

fn push_entries_md(out: &mut Vec<char>, title: &str, ps: &Vec<Project>)
    ensures
        final(out)@ == old(out)@ + entries_md(title@, project_views(ps@)),
{
    let ghost o0 = out@;
    let ghost pv = project_views(ps@);
    if ps.len() > 0 {
        push_ln(out, &counted_text(title, ps.len()));
        push_blank_ln(out);
        let ghost o1 = out@;
        let sub = chars_of("  - ");
        let mut k: usize = 0;
        assert(pv.take(0) =~= seq![]);
        assert(o1 + entry_list_md(pv.take(0)) =~= o1);
        while k < ps.len()
            invariant
                k <= ps.len(),
                pv == project_views(ps@),
                sub@ == "  - "@,
                out@ == o1 + entry_list_md(pv.take(k as int)),
            decreases ps.len() - k,
        {
            assert(pv.take(k + 1).drop_last() =~= pv.take(k as int));
            assert(pv[k as int] == ps@[k as int]@);
            push_ln(out, &concat(&chars_of("- "), &chars_of(ps[k].name.as_str())));
            push_items_md(out, &sub, &ps[k].items);
            k = k + 1;
            assert(out@ =~= o1 + entry_list_md(pv.take(k as int)));
        }
        assert(pv.take(ps.len() as int) =~= pv);
        push_blank_ln(out);
    }
    assert(out@ =~= o0 + entries_md(title@, pv));
}

fn zero_padded_exec(n: usize, width: usize) -> (r: Vec<char>)
    ensures
        r@ == zero_padded(n as nat, width as nat),
{
    let d = decimal_usize(n);
    let pad = if width > d.len() {
        width - d.len()
    } else {
        0
    };
    let mut r: Vec<char> = Vec::new();
    let mut i: usize = 0;
    while i < pad
        invariant
            i <= pad,
            r@ == Seq::new(i as nat, |j: int| '0'),
        decreases pad - i,
    {
        r.push('0');
        i = i + 1;
        assert(r@ =~= Seq::new(i as nat, |j: int| '0'));
    }
    push_all(&mut r, &d);
    r
}

fn date_text_exec(e: &CalendarEvent) -> (r: Vec<char>)
    ensures
        r@ == date_text(e@),
{
    let year = if e.year < 0 {
        let m = (-(e.year as i64)) as usize;
        concat(&chars_of("-"), &zero_padded_exec(m, 3))
    } else {
        zero_padded_exec(e.year as usize, 4)
    };
    let md = concat(
        &concat(&concat(&chars_of("-"), &zero_padded_exec(e.month as usize, 2)), &chars_of("-")),
        &zero_padded_exec(e.day as usize, 2),
    );
    let r = concat(&year, &md);
    assert(r@ =~= date_text(e@));
    r
}

fn copy_event(e: &CalendarEvent) -> (r: CalendarEvent)
    ensures
        r@ == e@,
{
    CalendarEvent { year: e.year, month: e.month, day: e.day, description: copy_string(&e.description) }
}

fn upcoming_events(events: &Vec<CalendarEvent>, today_num: i32) -> (r: Vec<CalendarEvent>)
    requires
        events_fit(event_views(events@)),
    ensures
        event_views(r@) == upcoming(event_views(events@), today_num as int, 5),
{
    let ghost ev = event_views(events@);
    let mut r: Vec<CalendarEvent> = Vec::new();
    let mut k: usize = 0;
    assert(ev.skip(0) =~= ev);
    assert(event_views(r@) + upcoming(ev.skip(0), today_num as int, 5) =~= upcoming(ev, today_num as int, 5));
    while k < events.len() && r.len() < 5
        invariant
            k <= events.len(),
            r.len() <= 5,
            ev == event_views(events@),
            events_fit(ev),
            upcoming(ev, today_num as int, 5) == event_views(r@) + upcoming(
                ev.skip(k as int),
                today_num as int,
                (5 - r.len()) as nat,
            ),
        decreases events.len() - k,
    {
        let ghost t = ev.skip(k as int);
        assert(t[0] == ev[k as int]);
        assert(ev[k as int] == events@[k as int]@);
        assert(t.drop_first() =~= ev.skip(k + 1));
        let ghost r0 = event_views(r@);
        if event_number(&events[k]) >= today_num {
            r.push(copy_event(&events[k]));
            assert(event_views(r@) =~= r0.push(ev[k as int]));
            assert(r0 + (seq![ev[k as int]] + upcoming(ev.skip(k + 1), today_num as int, (5 - r.len()) as nat))
                =~= event_views(r@) + upcoming(ev.skip(k + 1), today_num as int, (5 - r.len()) as nat));
        }
        k = k + 1;
    }
    if r.len() == 5 {
        assert(upcoming(ev.skip(k as int), today_num as int, 0) =~= seq![]);
    } else {
        assert(ev.skip(k as int) =~= seq![]);
    }
    assert(event_views(r@) + seq![] =~= event_views(r@));
    r
}

fn push_upcoming_md(out: &mut Vec<char>, events: &Vec<CalendarEvent>, today_num: i32)
    requires
        events_fit(event_views(events@)),
    ensures
        final(out)@ == old(out)@ + upcoming_md(event_views(events@), today_num as int),
{
    let ghost o0 = out@;
    let up = upcoming_events(events, today_num);
    let ghost uv = event_views(up@);
    if up.len() > 0 {
        push_ln_str(out, "## Upcoming");
        push_blank_ln(out);
        let ghost o1 = out@;
        let mut k: usize = 0;
        assert(uv.take(0) =~= seq![]);
        assert(o1 + event_list_md(uv.take(0), today_num as int) =~= o1);
        while k < up.len()
            invariant
                k <= up.len(),
                uv == event_views(up@),
                uv == upcoming(event_views(events@), today_num as int, 5),
                events_fit(event_views(events@)),
                out@ == o1 + event_list_md(uv.take(k as int), today_num as int),
            decreases up.len() - k,
        {
            assert(uv.take(k + 1).drop_last() =~= uv.take(k as int));
            assert(uv[k as int] == up@[k as int]@);
            proof {
                lemma_upcoming_fit(event_views(events@), today_num as int, 5, k as int);
            }
            let e = &up[k];
            let date = date_text_exec(e);
            let line = if event_number(e) == today_num {
                concat(&concat(&concat(&chars_of("- **"), &date), &chars_of("** ")), &chars_of(e.description.as_str()))
            } else {
                concat(&concat(&concat(&chars_of("- "), &date), &chars_of(" ")), &chars_of(e.description.as_str()))
            };
            push_ln(out, &line);
            k = k + 1;
            assert(out@ =~= o1 + event_list_md(uv.take(k as int), today_num as int));
        }
        assert(uv.take(up.len() as int) =~= uv);
        push_blank_ln(out);
    }
    assert(out@ =~= o0 + upcoming_md(event_views(events@), today_num as int));
}

proof fn lemma_upcoming_fit(es: Seq<EventView>, today: int, n: nat, k: int)
    requires
        crate::calendar::events_fit(es),
        0 <= k < upcoming(es, today, n).len(),
    ensures
        crate::calendar::event_fits(upcoming(es, today, n)[k]),
    decreases es.len(),
{
    if es.len() == 0 || n == 0 {
    } else {
        let rest = es.drop_first();
        assert forall|i: int| 0 <= i < rest.len() implies crate::calendar::event_fits(#[trigger] rest[i]) by {
            assert(rest[i] == es[i + 1]);
        }
        if event_num(es[0]) >= today {
            if k > 0 {
                lemma_upcoming_fit(rest, today, (n - 1) as nat, k - 1);
            }
        } else {
            lemma_upcoming_fit(rest, today, n, k);
        }
    }
}

fn push_next_md(out: &mut Vec<char>, na: &Vec<crate::projects::NextAction>)
    ensures
        final(out)@ == old(out)@ + next_md(na@.map_values(|a: crate::projects::NextAction| a@)),
{
    let ghost o0 = out@;
    let ghost nv = na@.map_values(|a: crate::projects::NextAction| a@);
    if na.len() > 0 {
        push_ln(out, &counted_text("## Next Actions", na.len()));
        push_blank_ln(out);
        let ghost o1 = out@;
        let mut k: usize = 0;
        assert(nv.take(0) =~= seq![]);
        assert(o1 + next_list_md(nv.take(0)) =~= o1);
        while k < na.len()
            invariant
                k <= na.len(),
                nv == na@.map_values(|a: crate::projects::NextAction| a@),
                out@ == o1 + next_list_md(nv.take(k as int)),
            decreases na.len() - k,
        {
            assert(nv.take(k + 1).drop_last() =~= nv.take(k as int));
            let a = &na[k];
            let line = concat(
                &concat(
                    &concat(&chars_of("- [>] "), &chars_of(a.project_name.as_str())),
                    &chars_of(" \u{2192} "),
                ),
                &chars_of(a.action.as_str()),
            );
            push_ln(out, &line);
            k = k + 1;
            assert(out@ =~= o1 + next_list_md(nv.take(k as int)));
        }
        assert(nv.take(na.len() as int) =~= nv);
        push_blank_ln(out);
    }
    assert(out@ =~= o0 + next_md(nv));
}

pub open spec fn note_views(acc: Option<AccountabilityNote>) -> Option<(Seq<char>, Seq<char>, Seq<char>)> {
    match acc {
        Some(a) => Some((a.date@, a.pattern@, a.challenge@)),
        None => None,
    }
}

fn push_accountability_md(out: &mut Vec<char>, acc: &Option<AccountabilityNote>)
    ensures
        final(out)@ == old(out)@ + accountability_md(note_views(*acc)),
{
    let ghost o0 = out@;
    match acc {
        Some(a) => {
            push_ln(out, &concat(&concat(&chars_of("## Accountability (from "), &chars_of(a.date.as_str())), &chars_of(")")));
            push_blank_ln(out);
            push_ln_str(out, "**Pattern to Watch:**");
            push_ln(out, &concat(&chars_of("- "), &chars_of(a.pattern.as_str())));
            push_blank_ln(out);
            push_ln_str(out, "**One Challenge:**");
            push_ln(out, &concat(&chars_of("- "), &chars_of(a.challenge.as_str())));
            push_blank_ln(out);
        },
        None => {},
    }
    assert(out@ =~= o0 + accountability_md(note_views(*acc)));
}

fn push_inbox_md(out: &mut Vec<char>, items: &Vec<String>)
    ensures
        final(out)@ == old(out)@ + inbox_md(strs(items@)),
{
    let ghost o0 = out@;
    if items.len() > 0 {
        push_ln(out, &counted_text("## Inbox", items.len()));
        push_blank_ln(out);
        push_items_md(out, &chars_of("- [ ] "), items);
        push_blank_ln(out);
    }
    assert(out@ =~= o0 + inbox_md(strs(items@)));
}

/// The plain-text summary of the system. The next actions are those of the
/// projects; `today_num` is today's day number.
pub fn summary_text(
    profile: &Profile,
    vision: &Vision,
    goals: &Vec<Goal>,
    areas: &Vec<Area>,
    projects: &Vec<Project>,
    inbox: &Vec<String>,
    events: &Vec<CalendarEvent>,
    agendas: &Vec<Project>,
    waiting: &Vec<Project>,
    accountability: &Option<AccountabilityNote>,
    today_num: i32,
) -> (r: String)
    requires
        events_fit(event_views(events@)),
    ensures
        r@ == summary_md(
            profile@,
            vision@,
            goal_views(goals@),
            area_views(areas@),
            project_views(projects@),
            strs(inbox@),
            event_views(events@),
            project_views(agendas@),
            project_views(waiting@),
            note_views(*accountability),
            today_num as int,
        ),
{
    let mut out: Vec<char> = Vec::new();
    push_purpose_md(&mut out, profile);
    push_vision_md(&mut out, vision);
    push_areas_md(&mut out, areas);
    push_goals_md(&mut out, goals);
    push_projects_md(&mut out, projects);
    push_entries_md(&mut out, "## Waiting For", waiting);
    push_entries_md(&mut out, "## Agendas", agendas);
    push_upcoming_md(&mut out, events, today_num);
    let na = load_next_actions(projects);
    push_next_md(&mut out, &na);
    push_accountability_md(&mut out, accountability);
    push_inbox_md(&mut out, inbox);
    assert(out@ =~= summary_md(
        profile@,
        vision@,
        goal_views(goals@),
        area_views(areas@),
        project_views(projects@),
        strs(inbox@),
        event_views(events@),
        project_views(agendas@),
        project_views(waiting@),
        note_views(*accountability),
        today_num as int,
    ));
    string_of(&out)
}

} // verus!
