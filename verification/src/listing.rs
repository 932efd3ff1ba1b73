//! Choosing and ordering the files of a directory listing: the weekly boards
//! and the checklists, and the review streak that the board dates give.
use vstd::prelude::*;

use crate::text::{
    chars_of, ends_with, ends_with_chars, eq_chars, find_char, slice, string_of, strs,
};

verus! {

// ── Text order ──────────────────────────────────────────────────────────

/// The order of `str`: lexicographic by character (which is the order of the
/// UTF-8 bytes).
pub open spec fn text_lt(a: Seq<char>, b: Seq<char>) -> bool
    decreases a.len(),
{
    if b.len() == 0 {
        false
    } else if a.len() == 0 {
        true
    } else if (a[0] as u32) < (b[0] as u32) {
        true
    } else if a[0] == b[0] {
        text_lt(a.drop_first(), b.drop_first())
    } else {
        false
    }
}

pub proof fn lemma_text_lt_trans(a: Seq<char>, b: Seq<char>, c: Seq<char>)
    requires
        text_lt(a, b),
        text_lt(b, c),
    ensures
        text_lt(a, c),
    decreases a.len(),
{
    if a.len() > 0 && b.len() > 0 && c.len() > 0 && a[0] == b[0] && b[0] == c[0] {
        lemma_text_lt_trans(a.drop_first(), b.drop_first(), c.drop_first());
    }
}

pub proof fn lemma_text_lt_irrefl(a: Seq<char>)
    ensures
        !text_lt(a, a),
    decreases a.len(),
{
    if a.len() > 0 {
        lemma_text_lt_irrefl(a.drop_first());
    }
}

/// Of two different texts, one is below the other.
pub proof fn lemma_text_lt_total(a: Seq<char>, b: Seq<char>)
    ensures
        a == b || text_lt(a, b) || text_lt(b, a),
    decreases a.len(),
{
    if a.len() == 0 && b.len() == 0 {
        assert(a =~= b);
    } else if a.len() > 0 && b.len() > 0 && a[0] == b[0] {
        lemma_text_lt_total(a.drop_first(), b.drop_first());
        if a.drop_first() == b.drop_first() {
            assert(a =~= seq![a[0]] + a.drop_first());
            assert(b =~= seq![b[0]] + b.drop_first());
        }
    } else if a.len() > 0 && b.len() > 0 {
        vstd::utf8::char_u32_cast(a[0], a[0] as u32);
        vstd::utf8::char_u32_cast(b[0], b[0] as u32);
    }
}

/// Not being below is transitive.
pub proof fn lemma_text_le_trans(a: Seq<char>, b: Seq<char>, c: Seq<char>)
    requires
        !text_lt(a, b),
        !text_lt(b, c),
    ensures
        !text_lt(a, c),
{
    if text_lt(a, c) {
        lemma_text_lt_total(a, b);
        if a != b {
            lemma_text_lt_trans(b, a, c);
        }
    }
}

pub fn text_less(a: &Vec<char>, b: &Vec<char>) -> (r: bool)
    ensures
        r == text_lt(a@, b@),
{
    let mut i: usize = 0;
    assert(a@.skip(0) =~= a@);
    assert(b@.skip(0) =~= b@);
    while i < a.len() && i < b.len() && a[i] == b[i]
        invariant
            i <= a.len(),
            i <= b.len(),
            text_lt(a@, b@) == text_lt(a@.skip(i as int), b@.skip(i as int)),
        decreases a.len() - i,
    {
        assert(a@.skip(i as int).drop_first() =~= a@.skip(i + 1));
        assert(b@.skip(i as int).drop_first() =~= b@.skip(i + 1));
        i = i + 1;
    }
    if i == b.len() {
        false
    } else if i == a.len() {
        true
    } else {
        (a[i] as u32) < (b[i] as u32)
    }
}

/// Every text is not below the ones before it.
pub open spec fn sorted_texts(s: Seq<Seq<char>>) -> bool {
    forall|i: int, j: int| 0 <= i < j < s.len() ==> !text_lt(s[j], s[i])
}

/// Sorts texts in ascending order, as `Vec::sort` does.
pub fn sort_texts(v: Vec<Vec<char>>) -> (r: Vec<Vec<char>>)
    ensures
        sorted_texts(crate::text::seqs(r@)),
        crate::text::seqs(r@).to_multiset() == crate::text::seqs(v@).to_multiset(),
{
    let ghost sv = crate::text::seqs(v@);
    let mut r: Vec<Vec<char>> = Vec::new();
    let mut k: usize = 0;
    assert(sv.take(0) =~= seq![]);
    assert(crate::text::seqs(r@) =~= seq![]);
    while k < v.len()
        invariant
            k <= v.len(),
            sv == crate::text::seqs(v@),
            sorted_texts(crate::text::seqs(r@)),
            crate::text::seqs(r@).to_multiset() == sv.take(k as int).to_multiset(),
        decreases v.len() - k,
    {
        let x = crate::text::copy_chars(&v[k]);
        let ghost rv = crate::text::seqs(r@);
        let mut p: usize = 0;
        while p < r.len() && !text_less(&x, &r[p])
            invariant
                p <= r.len(),
                rv == crate::text::seqs(r@),
                forall|i: int| 0 <= i < p ==> !text_lt(x@, #[trigger] rv[i]),
            decreases r.len() - p,
        {
            p = p + 1;
        }
        assert(p < rv.len() ==> text_lt(x@, rv[p as int]));
        r.insert(p, x);
        let ghost nv = crate::text::seqs(r@);
        assert(nv =~= rv.insert(p as int, x@));
        assert forall|i: int, j: int| 0 <= i < j < nv.len() implies !text_lt(nv[j], nv[i]) by {
            if j < p {
                assert(nv[i] == rv[i] && nv[j] == rv[j]);
            } else if j == p {
                assert(nv[i] == rv[i]);
                if text_lt(x@, rv[i]) {
                }
            } else if i == p {
                assert(nv[j] == rv[j - 1]);
                assert(p < r.len());
                if text_lt(nv[j], x@) {
                    lemma_text_lt_trans(rv[j - 1], x@, rv[p as int]);
                    if j - 1 > p {
                        assert(!text_lt(rv[j - 1], rv[p as int]));
                    } else {
                        lemma_text_lt_irrefl(rv[p as int]);
                    }
                }
            } else if i < p {
                assert(nv[i] == rv[i] && nv[j] == rv[j - 1]);
            } else {
                assert(nv[i] == rv[i - 1] && nv[j] == rv[j - 1]);
            }
        }
        proof {
            rv.to_multiset_ensures();
            vstd::seq_lib::to_multiset_insert(rv, p as int, x@);
            assert(sv.take(k + 1) =~= sv.take(k as int).push(x@));
            sv.take(k as int).to_multiset_ensures();
        }
        k = k + 1;
    }
    assert(sv.take(v.len() as int) =~= sv);
    r
}

// ── Weekly board dates ──────────────────────────────────────────────────

/// The date a board file's name stands for: the name without `.md` or
/// `.yaml`; `template` is no board.
pub open spec fn board_stem(name: Seq<char>) -> Option<Seq<char>> {
    let stem = if ends_with(name, ".md"@) {
        Some(name.take(name.len() - ".md"@.len()))
    } else if ends_with(name, ".yaml"@) {
        Some(name.take(name.len() - ".yaml"@.len()))
    } else {
        None
    };
    match stem {
        Some(s) => if s == "template"@ {
            None
        } else {
            Some(s)
        },
        None => None,
    }
}

pub open spec fn board_stems(names: Seq<Seq<char>>) -> Seq<Seq<char>>
    decreases names.len(),
{
    if names.len() == 0 {
        seq![]
    } else {
        match board_stem(names.last()) {
            Some(s) => board_stems(names.drop_last()).push(s),
            None => board_stems(names.drop_last()),
        }
    }
}

fn board_stem_of(name: &Vec<char>) -> (r: Option<Vec<char>>)
    ensures
        match r {
            Some(s) => board_stem(name@) == Some(s@),
            None => board_stem(name@) is None,
        },
{
    let md = chars_of(".md");
    let yaml = chars_of(".yaml");
    let stem = if ends_with_chars(name, &md) {
        Some(slice(name, 0, name.len() - md.len()))
    } else if ends_with_chars(name, &yaml) {
        Some(slice(name, 0, name.len() - yaml.len()))
    } else {
        None
    };
    match stem {
        Some(s) => if eq_chars(&s, &chars_of("template")) {
            None
        } else {
            Some(s)
        },
        None => None,
    }
}

/// The dates of the weekly boards among the names of the weekly directory's
/// entries, sorted ascending.
pub fn list_weekly_board_dates(names: &Vec<String>) -> (r: Vec<String>)
    ensures
        sorted_texts(strs(r@)),
        strs(r@).to_multiset() == board_stems(strs(names@)).to_multiset(),
{
    let ghost nv = strs(names@);
    let mut stems: Vec<Vec<char>> = Vec::new();
    let mut k: usize = 0;
    assert(nv.take(0) =~= seq![]);
    assert(crate::text::seqs(stems@) =~= seq![]);
    while k < names.len()
        invariant
            k <= names.len(),
            nv == strs(names@),
            crate::text::seqs(stems@) == board_stems(nv.take(k as int)),
        decreases names.len() - k,
    {
        assert(nv.take(k + 1).drop_last() =~= nv.take(k as int));
        let ghost s0 = crate::text::seqs(stems@);
        match board_stem_of(&chars_of(names[k].as_str())) {
            Some(s) => {
                stems.push(s);
                assert(crate::text::seqs(stems@) =~= s0.push(s@));
            },
            None => {},
        }
        k = k + 1;
    }
    assert(nv.take(names.len() as int) =~= nv);
    let sorted = sort_texts(stems);
    let ghost sv = crate::text::seqs(sorted@);
    let mut out: Vec<String> = Vec::new();
    let mut j: usize = 0;
    while j < sorted.len()
        invariant
            j <= sorted.len(),
            sv == crate::text::seqs(sorted@),
            strs(out@) == sv.take(j as int),
        decreases sorted.len() - j,
    {
        let st = string_of(&sorted[j]);
        let ghost o0 = strs(out@);
        out.push(st);
        assert(strs(out@) =~= o0.push(st@));
        j = j + 1;
        assert(strs(out@) =~= sv.take(j as int));
    }
    assert(sv.take(sorted.len() as int) =~= sv);
    out
}

/// The stem of a `.md` file name.
pub open spec fn md_stem(name: Seq<char>) -> Option<Seq<char>> {
    if ends_with(name, ".md"@) {
        Some(name.take(name.len() - ".md"@.len()))
    } else {
        None
    }
}

/// Whether `d` is the date of a board before `before`.
pub open spec fn earlier_board(names: Seq<Seq<char>>, before: Seq<char>, d: Seq<char>) -> bool {
    exists|i: int| 0 <= i < names.len() && md_stem(names[i]) == Some(d) && text_lt(d, before)
}

/// The latest board date before `before`, among the names of the weekly
/// directory's `.md` entries; `None` when there is none.
pub fn _previous_weekly_board(names: &Vec<String>, before: &str) -> (r: Option<String>)
    ensures
        match r {
            Some(d) => earlier_board(strs(names@), before@, d@) && forall|e: Seq<char>|
                earlier_board(strs(names@), before@, e) ==> !text_lt(d@, e),
            None => forall|e: Seq<char>| !earlier_board(strs(names@), before@, e),
        },
{
    let ghost nv = strs(names@);
    let b = chars_of(before);
    let md = chars_of(".md");
    let mut best: Option<Vec<char>> = None;
    let mut k: usize = 0;
    while k < names.len()
        invariant
            k <= names.len(),
            nv == strs(names@),
            b@ == before@,
            md@ == ".md"@,
            match best {
                Some(d) => (exists|i: int|
                    0 <= i < k && md_stem(nv[i]) == Some(d@) && text_lt(d@, before@)) && forall|
                    i: int,
                    e: Seq<char>,
                |
                    0 <= i < k && md_stem(nv[i]) == Some(e) && text_lt(e, before@) ==> !text_lt(
                        d@,
                        e,
                    ),
                None => forall|i: int, e: Seq<char>|
                    0 <= i < k && md_stem(nv[i]) == Some(e) ==> !text_lt(e, before@),
            },
        decreases names.len() - k,
    {
        let name = chars_of(names[k].as_str());
        assert(nv[k as int] == name@);
        if ends_with_chars(&name, &md) {
            let stem = slice(&name, 0, name.len() - md.len());
            assert(md_stem(nv[k as int]) == Some(stem@));
            if text_less(&stem, &b) {
                let better = match &best {
                    Some(d) => text_less(d, &stem),
                    None => true,
                };
                if better {
                    proof {
                        match best {
                            Some(d) => {
                                assert forall|i: int, e: Seq<char>|
                                    0 <= i < k + 1 && md_stem(nv[i]) == Some(e) && text_lt(
                                        e,
                                        before@,
                                    ) implies !text_lt(stem@, e) by {
                                    if i < k {
                                        if text_lt(stem@, e) {
                                            lemma_text_lt_trans(d@, stem@, e);
                                        }
                                    } else {
                                        lemma_text_lt_irrefl(stem@);
                                    }
                                }
                            },
                            None => {
                                assert forall|i: int, e: Seq<char>|
                                    0 <= i < k + 1 && md_stem(nv[i]) == Some(e) && text_lt(
                                        e,
                                        before@,
                                    ) implies !text_lt(stem@, e) by {
                                    lemma_text_lt_irrefl(stem@);
                                }
                            },
                        }
                    }
                    best = Some(stem);
                } else {
                    proof {
                        let d = best->0;
                        assert(!text_lt(d@, stem@));
                    }
                }
            }
        }
        k = k + 1;
    }
    match best {
        Some(d) => {
            proof {
                assert forall|e: Seq<char>| earlier_board(nv, before@, e) implies !text_lt(d@, e) by {
                    let i = choose|i: int|
                        0 <= i < nv.len() && md_stem(nv[i]) == Some(e) && text_lt(e, before@);
                }
            }
            Some(string_of(&d))
        },
        None => None,
    }
}

// ── Checklists ──────────────────────────────────────────────────────────

/// The stem of a file name whose extension is `md`: the extension is what
/// follows the last `.`, when that `.` is not the name's first character.
pub open spec fn md_file_stem(name: Seq<char>) -> Option<Seq<char>> {
    match last_dot(name) {
        Some(k) => if k > 0 && name.skip(k + 1) == "md"@ {
            Some(name.take(k))
        } else {
            None
        },
        None => None,
    }
}

/// The index of the last `.` of a text.
pub open spec fn last_dot(s: Seq<char>) -> Option<int>
    decreases s.len(),
{
    if s.len() == 0 {
        None
    } else if s.last() == '.' {
        Some(s.len() - 1)
    } else {
        last_dot(s.drop_last())
    }
}

pub open spec fn checklist_stems(entries: Seq<(Seq<char>, bool)>) -> Seq<Seq<char>>
    decreases entries.len(),
{
    if entries.len() == 0 {
        seq![]
    } else {
        let (name, is_file) = entries.last();
        match md_file_stem(name) {
            Some(s) => if is_file {
                checklist_stems(entries.drop_last()).push(s)
            } else {
                checklist_stems(entries.drop_last())
            },
            None => checklist_stems(entries.drop_last()),
        }
    }
}

/// Each checklist listed is a file of the directory named `<name>.md`, so
/// the path built for it (`checklist_path`) names that file.
pub proof fn law_checklist_names(entries: Seq<(Seq<char>, bool)>, n: Seq<char>)
    requires
        checklist_stems(entries).contains(n),
    ensures
        exists|i: int| 0 <= i < entries.len() && #[trigger] entries[i] == (n + ".md"@, true),
    decreases entries.len(),
{
    reveal_strlit(".md");
    reveal_strlit("md");
    let init = entries.drop_last();
    let (name, is_file) = entries.last();
    let rest = checklist_stems(init);
    let hit = match md_file_stem(name) {
        Some(st) => is_file && st == n,
        None => false,
    };
    if hit {
        lemma_last_dot(name);
        let k = last_dot(name)->0;
        assert(name =~= name.take(k) + seq!['.'] + name.skip(k + 1));
        assert(n + ".md"@ =~= name.take(k) + seq!['.'] + "md"@);
        assert(entries[entries.len() - 1] == (n + ".md"@, true));
    } else {
        assert(rest.contains(n)) by {
            let j = choose|j: int| 0 <= j < checklist_stems(entries).len() && checklist_stems(entries)[j] == n;
            match md_file_stem(name) {
                Some(st) => if is_file {
                    assert(checklist_stems(entries) == rest.push(st));
                    assert(j < rest.len());
                    assert(rest[j] == n);
                } else {
                    assert(rest[j] == n);
                },
                None => {
                    assert(rest[j] == n);
                },
            }
        }
        law_checklist_names(init, n);
        let i = choose|i: int| 0 <= i < init.len() && #[trigger] init[i] == (n + ".md"@, true);
        assert(entries[i] == init[i]);
    }
}

proof fn lemma_last_dot(s: Seq<char>)
    ensures
        last_dot(s) matches Some(k) ==> 0 <= k < s.len() && s[k] == '.',
    decreases s.len(),
{
    if s.len() > 0 && s.last() != '.' {
        lemma_last_dot(s.drop_last());
    }
}

pub(crate) fn md_file_stem_of(name: &Vec<char>) -> (r: Option<Vec<char>>)
    ensures
        match r {
            Some(s) => md_file_stem(name@) == Some(s@),
            None => md_file_stem(name@) is None,
        },
{
    let mut k: usize = name.len();
    assert(name@.take(k as int) =~= name@);
    while k > 0 && name[k - 1] != '.'
        invariant
            k <= name.len(),
            last_dot(name@) == last_dot(name@.take(k as int)),
        decreases k,
    {
        assert(name@.take(k as int).drop_last() =~= name@.take(k - 1));
        k = k - 1;
    }
    if k == 0 {
        return None;
    }
    assert(last_dot(name@.take(k as int)) == Some(k - 1));
    let dot = k - 1;
    if dot == 0 {
        return None;
    }
    let ext = slice(name, dot + 1, name.len());
    assert(ext@ =~= name@.skip(dot + 1));
    if eq_chars(&ext, &chars_of("md")) {
        let stem = slice(name, 0, dot);
        assert(stem@ =~= name@.take(dot as int));
        Some(stem)
    } else {
        None
    }
}

/// The names of the checklists among the entries of the checklists
/// directory (each a file name and whether it is a file): the stems of the
/// `.md` files, sorted ascending.
pub fn load_checklist_files(entries: &Vec<(String, bool)>) -> (r: Vec<String>)
    ensures
        sorted_texts(strs(r@)),
        strs(r@).to_multiset() == checklist_stems(
            entries@.map_values(|e: (String, bool)| (e.0@, e.1)),
        ).to_multiset(),
{
    let ghost ev = entries@.map_values(|e: (String, bool)| (e.0@, e.1));
    let mut stems: Vec<Vec<char>> = Vec::new();
    let mut k: usize = 0;
    assert(ev.take(0) =~= seq![]);
    assert(crate::text::seqs(stems@) =~= seq![]);
    while k < entries.len()
        invariant
            k <= entries.len(),
            ev == entries@.map_values(|e: (String, bool)| (e.0@, e.1)),
            crate::text::seqs(stems@) == checklist_stems(ev.take(k as int)),
        decreases entries.len() - k,
    {
        assert(ev.take(k + 1).drop_last() =~= ev.take(k as int));
        let ghost s0 = crate::text::seqs(stems@);
        let name = chars_of(entries[k].0.as_str());
        assert(ev.take(k + 1).last() == (name@, entries[k as int].1));
        match md_file_stem_of(&name) {
            Some(s) => {
                if entries[k].1 {
                    stems.push(s);
                    assert(crate::text::seqs(stems@) =~= s0.push(s@));
                }
            },
            None => {},
        }
        k = k + 1;
    }
    assert(ev.take(entries.len() as int) =~= ev);
    let sorted = sort_texts(stems);
    let ghost sv = crate::text::seqs(sorted@);
    let mut out: Vec<String> = Vec::new();
    let mut j: usize = 0;
    while j < sorted.len()
        invariant
            j <= sorted.len(),
            sv == crate::text::seqs(sorted@),
            strs(out@) == sv.take(j as int),
        decreases sorted.len() - j,
    {
        let st = string_of(&sorted[j]);
        let ghost o0 = strs(out@);
        out.push(st);
        assert(strs(out@) =~= o0.push(st@));
        j = j + 1;
        assert(strs(out@) =~= sv.take(j as int));
    }
    assert(sv.take(sorted.len() as int) =~= sv);
    out
}

// ── Review streak ───────────────────────────────────────────────────────

/// A gap of 5 to 9 days between two boards keeps a weekly streak going.
pub open spec fn weekly_gap(g: Option<int>) -> bool {
    match g {
        Some(d) => 5 <= d <= 9,
        None => false,
    }
}

/// How many of the last gaps, counted back from the latest, are weekly.
pub open spec fn weekly_run(gaps: Seq<Option<int>>) -> nat
    decreases gaps.len(),
{
    if gaps.len() == 0 {
        0
    } else if weekly_gap(gaps.last()) {
        1 + weekly_run(gaps.drop_last())
    } else {
        0
    }
}

proof fn lemma_weekly_run_le(gaps: Seq<Option<int>>)
    ensures
        weekly_run(gaps) <= gaps.len(),
    decreases gaps.len(),
{
    if gaps.len() > 0 {
        lemma_weekly_run_le(gaps.drop_last());
    }
}

pub open spec fn gap_views(gaps: Seq<Option<i64>>) -> Seq<Option<int>> {
    gaps.map_values(
        |g: Option<i64>|
            match g {
                Some(d) => Some(d as int),
                None => None,
            },
    )
}

/// The weekly streak that the gaps between consecutive boards give: the
/// latest board, plus one for each weekly gap counted back from it.
pub fn streak_from_gaps(gaps: &Vec<Option<i64>>) -> (r: usize)
    requires
        gaps.len() < usize::MAX,
    ensures
        r == 1 + weekly_run(gap_views(gaps@)),
        1 <= r <= gaps.len() + 1,
{
    let ghost gv = gap_views(gaps@);
    let mut streak: usize = 1;
    let mut i: usize = gaps.len();
    proof {
        lemma_weekly_run_le(gv);
    }
    assert(gv.take(i as int) =~= gv);
    while i > 0
        invariant
            i <= gaps.len() < usize::MAX,
            gv == gap_views(gaps@),
            1 + weekly_run(gv) == streak + weekly_run(gv.take(i as int)),
            streak <= gaps.len() - i + 1,
        decreases i,
    {
        assert(gv.take(i as int).drop_last() =~= gv.take(i - 1));
        assert(gv.take(i as int).last() == gv[i - 1]);
        let weekly = match gaps[i - 1] {
            Some(d) => 5 <= d && d <= 9,
            None => false,
        };
        if weekly {
            streak = streak + 1;
            i = i - 1;
        } else {
            proof {
                lemma_weekly_run_le(gv);
            }
            return streak;
        }
    }
    assert(gv.take(0) =~= Seq::<Option<int>>::empty());
    streak
}

/// The gap between each board date and the next, by chrono's reading of the dates.
pub open spec fn board_gaps(dates: Seq<Seq<char>>) -> Seq<Option<int>> {
    Seq::new((if dates.len() > 0 { dates.len() - 1 } else { 0 }) as nat, |i: int| crate::external::ymd_gap(dates[i + 1], dates[i]))
}

/// The number of reviews and the current weekly streak: consecutive boards
/// 5 to 9 days apart, counted back from the latest. `(0, 0)` without boards.
pub fn compute_review_streak(dates: &Vec<String>) -> (r: (usize, usize))
    ensures
        dates.len() == 0 ==> r == (0usize, 0usize),
        dates.len() > 0 ==> r.0 == dates.len() && r.1 == 1 + weekly_run(board_gaps(strs(dates@))),
        dates.len() > 0 ==> 1 <= r.1 <= r.0,
{
    if dates.len() == 0 {
        return (0, 0);
    }
    let ghost dv = strs(dates@);
    let mut gaps: Vec<Option<i64>> = Vec::new();
    let mut i: usize = 0;
    while i + 1 < dates.len()
        invariant
            i + 1 <= dates.len(),
            dv == strs(dates@),
            gaps.len() == i,
            forall|j: int| 0 <= j < i ==> gap_views(gaps@)[j] == crate::external::ymd_gap(
                dv[j + 1],
                dv[j],
            ),
        decreases dates.len() - i,
    {
        let g = crate::external::date_gap(dates[i + 1].as_str(), dates[i].as_str());
        let ghost g0 = gap_views(gaps@);
        gaps.push(g);
        assert(gap_views(gaps@) =~= g0.push(crate::external::ymd_gap(dv[i + 1], dv[i as int])));
        i = i + 1;
    }
    assert(gap_views(gaps@) =~= board_gaps(dv));
    let streak = streak_from_gaps(&gaps);
    (dates.len(), streak)
}

} // verus!
