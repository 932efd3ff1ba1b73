//! The weekly board: the accountability partner's score and notes, and the
//! week's accomplishments and struggles, kept as one markdown file per week.
use vstd::prelude::*;

use crate::text::{
    all_digits, digit_value, digits_value, is_digit, is_ws, join_lines, lemma_fold_concat, lemma_join_concat,
    lemma_join_lines_concat, lemma_join_lines_join, lemma_join_lines_one, line_split, no_newline,
    plain_line, strip_cr, unsigned_digits,
    chars_of, concat, copy_chars, copy_string, eq_chars, find, find_char, find_char_in, find_chars, join,
    join_chars, lines, lines_of_str, opt_text, parse_u8, parse_unsigned, push_all, seqs, slice,
    starts_with, starts_with_chars, string_of, strip_prefix, strip_prefix_chars, strs, trim,
    trim_chars,
};

verus! {

/// A week's board.
#[derive(Debug, Clone)]
pub struct WeeklyBoard {
    pub score: Option<u8>,
    pub score_note: Option<String>,
    pub partner_notes: Option<String>,
    pub accomplishments: Vec<String>,
    pub struggles: Vec<String>,
}

pub struct BoardView {
    pub score: Option<u8>,
    pub score_note: Option<Seq<char>>,
    pub partner_notes: Option<Seq<char>>,
    pub accomplishments: Seq<Seq<char>>,
    pub struggles: Seq<Seq<char>>,
}

impl View for WeeklyBoard {
    type V = BoardView;

    open spec fn view(&self) -> BoardView {
        BoardView {
            score: self.score,
            score_note: opt_text(self.score_note),
            partner_notes: opt_text(self.partner_notes),
            accomplishments: strs(self.accomplishments@),
            struggles: strs(self.struggles@),
        }
    }
}

pub open spec fn empty_board() -> BoardView {
    BoardView {
        score: None,
        score_note: None,
        partner_notes: None,
        accomplishments: seq![],
        struggles: seq![],
    }
}

impl Default for WeeklyBoard {
    fn default() -> (r: Self)
        ensures
            r@ == empty_board(),
    {
        let r = WeeklyBoard {
            score: None,
            score_note: None,
            partner_notes: None,
            accomplishments: Vec::new(),
            struggles: Vec::new(),
        };
        assert(r@.accomplishments =~= seq![]);
        assert(r@.struggles =~= seq![]);
        r
    }
}

// ── Reading ─────────────────────────────────────────────────────────────

/// The items of `- item` lines, each line taken after trimming.
pub open spec fn dash_items(ls: Seq<Seq<char>>) -> Seq<Seq<char>>
    decreases ls.len(),
{
    if ls.len() == 0 {
        seq![]
    } else {
        match strip_prefix(trim(ls.last()), "- "@) {
            Some(x) => dash_items(ls.drop_last()).push(x),
            None => dash_items(ls.drop_last()),
        }
    }
}

/// The score and score note that the first line of the partner notes gives:
/// `Score: N/10 — note` (or ` - note`).
pub open spec fn score_line(b: BoardView, first: Seq<char>) -> BoardView {
    match find(first, "Score:"@) {
        None => b,
        Some(ss) => {
            let after = trim(first.skip(ss + "Score:"@.len()));
            let b1 = match find_char(after, '/') {
                Some(sl) => match parse_unsigned(trim(after.take(sl)), 255) {
                    Some(v) => BoardView { score: Some(v as u8), ..b },
                    None => b,
                },
                None => b,
            };
            match find(first, " \u{2014} "@) {
                Some(d) => BoardView {
                    score_note: Some(trim(first.skip(d + " \u{2014} "@.len()))),
                    ..b1
                },
                None => match find(first, " - "@) {
                    Some(d) => BoardView {
                        score_note: Some(trim(first.skip(d + " - "@.len()))),
                        ..b1
                    },
                    None => b1,
                },
            }
        },
    }
}

/// The lines of a section after its first.
pub open spec fn rest_lines(ls: Seq<Seq<char>>) -> Seq<Seq<char>> {
    if ls.len() > 0 {
        ls.skip(1)
    } else {
        seq![]
    }
}

/// The board after reading the lines of its `## Partner Notes` section.
pub open spec fn partner_flush(b: BoardView, ls: Seq<Seq<char>>) -> BoardView {
    if trim(join(ls, "\n"@)).len() == 0 {
        b
    } else {
        let first = if ls.len() > 0 {
            ls[0]
        } else {
            seq![]
        };
        let b1 = score_line(b, first);
        let notes = trim(join(rest_lines(ls), "\n"@));
        if notes.len() > 0 {
            BoardView { partner_notes: Some(notes), ..b1 }
        } else {
            b1
        }
    }
}

/// The board after reading the lines of a section.
pub open spec fn flush_board(b: BoardView, section: Seq<char>, ls: Seq<Seq<char>>) -> BoardView {
    if section == "Partner Notes"@ {
        partner_flush(b, ls)
    } else if section == "Accomplishments"@ {
        BoardView { accomplishments: b.accomplishments + dash_items(ls), ..b }
    } else if section == "Struggles"@ {
        BoardView { struggles: b.struggles + dash_items(ls), ..b }
    } else {
        b
    }
}

/// A reading in progress: the board so far, the current section and its lines.
pub struct BoardScan {
    pub board: BoardView,
    pub section: Seq<char>,
    pub lines: Seq<Seq<char>>,
}

pub open spec fn board_step(st: BoardScan, line: Seq<char>) -> BoardScan {
    match strip_prefix(line, "## "@) {
        Some(h) => BoardScan {
            board: flush_board(st.board, st.section, st.lines),
            section: trim(h),
            lines: seq![],
        },
        None => if starts_with(line, "# "@) && !starts_with(line, "## "@) {
            st
        } else {
            BoardScan { lines: st.lines.push(line), ..st }
        },
    }
}

pub open spec fn board_start() -> BoardScan {
    BoardScan { board: empty_board(), section: seq![], lines: seq![] }
}

pub open spec fn board_scan(ls: Seq<Seq<char>>) -> BoardScan {
    ls.fold_left(board_start(), |st: BoardScan, l: Seq<char>| board_step(st, l))
}

/// The board that a weekly board file holds: `## ` headings open sections;
/// under `## Partner Notes` the first line gives the score and its note and
/// the rest are the partner's notes; `- ` items under `## Accomplishments`
/// and `## Struggles` are those lists.
pub open spec fn board_of(content: Seq<char>) -> BoardView {
    let st = board_scan(lines(content));
    flush_board(st.board, st.section, st.lines)
}

fn push_dash_items(out: &mut Vec<String>, ls: &Vec<Vec<char>>)
    ensures
        strs(final(out)@) == strs(old(out)@) + dash_items(seqs(ls@)),
{
    let dash = chars_of("- ");
    let mut k: usize = 0;
    assert(seqs(ls@).take(0) =~= seq![]);
    assert(strs(old(out)@) + seq![] =~= strs(old(out)@));
    while k < ls.len()
        invariant
            k <= ls.len(),
            dash@ == "- "@,
            strs(out@) == strs(old(out)@) + dash_items(seqs(ls@).take(k as int)),
        decreases ls.len() - k,
    {
        assert(seqs(ls@).take(k + 1).drop_last() =~= seqs(ls@).take(k as int));
        let ghost o0 = strs(out@);
        match strip_prefix_chars(&trim_chars(&ls[k]), &dash) {
            Some(x) => {
                out.push(string_of(&x));
                assert(strs(out@) =~= o0.push(x@));
            },
            None => {},
        }
        k = k + 1;
        assert(strs(out@) =~= strs(old(out)@) + dash_items(seqs(ls@).take(k as int)));
    }
    assert(seqs(ls@).take(ls.len() as int) =~= seqs(ls@));
}

pub(crate) fn score_line_exec(board: &mut WeeklyBoard, first: &Vec<char>)
    ensures
        final(board)@ == score_line(old(board)@, first@),
{
    let key = chars_of("Score:");
    match find_chars(first, &key) {
        None => {},
        Some(ss) => {
            proof {
                crate::text::lemma_find(first@, key@);
                assert(crate::text::occurs_at(first@, key@, ss as int));
                assert(ss + key@.len() <= first@.len());
            }
            assert(ss + key.len() <= first.len());
            let tail = slice(first, ss + key.len(), first.len());
            assert(tail@ =~= first@.skip(ss + key.len()));
            let after = trim_chars(&tail);
            match find_char_in(&after, '/') {
                Some(sl) => {
                    proof {
                        crate::text::lemma_find(after@, seq!['/']);
                    }
                    let head = slice(&after, 0, sl);
                    assert(head@ =~= after@.take(sl as int));
                    let num = trim_chars(&head);
                    match parse_u8(&num) {
                        Some(v) => {
                            board.score = Some(v);
                        },
                        None => {},
                    }
                },
                None => {},
            }
            let em = chars_of(" \u{2014} ");
            let hy = chars_of(" - ");
            match find_chars(first, &em) {
                Some(d) => {
                    proof {
                        crate::text::lemma_find(first@, " \u{2014} "@);
                    }
                    let rest = slice(first, d + em.len(), first.len());
                    assert(rest@ =~= first@.skip(d + em.len()));
                    board.score_note = Some(string_of(&trim_chars(&rest)));
                },
                None => match find_chars(first, &hy) {
                    Some(d) => {
                        proof {
                            crate::text::lemma_find(first@, " - "@);
                        }
                        let rest = slice(first, d + hy.len(), first.len());
                        assert(rest@ =~= first@.skip(d + hy.len()));
                        board.score_note = Some(string_of(&trim_chars(&rest)));
                    },
                    None => {},
                },
            }
        },
    }
}

fn flush_section(board: &mut WeeklyBoard, section: &Vec<char>, ls: &Vec<Vec<char>>)
    ensures
        final(board)@ == flush_board(old(board)@, section@, seqs(ls@)),
{
    let nl = chars_of("\n");
    if eq_chars(section, &chars_of("Partner Notes")) {
        let text = trim_chars(&join_chars(ls, &nl));
        if text.len() == 0 {
            return ;
        }
        let first: Vec<char> = if ls.len() > 0 {
            copy_chars(&ls[0])
        } else {
            Vec::new()
        };
        score_line_exec(board, &first);
        let mut rest: Vec<Vec<char>> = Vec::new();
        let mut k: usize = 1;
        assert(seqs(rest@) =~= seqs(ls@).subrange(1, 1));
        while k < ls.len()
            invariant
                1 <= k <= ls.len() || (ls.len() == 0 && k == 1),
                ls.len() > 0 ==> seqs(rest@) == seqs(ls@).subrange(1, k as int),
                ls.len() == 0 ==> rest@.len() == 0,
            decreases ls.len() - k,
        {
            let ghost r0 = seqs(rest@);
            rest.push(copy_chars(&ls[k]));
            assert(seqs(rest@) =~= r0.push(seqs(ls@)[k as int]));
            k = k + 1;
            assert(seqs(rest@) =~= seqs(ls@).subrange(1, k as int));
        }
        assert(seqs(rest@) =~= rest_lines(seqs(ls@)));
        let notes = trim_chars(&join_chars(&rest, &nl));
        if notes.len() > 0 {
            board.partner_notes = Some(string_of(&notes));
        }
    } else if eq_chars(section, &chars_of("Accomplishments")) {
        push_dash_items(&mut board.accomplishments, ls);
    } else if eq_chars(section, &chars_of("Struggles")) {
        push_dash_items(&mut board.struggles, ls);
    }
}

/// Reads a weekly board file.
pub fn parse_markdown_board(content: &str) -> (r: WeeklyBoard)
    ensures
        r@ == board_of(content@),
{
    let ls = lines_of_str(content);
    let ghost lv = seqs(ls@);
    let mut board = WeeklyBoard::default();
    let mut section: Vec<char> = Vec::new();
    let mut section_lines: Vec<Vec<char>> = Vec::new();
    let h1 = chars_of("# ");
    let h2 = chars_of("## ");
    let mut i: usize = 0;
    assert(lv.take(0) =~= seq![]);
    assert(seqs(section_lines@) =~= seq![]);
    while i < ls.len()
        invariant
            i <= ls.len(),
            lv == seqs(ls@),
            lv == lines(content@),
            h1@ == "# "@,
            h2@ == "## "@,
            board_scan(lv.take(i as int)) == (BoardScan {
                board: board@,
                section: section@,
                lines: seqs(section_lines@),
            }),
        decreases ls.len() - i,
    {
        assert(lv.take(i + 1).drop_last() =~= lv.take(i as int));
        let ghost sl0 = seqs(section_lines@);
        let line = &ls[i];
        match strip_prefix_chars(line, &h2) {
            Some(h) => {
                flush_section(&mut board, &section, &section_lines);
                section = trim_chars(&h);
                section_lines = Vec::new();
                assert(seqs(section_lines@) =~= seq![]);
            },
            None => {
                if starts_with_chars(line, &h1) && !starts_with_chars(line, &h2) {
                } else {
                    section_lines.push(copy_chars(line));
                    assert(seqs(section_lines@) =~= sl0.push(line@));
                }
            },
        }
        i = i + 1;
    }
    assert(lv.take(ls.len() as int) =~= lv);
    flush_section(&mut board, &section, &section_lines);
    board
}

/// The board that a weekly board file gives, the empty board where the file
/// is missing or could not be read (`None`).
pub fn load_weekly_board(content: Option<&str>) -> (r: WeeklyBoard)
    ensures
        r@ == match content {
            Some(c) => board_of(c@),
            None => empty_board(),
        },
{
    match content {
        Some(c) => parse_markdown_board(c),
        None => WeeklyBoard::default(),
    }
}

// ── Writing ─────────────────────────────────────────────────────────────

pub open spec fn digit_char(d: int) -> char {
    if d == 0 {
        '0'
    } else if d == 1 {
        '1'
    } else if d == 2 {
        '2'
    } else if d == 3 {
        '3'
    } else if d == 4 {
        '4'
    } else if d == 5 {
        '5'
    } else if d == 6 {
        '6'
    } else if d == 7 {
        '7'
    } else if d == 8 {
        '8'
    } else {
        '9'
    }
}

fn digit_of(x: u8) -> (c: char)
    requires
        x < 10,
    ensures
        c == digit_char(x as int),
{
    if x == 0 {
        '0'
    } else if x == 1 {
        '1'
    } else if x == 2 {
        '2'
    } else if x == 3 {
        '3'
    } else if x == 4 {
        '4'
    } else if x == 5 {
        '5'
    } else if x == 6 {
        '6'
    } else if x == 7 {
        '7'
    } else if x == 8 {
        '8'
    } else {
        '9'
    }
}

/// The decimal digits of a number, as `{}` formats it.
pub open spec fn decimal(n: nat) -> Seq<char>
    decreases n,
{
    if n < 10 {
        seq![digit_char(n as int)]
    } else {
        decimal(n / 10).push(digit_char((n % 10) as int))
    }
}

pub fn decimal_u8(n: u8) -> (r: Vec<char>)
    ensures
        r@ == decimal(n as nat),
{
    if n < 10 {
        let r = vec![digit_of(n)];
        assert(r@ =~= decimal(n as nat));
        r
    } else if n < 100 {
        let r = vec![digit_of(n / 10), digit_of(n % 10)];
        assert(decimal((n / 10) as nat) =~= seq![digit_char((n / 10) as int)]);
        assert(r@ =~= decimal(n as nat));
        r
    } else {
        let r = vec![digit_of(n / 100), digit_of((n / 10) % 10), digit_of(n % 10)];
        assert((n / 10) / 10 == n / 100);
        assert(decimal((n / 100) as nat) =~= seq![digit_char((n / 100) as int)]);
        assert(decimal((n / 10) as nat) =~= seq![
            digit_char((n / 100) as int),
            digit_char(((n / 10) % 10) as int),
        ]);
        assert(r@ =~= decimal(n as nat));
        r
    }
}

/// The decimal digits of a count.
pub fn decimal_usize(n: usize) -> (r: Vec<char>)
    ensures
        r@ == decimal(n as nat),
    decreases n,
{
    if n < 10 {
        let r = vec![digit_of(n as u8)];
        assert(r@ =~= decimal(n as nat));
        r
    } else {
        let mut r = decimal_usize(n / 10);
        r.push(digit_of((n % 10) as u8));
        assert(r@ =~= decimal(n as nat));
        r
    }
}

/// `- item` lines for a list, or one empty line when it is empty.
pub open spec fn list_md(items: Seq<Seq<char>>) -> Seq<char> {
    if items.len() == 0 {
        "\n"@
    } else {
        crate::horizons::bullet_lines(items)
    }
}

/// The score line, if there is a score.
pub open spec fn score_md(b: BoardView) -> Seq<char> {
    match b.score {
        Some(s) => {
            let note = match b.score_note {
                Some(n) => n,
                None => seq![],
            };
            if note.len() == 0 {
                "Score: "@ + decimal(s as nat) + "/10\n"@
            } else {
                "Score: "@ + decimal(s as nat) + "/10 \u{2014} "@ + note + "\n"@
            }
        },
        None => seq![],
    }
}

/// The markdown that a board is written as, under a title with its date.
pub open spec fn board_md(b: BoardView, date: Seq<char>) -> Seq<char> {
    "# Weekly Board \u{2014} "@ + date + "\n\n"@ + "## Partner Notes\n"@ + score_md(b) + match b.partner_notes {
        Some(n) => "\n"@ + n + "\n"@,
        None => seq![],
    } + "\n"@ + "## Accomplishments\n"@ + list_md(b.accomplishments) + "\n"@ + "## Struggles\n"@
        + list_md(b.struggles) + "\n"@
}

fn push_list_md(out: &mut Vec<char>, items: &Vec<String>)
    ensures
        final(out)@ == old(out)@ + list_md(strs(items@)),
{
    if items.len() == 0 {
        push_all(out, &chars_of("\n"));
    } else {
        crate::horizons::push_bullet_lines(out, items);
    }
}

/// Writes a board as markdown, in the form that `parse_markdown_board` reads.
pub fn render_markdown_board(board: &WeeklyBoard, date_str: &str) -> (r: String)
    ensures
        r@ == board_md(board@, date_str@),
{
    let mut out: Vec<char> = Vec::new();
    push_all(&mut out, &chars_of("# Weekly Board \u{2014} "));
    push_all(&mut out, &chars_of(date_str));
    push_all(&mut out, &chars_of("\n\n"));
    push_all(&mut out, &chars_of("## Partner Notes\n"));
    let ghost o1 = out@;
    match board.score {
        Some(s) => {
            let note: Vec<char> = match &board.score_note {
                Some(n) => chars_of(n.as_str()),
                None => Vec::new(),
            };
            push_all(&mut out, &chars_of("Score: "));
            push_all(&mut out, &decimal_u8(s));
            if note.len() == 0 {
                push_all(&mut out, &chars_of("/10\n"));
            } else {
                push_all(&mut out, &chars_of("/10 \u{2014} "));
                push_all(&mut out, &note);
                push_all(&mut out, &chars_of("\n"));
            }
        },
        None => {},
    }
    assert(out@ =~= o1 + score_md(board@));
    let ghost o2 = out@;
    match &board.partner_notes {
        Some(n) => {
            push_all(&mut out, &chars_of("\n"));
            push_all(&mut out, &chars_of(n.as_str()));
            push_all(&mut out, &chars_of("\n"));
        },
        None => {},
    }
    assert(out@ =~= o2 + match board@.partner_notes {
        Some(n) => "\n"@ + n + "\n"@,
        None => seq![],
    });
    push_all(&mut out, &chars_of("\n"));
    push_all(&mut out, &chars_of("## Accomplishments\n"));
    push_list_md(&mut out, &board.accomplishments);
    push_all(&mut out, &chars_of("\n"));
    push_all(&mut out, &chars_of("## Struggles\n"));
    push_list_md(&mut out, &board.struggles);
    push_all(&mut out, &chars_of("\n"));
    assert(out@ =~= board_md(board@, date_str@));
    string_of(&out)
}


// ── Writing then reading gives the board back ──────────────────────────

/// A board and date that the markdown form can carry: every text stays on
/// its line, a score note needs a score, texts that are read back trimmed are
/// trimmed, and no line of the notes reads as a heading.
pub open spec fn board_writable(b: BoardView, date: Seq<char>) -> bool {
    no_newline(date) && board_fits(b)
}

/// A board that the markdown form can carry (see `board_writable`): a score
/// note only with a score, and then nonempty, trimmed and on one line;
/// partner notes nonempty, trimmed, without `\r`, and with no line that
/// starts with `# ` or `## `; list items nonempty, on one line, and ending
/// with a non-space.
pub open spec fn board_fits(b: BoardView) -> bool {
    &&& match b.score {
        None => b.score_note is None,
        Some(_) => match b.score_note {
            None => true,
            Some(n) => n.len() > 0 && trim(n) == n && no_newline(n),
        },
    }
    &&& match b.partner_notes {
        None => true,
        Some(n) => {
            &&& n.len() > 0
            &&& trim(n) == n
            &&& forall|i: int| 0 <= i < n.len() ==> n[i] != '\r'
            &&& forall|i: int|
                0 <= i < lines(n).len() ==> !starts_with(#[trigger] lines(n)[i], "# "@) && !starts_with(
                    lines(n)[i],
                    "## "@,
                )
        },
    }
    &&& forall|i: int| 0 <= i < b.accomplishments.len() ==> item_line(#[trigger] b.accomplishments[i])
    &&& forall|i: int| 0 <= i < b.struggles.len() ==> item_line(#[trigger] b.struggles[i])
}

/// What reading the board back needs of it, line by line.
pub open spec fn board_lines_fit(b: BoardView) -> bool {
    &&& match b.score {
        None => b.score_note is None,
        Some(_) => match b.score_note {
            None => true,
            Some(n) => n.len() > 0 && trim(n) == n && no_newline(n),
        },
    }
    &&& match b.partner_notes {
        None => true,
        Some(n) => {
            &&& n.len() > 0
            &&& trim(n) == n
            &&& join(lines(n), seq!['\n']) == n
            &&& forall|i: int| 0 <= i < lines(n).len() ==> note_line(#[trigger] lines(n)[i])
        },
    }
    &&& forall|i: int| 0 <= i < b.accomplishments.len() ==> item_line(#[trigger] b.accomplishments[i])
    &&& forall|i: int| 0 <= i < b.struggles.len() ==> item_line(#[trigger] b.struggles[i])
}

/// Text without `\r` is its lines joined again by newlines, and each of its
/// lines is plain.
proof fn lemma_line_split_rejoin(s: Seq<char>)
    requires
        forall|i: int| 0 <= i < s.len() ==> s[i] != '\r',
    ensures
        join(line_split(s).0.push(line_split(s).1), seq!['\n']) == s,
        forall|i: int| 0 <= i < line_split(s).0.len() ==> plain_line(#[trigger] line_split(s).0[i]),
        plain_line(line_split(s).1),
        s.len() > 0 && s.last() != '\n' ==> line_split(s).1.len() > 0,
    decreases s.len(),
{
    if s.len() == 0 {
        assert(seq![Seq::<char>::empty()].len() == 1);
    } else {
        let s0 = s.drop_last();
        assert forall|i: int| 0 <= i < s0.len() implies s0[i] != '\r' by {
            assert(s0[i] == s[i]);
        }
        lemma_line_split_rejoin(s0);
        let (done, cur) = line_split(s0);
        let c = s.last();
        assert(c == s[s.len() - 1]);
        if c == '\n' {
            assert(strip_cr(cur) == cur);
            assert(line_split(s) == (done.push(cur), Seq::<char>::empty()));
            let d1 = done.push(cur);
            assert(d1.push(Seq::<char>::empty()).drop_last() =~= d1);
            assert(join(d1.push(Seq::<char>::empty()), seq!['\n']) =~= join(d1, seq!['\n']) + seq!['\n']);
            assert(s0.push(c) =~= s);
            assert forall|i: int| 0 <= i < d1.len() implies plain_line(#[trigger] d1[i]) by {
                if i < done.len() {
                    assert(d1[i] == done[i]);
                }
            }
        } else {
            assert(line_split(s) == (done, cur.push(c)));
            if done.len() == 0 {
                assert(done.push(cur.push(c)).len() == 1);
                assert(done.push(cur).len() == 1);
                assert(cur.push(c) =~= s0.push(c));
            } else {
                assert(done.push(cur.push(c)).drop_last() =~= done);
                assert(done.push(cur).drop_last() =~= done);
                assert(join(done.push(cur.push(c)), seq!['\n']) =~= join(done.push(cur), seq!['\n']).push(c));
            }
            assert(s0.push(c) =~= s);
            assert(plain_line(cur.push(c))) by {
                assert forall|j: int| 0 <= j < cur.push(c).len() implies cur.push(c)[j] != '\n' by {
                    if j < cur.len() {
                        assert(cur.push(c)[j] == cur[j]);
                    }
                }
            }
        }
    }
}

/// The conditions on a board as its fields read give those its reading needs.
proof fn lemma_board_fits_lines(b: BoardView)
    requires
        board_fits(b),
    ensures
        board_lines_fit(b),
{
    match b.partner_notes {
        None => {},
        Some(n) => {
            lemma_line_split_rejoin(n);
            crate::text::lemma_trimmed_ends(n);
            assert(crate::text::is_ws('\n'));
            let (done, cur) = line_split(n);
            assert(cur.len() > 0);
            assert(lines(n) == done.push(cur));
            assert forall|i: int| 0 <= i < lines(n).len() implies note_line(#[trigger] lines(n)[i]) by {
                if i < done.len() {
                    assert(lines(n)[i] == done[i]);
                } else {
                    assert(lines(n)[i] == cur);
                }
            }
        },
    }
}

/// A line of partner notes that reads back as notes.
pub open spec fn note_line(l: Seq<char>) -> bool {
    plain_line(l) && !starts_with(l, "# "@) && !starts_with(l, "## "@)
}

/// A list item that reads back unchanged from its `- item` line.
pub open spec fn item_line(x: Seq<char>) -> bool {
    x.len() > 0 && no_newline(x) && !is_ws(x.last())
}

/// The lines of a written board after its title line.
pub open spec fn board_rest(b: BoardView) -> Seq<Seq<char>> {
    let e: Seq<char> = seq![];
    seq![e] + seq!["## Partner Notes"@] + partner_ls(b) + seq!["## Accomplishments"@] + list_ls(
        b.accomplishments,
    ).push(e) + seq!["## Struggles"@] + list_ls(b.struggles).push(e)
}

/// Writing a board with `render_markdown_board` and reading the text back
/// with `parse_markdown_board` gives the same board.
pub proof fn law_board_round_trip(b: BoardView, date: Seq<char>)
    requires
        board_writable(b, date),
    ensures
        board_of(board_md(b, date)) == b,
{
    reveal_strlit("# Weekly Board \u{2014} ");
    let t = "# Weekly Board \u{2014} "@ + date;
    lemma_board_fits_lines(b);
    lemma_board_lines_of(b, date);
    lemma_board_read(b, strip_cr(t));
}

#[verifier::rlimit(40)]
proof fn lemma_board_lines_of(b: BoardView, date: Seq<char>)
    requires
        no_newline(date),
        board_lines_fit(b),
    ensures
        lines(board_md(b, date)) == seq![strip_cr("# Weekly Board \u{2014} "@ + date)] + board_rest(b),
        strip_cr("# Weekly Board \u{2014} "@ + date).len() >= 3,
        strip_cr("# Weekly Board \u{2014} "@ + date).subrange(0, 3) == seq!['#', ' ', 'W'],
{
    reveal_strlit("## Partner Notes");
    reveal_strlit("## Accomplishments");
    reveal_strlit("## Struggles");
    reveal_strlit("# Weekly Board \u{2014} ");
    let t = "# Weekly Board \u{2014} "@ + date;
    let e: Seq<char> = seq![];
    let pn = "## Partner Notes"@;
    let acc = "## Accomplishments"@;
    let stl = "## Struggles"@;
    let part = partner_ls(b);
    let al = list_ls(b.accomplishments).push(e);
    let sl = list_ls(b.struggles).push(e);
    let r5 = seq![e] + seq![pn];
    let r4 = r5 + part;
    let r3 = r4 + seq![acc];
    let r2 = r3 + al;
    let r1 = r2 + seq![stl];
    let rest = r1 + sl;
    assert(rest == board_rest(b));
    lemma_board_md_lines(b, date);
    lemma_join_lines_concat(seq![t], rest);
    lemma_join_lines_one(t);
    lemma_partner_plain(b);
    lemma_list_plain(b.accomplishments);
    lemma_list_plain(b.struggles);
    assert(all_plain(seq![e]));
    lemma_heading_plain(pn);
    lemma_heading_plain(acc);
    lemma_heading_plain(stl);
    lemma_body_plain(part);
    lemma_body_plain(al);
    lemma_body_plain(sl);
    lemma_all_plain_concat(seq![e], seq![pn]);
    lemma_all_plain_concat(r5, part);
    lemma_all_plain_concat(r4, seq![acc]);
    lemma_all_plain_concat(r3, al);
    lemma_all_plain_concat(r2, seq![stl]);
    lemma_all_plain_concat(r1, sl);
    assert(no_newline(t)) by {
        assert forall|i: int| 0 <= i < t.len() implies t[i] != '\n' by {
            if i >= 17 {
                assert(t[i] == date[i - 17]);
            }
        }
    }
    assert((t + seq!['\n']).drop_last() =~= t);
    lemma_lines_after(t + seq!['\n'], rest);
    assert(strip_cr(t).subrange(0, 3) =~= seq!['#', ' ', 'W']);
}

#[verifier::rlimit(60)]
proof fn lemma_board_read(b: BoardView, tt: Seq<char>)
    requires
        board_lines_fit(b),
        tt.len() >= 3,
        tt.subrange(0, 3) == seq!['#', ' ', 'W'],
    ensures
        flush_board(
            board_scan(seq![tt] + board_rest(b)).board,
            board_scan(seq![tt] + board_rest(b)).section,
            board_scan(seq![tt] + board_rest(b)).lines,
        ) == b,
{
    reveal_strlit("## Partner Notes");
    reveal_strlit("## Accomplishments");
    reveal_strlit("## Struggles");
    reveal_strlit("## ");
    reveal_strlit("# ");
    reveal_strlit("Partner Notes");
    reveal_strlit("Accomplishments");
    reveal_strlit("Struggles");
    let e: Seq<char> = seq![];
    let pn = "## Partner Notes"@;
    let acc = "## Accomplishments"@;
    let stl = "## Struggles"@;
    let part = partner_ls(b);
    let al = list_ls(b.accomplishments).push(e);
    let sl = list_ls(b.struggles).push(e);
    let r5 = seq![e] + seq![pn];
    let r4 = r5 + part;
    let r3 = r4 + seq![acc];
    let r2 = r3 + al;
    let r1 = r2 + seq![stl];
    let rest = r1 + sl;
    assert(rest == board_rest(b));
    let f = |st: BoardScan, l: Seq<char>| board_step(st, l);
    assert(tt.subrange(0, 2) =~= "# "@);
    assert(!starts_with(tt, "## "@)) by {
        assert(tt.subrange(0, 3)[1] == ' ');
    }
    lemma_fold_one_board(board_start(), tt, f);
    let st1 = board_start();
    lemma_fold_one_board(st1, e, f);
    let st2 = BoardScan { lines: seq![e], ..board_start() };
    lemma_fold_one_board(st2, pn, f);
    assert(pn.subrange(0, 3) =~= "## "@);
    assert(pn.skip(3) =~= "Partner Notes"@);
    crate::text::lemma_trim_id("Partner Notes"@);
    assert(flush_board(empty_board(), seq![], seq![e]) == empty_board());
    let st3 = BoardScan { board: empty_board(), section: "Partner Notes"@, lines: seq![] };
    lemma_partner_plain(b);
    lemma_list_plain(b.accomplishments);
    lemma_list_plain(b.struggles);
    lemma_scan_plain(st3, part);
    assert(Seq::<Seq<char>>::empty() + part =~= part);
    let st4 = BoardScan { lines: part, ..st3 };
    let p = partner_flush(empty_board(), part);
    lemma_partner(b);
    lemma_fold_one_board(st4, acc, f);
    assert(acc.subrange(0, 3) =~= "## "@);
    assert(acc.skip(3) =~= "Accomplishments"@);
    crate::text::lemma_trim_id("Accomplishments"@);
    let st5 = BoardScan { board: p, section: "Accomplishments"@, lines: seq![] };
    lemma_scan_plain(st5, al);
    assert(Seq::<Seq<char>>::empty() + al =~= al);
    let st6 = BoardScan { lines: al, ..st5 };
    lemma_fold_one_board(st6, stl, f);
    assert(stl.subrange(0, 3) =~= "## "@);
    assert(stl.skip(3) =~= "Struggles"@);
    crate::text::lemma_trim_id("Struggles"@);
    lemma_list_items(b.accomplishments);
    let a = BoardView { accomplishments: b.accomplishments, ..p };
    assert(p.accomplishments + dash_items(al) =~= b.accomplishments);
    let st7 = BoardScan { board: a, section: "Struggles"@, lines: seq![] };
    lemma_scan_plain(st7, sl);
    assert(Seq::<Seq<char>>::empty() + sl =~= sl);
    let st8 = BoardScan { lines: sl, ..st7 };
    lemma_list_items(b.struggles);
    assert(a.struggles + dash_items(sl) =~= b.struggles);
    lemma_fold_concat(seq![tt], rest, board_start(), f);
    lemma_fold_concat(r1, sl, st1, f);
    lemma_fold_concat(r2, seq![stl], st1, f);
    lemma_fold_concat(r3, al, st1, f);
    lemma_fold_concat(r4, seq![acc], st1, f);
    lemma_fold_concat(r5, part, st1, f);
    lemma_fold_concat(seq![e], seq![pn], st1, f);
    assert(board_scan(seq![tt] + rest) == st8);
    assert(flush_board(st8.board, st8.section, st8.lines) =~= BoardView {
        struggles: b.struggles,
        ..a
    });
}

pub proof fn lemma_fold_one_board(st: BoardScan, l: Seq<char>, f: spec_fn(BoardScan, Seq<char>) -> BoardScan)
    ensures
        seq![l].fold_left(st, f) == f(st, l),
{
    assert(seq![l].drop_last() =~= Seq::<Seq<char>>::empty());
    assert(Seq::<Seq<char>>::empty().fold_left(st, f) == st);
    assert(seq![l].last() == l);
}

/// Every line is a body line.
pub open spec fn all_body(ls: Seq<Seq<char>>) -> bool {
    forall|i: int| 0 <= i < ls.len() ==> body_line(#[trigger] ls[i])
}

/// Every line is read back unchanged by `lines`.
pub open spec fn all_plain(ls: Seq<Seq<char>>) -> bool {
    forall|i: int| 0 <= i < ls.len() ==> plain_line(#[trigger] ls[i])
}

proof fn lemma_body_plain(ls: Seq<Seq<char>>)
    requires
        all_body(ls),
    ensures
        all_plain(ls),
{
    assert forall|i: int| 0 <= i < ls.len() implies plain_line(#[trigger] ls[i]) by {
        assert(body_line(ls[i]));
    }
}

proof fn lemma_heading_plain(h: Seq<char>)
    requires
        h.len() > 0,
        h.last() != '\r',
        no_newline(h),
    ensures
        all_plain(seq![h]),
{
    assert(seq![h][0] == h);
}

proof fn lemma_all_plain_concat(a: Seq<Seq<char>>, b: Seq<Seq<char>>)
    requires
        all_plain(a),
        all_plain(b),
    ensures
        all_plain(a + b),
{
    assert forall|i: int| 0 <= i < (a + b).len() implies plain_line(#[trigger] (a + b)[i]) by {
        if i < a.len() {
            assert((a + b)[i] == a[i]);
        } else {
            assert((a + b)[i] == b[i - a.len()]);
        }
    }
}

/// The score line, without its newline.
pub open spec fn score_text(b: BoardView) -> Seq<char> {
    let s = match b.score {
        Some(s) => s,
        None => 0,
    };
    let note = match b.score_note {
        Some(n) => n,
        None => seq![],
    };
    if note.len() == 0 {
        "Score: "@ + decimal(s as nat) + "/10"@
    } else {
        "Score: "@ + decimal(s as nat) + "/10 \u{2014} "@ + note
    }
}

/// The lines of the partner notes section: the score line, an empty line and
/// the notes, then an empty line.
pub open spec fn partner_ls(b: BoardView) -> Seq<Seq<char>> {
    let score = match b.score {
        Some(_) => seq![score_text(b)],
        None => seq![],
    };
    let notes = match b.partner_notes {
        Some(n) => seq![Seq::<char>::empty()] + lines(n),
        None => seq![],
    };
    score + notes + seq![Seq::<char>::empty()]
}

/// The lines of a list section: `- item` lines, or an empty line.
pub open spec fn list_ls(items: Seq<Seq<char>>) -> Seq<Seq<char>> {
    if items.len() == 0 {
        seq![Seq::<char>::empty()]
    } else {
        items.map_values(|x: Seq<char>| "- "@ + x)
    }
}

pub proof fn lemma_bullets_join(items: Seq<Seq<char>>)
    ensures
        crate::horizons::bullet_lines(items) == join_lines(
            items.map_values(|x: Seq<char>| "- "@ + x),
        ),
    decreases items.len(),
{
    reveal_strlit("\n");
    if items.len() > 0 {
        lemma_bullets_join(items.drop_last());
        assert(items.map_values(|x: Seq<char>| "- "@ + x).drop_last() =~= items.drop_last().map_values(
            |x: Seq<char>| "- "@ + x,
        ));
        assert(crate::horizons::bullet_lines(items) =~= join_lines(
            items.map_values(|x: Seq<char>| "- "@ + x),
        ));
    }
}

proof fn lemma_list_md(items: Seq<Seq<char>>)
    ensures
        list_md(items) + "\n"@ == join_lines(list_ls(items).push(Seq::<char>::empty())),
{
    reveal_strlit("\n");
    let e: Seq<char> = seq![];
    lemma_join_lines_one(e);
    lemma_join_lines_concat(list_ls(items), seq![e]);
    assert(list_ls(items).push(e) =~= list_ls(items) + seq![e]);
    if items.len() == 0 {
        lemma_join_lines_one(e);
        assert(list_ls(items) =~= seq![e]);
    } else {
        lemma_bullets_join(items);
    }
}

#[verifier::rlimit(80)]
proof fn lemma_board_md_lines(b: BoardView, date: Seq<char>)
    requires
        board_lines_fit(b),
    ensures
        ({
            let e: Seq<char> = seq![];
            board_md(b, date) == join_lines(
                seq!["# Weekly Board \u{2014} "@ + date] + (seq![e] + seq!["## Partner Notes"@]
                    + partner_ls(b) + seq!["## Accomplishments"@] + list_ls(b.accomplishments).push(
                    e,
                ) + seq!["## Struggles"@] + list_ls(b.struggles).push(e)),
            )
        }),
{
    reveal_strlit("\n\n");
    reveal_strlit("\n");
    reveal_strlit("## Partner Notes\n");
    reveal_strlit("## Partner Notes");
    reveal_strlit("## Accomplishments\n");
    reveal_strlit("## Accomplishments");
    reveal_strlit("## Struggles\n");
    reveal_strlit("## Struggles");
    reveal_strlit("/10\n");
    reveal_strlit("/10");
    let e: Seq<char> = seq![];
    let t = "# Weekly Board \u{2014} "@ + date;
    let pn = "## Partner Notes"@;
    let acc = "## Accomplishments"@;
    let stl = "## Struggles"@;
    let score = match b.score {
        Some(_) => seq![score_text(b)],
        None => seq![],
    };
    let notes = match b.partner_notes {
        Some(n) => seq![e] + lines(n),
        None => seq![],
    };
    lemma_join_lines_one(t);
    lemma_join_lines_one(e);
    lemma_join_lines_one(pn);
    lemma_join_lines_one(acc);
    lemma_join_lines_one(stl);
    // the score line
    assert(score_md(b) == join_lines(score)) by {
        if b.score is Some {
            lemma_join_lines_one(score_text(b));
        } else {
            assert(score =~= Seq::<Seq<char>>::empty());
        }
    }
    // the notes
    assert(join_lines(notes) == match b.partner_notes {
        Some(n) => "\n"@ + n + "\n"@,
        None => seq![],
    }) by {
        match b.partner_notes {
            Some(n) => {
                if lines(n).len() == 0 {
                    assert(join(lines(n), seq!['\n']) =~= Seq::<char>::empty());
                }
                lemma_join_lines_join(lines(n));
                lemma_join_lines_concat(seq![e], lines(n));
            },
            None => {
                assert(notes =~= Seq::<Seq<char>>::empty());
            },
        }
    }
    lemma_join_lines_concat(score, notes);
    lemma_join_lines_concat(score + notes, seq![e]);
    assert(join_lines(partner_ls(b)) == score_md(b) + match b.partner_notes {
        Some(n) => "\n"@ + n + "\n"@,
        None => seq![],
    } + "\n"@);
    lemma_list_md(b.accomplishments);
    lemma_list_md(b.struggles);
    let al = list_ls(b.accomplishments).push(e);
    let sl = list_ls(b.struggles).push(e);
    lemma_join_lines_concat(seq![e], seq![pn]);
    lemma_join_lines_concat(seq![e] + seq![pn], partner_ls(b));
    lemma_join_lines_concat(seq![e] + seq![pn] + partner_ls(b), seq![acc]);
    lemma_join_lines_concat(seq![e] + seq![pn] + partner_ls(b) + seq![acc], al);
    lemma_join_lines_concat(seq![e] + seq![pn] + partner_ls(b) + seq![acc] + al, seq![stl]);
    lemma_join_lines_concat(seq![e] + seq![pn] + partner_ls(b) + seq![acc] + al + seq![stl], sl);
    let rest = seq![e] + seq![pn] + partner_ls(b) + seq![acc] + al + seq![stl] + sl;
    lemma_join_lines_concat(seq![t], rest);
    assert(board_md(b, date) =~= join_lines(seq![t]) + join_lines(rest));
}

/// The lines after a first line (which may end with a carriage return).
proof fn lemma_lines_after(first: Seq<char>, rest: Seq<Seq<char>>)
    requires
        first.len() > 0,
        first.last() == '\n',
        no_newline(first.drop_last()),
        forall|i: int| 0 <= i < rest.len() ==> plain_line(#[trigger] rest[i]),
    ensures
        lines(first + join_lines(rest)) == seq![strip_cr(first.drop_last())] + rest,
    decreases rest.len(),
{
    if rest.len() == 0 {
        assert(first + join_lines(rest) =~= first);
        lemma_split_line_first(first);
        assert(seq![strip_cr(first.drop_last())] + rest =~= seq![strip_cr(first.drop_last())]);
    } else {
        let init = rest.drop_last();
        assert forall|i: int| 0 <= i < init.len() implies plain_line(#[trigger] init[i]) by {
            assert(init[i] == rest[i]);
        }
        lemma_lines_after(first, init);
        lemma_split_after(first, init);
        let p = first + join_lines(init);
        let l = rest.last();
        assert(plain_line(rest[rest.len() - 1]));
        assert(first + join_lines(rest) =~= p + l + seq!['\n']);
        crate::text::lemma_line_split_append_pub(p, l);
        assert((p + l + seq!['\n']).drop_last() =~= p + l);
        assert(Seq::<char>::empty() + l =~= l);
        assert((seq![strip_cr(first.drop_last())] + init).push(l) =~= seq![strip_cr(
            first.drop_last(),
        )] + rest);
    }
}

proof fn lemma_split_line_first(first: Seq<char>)
    requires
        first.len() > 0,
        first.last() == '\n',
        no_newline(first.drop_last()),
    ensures
        line_split(first) == (seq![strip_cr(first.drop_last())], Seq::<char>::empty()),
{
    crate::text::lemma_line_split_append_pub(Seq::<char>::empty(), first.drop_last());
    assert(Seq::<char>::empty() + first.drop_last() =~= first.drop_last());
    assert(line_split(Seq::<char>::empty()) == (Seq::<Seq<char>>::empty(), Seq::<char>::empty()));
}

proof fn lemma_split_after(first: Seq<char>, rest: Seq<Seq<char>>)
    requires
        first.len() > 0,
        first.last() == '\n',
        no_newline(first.drop_last()),
        forall|i: int| 0 <= i < rest.len() ==> plain_line(#[trigger] rest[i]),
    ensures
        line_split(first + join_lines(rest)) == (
            seq![strip_cr(first.drop_last())] + rest,
            Seq::<char>::empty(),
        ),
    decreases rest.len(),
{
    if rest.len() == 0 {
        assert(first + join_lines(rest) =~= first);
        lemma_split_line_first(first);
        assert(seq![strip_cr(first.drop_last())] + rest =~= seq![strip_cr(first.drop_last())]);
    } else {
        let init = rest.drop_last();
        assert forall|i: int| 0 <= i < init.len() implies plain_line(#[trigger] init[i]) by {
            assert(init[i] == rest[i]);
        }
        lemma_split_after(first, init);
        let p = first + join_lines(init);
        let l = rest.last();
        assert(plain_line(rest[rest.len() - 1]));
        assert(first + join_lines(rest) =~= p + l + seq!['\n']);
        crate::text::lemma_line_split_append_pub(p, l);
        assert((p + l + seq!['\n']).drop_last() =~= p + l);
        assert(Seq::<char>::empty() + l =~= l);
        assert((seq![strip_cr(first.drop_last())] + init).push(l) =~= seq![strip_cr(
            first.drop_last(),
        )] + rest);
    }
}

/// Lines that are neither `## ` headings nor `# ` titles are gathered in the
/// current section.
proof fn lemma_scan_plain(st: BoardScan, m: Seq<Seq<char>>)
    requires
        forall|i: int| 0 <= i < m.len() ==> body_line(#[trigger] m[i]),
    ensures
        m.fold_left(st, |s: BoardScan, l: Seq<char>| board_step(s, l)) == (BoardScan {
            lines: st.lines + m,
            ..st
        }),
    decreases m.len(),
{
    if m.len() == 0 {
        assert(st.lines + m =~= st.lines);
    } else {
        let init = m.drop_last();
        assert forall|i: int| 0 <= i < init.len() implies body_line(#[trigger] init[i]) by {
            assert(init[i] == m[i]);
        }
        lemma_scan_plain(st, init);
        assert(body_line(m[m.len() - 1]));
        assert((st.lines + init).push(m.last()) =~= st.lines + m);
    }
}

/// A line that is neither a `## ` heading nor a `# ` title, and that `lines`
/// gives back unchanged.
pub open spec fn body_line(l: Seq<char>) -> bool {
    plain_line(l) && !starts_with(l, "## "@) && !starts_with(l, "# "@)
}

proof fn lemma_partner_plain(b: BoardView)
    requires
        board_lines_fit(b),
    ensures
        forall|i: int| 0 <= i < partner_ls(b).len() ==> body_line(#[trigger] partner_ls(b)[i]),
{
    reveal_strlit("## ");
    reveal_strlit("# ");
    let e: Seq<char> = seq![];
    assert(body_line(e));
    if b.score is Some {
        lemma_score_text(b);
    }
    assert forall|i: int| 0 <= i < partner_ls(b).len() implies body_line(#[trigger] partner_ls(b)[i]) by {
        let score = match b.score {
            Some(_) => seq![score_text(b)],
            None => seq![],
        };
        let notes = match b.partner_notes {
            Some(n) => seq![e] + lines(n),
            None => seq![],
        };
        if i < score.len() {
            assert(partner_ls(b)[i] == score_text(b));
        } else if i < score.len() + notes.len() {
            assert(partner_ls(b)[i] == notes[i - score.len()]);
            match b.partner_notes {
                Some(n) => {
                    if i > score.len() {
                        assert(notes[i - score.len()] == lines(n)[i - score.len() - 1]);
                        assert(note_line(lines(n)[i - score.len() - 1]));
                    }
                },
                None => {},
            }
        } else {
            assert(partner_ls(b)[i] == e);
        }
    }
}

proof fn lemma_list_plain(items: Seq<Seq<char>>)
    requires
        forall|i: int| 0 <= i < items.len() ==> item_line(#[trigger] items[i]),
    ensures
        forall|i: int|
            0 <= i < list_ls(items).push(Seq::<char>::empty()).len() ==> body_line(
                #[trigger] list_ls(items).push(Seq::<char>::empty())[i],
            ),
{
    reveal_strlit("## ");
    reveal_strlit("# ");
    reveal_strlit("- ");
    let e: Seq<char> = seq![];
    let ls = list_ls(items).push(e);
    assert forall|i: int| 0 <= i < ls.len() implies body_line(#[trigger] ls[i]) by {
        if i < list_ls(items).len() && items.len() > 0 {
            let x = items[i];
            assert(item_line(x));
            let l = "- "@ + x;
            assert(ls[i] == l);
            assert(l.last() == x.last());
            assert(l.subrange(0, 3)[0] == '-');
            assert(l.subrange(0, 2)[0] == '-');
            assert forall|j: int| 0 <= j < l.len() implies l[j] != '\n' by {
                if j >= 2 {
                    assert(l[j] == x[j - 2]);
                }
            }
            assert(body_line(l));
        } else {
            assert(ls[i] == e);
            assert(body_line(e));
        }
    }
}

proof fn lemma_dash_items_concat(a: Seq<Seq<char>>, b: Seq<Seq<char>>)
    ensures
        dash_items(a + b) == dash_items(a) + dash_items(b),
    decreases b.len(),
{
    if b.len() == 0 {
        assert(a + b =~= a);
        assert(dash_items(a) + dash_items(b) =~= dash_items(a));
    } else {
        assert((a + b).drop_last() =~= a + b.drop_last());
        lemma_dash_items_concat(a, b.drop_last());
        assert(dash_items(a + b) =~= dash_items(a) + dash_items(b));
    }
}

proof fn lemma_list_items(items: Seq<Seq<char>>)
    requires
        forall|i: int| 0 <= i < items.len() ==> item_line(#[trigger] items[i]),
    ensures
        dash_items(list_ls(items).push(Seq::<char>::empty())) == items,
    decreases items.len(),
{
    reveal_strlit("- ");
    let e: Seq<char> = seq![];
    assert(trim(e) == e);
    assert(strip_prefix(e, "- "@) is None);
    assert(dash_items(seq![e]) == Seq::<Seq<char>>::empty()) by {
        assert(seq![e].drop_last() =~= Seq::<Seq<char>>::empty());
        assert(seq![e].last() == e);
        assert(dash_items(Seq::<Seq<char>>::empty()) == Seq::<Seq<char>>::empty());
    }
    if items.len() == 0 {
        assert(list_ls(items).push(e) =~= seq![e, e]);
        assert(seq![e, e].drop_last() =~= seq![e]);
    } else {
        lemma_item_dash(items);
        assert(list_ls(items).push(e) =~= list_ls(items) + seq![e]);
        lemma_dash_items_concat(list_ls(items), seq![e]);
        assert(dash_items(list_ls(items)) + Seq::<Seq<char>>::empty() =~= dash_items(list_ls(items)));
    }
}

proof fn lemma_item_dash(items: Seq<Seq<char>>)
    requires
        forall|i: int| 0 <= i < items.len() ==> item_line(#[trigger] items[i]),
    ensures
        dash_items(items.map_values(|x: Seq<char>| "- "@ + x)) == items,
    decreases items.len(),
{
    reveal_strlit("- ");
    if items.len() > 0 {
        let init = items.drop_last();
        assert forall|i: int| 0 <= i < init.len() implies item_line(#[trigger] init[i]) by {
            assert(init[i] == items[i]);
        }
        lemma_item_dash(init);
        let m = items.map_values(|x: Seq<char>| "- "@ + x);
        assert(m.drop_last() =~= init.map_values(|x: Seq<char>| "- "@ + x));
        let x = items.last();
        assert(item_line(items[items.len() - 1]));
        let l = "- "@ + x;
        assert(l[0] == '-');
        assert(l.last() == x.last());
        crate::text::lemma_trim_id(l);
        assert(l.subrange(0, 2) =~= "- "@);
        assert(l.skip(2) =~= x);
        assert(init.push(x) =~= items);
    }
}

proof fn lemma_digit_char(d: int)
    requires
        0 <= d < 10,
    ensures
        is_digit(digit_char(d)),
        digit_value(digit_char(d)) == d,
{
}

proof fn lemma_decimal(n: nat)
    ensures
        decimal(n).len() > 0,
        all_digits(decimal(n)),
        digits_value(decimal(n)) == n,
    decreases n,
{
    lemma_digit_char((n % 10) as int);
    if n < 10 {
        lemma_digit_char(n as int);
        assert(decimal(n).drop_last() =~= Seq::<char>::empty());
        assert(digits_value(Seq::<char>::empty()) == 0);
        assert(decimal(n).last() == digit_char(n as int));
        assert(digits_value(decimal(n)) == n);
    }
    if n >= 10 {
        lemma_decimal(n / 10);
        let d = decimal(n / 10);
        assert(decimal(n).drop_last() =~= d);
        assert(decimal(n).last() == digit_char((n % 10) as int));
        assert((n / 10) * 10 + n % 10 == n);
        assert forall|i: int| 0 <= i < decimal(n).len() implies is_digit(decimal(n)[i]) by {
            if i < d.len() {
                assert(decimal(n)[i] == d[i]);
            }
        }
    }
}

/// What the score line holds, character by character.
proof fn lemma_score_text(b: BoardView)
    requires
        board_lines_fit(b),
        b.score is Some,
    ensures
        score_text(b).len() > 0,
        !starts_with(score_text(b), "## "@),
        !starts_with(score_text(b), "# "@),
        plain_line(score_text(b)),
{
    reveal_strlit("Score: ");
    reveal_strlit("/10");
    reveal_strlit("/10 \u{2014} ");
    reveal_strlit("## ");
    reveal_strlit("# ");
    let st = score_text(b);
    lemma_decimal(b.score->0 as nat);
    let dec = decimal(b.score->0 as nat);
    assert(st[0] == 'S');
    assert(st.subrange(0, 3)[0] == 'S');
    assert(st.subrange(0, 2)[0] == 'S');
    assert(forall|i: int| 0 <= i < dec.len() ==> is_digit(dec[i]));
    match b.score_note {
        Some(n) if n.len() > 0 => {
            assert(st =~= "Score: "@ + dec + "/10 \u{2014} "@ + n);
            assert(st.last() == n.last());
            crate::text::lemma_trimmed_ends(n);
            assert forall|i: int| 0 <= i < st.len() implies st[i] != '\n' by {
                if i >= 7 + dec.len() + 6 {
                    assert(st[i] == n[i - (7 + dec.len() + 6)]);
                } else if 7 <= i < 7 + dec.len() {
                    assert(st[i] == dec[i - 7]);
                }
            }
        },
        _ => {
            assert(st =~= "Score: "@ + dec + "/10"@);
            assert forall|i: int| 0 <= i < st.len() implies st[i] != '\n' by {
                if 7 <= i < 7 + dec.len() {
                    assert(st[i] == dec[i - 7]);
                }
            }
        },
    }
}

/// Reading the partner notes section gives back the score, its note and the notes.
proof fn lemma_partner(b: BoardView)
    requires
        board_lines_fit(b),
    ensures
        partner_flush(empty_board(), partner_ls(b)) == (BoardView {
            score: b.score,
            score_note: b.score_note,
            partner_notes: b.partner_notes,
            accomplishments: seq![],
            struggles: seq![],
        }),
{
    reveal_strlit("\n");
    let e: Seq<char> = seq![];
    let ls = partner_ls(b);
    let nl = seq!['\n'];
    assert("\n"@ == nl);
    match (b.score, b.partner_notes) {
        (None, None) => {
            assert(ls =~= seq![e]);
            assert(join(ls, "\n"@) == e);
            assert(trim(e) == e);
        },
        (Some(s), None) => {
            assert(ls =~= seq![score_text(b), e]);
            lemma_score_line(b);
            lemma_score_text_trim(b);
            assert(seq![score_text(b), e].drop_last() =~= seq![score_text(b)]);
            assert(join(seq![score_text(b)], nl) == score_text(b));
            assert(join(ls, nl) =~= score_text(b) + nl + e);
            crate::text::lemma_trim_wrap(e, score_text(b), nl + e);
            assert(rest_lines(ls) =~= seq![e]);
            assert(trim(join(seq![e], nl)) == e);
        },
        (None, Some(n)) => {
            let ln = lines(n);
            assert(ls =~= seq![e] + ln + seq![e]);
            crate::text::lemma_trimmed_ends(n);
            if ln.len() == 0 {
                assert(join(ln, nl) =~= Seq::<char>::empty());
            }
            lemma_join_concat(seq![e], ln, nl);
            lemma_join_concat(seq![e] + ln, seq![e], nl);
            assert(join(ls, nl) =~= nl + n + nl);
            crate::text::lemma_trim_wrap(nl, n, nl);
            assert(ls[0] == e);
            assert(find(e, "Score:"@) is None) by {
                reveal_strlit("Score:");
                crate::text::lemma_find(e, "Score:"@);
            }
            assert(rest_lines(ls) =~= ln + seq![e]);
            lemma_join_concat(ln, seq![e], nl);
            assert(join(rest_lines(ls), nl) =~= n + nl + e);
            crate::text::lemma_trim_wrap(e, n, nl + e);
        },
        (Some(s), Some(n)) => {
            let ln = lines(n);
            let st = score_text(b);
            assert(ls =~= seq![st] + (seq![e] + ln + seq![e]));
            crate::text::lemma_trimmed_ends(n);
            if ln.len() == 0 {
                assert(join(ln, nl) =~= Seq::<char>::empty());
            }
            lemma_score_line(b);
            lemma_score_text_trim(b);
            lemma_join_concat(seq![e], ln, nl);
            lemma_join_concat(seq![e] + ln, seq![e], nl);
            lemma_join_concat(seq![st], seq![e] + ln + seq![e], nl);
            assert(join(ls, nl) =~= st + (nl + (nl + n + nl)));
            crate::text::lemma_trim_nonempty(st + (nl + (nl + n + nl)));
            assert(rest_lines(ls) =~= seq![e] + ln + seq![e]);
            assert(join(rest_lines(ls), nl) =~= nl + n + nl);
            crate::text::lemma_trim_wrap(nl, n, nl);
        },
    }
}

proof fn lemma_score_text_trim(b: BoardView)
    requires
        board_lines_fit(b),
        b.score is Some,
    ensures
        score_text(b).len() > 0,
        !is_ws(score_text(b)[0]),
        !is_ws(score_text(b).last()),
{
    reveal_strlit("Score: ");
    reveal_strlit("/10");
    reveal_strlit("/10 \u{2014} ");
    let st = score_text(b);
    lemma_decimal(b.score->0 as nat);
    let dec = decimal(b.score->0 as nat);
    assert(st[0] == 'S');
    match b.score_note {
        Some(n) if n.len() > 0 => {
            assert(st =~= "Score: "@ + dec + "/10 \u{2014} "@ + n);
            crate::text::lemma_trimmed_ends(n);
            assert(st.last() == n.last());
        },
        _ => {
            assert(st =~= "Score: "@ + dec + "/10"@);
            assert(st.last() == '0');
        },
    }
}

/// Reading the score line gives back the score and its note.
proof fn lemma_score_line(b: BoardView)
    requires
        board_lines_fit(b),
        b.score is Some,
    ensures
        score_line(empty_board(), score_text(b)) == (BoardView {
            score: b.score,
            score_note: b.score_note,
            ..empty_board()
        }),
{
    reveal_strlit("Score: ");
    reveal_strlit("Score:");
    reveal_strlit("/10");
    reveal_strlit("/10 \u{2014} ");
    reveal_strlit(" \u{2014} ");
    reveal_strlit(" - ");
    let s = b.score->0;
    let st = score_text(b);
    lemma_decimal(s as nat);
    let dec = decimal(s as nat);
    let k = dec.len() as int;
    // "Score:" is found at the start
    assert(st.subrange(0, 6) =~= "Score:"@);
    crate::text::lemma_find_first(st, "Score:"@, 0);
    // the number after it
    let note_part = match b.score_note {
        Some(n) if n.len() > 0 => "/10 \u{2014} "@ + n,
        _ => "/10"@,
    };
    assert(st =~= "Score: "@ + dec + note_part);
    assert(st.skip(6) =~= seq![' '] + (dec + note_part));
    assert(!is_ws(dec[0]));
    let dn = dec + note_part;
    assert(dn.last() == note_part.last());
    match b.score_note {
        Some(n) if n.len() > 0 => {
            crate::text::lemma_trimmed_ends(n);
            assert(note_part.last() == n.last());
        },
        _ => {
            assert(note_part.last() == '0');
        },
    }
    crate::text::lemma_trim_wrap(seq![' '], dn, seq![]);
    assert(seq![' '] + dn + Seq::<char>::empty() =~= st.skip(6));
    let after = dn;
    assert(after.subrange(k, k + 1) =~= seq!['/']);
    assert forall|j: int| 0 <= j < k implies !crate::text::occurs_at(after, seq!['/'], j) by {
        assert(after[j] == dec[j]);
        assert(after.subrange(j, j + 1)[0] == after[j]);
    }
    crate::text::lemma_find_first(after, seq!['/'], k);
    assert(after.take(k) =~= dec);
    crate::text::lemma_trim_id(dec);
    assert(unsigned_digits(dec) == Some(dec));
    // the note after the dash
    match b.score_note {
        Some(n) if n.len() > 0 => {
            let d = 7 + k + 3;
            assert(st.subrange(d, d + 3) =~= " \u{2014} "@);
            assert forall|j: int| 0 <= j < d implies !crate::text::occurs_at(st, " \u{2014} "@, j) by {
                if crate::text::occurs_at(st, " \u{2014} "@, j) {
                    assert(st.subrange(j, j + 3)[1] == st[j + 1]);
                    if j + 1 < 7 {
                    } else if j + 1 < 7 + k {
                        assert(st[j + 1] == dec[j + 1 - 7]);
                    } else {
                    }
                }
            }
            crate::text::lemma_find_first(st, " \u{2014} "@, d);
            assert(st.skip(d + 3) =~= n);
        },
        _ => {
            assert forall|j: int| 0 <= j implies !crate::text::occurs_at(st, " \u{2014} "@, j) by {
                if crate::text::occurs_at(st, " \u{2014} "@, j) {
                    assert(st.subrange(j, j + 3)[0] == st[j]);
                    assert(st.subrange(j, j + 3)[1] == st[j + 1]);
                    if 7 <= j + 1 < 7 + k {
                        assert(st[j + 1] == dec[j + 1 - 7]);
                    }
                    if 7 <= j < 7 + k {
                        assert(st[j] == dec[j - 7]);
                    }
                }
            }
            crate::text::lemma_find_none(st, " \u{2014} "@);
            assert forall|j: int| 0 <= j implies !crate::text::occurs_at(st, " - "@, j) by {
                if crate::text::occurs_at(st, " - "@, j) {
                    assert(st.subrange(j, j + 3)[0] == st[j]);
                    assert(st.subrange(j, j + 3)[1] == st[j + 1]);
                    if 7 <= j + 1 < 7 + k {
                        assert(st[j + 1] == dec[j + 1 - 7]);
                    }
                    if 7 <= j < 7 + k {
                        assert(st[j] == dec[j - 7]);
                    }
                }
            }
            crate::text::lemma_find_none(st, " - "@);
        },
    }
}

} // verus!
