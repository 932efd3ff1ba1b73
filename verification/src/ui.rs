//! What the terminal screens show, as text: centring, wrapping, truncating
//! to a display width, section dividers, styled note lines, the keys the
//! screens answer to and the palette they are drawn in.
use vstd::prelude::*;

use crate::external::{char_width, unicode_char_width};
use crate::partner::{wrap_lines, wrap_paragraph};
use crate::text::{
    byte_len, byte_len_of, byte_len_sat, chars_of, concat, contains, contains_chars, join, join_chars, owned,
    push_all, sat_sub, seqs, slice, spaces, split_chars, split_from, starts_with,
    starts_with_chars, string_of, strs, trim_end, trim_end_chars, trim_start, trim_start_chars,
};

verus! {

// ── Palette and keys ────────────────────────────────────────────────────

/// The colours of the palette the screens are drawn in.
#[derive(Debug, Clone, Copy, PartialEq, Eq, Structural)]
pub enum Tone {
    Bg,
    BgLight,
    BgHighlight,
    Border,
    Dim,
    SysText,
    Fg,
    FgBright,
    Accent,
    AccentSoft,
    Code,
    Quote,
    Link,
    Error,
    Purple,
    Yellow,
    White,
    Cyan,
    DarkGrey,
}

/// A key the screens answer to.
#[derive(Debug, Clone, Copy, PartialEq, Eq, Structural)]
pub enum Key {
    Char(char),
    Enter,
    Escape,
    Left,
    Right,
    Up,
    Down,
    Backspace,
    CtrlC,
    CtrlD,
    CtrlU,
}

/// A line of a screen: its text, its colour and whether it is bold.
pub type StyledLine = (String, Tone, bool);

pub open spec fn styled_views(v: Seq<StyledLine>) -> Seq<(Seq<char>, Tone, bool)> {
    v.map_values(|l: StyledLine| (l.0@, l.1, l.2))
}

// ── Centring and wrapping ───────────────────────────────────────────────

/// A text centred in `width` columns: led by half the free columns in
/// spaces. Its length is counted in characters and taken modulo 2^16, as a
/// conversion to `u16` takes it.
pub open spec fn centered(text: Seq<char>, width: u16) -> Seq<char> {
    let n = text.len() % 65536;
    if n >= width {
        text
    } else {
        spaces(((width - n) / 2) as nat) + text
    }
}

pub fn center_text(text: &str, width: u16) -> (r: String)
    ensures
        r@ == centered(text@, width),
{
    let v = chars_of(text);
    let n: u16 = (v.len() % 65536) as u16;
    if n >= width {
        return owned(text);
    }
    let pad = (width - n) / 2;
    let mut out: Vec<char> = Vec::new();
    let mut i: u16 = 0;
    while i < pad
        invariant
            i <= pad,
            out@ == spaces(i as nat),
        decreases pad - i,
    {
        out.push(' ');
        i = i + 1;
        assert(out@ =~= spaces(i as nat));
    }
    push_all(&mut out, &v);
    string_of(&out)
}

/// A text wrapped at `width` bytes: whole when it fits, else its words
/// wrapped as a paragraph.
pub open spec fn word_wrapped(text: Seq<char>, width: int) -> Seq<Seq<char>> {
    if byte_len(text) <= width {
        seq![text]
    } else {
        wrap_lines(text, width)
    }
}

pub fn word_wrap(text: &str, width: usize) -> (r: Vec<String>)
    requires
        byte_len(text@) <= usize::MAX,
    ensures
        strs(r@) == word_wrapped(text@, width as int),
{
    let v = chars_of(text);
    if byte_len_of(&v) <= width {
        let mut r: Vec<String> = Vec::new();
        r.push(owned(text));
        assert(strs(r@) =~= seq![text@]);
        return r;
    }
    wrap_paragraph(text, width)
}

// ── Display width ───────────────────────────────────────────────────────

/// The columns a character takes: its Unicode width, 1 where it has none.
pub open spec fn columns(c: char) -> nat {
    match char_width(c) {
        Some(w) => w,
        None => 1,
    }
}

/// The longest start of a text that fits in `show` columns.
pub open spec fn fit_columns(s: Seq<char>, show: int) -> Seq<char>
    decreases s.len(),
{
    if s.len() == 0 || columns(s[0]) > show {
        seq![]
    } else {
        seq![s[0]] + fit_columns(s.drop_first(), show - columns(s[0]))
    }
}

proof fn lemma_fit_columns_step(s: Seq<char>, i: int, show: int, col: int)
    requires
        0 <= i < s.len(),
        fit_columns(s, show) == s.take(i) + fit_columns(s.skip(i), show - col),
        columns(s[i]) <= show - col,
    ensures
        fit_columns(s, show) == s.take(i + 1) + fit_columns(s.skip(i + 1), show - col - columns(
            s[i],
        )),
{
    let t = s.skip(i);
    assert(t[0] == s[i]);
    assert(t.drop_first() =~= s.skip(i + 1));
    assert(s.take(i) + seq![s[i]] =~= s.take(i + 1));
    assert(s.take(i) + (seq![s[i]] + fit_columns(s.skip(i + 1), show - col - columns(s[i])))
        =~= s.take(i + 1) + fit_columns(s.skip(i + 1), show - col - columns(s[i])));
}

/// A text cut to the characters that fit in `show` columns.
pub fn truncate_display(text: &str, show: u16) -> (r: String)
    ensures
        r@ == fit_columns(text@, show as int),
{
    let v = chars_of(text);
    let limit = show as usize;
    let mut col: usize = 0;
    let mut i: usize = 0;
    assert(v@.take(0) + v@.skip(0) =~= v@);
    assert(v@.skip(0) =~= v@);
    assert(v@.take(0) + fit_columns(v@.skip(0), limit as int) =~= fit_columns(v@, show as int));
    while i < v.len()
        invariant
            i <= v.len(),
            v@ == text@,
            col <= limit,
            limit == show as usize,
            fit_columns(v@, limit as int) == v@.take(i as int) + fit_columns(
                v@.skip(i as int),
                limit - col,
            ),
        decreases v.len() - i,
    {
        let w = match unicode_char_width(v[i]) {
            Some(w) => w,
            None => 1,
        };
        assert(w == columns(v@[i as int]));
        if w > limit - col {
            let ghost t = v@.skip(i as int);
            assert(t[0] == v@[i as int]);
            assert(fit_columns(t, limit - col) =~= seq![]);
            assert(v@.take(i as int) + seq![] =~= v@.take(i as int));
            let head = slice(&v, 0, i);
            assert(head@ =~= v@.take(i as int));
            return string_of(&head);
        }
        proof {
            lemma_fit_columns_step(v@, i as int, limit as int, col as int);
        }
        col = col + w;
        i = i + 1;
    }
    assert(v@.skip(v.len() as int) =~= seq![]);
    assert(v@.take(v.len() as int) =~= v@);
    assert(v@ + seq![] =~= v@);
    owned(text)
}

// ── Dividers and styled lines ───────────────────────────────────────────

/// `── label ───…`, the dashes after the label filling it out to 50 bytes.
pub open spec fn divider(label: Seq<char>) -> Seq<char> {
    seq!['\u{2500}', '\u{2500}', ' '] + label + seq![' '] + Seq::new(
        sat_sub(50, (7 + byte_len(label) + 2) as int) as nat,
        |i: int| '\u{2500}',
    )
}

pub fn divider_line(label: &str) -> (r: String)
    ensures
        r@ == divider(label@),
{
    let v = chars_of(label);
    let lb = byte_len_sat(&v);
    let n: usize = if lb <= 41 {
        41 - lb
    } else {
        0
    };
    let mut out: Vec<char> = vec!['\u{2500}', '\u{2500}', ' '];
    push_all(&mut out, &v);
    out.push(' ');
    let ghost o0 = out@;
    let mut i: usize = 0;
    while i < n
        invariant
            i <= n,
            out@ == o0 + Seq::new(i as nat, |k: int| '\u{2500}'),
        decreases n - i,
    {
        out.push('\u{2500}');
        i = i + 1;
        assert(out@ =~= o0 + Seq::new(i as nat, |k: int| '\u{2500}'));
    }
    assert(o0 =~= seq!['\u{2500}', '\u{2500}', ' '] + label@ + seq![' ']);
    string_of(&out)
}

/// What `str::replace(p, to)` returns: the pieces between the occurrences of
/// `p`, joined by `to`.
pub open spec fn replaced(s: Seq<char>, p: Seq<char>, to: Seq<char>) -> Seq<char> {
    join(split_from(s, p, 0), to)
}

/// A text with `p` taken off its start as often as it is there
/// (`str::trim_start_matches`).
pub open spec fn strip_all_prefix(s: Seq<char>, p: Seq<char>) -> Seq<char>
    decreases s.len(),
{
    if p.len() > 0 && starts_with(s, p) {
        strip_all_prefix(s.skip(p.len() as int), p)
    } else {
        s
    }
}

fn strip_all_prefix_chars(v: &Vec<char>, p: &Vec<char>) -> (r: Vec<char>)
    ensures
        r@ == strip_all_prefix(v@, p@),
{
    let mut i: usize = 0;
    assert(v@.skip(0) =~= v@);
    while p.len() > 0 && p.len() <= v.len() - i && starts_with_chars(&slice(v, i, v.len()), p)
        invariant
            i <= v.len(),
            strip_all_prefix(v@, p@) == strip_all_prefix(v@.skip(i as int), p@),
        decreases v.len() - i,
    {
        assert(v@.subrange(i as int, v.len() as int) =~= v@.skip(i as int));
        assert(v@.skip(i as int).skip(p@.len() as int) =~= v@.skip(i + p.len()));
        i = i + p.len();
    }
    let r = slice(v, i, v.len());
    assert(r@ =~= v@.skip(i as int));
    r
}

/// A line of text, shown after `prefix`: `**` marks taken out, and the
/// line bright and bold where there were any.
pub open spec fn inline_styled(prefix: Seq<char>, text: Seq<char>) -> (Seq<char>, Tone, bool) {
    let bold = contains(text, "**"@);
    (prefix + replaced(text, "**"@, seq![]), if bold {
        Tone::FgBright
    } else {
        Tone::Fg
    }, bold)
}

/// How a line of partner notes is shown: headings indented and bold, list
/// items as bullets, other text indented, `**` bold marks taken out.
pub open spec fn styled_line(line: Seq<char>) -> (Seq<char>, Tone, bool) {
    let t = trim_end(line);
    if t.len() == 0 {
        (seq![], Tone::Fg, false)
    } else if starts_with(t, "### "@) {
        ("  "@ + strip_all_prefix(t, "### "@), Tone::AccentSoft, true)
    } else if starts_with(t, "## "@) {
        ("  "@ + strip_all_prefix(t, "## "@), Tone::Accent, true)
    } else if starts_with(t, "- "@) || starts_with(t, "* "@) {
        inline_styled("  \u{2022} "@, trim_start(t.skip(2)))
    } else {
        inline_styled("  "@, t)
    }
}

fn push_inline_styled(out: &mut Vec<StyledLine>, prefix: &Vec<char>, text: &Vec<char>)
    ensures
        styled_views(final(out)@) == styled_views(old(out)@).push(inline_styled(prefix@, text@)),
{
    let marks = chars_of("**");
    proof {
        reveal_strlit("**");
    }
    let pieces = split_chars(text, &marks);
    let cleaned = join_chars(&pieces, &Vec::new());
    let has_bold = contains_chars(text, &marks);
    let display = concat(prefix, &cleaned);
    let tone = if has_bold {
        Tone::FgBright
    } else {
        Tone::Fg
    };
    let ghost o0 = styled_views(out@);
    out.push((string_of(&display), tone, has_bold));
    assert(styled_views(out@) =~= o0.push(inline_styled(prefix@, text@)));
}

/// Adds the shown form of a line of partner notes.
pub fn push_styled_line(out: &mut Vec<StyledLine>, line: &str)
    ensures
        styled_views(final(out)@) == styled_views(old(out)@).push(styled_line(line@)),
{
    let t = trim_end_chars(&chars_of(line));
    let ghost o0 = styled_views(out@);
    if t.len() == 0 {
        out.push((string_of(&Vec::new()), Tone::Fg, false));
        assert(styled_views(out@) =~= o0.push(styled_line(line@)));
        return ;
    }
    let h3 = chars_of("### ");
    if starts_with_chars(&t, &h3) {
        let text = strip_all_prefix_chars(&t, &h3);
        out.push((string_of(&concat(&chars_of("  "), &text)), Tone::AccentSoft, true));
        assert(styled_views(out@) =~= o0.push(styled_line(line@)));
        return ;
    }
    let h2 = chars_of("## ");
    if starts_with_chars(&t, &h2) {
        let text = strip_all_prefix_chars(&t, &h2);
        out.push((string_of(&concat(&chars_of("  "), &text)), Tone::Accent, true));
        assert(styled_views(out@) =~= o0.push(styled_line(line@)));
        return ;
    }
    let dash = chars_of("- ");
    let star = chars_of("* ");
    if starts_with_chars(&t, &dash) || starts_with_chars(&t, &star) {
        proof {
            reveal_strlit("- ");
            reveal_strlit("* ");
        }
        let rest = slice(&t, 2, t.len());
        assert(rest@ =~= t@.skip(2));
        push_inline_styled(out, &chars_of("  \u{2022} "), &trim_start_chars(&rest));
        return ;
    }
    push_inline_styled(out, &chars_of("  "), &t);
}

} // verus!
