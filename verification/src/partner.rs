//! Accountability partner notes: wrapping the partner's text into lines of a
//! bounded width, writing it into a weekly board, and importing an older
//! markdown board.
use vstd::prelude::*;

use crate::board::{empty_board, score_line, score_line_exec, BoardView, WeeklyBoard};
use crate::text::{
    byte_len, byte_len_sat, chars_of, sat_sub, spaces, split_chars, split_from, contains, contains_chars, copy_chars, join_chars, lines_of_str, strip_prefix, strip_prefix_chars, ends_with, ends_with_chars, owned, opt_text, find_from, find_from_chars, join,
    lemma_byte_len_concat, lemma_find_from, lemma_words_shape, lines, lines_of, no_ws, push_all,
    seqs, slice, starts_with, occurs_at, starts_with_chars, string_of, strs, trim, trim_chars, words,
    words_of,
};

verus! {

// ── Wrapping a paragraph ────────────────────────────────────────────────

/// One word read: the lines finished so far and the line being filled.
/// A word that would take the line past `max` bytes starts a new line.
pub open spec fn wrap_step(st: (Seq<Seq<char>>, Seq<char>), w: Seq<char>, max: int) -> (
    Seq<Seq<char>>,
    Seq<char>,
) {
    let (done, cur) = st;
    if cur.len() > 0 && byte_len(cur) + 1 + byte_len(w) > max {
        (done.push(cur), w)
    } else if cur.len() == 0 {
        (done, w)
    } else {
        (done, cur + seq![' '] + w)
    }
}

pub open spec fn wrap_scan(ws: Seq<Seq<char>>, max: int) -> (Seq<Seq<char>>, Seq<char>)
    decreases ws.len(),
{
    if ws.len() == 0 {
        (seq![], seq![])
    } else {
        wrap_step(wrap_scan(ws.drop_last(), max), ws.last(), max)
    }
}

/// The finished lines and, when nonempty, the line being filled.
pub open spec fn flush_line(st: (Seq<Seq<char>>, Seq<char>)) -> Seq<Seq<char>> {
    if st.1.len() == 0 {
        st.0
    } else {
        st.0.push(st.1)
    }
}

/// The lines that a paragraph wraps into at `max` bytes: its words, in order,
/// joined by single spaces, a new line started where the next word would not fit.
pub open spec fn wrap_lines(text: Seq<char>, max: int) -> Seq<Seq<char>> {
    flush_line(wrap_scan(words(text), max))
}

/// Wraps a paragraph given as characters.
pub fn wrap_chars(text: &Vec<char>, max_width: usize) -> (r: Vec<Vec<char>>)
    ensures
        seqs(r@) == wrap_lines(text@, max_width as int),
{
    let ws = words_of(text);
    let ghost wv = seqs(ws@);
    let mut done: Vec<Vec<char>> = Vec::new();
    let mut cur: Vec<char> = Vec::new();
    let mut i: usize = 0;
    assert(wv.take(0) =~= seq![]);
    assert(seqs(done@) =~= seq![]);
    while i < ws.len()
        invariant
            i <= ws.len(),
            wv == seqs(ws@),
            wrap_scan(wv.take(i as int), max_width as int) == (seqs(done@), cur@),
        decreases ws.len() - i,
    {
        assert(wv.take(i + 1).drop_last() =~= wv.take(i as int));
        let w = &ws[i];
        let cl = byte_len_sat(&cur);
        let wl = byte_len_sat(w);
        let ghost d0 = seqs(done@);
        let ghost c0 = cur@;
        if cur.len() > 0 && (cl as u128) + 1 + (wl as u128) > max_width as u128 {
            done.push(cur);
            assert(seqs(done@) =~= d0.push(c0));
            cur = copy_chars(w);
        } else if cur.len() == 0 {
            cur = copy_chars(w);
        } else {
            cur.push(' ');
            push_all(&mut cur, w);
            assert(cur@ =~= c0 + seq![' '] + w@);
        }
        i = i + 1;
    }
    assert(wv.take(ws.len() as int) =~= wv);
    let ghost d1 = seqs(done@);
    if cur.len() > 0 {
        done.push(cur);
        assert(seqs(done@) =~= d1.push(cur@));
    }
    done
}

/// Wraps a single paragraph at `max_width` bytes.
pub fn wrap_paragraph(text: &str, max_width: usize) -> (r: Vec<String>)
    ensures
        strs(r@) == wrap_lines(text@, max_width as int),
{
    let ls = wrap_chars(&chars_of(text), max_width);
    let mut r: Vec<String> = Vec::new();
    let mut k: usize = 0;
    while k < ls.len()
        invariant
            k <= ls.len(),
            strs(r@) == seqs(ls@).take(k as int),
        decreases ls.len() - k,
    {
        let ghost r0 = strs(r@);
        r.push(string_of(&ls[k]));
        assert(strs(r@) =~= r0.push(seqs(ls@)[k as int]));
        k = k + 1;
        assert(seqs(ls@).take(k as int) =~= r0.push(seqs(ls@)[k - 1]));
    }
    assert(seqs(ls@).take(ls.len() as int) =~= seqs(ls@));
    r
}

// ── What wrapping keeps ─────────────────────────────────────────────────

/// A line fits within `max` bytes, or is a single word that alone is longer.
pub open spec fn line_fits(l: Seq<char>, max: int) -> bool {
    byte_len(l) <= max || no_ws(l)
}

proof fn lemma_join_push(d: Seq<Seq<char>>, x: Seq<char>, sep: Seq<char>)
    ensures
        join(d.push(x), sep) == if d.len() == 0 {
            x
        } else {
            join(d, sep) + sep + x
        },
{
    assert(d.push(x).drop_last() =~= d);
}

proof fn lemma_byte_len_space_join(c: Seq<char>, w: Seq<char>)
    ensures
        byte_len(c + seq![' '] + w) == byte_len(c) + 1 + byte_len(w),
{
    lemma_byte_len_concat(c, seq![' ']);
    lemma_byte_len_concat(c + seq![' '], w);
    reveal_with_fuel(byte_len, 2);
    assert(seq![' '].drop_last() =~= Seq::<char>::empty());
}

proof fn lemma_wrap_scan(ws: Seq<Seq<char>>, max: int)
    requires
        forall|k: int| 0 <= k < ws.len() ==> #[trigger] ws[k].len() > 0 && no_ws(ws[k]),
    ensures
        join(flush_line(wrap_scan(ws, max)), seq![' ']) == join(ws, seq![' ']),
        (wrap_scan(ws, max).1.len() == 0) == (ws.len() == 0),
        wrap_scan(ws, max).1.len() == 0 ==> wrap_scan(ws, max).0.len() == 0,
        forall|k: int|
            0 <= k < wrap_scan(ws, max).0.len() ==> #[trigger] wrap_scan(ws, max).0[k].len() > 0
                && line_fits(wrap_scan(ws, max).0[k], max),
        line_fits(wrap_scan(ws, max).1, max),
    decreases ws.len(),
{
    let sp = seq![' '];
    if ws.len() > 0 {
        let ws0 = ws.drop_last();
        assert forall|k: int| 0 <= k < ws0.len() implies #[trigger] ws0[k].len() > 0 && no_ws(
            ws0[k],
        ) by {
            assert(ws0[k] == ws[k]);
        }
        lemma_wrap_scan(ws0, max);
        let (d, c) = wrap_scan(ws0, max);
        let w = ws.last();
        assert(w == ws[ws.len() - 1]);
        lemma_join_push(ws0, w, sp);
        assert(ws0.push(w) =~= ws);
        if c.len() > 0 && byte_len(c) + 1 + byte_len(w) > max {
            lemma_join_push(d, c, sp);
            lemma_join_push(d.push(c), w, sp);
            assert(wrap_scan(ws, max) == (d.push(c), w));
            assert forall|k: int| 0 <= k < d.push(c).len() implies #[trigger] d.push(c)[k].len()
                > 0 && line_fits(d.push(c)[k], max) by {
                if k < d.len() {
                    assert(d.push(c)[k] == d[k]);
                }
            }
        } else if c.len() == 0 {
            assert(wrap_scan(ws, max) == (d, w));
            assert(flush_line((d, w)) =~= seq![w]);
        } else {
            lemma_byte_len_space_join(c, w);
            let c1 = c + sp + w;
            lemma_join_push(d, c, sp);
            lemma_join_push(d, c1, sp);
            assert(wrap_scan(ws, max) == (d, c1));
            if d.len() == 0 {
                assert(join(d.push(c1), sp) =~= join(d.push(c), sp) + sp + w);
            } else {
                assert(join(d.push(c1), sp) =~= join(d.push(c), sp) + sp + w);
            }
        }
    }
}

/// Wrapping keeps the words of the paragraph in order, each line separated
/// from the next where a single space stood, and gives lines that are
/// nonempty and fit within `max` bytes unless a line is one word that alone
/// is longer.
pub proof fn law_wrap_paragraph(text: Seq<char>, max: int)
    ensures
        join(wrap_lines(text, max), seq![' ']) == join(words(text), seq![' ']),
        forall|k: int|
            0 <= k < wrap_lines(text, max).len() ==> #[trigger] wrap_lines(text, max)[k].len() > 0
                && line_fits(wrap_lines(text, max)[k], max),
{
    lemma_words_shape(text);
    lemma_wrap_scan(words(text), max);
    let (d, c) = wrap_scan(words(text), max);
    if c.len() > 0 {
        assert forall|k: int| 0 <= k < d.push(c).len() implies #[trigger] d.push(c)[k].len() > 0
            && line_fits(d.push(c)[k], max) by {
            if k < d.len() {
                assert(d.push(c)[k] == d[k]);
            }
        }
    }
}

/// The first word of a line: what comes before its first space.
pub open spec fn first_word(l: Seq<char>) -> Seq<char>
    decreases l.len(),
{
    if l.len() == 0 || l[0] == ' ' {
        seq![]
    } else {
        seq![l[0]] + first_word(l.drop_first())
    }
}

/// A line is full: the next line's first word would not have fitted on it.
pub open spec fn line_full(a: Seq<char>, next: Seq<char>, max: int) -> bool {
    byte_len(a) + 1 + byte_len(first_word(next)) > max
}

proof fn lemma_first_word_join(c: Seq<char>, w: Seq<char>)
    ensures
        first_word(c + seq![' '] + w) == first_word(c),
    decreases c.len(),
{
    if c.len() == 0 {
        assert((c + seq![' '] + w)[0] == ' ');
    } else {
        assert((c + seq![' '] + w)[0] == c[0]);
        if c[0] != ' ' {
            assert((c + seq![' '] + w).drop_first() =~= c.drop_first() + seq![' '] + w);
            lemma_first_word_join(c.drop_first(), w);
        }
    }
}

proof fn lemma_first_word_whole(w: Seq<char>)
    requires
        no_ws(w),
    ensures
        first_word(w) == w,
    decreases w.len(),
{
    if w.len() > 0 {
        assert(crate::text::is_ws(' '));
        assert(w[0] != ' ');
        assert(no_ws(w.drop_first())) by {
            assert forall|i: int| 0 <= i < w.drop_first().len() implies !crate::text::is_ws(
                w.drop_first()[i],
            ) by {
                assert(w.drop_first()[i] == w[i + 1]);
            }
        }
        lemma_first_word_whole(w.drop_first());
        assert(seq![w[0]] + w.drop_first() =~= w);
    }
}

proof fn lemma_wrap_greedy(ws: Seq<Seq<char>>, max: int)
    requires
        forall|k: int| 0 <= k < ws.len() ==> #[trigger] ws[k].len() > 0 && no_ws(ws[k]),
    ensures
        forall|k: int|
            0 <= k < wrap_scan(ws, max).0.len() - 1 ==> line_full(
                #[trigger] wrap_scan(ws, max).0[k],
                wrap_scan(ws, max).0[k + 1],
                max,
            ),
        wrap_scan(ws, max).0.len() > 0 ==> line_full(wrap_scan(ws, max).0.last(), wrap_scan(ws, max).1, max),
    decreases ws.len(),
{
    if ws.len() > 0 {
        let ws0 = ws.drop_last();
        assert forall|k: int| 0 <= k < ws0.len() implies #[trigger] ws0[k].len() > 0 && no_ws(
            ws0[k],
        ) by {
            assert(ws0[k] == ws[k]);
        }
        lemma_wrap_greedy(ws0, max);
        lemma_wrap_scan(ws0, max);
        let (d, c) = wrap_scan(ws0, max);
        let w = ws.last();
        assert(w == ws[ws.len() - 1]);
        if c.len() > 0 && byte_len(c) + 1 + byte_len(w) > max {
            let d1 = d.push(c);
            assert(wrap_scan(ws, max) == (d1, w));
            lemma_first_word_whole(w);
            assert forall|k: int| 0 <= k < d1.len() - 1 implies line_full(#[trigger] d1[k], d1[k + 1], max) by {
                assert(d1[k] == d[k]);
                if k < d.len() - 1 {
                    assert(d1[k + 1] == d[k + 1]);
                } else {
                    assert(d1[k + 1] == c);
                }
            }
        } else if c.len() == 0 {
            assert(wrap_scan(ws, max) == (d, w));
        } else {
            assert(wrap_scan(ws, max) == (d, c + seq![' '] + w));
            lemma_first_word_join(c, w);
        }
    }
}

/// Lines are filled greedily: no line could have taken the first word of
/// the line after it within `max` bytes.
pub proof fn law_wrap_greedy(text: Seq<char>, max: int)
    ensures
        forall|k: int|
            0 <= k < wrap_lines(text, max).len() - 1 ==> line_full(
                #[trigger] wrap_lines(text, max)[k],
                wrap_lines(text, max)[k + 1],
                max,
            ),
{
    lemma_words_shape(text);
    lemma_wrap_scan(words(text), max);
    lemma_wrap_greedy(words(text), max);
    let (d, c) = wrap_scan(words(text), max);
    if c.len() > 0 {
        let l = d.push(c);
        assert forall|k: int| 0 <= k < l.len() - 1 implies line_full(#[trigger] l[k], l[k + 1], max) by {
            assert(l[k] == d[k]);
            if k < d.len() - 1 {
                assert(l[k + 1] == d[k + 1]);
            } else {
                assert(l[k + 1] == c);
            }
        }
    }
}

// ── Wrapping notes ──────────────────────────────────────────────────────

/// A note line that shows the paragraph is a list or a heading block.
pub open spec fn structured_line(l: Seq<char>) -> bool {
    let t = trim(l);
    starts_with(t, "###"@) || starts_with(t, "##"@) || starts_with(t, "- "@) || starts_with(
        t,
        "* "@,
    ) || starts_with(t, "\u{2022} "@) || starts_with(t, "Score:"@)
}

/// A paragraph with a list or heading line, whose lines are kept apart.
pub open spec fn structured(p: Seq<char>) -> bool {
    exists|k: int| 0 <= k < lines(p).len() && structured_line(#[trigger] lines(p)[k])
}

/// The bullet or heading prefix that opens a trimmed line, or nothing.
pub open spec fn note_prefix(t: Seq<char>) -> Seq<char> {
    if starts_with(t, "### "@) {
        "### "@
    } else if starts_with(t, "## "@) {
        "## "@
    } else if starts_with(t, "- "@) {
        "- "@
    } else if starts_with(t, "* "@) {
        "* "@
    } else if starts_with(t, "\u{2022} "@) {
        "\u{2022} "@
    } else {
        seq![]
    }
}

/// Lines, each ended by a newline, the first led by `first` and the others by `rest`.
pub open spec fn lead_lines(first: Seq<char>, rest: Seq<char>, ls: Seq<Seq<char>>) -> Seq<char>
    decreases ls.len(),
{
    if ls.len() == 0 {
        seq![]
    } else {
        lead_lines(first, rest, ls.drop_last()) + (if ls.len() == 1 {
            first
        } else {
            rest
        }) + ls.last() + seq!['\n']
    }
}

/// A line of a list or heading block: wrapped after its prefix, continuation
/// lines indented by as many spaces as the prefix has bytes; a `Score:` line
/// kept whole; an empty line kept empty.
pub open spec fn structured_line_text(l: Seq<char>, max: int) -> Seq<char> {
    let t = trim(l);
    let pre = note_prefix(t);
    if t.len() == 0 {
        seq!['\n']
    } else if pre.len() > 0 {
        lead_lines(
            pre,
            spaces(byte_len(pre)),
            wrap_lines(t.skip(pre.len() as int), sat_sub(max, byte_len(pre) as int)),
        )
    } else if starts_with(t, "Score:"@) {
        t.push('\n')
    } else {
        lead_lines(seq![], seq![], wrap_lines(t, max))
    }
}

pub open spec fn structured_block(ls: Seq<Seq<char>>, max: int) -> Seq<char>
    decreases ls.len(),
{
    if ls.len() == 0 {
        seq![]
    } else {
        structured_block(ls.drop_last(), max) + structured_line_text(ls.last(), max)
    }
}

/// A paragraph of notes: nothing when blank; else its wrapped lines then a
/// blank line, a list or heading block wrapped line by line.
pub open spec fn paragraph_text(p: Seq<char>, max: int) -> Seq<char> {
    let tp = trim(p);
    if tp.len() == 0 {
        seq![]
    } else if structured(tp) {
        structured_block(lines(tp), max).push('\n')
    } else {
        lead_lines(seq![], seq![], wrap_lines(tp, max)).push('\n')
    }
}

pub open spec fn paragraphs_text(ps: Seq<Seq<char>>, max: int) -> Seq<char>
    decreases ps.len(),
{
    if ps.len() == 0 {
        seq![]
    } else {
        paragraphs_text(ps.drop_last(), max) + paragraph_text(ps.last(), max)
    }
}

/// Notes wrapped at `max` bytes: paragraphs, split at blank lines, each wrapped.
pub open spec fn wrapped_notes(text: Seq<char>, max: int) -> Seq<char> {
    paragraphs_text(split_from(text, "\n\n"@, 0), max)
}

fn is_structured_line(l: &Vec<char>) -> (r: bool)
    ensures
        r == structured_line(l@),
{
    let t = trim_chars(l);
    starts_with_chars(&t, &chars_of("###")) || starts_with_chars(&t, &chars_of("##"))
        || starts_with_chars(&t, &chars_of("- ")) || starts_with_chars(&t, &chars_of("* "))
        || starts_with_chars(&t, &chars_of("\u{2022} ")) || starts_with_chars(
        &t,
        &chars_of("Score:"),
    )
}

fn is_structured(ls: &Vec<Vec<char>>, Ghost(p): Ghost<Seq<char>>) -> (r: bool)
    requires
        seqs(ls@) == lines(p),
    ensures
        r == structured(p),
{
    let mut k: usize = 0;
    while k < ls.len()
        invariant
            k <= ls.len(),
            seqs(ls@) == lines(p),
            forall|j: int| 0 <= j < k ==> !structured_line(#[trigger] lines(p)[j]),
        decreases ls.len() - k,
    {
        if is_structured_line(&ls[k]) {
            assert(structured_line(lines(p)[k as int]));
            return true;
        }
        k = k + 1;
    }
    false
}

/// The prefix that opens a trimmed note line, and its length in bytes.
fn note_prefix_exec(t: &Vec<char>) -> (r: (Vec<char>, usize))
    ensures
        r.0@ == note_prefix(t@),
        r.1 == byte_len(note_prefix(t@)),
{
    let h3 = chars_of("### ");
    if starts_with_chars(t, &h3) {
        proof {
            reveal_strlit("### ");
            reveal_with_fuel(byte_len, 5);
        }
        return (h3, 4);
    }
    let h2 = chars_of("## ");
    if starts_with_chars(t, &h2) {
        proof {
            reveal_strlit("## ");
            reveal_with_fuel(byte_len, 4);
        }
        return (h2, 3);
    }
    let dash = chars_of("- ");
    if starts_with_chars(t, &dash) {
        proof {
            reveal_strlit("- ");
            reveal_with_fuel(byte_len, 3);
        }
        return (dash, 2);
    }
    let star = chars_of("* ");
    if starts_with_chars(t, &star) {
        proof {
            reveal_strlit("* ");
            reveal_with_fuel(byte_len, 3);
        }
        return (star, 2);
    }
    let bullet = chars_of("\u{2022} ");
    if starts_with_chars(t, &bullet) {
        proof {
            reveal_strlit("\u{2022} ");
            reveal_with_fuel(byte_len, 3);
        }
        return (bullet, 4);
    }
    (Vec::new(), 0)
}

fn spaces_vec(n: usize) -> (r: Vec<char>)
    ensures
        r@ == spaces(n as nat),
{
    let mut r: Vec<char> = Vec::new();
    let mut i: usize = 0;
    while i < n
        invariant
            i <= n,
            r@ == spaces(i as nat),
        decreases n - i,
    {
        r.push(' ');
        i = i + 1;
        assert(r@ =~= spaces(i as nat));
    }
    r
}

fn push_lead_lines(out: &mut Vec<char>, first: &Vec<char>, rest: &Vec<char>, ls: &Vec<Vec<char>>)
    ensures
        final(out)@ == old(out)@ + lead_lines(first@, rest@, seqs(ls@)),
{
    let mut k: usize = 0;
    assert(seqs(ls@).take(0) =~= seq![]);
    assert(old(out)@ + seq![] =~= old(out)@);
    while k < ls.len()
        invariant
            k <= ls.len(),
            out@ == old(out)@ + lead_lines(first@, rest@, seqs(ls@).take(k as int)),
        decreases ls.len() - k,
    {
        assert(seqs(ls@).take(k + 1).drop_last() =~= seqs(ls@).take(k as int));
        let ghost o0 = out@;
        if k == 0 {
            push_all(out, first);
        } else {
            push_all(out, rest);
        }
        push_all(out, &ls[k]);
        out.push('\n');
        k = k + 1;
        assert(out@ =~= old(out)@ + lead_lines(first@, rest@, seqs(ls@).take(k as int)));
    }
    assert(seqs(ls@).take(ls.len() as int) =~= seqs(ls@));
}

fn push_structured_line(out: &mut Vec<char>, l: &Vec<char>, max_width: usize)
    ensures
        final(out)@ == old(out)@ + structured_line_text(l@, max_width as int),
{
    let t = trim_chars(l);
    if t.len() == 0 {
        out.push('\n');
        return ;
    }
    let (pre, pre_bytes) = note_prefix_exec(&t);
    if pre.len() > 0 {
        assert(pre.len() <= t.len());
        let content = slice(&t, pre.len(), t.len());
        assert(content@ =~= t@.skip(pre@.len() as int));
        let width = if max_width >= pre_bytes {
            max_width - pre_bytes
        } else {
            0
        };
        let wrapped = wrap_chars(&content, width);
        push_lead_lines(out, &pre, &spaces_vec(pre_bytes), &wrapped);
    } else if starts_with_chars(&t, &chars_of("Score:")) {
        let ghost o0 = out@;
        push_all(out, &t);
        out.push('\n');
        assert(out@ =~= o0 + t@.push('\n'));
    } else {
        let wrapped = wrap_chars(&t, max_width);
        push_lead_lines(out, &Vec::new(), &Vec::new(), &wrapped);
    }
}

fn push_paragraph(out: &mut Vec<char>, p: &Vec<char>, max_width: usize)
    ensures
        final(out)@ == old(out)@ + paragraph_text(p@, max_width as int),
{
    let tp = trim_chars(p);
    if tp.len() == 0 {
        assert(old(out)@ + seq![] =~= old(out)@);
        return ;
    }
    let ls = lines_of(&tp);
    if is_structured(&ls, Ghost(tp@)) {
        let ghost o0 = out@;
        let mut k: usize = 0;
        assert(seqs(ls@).take(0) =~= seq![]);
        assert(o0 + seq![] =~= o0);
        while k < ls.len()
            invariant
                k <= ls.len(),
                out@ == o0 + structured_block(seqs(ls@).take(k as int), max_width as int),
            decreases ls.len() - k,
        {
            assert(seqs(ls@).take(k + 1).drop_last() =~= seqs(ls@).take(k as int));
            push_structured_line(out, &ls[k], max_width);
            k = k + 1;
            assert(out@ =~= o0 + structured_block(seqs(ls@).take(k as int), max_width as int));
        }
        assert(seqs(ls@).take(ls.len() as int) =~= seqs(ls@));
        out.push('\n');
        assert(out@ =~= o0 + structured_block(lines(tp@), max_width as int).push('\n'));
    } else {
        let ghost o0 = out@;
        let wrapped = wrap_chars(&tp, max_width);
        push_lead_lines(out, &Vec::new(), &Vec::new(), &wrapped);
        out.push('\n');
        assert(out@ =~= o0 + lead_lines(seq![], seq![], wrap_lines(tp@, max_width as int)).push(
            '\n',
        ));
    }
}

/// Wraps notes given as characters.
pub fn wrap_notes_chars(text: &Vec<char>, max_width: usize) -> (r: Vec<char>)
    ensures
        r@ == wrapped_notes(text@, max_width as int),
{
    let sep = chars_of("\n\n");
    proof {
        reveal_strlit("\n\n");
    }
    let ps = split_chars(text, &sep);
    let mut out: Vec<char> = Vec::new();
    let mut k: usize = 0;
    assert(seqs(ps@).take(0) =~= seq![]);
    while k < ps.len()
        invariant
            k <= ps.len(),
            out@ == paragraphs_text(seqs(ps@).take(k as int), max_width as int),
        decreases ps.len() - k,
    {
        assert(seqs(ps@).take(k + 1).drop_last() =~= seqs(ps@).take(k as int));
        push_paragraph(&mut out, &ps[k], max_width);
        k = k + 1;
    }
    assert(seqs(ps@).take(ps.len() as int) =~= seqs(ps@));
    out
}

/// Wraps note text at `max_width` bytes, keeping paragraph breaks (blank
/// lines) and the structure of lists and headings.
pub fn wrap_notes(text: &str, max_width: usize) -> (r: String)
    ensures
        r@ == wrapped_notes(text@, max_width as int),
{
    string_of(&wrap_notes_chars(&chars_of(text), max_width))
}

/// Where `p` is looked for past the end of a text `x`, the search goes on
/// in what follows it.
proof fn lemma_find_from_shift(x: Seq<char>, y: Seq<char>, p: Seq<char>, k: int)
    requires
        0 <= k,
        p.len() > 0,
    ensures
        find_from(x + y, p, x.len() + k) == match find_from(y, p, k) {
            Some(j) => Some(j + x.len()),
            None => None::<int>,
        },
    decreases y.len() - k,
{
    let s = x + y;
    let i = x.len() + k;
    if k + p.len() > y.len() {
    } else {
        assert(s.subrange(i, i + p.len()) =~= y.subrange(k, k + p.len()));
        if occurs_at(y, p, k) {
        } else if k >= y.len() {
        } else {
            lemma_find_from_shift(x, y, p, k + 1);
        }
    }
}

/// Splitting past the end of `x` splits what follows it.
proof fn lemma_split_shift(x: Seq<char>, y: Seq<char>, p: Seq<char>, k: int)
    requires
        0 <= k <= y.len(),
        p.len() > 0,
    ensures
        split_from(x + y, p, x.len() + k) == split_from(y, p, k),
    decreases y.len() - k,
{
    let s = x + y;
    let i = x.len() + k;
    lemma_find_from_shift(x, y, p, k);
    lemma_find_from(y, p, k);
    match find_from(y, p, k) {
        Some(j) => {
            assert(s.subrange(i, j + x.len()) =~= y.subrange(k, j));
            lemma_split_shift(x, y, p, j + p.len());
            assert(j + x.len() + p.len() == x.len() + (j + p.len()));
        },
        None => {
            assert(s.subrange(i, s.len() as int) =~= y.subrange(k, y.len() as int));
        },
    }
}

/// Before a blank line put after `a`, the search for the next one finds
/// what it finds in `a`, or else that blank line, when `a` does not end
/// with a newline.
proof fn lemma_find_before_break(a: Seq<char>, b: Seq<char>, i: int)
    requires
        0 <= i <= a.len(),
        a.len() == 0 || a.last() != '\n',
    ensures
        find_from(a + "\n\n"@ + b, "\n\n"@, i) == match find_from(a, "\n\n"@, i) {
            Some(k) => Some(k),
            None => Some(a.len() as int),
        },
    decreases a.len() - i,
{
    reveal_strlit("\n\n");
    let p = "\n\n"@;
    let s = a + p + b;
    if i == a.len() {
        assert(s.subrange(i, i + 2) =~= p);
    } else if i + 2 > a.len() {
        assert(s[i] == a.last());
        assert(!occurs_at(s, p, i)) by {
            if occurs_at(s, p, i) {
                assert(s.subrange(i, i + 2)[0] == s[i]);
            }
        }
        lemma_find_before_break(a, b, i + 1);
    } else {
        assert(s.subrange(i, i + 2) =~= a.subrange(i, i + 2));
        if !occurs_at(a, p, i) {
            lemma_find_before_break(a, b, i + 1);
        }
    }
}

/// Splitting at blank lines a text made of `a`, a blank line and `b` gives
/// the paragraphs of `a`, then those of `b`, when `a` does not end with a
/// newline.
proof fn lemma_split_at_break(a: Seq<char>, b: Seq<char>, i: int)
    requires
        0 <= i <= a.len(),
        a.len() == 0 || a.last() != '\n',
    ensures
        split_from(a + "\n\n"@ + b, "\n\n"@, i) == split_from(a, "\n\n"@, i) + split_from(b, "\n\n"@, 0),
    decreases a.len() - i,
{
    reveal_strlit("\n\n");
    let p = "\n\n"@;
    let s = a + p + b;
    lemma_find_before_break(a, b, i);
    lemma_find_from(a, p, i);
    match find_from(a, p, i) {
        Some(k) => {
            assert(s.subrange(i, k) =~= a.subrange(i, k));
            lemma_split_at_break(a, b, k + 2);
            assert(split_from(a, p, i) == seq![a.subrange(i, k)] + split_from(a, p, k + 2));
            assert(seq![a.subrange(i, k)] + split_from(a, p, k + 2) + split_from(b, p, 0)
                =~= seq![a.subrange(i, k)] + (split_from(a, p, k + 2) + split_from(b, p, 0)));
        },
        None => {
            assert(s.subrange(i, a.len() as int) =~= a.subrange(i, a.len() as int));
            lemma_split_shift(a + p, b, p, 0);
            assert((a + p).len() + 0 == a.len() + 2);
        },
    }
}

proof fn lemma_paragraphs_concat(x: Seq<Seq<char>>, y: Seq<Seq<char>>, max: int)
    ensures
        paragraphs_text(x + y, max) == paragraphs_text(x, max) + paragraphs_text(y, max),
    decreases y.len(),
{
    if y.len() == 0 {
        assert(x + y =~= x);
    } else {
        assert((x + y).drop_last() =~= x + y.drop_last());
        lemma_paragraphs_concat(x, y.drop_last(), max);
        assert((x + y).last() == y.last());
    }
}

/// A space taken off the start of a text is taken off by trimming anyway.
proof fn lemma_trim_lead_ws(c: char, q: Seq<char>)
    requires
        crate::text::is_ws(c),
    ensures
        trim(seq![c] + q) == trim(q),
{
    assert((seq![c] + q).drop_first() =~= q);
}

proof fn lemma_trim_start_push(q: Seq<char>, c: char)
    requires
        crate::text::is_ws(c),
    ensures
        crate::text::trim_start(q.push(c)) == if crate::text::trim_start(q).len() == 0 {
            Seq::<char>::empty()
        } else {
            crate::text::trim_start(q).push(c)
        },
    decreases q.len(),
{
    let e = Seq::<char>::empty();
    assert(crate::text::trim_start(e) == e);
    if q.len() == 0 {
        assert(q.push(c) =~= seq![c]);
        assert(seq![c].drop_first() =~= e);
        assert(crate::text::trim_start(seq![c]) == crate::text::trim_start(e));
    } else if crate::text::is_ws(q[0]) {
        assert(q.push(c).drop_first() =~= q.drop_first().push(c));
        assert(q.push(c)[0] == q[0]);
        assert(crate::text::trim_start(q) == crate::text::trim_start(q.drop_first()));
        assert(crate::text::trim_start(q.push(c)) == crate::text::trim_start(q.drop_first().push(c)));
        lemma_trim_start_push(q.drop_first(), c);
    } else {
        assert(q.push(c)[0] == q[0]);
        assert(crate::text::trim_start(q) == q);
        assert(crate::text::trim_start(q.push(c)) == q.push(c));
    }
}

/// A space put at the end of a text is taken off by trimming.
proof fn lemma_trim_trail_ws(q: Seq<char>, c: char)
    requires
        crate::text::is_ws(c),
    ensures
        trim(q.push(c)) == trim(q),
{
    lemma_trim_start_push(q, c);
    let t = crate::text::trim_start(q);
    if t.len() > 0 {
        assert(t.push(c).drop_last() =~= t);
    }
}

/// Where no blank line runs into the added newline, a newline put at the
/// end of a text is found where the text's own blank lines are.
proof fn lemma_find_before_newline(x: Seq<char>, i: int)
    requires
        0 <= i <= x.len(),
        x.len() == 0 || x.last() != '\n',
    ensures
        find_from(x.push('\n'), "\n\n"@, i) == find_from(x, "\n\n"@, i),
    decreases x.len() - i,
{
    reveal_strlit("\n\n");
    let p = "\n\n"@;
    let y = x.push('\n');
    if i + 2 > x.len() {
        if i < x.len() {
            assert(!occurs_at(y, p, i)) by {
                if occurs_at(y, p, i) {
                    assert(y.subrange(i, i + 2)[0] == y[i]);
                }
            }
            lemma_find_before_newline(x, i + 1);
        }
    } else {
        assert(y.subrange(i, i + 2) =~= x.subrange(i, i + 2));
        if !occurs_at(x, p, i) {
            lemma_find_before_newline(x, i + 1);
        }
    }
}

/// The paragraphs with a character put at the end of the last one.
spec fn with_last_pushed(ps: Seq<Seq<char>>, c: char) -> Seq<Seq<char>> {
    ps.update(ps.len() - 1, ps.last().push(c))
}

proof fn lemma_split_newline(x: Seq<char>, i: int)
    requires
        0 <= i <= x.len(),
        x.len() == 0 || x.last() != '\n',
    ensures
        split_from(x, "\n\n"@, i).len() > 0,
        split_from(x.push('\n'), "\n\n"@, i) == with_last_pushed(split_from(x, "\n\n"@, i), '\n'),
    decreases x.len() - i,
{
    reveal_strlit("\n\n");
    let p = "\n\n"@;
    let y = x.push('\n');
    lemma_find_before_newline(x, i);
    lemma_find_from(x, p, i);
    match find_from(x, p, i) {
        Some(k) => {
            assert(y.subrange(i, k) =~= x.subrange(i, k));
            lemma_split_newline(x, k + 2);
            let rest = split_from(x, p, k + 2);
            assert(split_from(x, p, i) == seq![x.subrange(i, k)] + rest);
            assert(with_last_pushed(seq![x.subrange(i, k)] + rest, '\n')
                =~= seq![x.subrange(i, k)] + with_last_pushed(rest, '\n'));
        },
        None => {
            assert(y.subrange(i, y.len() as int) =~= x.subrange(i, x.len() as int).push('\n'));
            assert(with_last_pushed(seq![x.subrange(i, x.len() as int)], '\n')
                =~= seq![x.subrange(i, x.len() as int).push('\n')]);
        },
    }
}

/// A newline at the end of notes that do not already end with one changes
/// nothing.
proof fn lemma_notes_newline_plain(x: Seq<char>, max: int)
    requires
        x.len() == 0 || x.last() != '\n',
    ensures
        wrapped_notes(x.push('\n'), max) == wrapped_notes(x, max),
{
    let ps = split_from(x, "\n\n"@, 0);
    lemma_split_newline(x, 0);
    let qs = with_last_pushed(ps, '\n');
    lemma_trim_trail_ws(ps.last(), '\n');
    assert(qs.drop_last() =~= ps.drop_last());
    assert(qs.last() == ps.last().push('\n'));
}

/// A newline at the start of notes changes nothing.
proof fn lemma_notes_lead_newline(c: Seq<char>, max: int)
    ensures
        wrapped_notes(seq!['\n'] + c, max) == wrapped_notes(c, max),
    decreases c.len(),
{
    reveal_strlit("\n\n");
    let p = "\n\n"@;
    let y = seq!['\n'] + c;
    if c.len() > 0 && c[0] == '\n' {
        let c1 = c.skip(1);
        assert(y =~= p + c1);
        assert(y.subrange(0, 2) =~= p);
        assert(y.subrange(0, 0) =~= Seq::<char>::empty());
        lemma_split_shift(p, c1, p, 0);
        assert(split_from(y, p, 0) == seq![Seq::<char>::empty()] + split_from(c1, p, 0));
        lemma_paragraphs_concat(seq![Seq::<char>::empty()], split_from(c1, p, 0), max);
        assert(seq![Seq::<char>::empty()].drop_last() =~= Seq::<Seq<char>>::empty());
        assert(trim(Seq::<char>::empty()) =~= Seq::<char>::empty());
        lemma_notes_lead_newline(c1, max);
        assert(seq!['\n'] + c1 =~= c);
        assert(paragraph_text(Seq::<char>::empty(), max) == Seq::<char>::empty());
        assert(paragraphs_text(seq![Seq::<char>::empty()], max) == paragraphs_text(
            Seq::<Seq<char>>::empty(),
            max,
        ) + paragraph_text(Seq::<char>::empty(), max));
        assert(paragraphs_text(seq![Seq::<char>::empty()], max) =~= Seq::<char>::empty());
        assert(wrapped_notes(y, max) =~= wrapped_notes(c1, max));
    } else {
        assert(!occurs_at(y, p, 0)) by {
            if occurs_at(y, p, 0) {
                assert(y.subrange(0, 2)[1] == y[1]);
                assert(y[1] == c[0]);
            }
        }
        lemma_trim_lead_ws('\n', c);
        if c.len() == 0 {
            assert(y.subrange(0, y.len() as int) =~= y);
            assert(c.subrange(0, 0) =~= c);
            assert(split_from(y, p, 0) == seq![y]);
            assert(split_from(c, p, 0) == seq![c]);
            assert(seq![y].drop_last() =~= Seq::<Seq<char>>::empty());
            assert(seq![c].drop_last() =~= Seq::<Seq<char>>::empty());
            assert(paragraph_text(y, max) == paragraph_text(c, max));
        } else {
            lemma_find_from_shift(seq!['\n'], c, p, 0);
            lemma_find_from(c, p, 0);
            match find_from(c, p, 0) {
                Some(j) => {
                    let first = c.subrange(0, j);
                    assert(y.subrange(0, j + 1) =~= seq!['\n'] + first);
                    lemma_split_shift(seq!['\n'], c, p, j + 2);
                    let rest = split_from(c, p, j + 2);
                    assert(split_from(y, p, 0) == seq![seq!['\n'] + first] + rest);
                    assert(split_from(c, p, 0) == seq![first] + rest);
                    lemma_paragraphs_concat(seq![seq!['\n'] + first], rest, max);
                    lemma_paragraphs_concat(seq![first], rest, max);
                    lemma_trim_lead_ws('\n', first);
                    assert(seq![seq!['\n'] + first].drop_last() =~= Seq::<Seq<char>>::empty());
                    assert(seq![first].drop_last() =~= Seq::<Seq<char>>::empty());
                    assert(find_from(y, p, 0) == find_from(y, p, 1));
                    assert(paragraph_text(seq!['\n'] + first, max) == paragraph_text(first, max));
                },
                None => {
                    assert(y.subrange(0, y.len() as int) =~= y);
                    assert(c.subrange(0, c.len() as int) =~= c);
                    assert(find_from(y, p, 0) == find_from(y, p, 1));
                    assert(split_from(y, p, 0) == seq![y]);
                    assert(split_from(c, p, 0) == seq![c]);
                    assert(seq![y].drop_last() =~= Seq::<Seq<char>>::empty());
                    assert(seq![c].drop_last() =~= Seq::<Seq<char>>::empty());
                    assert(paragraph_text(y, max) == paragraph_text(c, max));
                },
            }
        }
    }
}

proof fn lemma_notes_empty(max: int)
    ensures
        wrapped_notes(Seq::<char>::empty(), max) == Seq::<char>::empty(),
{
    reveal_strlit("\n\n");
    let e = Seq::<char>::empty();
    assert(e.subrange(0, 0) =~= e);
    assert(split_from(e, "\n\n"@, 0) == seq![e]);
    assert(seq![e].drop_last() =~= Seq::<Seq<char>>::empty());
    assert(trim(e) =~= e);
    assert(paragraph_text(e, max) == e);
    assert(paragraphs_text(seq![e], max) == paragraphs_text(Seq::<Seq<char>>::empty(), max) + paragraph_text(e, max));
    assert(paragraphs_text(seq![e], max) =~= e);
}

/// A newline at the end of notes changes nothing.
proof fn lemma_notes_newline(x: Seq<char>, max: int)
    ensures
        wrapped_notes(x.push('\n'), max) == wrapped_notes(x, max),
    decreases x.len(), 0int,
{
    if x.len() == 0 || x.last() != '\n' {
        lemma_notes_newline_plain(x, max);
    } else {
        reveal_strlit("\n\n");
        let x1 = x.drop_last();
        assert(x.push('\n') =~= x1 + "\n\n"@ + Seq::<char>::empty());
        law_notes_paragraph_break(x1, Seq::<char>::empty(), max);
        lemma_notes_empty(max);
        assert(wrapped_notes(x1, max) + Seq::<char>::empty() =~= wrapped_notes(x1, max));
        lemma_notes_newline(x1, max);
        assert(x1.push('\n') =~= x);
    }
}

/// Paragraph breaks are kept: notes made of `a`, a blank line and `b` wrap
/// as `a` wraps, followed by what `b` wraps to.
pub proof fn law_notes_paragraph_break(a: Seq<char>, b: Seq<char>, max: int)
    ensures
        wrapped_notes(a + "\n\n"@ + b, max) == wrapped_notes(a, max) + wrapped_notes(b, max),
    decreases a.len(), 1int,
{
    if a.len() == 0 || a.last() != '\n' {
        lemma_split_at_break(a, b, 0);
        lemma_paragraphs_concat(split_from(a, "\n\n"@, 0), split_from(b, "\n\n"@, 0), max);
    } else {
        reveal_strlit("\n\n");
        let a1 = a.drop_last();
        assert(a + "\n\n"@ + b =~= a1 + "\n\n"@ + (seq!['\n'] + b));
        law_notes_paragraph_break(a1, seq!['\n'] + b, max);
        lemma_notes_lead_newline(b, max);
        lemma_notes_newline(a1, max);
        assert(a1.push('\n') =~= a);
    }
}

// ── Writing notes into a board ──────────────────────────────────────────

/// Width, in bytes, at which partner notes are wrapped.
pub const NOTES_WIDTH: usize = 110;

/// Writes the partner's score and notes into a week's board: the score (0
/// when none is given) and the notes, trimmed, wrapped at 110 bytes.
pub fn run_write(board: &mut WeeklyBoard, score: Option<u8>, notes: &str)
    ensures
        final(board)@ == (BoardView {
            score: Some(
                match score {
                    Some(s) => s,
                    None => 0,
                },
            ),
            partner_notes: Some(wrapped_notes(trim(notes@), NOTES_WIDTH as int)),
            ..old(board)@
        }),
{
    board.score = Some(
        match score {
            Some(s) => s,
            None => 0,
        },
    );
    let text = trim_chars(&chars_of(notes));
    board.partner_notes = Some(string_of(&wrap_notes_chars(&text, NOTES_WIDTH)));
}

// ── Importing a markdown board ──────────────────────────────────────────

/// The item of a `- `, `* ` or `• ` list line, trimmed.
pub open spec fn list_item(t: Seq<char>) -> Option<Seq<char>> {
    match strip_prefix(t, "- "@) {
        Some(r) => Some(trim(r)),
        None => match strip_prefix(t, "* "@) {
            Some(r) => Some(trim(r)),
            None => match strip_prefix(t, "\u{2022} "@) {
                Some(r) => Some(trim(r)),
                None => None,
            },
        },
    }
}

/// The item of a list line, if it is one.
pub fn parse_list_item(line: &Vec<char>) -> (r: Option<Vec<char>>)
    ensures
        match r {
            Some(x) => list_item(line@) == Some(x@),
            None => list_item(line@) is None,
        },
{
    match strip_prefix_chars(line, &chars_of("- ")) {
        Some(rest) => Some(trim_chars(&rest)),
        None => match strip_prefix_chars(line, &chars_of("* ")) {
            Some(rest) => Some(trim_chars(&rest)),
            None => match strip_prefix_chars(line, &chars_of("\u{2022} ")) {
                Some(rest) => Some(trim_chars(&rest)),
                None => None,
            },
        },
    }
}

/// An import in progress: the board so far, the lines of the partner's
/// section, and which section the lines belong to.
pub struct ImportScan {
    pub board: BoardView,
    pub notes: Seq<Seq<char>>,
    pub in_partner: bool,
    pub in_accomplishments: bool,
    pub in_struggles: bool,
}

/// The partner's section as notes: its lines joined, trimmed, wrapped.
pub open spec fn imported_notes(ls: Seq<Seq<char>>) -> Seq<char> {
    wrapped_notes(trim(join(ls, "\n"@)), NOTES_WIDTH as int)
}

/// A line that mentions `Score:` and `/10` gives the score and its note.
pub open spec fn score_of_line(b: BoardView, t: Seq<char>) -> BoardView {
    if contains(t, "Score:"@) && contains(t, "/10"@) {
        score_line(b, t)
    } else {
        b
    }
}

/// Leaving the partner's section stores its notes.
pub open spec fn close_partner(st: ImportScan) -> ImportScan {
    if st.in_partner {
        ImportScan {
            board: BoardView { partner_notes: Some(imported_notes(st.notes)), ..st.board },
            notes: seq![],
            in_partner: false,
            ..st
        }
    } else {
        st
    }
}

pub open spec fn partner_heading(h: Seq<char>) -> bool {
    contains(h, "ACCOUNTABILITY PARTNER"@) || contains(h, "PARTNER NOTES"@)
}

pub open spec fn import_step(st: ImportScan, line: Seq<char>) -> ImportScan {
    let t = trim(line);
    let s1 = ImportScan { board: score_of_line(st.board, t), ..st };
    if starts_with(t, "## "@) {
        let s2 = close_partner(s1);
        ImportScan {
            in_partner: partner_heading(trim(t.skip("## "@.len() as int))),
            in_accomplishments: false,
            in_struggles: false,
            ..s2
        }
    } else if starts_with(t, "### "@) {
        let h = trim(t.skip("### "@.len() as int));
        if s1.in_partner {
            ImportScan { notes: s1.notes.push(line), ..s1 }
        } else if contains(h, "Accomplishment"@) {
            ImportScan { in_accomplishments: true, in_struggles: false, ..s1 }
        } else if contains(h, "Struggle"@) {
            ImportScan { in_accomplishments: false, in_struggles: true, ..s1 }
        } else {
            ImportScan { in_accomplishments: false, in_struggles: false, ..s1 }
        }
    } else if s1.in_partner {
        ImportScan { notes: s1.notes.push(line), ..s1 }
    } else {
        match list_item(t) {
            Some(x) => if s1.in_accomplishments {
                ImportScan {
                    board: BoardView {
                        accomplishments: s1.board.accomplishments.push(x),
                        ..s1.board
                    },
                    ..s1
                }
            } else if s1.in_struggles {
                ImportScan {
                    board: BoardView { struggles: s1.board.struggles.push(x), ..s1.board },
                    ..s1
                }
            } else {
                s1
            },
            None => s1,
        }
    }
}

pub open spec fn import_start() -> ImportScan {
    ImportScan {
        board: empty_board(),
        notes: seq![],
        in_partner: false,
        in_accomplishments: false,
        in_struggles: false,
    }
}

pub open spec fn import_scan(ls: Seq<Seq<char>>) -> ImportScan {
    ls.fold_left(import_start(), |st: ImportScan, l: Seq<char>| import_step(st, l))
}

/// The board that an older markdown board gives: `Score: N/10 — note` lines
/// give the score and its note; the lines under an `## ACCOUNTABILITY PARTNER`
/// or `## PARTNER NOTES` heading are the partner's notes, wrapped; list items
/// under `### Accomplishments` and `### Struggles` are those lists.
pub open spec fn imported_board(content: Seq<char>) -> BoardView {
    let st = import_scan(lines(content));
    if st.in_partner && st.notes.len() > 0 {
        BoardView { partner_notes: Some(imported_notes(st.notes)), ..st.board }
    } else {
        st.board
    }
}

/// The date that a board file's name gives: `battleboard_<date>.md`, else `unknown`.
pub open spec fn board_file_date(name: Seq<char>) -> Seq<char> {
    match strip_prefix(name, "battleboard_"@) {
        Some(r) => if ends_with(r, ".md"@) {
            r.take(r.len() - ".md"@.len())
        } else {
            "unknown"@
        },
        None => "unknown"@,
    }
}

/// The date of a board from its file name.
pub fn board_date_from_file_name(name: &str) -> (r: String)
    ensures
        r@ == board_file_date(name@),
{
    let v = chars_of(name);
    match strip_prefix_chars(&v, &chars_of("battleboard_")) {
        Some(rest) => {
            let md = chars_of(".md");
            if ends_with_chars(&rest, &md) {
                string_of(&slice(&rest, 0, rest.len() - md.len()))
            } else {
                owned("unknown")
            }
        },
        None => owned("unknown"),
    }
}

fn store_notes(board: &mut WeeklyBoard, notes: &Vec<Vec<char>>)
    ensures
        final(board)@ == (BoardView {
            partner_notes: Some(imported_notes(seqs(notes@))),
            ..old(board)@
        }),
{
    let text = trim_chars(&join_chars(notes, &chars_of("\n")));
    board.partner_notes = Some(string_of(&wrap_notes_chars(&text, NOTES_WIDTH)));
}

pub open spec fn scan_of(
    board: &WeeklyBoard,
    notes: &Vec<Vec<char>>,
    in_partner: bool,
    in_accomplishments: bool,
    in_struggles: bool,
) -> ImportScan {
    ImportScan {
        board: board@,
        notes: seqs(notes@),
        in_partner,
        in_accomplishments,
        in_struggles,
    }
}

fn import_line(
    board: &mut WeeklyBoard,
    notes: &mut Vec<Vec<char>>,
    in_partner: &mut bool,
    in_acc: &mut bool,
    in_str: &mut bool,
    line: &Vec<char>,
)
    ensures
        scan_of(final(board), final(notes), *final(in_partner), *final(in_acc), *final(in_str))
            == import_step(
            scan_of(old(board), old(notes), *old(in_partner), *old(in_acc), *old(in_str)),
            line@,
        ),
{
    let t = trim_chars(line);
    if contains_chars(&t, &chars_of("Score:")) && contains_chars(&t, &chars_of("/10")) {
        score_line_exec(board, &t);
    }
    let h2 = chars_of("## ");
    let h3 = chars_of("### ");
    if starts_with_chars(&t, &h2) {
        if *in_partner {
            store_notes(board, notes);
            *notes = Vec::new();
            assert(seqs(notes@) =~= seq![]);
            *in_partner = false;
        }
        let h = trim_chars(&slice(&t, h2.len(), t.len()));
        assert(t@.subrange(h2@.len() as int, t@.len() as int) =~= t@.skip(h2@.len() as int));
        *in_partner = contains_chars(&h, &chars_of("ACCOUNTABILITY PARTNER")) || contains_chars(
            &h,
            &chars_of("PARTNER NOTES"),
        );
        *in_acc = false;
        *in_str = false;
    } else if starts_with_chars(&t, &h3) {
        let h = trim_chars(&slice(&t, h3.len(), t.len()));
        assert(t@.subrange(h3@.len() as int, t@.len() as int) =~= t@.skip(h3@.len() as int));
        if *in_partner {
            let ghost n0 = seqs(notes@);
            notes.push(copy_chars(line));
            assert(seqs(notes@) =~= n0.push(line@));
        } else if contains_chars(&h, &chars_of("Accomplishment")) {
            *in_acc = true;
            *in_str = false;
        } else if contains_chars(&h, &chars_of("Struggle")) {
            *in_acc = false;
            *in_str = true;
        } else {
            *in_acc = false;
            *in_str = false;
        }
    } else if *in_partner {
        let ghost n0 = seqs(notes@);
        notes.push(copy_chars(line));
        assert(seqs(notes@) =~= n0.push(line@));
    } else {
        match parse_list_item(&t) {
            Some(x) => {
                if *in_acc {
                    let ghost a0 = board@.accomplishments;
                    board.accomplishments.push(string_of(&x));
                    assert(board@.accomplishments =~= a0.push(x@));
                } else if *in_str {
                    let ghost s0 = board@.struggles;
                    board.struggles.push(string_of(&x));
                    assert(board@.struggles =~= s0.push(x@));
                }
            },
            None => {},
        }
    }
}

/// Reads an older markdown board.
pub fn import_markdown_board(content: &str) -> (r: WeeklyBoard)
    ensures
        r@ == imported_board(content@),
{
    let ls = lines_of_str(content);
    let ghost lv = seqs(ls@);
    let mut board = WeeklyBoard::default();
    let mut notes: Vec<Vec<char>> = Vec::new();
    let mut in_partner = false;
    let mut in_acc = false;
    let mut in_str = false;
    let mut i: usize = 0;
    assert(lv.take(0) =~= seq![]);
    assert(seqs(notes@) =~= seq![]);
    while i < ls.len()
        invariant
            i <= ls.len(),
            lv == seqs(ls@),
            lv == lines(content@),
            import_scan(lv.take(i as int)) == scan_of(&board, &notes, in_partner, in_acc, in_str),
        decreases ls.len() - i,
    {
        assert(lv.take(i + 1).drop_last() =~= lv.take(i as int));
        import_line(&mut board, &mut notes, &mut in_partner, &mut in_acc, &mut in_str, &ls[i]);
        i = i + 1;
    }
    assert(lv.take(ls.len() as int) =~= lv);
    if in_partner && notes.len() > 0 {
        store_notes(&mut board, &notes);
    }
    board
}

/// Imports an older markdown board read from a file with the given name:
/// the board's date (from the name) and the board.
pub fn run_import(content: &str, file_name: &str) -> (r: (String, WeeklyBoard))
    ensures
        r.0@ == board_file_date(file_name@),
        r.1@ == imported_board(content@),
{
    (board_date_from_file_name(file_name), import_markdown_board(content))
}

} // verus!
