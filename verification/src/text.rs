//! Character-level text operations on which the markdown readers are built.
//!
//! Text is handled as sequences of `char`; each operation here has a spec
//! function that says what it computes and an executable version proved
//! against it.
use vstd::prelude::*;

verus! {

// ── Views of collections of text ─────────────────────────────────────────

/// The texts held by a vector of character vectors.
pub open spec fn seqs(v: Seq<Vec<char>>) -> Seq<Seq<char>> {
    v.map_values(|x: Vec<char>| x@)
}

/// The text an optional string holds.
pub open spec fn opt_text(o: Option<String>) -> Option<Seq<char>> {
    match o {
        Some(s) => Some(s@),
        None => None,
    }
}

/// The texts held by a vector of strings.
pub open spec fn strs(v: Seq<String>) -> Seq<Seq<char>> {
    v.map_values(|x: String| x@)
}

// ── Characters ───────────────────────────────────────────────────────────

/// Unicode `White_Space`, the set that `char::is_whitespace` and `str::trim` use.
pub open spec fn is_ws(c: char) -> bool {
    let u = c as u32;
    ||| 9 <= u <= 13
    ||| u == 32
    ||| u == 0x85
    ||| u == 0xA0
    ||| u == 0x1680
    ||| 0x2000 <= u <= 0x200A
    ||| u == 0x2028
    ||| u == 0x2029
    ||| u == 0x202F
    ||| u == 0x205F
    ||| u == 0x3000
}

pub open spec fn is_digit(c: char) -> bool {
    48 <= (c as u32) <= 57
}

pub open spec fn digit_value(c: char) -> int {
    (c as u32) - 48
}

pub open spec fn is_ascii_text(s: Seq<char>) -> bool {
    forall|i: int| 0 <= i < s.len() ==> (s[i] as u32) < 128
}

pub open spec fn ascii_lower_char(c: char) -> char {
    if 65 <= (c as u32) <= 90 {
        ((c as u32) + 32) as char
    } else {
        c
    }
}

/// Number of bytes of the UTF-8 encoding of a character.
pub open spec fn char_bytes(c: char) -> nat {
    let u = c as u32;
    if u < 0x80 {
        1
    } else if u < 0x800 {
        2
    } else if u < 0x10000 {
        3
    } else {
        4
    }
}

/// Number of bytes of the UTF-8 encoding of a text (what `str::len` returns).
pub open spec fn byte_len(s: Seq<char>) -> nat
    decreases s.len(),
{
    if s.len() == 0 {
        0
    } else {
        byte_len(s.drop_last()) + char_bytes(s.last())
    }
}

pub fn is_ws_char(c: char) -> (r: bool)
    ensures
        r == is_ws(c),
{
    let u = c as u32;
    (9 <= u && u <= 13) || u == 32 || u == 0x85 || u == 0xA0 || u == 0x1680 || (0x2000 <= u && u
        <= 0x200A) || u == 0x2028 || u == 0x2029 || u == 0x202F || u == 0x205F || u == 0x3000
}

pub fn is_digit_char(c: char) -> (r: bool)
    ensures
        r == is_digit(c),
{
    let u = c as u32;
    48 <= u && u <= 57
}

pub fn char_byte_len(c: char) -> (r: usize)
    ensures
        r == char_bytes(c),
{
    let u = c as u32;
    if u < 0x80 {
        1
    } else if u < 0x800 {
        2
    } else if u < 0x10000 {
        3
    } else {
        4
    }
}

pub proof fn lemma_byte_len_ge(s: Seq<char>)
    ensures
        byte_len(s) >= s.len(),
    decreases s.len(),
{
    if s.len() > 0 {
        lemma_byte_len_ge(s.drop_last());
    }
}

pub proof fn lemma_byte_len_concat(a: Seq<char>, b: Seq<char>)
    ensures
        byte_len(a + b) == byte_len(a) + byte_len(b),
    decreases b.len(),
{
    if b.len() == 0 {
        assert(a + b =~= a);
    } else {
        assert((a + b).drop_last() =~= a + b.drop_last());
        lemma_byte_len_concat(a, b.drop_last());
    }
}

/// The UTF-8 length of a text.
pub fn byte_len_of(v: &Vec<char>) -> (r: usize)
    requires
        byte_len(v@) <= usize::MAX,
    ensures
        r == byte_len(v@),
{
    let mut n: usize = 0;
    let mut i: usize = 0;
    while i < v.len()
        invariant
            i <= v.len(),
            n == byte_len(v@.take(i as int)),
            byte_len(v@) <= usize::MAX,
        decreases v.len() - i,
    {
        assert(v@.take(i + 1).drop_last() =~= v@.take(i as int));
        proof {
            lemma_byte_len_concat(v@.take(i + 1), v@.skip(i + 1));
            assert(v@.take(i + 1) + v@.skip(i + 1) =~= v@);
        }
        n = n + char_byte_len(v[i]);
        i = i + 1;
    }
    assert(v@.take(v.len() as int) =~= v@);
    n
}

/// The UTF-8 length of a text, or `usize::MAX` where it would be longer.
pub fn byte_len_sat(v: &Vec<char>) -> (r: usize)
    ensures
        r == (if byte_len(v@) <= usize::MAX { byte_len(v@) } else { usize::MAX as nat }),
{
    let mut n: usize = 0;
    let mut i: usize = 0;
    while i < v.len()
        invariant
            i <= v.len(),
            n == (if byte_len(v@.take(i as int)) <= usize::MAX {
                byte_len(v@.take(i as int))
            } else {
                usize::MAX as nat
            }),
        decreases v.len() - i,
    {
        assert(v@.take(i + 1).drop_last() =~= v@.take(i as int));
        n = n.saturating_add(char_byte_len(v[i]));
        i = i + 1;
    }
    assert(v@.take(v.len() as int) =~= v@);
    n
}

// ── Conversions between strings and characters ──────────────────────────

/// The characters of a string slice, in order.
pub fn chars_of(s: &str) -> (r: Vec<char>)
    ensures
        r@ == s@,
{
    let mut r: Vec<char> = Vec::new();
    for c in it: s.chars()
        invariant
            r@ == it.seq().take(it.index() as int),
    {
        r.push(c);
    }
    r
}

/// A string made of the given characters (std's `FromIterator<&char>` for `String`).
#[verifier::external_body]
pub fn string_of(v: &Vec<char>) -> (r: String)
    ensures
        r@ == v@,
{
    v.iter().collect()
}

/// A string holding the text of a string slice.
pub fn owned(s: &str) -> (r: String)
    ensures
        r@ == s@,
{
    s.to_owned()
}

/// A copy of a string.
pub fn copy_string(s: &String) -> (r: String)
    ensures
        r@ == s@,
{
    s.clone()
}

/// Names the result of std's `str::to_lowercase` on a text.
pub uninterp spec fn lowercase(s: Seq<char>) -> Seq<char>;

/// Calls std's `str::to_lowercase`. Its contract names the result, and states
/// the one fact the documentation gives plainly: on ASCII text it maps `A`–`Z`
/// to `a`–`z` and keeps every other character. What it does beyond ASCII
/// (Unicode case mapping, which may change the length) is left to the name.
#[verifier::external_body]
pub fn to_lowercase(v: &Vec<char>) -> (r: Vec<char>)
    ensures
        r@ == lowercase(v@),
        is_ascii_text(v@) ==> r@ == v@.map_values(|c: char| ascii_lower_char(c)),
{
    v.iter().collect::<String>().to_lowercase().chars().collect()
}

/// A text in lower case: ASCII text with `A`–`Z` mapped to `a`–`z`, other
/// text as std's `str::to_lowercase` gives it.
pub open spec fn lower_text(s: Seq<char>) -> Seq<char> {
    if is_ascii_text(s) {
        s.map_values(|c: char| ascii_lower_char(c))
    } else {
        lowercase(s)
    }
}

// ── Slices and comparisons ───────────────────────────────────────────────

pub fn slice(v: &Vec<char>, a: usize, b: usize) -> (r: Vec<char>)
    requires
        a <= b <= v.len(),
    ensures
        r@ == v@.subrange(a as int, b as int),
{
    let mut r: Vec<char> = Vec::new();
    let mut i = a;
    while i < b
        invariant
            a <= i <= b <= v.len(),
            r@ == v@.subrange(a as int, i as int),
        decreases b - i,
    {
        r.push(v[i]);
        i = i + 1;
        assert(r@ =~= v@.subrange(a as int, i as int));
    }
    r
}

pub fn copy_chars(v: &Vec<char>) -> (r: Vec<char>)
    ensures
        r@ == v@,
{
    let r = v.clone();
    assert(r@ =~= v@);
    r
}

pub fn concat(a: &Vec<char>, b: &Vec<char>) -> (r: Vec<char>)
    ensures
        r@ == a@ + b@,
{
    let mut r = a.clone();
    assert(r@ =~= a@);
    let mut i: usize = 0;
    while i < b.len()
        invariant
            i <= b.len(),
            r@ == a@ + b@.take(i as int),
        decreases b.len() - i,
    {
        r.push(b[i]);
        i = i + 1;
        assert(r@ =~= a@ + b@.take(i as int));
    }
    assert(b@.take(b.len() as int) =~= b@);
    r
}

pub fn push_all(r: &mut Vec<char>, b: &Vec<char>)
    ensures
        final(r)@ == old(r)@ + b@,
{
    let mut i: usize = 0;
    while i < b.len()
        invariant
            i <= b.len(),
            r@ == old(r)@ + b@.take(i as int),
        decreases b.len() - i,
    {
        r.push(b[i]);
        i = i + 1;
        assert(r@ =~= old(r)@ + b@.take(i as int));
    }
    assert(b@.take(b.len() as int) =~= b@);
}

pub fn eq_chars(a: &Vec<char>, b: &Vec<char>) -> (r: bool)
    ensures
        r == (a@ == b@),
{
    if a.len() != b.len() {
        return false;
    }
    let mut i: usize = 0;
    while i < a.len()
        invariant
            i <= a.len() == b.len(),
            a@.take(i as int) == b@.take(i as int),
        decreases a.len() - i,
    {
        if a[i] != b[i] {
            return false;
        }
        i = i + 1;
        assert(a@.take(i as int) =~= b@.take(i as int));
    }
    assert(a@ =~= a@.take(a.len() as int));
    assert(b@ =~= b@.take(b.len() as int));
    true
}

pub open spec fn starts_with(s: Seq<char>, p: Seq<char>) -> bool {
    p.len() <= s.len() && s.subrange(0, p.len() as int) == p
}

pub open spec fn ends_with(s: Seq<char>, p: Seq<char>) -> bool {
    p.len() <= s.len() && s.subrange(s.len() - p.len(), s.len() as int) == p
}

/// What `str::strip_prefix` returns.
pub open spec fn strip_prefix(s: Seq<char>, p: Seq<char>) -> Option<Seq<char>> {
    if starts_with(s, p) {
        Some(s.skip(p.len() as int))
    } else {
        None
    }
}

/// Whether `p` occurs in `s` starting at index `i`.
pub open spec fn occurs_at(s: Seq<char>, p: Seq<char>, i: int) -> bool {
    0 <= i && i + p.len() <= s.len() && s.subrange(i, i + p.len()) == p
}

pub open spec fn find_from(s: Seq<char>, p: Seq<char>, i: int) -> Option<int>
    decreases s.len() - i,
{
    if i < 0 || i + p.len() > s.len() {
        None
    } else if occurs_at(s, p, i) {
        Some(i)
    } else if i >= s.len() {
        None
    } else {
        find_from(s, p, i + 1)
    }
}

/// The first index at which `p` occurs in `s` (what `str::find` returns,
/// counted in characters).
pub open spec fn find(s: Seq<char>, p: Seq<char>) -> Option<int> {
    find_from(s, p, 0)
}

pub open spec fn contains(s: Seq<char>, p: Seq<char>) -> bool {
    find(s, p) is Some
}

pub proof fn lemma_find_from(s: Seq<char>, p: Seq<char>, i: int)
    requires
        0 <= i,
    ensures
        find_from(s, p, i) matches Some(k) ==> i <= k && occurs_at(s, p, k) && forall|j: int|
            i <= j < k ==> !occurs_at(s, p, j),
        find_from(s, p, i) is None ==> forall|j: int| i <= j ==> !occurs_at(s, p, j),
    decreases s.len() - i,
{
    if i + p.len() > s.len() {
    } else if occurs_at(s, p, i) {
    } else if i >= s.len() {
    } else {
        lemma_find_from(s, p, i + 1);
    }
}

pub proof fn lemma_find(s: Seq<char>, p: Seq<char>)
    ensures
        find(s, p) matches Some(k) ==> occurs_at(s, p, k) && forall|j: int|
            0 <= j < k ==> !occurs_at(s, p, j),
        find(s, p) is None ==> forall|j: int| 0 <= j ==> !occurs_at(s, p, j),
{
    lemma_find_from(s, p, 0);
}

/// `find(s, p)` is fixed by where `p` first occurs.
pub proof fn lemma_find_first(s: Seq<char>, p: Seq<char>, k: int)
    requires
        occurs_at(s, p, k),
        forall|j: int| 0 <= j < k ==> !occurs_at(s, p, j),
    ensures
        find(s, p) == Some(k),
{
    lemma_find(s, p);
}

/// A text in which `p` never occurs.
pub proof fn lemma_find_none(s: Seq<char>, p: Seq<char>)
    requires
        forall|j: int| 0 <= j ==> !occurs_at(s, p, j),
    ensures
        find(s, p) is None,
{
    lemma_find(s, p);
}

pub fn starts_with_at(v: &Vec<char>, p: &Vec<char>, i: usize) -> (r: bool)
    requires
        i <= v.len(),
    ensures
        r == occurs_at(v@, p@, i as int),
{
    if p.len() > v.len() - i {
        return false;
    }
    let mut k: usize = 0;
    while k < p.len()
        invariant
            k <= p.len(),
            i + p.len() <= v.len(),
            v@.subrange(i as int, i + k) == p@.take(k as int),
        decreases p.len() - k,
    {
        if v[i + k] != p[k] {
            assert(v@.subrange(i as int, i + p.len())[k as int] != p@[k as int]);
            return false;
        }
        k = k + 1;
        assert(v@.subrange(i as int, i + k) =~= p@.take(k as int));
    }
    assert(p@.take(p.len() as int) =~= p@);
    true
}

pub fn starts_with_chars(v: &Vec<char>, p: &Vec<char>) -> (r: bool)
    ensures
        r == starts_with(v@, p@),
{
    starts_with_at(v, p, 0)
}

pub fn ends_with_chars(v: &Vec<char>, p: &Vec<char>) -> (r: bool)
    ensures
        r == ends_with(v@, p@),
{
    if p.len() > v.len() {
        return false;
    }
    starts_with_at(v, p, v.len() - p.len())
}

pub fn strip_prefix_chars(v: &Vec<char>, p: &Vec<char>) -> (r: Option<Vec<char>>)
    ensures
        match r {
            Some(x) => strip_prefix(v@, p@) == Some(x@),
            None => strip_prefix(v@, p@) is None,
        },
{
    if starts_with_chars(v, p) {
        Some(slice(v, p.len(), v.len()))
    } else {
        None
    }
}

pub fn find_from_chars(v: &Vec<char>, p: &Vec<char>, from: usize) -> (r: Option<usize>)
    requires
        from <= v.len(),
    ensures
        match r {
            Some(k) => find_from(v@, p@, from as int) == Some(k as int),
            None => find_from(v@, p@, from as int) is None,
        },
{
    let mut i = from;
    while p.len() <= v.len() && i <= v.len() - p.len()
        invariant
            from <= i <= v.len(),
            find_from(v@, p@, from as int) == find_from(v@, p@, i as int),
        decreases v.len() - i,
    {
        if starts_with_at(v, p, i) {
            return Some(i);
        }
        assert(p@.len() == 0 ==> v@.subrange(i as int, i as int) =~= p@);
        i = i + 1;
    }
    None
}

pub fn find_chars(v: &Vec<char>, p: &Vec<char>) -> (r: Option<usize>)
    ensures
        match r {
            Some(k) => find(v@, p@) == Some(k as int),
            None => find(v@, p@) is None,
        },
{
    find_from_chars(v, p, 0)
}

pub fn contains_chars(v: &Vec<char>, p: &Vec<char>) -> (r: bool)
    ensures
        r == contains(v@, p@),
{
    find_chars(v, p).is_some()
}

/// First index of a character, if any.
pub open spec fn find_char(s: Seq<char>, c: char) -> Option<int> {
    find(s, seq![c])
}

pub fn find_char_in(v: &Vec<char>, c: char) -> (r: Option<usize>)
    ensures
        match r {
            Some(k) => find_char(v@, c) == Some(k as int),
            None => find_char(v@, c) is None,
        },
{
    let p = vec![c];
    assert(p@ =~= seq![c]);
    find_chars(v, &p)
}

// ── Trimming ─────────────────────────────────────────────────────────────

pub open spec fn trim_start(s: Seq<char>) -> Seq<char>
    decreases s.len(),
{
    if s.len() > 0 && is_ws(s[0]) {
        trim_start(s.drop_first())
    } else {
        s
    }
}

pub open spec fn trim_end(s: Seq<char>) -> Seq<char>
    decreases s.len(),
{
    if s.len() > 0 && is_ws(s.last()) {
        trim_end(s.drop_last())
    } else {
        s
    }
}

/// What `str::trim` returns.
pub open spec fn trim(s: Seq<char>) -> Seq<char> {
    trim_end(trim_start(s))
}

pub proof fn lemma_trim_start_skip(s: Seq<char>, i: int)
    requires
        0 <= i < s.len(),
        is_ws(s[i]),
    ensures
        trim_start(s.skip(i)) == trim_start(s.skip(i + 1)),
{
    assert(s.skip(i).drop_first() =~= s.skip(i + 1));
}

pub proof fn lemma_trim_end_take(s: Seq<char>, j: int)
    requires
        0 < j <= s.len(),
        is_ws(s[j - 1]),
    ensures
        trim_end(s.take(j)) == trim_end(s.take(j - 1)),
{
    assert(s.take(j).drop_last() =~= s.take(j - 1));
}

/// Texts that begin and end with a non-space character are their own trim.
pub proof fn lemma_trim_id(s: Seq<char>)
    requires
        s.len() > 0 ==> !is_ws(s[0]) && !is_ws(s.last()),
    ensures
        trim(s) == s,
{
}

pub fn trim_chars(v: &Vec<char>) -> (r: Vec<char>)
    ensures
        r@ == trim(v@),
{
    let mut i: usize = 0;
    assert(v@.skip(0) =~= v@);
    while i < v.len() && is_ws_char(v[i])
        invariant
            i <= v.len(),
            trim_start(v@) == trim_start(v@.skip(i as int)),
        decreases v.len() - i,
    {
        proof {
            lemma_trim_start_skip(v@, i as int);
        }
        i = i + 1;
    }
    let ghost ts = v@.skip(i as int);
    assert(trim_start(ts) == ts);
    let mut j: usize = v.len();
    assert(ts.take(j - i) =~= ts);
    while j > i && is_ws_char(v[j - 1])
        invariant
            i <= j <= v.len(),
            ts == v@.skip(i as int),
            trim_end(ts) == trim_end(ts.take(j - i)),
        decreases j,
    {
        proof {
            lemma_trim_end_take(ts, (j - i) as int);
        }
        j = j - 1;
    }
    assert(trim_end(ts.take(j - i)) == ts.take(j - i));
    assert(ts.take(j - i) =~= v@.subrange(i as int, j as int));
    slice(v, i, j)
}

pub fn trim_end_chars(v: &Vec<char>) -> (r: Vec<char>)
    ensures
        r@ == trim_end(v@),
{
    let mut j: usize = v.len();
    assert(v@.take(j as int) =~= v@);
    while j > 0 && is_ws_char(v[j - 1])
        invariant
            j <= v.len(),
            trim_end(v@) == trim_end(v@.take(j as int)),
        decreases j,
    {
        proof {
            lemma_trim_end_take(v@, j as int);
        }
        j = j - 1;
    }
    slice(v, 0, j)
}

pub fn trim_start_chars(v: &Vec<char>) -> (r: Vec<char>)
    ensures
        r@ == trim_start(v@),
{
    let mut i: usize = 0;
    assert(v@.skip(0) =~= v@);
    while i < v.len() && is_ws_char(v[i])
        invariant
            i <= v.len(),
            trim_start(v@) == trim_start(v@.skip(i as int)),
        decreases v.len() - i,
    {
        proof {
            lemma_trim_start_skip(v@, i as int);
        }
        i = i + 1;
    }
    slice(v, i, v.len())
}

// ── Lines ────────────────────────────────────────────────────────────────

pub open spec fn strip_cr(l: Seq<char>) -> Seq<char> {
    if l.len() > 0 && l.last() == '\r' {
        l.drop_last()
    } else {
        l
    }
}

/// Lines finished so far, and the line being read, after reading `s`.
pub open spec fn line_split(s: Seq<char>) -> (Seq<Seq<char>>, Seq<char>)
    decreases s.len(),
{
    if s.len() == 0 {
        (seq![], seq![])
    } else {
        let (done, cur) = line_split(s.drop_last());
        if s.last() == '\n' {
            (done.push(strip_cr(cur)), seq![])
        } else {
            (done, cur.push(s.last()))
        }
    }
}

/// What `str::lines` yields: the text split at `\n`, a `\r` before the `\n`
/// dropped, and no empty line after a final `\n`.
pub open spec fn lines(s: Seq<char>) -> Seq<Seq<char>> {
    let (done, cur) = line_split(s);
    if cur.len() == 0 {
        done
    } else {
        done.push(cur)
    }
}

pub fn lines_of(v: &Vec<char>) -> (r: Vec<Vec<char>>)
    ensures
        seqs(r@) == lines(v@),
{
    let mut done: Vec<Vec<char>> = Vec::new();
    let mut cur: Vec<char> = Vec::new();
    let mut i: usize = 0;
    while i < v.len()
        invariant
            i <= v.len(),
            line_split(v@.take(i as int)) == (seqs(done@), cur@),
        decreases v.len() - i,
    {
        assert(v@.take(i + 1).drop_last() =~= v@.take(i as int));
        if v[i] == '\n' {
            if cur.len() > 0 && cur[cur.len() - 1] == '\r' {
                cur.pop();
            }
            done.push(cur);
            cur = Vec::new();
        } else {
            cur.push(v[i]);
        }
        i = i + 1;
        assert(seqs(done@) =~= line_split(v@.take(i as int)).0);
        assert(cur@ =~= line_split(v@.take(i as int)).1);
    }
    assert(v@.take(v.len() as int) =~= v@);
    if cur.len() > 0 {
        done.push(cur);
    }
    assert(seqs(done@) =~= lines(v@));
    done
}

/// The lines of a string slice.
pub fn lines_of_str(s: &str) -> (r: Vec<Vec<char>>)
    ensures
        seqs(r@) == lines(s@),
{
    let v = chars_of(s);
    lines_of(&v)
}

// ── Words ────────────────────────────────────────────────────────────────

/// Words finished so far, and the word being read, after reading `s`.
pub open spec fn word_split(s: Seq<char>) -> (Seq<Seq<char>>, Seq<char>)
    decreases s.len(),
{
    if s.len() == 0 {
        (seq![], seq![])
    } else {
        let (done, cur) = word_split(s.drop_last());
        if is_ws(s.last()) {
            if cur.len() > 0 {
                (done.push(cur), seq![])
            } else {
                (done, cur)
            }
        } else {
            (done, cur.push(s.last()))
        }
    }
}

/// What `str::split_whitespace` yields: the maximal runs of non-space characters.
pub open spec fn words(s: Seq<char>) -> Seq<Seq<char>> {
    let (done, cur) = word_split(s);
    if cur.len() == 0 {
        done
    } else {
        done.push(cur)
    }
}

pub fn words_of(v: &Vec<char>) -> (r: Vec<Vec<char>>)
    ensures
        seqs(r@) == words(v@),
{
    let mut done: Vec<Vec<char>> = Vec::new();
    let mut cur: Vec<char> = Vec::new();
    let mut i: usize = 0;
    while i < v.len()
        invariant
            i <= v.len(),
            word_split(v@.take(i as int)) == (seqs(done@), cur@),
        decreases v.len() - i,
    {
        assert(v@.take(i + 1).drop_last() =~= v@.take(i as int));
        if is_ws_char(v[i]) {
            if cur.len() > 0 {
                done.push(cur);
                cur = Vec::new();
            }
        } else {
            cur.push(v[i]);
        }
        i = i + 1;
        assert(seqs(done@) =~= word_split(v@.take(i as int)).0);
        assert(cur@ =~= word_split(v@.take(i as int)).1);
    }
    assert(v@.take(v.len() as int) =~= v@);
    if cur.len() > 0 {
        done.push(cur);
    }
    assert(seqs(done@) =~= words(v@));
    done
}

/// A text without white space.
pub open spec fn no_ws(s: Seq<char>) -> bool {
    forall|i: int| 0 <= i < s.len() ==> !is_ws(s[i])
}

proof fn lemma_word_split_shape(s: Seq<char>)
    ensures
        forall|k: int|
            0 <= k < word_split(s).0.len() ==> #[trigger] word_split(s).0[k].len() > 0 && no_ws(
                word_split(s).0[k],
            ),
        no_ws(word_split(s).1),
    decreases s.len(),
{
    if s.len() > 0 {
        lemma_word_split_shape(s.drop_last());
        let (done, cur) = word_split(s.drop_last());
        if !is_ws(s.last()) {
            assert(forall|i: int| 0 <= i < cur.len() ==> cur.push(s.last())[i] == cur[i]);
        }
    }
}

/// The words of a text are nonempty and hold no white space.
pub proof fn lemma_words_shape(s: Seq<char>)
    ensures
        forall|k: int|
            0 <= k < words(s).len() ==> #[trigger] words(s)[k].len() > 0 && no_ws(words(s)[k]),
{
    lemma_word_split_shape(s);
}

// ── Splitting ────────────────────────────────────────────────────────────

/// The pieces of `s[i..]` between the occurrences of `p`, taken from the left
/// without overlap (what `str::split` yields for a nonempty pattern).
pub open spec fn split_from(s: Seq<char>, p: Seq<char>, i: int) -> Seq<Seq<char>>
    decreases s.len() - i,
{
    if p.len() == 0 || i < 0 || i > s.len() {
        seq![s.subrange(i, s.len() as int)]
    } else {
        match find_from(s, p, i) {
            Some(k) => {
                proof {
                    lemma_find_from(s, p, i);
                }
                seq![s.subrange(i, k)] + split_from(s, p, k + p.len())
            },
            None => seq![s.subrange(i, s.len() as int)],
        }
    }
}

pub fn split_chars(v: &Vec<char>, p: &Vec<char>) -> (r: Vec<Vec<char>>)
    requires
        p@.len() > 0,
    ensures
        seqs(r@) == split_from(v@, p@, 0),
{
    let mut out: Vec<Vec<char>> = Vec::new();
    let mut i: usize = 0;
    assert(seqs(out@) + split_from(v@, p@, 0) =~= split_from(v@, p@, 0));
    loop
        invariant
            i <= v.len(),
            p@.len() > 0,
            split_from(v@, p@, 0) == seqs(out@) + split_from(v@, p@, i as int),
        decreases v.len() - i,
    {
        let ghost o0 = seqs(out@);
        match find_from_chars(v, p, i) {
            Some(k) => {
                proof {
                    lemma_find_from(v@, p@, i as int);
                }
                assert(k + p.len() <= v.len());
                out.push(slice(v, i, k));
                assert(seqs(out@) =~= o0.push(v@.subrange(i as int, k as int)));
                assert(split_from(v@, p@, i as int) == seq![v@.subrange(i as int, k as int)]
                    + split_from(v@, p@, k + p@.len()));
                assert(seqs(out@) + split_from(v@, p@, k + p@.len()) =~= o0 + split_from(
                    v@,
                    p@,
                    i as int,
                ));
                i = k + p.len();
            },
            None => {
                out.push(slice(v, i, v.len()));
                assert(seqs(out@) =~= o0 + split_from(v@, p@, i as int));
                return out;
            },
        }
    }
}

/// A run of `n` spaces.
pub open spec fn spaces(n: nat) -> Seq<char> {
    Seq::new(n, |i: int| ' ')
}

/// `a - b`, or 0 where `b` is larger (`usize::saturating_sub`).
pub open spec fn sat_sub(a: int, b: int) -> int {
    if a >= b {
        a - b
    } else {
        0
    }
}

/// The characters of each string of a list.
pub fn chars_list(v: &Vec<String>) -> (r: Vec<Vec<char>>)
    ensures
        seqs(r@) == strs(v@),
{
    let mut r: Vec<Vec<char>> = Vec::new();
    let mut k: usize = 0;
    while k < v.len()
        invariant
            k <= v.len(),
            seqs(r@) == strs(v@).take(k as int),
        decreases v.len() - k,
    {
        let ghost r0 = seqs(r@);
        r.push(chars_of(v[k].as_str()));
        assert(seqs(r@) =~= r0.push(strs(v@)[k as int]));
        k = k + 1;
        assert(strs(v@).take(k as int) =~= r0.push(strs(v@)[k - 1]));
    }
    assert(strs(v@).take(v.len() as int) =~= strs(v@));
    r
}

// ── Joining ──────────────────────────────────────────────────────────────

/// What `[..].join(sep)` returns.
pub open spec fn join(ls: Seq<Seq<char>>, sep: Seq<char>) -> Seq<char>
    decreases ls.len(),
{
    if ls.len() == 0 {
        seq![]
    } else if ls.len() == 1 {
        ls[0]
    } else {
        join(ls.drop_last(), sep) + sep + ls.last()
    }
}

pub fn join_chars(ls: &Vec<Vec<char>>, sep: &Vec<char>) -> (r: Vec<char>)
    ensures
        r@ == join(seqs(ls@), sep@),
{
    let mut r: Vec<char> = Vec::new();
    let mut i: usize = 0;
    while i < ls.len()
        invariant
            i <= ls.len(),
            r@ == join(seqs(ls@).take(i as int), sep@),
        decreases ls.len() - i,
    {
        assert(seqs(ls@).take(i + 1).drop_last() =~= seqs(ls@).take(i as int));
        if i > 0 {
            push_all(&mut r, sep);
        }
        push_all(&mut r, &ls[i]);
        i = i + 1;
        assert(r@ =~= join(seqs(ls@).take(i as int), sep@));
    }
    assert(seqs(ls@).take(ls.len() as int) =~= seqs(ls@));
    r
}

// ── Numbers ──────────────────────────────────────────────────────────────

pub open spec fn all_digits(s: Seq<char>) -> bool {
    forall|i: int| 0 <= i < s.len() ==> is_digit(s[i])
}

pub open spec fn digits_value(s: Seq<char>) -> int
    decreases s.len(),
{
    if s.len() == 0 {
        0
    } else {
        digits_value(s.drop_last()) * 10 + digit_value(s.last())
    }
}

/// The digits that an unsigned number in text holds after an optional `+`,
/// if they are nonempty and all ASCII digits.
pub open spec fn unsigned_digits(s: Seq<char>) -> Option<Seq<char>> {
    let d = if s.len() > 0 && s[0] == '+' {
        s.drop_first()
    } else {
        s
    };
    if d.len() > 0 && all_digits(d) {
        Some(d)
    } else {
        None
    }
}

/// What `str::parse::<uN>` returns, for a type whose largest value is `max`.
pub open spec fn parse_unsigned(s: Seq<char>, max: int) -> Option<int> {
    match unsigned_digits(s) {
        Some(d) => if digits_value(d) <= max {
            Some(digits_value(d))
        } else {
            None
        },
        None => None,
    }
}

/// What `str::parse::<i32>` returns: an optional sign, then ASCII digits,
/// within the range of `i32`.
pub open spec fn parse_i32_spec(s: Seq<char>) -> Option<int> {
    if s.len() > 0 && s[0] == '-' {
        let d = s.drop_first();
        if d.len() > 0 && all_digits(d) && digits_value(d) <= 0x8000_0000 {
            Some(-digits_value(d))
        } else {
            None
        }
    } else {
        parse_unsigned(s, 0x7fff_ffff)
    }
}

proof fn lemma_digits_value_nonneg(s: Seq<char>)
    requires
        all_digits(s),
    ensures
        digits_value(s) >= 0,
    decreases s.len(),
{
    if s.len() > 0 {
        lemma_digits_value_nonneg(s.drop_last());
    }
}

/// Reads ASCII digits from `v[from..]` as a number not above `max`; `None`
/// when a character is not a digit, there are none, or the value is above `max`.
fn digits_upto(v: &Vec<char>, from: usize, max: u64) -> (r: Option<u64>)
    requires
        from <= v.len(),
        max <= 0x1_0000_0000,
    ensures
        ({
            let d = v@.skip(from as int);
            match r {
                Some(x) => d.len() > 0 && all_digits(d) && digits_value(d) == x && x <= max,
                None => !(d.len() > 0 && all_digits(d) && digits_value(d) <= max),
            }
        }),
{
    let ghost d = v@.skip(from as int);
    if from == v.len() {
        return None;
    }
    let mut acc: u64 = 0;
    let mut over = false;
    let mut i = from;
    while i < v.len()
        invariant
            from <= i <= v.len(),
            d == v@.skip(from as int),
            max <= 0x1_0000_0000,
            all_digits(d.take(i - from)),
            over ==> digits_value(d.take(i - from)) > max,
            !over ==> acc == digits_value(d.take(i - from)) && acc <= max,
        decreases v.len() - i,
    {
        if !is_digit_char(v[i]) {
            assert(!is_digit(d[i - from]));
            return None;
        }
        assert(d.take(i - from + 1).drop_last() =~= d.take(i - from));
        proof {
            lemma_digits_value_nonneg(d.take(i - from));
        }
        if !over {
            let nv = acc * 10 + (v[i] as u32 - 48) as u64;
            if nv > max {
                over = true;
            } else {
                acc = nv;
            }
        }
        i = i + 1;
        assert(all_digits(d.take(i - from)));
    }
    assert(d.take(v.len() - from) =~= d);
    if over {
        None
    } else {
        Some(acc)
    }
}

/// `str::parse::<u8>`.
pub fn parse_u8(v: &Vec<char>) -> (r: Option<u8>)
    ensures
        match r {
            Some(x) => parse_unsigned(v@, 255) == Some(x as int),
            None => parse_unsigned(v@, 255) is None,
        },
{
    let start: usize = if v.len() > 0 && v[0] == '+' { 1 } else { 0 };
    assert(start == 1 ==> v@.drop_first() =~= v@.skip(1));
    assert(start == 0 ==> v@ =~= v@.skip(0));
    match digits_upto(v, start, 255) {
        Some(x) => Some(x as u8),
        None => None,
    }
}

/// `str::parse::<u32>`.
pub fn parse_u32(v: &Vec<char>) -> (r: Option<u32>)
    ensures
        match r {
            Some(x) => parse_unsigned(v@, 0xffff_ffff) == Some(x as int),
            None => parse_unsigned(v@, 0xffff_ffff) is None,
        },
{
    let start: usize = if v.len() > 0 && v[0] == '+' { 1 } else { 0 };
    assert(start == 1 ==> v@.drop_first() =~= v@.skip(1));
    assert(start == 0 ==> v@ =~= v@.skip(0));
    match digits_upto(v, start, 0xffff_ffff) {
        Some(x) => Some(x as u32),
        None => None,
    }
}

/// `str::parse::<i32>`.
pub fn parse_i32(v: &Vec<char>) -> (r: Option<i32>)
    ensures
        match r {
            Some(x) => parse_i32_spec(v@) == Some(x as int),
            None => parse_i32_spec(v@) is None,
        },
{
    if v.len() > 0 && v[0] == '-' {
        assert(v@.drop_first() =~= v@.skip(1));
        match digits_upto(v, 1, 0x8000_0000) {
            Some(x) => Some((0 - (x as i64)) as i32),
            None => None,
        }
    } else {
        let start: usize = if v.len() > 0 && v[0] == '+' { 1 } else { 0 };
        assert(start == 1 ==> v@.drop_first() =~= v@.skip(1));
        assert(start == 0 ==> v@ =~= v@.skip(0));
        match digits_upto(v, start, 0x7fff_ffff) {
            Some(x) => Some(x as i32),
            None => None,
        }
    }
}


// ── Facts used by the laws ───────────────────────────────────────────────

/// Each line followed by a newline.
pub open spec fn join_lines(ls: Seq<Seq<char>>) -> Seq<char>
    decreases ls.len(),
{
    if ls.len() == 0 {
        seq![]
    } else {
        join_lines(ls.drop_last()) + ls.last() + seq!['\n']
    }
}

pub open spec fn no_newline(s: Seq<char>) -> bool {
    forall|i: int| 0 <= i < s.len() ==> s[i] != '\n'
}

/// A line that `lines` gives back unchanged: no newline in it and no
/// carriage return at its end.
pub open spec fn plain_line(l: Seq<char>) -> bool {
    no_newline(l) && !(l.len() > 0 && l.last() == '\r')
}

pub proof fn lemma_join_lines_concat(a: Seq<Seq<char>>, b: Seq<Seq<char>>)
    ensures
        join_lines(a + b) == join_lines(a) + join_lines(b),
    decreases b.len(),
{
    if b.len() == 0 {
        assert(a + b =~= a);
    } else {
        assert((a + b).drop_last() =~= a + b.drop_last());
        lemma_join_lines_concat(a, b.drop_last());
        assert(join_lines(a + b) =~= join_lines(a) + join_lines(b));
    }
}

pub proof fn lemma_join_lines_one(l: Seq<char>)
    ensures
        join_lines(seq![l]) == l + seq!['\n'],
{
    assert(seq![l].drop_last() =~= Seq::<Seq<char>>::empty());
    assert(join_lines(seq![l].drop_last()) =~= Seq::<char>::empty());
    assert(seq![l].last() == l);
    assert(join_lines(seq![l]) =~= l + seq!['\n']);
}

proof fn lemma_line_split_append(p: Seq<char>, q: Seq<char>)
    requires
        no_newline(q),
    ensures
        line_split(p + q) == (line_split(p).0, line_split(p).1 + q),
    decreases q.len(),
{
    if q.len() == 0 {
        assert(p + q =~= p);
        assert(line_split(p).1 + q =~= line_split(p).1);
    } else {
        assert((p + q).drop_last() =~= p + q.drop_last());
        lemma_line_split_append(p, q.drop_last());
        assert((line_split(p).1 + q.drop_last()).push(q.last()) =~= line_split(p).1 + q);
    }
}

pub proof fn lemma_line_split_append_pub(p: Seq<char>, q: Seq<char>)
    requires
        no_newline(q),
    ensures
        line_split(p + q) == (line_split(p).0, line_split(p).1 + q),
{
    lemma_line_split_append(p, q);
}

/// Splitting lines that were joined, each ended by a newline, gives them back.
pub proof fn lemma_lines_join_lines(ls: Seq<Seq<char>>)
    requires
        forall|i: int| 0 <= i < ls.len() ==> plain_line(#[trigger] ls[i]),
    ensures
        line_split(join_lines(ls)) == (ls, Seq::<char>::empty()),
        lines(join_lines(ls)) == ls,
    decreases ls.len(),
{
    if ls.len() == 0 {
        assert(ls =~= Seq::<Seq<char>>::empty());
    } else {
        let init = ls.drop_last();
        assert forall|i: int| 0 <= i < init.len() implies plain_line(#[trigger] init[i]) by {
            assert(init[i] == ls[i]);
        }
        lemma_lines_join_lines(init);
        let p = join_lines(init);
        let l = ls.last();
        assert(plain_line(ls[ls.len() - 1]));
        lemma_line_split_append(p, l);
        let s = p + l + seq!['\n'];
        assert(s.drop_last() =~= p + l);
        assert(Seq::<char>::empty() + l =~= l);
        assert(init.push(l) =~= ls);
    }
}

/// Joining lines each ended by a newline is joining them by newlines, then a newline.
pub proof fn lemma_join_lines_join(ls: Seq<Seq<char>>)
    requires
        ls.len() > 0,
    ensures
        join_lines(ls) == join(ls, seq!['\n']) + seq!['\n'],
    decreases ls.len(),
{
    if ls.len() == 1 {
        lemma_join_lines_one(ls[0]);
        assert(ls =~= seq![ls[0]]);
    } else {
        lemma_join_lines_join(ls.drop_last());
        assert(join_lines(ls) =~= join(ls, seq!['\n']) + seq!['\n']);
    }
}

pub proof fn lemma_join_concat(a: Seq<Seq<char>>, b: Seq<Seq<char>>, sep: Seq<char>)
    requires
        a.len() > 0,
        b.len() > 0,
    ensures
        join(a + b, sep) == join(a, sep) + sep + join(b, sep),
    decreases b.len(),
{
    if b.len() == 1 {
        assert((a + b).drop_last() =~= a);
        assert(b =~= seq![b[0]]);
    } else {
        assert((a + b).drop_last() =~= a + b.drop_last());
        lemma_join_concat(a, b.drop_last(), sep);
        assert(join(a + b, sep) =~= join(a, sep) + sep + join(b, sep));
    }
}

pub open spec fn all_ws(s: Seq<char>) -> bool {
    forall|i: int| 0 <= i < s.len() ==> is_ws(s[i])
}

proof fn lemma_trim_start_ws_prefix(a: Seq<char>, n: Seq<char>)
    requires
        all_ws(a),
        n.len() > 0,
        !is_ws(n[0]),
    ensures
        trim_start(a + n) == n,
    decreases a.len(),
{
    if a.len() == 0 {
        assert(a + n =~= n);
    } else {
        assert((a + n).drop_first() =~= a.drop_first() + n);
        lemma_trim_start_ws_prefix(a.drop_first(), n);
    }
}

proof fn lemma_trim_end_ws_suffix(n: Seq<char>, c: Seq<char>)
    requires
        all_ws(c),
        n.len() > 0,
        !is_ws(n.last()),
    ensures
        trim_end(n + c) == n,
    decreases c.len(),
{
    if c.len() == 0 {
        assert(n + c =~= n);
    } else {
        assert((n + c).drop_last() =~= n + c.drop_last());
        lemma_trim_end_ws_suffix(n, c.drop_last());
    }
}

/// Trimming a text that is spaces, a word-bounded text, then spaces gives that text.
pub proof fn lemma_trim_wrap(a: Seq<char>, n: Seq<char>, c: Seq<char>)
    requires
        all_ws(a),
        all_ws(c),
        n.len() > 0,
        !is_ws(n[0]),
        !is_ws(n.last()),
    ensures
        trim(a + n + c) == n,
{
    assert(a + n + c =~= a + (n + c));
    lemma_trim_start_ws_prefix(a, n + c);
    lemma_trim_end_ws_suffix(n, c);
}

/// A text that its trim leaves unchanged, when nonempty, begins and ends with
/// a non-space.
pub proof fn lemma_trimmed_ends(n: Seq<char>)
    requires
        trim(n) == n,
        n.len() > 0,
    ensures
        !is_ws(n[0]),
        !is_ws(n.last()),
{
    lemma_trim_start_len(n);
    lemma_trim_end_len(trim_start(n));
    if is_ws(n[0]) {
        assert(trim_start(n) == trim_start(n.drop_first()));
        lemma_trim_start_len(n.drop_first());
    }
    if is_ws(n.last()) {
        lemma_trim_end_last(trim_start(n));
    }
}

proof fn lemma_trim_start_len(s: Seq<char>)
    ensures
        trim_start(s).len() <= s.len(),
    decreases s.len(),
{
    if s.len() > 0 && is_ws(s[0]) {
        lemma_trim_start_len(s.drop_first());
    }
}

proof fn lemma_trim_end_len(s: Seq<char>)
    ensures
        trim_end(s).len() <= s.len(),
    decreases s.len(),
{
    if s.len() > 0 && is_ws(s.last()) {
        lemma_trim_end_len(s.drop_last());
    }
}

proof fn lemma_trim_end_last(s: Seq<char>)
    ensures
        trim_end(s).len() > 0 ==> !is_ws(trim_end(s).last()),
    decreases s.len(),
{
    if s.len() > 0 && is_ws(s.last()) {
        lemma_trim_end_last(s.drop_last());
    }
}

/// A text that begins with a non-space has a nonempty trim.
pub proof fn lemma_trim_nonempty(s: Seq<char>)
    requires
        s.len() > 0,
        !is_ws(s[0]),
    ensures
        trim(s).len() > 0,
{
    assert(trim_start(s) == s);
    lemma_trim_end_keeps_first(s);
}

proof fn lemma_trim_end_keeps_first(s: Seq<char>)
    requires
        s.len() > 0,
        !is_ws(s[0]),
    ensures
        trim_end(s).len() > 0,
    decreases s.len(),
{
    if is_ws(s.last()) {
        if s.len() > 1 {
            lemma_trim_end_keeps_first(s.drop_last());
        }
    }
}

/// A fold over two sequences one after the other.
pub proof fn lemma_fold_concat<B>(a: Seq<Seq<char>>, b: Seq<Seq<char>>, x: B, f: spec_fn(B, Seq<char>) -> B)
    ensures
        (a + b).fold_left(x, f) == b.fold_left(a.fold_left(x, f), f),
{
    let s = a + b;
    s.lemma_fold_left_split(x, f, a.len() as int);
    assert(s.subrange(0, a.len() as int) =~= a);
    assert(s.subrange(a.len() as int, s.len() as int) =~= b);
}

} // verus!
