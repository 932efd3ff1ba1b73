//! The calls this library makes into outside crates, each behind a small
//! function whose contract states what the crate's documentation and source
//! give of it.
use vstd::prelude::*;

verus! {

/// Names the number of days from the second `YYYY-MM-DD` date to the first,
/// when chrono parses both.
pub uninterp spec fn ymd_gap(curr: Seq<char>, prev: Seq<char>) -> Option<int>;

/// Parses two dates with `chrono::NaiveDate::parse_from_str(_, "%Y-%m-%d")`
/// and, when both parse, returns `(curr - prev).num_days()`. The result is the
/// name `ymd_gap` of the two texts; chrono's date grammar is not restated.
#[verifier::external_body]
pub fn date_gap(curr: &str, prev: &str) -> (r: Option<i64>)
    ensures
        match r {
            Some(d) => ymd_gap(curr@, prev@) == Some(d as int),
            None => ymd_gap(curr@, prev@) is None,
        },
{
    match (
        chrono::NaiveDate::parse_from_str(curr, "%Y-%m-%d"),
        chrono::NaiveDate::parse_from_str(prev, "%Y-%m-%d"),
    ) {
        (Ok(c), Ok(p)) => Some((c - p).num_days()),
        _ => None,
    }
}

/// Names the display width that `unicode_width` gives a character.
pub uninterp spec fn char_width(c: char) -> Option<nat>;

/// Calls `unicode_width::UnicodeWidthChar::width`: the columns a character
/// takes, `None` for control characters. The result is the name `char_width`;
/// what the crate's source gives plainly is stated: printable ASCII takes one
/// column, the C0 and C1 control codes (and DEL) have no width, and every
/// character from U+00A0 on has one. The Unicode width tables are not restated.
#[verifier::external_body]
pub fn unicode_char_width(c: char) -> (r: Option<usize>)
    ensures
        match r {
            Some(w) => char_width(c) == Some(w as nat),
            None => char_width(c) is None,
        },
        0x20 <= (c as u32) < 0x7F ==> r == Some(1usize),
        (c as u32) < 0x20 || 0x7F <= (c as u32) < 0xA0 ==> r is None,
        (c as u32) >= 0xA0 ==> r is Some,
{
    unicode_width::UnicodeWidthChar::width(c)
}

/// Calls `dirs::home_dir()` and converts the path to text (lossily, for a
/// path that is not UTF-8). It depends on the environment; what is stated is
/// what the crate's documentation gives for Linux and macOS, and what its
/// Unix source checks: an empty `$HOME` or passwd entry gives `None`, so a
/// home directory, when there is one, is not empty.
#[verifier::external_body]
pub fn home_dir() -> (r: Option<String>)
    ensures
        r matches Some(h) ==> h@.len() > 0,
{
    match dirs::home_dir() {
        Some(p) => Some(p.to_string_lossy().into_owned()),
        None => None,
    }
}

} // verus!
