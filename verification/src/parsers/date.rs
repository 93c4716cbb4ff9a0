//! The note date: a front-matter `date:` line whose value must match the
//! fixed format `YYYY-MM-DD HH:MM AM|PM`. A missing line or a malformed
//! value yields nothing; the parse never fails loudly.

use vstd::prelude::*;

use crate::parsers::parser::first_capture;
use crate::strings::{
    chars_vec, line_end, line_end_vec, subvec, trim_char_end_spec, trim_char_end_vec,
    trim_char_start_spec, trim_char_start_vec, trim_spec, trim_vec,
};

verus! {

/// A calendar date and wall-clock time, to the minute, in local time.
#[derive(Clone, Copy, Debug, PartialEq, Eq, Structural)]
pub struct NoteDate {
    /// Four-digit year.
    pub year: u32,
    /// Month, 1 through 12.
    pub month: u32,
    /// Day of the month, valid for the month and year.
    pub day: u32,
    /// Hour on the 24-hour clock, 0 through 23.
    pub hour: u32,
    /// Minute, 0 through 59.
    pub minute: u32,
}

/// A word character, for the word boundary in front of the date label.
pub open spec fn word_char(c: char) -> bool {
    ('a' <= c && c <= 'z') || ('A' <= c && c <= 'Z') || ('0' <= c && c <= '9') || c == '_'
}

/// Executable test for [`word_char`].
pub fn word_char_exec(c: char) -> (b: bool)
    ensures
        b == word_char(c),
{
    ('a' <= c && c <= 'z') || ('A' <= c && c <= 'Z') || ('0' <= c && c <= '9') || c == '_'
}

/// A front-matter date line starts at `i`: `date: ` on a word boundary,
/// followed by at least one character before the line ends.
pub open spec fn date_at(t: Seq<char>, i: int) -> bool {
    0 <= i && i + 6 < t.len() && (i == 0 || !word_char(t[i - 1])) && t[i] == 'd' && t[i + 1]
        == 'a' && t[i + 2] == 't' && t[i + 3] == 'e' && t[i + 4] == ':' && t[i + 5] == ' ' && t[i
        + 6] != '\n'
}

/// The captured date text: the rest of the line, trimmed, with surrounding
/// double quotes stripped.
pub open spec fn date_cap(t: Seq<char>, i: int) -> Seq<char> {
    trim_char_end_spec(
        trim_char_start_spec(trim_spec(t.subrange(i + 6, line_end(t, i + 6))), '"'),
        '"',
    )
}

/// The first captured date text of `t`, if any.
pub open spec fn date_first(t: Seq<char>, i: int) -> Option<Seq<char>> {
    first_capture(
        t,
        i,
        |tt: Seq<char>, ii: int| date_at(tt, ii),
        |tt: Seq<char>, ii: int| date_cap(tt, ii),
    )
}

/// A decimal digit.
pub open spec fn digit(c: char) -> bool {
    '0' <= c && c <= '9'
}

/// The value of a decimal digit.
pub open spec fn dval(c: char) -> int {
    c as int - '0' as int
}

/// Whether `y` is a leap year.
pub open spec fn is_leap(y: int) -> bool {
    y % 4 == 0 && (y % 100 != 0 || y % 400 == 0)
}

/// The number of days in month `m` of year `y`.
pub open spec fn days_in_month(y: int, m: int) -> int {
    if m == 2 {
        if is_leap(y) {
            29
        } else {
            28
        }
    } else if m == 4 || m == 6 || m == 9 || m == 11 {
        30
    } else {
        31
    }
}

/// The hour on the 24-hour clock for an `AM`/`PM` hour.
pub open spec fn hour24(h12: int, pm: bool) -> int {
    if pm {
        if h12 == 12 {
            12
        } else {
            h12 + 12
        }
    } else {
        if h12 == 12 {
            0
        } else {
            h12
        }
    }
}

/// Whether `s` has the exact shape `YYYY-MM-DD HH:MM AM|PM`, digits and
/// punctuation each in place.
pub open spec fn datetime_shape(s: Seq<char>) -> bool {
    s.len() == 19 && digit(s[0]) && digit(s[1]) && digit(s[2]) && digit(s[3]) && s[4] == '-'
        && digit(s[5]) && digit(s[6]) && s[7] == '-' && digit(s[8]) && digit(s[9]) && s[10] == ' '
        && digit(s[11]) && digit(s[12]) && s[13] == ':' && digit(s[14]) && digit(s[15]) && s[16]
        == ' ' && (s[17] == 'A' || s[17] == 'P') && s[18] == 'M'
}

/// The datetime that `s` denotes under the fixed format, or nothing when the
/// shape or a field is out of range.
pub open spec fn datetime_of(s: Seq<char>) -> Option<NoteDate> {
    if datetime_shape(s) {
        let y = 1000 * dval(s[0]) + 100 * dval(s[1]) + 10 * dval(s[2]) + dval(s[3]);
        let mo = 10 * dval(s[5]) + dval(s[6]);
        let dy = 10 * dval(s[8]) + dval(s[9]);
        let h12 = 10 * dval(s[11]) + dval(s[12]);
        let mi = 10 * dval(s[14]) + dval(s[15]);
        if 1 <= mo <= 12 && 1 <= dy <= days_in_month(y, mo) && 1 <= h12 <= 12 && mi <= 59 {
            Some(
                NoteDate {
                    year: y as u32,
                    month: mo as u32,
                    day: dy as u32,
                    hour: hour24(h12, s[17] == 'P') as u32,
                    minute: mi as u32,
                },
            )
        } else {
            None
        }
    } else {
        None
    }
}

/// The date of a text: the first captured date value when it parses under
/// the fixed format, nothing otherwise.
pub open spec fn date_spec(t: Seq<char>) -> Option<NoteDate> {
    match date_first(t, 0) {
        Some(c) => datetime_of(c),
        None => None,
    }
}

/// The extractor for the note date.
pub struct Date {}

impl Date {
    /// The date of `data`: the first `date:` line, parsed strictly against
    /// the fixed format, swallowed when malformed.
    pub fn parse(data: &str) -> (r: Option<NoteDate>)
        ensures
            r == date_spec(data@),
    {
        let t = chars_vec(data);
        let mut i: usize = 0;
        while i < t.len()
            invariant
                t@ == data@,
                0 <= i <= t@.len(),
                date_first(t@, 0) == date_first(t@, i as int),
            decreases t@.len() - i,
        {
            let m: bool = t.len() - i > 6 && (i == 0 || !word_char_exec(t[i - 1])) && t[i]
                == 'd' && t[i + 1] == 'a' && t[i + 2] == 't' && t[i + 3] == 'e' && t[i + 4]
                == ':' && t[i + 5] == ' ' && t[i + 6] != '\n';
            if m {
                let e = line_end_vec(&t, i + 6);
                let raw = subvec(&t, i + 6, e);
                let trimmed = trim_vec(&raw);
                let q1 = trim_char_start_vec(&trimmed, '"');
                let cap = trim_char_end_vec(&q1, '"');
                proof {
                    assert(date_at(t@, i as int));
                    assert(cap@ == date_cap(t@, i as int));
                    assert(date_first(t@, i as int) == Some(date_cap(t@, i as int)));
                }
                return parse_datetime(&cap);
            }
            proof {
                assert(!date_at(t@, i as int));
            }
            i += 1;
        }
        None
    }
}

/// Parses a captured date value strictly against the fixed format.
fn parse_datetime(s: &Vec<char>) -> (r: Option<NoteDate>)
    ensures
        r == datetime_of(s@),
{
    if s.len() != 19 {
        return None;
    }
    let shape: bool = digit_exec(s[0]) && digit_exec(s[1]) && digit_exec(s[2]) && digit_exec(
        s[3],
    ) && s[4] == '-' && digit_exec(s[5]) && digit_exec(s[6]) && s[7] == '-' && digit_exec(s[8])
        && digit_exec(s[9]) && s[10] == ' ' && digit_exec(s[11]) && digit_exec(s[12]) && s[13]
        == ':' && digit_exec(s[14]) && digit_exec(s[15]) && s[16] == ' ' && (s[17] == 'A' || s[17]
        == 'P') && s[18] == 'M';
    if !shape {
        return None;
    }
    let y: u32 = 1000 * dval_exec(s[0]) + 100 * dval_exec(s[1]) + 10 * dval_exec(s[2])
        + dval_exec(s[3]);
    let mo: u32 = 10 * dval_exec(s[5]) + dval_exec(s[6]);
    let dy: u32 = 10 * dval_exec(s[8]) + dval_exec(s[9]);
    let h12: u32 = 10 * dval_exec(s[11]) + dval_exec(s[12]);
    let mi: u32 = 10 * dval_exec(s[14]) + dval_exec(s[15]);
    if !(1 <= mo && mo <= 12 && 1 <= h12 && h12 <= 12 && mi <= 59) {
        return None;
    }
    let dim: u32 = days_in_month_exec(y, mo);
    if !(1 <= dy && dy <= dim) {
        return None;
    }
    let h: u32 = if s[17] == 'P' {
        if h12 == 12 {
            12
        } else {
            h12 + 12
        }
    } else {
        if h12 == 12 {
            0
        } else {
            h12
        }
    };
    Some(NoteDate { year: y, month: mo, day: dy, hour: h, minute: mi })
}

/// Executable test for [`digit`].
fn digit_exec(c: char) -> (b: bool)
    ensures
        b == digit(c),
{
    '0' <= c && c <= '9'
}

/// The value of a digit character.
fn dval_exec(c: char) -> (v: u32)
    requires
        digit(c),
    ensures
        v == dval(c),
        v <= 9,
{
    c as u32 - '0' as u32
}

/// Computes [`days_in_month`].
fn days_in_month_exec(y: u32, m: u32) -> (d: u32)
    ensures
        d == days_in_month(y as int, m as int),
{
    if m == 2 {
        if y % 4 == 0 && (y % 100 != 0 || y % 400 == 0) {
            29
        } else {
            28
        }
    } else if m == 4 || m == 6 || m == 9 || m == 11 {
        30
    } else {
        31
    }
}

} // verus!
