//! The note title: a front-matter `title:` line when present, otherwise the
//! first single-`#` heading. Only the first match of a rule counts.

use vstd::prelude::*;

use crate::parsers::parser::first_capture;
use crate::strings::{chars_vec, line_end, line_end_vec, string_from_chars, subvec, trim_spec,
    trim_vec};

verus! {

/// A front-matter title line starts at `i`: `title: ` followed by at least
/// one character before the line ends.
pub open spec fn title_fm_at(t: Seq<char>, i: int) -> bool {
    0 <= i && i + 7 < t.len() && t[i] == 't' && t[i + 1] == 'i' && t[i + 2] == 't' && t[i + 3]
        == 'l' && t[i + 4] == 'e' && t[i + 5] == ':' && t[i + 6] == ' ' && t[i + 7] != '\n'
}

/// The capture of a front-matter title line: the rest of the line, trimmed.
pub open spec fn title_fm_cap(t: Seq<char>, i: int) -> Seq<char> {
    trim_spec(t.subrange(i + 7, line_end(t, i + 7)))
}

/// A single-`#` heading starts at `i`: a `#` not preceded by another `#`,
/// a space, and at least one character before the line ends.
pub open spec fn title_h_at(t: Seq<char>, i: int) -> bool {
    0 <= i && i + 2 < t.len() && t[i] == '#' && (i == 0 || t[i - 1] != '#') && t[i + 1] == ' '
        && t[i + 2] != '\n'
}

/// The capture of a heading: the rest of the line, trimmed.
pub open spec fn title_h_cap(t: Seq<char>, i: int) -> Seq<char> {
    trim_spec(t.subrange(i + 2, line_end(t, i + 2)))
}

/// The first front-matter title capture at or after `i`.
pub open spec fn title_fm_first(t: Seq<char>, i: int) -> Option<Seq<char>> {
    first_capture(
        t,
        i,
        |tt: Seq<char>, ii: int| title_fm_at(tt, ii),
        |tt: Seq<char>, ii: int| title_fm_cap(tt, ii),
    )
}

/// The first heading capture at or after `i`.
pub open spec fn title_h_first(t: Seq<char>, i: int) -> Option<Seq<char>> {
    first_capture(
        t,
        i,
        |tt: Seq<char>, ii: int| title_h_at(tt, ii),
        |tt: Seq<char>, ii: int| title_h_cap(tt, ii),
    )
}

/// The title of a text: the first front-matter title line when one exists,
/// else the first single-`#` heading, else nothing.
pub open spec fn title_spec(t: Seq<char>) -> Option<Seq<char>> {
    match title_fm_first(t, 0) {
        Some(c) => Some(c),
        None => title_h_first(t, 0),
    }
}

/// The front-matter rule stands before the heading rule: whenever it
/// matches anywhere, the heading rule is never consulted.
pub proof fn lemma_title_precedence(t: Seq<char>)
    ensures
        title_fm_first(t, 0) is Some ==> title_spec(t) == title_fm_first(t, 0),
{
}

/// The extractor for the note title.
pub struct Title {}

impl Title {
    /// The title of `data`, by the front-matter rule first and the heading
    /// rule second.
    pub fn parse(data: &str) -> (r: Option<String>)
        ensures
            match r {
                Some(s) => title_spec(data@) == Some(s@),
                None => title_spec(data@) is None,
            },
    {
        let t = chars_vec(data);
        let mut i: usize = 0;
        while i < t.len()
            invariant
                t@ == data@,
                0 <= i <= t@.len(),
                title_fm_first(t@, 0) == title_fm_first(t@, i as int),
            decreases t@.len() - i,
        {
            let m: bool = t.len() - i > 7 && t[i] == 't' && t[i + 1] == 'i' && t[i + 2] == 't'
                && t[i + 3] == 'l' && t[i + 4] == 'e' && t[i + 5] == ':' && t[i + 6] == ' '
                && t[i + 7] != '\n';
            if m {
                let e = line_end_vec(&t, i + 7);
                let raw = subvec(&t, i + 7, e);
                let trimmed = trim_vec(&raw);
                proof {
                    assert(title_fm_at(t@, i as int));
                    assert(trimmed@ == title_fm_cap(t@, i as int));
                    assert(title_fm_first(t@, i as int) == Some(title_fm_cap(t@, i as int)));
                }
                return Some(string_from_chars(&trimmed));
            }
            proof {
                assert(!title_fm_at(t@, i as int));
            }
            i += 1;
        }
        let mut k: usize = 0;
        while k < t.len()
            invariant
                t@ == data@,
                0 <= k <= t@.len(),
                title_fm_first(t@, 0) is None,
                title_h_first(t@, 0) == title_h_first(t@, k as int),
            decreases t@.len() - k,
        {
            let m: bool = t.len() - k > 2 && t[k] == '#' && (k == 0 || t[k - 1] != '#') && t[k
                + 1] == ' ' && t[k + 2] != '\n';
            if m {
                let e = line_end_vec(&t, k + 2);
                let raw = subvec(&t, k + 2, e);
                let trimmed = trim_vec(&raw);
                proof {
                    assert(title_h_at(t@, k as int));
                    assert(trimmed@ == title_h_cap(t@, k as int));
                    assert(title_h_first(t@, k as int) == Some(title_h_cap(t@, k as int)));
                }
                return Some(string_from_chars(&trimmed));
            }
            proof {
                assert(!title_h_at(t@, k as int));
            }
            k += 1;
        }
        None
    }
}

} // verus!
