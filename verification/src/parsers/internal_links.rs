//! Internal markdown links: `[label](target)` where the target holds
//! letters, digits, hyphens, slashes, dots and underscores. Targets that are
//! web addresses belong to the web-link set and are excluded here.

use vstd::prelude::*;

use crate::parsers::parser::scan_captures;
use crate::strings::{
    chars_vec, contains_string, dedup_spec, lemma_run_len_exact, line_end, line_end_vec, run_len,
    starts_with_seq, starts_with_vec, string_from_chars, subvec, views_of,
};

verus! {

/// The characters a link target may hold.
pub open spec fn int_char(c: char) -> bool {
    ('a' <= c && c <= 'z') || ('A' <= c && c <= 'Z') || ('0' <= c && c <= '9') || c == '-' || c
        == '/' || c == '.' || c == '_'
}

/// Executable test for [`int_char`].
pub fn int_char_exec(c: char) -> (b: bool)
    ensures
        b == int_char(c),
{
    ('a' <= c && c <= 'z') || ('A' <= c && c <= 'Z') || ('0' <= c && c <= '9') || c == '-' || c
        == '/' || c == '.' || c == '_'
}

/// `j` closes a link label and opens a well-formed target: `](`, a target
/// run of at least one character, and a closing parenthesis.
pub open spec fn link_close_at(t: Seq<char>, j: int) -> bool {
    0 <= j && j + 1 < t.len() && t[j] == ']' && t[j + 1] == '(' && run_len(
        t,
        j + 2,
        |c: char| int_char(c),
    ) >= 1 && j + 2 + run_len(t, j + 2, |c: char| int_char(c)) < t.len() && t[j + 2 + run_len(
        t,
        j + 2,
        |c: char| int_char(c),
    )] == ')'
}

/// The largest `j` in `[lo, hi)` that closes a link, or `-1`.
pub open spec fn best_close(t: Seq<char>, lo: int, hi: int) -> int
    decreases hi - lo,
{
    if hi <= lo {
        -1
    } else if link_close_at(t, hi - 1) {
        hi - 1
    } else {
        best_close(t, lo, hi - 1)
    }
}

/// An internal link starts at `i`: an opening bracket with some closing
/// `](target)` later on the same line, the label at least one character.
pub open spec fn int_at(t: Seq<char>, i: int) -> bool {
    0 <= i && i + 1 < t.len() && t[i] == '[' && best_close(t, i + 2, line_end(t, i + 1)) != -1
}

/// The closing position the greedy label picks: the largest one on the
/// line. When one line holds several links, the label of the first runs to
/// the last well-formed `](target)`, so only that final target is captured.
pub open spec fn int_close(t: Seq<char>, i: int) -> int {
    best_close(t, i + 2, line_end(t, i + 1))
}

/// How far the internal-link match starting at `i` extends.
pub open spec fn int_len(t: Seq<char>, i: int) -> int {
    let j = int_close(t, i);
    j + 2 + run_len(t, j + 2, |c: char| int_char(c)) + 1 - i
}

/// The capture of the match at `i`: the target between the parentheses.
pub open spec fn int_cap(t: Seq<char>, i: int) -> Seq<char> {
    let j = int_close(t, i);
    t.subrange(j + 2, j + 2 + run_len(t, j + 2, |c: char| int_char(c)))
}

/// All internal-link captures of `t`, in match order.
pub open spec fn int_scan(t: Seq<char>, i: int) -> Seq<Seq<char>> {
    scan_captures(
        t,
        i,
        |tt: Seq<char>, ii: int| int_at(tt, ii),
        |tt: Seq<char>, ii: int| int_len(tt, ii),
        |tt: Seq<char>, ii: int| int_cap(tt, ii),
    )
}

/// A captured target is kept only when it is not a web address.
pub open spec fn int_keeps(w: Seq<char>) -> bool {
    !starts_with_seq(w, "http"@) && !starts_with_seq(w, "www."@)
}

/// The captures of `ws` that are no web addresses.
pub open spec fn int_kept(ws: Seq<Seq<char>>) -> Seq<Seq<char>>
    decreases ws.len(),
{
    if ws.len() == 0 {
        Seq::empty()
    } else {
        let d = int_kept(ws.drop_last());
        if int_keeps(ws.last()) {
            d.push(ws.last())
        } else {
            d
        }
    }
}

/// The internal-link set of a text.
pub open spec fn internal_links_spec(t: Seq<char>) -> Seq<Seq<char>> {
    dedup_spec(int_kept(int_scan(t, 0)))
}

/// The extractor for internal links.
pub struct InternalLinks {}

impl InternalLinks {
    /// Collects the set of internal link targets of `data`, each kept once
    /// in the order of its first appearance; always a set, possibly empty.
    pub fn parse(data: &str) -> (r: Option<Vec<String>>)
        ensures
            r is Some,
            views_of(r->Some_0@) == internal_links_spec(data@),
    {
        let t = chars_vec(data);
        let mut out: Vec<String> = Vec::new();
        let ghost mut caps: Seq<Seq<char>> = Seq::empty();
        let ghost mut kept: Seq<Seq<char>> = Seq::empty();
        let mut i: usize = 0;
        proof {
            assert(int_kept(caps) =~= kept);
            assert(caps + int_scan(t@, 0) =~= int_scan(t@, 0));
        }
        while i < t.len()
            invariant
                t@ == data@,
                0 <= i <= t@.len(),
                kept == int_kept(caps),
                int_scan(t@, 0) == caps + int_scan(t@, i as int),
                views_of(out@) == dedup_spec(kept),
            decreases t@.len() - i,
        {
            let mut close: usize = 0;
            let mut run: usize = 0;
            let mut matched = false;
            if t.len() - i > 1 && t[i] == '[' {
                let e = line_end_vec(&t, i + 1);
                let lo: usize = i + 2;
                let mut j: usize = e;
                while j > lo
                    invariant_except_break
                        !matched,
                    invariant
                        lo == i + 2,
                        lo <= t@.len(),
                        j <= e <= t@.len(),
                        best_close(t@, lo as int, e as int) == best_close(
                            t@,
                            lo as int,
                            j as int,
                        ),
                    ensures
                        matched ==> best_close(t@, lo as int, e as int) == close
                            && link_close_at(t@, close as int) && run == run_len(
                            t@,
                            close + 2,
                            |c: char| int_char(c),
                        ) && close + 2 + run < t@.len(),
                        !matched ==> best_close(t@, lo as int, e as int) == -1,
                    decreases j,
                {
                    match close_try(&t, j - 1) {
                        Some(rn) => {
                            close = j - 1;
                            run = rn;
                            matched = true;
                            proof {
                                assert(best_close(t@, lo as int, j as int) == j - 1);
                            }
                            break ;
                        },
                        None => {
                            proof {
                                assert(best_close(t@, lo as int, j as int) == best_close(
                                    t@,
                                    lo as int,
                                    j - 1,
                                ));
                            }
                            j -= 1;
                        },
                    }
                }
                proof {
                    assert(matched ==> int_at(t@, i as int) && int_close(t@, i as int) == close
                        && run == run_len(t@, close + 2, |c: char| int_char(c)));
                    assert(!matched ==> !int_at(t@, i as int));
                }
            } else {
                proof {
                    assert(!int_at(t@, i as int));
                }
            }
            if matched {
                proof {
                    lemma_best_close_range(t@, i + 2, line_end(t@, i + 1));
                }
                let raw = subvec(&t, close + 2, close + 2 + run);
                let cap = string_from_chars(&raw);
                let next: usize = close + 2 + run + 1;
                proof {
                    assert(cap@ == int_cap(t@, i as int));
                    assert(next - i == int_len(t@, i as int));
                    assert(int_len(t@, i as int) >= 1);
                    assert(int_scan(t@, i as int) =~= seq![int_cap(t@, i as int)] + int_scan(
                        t@,
                        next as int,
                    ));
                }
                let http_marker = chars_vec("http");
                let www_marker = chars_vec("www.");
                let keep = !starts_with_vec(&raw, &http_marker) && !starts_with_vec(
                    &raw,
                    &www_marker,
                );
                proof {
                    assert(keep == int_keeps(cap@));
                }
                if keep {
                    if !contains_string(&out, &cap) {
                        out.push(cap);
                        proof {
                            assert(views_of(out@) =~= views_of(out@.drop_last()).push(
                                int_cap(t@, i as int),
                            ));
                        }
                    }
                    proof {
                        let c0 = int_cap(t@, i as int);
                        assert((kept.push(c0)).drop_last() =~= kept);
                        kept = kept.push(c0);
                    }
                }
                proof {
                    let c0 = int_cap(t@, i as int);
                    assert((caps.push(c0)).drop_last() =~= caps);
                    let caps2 = caps.push(c0);
                    assert(caps + (seq![c0] + int_scan(t@, next as int)) =~= caps2 + int_scan(
                        t@,
                        next as int,
                    ));
                    caps = caps2;
                    assert(kept == int_kept(caps));
                }
                i = next;
            } else {
                proof {
                    assert(int_scan(t@, i as int) == int_scan(t@, i + 1));
                }
                i += 1;
            }
        }
        proof {
            assert(int_scan(t@, i as int) =~= Seq::<Seq<char>>::empty());
            assert(int_kept(Seq::<Seq<char>>::empty()) =~= Seq::<Seq<char>>::empty());
            assert(kept + Seq::<Seq<char>>::empty() =~= kept);
        }
        Some(out)
    }
}

/// A found closing position always lies inside the searched range.
proof fn lemma_best_close_range(t: Seq<char>, lo: int, hi: int)
    ensures
        best_close(t, lo, hi) == -1 || lo <= best_close(t, lo, hi) < hi,
    decreases hi - lo,
{
    if hi > lo && !link_close_at(t, hi - 1) {
        lemma_best_close_range(t, lo, hi - 1);
    }
}

/// Looks for a link close `](target)` exactly at `j`; hands back the target
/// run length.
fn close_try(t: &Vec<char>, j: usize) -> (r: Option<usize>)
    requires
        j < t@.len(),
    ensures
        match r {
            Some(run) => link_close_at(t@, j as int) && run == run_len(
                t@,
                j + 2,
                |c: char| int_char(c),
            ) && j + 2 + run < t@.len(),
            None => !link_close_at(t@, j as int),
        },
{
    if t.len() - j < 2 || t[j] != ']' || t[j + 1] != '(' {
        return None;
    }
    let mut e: usize = j + 2;
    while e < t.len() && int_char_exec(t[e])
        invariant
            j + 2 <= e <= t@.len(),
            forall|k: int| j + 2 <= k < e ==> int_char(#[trigger] t@[k]),
        decreases t@.len() - e,
    {
        e += 1;
    }
    proof {
        lemma_run_len_exact(t@, j + 2, e as int, |c: char| int_char(c));
    }
    if e == j + 2 {
        return None;
    }
    if e < t.len() && t[e] == ')' {
        Some(e - (j + 2))
    } else {
        None
    }
}

} // verus!
