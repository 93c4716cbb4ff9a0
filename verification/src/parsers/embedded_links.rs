//! Embedded wiki links: `[[target]]` or `[[target|display]]`. The target may
//! hold letters, digits, slashes, spaces, hyphens and underscores; the
//! optional display suffix is discarded.

use vstd::prelude::*;

use crate::parsers::parser::scan_captures;
use crate::strings::{
    chars_vec, contains_string, dedup_spec, is_space, is_space_char, lemma_run_len_exact,
    run_len, string_from_chars, subvec, trim_spec, trim_vec, views_of,
};

verus! {

/// The characters a wiki-link target may hold.
pub open spec fn emb_char(c: char) -> bool {
    ('a' <= c && c <= 'z') || ('A' <= c && c <= 'Z') || ('0' <= c && c <= '9') || c == '/' || c
        == '_' || c == '-' || is_space(c)
}

/// Executable test for [`emb_char`].
pub fn emb_char_exec(c: char) -> (b: bool)
    ensures
        b == emb_char(c),
{
    ('a' <= c && c <= 'z') || ('A' <= c && c <= 'Z') || ('0' <= c && c <= '9') || c == '/' || c
        == '_' || c == '-' || is_space_char(c)
}

/// A wiki link opens at `i`: two brackets followed by at least one target
/// character.
pub open spec fn emb_match_at(t: Seq<char>, i: int) -> bool {
    0 <= i && i + 2 < t.len() && t[i] == '[' && t[i + 1] == '[' && emb_char(t[i + 2])
}

/// The target run of the wiki link opening at `i`.
pub open spec fn emb_run(t: Seq<char>, i: int) -> int {
    run_len(t, i + 2, |c: char| emb_char(c))
}

/// How far the match starting at `i` extends: the brackets, the target run,
/// then an optional pipe and an optional closing bracket.
pub open spec fn emb_len(t: Seq<char>, i: int) -> int {
    let j = i + 2 + emb_run(t, i);
    let j2 = if j < t.len() && t[j] == '|' {
        j + 1
    } else {
        j
    };
    let j3 = if j2 < t.len() && t[j2] == ']' {
        j2 + 1
    } else {
        j2
    };
    j3 - i
}

/// The capture of the match at `i`: the target run, trimmed.
pub open spec fn emb_cap(t: Seq<char>, i: int) -> Seq<char> {
    trim_spec(t.subrange(i + 2, i + 2 + emb_run(t, i)))
}

/// All wiki-link captures of `t` from position `i` on, in match order.
pub open spec fn emb_scan(t: Seq<char>, i: int) -> Seq<Seq<char>> {
    scan_captures(
        t,
        i,
        |tt: Seq<char>, ii: int| emb_match_at(tt, ii),
        |tt: Seq<char>, ii: int| emb_len(tt, ii),
        |tt: Seq<char>, ii: int| emb_cap(tt, ii),
    )
}

/// The embedded-link set of a text: the wiki-link captures with later
/// duplicates dropped.
pub open spec fn embedded_links_spec(t: Seq<char>) -> Seq<Seq<char>> {
    dedup_spec(emb_scan(t, 0))
}

/// Containment law: a text that holds the wiki-link form `[[target` with
/// any terminator after the target — a closing bracket or a display pipe —
/// yields exactly `target` among its embedded links, and the set holds each
/// member once.
pub proof fn lemma_embedded_contains(t: Seq<char>, target: Seq<char>, m: int)
    requires
        target.len() > 0,
        forall|k: int| 0 <= k < target.len() ==> emb_char(#[trigger] target[k]),
        !is_space(target[0]),
        !is_space(target[target.len() - 1]),
        crate::strings::sub_at(t, seq!['[', '['] + target, m),
        m + 2 + target.len() < t.len(),
        !emb_char(t[m + 2 + target.len()]),
    ensures
        embedded_links_spec(t).contains(target),
        forall|a: int, b: int|
            0 <= a < b < embedded_links_spec(t).len() ==> embedded_links_spec(t)[a]
                != embedded_links_spec(t)[b],
{
    let pat = seq!['[', '['] + target;
    let s = t.subrange(m, m + pat.len() as int);
    assert(s == pat);
    assert(t[m] == '[') by {
        assert(s[0] == t[m + 0]);
    }
    assert(t[m + 1] == '[') by {
        assert(s[1] == t[m + 1]);
    }
    assert forall|k: int| 0 <= k < target.len() implies t[m + 2 + k] == target[k] by {
        assert(s[k + 2] == t[m + (k + 2)]);
        assert(pat[k + 2] == target[k]);
    }
    assert(emb_char(t[m + 2])) by {
        assert(t[m + 2 + 0] == target[0]);
    }
    assert(emb_match_at(t, m));
    assert forall|j: int| m + 2 <= j < m + 2 + target.len() implies emb_char(#[trigger] t[j]) by {
        let k = j - (m + 2);
        assert(t[m + 2 + k] == target[k]);
    }
    assert(run_len(t, m + 2, |c: char| emb_char(c)) == target.len()) by {
        lemma_run_len_exact(t, m + 2, m + 2 + target.len(), |c: char| emb_char(c));
    }
    assert(t.subrange(m + 2, m + 2 + target.len()) =~= target);
    assert(emb_cap(t, m) == target) by {
        assert(crate::strings::trim_start_spec(target) == target);
        assert(crate::strings::trim_end_spec(target) == target);
    }
    assert(1 <= emb_len(t, m) && m + emb_len(t, m) <= t.len());
    assert forall|q: int|
        0 <= q < m && #[trigger] emb_match_at(t, q) && 1 <= emb_len(t, q) && q + emb_len(t, q)
            <= t.len() implies q + emb_len(t, q) <= m by {
        let rl = run_len(t, q + 2, |c: char| emb_char(c));
        crate::strings::lemma_run_len_props(t, q + 2, |c: char| emb_char(c));
        assert(forall|p: int| q + 2 <= p < q + 2 + rl ==> emb_char(#[trigger] t[p]));
        assert(!emb_char('['));
        if q + 1 == m {
            assert(t[q + 2] == t[m + 1] == '[');
            assert(false);
        }
        let j = q + 2 + rl;
        let j2 = if j < t.len() && t[j] == '|' {
            j + 1
        } else {
            j
        };
        let j3 = if j2 < t.len() && t[j2] == ']' {
            j2 + 1
        } else {
            j2
        };
        assert(q + emb_len(t, q) == j3);
        assert(forall|p: int| q + 2 <= p < j3 ==> t[p] != '[');
        assert(t[m] == '[');
    }
    crate::parsers::parser::lemma_scan_reaches(
        t,
        0,
        m,
        |tt: Seq<char>, ii: int| emb_match_at(tt, ii),
        |tt: Seq<char>, ii: int| emb_len(tt, ii),
        |tt: Seq<char>, ii: int| emb_cap(tt, ii),
    );
    assert(emb_scan(t, 0).contains(target));
    crate::strings::lemma_dedup_same_members(emb_scan(t, 0));
    crate::strings::lemma_dedup_distinct(emb_scan(t, 0));
}

/// The extractor for embedded wiki links.
pub struct EmbeddedLinks {}

impl EmbeddedLinks {
    /// Collects the set of wiki-link targets of `data`, each kept once in
    /// the order of its first appearance.
    pub fn parse(data: &str) -> (r: Option<Vec<String>>)
        ensures
            r is Some,
            views_of(r->Some_0@) == embedded_links_spec(data@),
    {
        let t = chars_vec(data);
        let mut out: Vec<String> = Vec::new();
        let ghost mut caps: Seq<Seq<char>> = Seq::empty();
        let mut i: usize = 0;
        proof {
            assert(caps + emb_scan(t@, 0) =~= emb_scan(t@, 0));
        }
        while i < t.len()
            invariant
                0 <= i <= t@.len(),
                emb_scan(t@, 0) == caps + emb_scan(t@, i as int),
                views_of(out@) == dedup_spec(caps),
            decreases t@.len() - i,
        {
            let matched: bool = t.len() - i > 2 && t[i] == '[' && t[i + 1] == '['
                && emb_char_exec(t[i + 2]);
            if matched {
                let mut e: usize = i + 2;
                while e < t.len() && emb_char_exec(t[e])
                    invariant
                        i + 2 <= e <= t@.len(),
                        forall|j: int| i + 2 <= j < e ==> emb_char(#[trigger] t@[j]),
                    decreases t@.len() - e,
                {
                    e += 1;
                }
                proof {
                    lemma_run_len_exact(t@, i + 2, e as int, |c: char| emb_char(c));
                    assert(emb_run(t@, i as int) == e - i - 2);
                }
                let raw = subvec(&t, i + 2, e);
                let trimmed = trim_vec(&raw);
                let cap = string_from_chars(&trimmed);
                proof {
                    assert(cap@ == emb_cap(t@, i as int));
                }
                let mut next: usize = e;
                if next < t.len() && t[next] == '|' {
                    next += 1;
                }
                if next < t.len() && t[next] == ']' {
                    next += 1;
                }
                proof {
                    assert(next - i == emb_len(t@, i as int));
                    assert(emb_match_at(t@, i as int));
                    assert(emb_scan(t@, i as int) =~= seq![emb_cap(t@, i as int)] + emb_scan(
                        t@,
                        i + emb_len(t@, i as int),
                    ));
                }
                if !contains_string(&out, &cap) {
                    out.push(cap);
                    proof {
                        assert(views_of(out@) =~= views_of(out@.drop_last()).push(
                            emb_cap(t@, i as int),
                        ));
                    }
                }
                proof {
                    let c0 = emb_cap(t@, i as int);
                    assert((caps.push(c0)).drop_last() =~= caps);
                    assert(dedup_spec(caps.push(c0)) == if dedup_spec(caps).contains(c0) {
                        dedup_spec(caps)
                    } else {
                        dedup_spec(caps).push(c0)
                    });
                    caps = caps.push(c0);
                    assert(emb_scan(t@, 0) == caps + emb_scan(t@, next as int)) by {
                        assert(caps.drop_last() + seq![c0] =~= caps);
                        assert(caps.drop_last() + (seq![c0] + emb_scan(t@, next as int))
                            =~= caps + emb_scan(t@, next as int));
                    }
                }
                i = next;
            } else {
                proof {
                    assert(!emb_match_at(t@, i as int));
                    assert(emb_scan(t@, i as int) == emb_scan(t@, i + 1));
                }
                i += 1;
            }
        }
        proof {
            assert(emb_scan(t@, i as int) =~= Seq::<Seq<char>>::empty());
            assert(caps + Seq::<Seq<char>>::empty() =~= caps);
        }
        Some(out)
    }
}

} // verus!
