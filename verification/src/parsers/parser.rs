//! The scanning engine shared by the metadata parsers: a rule is a match
//! predicate, a match length and a capture, and a scan collects the captures
//! of every match, left to right and without overlap.

use vstd::prelude::*;

verus! {

/// The captures collected by scanning `t` from position `i` with a rule
/// given by a match predicate `m`, a match length `l` and a capture `c`.
/// At each position the rule either matches, contributing its capture and
/// advancing by the match length, or the scan moves on by one character.
pub open spec fn scan_captures(
    t: Seq<char>,
    i: int,
    m: spec_fn(Seq<char>, int) -> bool,
    l: spec_fn(Seq<char>, int) -> int,
    c: spec_fn(Seq<char>, int) -> Seq<char>,
) -> Seq<Seq<char>>
    decreases t.len() - i,
{
    if i < 0 || i >= t.len() {
        Seq::empty()
    } else if m(t, i) && 1 <= l(t, i) && i + l(t, i) <= t.len() {
        seq![c(t, i)] + scan_captures(t, i + l(t, i), m, l, c)
    } else {
        scan_captures(t, i + 1, m, l, c)
    }
}

/// The capture of the first match at or after position `i`, if any.
pub open spec fn first_capture(
    t: Seq<char>,
    i: int,
    m: spec_fn(Seq<char>, int) -> bool,
    c: spec_fn(Seq<char>, int) -> Seq<char>,
) -> Option<Seq<char>>
    decreases t.len() - i,
{
    if i < 0 || i >= t.len() {
        None
    } else if m(t, i) {
        Some(c(t, i))
    } else {
        first_capture(t, i + 1, m, c)
    }
}

/// A scan reaches every match that no earlier match runs past: if the rule
/// matches at `i` and every match in `[p, i)` ends by `i`, the capture at
/// `i` is collected.
pub proof fn lemma_scan_reaches(
    t: Seq<char>,
    p: int,
    i: int,
    m: spec_fn(Seq<char>, int) -> bool,
    l: spec_fn(Seq<char>, int) -> int,
    c: spec_fn(Seq<char>, int) -> Seq<char>,
)
    requires
        0 <= p <= i < t.len(),
        m(t, i),
        1 <= l(t, i),
        i + l(t, i) <= t.len(),
        forall|q: int|
            p <= q < i && #[trigger] m(t, q) && 1 <= l(t, q) && q + l(t, q) <= t.len() ==> q + l(
                t,
                q,
            ) <= i,
    ensures
        scan_captures(t, p, m, l, c).contains(c(t, i)),
    decreases i - p,
{
    if p == i {
        assert(scan_captures(t, p, m, l, c)[0] == c(t, i));
    } else if m(t, p) && 1 <= l(t, p) && p + l(t, p) <= t.len() {
        let next = p + l(t, p);
        assert(next <= i);
        lemma_scan_reaches(t, next, i, m, l, c);
        let rest = scan_captures(t, next, m, l, c);
        let k = choose|k: int| 0 <= k < rest.len() && rest[k] == c(t, i);
        assert(scan_captures(t, p, m, l, c)[k + 1] == c(t, i));
    } else {
        lemma_scan_reaches(t, p + 1, i, m, l, c);
    }
}

/// Everything a scan collects is the capture of some match.
pub proof fn lemma_scan_sound(
    t: Seq<char>,
    p: int,
    m: spec_fn(Seq<char>, int) -> bool,
    l: spec_fn(Seq<char>, int) -> int,
    c: spec_fn(Seq<char>, int) -> Seq<char>,
)
    ensures
        forall|x: Seq<char>|
            #[trigger] scan_captures(t, p, m, l, c).contains(x) ==> exists|q: int|
                p <= q < t.len() && #[trigger] m(t, q) && 1 <= l(t, q) && q + l(t, q) <= t.len()
                    && x == c(t, q),
    decreases t.len() - p,
{
    if p < 0 || p >= t.len() {
    } else {
        assert forall|x: Seq<char>| #[trigger]
            scan_captures(t, p, m, l, c).contains(x) implies exists|q: int|
            p <= q < t.len() && #[trigger] m(t, q) && 1 <= l(t, q) && q + l(t, q) <= t.len() && x
            == c(t, q) by {
            if m(t, p) && 1 <= l(t, p) && p + l(t, p) <= t.len() {
                let next = p + l(t, p);
                lemma_scan_sound(t, next, m, l, c);
                let s = scan_captures(t, p, m, l, c);
                let k = choose|k: int| 0 <= k < s.len() && s[k] == x;
                if k == 0 {
                    assert(m(t, p) && x == c(t, p));
                } else {
                    assert(scan_captures(t, next, m, l, c)[k - 1] == x);
                    assert(scan_captures(t, next, m, l, c).contains(x));
                    let q = choose|q: int|
                        next <= q < t.len() && #[trigger] m(t, q) && 1 <= l(t, q) && q + l(t, q)
                            <= t.len() && x == c(t, q);
                    assert(p <= q < t.len() && m(t, q) && x == c(t, q));
                }
            } else {
                lemma_scan_sound(t, p + 1, m, l, c);
                assert(scan_captures(t, p + 1, m, l, c).contains(x));
                let q = choose|q: int|
                    p + 1 <= q < t.len() && #[trigger] m(t, q) && 1 <= l(t, q) && q + l(t, q)
                        <= t.len() && x == c(t, q);
                assert(p <= q < t.len() && m(t, q) && x == c(t, q));
            }
        }
    }
}

} // verus!
