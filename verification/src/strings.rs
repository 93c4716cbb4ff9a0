//! Shared string machinery: substring predicates, trimming, character runs
//! and literal replacement, each with an exact specification over `Seq<char>`.

use vstd::prelude::*;

verus! {

use vstd::std_specs::iter::IteratorSpec;

/// `p` occurs in `t` starting at index `i`.
pub open spec fn sub_at(t: Seq<char>, p: Seq<char>, i: int) -> bool {
    0 <= i && i + p.len() <= t.len() && t.subrange(i, i + p.len() as int) == p
}

/// `p` occurs somewhere in `t`.
pub open spec fn contains_seq(t: Seq<char>, p: Seq<char>) -> bool {
    exists|i: int| sub_at(t, p, i)
}

/// `t` begins with `p`.
pub open spec fn starts_with_seq(t: Seq<char>, p: Seq<char>) -> bool {
    p.len() <= t.len() && t.subrange(0, p.len() as int) == p
}

/// `t` ends with `p`.
pub open spec fn ends_with_seq(t: Seq<char>, p: Seq<char>) -> bool {
    p.len() <= t.len() && t.subrange(t.len() - p.len(), t.len() as int) == p
}

/// Tests `p` against `t` at position `i`.
pub fn sub_at_vec(t: &Vec<char>, p: &Vec<char>, i: usize) -> (b: bool)
    ensures
        b == sub_at(t@, p@, i as int),
{
    if i > t.len() || t.len() - i < p.len() {
        assert(!sub_at(t@, p@, i as int));
        return false;
    }
    let mut k: usize = 0;
    while k < p.len()
        invariant
            i + p.len() <= t.len(),
            k <= p.len(),
            forall|j: int| 0 <= j < k ==> t@[i + j] == p@[j],
        decreases p.len() - k,
    {
        if t[i + k] != p[k] {
            assert(t@.subrange(i as int, i + p.len() as int)[k as int] != p@[k as int]);
            return false;
        }
        k += 1;
    }
    assert(t@.subrange(i as int, i + p.len() as int) =~= p@);
    true
}

/// Tests whether `p` occurs anywhere in `t`.
pub fn contains_vec(t: &Vec<char>, p: &Vec<char>) -> (b: bool)
    ensures
        b == contains_seq(t@, p@),
{
    if p.len() > t.len() {
        return false;
    }
    if p.len() == 0 {
        assert(sub_at(t@, p@, 0)) by {
            assert(t@.subrange(0, 0) =~= p@);
        }
        return true;
    }
    let mut i: usize = 0;
    loop
        invariant
            1 <= p@.len() <= t@.len(),
            0 <= i <= t@.len() - p@.len() + 1,
            forall|j: int| 0 <= j < i ==> !sub_at(t@, p@, j),
        decreases t@.len() - p@.len() + 1 - i,
    {
        if i > t.len() - p.len() {
            assert(forall|j: int| sub_at(t@, p@, j) ==> 0 <= j <= t@.len() - p@.len());
            return false;
        }
        if sub_at_vec(t, p, i) {
            return true;
        }
        i += 1;
    }
}

/// Tests whether `t` begins with `p`.
pub fn starts_with_vec(t: &Vec<char>, p: &Vec<char>) -> (b: bool)
    ensures
        b == starts_with_seq(t@, p@),
{
    if p.len() > t.len() {
        return false;
    }
    sub_at_vec(t, p, 0)
}

/// Tests whether `t` ends with `p`.
pub fn ends_with_vec(t: &Vec<char>, p: &Vec<char>) -> (b: bool)
    ensures
        b == ends_with_seq(t@, p@),
{
    if p.len() > t.len() {
        return false;
    }
    sub_at_vec(t, p, t.len() - p.len())
}

/// Copies `t[lo..hi]` into a fresh vector.
pub fn subvec(t: &Vec<char>, lo: usize, hi: usize) -> (r: Vec<char>)
    requires
        lo <= hi <= t@.len(),
    ensures
        r@ == t@.subrange(lo as int, hi as int),
{
    let mut r: Vec<char> = Vec::new();
    let mut k: usize = lo;
    while k < hi
        invariant
            lo <= k <= hi <= t@.len(),
            r@ == t@.subrange(lo as int, k as int),
        decreases hi - k,
    {
        r.push(t[k]);
        assert(r@ =~= t@.subrange(lo as int, (k + 1) as int));
        k += 1;
    }
    r
}

/// Unicode whitespace, the characters that trimming removes.
pub open spec fn is_space(c: char) -> bool {
    c == ' ' || c == '\t' || c == '\n' || c == '\r' || c == '\u{b}' || c == '\u{c}' || c
        == '\u{85}' || c == '\u{a0}' || c == '\u{1680}' || c == '\u{2000}' || c == '\u{2001}' || c
        == '\u{2002}' || c == '\u{2003}' || c == '\u{2004}' || c == '\u{2005}' || c == '\u{2006}'
        || c == '\u{2007}' || c == '\u{2008}' || c == '\u{2009}' || c == '\u{200a}' || c
        == '\u{2028}' || c == '\u{2029}' || c == '\u{202f}' || c == '\u{205f}' || c == '\u{3000}'
}

/// Executable test for [`is_space`].
pub fn is_space_char(c: char) -> (b: bool)
    ensures
        b == is_space(c),
{
    c == ' ' || c == '\t' || c == '\n' || c == '\r' || c == '\u{b}' || c == '\u{c}' || c
        == '\u{85}' || c == '\u{a0}' || c == '\u{1680}' || c == '\u{2000}' || c == '\u{2001}' || c
        == '\u{2002}' || c == '\u{2003}' || c == '\u{2004}' || c == '\u{2005}' || c == '\u{2006}'
        || c == '\u{2007}' || c == '\u{2008}' || c == '\u{2009}' || c == '\u{200a}' || c
        == '\u{2028}' || c == '\u{2029}' || c == '\u{202f}' || c == '\u{205f}' || c == '\u{3000}'
}

/// `s` without its leading whitespace.
pub open spec fn trim_start_spec(s: Seq<char>) -> Seq<char>
    decreases s.len(),
{
    if s.len() > 0 && is_space(s[0]) {
        trim_start_spec(s.drop_first())
    } else {
        s
    }
}

/// `s` without its trailing whitespace.
pub open spec fn trim_end_spec(s: Seq<char>) -> Seq<char>
    decreases s.len(),
{
    if s.len() > 0 && is_space(s[s.len() - 1]) {
        trim_end_spec(s.drop_last())
    } else {
        s
    }
}

/// `s` without leading and trailing whitespace.
pub open spec fn trim_spec(s: Seq<char>) -> Seq<char> {
    trim_end_spec(trim_start_spec(s))
}

/// Trimming the front removes exactly the leading run of whitespace.
pub proof fn lemma_trim_start_shape(s: Seq<char>, k: int)
    requires
        0 <= k <= s.len(),
        forall|j: int| 0 <= j < k ==> is_space(s[j]),
        k == s.len() || !is_space(s[k]),
    ensures
        trim_start_spec(s) == s.subrange(k, s.len() as int),
    decreases k,
{
    if k == 0 {
        if s.len() == 0 || !is_space(s[0]) {
            assert(trim_start_spec(s) == s);
            assert(s.subrange(0, s.len() as int) =~= s);
        }
    } else {
        assert(is_space(s[0]));
        let d = s.drop_first();
        assert(forall|j: int| 0 <= j < k - 1 ==> is_space(d[j]));
        lemma_trim_start_shape(d, k - 1);
        assert(d.subrange(k - 1, d.len() as int) =~= s.subrange(k, s.len() as int));
    }
}

/// Trimming the back removes exactly the trailing run of whitespace.
pub proof fn lemma_trim_end_shape(s: Seq<char>, k: int)
    requires
        0 <= k <= s.len(),
        forall|j: int| k <= j < s.len() ==> is_space(s[j]),
        k == 0 || !is_space(s[k - 1]),
    ensures
        trim_end_spec(s) == s.subrange(0, k),
    decreases s.len() - k,
{
    if k == s.len() {
        if s.len() == 0 || !is_space(s[s.len() - 1]) {
            assert(trim_end_spec(s) == s);
            assert(s.subrange(0, s.len() as int) =~= s);
        } else {
            let d = s.drop_last();
            lemma_trim_end_shape(d, d.len() as int);
            assert(d.subrange(0, d.len() as int) =~= s.subrange(0, k));
        }
    } else {
        assert(is_space(s[s.len() - 1]));
        let d = s.drop_last();
        assert(forall|j: int| k <= j < d.len() ==> is_space(d[j]));
        lemma_trim_end_shape(d, k);
        assert(d.subrange(0, k) =~= s.subrange(0, k));
    }
}

/// Copies `t` with leading and trailing whitespace removed.
pub fn trim_vec(t: &Vec<char>) -> (r: Vec<char>)
    ensures
        r@ == trim_spec(t@),
{
    let mut lo: usize = 0;
    while lo < t.len() && is_space_char(t[lo])
        invariant
            lo <= t@.len(),
            forall|j: int| 0 <= j < lo ==> is_space(t@[j]),
        decreases t@.len() - lo,
    {
        lo += 1;
    }
    proof {
        lemma_trim_start_shape(t@, lo as int);
    }
    let ghost mid = t@.subrange(lo as int, t@.len() as int);
    let mut hi: usize = t.len();
    while hi > lo && is_space_char(t[hi - 1])
        invariant
            lo <= hi <= t@.len(),
            forall|j: int| hi <= j < t@.len() ==> is_space(t@[j]),
        decreases hi,
    {
        hi -= 1;
    }
    proof {
        assert(forall|j: int| hi - lo <= j < mid.len() ==> is_space(mid[j]));
        assert(hi - lo == 0 || !is_space(mid[hi - lo - 1]));
        lemma_trim_end_shape(mid, hi - lo);
        assert(mid.subrange(0, hi - lo) =~= t@.subrange(lo as int, hi as int));
    }
    subvec(t, lo, hi)
}

/// `s` without any leading occurrences of the character `c`.
pub open spec fn trim_char_start_spec(s: Seq<char>, c: char) -> Seq<char>
    decreases s.len(),
{
    if s.len() > 0 && s[0] == c {
        trim_char_start_spec(s.drop_first(), c)
    } else {
        s
    }
}

/// `s` without any trailing occurrences of the character `c`.
pub open spec fn trim_char_end_spec(s: Seq<char>, c: char) -> Seq<char>
    decreases s.len(),
{
    if s.len() > 0 && s[s.len() - 1] == c {
        trim_char_end_spec(s.drop_last(), c)
    } else {
        s
    }
}

pub proof fn lemma_trim_char_start_shape(s: Seq<char>, c: char, k: int)
    requires
        0 <= k <= s.len(),
        forall|j: int| 0 <= j < k ==> s[j] == c,
        k == s.len() || s[k] != c,
    ensures
        trim_char_start_spec(s, c) == s.subrange(k, s.len() as int),
    decreases k,
{
    if k == 0 {
        if s.len() == 0 || s[0] != c {
            assert(s.subrange(0, s.len() as int) =~= s);
        }
    } else {
        let d = s.drop_first();
        lemma_trim_char_start_shape(d, c, k - 1);
        assert(d.subrange(k - 1, d.len() as int) =~= s.subrange(k, s.len() as int));
    }
}

pub proof fn lemma_trim_char_end_shape(s: Seq<char>, c: char, k: int)
    requires
        0 <= k <= s.len(),
        forall|j: int| k <= j < s.len() ==> s[j] == c,
        k == 0 || s[k - 1] != c,
    ensures
        trim_char_end_spec(s, c) == s.subrange(0, k),
    decreases s.len() - k,
{
    if k == s.len() {
        if s.len() == 0 || s[s.len() - 1] != c {
            assert(s.subrange(0, s.len() as int) =~= s);
        } else {
            let d = s.drop_last();
            lemma_trim_char_end_shape(d, c, d.len() as int);
            assert(d.subrange(0, d.len() as int) =~= s.subrange(0, k));
        }
    } else {
        let d = s.drop_last();
        assert(forall|j: int| k <= j < d.len() ==> d[j] == c);
        lemma_trim_char_end_shape(d, c, k);
        assert(d.subrange(0, k) =~= s.subrange(0, k));
    }
}

/// Copies `t` with leading occurrences of `c` removed.
pub fn trim_char_start_vec(t: &Vec<char>, c: char) -> (r: Vec<char>)
    ensures
        r@ == trim_char_start_spec(t@, c),
{
    let mut lo: usize = 0;
    while lo < t.len() && t[lo] == c
        invariant
            lo <= t@.len(),
            forall|j: int| 0 <= j < lo ==> t@[j] == c,
        decreases t@.len() - lo,
    {
        lo += 1;
    }
    proof {
        lemma_trim_char_start_shape(t@, c, lo as int);
    }
    subvec(t, lo, t.len())
}

/// Copies `t` with trailing occurrences of `c` removed.
pub fn trim_char_end_vec(t: &Vec<char>, c: char) -> (r: Vec<char>)
    ensures
        r@ == trim_char_end_spec(t@, c),
{
    let mut hi: usize = t.len();
    while hi > 0 && t[hi - 1] == c
        invariant
            hi <= t@.len(),
            forall|j: int| hi <= j < t@.len() ==> t@[j] == c,
        decreases hi,
    {
        hi -= 1;
    }
    proof {
        lemma_trim_char_end_shape(t@, c, hi as int);
    }
    subvec(t, 0, hi)
}

/// `s` with one surrounding pair of double quotes removed, when present.
pub open spec fn strip_quote_pair_spec(s: Seq<char>) -> Seq<char> {
    if s.len() >= 2 && s[0] == '"' && s[s.len() - 1] == '"' {
        s.subrange(1, s.len() - 1)
    } else {
        s
    }
}

/// Copies `t` with one surrounding pair of double quotes removed, when present.
pub fn strip_quote_pair_vec(t: &Vec<char>) -> (r: Vec<char>)
    ensures
        r@ == strip_quote_pair_spec(t@),
{
    if t.len() >= 2 && t[0] == '"' && t[t.len() - 1] == '"' {
        subvec(t, 1, t.len() - 1)
    } else {
        subvec(t, 0, t.len())
    }
}

/// Appends every character of `src` to `out`.
pub fn push_all(out: &mut Vec<char>, src: &Vec<char>)
    ensures
        final(out)@ == old(out)@ + src@,
{
    let mut k: usize = 0;
    while k < src.len()
        invariant
            k <= src@.len(),
            out@ == old(out)@ + src@.subrange(0, k as int),
        decreases src@.len() - k,
    {
        out.push(src[k]);
        assert(out@ =~= old(out)@ + src@.subrange(0, (k + 1) as int));
        k += 1;
    }
    assert(out@ =~= old(out)@ + src@);
}

/// Every occurrence of `p` in `t` replaced by `r`, scanning left to right
/// without overlap. An empty pattern replaces nothing.
pub open spec fn replace_all_spec(t: Seq<char>, p: Seq<char>, r: Seq<char>) -> Seq<char>
    decreases t.len(),
{
    if p.len() == 0 || t.len() == 0 {
        t
    } else if sub_at(t, p, 0) {
        r + replace_all_spec(t.skip(p.len() as int), p, r)
    } else {
        seq![t[0]] + replace_all_spec(t.drop_first(), p, r)
    }
}

/// Builds the copy of `t` in which every occurrence of `p` is replaced by `r`.
pub fn replace_all_vec(t: &Vec<char>, p: &Vec<char>, r: &Vec<char>) -> (out: Vec<char>)
    ensures
        out@ == replace_all_spec(t@, p@, r@),
{
    let mut out: Vec<char> = Vec::new();
    if p.len() == 0 {
        let whole = subvec(t, 0, t.len());
        assert(t@.subrange(0, t@.len() as int) =~= t@);
        return whole;
    }
    proof {
        assert(t@.subrange(0, t@.len() as int) =~= t@);
        assert(out@ + replace_all_spec(t@, p@, r@) =~= replace_all_spec(t@, p@, r@));
    }
    let mut i: usize = 0;
    while i < t.len()
        invariant
            1 <= p@.len(),
            0 <= i <= t@.len(),
            replace_all_spec(t@, p@, r@) == out@ + replace_all_spec(
                t@.subrange(i as int, t@.len() as int),
                p@,
                r@,
            ),
        decreases t@.len() - i,
    {
        let ghost rest = t@.subrange(i as int, t@.len() as int);
        if sub_at_vec(t, p, i) {
            proof {
                assert(rest.subrange(0, p@.len() as int) =~= t@.subrange(
                    i as int,
                    i + p@.len(),
                ));
                assert(sub_at(rest, p@, 0));
                assert(rest.skip(p@.len() as int) =~= t@.subrange(
                    i + p@.len(),
                    t@.len() as int,
                ));
            }
            push_all(&mut out, r);
            i += p.len();
        } else {
            proof {
                assert(!sub_at(rest, p@, 0)) by {
                    if sub_at(rest, p@, 0) {
                        assert(rest.subrange(0, p@.len() as int) =~= t@.subrange(
                            i as int,
                            i + p@.len(),
                        ));
                    }
                }
                assert(rest.drop_first() =~= t@.subrange(i + 1, t@.len() as int));
            }
            out.push(t[i]);
            i += 1;
        }
    }
    proof {
        assert(t@.subrange(i as int, t@.len() as int) =~= Seq::<char>::empty());
        assert(out@ + Seq::<char>::empty() =~= out@);
    }
    out
}

/// Length of the longest run of characters satisfying `p` that starts at `i`.
pub open spec fn run_len(t: Seq<char>, i: int, p: spec_fn(char) -> bool) -> int
    decreases t.len() - i,
{
    if i < 0 || i >= t.len() || !p(t[i]) {
        0
    } else {
        1 + run_len(t, i + 1, p)
    }
}

/// The run starting at `i` is exactly `e - i` long when everything in
/// `[i, e)` satisfies `p` and `e` is the end of text or fails `p`.
pub proof fn lemma_run_len_exact(t: Seq<char>, i: int, e: int, p: spec_fn(char) -> bool)
    requires
        0 <= i <= e <= t.len(),
        forall|j: int| i <= j < e ==> p(t[j]),
        e == t.len() || !p(t[e]),
    ensures
        run_len(t, i, p) == e - i,
    decreases e - i,
{
    if i == e {
    } else {
        lemma_run_len_exact(t, i + 1, e, p);
    }
}

/// Every character inside the run starting at `i` satisfies `p`, and the
/// character just past the run does not.
pub proof fn lemma_run_len_props(t: Seq<char>, i: int, p: spec_fn(char) -> bool)
    requires
        0 <= i <= t.len(),
    ensures
        i + run_len(t, i, p) <= t.len(),
        run_len(t, i, p) >= 0,
        forall|j: int| i <= j < i + run_len(t, i, p) ==> p(t[j]),
        i + run_len(t, i, p) == t.len() || !p(t[i + run_len(t, i, p)]),
    decreases t.len() - i,
{
    if i < t.len() && p(t[i]) {
        lemma_run_len_props(t, i + 1, p);
    }
}

/// The index of the first newline at or after `i`, or the text length.
pub open spec fn line_end(t: Seq<char>, i: int) -> int {
    i + run_len(t, i, |c: char| c != '\n')
}

/// Computes [`line_end`].
pub fn line_end_vec(t: &Vec<char>, i: usize) -> (e: usize)
    requires
        i <= t@.len(),
    ensures
        i <= e <= t@.len(),
        e == line_end(t@, i as int),
        forall|j: int| i <= j < e ==> t@[j] != '\n',
        e == t@.len() || t@[e as int] == '\n',
{
    let mut e: usize = i;
    while e < t.len() && t[e] != '\n'
        invariant
            i <= e <= t@.len(),
            forall|j: int| i <= j < e ==> t@[j] != '\n',
        decreases t@.len() - e,
    {
        e += 1;
    }
    proof {
        lemma_run_len_exact(t@, i as int, e as int, |c: char| c != '\n');
    }
    e
}

/// The largest index in `[lo, hi)` holding character `c`, or `-1`.
pub open spec fn last_index_in(t: Seq<char>, c: char, lo: int, hi: int) -> int
    decreases hi - lo,
{
    if lo >= hi || hi > t.len() || hi <= 0 {
        -1
    } else if t[hi - 1] == c {
        hi - 1
    } else {
        last_index_in(t, c, lo, hi - 1)
    }
}

/// Computes [`last_index_in`], with `t.len()` standing for "none".
pub fn last_index_in_vec(t: &Vec<char>, c: char, lo: usize, hi: usize) -> (r: usize)
    requires
        lo <= hi <= t@.len(),
    ensures
        r <= t@.len(),
        r == t@.len() ==> last_index_in(t@, c, lo as int, hi as int) == -1,
        r < t@.len() ==> lo <= r < hi && t@[r as int] == c && last_index_in(
            t@,
            c,
            lo as int,
            hi as int,
        ) == r as int,
{
    let mut k: usize = hi;
    while k > lo
        invariant
            lo <= k <= hi <= t@.len(),
            last_index_in(t@, c, lo as int, hi as int) == last_index_in(
                t@,
                c,
                lo as int,
                k as int,
            ),
        decreases k,
    {
        if t[k - 1] == c {
            return k - 1;
        }
        k -= 1;
    }
    t.len()
}

/// Pins [`last_index_in`] down when the position of the last `c` is known.
pub proof fn lemma_last_index_exact(t: Seq<char>, c: char, lo: int, hi: int, i: int)
    requires
        0 <= lo <= i < hi <= t.len(),
        t[i] == c,
        forall|j: int| i < j < hi ==> t[j] != c,
    ensures
        last_index_in(t, c, lo, hi) == i,
    decreases hi,
{
    if hi - 1 > i {
        lemma_last_index_exact(t, c, lo, hi - 1, i);
    }
}

/// [`last_index_in`] reports "none" when `c` never occurs in the range.
pub proof fn lemma_last_index_none(t: Seq<char>, c: char, lo: int, hi: int)
    requires
        0 <= lo,
        hi <= t.len(),
        forall|j: int| lo <= j < hi ==> t[j] != c,
    ensures
        last_index_in(t, c, lo, hi) == -1,
    decreases hi - lo,
{
    if lo < hi {
        lemma_last_index_none(t, c, lo, hi - 1);
    }
}

/// The sequence with later duplicates removed: each element keeps its first
/// position.
pub open spec fn dedup_spec(s: Seq<Seq<char>>) -> Seq<Seq<char>>
    decreases s.len(),
{
    if s.len() == 0 {
        Seq::empty()
    } else {
        let d = dedup_spec(s.drop_last());
        if d.contains(s.last()) {
            d
        } else {
            d.push(s.last())
        }
    }
}

/// The views of a sequence of strings.
pub open spec fn views_of(v: Seq<String>) -> Seq<Seq<char>> {
    v.map_values(|s: String| s@)
}

/// Deduplication keeps exactly the members of the original sequence.
pub proof fn lemma_dedup_same_members(s: Seq<Seq<char>>)
    ensures
        forall|x: Seq<char>| dedup_spec(s).contains(x) <==> s.contains(x),
    decreases s.len(),
{
    broadcast use vstd::seq_lib::lemma_seq_contains_after_push;

    if s.len() > 0 {
        lemma_dedup_same_members(s.drop_last());
        assert forall|x: Seq<char>| s.contains(x) implies dedup_spec(s).contains(x) by {
            let k = choose|k: int| 0 <= k < s.len() && s[k] == x;
            if k < s.len() - 1 {
                assert(s.drop_last().contains(x)) by {
                    assert(s.drop_last()[k] == x);
                }
            } else {
                assert(s.last() == x);
            }
        }
        assert forall|x: Seq<char>| dedup_spec(s).contains(x) implies s.contains(x) by {
            let d = dedup_spec(s.drop_last());
            if d.contains(x) {
                assert(s.drop_last().contains(x));
                let k = choose|k: int| 0 <= k < s.drop_last().len() && s.drop_last()[k] == x;
                assert(s[k] == x);
            } else {
                assert(s[s.len() - 1] == x);
            }
        }
    }
}

/// A deduplicated sequence holds each member exactly once.
pub proof fn lemma_dedup_distinct(s: Seq<Seq<char>>)
    ensures
        forall|a: int, b: int|
            0 <= a < b < dedup_spec(s).len() ==> dedup_spec(s)[a] != dedup_spec(s)[b],
    decreases s.len(),
{
    if s.len() > 0 {
        lemma_dedup_distinct(s.drop_last());
        let d = dedup_spec(s.drop_last());
        if !d.contains(s.last()) {
            assert(forall|a: int| 0 <= a < d.len() ==> d[a] != s.last());
            assert(forall|a: int| 0 <= a < d.len() ==> d.push(s.last())[a] == d[a]);
        }
    }
}

/// Membership in a concatenation is membership in one of the parts.
pub proof fn lemma_concat_contains(a: Seq<Seq<char>>, b: Seq<Seq<char>>)
    ensures
        forall|x: Seq<char>| #[trigger] (a + b).contains(x) <==> a.contains(x) || b.contains(x),
{
    assert forall|x: Seq<char>| #[trigger] (a + b).contains(x) implies a.contains(x)
        || b.contains(x) by {
        let k = choose|k: int| 0 <= k < (a + b).len() && (a + b)[k] == x;
        if k < a.len() {
            assert(a[k] == x);
        } else {
            assert(b[k - a.len()] == x);
        }
    }
    assert forall|x: Seq<char>| a.contains(x) || b.contains(x) implies #[trigger] (a
        + b).contains(x) by {
        if a.contains(x) {
            let k = choose|k: int| 0 <= k < a.len() && a[k] == x;
            assert((a + b)[k] == x);
        } else {
            let k = choose|k: int| 0 <= k < b.len() && b[k] == x;
            assert((a + b)[a.len() + k] == x);
        }
    }
}

/// Tests whether some string in `v` has the view `x@`.
pub fn contains_string(v: &Vec<String>, x: &String) -> (b: bool)
    ensures
        b == views_of(v@).contains(x@),
{
    let mut k: usize = 0;
    while k < v.len()
        invariant
            k <= v@.len(),
            forall|j: int| 0 <= j < k ==> v@[j]@ != x@,
        decreases v@.len() - k,
    {
        if x.eq(&v[k]) {
            assert(views_of(v@)[k as int] == x@);
            return true;
        }
        k += 1;
    }
    assert(forall|j: int| 0 <= j < v@.len() ==> views_of(v@)[j] == v@[j]@);
    false
}

/// Clones a string, keeping its characters.
pub fn clone_string(s: &String) -> (r: String)
    ensures
        r@ == s@,
{
    String::from_str(s.as_str())
}

/// The characters of `s`, in order, as a vector.
pub fn chars_vec(s: &str) -> (v: Vec<char>)
    ensures
        v@ == s@,
{
    broadcast use vstd::string::group_string_axioms;

    let mut it = s.chars();
    let mut v: Vec<char> = Vec::new();
    loop
        invariant
            it.obeys_prophetic_iter_laws(),
            it.decrease() is Some,
            v@ + it.remaining() == s@,
        decreases it.decrease()->0,
    {
        match it.next() {
            Some(c) => {
                v.push(c);
                assert(v@ + it.remaining() =~= s@);
            },
            None => {
                assert(v@ =~= s@);
                return v;
            },
        }
    }
}

/// Relies on `String::from_iter` over `std::str::Chars`: collecting the
/// characters of a vector yields the string with exactly those characters.
#[verifier::external_body]
pub fn string_from_chars(v: &Vec<char>) -> (s: String)
    ensures
        s@ == v@,
{
    v.iter().collect()
}

} // verus!
