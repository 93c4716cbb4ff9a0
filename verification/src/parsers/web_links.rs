//! Web links: `http://` / `https://` URLs and bare `www.` addresses, both
//! running until whitespace or a closing bracket or parenthesis. A bare
//! address already present in an `http` form is dropped.

use vstd::prelude::*;

use crate::parsers::parser::{lemma_scan_reaches, lemma_scan_sound, scan_captures};
use crate::strings::{
    chars_vec, contains_string, dedup_spec, is_space, is_space_char, lemma_dedup_same_members,
    lemma_run_len_exact, run_len, string_from_chars, subvec, views_of,
};

verus! {

/// The characters a URL may run over: anything but whitespace, a closing
/// parenthesis or a closing bracket.
pub open spec fn web_char(c: char) -> bool {
    !is_space(c) && c != ')' && c != ']'
}

/// Executable test for [`web_char`].
pub fn web_char_exec(c: char) -> (b: bool)
    ensures
        b == web_char(c),
{
    !is_space_char(c) && c != ')' && c != ']'
}

/// Where the colon of an `http` match starting at `i` must sit.
pub open spec fn http_colon(t: Seq<char>, i: int) -> int {
    if i + 4 < t.len() && t[i + 4] == 's' {
        i + 5
    } else {
        i + 4
    }
}

/// An `http` URL starts at `i`: `http`, an optional `s`, a colon, and at
/// least one URL character.
pub open spec fn http_match_at(t: Seq<char>, i: int) -> bool {
    0 <= i && i + 4 < t.len() && t[i] == 'h' && t[i + 1] == 't' && t[i + 2] == 't' && t[i + 3]
        == 'p' && {
        let k = http_colon(t, i);
        k < t.len() && t[k] == ':' && k + 1 < t.len() && web_char(t[k + 1])
    }
}

/// How far the `http` match starting at `i` extends.
pub open spec fn http_len(t: Seq<char>, i: int) -> int {
    let k = http_colon(t, i);
    k + 1 + run_len(t, k + 1, |c: char| web_char(c)) - i
}

/// The capture of the `http` match at `i`: the whole URL.
pub open spec fn http_cap(t: Seq<char>, i: int) -> Seq<char> {
    t.subrange(i, i + http_len(t, i))
}

/// All `http` URL captures of `t`, in match order.
pub open spec fn http_scan(t: Seq<char>, i: int) -> Seq<Seq<char>> {
    scan_captures(
        t,
        i,
        |tt: Seq<char>, ii: int| http_match_at(tt, ii),
        |tt: Seq<char>, ii: int| http_len(tt, ii),
        |tt: Seq<char>, ii: int| http_cap(tt, ii),
    )
}

/// A bare `www.` address starts at `i`: `www`, one further character —
/// any character but a newline, not only a literal dot — then at least one
/// URL character.
pub open spec fn www_match_at(t: Seq<char>, i: int) -> bool {
    0 <= i && i + 4 < t.len() && t[i] == 'w' && t[i + 1] == 'w' && t[i + 2] == 'w' && t[i + 3]
        != '\n' && web_char(t[i + 4])
}

/// How far the `www` match starting at `i` extends.
pub open spec fn www_len(t: Seq<char>, i: int) -> int {
    4 + run_len(t, i + 4, |c: char| web_char(c))
}

/// The capture of the `www` match at `i`: the whole address.
pub open spec fn www_cap(t: Seq<char>, i: int) -> Seq<char> {
    t.subrange(i, i + www_len(t, i))
}

/// All bare `www.` captures of `t`, in match order.
pub open spec fn www_scan(t: Seq<char>, i: int) -> Seq<Seq<char>> {
    scan_captures(
        t,
        i,
        |tt: Seq<char>, ii: int| www_match_at(tt, ii),
        |tt: Seq<char>, ii: int| www_len(tt, ii),
        |tt: Seq<char>, ii: int| www_cap(tt, ii),
    )
}

/// A bare address is kept only when neither of its `http` forms was already
/// captured.
pub open spec fn www_keeps(t: Seq<char>, w: Seq<char>) -> bool {
    !http_scan(t, 0).contains("https://"@ + w) && !http_scan(t, 0).contains("http://"@ + w)
}

/// The bare addresses of `ws` that survive deduplication against the
/// `http` captures of `t`.
pub open spec fn www_kept(t: Seq<char>, ws: Seq<Seq<char>>) -> Seq<Seq<char>>
    decreases ws.len(),
{
    if ws.len() == 0 {
        Seq::empty()
    } else {
        let d = www_kept(t, ws.drop_last());
        if www_keeps(t, ws.last()) {
            d.push(ws.last())
        } else {
            d
        }
    }
}

/// Both web-link sources merged, in match order: the `http` captures, then
/// the surviving bare addresses.
pub open spec fn web_all_spec(t: Seq<char>) -> Seq<Seq<char>> {
    http_scan(t, 0) + www_kept(t, www_scan(t, 0))
}

/// The web-link set of a text.
pub open spec fn web_links_spec(t: Seq<char>) -> Seq<Seq<char>> {
    dedup_spec(web_all_spec(t))
}

/// Every collected `http` capture begins with an `h`.
proof fn lemma_http_caps_start(t: Seq<char>)
    ensures
        forall|x: Seq<char>|
            #[trigger] http_scan(t, 0).contains(x) ==> x.len() >= 1 && x[0] == 'h',
{
    lemma_scan_sound(
        t,
        0,
        |tt: Seq<char>, ii: int| http_match_at(tt, ii),
        |tt: Seq<char>, ii: int| http_len(tt, ii),
        |tt: Seq<char>, ii: int| http_cap(tt, ii),
    );
    assert forall|x: Seq<char>| #[trigger]
        http_scan(t, 0).contains(x) implies x.len() >= 1 && x[0] == 'h' by {
        let q = choose|q: int|
            0 <= q < t.len() && #[trigger] http_match_at(t, q) && 1 <= http_len(t, q) && q
                + http_len(t, q) <= t.len() && x == http_cap(t, q);
        assert(x[0] == t[q + 0]);
    }
}

/// Every collected bare capture begins with a `w`.
proof fn lemma_www_caps_start(t: Seq<char>)
    ensures
        forall|x: Seq<char>|
            #[trigger] www_scan(t, 0).contains(x) ==> x.len() >= 1 && x[0] == 'w',
{
    lemma_scan_sound(
        t,
        0,
        |tt: Seq<char>, ii: int| www_match_at(tt, ii),
        |tt: Seq<char>, ii: int| www_len(tt, ii),
        |tt: Seq<char>, ii: int| www_cap(tt, ii),
    );
    assert forall|x: Seq<char>| #[trigger]
        www_scan(t, 0).contains(x) implies x.len() >= 1 && x[0] == 'w' by {
        let q = choose|q: int|
            0 <= q < t.len() && #[trigger] www_match_at(t, q) && 1 <= www_len(t, q) && q
                + www_len(t, q) <= t.len() && x == www_cap(t, q);
        assert(x[0] == t[q + 0]);
    }
}

/// Every surviving bare address passed the deduplication test and came from
/// the bare scan.
proof fn lemma_www_kept_members(t: Seq<char>, ws: Seq<Seq<char>>)
    ensures
        forall|x: Seq<char>|
            #[trigger] www_kept(t, ws).contains(x) ==> www_keeps(t, x) && ws.contains(x),
    decreases ws.len(),
{
    broadcast use vstd::seq_lib::lemma_seq_contains_after_push;

    if ws.len() > 0 {
        lemma_www_kept_members(t, ws.drop_last());
        assert forall|x: Seq<char>| #[trigger]
            www_kept(t, ws).contains(x) implies www_keeps(t, x) && ws.contains(x) by {
            let d = www_kept(t, ws.drop_last());
            if d.contains(x) {
                assert(ws.drop_last().contains(x));
                let k = choose|k: int| 0 <= k < ws.drop_last().len() && ws.drop_last()[k] == x;
                assert(ws[k] == x);
            } else {
                assert(x == ws.last());
            }
        }
    }
}

/// Every character an `http` match consumes is a URL character.
proof fn lemma_http_match_chars(t: Seq<char>, q: int)
    requires
        http_match_at(t, q),
        1 <= http_len(t, q),
        q + http_len(t, q) <= t.len(),
    ensures
        forall|p: int| q <= p < q + http_len(t, q) ==> web_char(#[trigger] t[p]),
{
    let k = http_colon(t, q);
    crate::strings::lemma_run_len_props(t, k + 1, |c: char| web_char(c));
    assert forall|p: int| q <= p < q + http_len(t, q) implies web_char(#[trigger] t[p]) by {
        if p < k {
            assert(t[p] == 'h' || t[p] == 't' || t[p] == 'p' || t[p] == 's');
        } else if p == k {
            assert(t[p] == ':');
        }
    }
}

/// A capture at a boundary is collected: when an `http` URL starts where no
/// URL character stands just before it, no earlier match runs past it, so
/// the scan reaches it.
pub proof fn lemma_http_boundary_reaches(t: Seq<char>, m: int)
    requires
        0 <= m < t.len(),
        http_match_at(t, m),
        m == 0 || !web_char(t[m - 1]),
    ensures
        http_scan(t, 0).contains(http_cap(t, m)),
{
    let k = http_colon(t, m);
    crate::strings::lemma_run_len_props(t, k + 1, |c: char| web_char(c));
    assert(1 <= http_len(t, m) && m + http_len(t, m) <= t.len());
    assert forall|q: int|
        0 <= q < m && #[trigger] http_match_at(t, q) && 1 <= http_len(t, q) && q + http_len(t, q)
            <= t.len() implies q + http_len(t, q) <= m by {
        lemma_http_match_chars(t, q);
        if q + http_len(t, q) > m {
            assert(web_char(t[m - 1]));
        }
    }
    lemma_scan_reaches(
        t,
        0,
        m,
        |tt: Seq<char>, ii: int| http_match_at(tt, ii),
        |tt: Seq<char>, ii: int| http_len(tt, ii),
        |tt: Seq<char>, ii: int| http_cap(tt, ii),
    );
}

/// The deduplication property in full: an `https://www.` address captured
/// at a boundary stands in the web-link set, stands in it once, and its
/// bare form never stands beside it.
pub proof fn lemma_web_links_once_only(t: Seq<char>, m: int)
    requires
        0 <= m < t.len(),
        http_match_at(t, m),
        m == 0 || !web_char(t[m - 1]),
        http_cap(t, m).len() > 8,
        http_cap(t, m).subrange(0, 8) == "https://"@,
        http_cap(t, m)[8] == 'w',
    ensures
        web_links_spec(t).contains(http_cap(t, m)),
        !web_links_spec(t).contains(http_cap(t, m).skip(8)),
        forall|a: int, b: int|
            0 <= a < b < web_links_spec(t).len() ==> web_links_spec(t)[a] != web_links_spec(
                t,
            )[b],
{
    let cap = http_cap(t, m);
    let bare = cap.skip(8);
    lemma_http_boundary_reaches(t, m);
    crate::strings::lemma_dedup_same_members(web_all_spec(t));
    crate::strings::lemma_dedup_distinct(web_all_spec(t));
    crate::strings::lemma_concat_contains(http_scan(t, 0), www_kept(t, www_scan(t, 0)));
    assert(web_all_spec(t).contains(cap));
    assert(web_links_spec(t).contains(cap));
    assert(bare.len() >= 1 && bare[0] == 'w');
    lemma_web_links_dedup(t, bare);
    assert("https://"@ + bare =~= cap);
    if web_links_spec(t).contains(bare) {
        assert(!web_links_spec(t).contains("https://"@ + bare));
        assert(false);
    }
}

/// Deduplication law: for any text, a bare `www.` address never stands in
/// the web-link set beside its `https://` or `http://` form.
pub proof fn lemma_web_links_dedup(t: Seq<char>, w: Seq<char>)
    requires
        w.len() >= 1,
        w[0] == 'w',
    ensures
        web_links_spec(t).contains(w) ==> !web_links_spec(t).contains("https://"@ + w),
        web_links_spec(t).contains(w) ==> !web_links_spec(t).contains("http://"@ + w),
{
    reveal_strlit("https://");
    reveal_strlit("http://");
    crate::strings::lemma_dedup_same_members(web_all_spec(t));
    crate::strings::lemma_concat_contains(http_scan(t, 0), www_kept(t, www_scan(t, 0)));
    lemma_http_caps_start(t);
    lemma_www_caps_start(t);
    lemma_www_kept_members(t, www_scan(t, 0));
    if web_links_spec(t).contains(w) {
        assert(web_all_spec(t).contains(w));
        assert(!http_scan(t, 0).contains(w));
        assert(www_kept(t, www_scan(t, 0)).contains(w));
        assert(www_keeps(t, w));
        let ps = "https://"@ + w;
        let pp = "http://"@ + w;
        assert(ps[0] == 'h');
        assert(pp[0] == 'h');
        if web_links_spec(t).contains(ps) {
            assert(web_all_spec(t).contains(ps));
            assert(!www_kept(t, www_scan(t, 0)).contains(ps));
            assert(http_scan(t, 0).contains(ps));
            assert(false);
        }
        if web_links_spec(t).contains(pp) {
            assert(web_all_spec(t).contains(pp));
            assert(!www_kept(t, www_scan(t, 0)).contains(pp));
            assert(http_scan(t, 0).contains(pp));
            assert(false);
        }
    }
}

/// The extractor for web links.
pub struct WebLinks {}

impl WebLinks {
    /// Collects the set of web links of `data`, each kept once in the order
    /// of its first appearance; nothing when there are none at all.
    pub fn parse(data: &str) -> (r: Option<Vec<String>>)
        ensures
            match r {
                Some(v) => views_of(v@) == web_links_spec(data@) && web_links_spec(
                    data@,
                ).len() > 0,
                None => web_links_spec(data@).len() == 0,
            },
    {
        let t = chars_vec(data);
        let mut out: Vec<String> = Vec::new();
        let ghost mut hcaps: Seq<Seq<char>> = Seq::empty();
        let mut i: usize = 0;
        proof {
            assert(hcaps + http_scan(t@, 0) =~= http_scan(t@, 0));
        }
        while i < t.len()
            invariant
                0 <= i <= t@.len(),
                http_scan(t@, 0) == hcaps + http_scan(t@, i as int),
                views_of(out@) == dedup_spec(hcaps),
            decreases t@.len() - i,
        {
            match http_try(&t, i) {
                Some(e) => {
                    let raw = subvec(&t, i, e);
                    let cap = string_from_chars(&raw);
                    proof {
                        assert(cap@ == http_cap(t@, i as int));
                        assert(http_scan(t@, i as int) =~= seq![http_cap(t@, i as int)]
                            + http_scan(t@, e as int));
                    }
                    if !contains_string(&out, &cap) {
                        out.push(cap);
                        proof {
                            assert(views_of(out@) =~= views_of(out@.drop_last()).push(
                                http_cap(t@, i as int),
                            ));
                        }
                    }
                    proof {
                        let c0 = http_cap(t@, i as int);
                        assert((hcaps.push(c0)).drop_last() =~= hcaps);
                        hcaps = hcaps.push(c0);
                        assert(hcaps.drop_last() + (seq![c0] + http_scan(t@, e as int)) =~= hcaps
                            + http_scan(t@, e as int));
                    }
                    i = e;
                },
                None => {
                    proof {
                        assert(http_scan(t@, i as int) == http_scan(t@, i + 1));
                    }
                    i += 1;
                },
            }
        }
        proof {
            assert(http_scan(t@, i as int) =~= Seq::<Seq<char>>::empty());
            assert(hcaps + Seq::<Seq<char>>::empty() =~= hcaps);
        }
        let mut bare: Vec<String> = Vec::new();
        let mut k: usize = 0;
        proof {
            assert(views_of(bare@) =~= www_scan(t@, 0).subrange(0, 0));
        }
        while k < t.len()
            invariant
                0 <= k <= t@.len(),
                www_scan(t@, 0) == views_of(bare@) + www_scan(t@, k as int),
            decreases t@.len() - k,
        {
            match www_try(&t, k) {
                Some(e) => {
                    let raw = subvec(&t, k, e);
                    let cap = string_from_chars(&raw);
                    proof {
                        assert(cap@ == www_cap(t@, k as int));
                        assert(www_scan(t@, k as int) =~= seq![www_cap(t@, k as int)] + www_scan(
                            t@,
                            e as int,
                        ));
                    }
                    bare.push(cap);
                    proof {
                        assert(views_of(bare@) =~= views_of(bare@.drop_last()).push(
                            www_cap(t@, k as int),
                        ));
                        assert(views_of(bare@.drop_last()) + (seq![www_cap(t@, k as int)]
                            + www_scan(t@, e as int)) =~= views_of(bare@) + www_scan(
                            t@,
                            e as int,
                        ));
                    }
                    k = e;
                },
                None => {
                    proof {
                        assert(www_scan(t@, k as int) == www_scan(t@, k + 1));
                    }
                    k += 1;
                },
            }
        }
        proof {
            assert(www_scan(t@, k as int) =~= Seq::<Seq<char>>::empty());
            assert(views_of(bare@) + Seq::<Seq<char>>::empty() =~= views_of(bare@));
        }
        let hlen: usize = out.len();
        let ghost ws = www_scan(t@, 0);
        let ghost mut merged: Seq<Seq<char>> = hcaps;
        let mut b: usize = 0;
        proof {
            assert(www_kept(t@, ws.subrange(0, 0)) =~= Seq::<Seq<char>>::empty());
            assert(merged =~= hcaps + www_kept(t@, ws.subrange(0, 0)));
            assert(views_of(out@).subrange(0, hlen as int) =~= dedup_spec(hcaps));
        }
        while b < bare.len()
            invariant
                0 <= b <= bare@.len(),
                hlen <= out@.len(),
                views_of(bare@) == ws,
                http_scan(t@, 0) == hcaps,
                views_of(out@).subrange(0, hlen as int) == dedup_spec(hcaps),
                merged == hcaps + www_kept(t@, ws.subrange(0, b as int)),
                views_of(out@) == dedup_spec(merged),
            decreases bare@.len() - b,
        {
            let w = &bare[b];
            let pref_s = String::from_str("https://").concat(w.as_str());
            let pref_p = String::from_str("http://").concat(w.as_str());
            let ghost prev = ws.subrange(0, b as int);
            let ghost cur = ws.subrange(0, b as int + 1);
            proof {
                assert(cur.drop_last() =~= prev);
                assert(cur.last() == w@);
            }
            let found = contains_prefix_upto(&out, hlen, &pref_s, &pref_p);
            let keep = !found;
            proof {
                lemma_dedup_same_members(hcaps);
                let dh = dedup_spec(hcaps);
                assert(forall|j: int|
                    0 <= j < hlen ==> views_of(out@).subrange(0, hlen as int)[j] == out@[j]@);
                if keep {
                    assert(forall|j: int| 0 <= j < dh.len() ==> dh[j] != pref_s@);
                    assert(forall|j: int| 0 <= j < dh.len() ==> dh[j] != pref_p@);
                    assert(!dh.contains(pref_s@));
                    assert(!dh.contains(pref_p@));
                    assert(www_keeps(t@, w@));
                } else {
                    let j = choose|j: int|
                        0 <= j < hlen && (out@[j]@ == pref_s@ || out@[j]@ == pref_p@);
                    assert(dh[j] == out@[j]@);
                    assert(dh.contains(pref_s@) || dh.contains(pref_p@));
                    assert(!www_keeps(t@, w@));
                }
            }
            if keep {
                if !contains_string(&out, w) {
                    let cloned = string_clone(w);
                    out.push(cloned);
                    proof {
                        assert(views_of(out@) =~= views_of(out@.drop_last()).push(w@));
                        assert(views_of(out@).subrange(0, hlen as int) =~= views_of(
                            out@.drop_last(),
                        ).subrange(0, hlen as int));
                    }
                }
                proof {
                    let m2 = merged.push(w@);
                    assert(m2.drop_last() =~= merged);
                    merged = m2;
                    assert(www_kept(t@, cur) =~= www_kept(t@, prev).push(w@));
                    assert(merged =~= hcaps + www_kept(t@, cur));
                }
            } else {
                proof {
                    assert(www_kept(t@, cur) =~= www_kept(t@, prev));
                    assert(merged =~= hcaps + www_kept(t@, cur));
                }
            }
            b += 1;
        }
        proof {
            assert(ws.subrange(0, ws.len() as int) =~= ws);
            assert(merged == web_all_spec(t@));
        }
        if out.len() == 0 {
            proof {
                assert(views_of(out@) =~= Seq::<Seq<char>>::empty());
            }
            None
        } else {
            Some(out)
        }
    }
}

/// Tests whether one of `a` or `b` stands among the first `hlen` strings.
fn contains_prefix_upto(v: &Vec<String>, hlen: usize, a: &String, b: &String) -> (r: bool)
    requires
        hlen <= v@.len(),
    ensures
        r == exists|j: int| 0 <= j < hlen && (v@[j]@ == a@ || v@[j]@ == b@),
{
    let mut h: usize = 0;
    while h < hlen
        invariant
            h <= hlen <= v@.len(),
            forall|j: int| 0 <= j < h ==> v@[j]@ != a@ && v@[j]@ != b@,
        decreases hlen - h,
    {
        if v[h].eq(a) || v[h].eq(b) {
            return true;
        }
        h += 1;
    }
    false
}

/// Clones a string, keeping its characters.
fn string_clone(s: &String) -> (r: String)
    ensures
        r@ == s@,
{
    String::from_str(s.as_str())
}

/// Looks for an `http` URL starting exactly at `i`; hands back the match end.
fn http_try(t: &Vec<char>, i: usize) -> (r: Option<usize>)
    requires
        i < t@.len(),
    ensures
        match r {
            Some(e) => http_match_at(t@, i as int) && i < e <= t@.len() && e - i == http_len(
                t@,
                i as int,
            ),
            None => !http_match_at(t@, i as int),
        },
{
    if t.len() - i <= 4 {
        return None;
    }
    if !(t[i] == 'h' && t[i + 1] == 't' && t[i + 2] == 't' && t[i + 3] == 'p') {
        return None;
    }
    let k: usize = if t[i + 4] == 's' {
        i + 5
    } else {
        i + 4
    };
    if k >= t.len() || t[k] != ':' {
        return None;
    }
    if k + 1 >= t.len() || !web_char_exec(t[k + 1]) {
        return None;
    }
    let mut e: usize = k + 1;
    while e < t.len() && web_char_exec(t[e])
        invariant
            k + 1 <= e <= t@.len(),
            forall|j: int| k + 1 <= j < e ==> web_char(#[trigger] t@[j]),
        decreases t@.len() - e,
    {
        e += 1;
    }
    proof {
        lemma_run_len_exact(t@, k + 1, e as int, |c: char| web_char(c));
    }
    Some(e)
}

/// Looks for a bare `www.` address starting exactly at `i`; hands back the
/// match end.
fn www_try(t: &Vec<char>, i: usize) -> (r: Option<usize>)
    requires
        i < t@.len(),
    ensures
        match r {
            Some(e) => www_match_at(t@, i as int) && i < e <= t@.len() && e - i == www_len(
                t@,
                i as int,
            ),
            None => !www_match_at(t@, i as int),
        },
{
    if t.len() - i <= 4 {
        return None;
    }
    if !(t[i] == 'w' && t[i + 1] == 'w' && t[i + 2] == 'w' && t[i + 3] != '\n') {
        return None;
    }
    if !web_char_exec(t[i + 4]) {
        return None;
    }
    let mut e: usize = i + 4;
    while e < t.len() && web_char_exec(t[e])
        invariant
            i + 4 <= e <= t@.len(),
            forall|j: int| i + 4 <= j < e ==> web_char(#[trigger] t@[j]),
        decreases t@.len() - e,
    {
        e += 1;
    }
    proof {
        lemma_run_len_exact(t@, i + 4, e as int, |c: char| web_char(c));
    }
    Some(e)
}

} // verus!
