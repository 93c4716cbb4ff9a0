//! Note tags, from two independent sources merged into one set: the entries
//! of a front-matter `tags: [...]` line, and every inline `#hashtag` token
//! not sitting behind a single quote.

use vstd::prelude::*;

use crate::parsers::date::{word_char, word_char_exec};
use crate::parsers::parser::scan_captures;
use crate::strings::{
    chars_vec, contains_string, dedup_spec, is_space_char, last_index_in, last_index_in_vec,
    lemma_dedup_distinct, lemma_dedup_same_members, lemma_run_len_exact, line_end, line_end_vec,
    run_len, string_from_chars, strip_quote_pair_spec, strip_quote_pair_vec, subvec, trim_spec,
    trim_vec, views_of,
};

verus! {

/// A front-matter tag list opens at `i`: `tags:` on a word boundary, one
/// whitespace character, an opening bracket, and a closing bracket later on
/// the same line with at least one character between.
pub open spec fn tags_fm_at(t: Seq<char>, i: int) -> bool {
    0 <= i && i + 6 < t.len() && (i == 0 || !word_char(t[i - 1])) && t[i] == 't' && t[i + 1]
        == 'a' && t[i + 2] == 'g' && t[i + 3] == 's' && t[i + 4] == ':' && crate::strings::is_space(
        t[i + 5],
    ) && t[i + 6] == '[' && i + 8 <= line_end(t, i + 7) && last_index_in(
        t,
        ']',
        i + 8,
        line_end(t, i + 7),
    ) != -1
}

/// How far the tag-list match starting at `i` extends: through the last
/// closing bracket on the line.
pub open spec fn tags_fm_len(t: Seq<char>, i: int) -> int {
    last_index_in(t, ']', i + 8, line_end(t, i + 7)) + 1 - i
}

/// The capture of the tag-list match: the text between the brackets,
/// trimmed.
pub open spec fn tags_fm_cap(t: Seq<char>, i: int) -> Seq<char> {
    trim_spec(t.subrange(i + 7, last_index_in(t, ']', i + 8, line_end(t, i + 7))))
}

/// All front-matter tag-list captures of `t`, in match order.
pub open spec fn tags_fm_scan(t: Seq<char>, i: int) -> Seq<Seq<char>> {
    scan_captures(
        t,
        i,
        |tt: Seq<char>, ii: int| tags_fm_at(tt, ii),
        |tt: Seq<char>, ii: int| tags_fm_len(tt, ii),
        |tt: Seq<char>, ii: int| tags_fm_cap(tt, ii),
    )
}

/// One tag entry cleaned: trimmed, then one surrounding pair of double
/// quotes stripped.
pub open spec fn clean_piece(p: Seq<char>) -> Seq<char> {
    strip_quote_pair_spec(trim_spec(p))
}

/// A captured tag list split at commas, each entry cleaned.
pub open spec fn clean_split(s: Seq<char>) -> Seq<Seq<char>>
    decreases s.len(),
{
    let k = run_len(s, 0, |c: char| c != ',');
    if k < 0 || k >= s.len() {
        seq![clean_piece(s)]
    } else {
        seq![clean_piece(s.subrange(0, k))] + clean_split(s.skip(k + 1))
    }
}

/// The tag entries of a list of captures, in order.
pub open spec fn flat_clean(caps: Seq<Seq<char>>) -> Seq<Seq<char>>
    decreases caps.len(),
{
    if caps.len() == 0 {
        Seq::empty()
    } else {
        clean_split(caps.first()) + flat_clean(caps.drop_first())
    }
}

/// The tags of the front-matter source.
pub open spec fn front_tags(t: Seq<char>) -> Seq<Seq<char>> {
    flat_clean(tags_fm_scan(t, 0))
}

/// A character a hashtag may hold.
pub open spec fn tag_char(c: char) -> bool {
    ('a' <= c && c <= 'z') || ('A' <= c && c <= 'Z') || ('0' <= c && c <= '9') || c == '-' || c
        == '_'
}

/// Executable test for [`tag_char`].
pub fn tag_char_exec(c: char) -> (b: bool)
    ensures
        b == tag_char(c),
{
    ('a' <= c && c <= 'z') || ('A' <= c && c <= 'Z') || ('0' <= c && c <= '9') || c == '-' || c
        == '_'
}

/// A hashtag starts at `i`: a hash not sitting behind a single quote,
/// followed by at least one tag character.
pub open spec fn hash_at(t: Seq<char>, i: int) -> bool {
    0 <= i && i + 1 < t.len() && t[i] == '#' && tag_char(t[i + 1]) && (i == 0 || t[i - 1]
        != '\'')
}

/// How far the hashtag match starting at `i` extends.
pub open spec fn hash_len(t: Seq<char>, i: int) -> int {
    1 + run_len(t, i + 1, |c: char| tag_char(c))
}

/// The capture of the hashtag match: the token after the hash.
pub open spec fn hash_cap(t: Seq<char>, i: int) -> Seq<char> {
    t.subrange(i + 1, i + hash_len(t, i))
}

/// The tags of the hashtag source, in match order.
pub open spec fn hashtag_tags(t: Seq<char>, i: int) -> Seq<Seq<char>> {
    scan_captures(
        t,
        i,
        |tt: Seq<char>, ii: int| hash_at(tt, ii),
        |tt: Seq<char>, ii: int| hash_len(tt, ii),
        |tt: Seq<char>, ii: int| hash_cap(tt, ii),
    )
}

/// Both tag sources in order: the front-matter entries, then the hashtags.
pub open spec fn tags_all(t: Seq<char>) -> Seq<Seq<char>> {
    front_tags(t) + hashtag_tags(t, 0)
}

/// The tag set of a text.
pub open spec fn tags_spec(t: Seq<char>) -> Seq<Seq<char>> {
    dedup_spec(tags_all(t))
}

/// The tag set is exactly the union of the two sources, each tag kept once:
/// a tag stands in it just when the front-matter line or a hashtag yields
/// it, and no tag stands in it twice.
pub proof fn lemma_tags_union(t: Seq<char>)
    ensures
        forall|x: Seq<char>|
            #[trigger] tags_spec(t).contains(x) <==> front_tags(t).contains(x) || hashtag_tags(
                t,
                0,
            ).contains(x),
        forall|a: int, b: int|
            0 <= a < b < tags_spec(t).len() ==> tags_spec(t)[a] != tags_spec(t)[b],
{
    lemma_dedup_same_members(tags_all(t));
    lemma_dedup_distinct(tags_all(t));
    crate::strings::lemma_concat_contains(front_tags(t), hashtag_tags(t, 0));
    assert forall|x: Seq<char>| #[trigger]
        tags_spec(t).contains(x) <==> front_tags(t).contains(x) || hashtag_tags(
        t,
        0,
    ).contains(x) by {
        assert(tags_spec(t).contains(x) <==> tags_all(t).contains(x));
        assert((front_tags(t) + hashtag_tags(t, 0)).contains(x) <==> front_tags(t).contains(x)
            || hashtag_tags(t, 0).contains(x));
    }
}

/// The extractor for note tags.
pub struct Tags {}

impl Tags {
    /// Collects the tag set of `data`: the front-matter entries and the
    /// hashtag tokens, each kept once in order of first appearance.
    pub fn parse(data: &str) -> (r: Option<Vec<String>>)
        ensures
            r is Some,
            views_of(r->Some_0@) == tags_spec(data@),
    {
        let t = chars_vec(data);
        let mut out: Vec<String> = Vec::new();
        let ghost mut acc: Seq<Seq<char>> = Seq::empty();
        let mut i: usize = 0;
        proof {
            assert(acc + flat_clean(tags_fm_scan(t@, 0)) =~= flat_clean(tags_fm_scan(t@, 0)));
        }
        while i < t.len()
            invariant
                t@ == data@,
                0 <= i <= t@.len(),
                front_tags(t@) == acc + flat_clean(tags_fm_scan(t@, i as int)),
                views_of(out@) == dedup_spec(acc),
            decreases t@.len() - i,
        {
            let mut matched = false;
            let mut bracket: usize = 0;
            if t.len() - i > 6 && (i == 0 || !word_char_exec(t[i - 1])) && t[i] == 't' && t[i
                + 1] == 'a' && t[i + 2] == 'g' && t[i + 3] == 's' && t[i + 4] == ':'
                && is_space_char(t[i + 5]) && t[i + 6] == '[' {
                let e = line_end_vec(&t, i + 7);
                if e - i >= 8 {
                    let b = last_index_in_vec(&t, ']', i + 8, e);
                    if b < t.len() {
                        matched = true;
                        bracket = b;
                    }
                }
            }
            if matched {
                proof {
                    assert(tags_fm_at(t@, i as int));
                    assert(bracket == last_index_in(t@, ']', i + 8, line_end(t@, i + 7)));
                }
                let raw = subvec(&t, i + 7, bracket);
                let cap = trim_vec(&raw);
                let next: usize = bracket + 1;
                let ghost rest_scan = tags_fm_scan(t@, next as int);
                proof {
                    assert(next - i == tags_fm_len(t@, i as int));
                    assert(cap@ == tags_fm_cap(t@, i as int));
                    assert(tags_fm_scan(t@, i as int) =~= seq![tags_fm_cap(t@, i as int)]
                        + rest_scan);
                    let whole = seq![tags_fm_cap(t@, i as int)] + rest_scan;
                    assert(whole.first() == cap@);
                    assert(whole.drop_first() =~= rest_scan);
                    assert(flat_clean(tags_fm_scan(t@, i as int)) == clean_split(cap@)
                        + flat_clean(rest_scan));
                    assert(cap@.skip(0) =~= cap@);
                }
                let mut pos: usize = 0;
                loop
                    invariant_except_break
                        front_tags(t@) == acc + clean_split(cap@.skip(pos as int)) + flat_clean(
                            rest_scan,
                        ),
                    invariant
                        0 <= pos <= cap@.len(),
                        views_of(out@) == dedup_spec(acc),
                    ensures
                        front_tags(t@) == acc + flat_clean(rest_scan),
                    decreases cap@.len() - pos,
                {
                    let ghost s = cap@.skip(pos as int);
                    let mut e2: usize = pos;
                    while e2 < cap.len() && cap[e2] != ','
                        invariant
                            pos <= e2 <= cap@.len(),
                            forall|j: int| pos <= j < e2 ==> (#[trigger] cap@[j]) != ',',
                        decreases cap@.len() - e2,
                    {
                        e2 += 1;
                    }
                    proof {
                        assert(forall|j: int|
                            0 <= j < e2 - pos ==> (#[trigger] s[j]) != ',');
                        if e2 < cap@.len() {
                            assert(s[e2 - pos] == ',');
                        }
                        lemma_run_len_exact(s, 0, e2 - pos, |c: char| c != ',');
                    }
                    let piece_raw = subvec(&cap, pos, e2);
                    let piece_t = trim_vec(&piece_raw);
                    let piece_q = strip_quote_pair_vec(&piece_t);
                    let tag = string_from_chars(&piece_q);
                    proof {
                        if e2 == cap@.len() {
                            assert(piece_raw@ =~= s);
                            assert(clean_split(s) =~= seq![clean_piece(s)]);
                        } else {
                            assert(piece_raw@ =~= s.subrange(0, e2 - pos));
                        }
                        assert(tag@ == clean_split(s)[0]);
                    }
                    if !contains_string(&out, &tag) {
                        out.push(tag);
                        proof {
                            assert(views_of(out@) =~= views_of(out@.drop_last()).push(
                                clean_split(s)[0],
                            ));
                        }
                    }
                    proof {
                        let piece = clean_split(s)[0];
                        assert((acc.push(piece)).drop_last() =~= acc);
                        acc = acc.push(piece);
                    }
                    if e2 >= cap.len() {
                        proof {
                            assert(clean_split(s) =~= seq![clean_split(s)[0]]);
                            assert(acc.drop_last() + (clean_split(s) + flat_clean(rest_scan))
                                =~= acc + flat_clean(rest_scan));
                        }
                        break ;
                    }
                    proof {
                        let k = run_len(s, 0, |c: char| c != ',');
                        assert(k == e2 - pos);
                        assert(clean_split(s) =~= seq![clean_split(s)[0]] + clean_split(
                            s.skip(k + 1),
                        ));
                        assert(s.skip(k + 1) =~= cap@.skip(e2 as int + 1));
                        assert(acc.drop_last() + (clean_split(s) + flat_clean(rest_scan)) =~= acc
                            + (clean_split(cap@.skip(e2 as int + 1)) + flat_clean(rest_scan)));
                    }
                    pos = e2 + 1;
                }
                i = next;
            } else {
                proof {
                    assert(!tags_fm_at(t@, i as int));
                    assert(tags_fm_scan(t@, i as int) == tags_fm_scan(t@, i + 1));
                }
                i += 1;
            }
        }
        proof {
            assert(tags_fm_scan(t@, i as int) =~= Seq::<Seq<char>>::empty());
            assert(flat_clean(Seq::<Seq<char>>::empty()) =~= Seq::<Seq<char>>::empty());
            assert(acc + Seq::<Seq<char>>::empty() =~= acc);
            assert(acc == front_tags(t@));
            assert(acc + hashtag_tags(t@, 0) =~= tags_all(t@));
        }
        let mut k: usize = 0;
        while k < t.len()
            invariant
                t@ == data@,
                0 <= k <= t@.len(),
                tags_all(t@) == acc + hashtag_tags(t@, k as int),
                views_of(out@) == dedup_spec(acc),
            decreases t@.len() - k,
        {
            let m: bool = t.len() - k > 1 && t[k] == '#' && tag_char_exec(t[k + 1]) && (k == 0
                || t[k - 1] != '\'');
            if m {
                let mut e: usize = k + 1;
                while e < t.len() && tag_char_exec(t[e])
                    invariant
                        k + 1 <= e <= t@.len(),
                        forall|j: int| k + 1 <= j < e ==> tag_char(#[trigger] t@[j]),
                    decreases t@.len() - e,
                {
                    e += 1;
                }
                proof {
                    lemma_run_len_exact(t@, k + 1, e as int, |c: char| tag_char(c));
                    assert(hash_at(t@, k as int));
                    assert(e - k == hash_len(t@, k as int));
                }
                let raw = subvec(&t, k + 1, e);
                let tag = string_from_chars(&raw);
                proof {
                    assert(tag@ == hash_cap(t@, k as int));
                    assert(hashtag_tags(t@, k as int) =~= seq![hash_cap(t@, k as int)]
                        + hashtag_tags(t@, e as int));
                }
                if !contains_string(&out, &tag) {
                    out.push(tag);
                    proof {
                        assert(views_of(out@) =~= views_of(out@.drop_last()).push(
                            hash_cap(t@, k as int),
                        ));
                    }
                }
                proof {
                    let c0 = hash_cap(t@, k as int);
                    assert((acc.push(c0)).drop_last() =~= acc);
                    acc = acc.push(c0);
                    assert(acc.drop_last() + (seq![c0] + hashtag_tags(t@, e as int)) =~= acc
                        + hashtag_tags(t@, e as int));
                }
                k = e;
            } else {
                proof {
                    assert(!hash_at(t@, k as int));
                    assert(hashtag_tags(t@, k as int) == hashtag_tags(t@, k + 1));
                }
                k += 1;
            }
        }
        proof {
            assert(hashtag_tags(t@, k as int) =~= Seq::<Seq<char>>::empty());
            assert(acc + Seq::<Seq<char>>::empty() =~= acc);
        }
        Some(out)
    }
}

} // verus!
