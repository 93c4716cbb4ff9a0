//! Note templates: markdown text with `{{ KEY }}` placeholders, one space on
//! each side of the key. Filling replaces every placeholder whose key has a
//! supplied value and fails when any discovered key lacks one.

use vstd::prelude::*;

use crate::config::lookup_pairs;
use crate::parsers::date::{word_char, word_char_exec};
use crate::parsers::parser::scan_captures;
use crate::strings::{
    chars_vec, contains_string, dedup_spec, lemma_run_len_exact, push_all, replace_all_spec,
    replace_all_vec, run_len, string_from_chars, subvec, views_of,
};
use crate::ScribeError;

verus! {

/// A placeholder opens at `i`: two braces, a space, a key of at least one
/// word character, a space, and two closing braces.
pub open spec fn key_at(t: Seq<char>, i: int) -> bool {
    0 <= i && i + 3 < t.len() && t[i] == '{' && t[i + 1] == '{' && t[i + 2] == ' ' && word_char(
        t[i + 3],
    ) && {
        let r = run_len(t, i + 3, |c: char| word_char(c));
        i + r + 5 < t.len() && t[i + 3 + r] == ' ' && t[i + 4 + r] == '}' && t[i + 5 + r] == '}'
    }
}

/// How far the placeholder starting at `i` extends.
pub open spec fn key_len(t: Seq<char>, i: int) -> int {
    run_len(t, i + 3, |c: char| word_char(c)) + 6
}

/// The key of the placeholder at `i`.
pub open spec fn key_cap(t: Seq<char>, i: int) -> Seq<char> {
    t.subrange(i + 3, i + 3 + run_len(t, i + 3, |c: char| word_char(c)))
}

/// All placeholder keys of `t`, in match order.
pub open spec fn key_scan(t: Seq<char>, i: int) -> Seq<Seq<char>> {
    scan_captures(
        t,
        i,
        |tt: Seq<char>, ii: int| key_at(tt, ii),
        |tt: Seq<char>, ii: int| key_len(tt, ii),
        |tt: Seq<char>, ii: int| key_cap(tt, ii),
    )
}

/// The key set of a template text.
pub open spec fn keys_spec(t: Seq<char>) -> Seq<Seq<char>> {
    dedup_spec(key_scan(t, 0))
}

/// The placeholder text for a key.
pub open spec fn placeholder_of(key: Seq<char>) -> Seq<char> {
    "{{ "@ + key + " }}"@
}

/// The result of filling `data`: each key of `keys` replaced in turn by its
/// value, or the first key with no value reported as missing.
pub open spec fn fill_keys(
    data: Seq<char>,
    keys: Seq<Seq<char>>,
    values: Seq<(String, String)>,
) -> Result<Seq<char>, ScribeError>
    decreases keys.len(),
{
    if keys.len() == 0 {
        Ok(data)
    } else {
        match lookup_pairs(values, keys.first()) {
            None => Err(ScribeError::MissingParams),
            Some(v) => fill_keys(
                replace_all_spec(data, placeholder_of(keys.first()), v@),
                keys.drop_first(),
                values,
            ),
        }
    }
}

/// Filling succeeds exactly when every key has a value.
pub proof fn lemma_fill_total(data: Seq<char>, keys: Seq<Seq<char>>, values: Seq<(String, String)>)
    ensures
        fill_keys(data, keys, values) is Ok <==> forall|k: Seq<char>|
            #[trigger] keys.contains(k) ==> lookup_pairs(values, k) is Some,
    decreases keys.len(),
{
    if keys.len() > 0 {
        assert(keys.contains(keys.first())) by {
            assert(keys[0] == keys.first());
        }
        match lookup_pairs(values, keys.first()) {
            None => {},
            Some(v) => {
                lemma_fill_total(
                    replace_all_spec(data, placeholder_of(keys.first()), v@),
                    keys.drop_first(),
                    values,
                );
                assert forall|k: Seq<char>| #[trigger]
                    keys.contains(k) && k != keys.first() implies keys.drop_first().contains(
                    k,
                ) by {
                    let j = choose|j: int| 0 <= j < keys.len() && keys[j] == k;
                    assert(keys.drop_first()[j - 1] == k);
                }
                assert forall|k: Seq<char>| #[trigger]
                    keys.drop_first().contains(k) implies keys.contains(k) by {
                    let j = choose|j: int|
                        0 <= j < keys.drop_first().len() && keys.drop_first()[j] == k;
                    assert(keys[j + 1] == k);
                }
            },
        }
    }
}

/// A note template.
pub struct ScribeTemplate {
    data: String,
}

impl ScribeTemplate {
    /// The template text.
    pub closed spec fn text(&self) -> Seq<char> {
        self.data@
    }

    /// Builds a template from its text.
    pub fn from_str(template_str: &str) -> (r: Self)
        ensures
            r.text() == template_str@,
    {
        ScribeTemplate { data: String::from_str(template_str) }
    }

    /// The set of placeholder keys of this template, each once, in order of
    /// first appearance; nothing when the template has no placeholder.
    pub fn get_keys(&self) -> (r: Option<Vec<String>>)
        ensures
            match r {
                Some(v) => views_of(v@) == keys_spec(self.text()) && keys_spec(
                    self.text(),
                ).len() > 0,
                None => keys_spec(self.text()).len() == 0,
            },
    {
        let t = chars_vec(self.data.as_str());
        let mut out: Vec<String> = Vec::new();
        let ghost mut caps: Seq<Seq<char>> = Seq::empty();
        let mut i: usize = 0;
        proof {
            assert(caps + key_scan(t@, 0) =~= key_scan(t@, 0));
        }
        while i < t.len()
            invariant
                t@ == self.text(),
                0 <= i <= t@.len(),
                key_scan(t@, 0) == caps + key_scan(t@, i as int),
                views_of(out@) == dedup_spec(caps),
            decreases t@.len() - i,
        {
            match key_try(&t, i) {
                Some(run) => {
                    let raw = subvec(&t, i + 3, i + 3 + run);
                    let cap = string_from_chars(&raw);
                    let next: usize = i + run + 6;
                    proof {
                        assert(cap@ == key_cap(t@, i as int));
                        assert(next - i == key_len(t@, i as int));
                        assert(key_scan(t@, i as int) =~= seq![key_cap(t@, i as int)] + key_scan(
                            t@,
                            next as int,
                        ));
                    }
                    if !contains_string(&out, &cap) {
                        out.push(cap);
                        proof {
                            assert(views_of(out@) =~= views_of(out@.drop_last()).push(
                                key_cap(t@, i as int),
                            ));
                        }
                    }
                    proof {
                        let c0 = key_cap(t@, i as int);
                        assert((caps.push(c0)).drop_last() =~= caps);
                        caps = caps.push(c0);
                        assert(caps.drop_last() + (seq![c0] + key_scan(t@, next as int)) =~= caps
                            + key_scan(t@, next as int));
                    }
                    i = next;
                },
                None => {
                    proof {
                        assert(key_scan(t@, i as int) == key_scan(t@, i + 1));
                    }
                    i += 1;
                },
            }
        }
        proof {
            assert(key_scan(t@, i as int) =~= Seq::<Seq<char>>::empty());
            assert(caps + Seq::<Seq<char>>::empty() =~= caps);
            crate::strings::lemma_dedup_same_members(caps);
        }
        if out.len() == 0 {
            proof {
                assert(views_of(out@) =~= Seq::<Seq<char>>::empty());
            }
            None
        } else {
            Some(out)
        }
    }

    /// Fills this template: every placeholder whose key has a value in
    /// `values` is replaced by it; fails exactly when some discovered key
    /// has none.
    pub fn fill(&self, values: &Vec<(String, String)>) -> (r: Result<String, ScribeError>)
        ensures
            match r {
                Ok(s) => fill_keys(self.text(), keys_spec(self.text()), values@) == Ok::<
                    Seq<char>,
                    ScribeError,
                >(s@),
                Err(e) => fill_keys(self.text(), keys_spec(self.text()), values@) == Err::<
                    Seq<char>,
                    ScribeError,
                >(e),
            },
    {
        let keys = match self.get_keys() {
            None => {
                return Ok(String::from_str(self.data.as_str()));
            },
            Some(keys) => keys,
        };
        let ghost all = keys_spec(self.text());
        let mut data = chars_vec(self.data.as_str());
        let mut k: usize = 0;
        proof {
            assert(all.skip(0) =~= all);
        }
        while k < keys.len()
            invariant
                0 <= k <= keys@.len(),
                all == keys_spec(self.text()),
                views_of(keys@) == all,
                fill_keys(self.text(), all, values@) == fill_keys(
                    data@,
                    all.skip(k as int),
                    values@,
                ),
            decreases keys@.len() - k,
        {
            let ghost rest = all.skip(k as int);
            proof {
                assert(rest.first() == keys@[k as int]@);
                assert(rest.drop_first() =~= all.skip(k as int + 1));
            }
            let key = &keys[k];
            match lookup_value(values, key) {
                None => {
                    proof {
                        assert(fill_keys(data@, rest, values@) == Err::<Seq<char>, ScribeError>(
                            ScribeError::MissingParams,
                        ));
                    }
                    return Err(ScribeError::MissingParams);
                },
                Some(v) => {
                    let kv = chars_vec(key.as_str());
                    let mut pat: Vec<char> = Vec::new();
                    let brace_open = chars_vec("{{ ");
                    let brace_close = chars_vec(" }}");
                    push_all(&mut pat, &brace_open);
                    push_all(&mut pat, &kv);
                    push_all(&mut pat, &brace_close);
                    proof {
                        assert(pat@ =~= placeholder_of(keys@[k as int]@));
                    }
                    let vv = chars_vec(v.as_str());
                    data = replace_all_vec(&data, &pat, &vv);
                },
            }
            k += 1;
        }
        proof {
            assert(all.skip(k as int) =~= Seq::<Seq<char>>::empty());
        }
        Ok(string_from_chars(&data))
    }
}

/// The text of the built-in basic template.
pub open spec fn basic_template_text() -> Seq<char> {
    "---\ntitle: {{ TITLE }}\ndate: {{ DATE }}\ntags: {{ TAGS }}\n---\n\n# {{ TITLE }}"@
}

/// The collection of known templates, the built-in ones and any the
/// surroundings supply, looked up by name. An earlier entry shadows a later
/// one of the same name.
pub struct ScribeTemplateLibrary {
    templates: Vec<(String, ScribeTemplate)>,
}

impl ScribeTemplateLibrary {
    /// The named templates, in lookup order.
    pub closed spec fn entries_view(&self) -> Seq<(String, ScribeTemplate)> {
        self.templates@
    }

    /// The library of built-in templates alone.
    pub fn load() -> (r: Self)
        ensures
            r.entries_view().len() == 1,
            r.entries_view()[0].0@ == "basic"@,
            r.entries_view()[0].1.text() == basic_template_text(),
    {
        let mut templates: Vec<(String, ScribeTemplate)> = Vec::new();
        templates.push(
            (
                String::from_str("basic"),
                ScribeTemplate::from_str(
                    "---\ntitle: {{ TITLE }}\ndate: {{ DATE }}\ntags: {{ TAGS }}\n---\n\n# {{ TITLE }}",
                ),
            ),
        );
        ScribeTemplateLibrary { templates }
    }

    /// Adds a template under a name, shadowing any existing one of that
    /// name.
    pub fn insert_template(&mut self, name: String, template: ScribeTemplate)
        ensures
            final(self).entries_view() == seq![(name, template)] + old(self).entries_view(),
    {
        self.templates.insert(0, (name, template));
        proof {
            assert(self.templates@ =~= seq![(name, template)] + old(self).templates@);
        }
    }

    /// The names of the known templates, in lookup order.
    pub fn list_templates(&self) -> (r: Vec<String>)
        ensures
            r@.len() == self.entries_view().len(),
            forall|k: int| 0 <= k < r@.len() ==> (#[trigger] r@[k])@ == self.entries_view()[k].0@,
    {
        let mut out: Vec<String> = Vec::new();
        let mut i: usize = 0;
        while i < self.templates.len()
            invariant
                0 <= i <= self.templates@.len(),
                out@.len() == i,
                forall|k: int| 0 <= k < i ==> (#[trigger] out@[k])@ == self.templates@[k].0@,
            decreases self.templates@.len() - i,
        {
            out.push(String::from_str(self.templates[i].0.as_str()));
            i += 1;
        }
        out
    }

    /// The template of the given name, if the library knows one.
    pub fn get_template(&self, template_name: &str) -> (r: Option<&ScribeTemplate>)
        ensures
            match r {
                Some(t) => lookup_pairs(self.entries_view(), template_name@) == Some(*t),
                None => lookup_pairs(self.entries_view(), template_name@) is None,
            },
    {
        let key = String::from_str(template_name);
        let mut i: usize = 0;
        proof {
            assert(self.templates@.skip(0) =~= self.templates@);
        }
        while i < self.templates.len()
            invariant
                key@ == template_name@,
                0 <= i <= self.templates@.len(),
                lookup_pairs(self.entries_view(), template_name@) == lookup_pairs(
                    self.templates@.skip(i as int),
                    template_name@,
                ),
            decreases self.templates@.len() - i,
        {
            let ghost rest = self.templates@.skip(i as int);
            if self.templates[i].0.eq(&key) {
                proof {
                    assert(rest.first() == self.templates@[i as int]);
                }
                return Some(&self.templates[i].1);
            }
            proof {
                assert(rest.first() == self.templates@[i as int]);
                assert(rest.drop_first() =~= self.templates@.skip(i + 1));
            }
            i += 1;
        }
        proof {
            assert(self.templates@.skip(i as int) =~= Seq::<(String, ScribeTemplate)>::empty());
        }
        None
    }
}

/// Looks for a placeholder opening exactly at `i`; hands back the key run.
fn key_try(t: &Vec<char>, i: usize) -> (r: Option<usize>)
    requires
        i < t@.len(),
    ensures
        match r {
            Some(run) => key_at(t@, i as int) && run == run_len(
                t@,
                i + 3,
                |c: char| word_char(c),
            ) && i + run + 6 <= t@.len(),
            None => !key_at(t@, i as int),
        },
{
    if t.len() - i <= 3 {
        return None;
    }
    if !(t[i] == '{' && t[i + 1] == '{' && t[i + 2] == ' ' && word_char_exec(t[i + 3])) {
        return None;
    }
    let mut e: usize = i + 3;
    while e < t.len() && word_char_exec(t[e])
        invariant
            i + 3 <= e <= t@.len(),
            forall|j: int| i + 3 <= j < e ==> word_char(#[trigger] t@[j]),
        decreases t@.len() - e,
    {
        e += 1;
    }
    proof {
        lemma_run_len_exact(t@, i + 3, e as int, |c: char| word_char(c));
    }
    let run: usize = e - (i + 3);
    if t.len() - e >= 3 && t[e] == ' ' && t[e + 1] == '}' && t[e + 2] == '}' {
        Some(run)
    } else {
        None
    }
}

/// The first value bound to `key` among the pairs, if any.
fn lookup_value<'a>(values: &'a Vec<(String, String)>, key: &String) -> (r: Option<&'a String>)
    ensures
        match r {
            Some(v) => lookup_pairs(values@, key@) == Some(*v),
            None => lookup_pairs(values@, key@) is None,
        },
{
    let mut i: usize = 0;
    proof {
        assert(values@.skip(0) =~= values@);
    }
    while i < values.len()
        invariant
            0 <= i <= values@.len(),
            lookup_pairs(values@, key@) == lookup_pairs(values@.skip(i as int), key@),
        decreases values@.len() - i,
    {
        let ghost rest = values@.skip(i as int);
        if values[i].0.eq(key) {
            proof {
                assert(rest.first() == values@[i as int]);
            }
            return Some(&values[i].1);
        }
        proof {
            assert(rest.first() == values@[i as int]);
            assert(rest.drop_first() =~= values@.skip(i + 1));
        }
        i += 1;
    }
    proof {
        assert(values@.skip(i as int) =~= Seq::<(String, String)>::empty());
    }
    None
}

} // verus!
