//! The note index: one metadata record per note, keyed by the note's
//! root-relative path, with backlink queries over the recorded links.

use vstd::prelude::*;

use crate::parsers::date::{date_spec, NoteDate};
use crate::parsers::embedded_links::{embedded_links_spec, EmbeddedLinks};
use crate::parsers::internal_links::{internal_links_spec, InternalLinks};
use crate::parsers::tags::{tags_spec, Tags};
use crate::parsers::title::{title_spec, Title};
use crate::parsers::web_links::{web_links_spec, WebLinks};
use crate::path::{abs_spec, ScribePath};
use crate::strings::{
    chars_vec, contains_string, replace_all_spec, replace_all_vec, string_from_chars,
    trim_char_end_spec, views_of,
};

verus! {

/// The mathematical shape of one index record.
#[verifier::ext_equal]
pub ghost struct NoteView {
    /// The root-relative path, the record's identity.
    pub path: Seq<char>,
    /// The parsed title, when one was found.
    pub title: Option<Seq<char>>,
    /// The parsed tag set, absent only for an unreadable note.
    pub tags: Option<Seq<Seq<char>>>,
    /// The parsed date, when one was found and well-formed.
    pub date: Option<NoteDate>,
    /// The parsed embedded links, absent only for an unreadable note.
    pub embedded_links: Option<Seq<Seq<char>>>,
    /// The parsed internal links, absent only for an unreadable note.
    pub internal_links: Option<Seq<Seq<char>>>,
    /// The parsed web links, absent when there are none.
    pub web_links: Option<Seq<Seq<char>>>,
}

/// One note's metadata record.
#[derive(Debug, PartialEq)]
pub struct NoteInfo {
    /// The root-relative path of the note.
    pub path: String,
    /// The note's title, when its text yields one.
    pub title: Option<String>,
    /// The note's tags.
    pub tags: Option<Vec<String>>,
    /// The note's creation date.
    pub date: Option<NoteDate>,
    /// The note's embedded wiki links.
    pub embedded_links: Option<Vec<String>>,
    /// The note's internal markdown links.
    pub internal_links: Option<Vec<String>>,
    /// The note's web links.
    pub web_links: Option<Vec<String>>,
}

/// The views of an optional string set.
pub open spec fn opt_views(v: Option<Vec<String>>) -> Option<Seq<Seq<char>>> {
    match v {
        Some(x) => Some(views_of(x@)),
        None => None,
    }
}

/// The view of an optional string.
pub open spec fn opt_str_view(v: Option<String>) -> Option<Seq<char>> {
    match v {
        Some(x) => Some(x@),
        None => None,
    }
}

impl View for NoteInfo {
    type V = NoteView;

    open spec fn view(&self) -> NoteView {
        NoteView {
            path: self.path@,
            title: opt_str_view(self.title),
            tags: opt_views(self.tags),
            date: self.date,
            embedded_links: opt_views(self.embedded_links),
            internal_links: opt_views(self.internal_links),
            web_links: opt_views(self.web_links),
        }
    }
}

/// The record that parsing a note at relative path `rel` with text `data`
/// must produce: each field by its parser, everything absent when the note
/// could not be read.
pub open spec fn parse_view(rel: Seq<char>, data: Option<Seq<char>>) -> NoteView {
    match data {
        None => NoteView {
            path: rel,
            title: None,
            tags: None,
            date: None,
            embedded_links: None,
            internal_links: None,
            web_links: None,
        },
        Some(d) => NoteView {
            path: rel,
            title: title_spec(d),
            tags: Some(tags_spec(d)),
            date: date_spec(d),
            embedded_links: Some(embedded_links_spec(d)),
            internal_links: Some(internal_links_spec(d)),
            web_links: if web_links_spec(d).len() == 0 {
                None
            } else {
                Some(web_links_spec(d))
            },
        },
    }
}

/// A link target with the note suffix struck out everywhere.
pub open spec fn strip_md(s: Seq<char>) -> Seq<char> {
    replace_all_spec(s, ".md"@, Seq::empty())
}

/// Whether a record links back to the note at `rel` (absolute form `abs`):
/// an internal link to the relative form counts; an internal link to the
/// absolute form counts against; an embedded link to either form with the
/// note suffix struck out counts.
pub open spec fn has_backlink_view(n: NoteView, rel: Seq<char>, abs: Seq<char>) -> bool {
    if n.internal_links is Some && n.internal_links->Some_0.contains(rel) {
        true
    } else if n.internal_links is Some && n.internal_links->Some_0.contains(abs) {
        false
    } else if n.embedded_links is Some && (n.embedded_links->Some_0.contains(strip_md(rel))
        || n.embedded_links->Some_0.contains(strip_md(abs))) {
        true
    } else {
        false
    }
}

impl NoteInfo {
    /// Parses a note's text into its record; a note whose data could not be
    /// read gets an empty record under its path.
    pub fn parse(path: &ScribePath, data: &Option<String>) -> (n: NoteInfo)
        ensures
            n@ == parse_view(path.rel_view(), opt_str_view(*data)),
    {
        let rel = path.as_string(false);
        match data {
            None => {
                let n = NoteInfo {
                    path: rel,
                    title: None,
                    tags: None,
                    date: None,
                    embedded_links: None,
                    internal_links: None,
                    web_links: None,
                };
                proof {
                    assert(n@ =~= parse_view(path.rel_view(), opt_str_view(*data)));
                }
                n
            },
            Some(d) => {
                let title = Title::parse(d.as_str());
                let tags = Tags::parse(d.as_str());
                let date = crate::parsers::date::Date::parse(d.as_str());
                let embedded_links = EmbeddedLinks::parse(d.as_str());
                let internal_links = InternalLinks::parse(d.as_str());
                let web_links = WebLinks::parse(d.as_str());
                let n = NoteInfo {
                    path: rel,
                    title,
                    tags,
                    date,
                    embedded_links,
                    internal_links,
                    web_links,
                };
                proof {
                    assert(n@ =~= parse_view(path.rel_view(), opt_str_view(*data)));
                }
                n
            },
        }
    }

    /// Whether this record links back to the note at `path`.
    pub fn has_backlink(&self, path: &ScribePath) -> (r: bool)
        ensures
            r == has_backlink_view(self@, path.rel_view(), path.abs_view()),
    {
        let rel = path.as_string(false);
        let abs = path.as_string(true);
        match &self.internal_links {
            Some(links) => {
                if contains_string(links, &rel) {
                    return true;
                }
                if contains_string(links, &abs) {
                    return false;
                }
            },
            None => {},
        }
        let md = chars_vec(".md");
        let empty: Vec<char> = Vec::new();
        let rel_v = chars_vec(rel.as_str());
        let abs_v = chars_vec(abs.as_str());
        let rel_md = string_from_chars(&replace_all_vec(&rel_v, &md, &empty));
        let abs_md = string_from_chars(&replace_all_vec(&abs_v, &md, &empty));
        proof {
            assert(empty@ =~= Seq::<char>::empty());
        }
        match &self.embedded_links {
            Some(links) => {
                if contains_string(links, &rel_md) {
                    return true;
                }
                if contains_string(links, &abs_md) {
                    return true;
                }
                false
            },
            None => false,
        }
    }
}

/// The views of a record list.
pub open spec fn notes_views(s: Seq<NoteInfo>) -> Seq<NoteView> {
    s.map_values(|n: NoteInfo| n@)
}

/// Whether a discovered entry is admitted into the index: a markdown note
/// that is no template and no scratch data.
pub open spec fn admitted(p: ScribePath) -> bool {
    p.markdown_view() && !p.template_view() && !p.tmp_view()
}

/// The records that rebuilding from a snapshot of files must produce, in
/// snapshot order: one per admitted entry, parsed from its data.
pub open spec fn index_views(files: Seq<(ScribePath, Option<String>)>) -> Seq<NoteView>
    decreases files.len(),
{
    if files.len() == 0 {
        Seq::empty()
    } else {
        let head = if admitted(files.first().0) {
            seq![parse_view(files.first().0.rel_view(), opt_str_view(files.first().1))]
        } else {
            Seq::<NoteView>::empty()
        };
        head + index_views(files.drop_first())
    }
}

/// A record list with every record of identity `rel` replaced by `nv`.
pub open spec fn update_views(ns: Seq<NoteView>, rel: Seq<char>, nv: NoteView) -> Seq<NoteView> {
    ns.map_values(
        |n: NoteView|
            if n.path == rel {
                nv
            } else {
                n
            },
    )
}

/// A record list with every record of a given identity struck out.
pub open spec fn delete_views(ns: Seq<NoteView>, rel: Seq<char>) -> Seq<NoteView>
    decreases ns.len(),
{
    if ns.len() == 0 {
        Seq::empty()
    } else {
        let head = if ns.first().path == rel {
            Seq::<NoteView>::empty()
        } else {
            seq![ns.first()]
        };
        head + delete_views(ns.drop_first(), rel)
    }
}

/// The identities of the records that link back to a note, in record order.
pub open spec fn backlinks_views(ns: Seq<NoteView>, rel: Seq<char>, abs: Seq<char>) -> Seq<
    Seq<char>,
>
    decreases ns.len(),
{
    if ns.len() == 0 {
        Seq::empty()
    } else {
        let head = if has_backlink_view(ns.first(), rel, abs) {
            seq![ns.first().path]
        } else {
            Seq::<Seq<char>>::empty()
        };
        head + backlinks_views(ns.drop_first(), rel, abs)
    }
}

/// The index: the record of every admitted note.
#[derive(Debug)]
pub struct ScribeIndex {
    /// The records, at most one per relative path.
    pub notes: Vec<NoteInfo>,
}

impl ScribeIndex {
    /// An empty index.
    pub fn new() -> (r: Self)
        ensures
            r.notes@.len() == 0,
    {
        ScribeIndex { notes: Vec::new() }
    }

    /// Rebuilds the index from a snapshot of discovered files: admits the
    /// markdown notes outside the template and scratch areas, and parses
    /// each admitted one. The result replaces the records and depends on
    /// the snapshot alone.
    pub fn index(&mut self, files: &Vec<(ScribePath, Option<String>)>)
        ensures
            notes_views(final(self).notes@) == index_views(files@),
    {
        let mut notes: Vec<NoteInfo> = Vec::new();
        let mut i: usize = 0;
        proof {
            assert(notes_views(notes@) + index_views(files@.skip(0)) =~= index_views(
                files@.skip(0),
            ));
            assert(files@.skip(0) =~= files@);
        }
        while i < files.len()
            invariant
                0 <= i <= files@.len(),
                index_views(files@) == notes_views(notes@) + index_views(files@.skip(i as int)),
            decreases files@.len() - i,
        {
            let ghost rest = files@.skip(i as int);
            let f = &files[i];
            proof {
                assert(rest.first() == files@[i as int]);
                assert(rest.drop_first() =~= files@.skip(i + 1));
            }
            let keep = f.0.is_markdown() && !f.0.is_template() && !f.0.is_tmp();
            if keep {
                let n = NoteInfo::parse(&f.0, &f.1);
                notes.push(n);
                proof {
                    assert(notes_views(notes@) =~= notes_views(notes@.drop_last()).push(
                        parse_view(f.0.rel_view(), opt_str_view(f.1)),
                    ));
                    assert(notes_views(notes@.drop_last()) + (seq![
                        parse_view(f.0.rel_view(), opt_str_view(f.1)),
                    ] + index_views(files@.skip(i + 1))) =~= notes_views(notes@) + index_views(
                        files@.skip(i + 1),
                    ));
                }
            } else {
                proof {
                    assert(Seq::<NoteView>::empty() + index_views(files@.skip(i + 1))
                        =~= index_views(files@.skip(i + 1)));
                }
            }
            i += 1;
        }
        proof {
            assert(files@.skip(i as int) =~= Seq::<(ScribePath, Option<String>)>::empty());
            assert(notes_views(notes@) + Seq::<NoteView>::empty() =~= notes_views(notes@));
        }
        self.notes = notes;
    }

    /// Re-parses the note at `path` and replaces every record of that
    /// identity; leaves the index alone when no record matches.
    pub fn update(&mut self, path: &ScribePath, data: &Option<String>)
        ensures
            final(self).notes@.len() == old(self).notes@.len(),
            forall|k: int|
                0 <= k < old(self).notes@.len() ==> (#[trigger] final(self).notes@[k])@ == (
                if old(self).notes@[k]@.path == path.rel_view() {
                    parse_view(path.rel_view(), opt_str_view(*data))
                } else {
                    old(self).notes@[k]@
                }),
    {
        let rel = path.as_string(false);
        let mut i: usize = 0;
        while i < self.notes.len()
            invariant
                0 <= i <= self.notes@.len(),
                self.notes@.len() == old(self).notes@.len(),
                rel@ == path.rel_view(),
                forall|k: int|
                    i <= k < self.notes@.len() ==> (#[trigger] self.notes@[k]) == old(
                        self,
                    ).notes@[k],
                forall|k: int|
                    0 <= k < i ==> (#[trigger] self.notes@[k])@ == (
                    if old(self).notes@[k]@.path == path.rel_view() {
                        parse_view(path.rel_view(), opt_str_view(*data))
                    } else {
                        old(self).notes@[k]@
                    }),
            decreases self.notes@.len() - i,
        {
            if self.notes[i].path.eq(&rel) {
                let n = NoteInfo::parse(path, data);
                self.notes[i] = n;
            }
            i += 1;
        }
    }

    /// Strikes every record of the note at `path` out of the index.
    pub fn delete(&mut self, path: &ScribePath)
        ensures
            notes_views(final(self).notes@) == delete_views(
                notes_views(old(self).notes@),
                path.rel_view(),
            ),
    {
        let rel = path.as_string(false);
        let ghost orig = notes_views(old(self).notes@);
        let mut kept: Vec<NoteInfo> = Vec::new();
        proof {
            assert(notes_views(kept@) + delete_views(notes_views(self.notes@), path.rel_view())
                =~= delete_views(notes_views(self.notes@), path.rel_view()));
        }
        while self.notes.len() > 0
            invariant
                rel@ == path.rel_view(),
                delete_views(orig, path.rel_view()) == notes_views(kept@) + delete_views(
                    notes_views(self.notes@),
                    path.rel_view(),
                ),
            decreases self.notes@.len(),
        {
            let ghost pre = notes_views(self.notes@);
            let n = self.notes.remove(0);
            proof {
                assert(pre.first() == n@);
                assert(notes_views(self.notes@) =~= pre.drop_first());
            }
            if n.path.eq(&rel) {
                proof {
                    assert(notes_views(kept@) + Seq::<NoteView>::empty() =~= notes_views(
                        kept@,
                    ));
                }
            } else {
                kept.push(n);
                proof {
                    assert(notes_views(kept@) =~= notes_views(kept@.drop_last()).push(n@));
                    assert(notes_views(kept@.drop_last()) + (seq![n@] + delete_views(
                        notes_views(self.notes@),
                        path.rel_view(),
                    )) =~= notes_views(kept@) + delete_views(
                        notes_views(self.notes@),
                        path.rel_view(),
                    ));
                }
            }
        }
        proof {
            assert(notes_views(self.notes@) =~= Seq::<NoteView>::empty());
            assert(notes_views(kept@) + Seq::<NoteView>::empty() =~= notes_views(kept@));
        }
        self.notes = kept;
    }

    /// Adds a fresh record for the note at `path`, replacing any record of
    /// that identity.
    pub fn insert(&mut self, path: &ScribePath, data: &Option<String>)
        ensures
            notes_views(final(self).notes@) == delete_views(
                notes_views(old(self).notes@),
                path.rel_view(),
            ).push(parse_view(path.rel_view(), opt_str_view(*data))),
    {
        self.delete(path);
        let n = NoteInfo::parse(path, data);
        self.notes.push(n);
        proof {
            assert(notes_views(self.notes@) =~= notes_views(self.notes@.drop_last()).push(
                parse_view(path.rel_view(), opt_str_view(*data)),
            ));
        }
    }

    /// The paths of every note whose record links back to the note at
    /// `path`, in record order.
    pub fn get_backlinks(&self, path: &ScribePath) -> (r: Vec<ScribePath>)
        ensures
            ({
                let links = backlinks_views(
                    notes_views(self.notes@),
                    path.rel_view(),
                    path.abs_view(),
                );
                &&& r@.len() == links.len()
                &&& forall|k: int|
                    0 <= k < links.len() ==> (#[trigger] r@[k]).root@ == trim_char_end_spec(
                        path.root@,
                        '/',
                    ) && r@[k].path@ == abs_spec(links[k], trim_char_end_spec(path.root@, '/'))
            }),
    {
        let ghost all = notes_views(self.notes@);
        let ghost links = backlinks_views(all, path.rel_view(), path.abs_view());
        let mut out: Vec<ScribePath> = Vec::new();
        let mut i: usize = 0;
        proof {
            assert(all.skip(0) =~= all);
            assert(backlinks_views(all.skip(0), path.rel_view(), path.abs_view()).subrange(
                0,
                0,
            ) =~= Seq::<Seq<char>>::empty());
        }
        while i < self.notes.len()
            invariant
                0 <= i <= self.notes@.len(),
                all == notes_views(self.notes@),
                links == backlinks_views(all, path.rel_view(), path.abs_view()),
                links == links.subrange(0, out@.len() as int) + backlinks_views(
                    all.skip(i as int),
                    path.rel_view(),
                    path.abs_view(),
                ),
                out@.len() <= links.len(),
                forall|k: int|
                    0 <= k < out@.len() ==> (#[trigger] out@[k]).root@ == trim_char_end_spec(
                        path.root@,
                        '/',
                    ) && out@[k].path@ == abs_spec(links[k], trim_char_end_spec(path.root@, '/')),
            decreases self.notes@.len() - i,
        {
            let ghost rest = all.skip(i as int);
            proof {
                assert(rest.first() == all[i as int]);
                assert(rest.drop_first() =~= all.skip(i + 1));
            }
            if self.notes[i].has_backlink(path) {
                let p = ScribePath::from(path.root.as_str(), self.notes[i].path.as_str());
                out.push(p);
                proof {
                    assert(backlinks_views(rest, path.rel_view(), path.abs_view()) =~= seq![
                        all[i as int].path,
                    ] + backlinks_views(rest.drop_first(), path.rel_view(), path.abs_view()));
                    assert(links.subrange(0, out@.len() as int) =~= links.subrange(
                        0,
                        out@.len() - 1,
                    ).push(links[out@.len() - 1]));
                    assert(links[out@.len() - 1] == all[i as int].path);
                }
            } else {
                proof {
                    assert(backlinks_views(rest, path.rel_view(), path.abs_view())
                        =~= backlinks_views(rest.drop_first(), path.rel_view(), path.abs_view()));
                }
            }
            i += 1;
        }
        proof {
            assert(all.skip(i as int) =~= Seq::<NoteView>::empty());
            assert(links =~= links.subrange(0, out@.len() as int));
            assert(out@.len() == links.len());
        }
        out
    }
}

/// Every rebuilt record's identity is some snapshot file's relative path.
proof fn lemma_index_paths_from(files: Seq<(ScribePath, Option<String>)>)
    ensures
        forall|x: NoteView|
            #[trigger] index_views(files).contains(x) ==> exists|j: int|
                0 <= j < files.len() && x.path == (#[trigger] files[j]).0.rel_view(),
    decreases files.len(),
{
    if files.len() > 0 {
        let rest = files.drop_first();
        lemma_index_paths_from(rest);
        let iv = index_views(files);
        let head_len: int = if admitted(files.first().0) {
            1
        } else {
            0
        };
        assert forall|x: NoteView| #[trigger] iv.contains(x) implies exists|j: int|
            0 <= j < files.len() && x.path == (#[trigger] files[j]).0.rel_view() by {
            let k = choose|k: int| 0 <= k < iv.len() && iv[k] == x;
            if k < head_len {
                assert(x.path == files[0].0.rel_view());
            } else {
                assert(index_views(rest)[k - head_len] == x);
                assert(index_views(rest).contains(x));
                let j = choose|j: int|
                    0 <= j < rest.len() && x.path == (#[trigger] rest[j]).0.rel_view();
                assert(rest[j] == files[j + 1]);
                assert(x.path == files[j + 1].0.rel_view());
            }
        }
    }
}

/// Distinct snapshot paths give distinct record identities: a rebuilt
/// index holds at most one record per canonical relative path.
pub proof fn lemma_index_unique_paths(files: Seq<(ScribePath, Option<String>)>)
    requires
        forall|a: int, b: int|
            0 <= a < b < files.len() ==> (#[trigger] files[a]).0.rel_view() != (
            #[trigger] files[b]).0.rel_view(),
    ensures
        forall|a: int, b: int|
            0 <= a < b < index_views(files).len() ==> (#[trigger] index_views(files)[a]).path
                != (#[trigger] index_views(files)[b]).path,
    decreases files.len(),
{
    if files.len() > 0 {
        let rest = files.drop_first();
        assert forall|a: int, b: int|
            0 <= a < b < rest.len() implies (#[trigger] rest[a]).0.rel_view() != (
        #[trigger] rest[b]).0.rel_view() by {
            assert(rest[a] == files[a + 1]);
            assert(rest[b] == files[b + 1]);
        }
        lemma_index_unique_paths(rest);
        lemma_index_paths_from(rest);
        let iv = index_views(files);
        let head_len: int = if admitted(files.first().0) {
            1
        } else {
            0
        };
        assert forall|a: int, b: int|
            0 <= a < b < iv.len() implies (#[trigger] iv[a]).path != (#[trigger] iv[b]).path by {
            if a < head_len {
                assert(iv[a].path == files[0].0.rel_view());
                let x = iv[b];
                assert(index_views(rest)[b - head_len] == x);
                assert(index_views(rest).contains(x));
                let j = choose|j: int|
                    0 <= j < rest.len() && x.path == (#[trigger] rest[j]).0.rel_view();
                assert(rest[j] == files[j + 1]);
                assert(files[0].0.rel_view() != files[j + 1].0.rel_view());
            } else {
                assert(iv[a] == index_views(rest)[a - head_len]);
                assert(iv[b] == index_views(rest)[b - head_len]);
            }
        }
    }
}

/// Rebuilding the index is a function of the file snapshot alone: two
/// record lists built from the same snapshot are identical, whatever either
/// index held before.
pub proof fn lemma_index_deterministic(
    n1: Seq<NoteInfo>,
    n2: Seq<NoteInfo>,
    files: Seq<(ScribePath, Option<String>)>,
)
    requires
        notes_views(n1) == index_views(files),
        notes_views(n2) == index_views(files),
    ensures
        notes_views(n1) == notes_views(n2),
{
}

} // verus!
