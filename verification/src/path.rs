//! The path model: a note's location under a configured notes root,
//! decomposed into a category (the subdirectory path) and a base name
//! (the final segment), with the classification predicates used during
//! indexing and discovery.

use vstd::prelude::*;

use crate::strings::{
    chars_vec, contains_seq, contains_vec, ends_with_seq, ends_with_vec, last_index_in,
    last_index_in_vec, push_all, starts_with_seq, starts_with_vec, string_from_chars, subvec,
    trim_char_end_spec, trim_char_end_vec, trim_char_start_spec, trim_char_start_vec,
};

verus! {

/// A filesystem path under the notes root.
#[derive(Debug, PartialEq, Eq)]
pub struct ScribePath {
    /// The configured notes directory, without a trailing separator.
    pub root: String,
    /// The absolute path of the entry.
    pub path: String,
}

/// `s` stripped of leading and trailing path separators.
pub open spec fn trim_slashes(s: Seq<char>) -> Seq<char> {
    trim_char_end_spec(trim_char_start_spec(s, '/'), '/')
}

/// The absolute path that `new` builds from a root, category and base.
pub open spec fn new_path_spec(root: Seq<char>, category: Seq<char>, base: Seq<char>) -> Seq<
    char,
> {
    trim_char_end_spec(root, '/') + seq!['/'] + trim_slashes(category) + seq!['/'] + base
}

/// The root-relative form of `path`: the root prefix and the separators
/// after it stripped when `path` lies under `root`, `path` itself otherwise.
pub open spec fn rel_spec(path: Seq<char>, root: Seq<char>) -> Seq<char> {
    if starts_with_seq(path, root) {
        trim_char_start_spec(path.skip(root.len() as int), '/')
    } else {
        path
    }
}

/// The absolute form of `path`: unchanged when already under `root`, else
/// joined below `root`.
pub open spec fn abs_spec(path: Seq<char>, root: Seq<char>) -> Seq<char> {
    if starts_with_seq(path, root) {
        path
    } else {
        root + seq!['/'] + trim_char_start_spec(path, '/')
    }
}

/// The base name of a relative path: the text after the last separator,
/// or nothing when the path has no separator at all.
pub open spec fn base_of(rel: Seq<char>) -> Option<Seq<char>> {
    let ls = last_index_in(rel, '/', 0, rel.len() as int);
    if ls == -1 {
        None
    } else {
        Some(rel.subrange(ls + 1, rel.len() as int))
    }
}

/// The category of a relative path: everything before the last separator
/// (or the whole path when there is none), stripped of outer separators.
pub open spec fn cat_of(rel: Seq<char>) -> Seq<char> {
    let ls = last_index_in(rel, '/', 0, rel.len() as int);
    if ls == -1 {
        trim_slashes(rel)
    } else {
        trim_slashes(rel.subrange(0, ls))
    }
}

/// Validity of a path under a root, on the raw strings: the absolute form
/// names no versioning metadata and the derived category is non-empty.
pub open spec fn valid_spec(root: Seq<char>, path: Seq<char>) -> bool {
    !contains_seq(abs_spec(path, root), ".git"@) && cat_of(rel_spec(path, root)).len() > 0
}

/// Position `i` starts a `/`-separated segment of `cat` and holds a dot.
pub open spec fn seg_dot_at(cat: Seq<char>, i: int) -> bool {
    0 <= i < cat.len() && (i == 0 || cat[i - 1] == '/') && cat[i] == '.'
}

/// Some `/`-separated segment of `cat` begins with a dot.
pub open spec fn segment_starts_dot(cat: Seq<char>) -> bool {
    exists|i: int| seg_dot_at(cat, i)
}

impl ScribePath {
    /// The root-relative form of this path.
    pub open spec fn rel_view(&self) -> Seq<char> {
        rel_spec(self.path@, self.root@)
    }

    /// The absolute form of this path.
    pub open spec fn abs_view(&self) -> Seq<char> {
        abs_spec(self.path@, self.root@)
    }

    /// The category this path falls under.
    pub open spec fn cat_view(&self) -> Seq<char> {
        cat_of(self.rel_view())
    }

    /// The base name of this path.
    pub open spec fn base_view(&self) -> Option<Seq<char>> {
        base_of(self.rel_view())
    }

    /// Valid for indexing: not the root itself and not versioning metadata.
    pub open spec fn valid_view(&self) -> bool {
        valid_spec(self.root@, self.path@)
    }

    /// A markdown note: the base name carries the note suffix.
    pub open spec fn markdown_view(&self) -> bool {
        match self.base_view() {
            Some(b) => ends_with_seq(b, ".md"@),
            None => false,
        }
    }

    /// Hidden: the base name or some category segment starts with a dot.
    pub open spec fn hidden_view(&self) -> bool {
        ||| match self.base_view() {
            Some(b) => b.len() > 0 && b[0] == '.',
            None => false,
        }
        ||| segment_starts_dot(self.cat_view())
    }

    /// Transient scratch data: the absolute path mentions the scratch area.
    pub open spec fn tmp_view(&self) -> bool {
        contains_seq(self.abs_view(), "tmp"@)
    }

    /// A template file: the parent directory's relative path begins with
    /// the template collection name.
    pub open spec fn template_view(&self) -> bool {
        starts_with_seq(self.parent_view().1, "templates"@)
    }

    /// Builds the path for a new note: root, category and base joined by
    /// single separators, the category stripped of outer separators.
    pub fn new(root: &str, category: &str, base: &str) -> (r: Self)
        ensures
            r.root@ == trim_char_end_spec(root@, '/'),
            r.path@ == new_path_spec(root@, category@, base@),
    {
        let rv = chars_vec(root);
        let rt = trim_char_end_vec(&rv, '/');
        let cv = chars_vec(category);
        let c1 = trim_char_start_vec(&cv, '/');
        let ct = trim_char_end_vec(&c1, '/');
        let bv = chars_vec(base);
        let mut pv: Vec<char> = Vec::new();
        push_all(&mut pv, &rt);
        pv.push('/');
        push_all(&mut pv, &ct);
        pv.push('/');
        push_all(&mut pv, &bv);
        proof {
            assert(pv@ =~= new_path_spec(root@, category@, base@));
        }
        ScribePath { root: string_from_chars(&rt), path: string_from_chars(&pv) }
    }

    /// Accepts an absolute path already under the root or a root-relative
    /// path, and normalizes it to the absolute form.
    pub fn from(root: &str, path: &str) -> (r: Self)
        ensures
            r.root@ == trim_char_end_spec(root@, '/'),
            r.path@ == abs_spec(path@, trim_char_end_spec(root@, '/')),
    {
        let rv = chars_vec(root);
        let rt = trim_char_end_vec(&rv, '/');
        let pv = chars_vec(path);
        if starts_with_vec(&pv, &rt) {
            ScribePath { root: string_from_chars(&rt), path: string_from_chars(&pv) }
        } else {
            let trimmed = trim_char_start_vec(&pv, '/');
            let mut out: Vec<char> = Vec::new();
            push_all(&mut out, &rt);
            out.push('/');
            push_all(&mut out, &trimmed);
            proof {
                assert(out@ =~= rt@ + seq!['/'] + trimmed@);
            }
            ScribePath { root: string_from_chars(&rt), path: string_from_chars(&out) }
        }
    }

    /// The path of the notes root itself.
    pub fn root(root: &str) -> (r: Self)
        ensures
            r.root@ == trim_char_end_spec(root@, '/'),
            r.path@ == trim_char_end_spec(root@, '/'),
    {
        let rv = chars_vec(root);
        let rt = trim_char_end_vec(&rv, '/');
        ScribePath { root: string_from_chars(&rt), path: string_from_chars(&rt) }
    }

    /// Appends one more segment below this path.
    pub fn extend(&mut self, path: &str)
        ensures
            final(self).root@ == old(self).root@,
            final(self).path@ == old(self).path@ + seq!['/'] + path@,
    {
        let pv = chars_vec(self.path.as_str());
        let sv = chars_vec(path);
        let mut out: Vec<char> = Vec::new();
        push_all(&mut out, &pv);
        out.push('/');
        push_all(&mut out, &sv);
        proof {
            assert(out@ =~= old(self).path@ + seq!['/'] + path@);
        }
        self.path = string_from_chars(&out);
    }

    /// The base name, when this path has one.
    pub fn get_base(&self) -> (r: Option<String>)
        ensures
            match r {
                Some(b) => self.base_view() == Some(b@),
                None => self.base_view() is None,
            },
    {
        let rel = self.rel_chars();
        let ls = last_index_in_vec(&rel, '/', 0, rel.len());
        if ls == rel.len() {
            None
        } else {
            let b = subvec(&rel, ls + 1, rel.len());
            Some(string_from_chars(&b))
        }
    }

    /// The category this path falls under.
    pub fn get_category(&self) -> (r: String)
        ensures
            r@ == self.cat_view(),
    {
        let rel = self.rel_chars();
        let ls = last_index_in_vec(&rel, '/', 0, rel.len());
        let raw = if ls == rel.len() {
            rel
        } else {
            subvec(&rel, 0, ls)
        };
        let t1 = trim_char_start_vec(&raw, '/');
        let t2 = trim_char_end_vec(&t1, '/');
        string_from_chars(&t2)
    }

    /// The relative or absolute text of this path.
    pub fn as_string(&self, absolute: bool) -> (r: String)
        ensures
            absolute ==> r@ == self.abs_view(),
            !absolute ==> r@ == self.rel_view(),
    {
        if absolute {
            let v = self.abs_chars();
            string_from_chars(&v)
        } else {
            let v = self.rel_chars();
            string_from_chars(&v)
        }
    }

    /// Valid for indexing: not the root itself, not versioning metadata.
    pub fn is_valid(&self) -> (r: bool)
        ensures
            r == self.valid_view(),
    {
        let abs = self.abs_chars();
        let marker = chars_vec(".git");
        if contains_vec(&abs, &marker) {
            return false;
        }
        let cat = self.get_category();
        let cv = chars_vec(cat.as_str());
        cv.len() > 0
    }

    /// A markdown note: the base name ends with the note suffix.
    pub fn is_markdown(&self) -> (r: bool)
        ensures
            r == self.markdown_view(),
    {
        match self.get_base() {
            None => false,
            Some(b) => {
                let bv = chars_vec(b.as_str());
                let suffix = chars_vec(".md");
                ends_with_vec(&bv, &suffix)
            },
        }
    }

    /// Hidden: the base name or some category segment starts with a dot.
    pub fn is_hidden(&self) -> (r: bool)
        ensures
            r == self.hidden_view(),
    {
        let base_dot: bool = match self.get_base() {
            Some(b) => {
                let bv = chars_vec(b.as_str());
                bv.len() > 0 && bv[0] == '.'
            },
            None => false,
        };
        let cat = self.get_category();
        let cv = chars_vec(cat.as_str());
        let seg_dot = cat_has_dot_segment(&cv);
        base_dot || seg_dot
    }

    /// Transient scratch data: the absolute path mentions the scratch area.
    pub fn is_tmp(&self) -> (r: bool)
        ensures
            r == self.tmp_view(),
    {
        let abs = self.abs_chars();
        let marker = chars_vec("tmp");
        contains_vec(&abs, &marker)
    }

    /// A template file: its parent directory's relative path begins with
    /// the template collection name.
    pub fn is_template(&self) -> (r: bool)
        ensures
            r == self.template_view(),
    {
        let parent = self.get_parent();
        let rel = parent.rel_chars();
        let marker = chars_vec("templates");
        let b = starts_with_vec(&rel, &marker);
        proof {
            assert(rel@ == rel_spec(parent.path@, parent.root@));
        }
        b
    }

    /// The path one level up: the text before the last separator, or the
    /// empty path when there is no separator.
    pub open spec fn parent_path_view(&self) -> Seq<char> {
        let ls = last_index_in(self.path@, '/', 0, self.path@.len() as int);
        if ls == -1 {
            Seq::empty()
        } else {
            self.path@.subrange(0, ls)
        }
    }

    /// The root and relative form of the parent, as [`get_parent`] builds it.
    pub open spec fn parent_view(&self) -> (Seq<char>, Seq<char>) {
        (self.root@, rel_spec(self.parent_path_view(), self.root@))
    }

    /// The parent of this path.
    pub fn get_parent(&self) -> (r: Self)
        ensures
            r.root@ == self.root@,
            r.path@ == self.parent_path_view(),
    {
        let pv = chars_vec(self.path.as_str());
        let ls = last_index_in_vec(&pv, '/', 0, pv.len());
        let parent = if ls == pv.len() {
            let empty: Vec<char> = Vec::new();
            empty
        } else {
            subvec(&pv, 0, ls)
        };
        let rv = chars_vec(self.root.as_str());
        ScribePath { root: string_from_chars(&rv), path: string_from_chars(&parent) }
    }

    /// Rebuilds this path with a new category, keeping the root and the
    /// base name.
    pub fn replace_category(&mut self, category: &str)
        requires
            old(self).base_view() is Some,
        ensures
            final(self).root@ == old(self).root@,
            final(self).path@ == old(self).root@ + seq!['/'] + trim_slashes(category@)
                + seq!['/'] + old(self).base_view()->Some_0,
    {
        let base = match self.get_base() {
            Some(b) => b,
            None => {
                proof {
                    assert(false);
                }
                String::new()
            },
        };
        let rv = chars_vec(self.root.as_str());
        let cv = chars_vec(category);
        let c1 = trim_char_start_vec(&cv, '/');
        let ct = trim_char_end_vec(&c1, '/');
        let bv = chars_vec(base.as_str());
        let mut out: Vec<char> = Vec::new();
        push_all(&mut out, &rv);
        out.push('/');
        push_all(&mut out, &ct);
        out.push('/');
        push_all(&mut out, &bv);
        proof {
            assert(out@ =~= old(self).root@ + seq!['/'] + trim_slashes(category@) + seq!['/']
                + old(self).base_view()->Some_0);
        }
        self.path = string_from_chars(&out);
    }

    /// The relative form as characters.
    fn rel_chars(&self) -> (r: Vec<char>)
        ensures
            r@ == self.rel_view(),
    {
        let pv = chars_vec(self.path.as_str());
        let rv = chars_vec(self.root.as_str());
        if starts_with_vec(&pv, &rv) {
            let tail = subvec(&pv, rv.len(), pv.len());
            proof {
                assert(tail@ =~= self.path@.skip(self.root@.len() as int));
            }
            trim_char_start_vec(&tail, '/')
        } else {
            pv
        }
    }

    /// The absolute form as characters.
    fn abs_chars(&self) -> (r: Vec<char>)
        ensures
            r@ == self.abs_view(),
    {
        let pv = chars_vec(self.path.as_str());
        let rv = chars_vec(self.root.as_str());
        if starts_with_vec(&pv, &rv) {
            pv
        } else {
            let trimmed = trim_char_start_vec(&pv, '/');
            let mut out: Vec<char> = Vec::new();
            push_all(&mut out, &rv);
            out.push('/');
            push_all(&mut out, &trimmed);
            proof {
                assert(out@ =~= self.root@ + seq!['/'] + trimmed@);
            }
            out
        }
    }
}

/// Trimming the separators off an already clean text changes nothing.
pub proof fn lemma_trim_slashes_clean(s: Seq<char>)
    requires
        s.len() > 0,
        s[0] != '/',
        s[s.len() - 1] != '/',
    ensures
        trim_slashes(s) == s,
{
    assert(trim_char_start_spec(s, '/') == s);
    assert(trim_char_end_spec(s, '/') == s);
}

/// Construction round-trip: a path built by `new` from a category with no
/// outer separators and a base with no separator at all decomposes back
/// into exactly that category and that base.
pub proof fn lemma_new_round_trip(root: Seq<char>, category: Seq<char>, base: Seq<char>)
    requires
        category.len() > 0,
        category[0] != '/',
        category[category.len() - 1] != '/',
        !base.contains('/'),
    ensures
        cat_of(rel_spec(new_path_spec(root, category, base), trim_char_end_spec(root, '/')))
            == category,
        base_of(rel_spec(new_path_spec(root, category, base), trim_char_end_spec(root, '/')))
            == Some(base),
{
    let r = trim_char_end_spec(root, '/');
    lemma_trim_slashes_clean(category);
    let p = new_path_spec(root, category, base);
    assert(p == r + seq!['/'] + category + seq!['/'] + base);
    assert(starts_with_seq(p, r)) by {
        assert(p.subrange(0, r.len() as int) =~= r);
    }
    let tail = p.skip(r.len() as int);
    assert(tail =~= seq!['/'] + category + seq!['/'] + base);
    let rel = rel_spec(p, r);
    assert(rel == category + seq!['/'] + base) by {
        assert(tail[0] == '/');
        assert(tail.drop_first() =~= category + seq!['/'] + base);
        assert(trim_char_start_spec(tail, '/') == trim_char_start_spec(tail.drop_first(), '/'));
        assert(tail.drop_first()[0] != '/');
    }
    let ls = category.len() as int;
    assert(rel[ls] == '/');
    assert(forall|j: int| ls < j < rel.len() ==> rel[j] == base[j - ls - 1]);
    assert(forall|j: int| ls < j < rel.len() ==> rel[j] != '/');
    crate::strings::lemma_last_index_exact(rel, '/', 0, rel.len() as int, ls);
    assert(rel.subrange(ls + 1, rel.len() as int) =~= base);
    assert(rel.subrange(0, ls) =~= category);
}

/// Computes [`segment_starts_dot`].
fn cat_has_dot_segment(cv: &Vec<char>) -> (r: bool)
    ensures
        r == segment_starts_dot(cv@),
{
    let mut i: usize = 0;
    while i < cv.len()
        invariant
            i <= cv@.len(),
            forall|j: int| 0 <= j < i ==> !seg_dot_at(cv@, j),
        decreases cv@.len() - i,
    {
        if cv[i] == '.' && (i == 0 || cv[i - 1] == '/') {
            assert(seg_dot_at(cv@, i as int));
            return true;
        }
        assert(!seg_dot_at(cv@, i as int));
        i += 1;
    }
    false
}

/// The `std::path::PathBuf` type, carried opaquely for callers that want a
/// path value rather than a string.
#[verifier::external_type_specification]
#[verifier::external_body]
pub struct ExPathBuf(std::path::PathBuf);

/// Relies on `std::path::Path::exists`: whether the path points at an entry
/// on disk right now. Nothing can be promised of the answer.
#[verifier::external_body]
fn fs_exists(p: &String) -> bool {
    std::path::Path::new(p).exists()
}

/// Relies on `std::path::Path::is_dir`: whether the path points at a
/// directory on disk right now. Nothing can be promised of the answer.
#[verifier::external_body]
fn fs_is_dir(p: &String) -> bool {
    std::path::Path::new(p).is_dir()
}

/// Relies on `walkdir::WalkDir`: yields the path text of every entry in the
/// subtree under `dir`, the readable ones in it included and the rest
/// skipped. What comes back depends on the state of the disk.
#[verifier::external_body]
fn walk_paths(dir: &String) -> Vec<String> {
    let mut out: Vec<String> = Vec::new();
    for entry in walkdir::WalkDir::new(dir).into_iter().filter_map(|e| e.ok()) {
        out.push(entry.path().display().to_string());
    }
    out
}

impl ScribePath {
    /// Whether this path currently exists on disk.
    pub fn exists_on_disk(&self) -> bool {
        let abs = self.as_string(true);
        fs_exists(&abs)
    }

    /// Whether this path is currently a directory on disk.
    pub fn is_dir(&self) -> bool {
        let abs = self.as_string(true);
        fs_is_dir(&abs)
    }

    /// Relies on `std::path::PathBuf::from`: this path's text as an owned
    /// path value.
    #[verifier::external_body]
    pub fn as_pathbuf(&self) -> std::path::PathBuf {
        std::path::PathBuf::from(&self.path)
    }

    /// Walks the filesystem subtree under this path and keeps exactly the
    /// entries that are valid for discovery. The walk itself depends on the
    /// disk; what is kept of the walked list is fixed by [`keep_valid`].
    pub fn get_children(&self) -> (r: Vec<ScribePath>)
        ensures
            forall|k: int|
                0 <= k < r@.len() ==> (#[trigger] r@[k]).valid_view() && r@[k].root@
                    == trim_char_end_spec(self.root@, '/'),
    {
        let abs = self.as_string(true);
        let entries = walk_paths(&abs);
        keep_valid(self.root.as_str(), &entries)
    }
}

/// The admission filter of discovery, on the raw strings: of the walked
/// entries, in order, exactly those whose path under the root is valid —
/// a non-empty derived category, so never the root itself, and no
/// versioning metadata in the absolute form.
pub open spec fn kept_of(root: Seq<char>, entries: Seq<Seq<char>>) -> Seq<Seq<char>>
    decreases entries.len(),
{
    if entries.len() == 0 {
        Seq::empty()
    } else {
        let rt = trim_char_end_spec(root, '/');
        let p = abs_spec(entries.first(), rt);
        let head = if valid_spec(rt, p) {
            seq![p]
        } else {
            Seq::<Seq<char>>::empty()
        };
        head + kept_of(root, entries.drop_first())
    }
}

/// Builds the path for each walked entry and keeps exactly the valid ones,
/// in walk order.
pub fn keep_valid(root: &str, entries: &Vec<String>) -> (r: Vec<ScribePath>)
    ensures
        r@.len() == kept_of(root@, crate::strings::views_of(entries@)).len(),
        forall|k: int|
            0 <= k < r@.len() ==> (#[trigger] r@[k]).root@ == trim_char_end_spec(root@, '/')
                && r@[k].path@ == kept_of(root@, crate::strings::views_of(entries@))[k]
                && r@[k].valid_view(),
{
    let ghost all = crate::strings::views_of(entries@);
    let ghost kept = kept_of(root@, all);
    let mut out: Vec<ScribePath> = Vec::new();
    let mut k: usize = 0;
    proof {
        assert(all.skip(0) =~= all);
        assert(kept.subrange(0, 0) =~= Seq::<Seq<char>>::empty());
    }
    while k < entries.len()
        invariant
            0 <= k <= entries@.len(),
            all == crate::strings::views_of(entries@),
            kept == kept_of(root@, all),
            kept == kept.subrange(0, out@.len() as int) + kept_of(root@, all.skip(k as int)),
            out@.len() <= kept.len(),
            forall|j: int|
                0 <= j < out@.len() ==> (#[trigger] out@[j]).root@ == trim_char_end_spec(
                    root@,
                    '/',
                ) && out@[j].path@ == kept[j] && out@[j].valid_view(),
        decreases entries@.len() - k,
    {
        let ghost rest = all.skip(k as int);
        proof {
            assert(rest.first() == all[k as int]);
            assert(all[k as int] == entries@[k as int]@);
            assert(rest.drop_first() =~= all.skip(k + 1));
        }
        let p = ScribePath::from(root, entries[k].as_str());
        if p.is_valid() {
            out.push(p);
            proof {
                assert(kept_of(root@, rest) =~= seq![p.path@] + kept_of(
                    root@,
                    rest.drop_first(),
                ));
                assert(kept.subrange(0, out@.len() as int) =~= kept.subrange(
                    0,
                    out@.len() - 1,
                ).push(kept[out@.len() - 1]));
                assert(kept[out@.len() - 1] == p.path@);
            }
        } else {
            proof {
                assert(kept_of(root@, rest) =~= kept_of(root@, rest.drop_first()));
            }
        }
        k += 1;
    }
    proof {
        assert(all.skip(k as int) =~= Seq::<Seq<char>>::empty());
        assert(kept =~= kept.subrange(0, out@.len() as int));
        assert(out@.len() == kept.len());
    }
    out
}

impl Clone for ScribePath {
    /// A clone carries the same root and path text.
    fn clone(&self) -> (r: Self)
        ensures
            r.root@ == self.root@,
            r.path@ == self.path@,
    {
        ScribePath { root: self.root.clone(), path: self.path.clone() }
    }
}

} // verus!
