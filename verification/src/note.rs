//! The note entity: a live note under its path, created from a template or
//! an existing file, and the transfer operation that moves it to a new
//! location while rewriting every other note's reference to it.

use vstd::prelude::*;

use crate::index::{
    delete_views, notes_views, opt_str_view, parse_view, update_views, NoteView, ScribeIndex,
};
use crate::path::ScribePath;
use crate::strings::{
    chars_vec, clone_string, replace_all_spec, replace_all_vec, string_from_chars, trim_spec,
    trim_vec,
};
use crate::template::{fill_keys, keys_spec, ScribeTemplate};

verus! {

/// A backlinking note's text after the transfer rewrite: every occurrence
/// of the old absolute form, then every occurrence of the old relative
/// form, replaced by the new relative form.
pub open spec fn rewrite_spec(
    text: Seq<char>,
    old_abs: Seq<char>,
    old_rel: Seq<char>,
    new_rel: Seq<char>,
) -> Seq<char> {
    replace_all_spec(replace_all_spec(text, old_abs, new_rel), old_rel, new_rel)
}

/// The index records after re-parsing each backlinking note from its
/// rewritten text, in hand-over order.
pub open spec fn transfer_views(
    ns: Seq<NoteView>,
    backlinks: Seq<(ScribePath, String)>,
    old_abs: Seq<char>,
    old_rel: Seq<char>,
    new_rel: Seq<char>,
) -> Seq<NoteView>
    decreases backlinks.len(),
{
    if backlinks.len() == 0 {
        ns
    } else {
        let b = backlinks.first();
        transfer_views(
            update_views(
                ns,
                b.0.rel_view(),
                parse_view(
                    b.0.rel_view(),
                    Some(rewrite_spec(b.1@, old_abs, old_rel, new_rel)),
                ),
            ),
            backlinks.drop_first(),
            old_abs,
            old_rel,
            new_rel,
        )
    }
}

/// A live note.
pub struct Note {
    /// Where the note lives.
    pub path: ScribePath,
}

impl Note {
    /// Renders a template into the text of a new note at `path`: nothing
    /// when a placeholder key lacks a value, else the note and the trimmed
    /// text to write at its path.
    pub fn from_template(
        path: ScribePath,
        template: &ScribeTemplate,
        params: &Vec<(String, String)>,
    ) -> (r: Option<(Note, String)>)
        ensures
            match r {
                Some((n, data)) => {
                    &&& fill_keys(template.text(), keys_spec(template.text()), params@) is Ok
                    &&& data@ == trim_spec(
                        fill_keys(template.text(), keys_spec(template.text()), params@)->Ok_0,
                    )
                    &&& n.path == path
                },
                None => fill_keys(template.text(), keys_spec(template.text()), params@) is Err,
            },
    {
        match template.fill(params) {
            Ok(s) => {
                let sv = chars_vec(s.as_str());
                let trimmed = trim_vec(&sv);
                Some((Note { path }, string_from_chars(&trimmed)))
            },
            Err(_) => None,
        }
    }

    /// Takes up the note that lives at `path`; the caller has checked that
    /// the file exists.
    pub fn from_path(path: ScribePath) -> (r: Self)
        ensures
            r.path == path,
    {
        Note { path }
    }

    /// Moves this note to `new_path` and keeps the index and the link graph
    /// consistent: every backlinking note's text, handed in alongside its
    /// path, is rewritten from the old path forms to the new relative form
    /// and its record re-parsed; the old record leaves the index and a
    /// fresh record for the new path enters it. Hands back the rewritten
    /// texts for the surroundings to write out; the filesystem rename
    /// itself has already happened outside.
    pub fn transfer(
        &mut self,
        new_path: &ScribePath,
        index: &mut ScribeIndex,
        backlinks: &Vec<(ScribePath, String)>,
        note_data: &Option<String>,
    ) -> (rewrites: Vec<(ScribePath, String)>)
        ensures
            final(self).path.root@ == new_path.root@,
            final(self).path.path@ == new_path.path@,
            rewrites@.len() == backlinks@.len(),
            forall|k: int|
                0 <= k < backlinks@.len() ==> {
                    &&& (#[trigger] rewrites@[k]).0.root@ == backlinks@[k].0.root@
                    &&& rewrites@[k].0.path@ == backlinks@[k].0.path@
                    &&& rewrites@[k].1@ == rewrite_spec(
                        backlinks@[k].1@,
                        old(self).path.abs_view(),
                        old(self).path.rel_view(),
                        new_path.rel_view(),
                    )
                },
            notes_views(final(index).notes@) == delete_views(
                delete_views(
                    transfer_views(
                        notes_views(old(index).notes@),
                        backlinks@,
                        old(self).path.abs_view(),
                        old(self).path.rel_view(),
                        new_path.rel_view(),
                    ),
                    old(self).path.rel_view(),
                ),
                new_path.rel_view(),
            ).push(parse_view(new_path.rel_view(), opt_str_view(*note_data))),
    {
        let ghost oa = self.path.abs_view();
        let ghost or = self.path.rel_view();
        let ghost nr = new_path.rel_view();
        let og_abs = self.path.as_string(true);
        let og_rel = self.path.as_string(false);
        let new_rel = new_path.as_string(false);
        let oa_v = chars_vec(og_abs.as_str());
        let or_v = chars_vec(og_rel.as_str());
        let nr_v = chars_vec(new_rel.as_str());
        let mut rewrites: Vec<(ScribePath, String)> = Vec::new();
        let mut k: usize = 0;
        proof {
            assert(backlinks@.skip(0) =~= backlinks@);
        }
        while k < backlinks.len()
            invariant
                oa == old(self).path.abs_view(),
                or == old(self).path.rel_view(),
                nr == new_path.rel_view(),
                oa_v@ == oa,
                or_v@ == or,
                nr_v@ == nr,
                0 <= k <= backlinks@.len(),
                rewrites@.len() == k,
                forall|j: int|
                    0 <= j < k ==> {
                        &&& (#[trigger] rewrites@[j]).0.root@ == backlinks@[j].0.root@
                        &&& rewrites@[j].0.path@ == backlinks@[j].0.path@
                        &&& rewrites@[j].1@ == rewrite_spec(backlinks@[j].1@, oa, or, nr)
                    },
                transfer_views(notes_views(old(index).notes@), backlinks@, oa, or, nr)
                    == transfer_views(
                    notes_views(index.notes@),
                    backlinks@.skip(k as int),
                    oa,
                    or,
                    nr,
                ),
            decreases backlinks@.len() - k,
        {
            let ghost rest = backlinks@.skip(k as int);
            let ghost pre = notes_views(index.notes@);
            proof {
                assert(rest.first() == backlinks@[k as int]);
                assert(rest.drop_first() =~= backlinks@.skip(k + 1));
            }
            let b = &backlinks[k];
            let text_v = chars_vec(b.1.as_str());
            let pass1 = replace_all_vec(&text_v, &oa_v, &nr_v);
            let pass2 = replace_all_vec(&pass1, &or_v, &nr_v);
            let new_text = string_from_chars(&pass2);
            let new_text_for_index = clone_string(&new_text);
            let data = Some(new_text_for_index);
            index.update(&b.0, &data);
            proof {
                assert(opt_str_view(data) == Some(rewrite_spec(backlinks@[k as int].1@, oa, or, nr)));
                assert(notes_views(index.notes@) =~= update_views(
                    pre,
                    b.0.rel_view(),
                    parse_view(
                        b.0.rel_view(),
                        Some(rewrite_spec(backlinks@[k as int].1@, oa, or, nr)),
                    ),
                ));
            }
            let moved_path = b.0.clone();
            rewrites.push((moved_path, new_text));
            k += 1;
        }
        proof {
            assert(backlinks@.skip(k as int) =~= Seq::<(ScribePath, String)>::empty());
        }
        index.delete(&self.path);
        index.insert(new_path, note_data);
        self.path = new_path.clone();
        rewrites
    }
}

} // verus!
