//! A captured web link with a display title, and the rule that turns a
//! title into a file-friendly name.

use vstd::prelude::*;

use crate::strings::{chars_vec, replace_all_spec, replace_all_vec, string_from_chars};

verus! {

/// What `str::to_lowercase` returns: the Unicode lowercase form, a function
/// of the characters alone.
pub uninterp spec fn lower_of(s: Seq<char>) -> Seq<char>;

/// Relies on `str::to_lowercase`: the result depends on the characters
/// alone, and an empty string stays empty.
#[verifier::external_body]
fn lowercase(s: &String) -> (r: String)
    ensures
        r@ == lower_of(s@),
        s@.len() == 0 ==> r@.len() == 0,
{
    s.to_lowercase()
}

/// A link to fetch: an address and the title to file it under.
pub struct Link {
    /// The address of the linked resource.
    pub url: String,
    /// The display title of the linked resource.
    pub title: String,
}

impl Link {
    /// Builds a link from its address and title.
    pub fn new(url: String, title: String) -> (r: Self)
        ensures
            r.url@ == url@,
            r.title@ == title@,
    {
        Link { url, title }
    }

    /// The file-friendly form of a title: spaces become underscores and the
    /// whole is lowercased.
    pub fn normalize_to_file_path(title: &str) -> (r: String)
        ensures
            r@ == lower_of(replace_all_spec(title@, seq![' '], seq!['_'])),
    {
        let tv = chars_vec(title);
        let mut space: Vec<char> = Vec::new();
        space.push(' ');
        let mut under: Vec<char> = Vec::new();
        under.push('_');
        proof {
            assert(space@ =~= seq![' ']);
            assert(under@ =~= seq!['_']);
        }
        let replaced = replace_all_vec(&tv, &space, &under);
        let s = string_from_chars(&replaced);
        lowercase(&s)
    }
}

} // verus!
