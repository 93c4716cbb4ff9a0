//! A verified core for a markdown note manager: a path model that splits a
//! note's location into a category and a base name, metadata parsers that
//! recover structured fields from note text, a note index with backlink
//! queries, and the transfer operation that moves a note while rewriting
//! every reference to it.

pub mod config;
pub mod index;
pub mod link;
pub mod note;
pub mod parsers;
pub mod path;
pub mod template;
pub mod strings;

use vstd::prelude::*;

verus! {

/// Errors reported by the library.
#[derive(Clone, Copy, Debug, PartialEq, Eq, Structural)]
pub enum ScribeError {
    /// A template placeholder had no value supplied for it.
    MissingParams,
}

impl ScribeError {
    /// A short human-readable description of the error.
    pub fn as_str(&self) -> (r: &'static str)
        ensures
            r@ == "missing template parameter"@,
    {
        "missing template parameter"
    }
}

} // verus!
