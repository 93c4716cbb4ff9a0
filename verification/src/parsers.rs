//! The metadata parsers: each recovers one field from raw note text by a
//! fixed pattern rule with a deterministic post-processing step.

pub mod date;
pub mod embedded_links;
pub mod internal_links;
pub mod parser;
pub mod tags;
pub mod title;
pub mod web_links;
