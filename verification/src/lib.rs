//! Named arguments for SQL query templates.
//!
//! A template may refer to its parameters by name (`$name`), declare a
//! column-list group once and re-emit the matching positional value list
//! (`$[a, b]` … `$[..]`), and leave holes for static SQL fragments
//! (`${name}`). The scanner rewrites such a template into one that uses
//! positional markers (`$1`, `$2`, …) and reports the distinct parameter
//! names in first-occurrence order; the resolver aligns caller-supplied
//! name/value records with those names, and the renderer fills the
//! fragment holes.

pub mod bytes;
pub mod diag;
pub mod fragment;
pub mod laws;
pub mod names;
pub mod render;
pub mod runs;
pub mod resolver;
pub mod scanner;

pub use fragment::Fragment;
