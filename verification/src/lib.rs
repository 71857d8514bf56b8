//! Normalises the layout of YAML documents, including YAML that is carried
//! as a string inside another YAML document, and repairs the quoting of
//! scalars that a plain write-out of the parsed tree would lose.
//!
//! - `format` reads a document, normalises its tree, writes it out and
//!   corrects the quoting of what was written.
//! - `requote` corrects the quoting of a text that was written out.
//! - `value` holds the YAML values and their model.
//! - `text` holds the substitution of one character sequence by another
//!   at the ends of lines.
//! - `yaml` and `matcher` are the doors to the `serde_yaml` and `regex`
//!   crates.
//! - `files` says which files are taken for YAML.

pub mod files;
pub mod format;
pub mod matcher;
pub mod requote;
pub mod text;
pub mod value;
pub mod yaml;
