//! Small line-oriented text utilities: a multi-destination line copier
//! (`tee`), a quote stripper and a key/value reformatter.

pub mod kv;
pub mod quotes;
pub mod tee;
pub mod tee_laws;
pub mod text;
