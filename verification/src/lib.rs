//! A streaming text-transform engine: a pattern locates matches in the input and a
//! compiled template rewrites them, line by line or over the whole input at once.
//!
//! The library does no reading and no writing. It splits bytes into lines
//! (`split_iterator`), keeps the state of an incremental line reader
//! (`buffered_reader`), compiles a format string into a template and applies
//! it to the groups of a match (`grammar`, `cap_groups`), cuts a text into
//! matches and the text between them (`cap_iter`), and says step by step what a
//! run has to read and to write (`work`). The pattern engine is the `regex`
//! crate (`pattern`); what it finds is taken on trust, everything else is
//! proved.

pub mod buffered_reader;
pub mod cap_groups;
pub mod cap_iter;
pub mod cli;
pub mod grammar;
pub mod pattern;
pub mod split_iterator;
pub mod text;
pub mod work;
