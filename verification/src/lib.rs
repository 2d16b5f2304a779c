//! Short keys for directories below a base directory.
//!
//! A key is the name of a sub-directory of the scanned place, or what is
//! left of such a name when a configured prefix is taken off. The
//! candidates and their directories are kept in a cache record, one per
//! base. A lookup asks a record that matches the working directory first,
//! moves cached paths to the worktree that the caller stands in, and scans
//! anew when the cache does not answer.
//!
//! The library decides and computes; it touches neither files nor
//! processes. [`resolver::Resolver`] names each thing to be done outside
//! as an [`resolver::Action`] and takes the answer as a
//! [`resolver::Reply`].
//!
//! - [`text`]: prefixes, the dictionary order and other operations on text
//! - [`paths`]: joining paths, the home shorthand, moving a path to
//!   another root
//! - [`table`]: the table from keys to directories, sorted by key
//! - [`scan`]: from the entries of a directory to the candidates
//! - [`cache`]: the cache record and the roots it matches
//! - [`store`]: where the record of a base is kept
//! - [`config`]: the configuration and its aliases
//! - [`worktree`]: the worktrees that git lists
//! - [`resolver`]: the steps of a lookup
//! - [`runs`]: what whole lookups come to
//! - [`report`]: what is shown of an outcome

pub mod cache;
pub mod config;
pub mod paths;
pub mod report;
pub mod resolver;
pub mod runs;
pub mod scan;
pub mod store;
pub mod table;
pub mod text;
pub mod worktree;
