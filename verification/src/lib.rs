//! A trash can for the command line: the naming, layout and command logic
//! behind moving files into a trash directory and keeping metadata on them.
//! Paths are held as the bytes the system gives for them, so that a path
//! that is not valid UTF-8 is kept as it is.

pub mod text;
pub mod path;
pub mod config;
pub mod trash;
pub mod command;
pub mod delete;
pub mod list;
pub mod empty;
