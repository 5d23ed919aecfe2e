//! Permanently removing files from the trash.

use vstd::prelude::*;
use vstd::slice::slice_to_vec;
use crate::command::{operands, operands_of};
use crate::config::Config;

verus! {

/// The work of one `empty` command: the files to remove, and the metadata
/// directory where their records are.
#[derive(Debug)]
pub struct EmptyJob {
    pub files: Vec<String>,
    pub trash_info: Vec<u8>,
}

/// Sets up an `empty` command: the files are the arguments after the program
/// and the function's name.
pub fn perm_delete_files(files: Vec<String>, config: &Config) -> (job: EmptyJob)
    ensures
        job.files.deep_view() == operands(files.deep_view()),
        job.trash_info@ == config.dirs.trash_info@,
{
    EmptyJob { files: operands_of(&files), trash_info: slice_to_vec(config.dirs.trash_info.as_slice()) }
}

} // verus!
