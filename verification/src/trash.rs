//! What the trash records about the files it holds.

use vstd::prelude::*;
use vstd::string::*;
use vstd::slice::slice_to_vec;
use crate::text::text_eq;

verus! {

/// The metadata of a trashed file: where it came from (the bytes of its
/// path) and when it was trashed.
#[derive(Debug)]
pub struct TrashFile {
    pub path: Vec<u8>,
    pub date: String,
}

impl TrashFile {
    /// The metadata of the file trashed from `p` on the date `d`.
    pub fn new(p: &Vec<u8>, d: &String) -> (t: TrashFile)
        ensures
            t.path@ == p@,
            t.date@ == d@,
    {
        TrashFile { path: slice_to_vec(p.as_slice()), date: d.clone() }
    }
}

/// How many copies of a file name the trash holds.
#[derive(Debug)]
pub struct TrashCopies {
    pub name: String,
    pub copies: i64,
}

/// The trash's record of copies, one entry per file name.
#[derive(Debug)]
pub struct TrashHandler {
    pub files: Vec<TrashCopies>,
}

/// Whether the record holds an entry for `name` before position `upto`.
pub open spec fn has_entry_before(files: Seq<TrashCopies>, name: Seq<char>, upto: int) -> bool {
    exists|i: int| 0 <= i < upto && 0 <= i < files.len() && #[trigger] files[i].name@ == name
}

/// Whether the trash holds a file called `file_name`, and if so, how many
/// copies of it the first entry for that name records (0 when there is no
/// entry).
pub fn trash_contains(handler: &TrashHandler, file_name: &str) -> (r: (bool, i64))
    ensures
        r.0 == has_entry_before(handler.files@, file_name@, handler.files@.len() as int),
        !r.0 ==> r.1 == 0,
        r.0 ==> exists|i: int|
            0 <= i < handler.files@.len()
            && handler.files@[i].name@ == file_name@
            && r.1 == handler.files@[i].copies
            && !has_entry_before(handler.files@, file_name@, i),
{
    let n = handler.files.len();
    let mut i: usize = 0;
    while i < n
        invariant
            n == handler.files@.len(),
            i <= n,
            !has_entry_before(handler.files@, file_name@, i as int),
        decreases n - i,
    {
        let entry = &handler.files[i];
        if text_eq(entry.name.as_str(), file_name) {
            assert(handler.files@[i as int].name@ == file_name@);
            return (true, entry.copies);
        }
        assert(!has_entry_before(handler.files@, file_name@, i + 1)) by {
            if has_entry_before(handler.files@, file_name@, i + 1) {
                let j = choose|j: int|
                    0 <= j < i + 1 && 0 <= j < handler.files@.len() && #[trigger] handler.files@[j].name@
                        == file_name@;
                if j < i {
                    assert(has_entry_before(handler.files@, file_name@, i as int));
                }
            }
        }
        i = i + 1;
    }
    (false, 0)
}

} // verus!
