//! Listing what the trash holds.

use vstd::prelude::*;
use vstd::string::*;
use vstd::utf8::{
    decode_utf8, decode_utf8_encode_utf8, encode_utf8, encode_utf8_decode_utf8,
    encode_utf8_valid_utf8, is_ascii_chars, is_ascii_chars_encode_utf8, valid_utf8,
};
use crate::text::{ascii, pad_right, spec_pad_right, utf8_text};
use crate::delete::{is_record_date, lemma_metadata_file_name, spec_metadata_file};
use crate::path::{is_plain_name, lemma_name_span, name_extension, spec_file_name};
use crate::trash::TrashFile;

verus! {

/// A file in the trash, as listed: the bytes of its metadata file's name and
/// the metadata it holds.
#[derive(Debug)]
pub struct ListEntry {
    pub name: Vec<u8>,
    pub record: TrashFile,
}

/// Why a listing stopped short.
#[derive(Debug, PartialEq, Eq, Structural)]
pub enum ListError {
    /// The recorded original location of a file is not valid UTF-8.
    NotUnicode,
}

/// The lines of a listing, and the error it stopped at, if any.
#[derive(Debug)]
pub struct Listing {
    pub lines: Vec<String>,
    pub error: Option<ListError>,
}

/// The heading of the listing.
pub open spec fn spec_list_header() -> Seq<char> {
    spec_pad_right("Name"@, 10) + "\t\t"@ + spec_pad_right("Date Modified"@, 10) + "\t\t"@
        + spec_pad_right("Original Location"@, 10)
}

/// The line listing one trashed file: its name, its date and where it came
/// from, each padded to ten characters.
pub open spec fn spec_list_row(name: Seq<char>, date: Seq<char>, path: Seq<char>) -> Seq<char> {
    spec_pad_right(name, 10) + "\t\t"@ + spec_pad_right(date, 10) + "\t"@ + spec_pad_right(path, 10)
}

/// How a name is shown: its text when it is valid UTF-8, and nothing when it
/// is not.
pub open spec fn shown_name(b: Seq<u8>) -> Seq<char> {
    if valid_utf8(b) {
        decode_utf8(b)
    } else {
        Seq::empty()
    }
}

/// The line listing an entry named `name`, with the recorded `date` and the
/// recorded location `path` (valid UTF-8).
pub open spec fn spec_entry_row(name: Seq<u8>, date: Seq<char>, path: Seq<u8>) -> Seq<char> {
    spec_list_row(shown_name(name), date, decode_utf8(path))
}

/// The heading of the listing.
pub fn list_header() -> (r: String)
    ensures
        r@ == spec_list_header(),
{
    let mut r = pad_right("Name", 10);
    r.append("\t\t");
    let d = pad_right("Date Modified", 10);
    r.append(d.as_str());
    r.append("\t\t");
    let o = pad_right("Original Location", 10);
    r.append(o.as_str());
    r
}

/// The line listing one trashed file.
pub fn list_row(name: &str, date: &str, path: &str) -> (r: String)
    ensures
        r@ == spec_list_row(name@, date@, path@),
{
    let mut r = pad_right(name, 10);
    r.append("\t\t");
    let d = pad_right(date, 10);
    r.append(d.as_str());
    r.append("\t");
    let o = pad_right(path, 10);
    r.append(o.as_str());
    r
}

/// The line listing the entry `e`; there is none when the entry's recorded
/// location is not valid UTF-8.
pub fn entry_row(e: &ListEntry) -> (r: Option<String>)
    ensures
        r is Some <==> valid_utf8(e.record.path@),
        r matches Some(s) ==> s@ == spec_entry_row(e.name@, e.record.date@, e.record.path@),
{
    let name = match utf8_text(e.name.as_slice()) {
        Some(n) => n,
        None => String::new(),
    };
    let path = match utf8_text(e.record.path.as_slice()) {
        Some(p) => p,
        None => return None,
    };
    proof {
        if valid_utf8(e.name@) {
            encode_utf8_decode_utf8(name@);
        } else {
            assert(name@ =~= Seq::<char>::empty());
        }
        encode_utf8_decode_utf8(path@);
    }
    Some(list_row(name.as_str(), e.record.date.as_str(), path.as_str()))
}

/// The listing of the trash: the heading, then one line per entry, in order,
/// up to the first entry whose recorded location is not valid UTF-8, where
/// the listing stops with an error.
pub fn list_objects(entries: &Vec<ListEntry>) -> (r: Listing)
    ensures
        1 <= r.lines.len() <= entries.len() + 1,
        r.lines[0]@ == spec_list_header(),
        forall|i: int| 0 <= i < r.lines.len() - 1 ==> valid_utf8(#[trigger] entries[i].record.path@),
        forall|i: int|
            0 <= i < r.lines.len() - 1 ==> #[trigger] r.lines[i + 1]@ == spec_entry_row(
                entries[i].name@,
                entries[i].record.date@,
                entries[i].record.path@,
            ),
        r.error is Some <==> r.lines.len() <= entries.len(),
        r.error is Some ==> !valid_utf8(entries[r.lines.len() - 1].record.path@),
{
    let mut lines: Vec<String> = Vec::new();
    lines.push(list_header());
    let n = entries.len();
    let mut i: usize = 0;
    while i < n
        invariant
            n == entries.len(),
            i <= n,
            lines.len() == i + 1,
            lines[0]@ == spec_list_header(),
            forall|j: int| 0 <= j < i ==> valid_utf8(#[trigger] entries[j].record.path@),
            forall|j: int|
                0 <= j < i ==> #[trigger] lines[j + 1]@ == spec_entry_row(
                    entries[j].name@,
                    entries[j].record.date@,
                    entries[j].record.path@,
                ),
        decreases n - i,
    {
        match entry_row(&entries[i]) {
            Some(line) => lines.push(line),
            None => {
                return Listing { lines, error: Some(ListError::NotUnicode) };
            },
        }
        i = i + 1;
    }
    Listing { lines, error: None }
}

/// The UTF-8 bytes of two texts, one after the other, are those of the two
/// texts joined.
proof fn lemma_encode_concat(a: Seq<char>, b: Seq<char>)
    ensures
        encode_utf8(a + b) == encode_utf8(a) + encode_utf8(b),
    decreases a.len(),
{
    if a.len() > 0 {
        lemma_encode_concat(a.drop_first(), b);
        assert((a + b).drop_first() =~= a.drop_first() + b);
        assert((a + b)[0] == a[0]);
        assert(encode_utf8(a + b) =~= encode_utf8(a) + encode_utf8(b));
    } else {
        assert(a + b =~= b);
        assert(encode_utf8(a) =~= Seq::<u8>::empty());
        assert(encode_utf8(a) + encode_utf8(b) =~= encode_utf8(b));
    }
}

/// A file trashed from `origin` to `trashed`, whose metadata is kept in
/// `trash_info` with the recorded `date` (as `metadata_entry` keeps it), is
/// listed under the name of its metadata file, which is the trashed file's
/// own name followed by `.info`; the row then shows that name, padded to ten
/// characters, the date in full (`YYYY-MM-DD HH:MM:SS` is longer than ten)
/// and where the file came from, padded to ten. This holds for every trashed
/// name that is valid UTF-8 (metadata is kept for no other) but one that ends
/// in a dot.
pub proof fn lemma_trashed_file_listed(
    origin: Seq<u8>,
    trashed: Seq<u8>,
    trash_info: Seq<u8>,
    date: Seq<char>,
)
    requires
        spec_file_name(trashed) is Some,
        valid_utf8(spec_file_name(trashed).unwrap()),
        name_extension(spec_file_name(trashed).unwrap()) != Some(Seq::<u8>::empty()),
        is_record_date(date),
    ensures
        ({
            let name = spec_file_name(trashed).unwrap();
            let listed = name + ascii(".info"@);
            let row = spec_entry_row(listed, date, origin);
            &&& spec_file_name(spec_metadata_file(trash_info, name)) == Some(listed)
            &&& shown_name(listed) == decode_utf8(name) + ".info"@
            &&& valid_utf8(origin) ==> row == spec_pad_right(decode_utf8(name) + ".info"@, 10)
                + "\t\t"@ + date + "\t"@ + spec_pad_right(decode_utf8(origin), 10)
        }),
{
    reveal_strlit(".info");
    lemma_name_span(trashed);
    let name = spec_file_name(trashed).unwrap();
    assert(is_plain_name(name));
    lemma_metadata_file_name(trash_info, name);
    let text = decode_utf8(name);
    decode_utf8_encode_utf8(name);
    assert(is_ascii_chars(".info"@));
    is_ascii_chars_encode_utf8(".info"@);
    assert(ascii(".info"@) =~= encode_utf8(".info"@));
    lemma_encode_concat(text, ".info"@);
    let listed = name + ascii(".info"@);
    assert(listed == encode_utf8(text + ".info"@));
    encode_utf8_valid_utf8(text + ".info"@);
    encode_utf8_decode_utf8(text + ".info"@);
    assert(spec_pad_right(date, 10) == date);
}

} // verus!
