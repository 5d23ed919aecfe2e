//! Moving files to the trash: which files, under which names, and the
//! metadata kept on each.

use vstd::prelude::*;
use vstd::string::*;
use vstd::slice::slice_to_vec;
use vstd::utf8::{encode_utf8, valid_utf8};
use crate::command::{any_flag_holds, operands, operands_of, some_flag_holds};
use crate::config::Config;
use crate::path::{
    append_bytes, extension, file_name, file_stem, is_absolute, is_plain_name, last_dot,
    lemma_last_dot, lemma_last_dot_is, lemma_name_span, lemma_parent_dir_trimmed,
    lemma_parent_of_push, lemma_push_file_name, lemma_push_name_span, lemma_set_extension_of_push,
    lemma_set_extension_of_push_stem, lemma_set_file_name_is_push, lemma_stem_with_extension_plain,
    name_extension, name_stem, parent_dir, push, set_extension, set_file_name,
    spec_extension, spec_file_name, spec_is_absolute, spec_push, spec_set_extension,
    spec_set_file_name, with_extension, DOT, SEPARATOR,
};
use crate::text::{
    ascii, ascii_bytes, utf8_text, decimal, is_digit, is_digit_byte, lemma_decimal_digits,
    lemma_decimal_injective, spec_decimal, substring, utf8_bytes,
};
use crate::trash::TrashFile;

verus! {

/// The byte of an opening parenthesis, `(`.
pub const OPEN_PAREN: u8 = 40;

/// The byte of a closing parenthesis, `)`.
pub const CLOSE_PAREN: u8 = 41;

/// How files are written into the trash.
#[derive(Debug)]
pub struct WriteOptions {
    /// Whether a file in the trash with the same name may be replaced.
    pub overwrite_enabled: bool,
}

/// The work of one `delete` command: the files to trash, how, and where.
#[derive(Debug)]
pub struct DeleteJob {
    pub write_options: WriteOptions,
    pub files: Vec<String>,
    pub trash_dir: Vec<u8>,
    pub trash_info: Vec<u8>,
}

/// Why a file cannot be trashed, or its metadata not kept.
#[derive(Debug)]
pub enum DeleteError {
    /// The path names no file (it is empty, a root, or ends in `..`).
    NoFileName,
    /// The name of the trashed file, or its extension, is not valid UTF-8.
    NotUnicode,
}

/// Sets up a `delete` command: the files are the arguments after the program
/// and the function's name; a file already in the trash may be replaced only
/// when some flag holds an `o`.
pub fn delete_files(files: Vec<String>, flags: Vec<String>, config: &Config) -> (job: DeleteJob)
    ensures
        job.write_options.overwrite_enabled == some_flag_holds(flags.deep_view(), 'o'),
        job.files.deep_view() == operands(files.deep_view()),
        job.trash_dir@ == config.dirs.trash_dir@,
        job.trash_info@ == config.dirs.trash_info@,
{
    let write_options = WriteOptions { overwrite_enabled: any_flag_holds(&flags, 'o') };
    DeleteJob {
        write_options,
        files: operands_of(&files),
        trash_dir: slice_to_vec(config.dirs.trash_dir.as_slice()),
        trash_info: slice_to_vec(config.dirs.trash_info.as_slice()),
    }
}

/// The extension of `p` with a dot before it; a lone dot when `p` has none.
pub open spec fn dotted_extension(p: Seq<u8>) -> Seq<u8> {
    match spec_extension(p) {
        Some(e) => seq![DOT] + e,
        None => seq![DOT],
    }
}

/// How a file goes into the trash; all four are bytes of paths or names.
#[derive(Debug)]
pub struct TrashPlan {
    /// Where the file is now.
    pub origin: Vec<u8>,
    /// Where in the trash it goes, unless a file is already there.
    pub destination: Vec<u8>,
    /// The stem of its name.
    pub stem: Vec<u8>,
    /// Its extension, after a dot (a lone dot when it has none).
    pub ext: Vec<u8>,
}

/// Plans the trashing of `file` (whose path is the UTF-8 bytes of the
/// argument): it goes into `trash_dir` under its own name; a relative `file`
/// is found from the working directory `cwd`. A path that names no file
/// cannot be trashed.
pub fn delete_file(file: &str, cwd: &[u8], trash_dir: &[u8]) -> (r: Result<TrashPlan, DeleteError>)
    ensures
        r is Err <==> spec_file_name(encode_utf8(file@)) is None,
        r matches Err(e) ==> e is NoFileName,
        r matches Ok(plan) ==> {
            let f = encode_utf8(file@);
            let name = spec_file_name(f).unwrap();
            &&& plan.destination@ == spec_push(trash_dir@, name)
            &&& plan.stem@ == name_stem(name)
            &&& plan.ext@ == dotted_extension(plan.destination@)
            &&& plan.origin@ == (if spec_is_absolute(f) { f } else { spec_push(cwd@, f) })
            &&& !plan.ext@.contains(SEPARATOR)
        },
{
    let fb = utf8_bytes(file);
    proof {
        lemma_name_span(fb@);
    }
    let name = match file_name(fb.as_slice()) {
        Some(n) => n,
        None => return Err(DeleteError::NoFileName),
    };
    let fname = push(trash_dir, name.as_slice());
    proof {
        lemma_push_file_name(trash_dir@, name@);
        lemma_extension_has_no_separator(fname@);
    }
    let stem = match file_stem(fname.as_slice()) {
        Some(s) => s,
        None => return Err(DeleteError::NoFileName),
    };
    let mut ext: Vec<u8> = Vec::new();
    ext.push(DOT);
    match extension(fname.as_slice()) {
        Some(e) => append_bytes(&mut ext, e.as_slice()),
        None => {},
    }
    assert(!ext@.contains(SEPARATOR)) by {
        if ext@.contains(SEPARATOR) {
            let i = choose|i: int| 0 <= i < ext@.len() && ext@[i] == SEPARATOR;
            assert(i > 0);
            let e = spec_extension(fname@).unwrap();
            assert(e[i - 1] == SEPARATOR);
            assert(e.contains(SEPARATOR));
        }
    }
    let origin = if is_absolute(fb.as_slice()) {
        fb
    } else {
        push(cwd, fb.as_slice())
    };
    Ok(TrashPlan { origin, destination: fname, stem, ext })
}

/// The extension of a path holds no separator.
pub proof fn lemma_extension_has_no_separator(p: Seq<u8>)
    ensures
        spec_extension(p) matches Some(e) ==> !e.contains(SEPARATOR),
{
    lemma_name_span(p);
    if let Some(e) = spec_extension(p) {
        let n = spec_file_name(p).unwrap();
        if e.contains(SEPARATOR) {
            let i = choose|i: int| 0 <= i < e.len() && e[i] == SEPARATOR;
            let d = last_dot(n);
            lemma_last_dot(n);
            assert(e =~= n.skip(d + 1));
            assert(n[d + 1 + i] == SEPARATOR);
            assert(n.contains(SEPARATOR));
        }
    }
}

/// The name of the `n`th copy of a file with stem `stem`: the stem followed
/// by `n` in parentheses.
pub open spec fn copy_name(stem: Seq<u8>, n: nat) -> Seq<u8> {
    stem + seq![OPEN_PAREN] + spec_decimal(n) + seq![CLOSE_PAREN]
}

/// Where the `n`th copy goes, when the last place tried was `current`: the
/// file name of `current` becomes the copy's name, with the extension `ext`.
pub open spec fn spec_retry(current: Seq<u8>, stem: Seq<u8>, ext: Seq<u8>, n: nat) -> Seq<u8> {
    spec_set_extension(spec_set_file_name(current, copy_name(stem, n)), ext)
}

/// What to do after checking whether the trash already holds a file at the
/// place tried.
#[derive(Debug)]
pub enum NameProbe {
    /// Use the place tried.
    Keep,
    /// Try the next copy's place instead.
    Retry { count: u64, destination: Vec<u8> },
}

/// Decides, after the place `current` was tried for the `count`th time
/// (`0` for the file's own name) and found taken or free, where the file
/// goes: a free place, or any place when overwriting is enabled, is kept;
/// otherwise the next copy's place is tried.
pub fn next_destination(
    plan: &TrashPlan,
    current: &[u8],
    count: u64,
    exists: bool,
    overwrite_enabled: bool,
) -> (r: NameProbe)
    requires
        !plan.ext@.contains(SEPARATOR),
        exists && !overwrite_enabled ==> count < u64::MAX,
    ensures
        !(exists && !overwrite_enabled) ==> r is Keep,
        exists && !overwrite_enabled ==> (r matches NameProbe::Retry { count: c, destination: d } && c
            == count + 1 && d@ == spec_retry(current@, plan.stem@, plan.ext@, c as nat)),
{
    if !(exists && !overwrite_enabled) {
        return NameProbe::Keep;
    }
    let c = count + 1;
    let mut name = slice_to_vec(plan.stem.as_slice());
    name.push(OPEN_PAREN);
    let digits = decimal(c);
    append_bytes(&mut name, digits.as_slice());
    name.push(CLOSE_PAREN);
    assert(name@ =~= copy_name(plan.stem@, c as nat));
    let renamed = set_file_name(current, name.as_slice());
    let destination = set_extension(renamed.as_slice(), plan.ext.as_slice());
    NameProbe::Retry { count: c, destination }
}

/// The extension a metadata file gets when the trashed file's extension
/// (empty when it has none) is `e`: `info` after it, or `info` alone.
pub open spec fn metadata_extension(e: Seq<u8>) -> Seq<u8> {
    if e.len() == 0 {
        ascii("info"@)
    } else {
        e + ascii(".info"@)
    }
}

/// The extension of `p`, or nothing when it has none.
pub open spec fn extension_or_empty(p: Seq<u8>) -> Seq<u8> {
    match spec_extension(p) {
        Some(e) => e,
        None => Seq::empty(),
    }
}

/// Where the metadata of the trashed file named `name` goes in the metadata
/// directory `trash_info`: the file's name pushed onto the directory, with
/// its extension followed by `info`.
pub open spec fn spec_metadata_file(trash_info: Seq<u8>, name: Seq<u8>) -> Seq<u8> {
    let f = spec_push(trash_info, name);
    spec_set_extension(f, metadata_extension(extension_or_empty(f)))
}

/// Whether the metadata of a file trashed at `trashed` cannot be placed
/// because its name, or the name's extension, is not valid UTF-8.
pub open spec fn metadata_name_not_unicode(trashed: Seq<u8>) -> bool {
    let name = spec_file_name(trashed).unwrap();
    ||| !valid_utf8(name)
    ||| !valid_utf8(extension_or_empty(name))
}

/// The metadata extension made from an extension without a separator has
/// none either.
proof fn lemma_metadata_extension_plain(e: Seq<u8>)
    requires
        !e.contains(SEPARATOR),
    ensures
        !metadata_extension(e).contains(SEPARATOR),
{
    reveal_strlit("info");
    reveal_strlit(".info");
    let m = metadata_extension(e);
    assert forall|i: int| 0 <= i < m.len() implies m[i] != SEPARATOR by {
        if e.len() > 0 && i < e.len() {
            assert(m[i] == e[i]);
            if e[i] == SEPARATOR {
                assert(e.contains(e[i]));
            }
        }
    }
}

/// Where the metadata of the file trashed at `trashed` goes. The trashed
/// file's name and its extension must be valid UTF-8.
pub fn metadata_file(trash_info: &[u8], trashed: &[u8]) -> (r: Result<Vec<u8>, DeleteError>)
    ensures
        r matches Err(DeleteError::NoFileName) <==> spec_file_name(trashed@) is None,
        r matches Err(DeleteError::NotUnicode) <==> spec_file_name(trashed@) is Some
            && metadata_name_not_unicode(trashed@),
        r matches Ok(m) ==> m@ == spec_metadata_file(trash_info@, spec_file_name(trashed@).unwrap()),
{
    proof {
        lemma_name_span(trashed@);
    }
    let name = match file_name(trashed) {
        Some(n) => n,
        None => return Err(DeleteError::NoFileName),
    };
    if utf8_text(name.as_slice()).is_none() {
        return Err(DeleteError::NotUnicode);
    }
    let final_file = push(trash_info, name.as_slice());
    proof {
        lemma_extension_of_name(name@);
        lemma_push_file_name(trash_info@, name@);
    }
    let final_ext = match extension(final_file.as_slice()) {
        Some(e) => e,
        None => Vec::new(),
    };
    assert(final_ext@ == extension_or_empty(name@));
    if utf8_text(final_ext.as_slice()).is_none() {
        return Err(DeleteError::NotUnicode);
    }
    Ok(place_metadata(final_file, final_ext))
}

/// Gives the file `final_file`, whose extension (empty when it has none) is
/// `final_ext`, the metadata extension made from it.
fn place_metadata(final_file: Vec<u8>, final_ext: Vec<u8>) -> (r: Vec<u8>)
    requires
        final_ext@ == extension_or_empty(final_file@),
    ensures
        r@ == spec_set_extension(final_file@, metadata_extension(final_ext@)),
{
    proof {
        lemma_name_span(final_file@);
        lemma_extension_has_no_separator(final_file@);
    }
    let ghost e = final_ext@;
    let new_ext = if final_ext.len() == 0 {
        proof {
            reveal_strlit("info");
        }
        ascii_bytes("info")
    } else {
        let mut x = final_ext;
        proof {
            reveal_strlit(".info");
        }
        let suffix = ascii_bytes(".info");
        append_bytes(&mut x, suffix.as_slice());
        x
    };
    assert(new_ext@ == metadata_extension(e));
    proof {
        lemma_metadata_extension_plain(e);
    }
    set_extension(final_file.as_slice(), new_ext.as_slice())
}

/// A plain name is its own file name, so it has the same extension as a
/// path ending in it.
proof fn lemma_extension_of_name(name: Seq<u8>)
    requires
        is_plain_name(name),
    ensures
        spec_file_name(name) == Some(name),
{
    lemma_push_file_name(Seq::empty(), name);
    assert(spec_push(Seq::empty(), name) =~= name) by {
        assert(!spec_is_absolute(name)) by {
            assert(name.contains(name[0]));
        }
    }
}

/// The RFC 3339 rendering, to the second and in UTC, of the moment `secs`
/// seconds after the Unix epoch.
pub uninterp spec fn rfc3339_seconds(secs: u64) -> Seq<char>;

/// Whether `s` has the shape `YYYY-MM-DDTHH:MM:SSZ`.
pub open spec fn is_rfc3339_seconds(s: Seq<char>) -> bool {
    &&& s.len() == 20
    &&& s[4] == '-' && s[7] == '-' && s[10] == 'T' && s[13] == ':' && s[16] == ':' && s[19] == 'Z'
    &&& forall|i: int|
        0 <= i < 19 && i != 4 && i != 7 && i != 10 && i != 13 && i != 16 ==> is_digit(#[trigger] s[i])
}

/// Calls `humantime::format_rfc3339_seconds` on the moment `secs` seconds after
/// the Unix epoch and renders the result. The crate formats the time in UTC
/// into a fixed buffer `YYYY-MM-DDTHH:MM:SSZ`, and fails (so that rendering
/// panics) from the year 10000 on, which the bound on `secs` leaves out.
#[verifier::external_body]
fn format_rfc3339_seconds(secs: u64) -> (r: String)
    requires
        secs < 253_402_300_800,
    ensures
        r@ == rfc3339_seconds(secs),
        is_rfc3339_seconds(r@),
{
    humantime::format_rfc3339_seconds(std::time::UNIX_EPOCH + std::time::Duration::from_secs(secs)).to_string()
}

/// `s` with every `T` turned into a space.
pub open spec fn replace_t(s: Seq<char>) -> Seq<char> {
    Seq::new(s.len(), |i: int| if s[i] == 'T' { ' ' } else { s[i] })
}

/// The date recorded for a trashed file, from an RFC 3339 timestamp: every
/// `T` becomes a space and the last character (the zone `Z`) is dropped.
pub open spec fn spec_record_date(ts: Seq<char>) -> Seq<char> {
    if ts.len() == 0 {
        ts
    } else {
        replace_t(ts).drop_last()
    }
}

/// The recorded date keeps the timestamp but for its last character: each
/// character stays as it is, every digit among them, except that a `T`
/// becomes a space.
pub proof fn lemma_record_date_keeps_timestamp(ts: Seq<char>)
    ensures
        spec_record_date(ts).len() == if ts.len() == 0 { 0 } else { ts.len() - 1 },
        forall|i: int|
            0 <= i < spec_record_date(ts).len() ==> spec_record_date(ts)[i] == if ts[i] == 'T' {
                ' '
            } else {
                ts[i]
            },
{
}

/// Turns an RFC 3339 timestamp into the date recorded for a trashed file.
pub fn record_date(ts: &str) -> (r: String)
    ensures
        r@ == spec_record_date(ts@),
        r@.len() == if ts@.len() == 0 { 0 } else { ts@.len() - 1 },
        forall|i: int| 0 <= i < r@.len() ==> r@[i] == if ts@[i] == 'T' { ' ' } else { ts@[i] },
{

    proof {
        reveal_strlit(" ");
    }
    let n = ts.unicode_len();
    let mut r = String::new();
    if n == 0 {
        return r;
    }
    let mut i: usize = 0;
    while i < n - 1
        invariant
            n == ts@.len(),
            n > 0,
            i <= n - 1,
            r@ =~= replace_t(ts@).take(i as int),
        decreases n - 1 - i,
    {
        proof {
            reveal_strlit(" ");
        }
        if ts.get_char(i) == 'T' {
            r.append(" ");
        } else {
            let c = substring(ts, i, i + 1);
            r.append(c.as_str());
        }
        assert(r@ =~= replace_t(ts@).take(i + 1));
        i = i + 1;
    }
    assert(replace_t(ts@).take(n - 1) =~= replace_t(ts@).drop_last());
    r
}

/// Whether `s` has the shape `YYYY-MM-DD HH:MM:SS`.
pub open spec fn is_record_date(s: Seq<char>) -> bool {
    &&& s.len() == 19
    &&& s[4] == '-' && s[7] == '-' && s[10] == ' ' && s[13] == ':' && s[16] == ':'
    &&& forall|i: int|
        0 <= i < 19 && i != 4 && i != 7 && i != 10 && i != 13 && i != 16 ==> is_digit(#[trigger] s[i])
}

/// The date recorded from an RFC 3339 timestamp to the second has the shape
/// `YYYY-MM-DD HH:MM:SS`.
pub proof fn lemma_record_date_shape(ts: Seq<char>)
    requires
        is_rfc3339_seconds(ts),
    ensures
        is_record_date(spec_record_date(ts)),
{
    let r = spec_record_date(ts);
    assert(r.len() == 19);
    assert forall|i: int| 0 <= i < 19 implies #[trigger] r[i] == (if i == 10 { ' ' } else { ts[i] }) by {
        assert(r[i] == replace_t(ts)[i]);
        if i != 10 && ts[i] == 'T' {
            if i == 4 || i == 7 || i == 13 || i == 16 {
            } else {
                assert(is_digit(ts[i]));
            }
        }
    }
}

/// The date recorded for a file trashed `secs` seconds after the Unix epoch:
/// `YYYY-MM-DD HH:MM:SS` in UTC.
pub fn deletion_date(secs: u64) -> (r: String)
    requires
        secs < 253_402_300_800,
    ensures
        r@ == spec_record_date(rfc3339_seconds(secs)),
        is_record_date(r@),
        r@.len() + 1 == rfc3339_seconds(secs).len(),
        forall|i: int|
            0 <= i < r@.len() ==> r@[i] == if rfc3339_seconds(secs)[i] == 'T' {
                ' '
            } else {
                rfc3339_seconds(secs)[i]
            },
{
    let ts = format_rfc3339_seconds(secs);
    proof {
        lemma_record_date_shape(ts@);
    }
    record_date(ts.as_str())
}

/// The metadata kept on a trashed file, and where it is kept.
#[derive(Debug)]
pub struct MetadataEntry {
    pub location: Vec<u8>,
    pub record: TrashFile,
}

/// The metadata of the file trashed from `origin` to `trashed` at `secs`
/// seconds after the Unix epoch, kept in the metadata directory `trash_info`.
pub fn metadata_entry(origin: &Vec<u8>, trashed: &[u8], trash_info: &[u8], secs: u64) -> (r: Result<
    MetadataEntry,
    DeleteError,
>)
    requires
        secs < 253_402_300_800,
    ensures
        r matches Err(DeleteError::NoFileName) <==> spec_file_name(trashed@) is None,
        r matches Err(DeleteError::NotUnicode) <==> spec_file_name(trashed@) is Some
            && metadata_name_not_unicode(trashed@),
        r matches Ok(m) ==> {
            &&& m.location@ == spec_metadata_file(trash_info@, spec_file_name(trashed@).unwrap())
            &&& m.record.path@ == origin@
            &&& m.record.date@ == spec_record_date(rfc3339_seconds(secs))
            &&& is_record_date(m.record.date@)
            &&& name_extension(spec_file_name(trashed@).unwrap()) != Some(Seq::<u8>::empty())
                ==> spec_file_name(m.location@) == Some(
                spec_file_name(trashed@).unwrap() + ascii(".info"@),
            )
        },
{
    let date = deletion_date(secs);
    let record = TrashFile::new(origin, &date);
    proof {
        lemma_name_span(trashed@);
        if let Some(n) = spec_file_name(trashed@) {
            if name_extension(n) != Some(Seq::<u8>::empty()) {
                lemma_metadata_file_name(trash_info@, n);
            }
        }
    }
    let location = metadata_file(trash_info, trashed)?;
    Ok(MetadataEntry { location, record })
}

// ---------------------------------------------------------------------------
// Where successive copies go
// ---------------------------------------------------------------------------

/// Where the file goes after `k` places were tried and found taken: the first
/// place for `k == 0`, and from each place tried, the next copy's place.
pub open spec fn destination_after(first: Seq<u8>, stem: Seq<u8>, ext: Seq<u8>, k: nat) -> Seq<u8>
    decreases k,
{
    if k == 0 {
        first
    } else {
        spec_retry(destination_after(first, stem, ext, (k - 1) as nat), stem, ext, k)
    }
}

/// A copy's name, for a stem free of dots and separators, is a plain name
/// free of dots.
proof fn lemma_copy_name_plain(stem: Seq<u8>, n: nat)
    requires
        !stem.contains(DOT),
        !stem.contains(SEPARATOR),
    ensures
        is_plain_name(copy_name(stem, n)),
        !copy_name(stem, n).contains(DOT),
        !copy_name(stem, n).contains(SEPARATOR),
{
    let a = copy_name(stem, n);
    let d = spec_decimal(n);
    lemma_decimal_digits(n);
    assert(a[stem.len() as int] == OPEN_PAREN);
    assert forall|i: int| 0 <= i < a.len() implies a[i] != DOT && a[i] != SEPARATOR by {
        if i < stem.len() {
            assert(a[i] == stem[i]);
            if stem[i] == DOT || stem[i] == SEPARATOR {
                assert(stem.contains(stem[i]));
            }
        } else if i > stem.len() && i < a.len() - 1 {
            assert(a[i] == d[i - stem.len() - 1]);
            assert(is_digit_byte(d[i - stem.len() - 1]));
        }
    }
    assert(a != seq![DOT]) by {
        if a == seq![DOT] {
            assert(a[0] != DOT);
        }
    }
    assert(a != seq![DOT, DOT]) by {
        if a == seq![DOT, DOT] {
            assert(a[0] != DOT);
        }
    }
}

/// A name with an extension free of separators, made from a plain name free
/// of dots, is a plain name.
proof fn lemma_with_extension_plain(a: Seq<u8>, ext: Seq<u8>)
    requires
        is_plain_name(a),
        !a.contains(DOT),
        !ext.contains(SEPARATOR),
    ensures
        is_plain_name(with_extension(a, ext)),
{
    let f = with_extension(a, ext);
    if ext.len() > 0 {
        assert forall|i: int| 0 <= i < f.len() implies f[i] != SEPARATOR by {
            if i < a.len() {
                assert(f[i] == a[i]);
                if a[i] == SEPARATOR {
                    assert(a.contains(a[i]));
                }
            } else if i > a.len() {
                assert(f[i] == ext[i - a.len() - 1]);
                if ext[i - a.len() - 1] == SEPARATOR {
                    assert(ext.contains(ext[i - a.len() - 1]));
                }
            }
        }
        assert(f.len() >= 2);
        assert(f != seq![DOT, DOT]) by {
            if f == seq![DOT, DOT] {
                assert(a.contains(a[0]));
            }
        }
    }
}

/// The next copy's place, from any place with a file name, lies in that
/// place's directory and is named after the copy, with the extension `ext`;
/// and it has that same directory.
pub proof fn lemma_retry_closed_form(c: Seq<u8>, stem: Seq<u8>, ext: Seq<u8>, n: nat)
    requires
        spec_file_name(c) is Some,
        !stem.contains(DOT),
        !stem.contains(SEPARATOR),
        !ext.contains(SEPARATOR),
    ensures
        spec_retry(c, stem, ext, n) == spec_push(parent_dir(c), with_extension(copy_name(stem, n), ext)),
        spec_file_name(spec_retry(c, stem, ext, n)) is Some,
        parent_dir(spec_retry(c, stem, ext, n)) == parent_dir(c),
{
    let a = copy_name(stem, n);
    let p = parent_dir(c);
    lemma_copy_name_plain(stem, n);
    lemma_set_file_name_is_push(c, a);
    lemma_set_extension_of_push(p, a, ext);
    lemma_with_extension_plain(a, ext);
    let f = with_extension(a, ext);
    lemma_parent_dir_trimmed(c);
    lemma_parent_of_push(p, f);
    lemma_push_file_name(p, f);
}

/// After any number of places were tried, the one tried next lies in the
/// directory of the first place and is named after the copy it holds.
pub proof fn lemma_destination_after_closed_form(
    first: Seq<u8>,
    stem: Seq<u8>,
    ext: Seq<u8>,
    k: nat,
)
    requires
        spec_file_name(first) is Some,
        !stem.contains(DOT),
        !stem.contains(SEPARATOR),
        !ext.contains(SEPARATOR),
    ensures
        spec_file_name(destination_after(first, stem, ext, k)) is Some,
        parent_dir(destination_after(first, stem, ext, k)) == parent_dir(first),
        k >= 1 ==> destination_after(first, stem, ext, k) == spec_push(
            parent_dir(first),
            with_extension(copy_name(stem, k), ext),
        ),
    decreases k,
{
    if k > 0 {
        let prev = destination_after(first, stem, ext, (k - 1) as nat);
        lemma_destination_after_closed_form(first, stem, ext, (k - 1) as nat);
        lemma_retry_closed_form(prev, stem, ext, k);
    }
}

/// Copies with different numbers have different names.
proof fn lemma_copy_names_distinct(stem: Seq<u8>, ext: Seq<u8>, i: nat, j: nat)
    requires
        with_extension(copy_name(stem, i), ext) == with_extension(copy_name(stem, j), ext),
    ensures
        i == j,
{
    let a = copy_name(stem, i);
    let b = copy_name(stem, j);
    if ext.len() > 0 {
        assert(with_extension(a, ext).len() == a.len() + 1 + ext.len());
        assert(with_extension(b, ext).len() == b.len() + 1 + ext.len());
        assert(a.len() == b.len());
        assert(a =~= with_extension(a, ext).take(a.len() as int));
        assert(b =~= with_extension(b, ext).take(b.len() as int));
    }
    assert(a == b);
    let di = spec_decimal(i);
    let dj = spec_decimal(j);
    assert(di =~= a.subrange(stem.len() as int + 1, a.len() - 1));
    assert(dj =~= b.subrange(stem.len() as int + 1, b.len() - 1));
    lemma_decimal_injective(i, j);
}

/// Copies numbered `i < j`, both from 1 on, go to different places.
proof fn lemma_copies_never_repeat(
    first: Seq<u8>,
    stem: Seq<u8>,
    ext: Seq<u8>,
    i: nat,
    j: nat,
)
    requires
        spec_file_name(first) is Some,
        !stem.contains(DOT),
        !stem.contains(SEPARATOR),
        !ext.contains(SEPARATOR),
        1 <= i < j,
    ensures
        destination_after(first, stem, ext, i) != destination_after(first, stem, ext, j),
{
    lemma_destination_after_closed_form(first, stem, ext, i);
    lemma_destination_after_closed_form(first, stem, ext, j);
    let p = parent_dir(first);
    let fi = with_extension(copy_name(stem, i), ext);
    let fj = with_extension(copy_name(stem, j), ext);
    lemma_copy_name_plain(stem, i);
    lemma_copy_name_plain(stem, j);
    lemma_with_extension_plain(copy_name(stem, i), ext);
    lemma_with_extension_plain(copy_name(stem, j), ext);
    if destination_after(first, stem, ext, i) == destination_after(first, stem, ext, j) {
        lemma_push_name_span(p, fi);
        lemma_push_name_span(p, fj);
        let pi = spec_push(p, fi);
        let pj = spec_push(p, fj);
        assert(pi.take((pi.len() - fi.len()) as int) == pj.take((pj.len() - fj.len()) as int));
        assert(fi.len() == fj.len());
        assert(fi =~= pi.subrange(pi.len() - fi.len(), pi.len() as int));
        assert(fj =~= pj.subrange(pj.len() - fj.len(), pj.len() as int));
        lemma_copy_names_distinct(stem, ext, i, j);
    }
}


/// The first place tried, in the trash under the file's own name, is never
/// the place of a numbered copy, when the stem is that of the file's name and
/// has no dot.
proof fn lemma_first_place_not_a_copy(first: Seq<u8>, stem: Seq<u8>, ext: Seq<u8>, j: nat)
    requires
        spec_file_name(first) is Some,
        stem == name_stem(spec_file_name(first).unwrap()),
        !stem.contains(DOT),
        !stem.contains(SEPARATOR),
        !ext.contains(SEPARATOR),
        1 <= j,
    ensures
        first != destination_after(first, stem, ext, j),
{
    let n = spec_file_name(first).unwrap();
    lemma_name_span(first);
    lemma_destination_after_closed_form(first, stem, ext, j);
    let a = copy_name(stem, j);
    let c = with_extension(a, ext);
    lemma_copy_name_plain(stem, j);
    lemma_with_extension_plain(a, ext);
    lemma_push_file_name(parent_dir(first), c);
    assert(c.len() > stem.len());
    assert(c[stem.len() as int] == OPEN_PAREN);
    if first == destination_after(first, stem, ext, j) {
        assert(n == c);
        lemma_last_dot(n);
        if n == seq![DOT, DOT] || last_dot(n) <= 0 {
            assert(stem == n);
        } else {
            let d = last_dot(n);
            assert(stem =~= n.take(d));
            assert(n[d] == DOT);
            assert(c[d] == OPEN_PAREN);
        }
    }
}

/// The trash never tries the same place twice for a file whose stem has no
/// dot: the numbered copies' places all differ, and, when `stem` is the stem
/// of the file's name (as a plan makes it), they differ from the file's own
/// place in the trash too.
pub proof fn lemma_destinations_never_repeat(
    first: Seq<u8>,
    stem: Seq<u8>,
    ext: Seq<u8>,
    i: nat,
    j: nat,
)
    requires
        spec_file_name(first) is Some,
        i == 0 ==> stem == name_stem(spec_file_name(first).unwrap()),
        !stem.contains(DOT),
        !stem.contains(SEPARATOR),
        !ext.contains(SEPARATOR),
        i < j,
    ensures
        destination_after(first, stem, ext, i) != destination_after(first, stem, ext, j),
{
    if i == 0 {
        lemma_first_place_not_a_copy(first, stem, ext, j);
    } else {
        lemma_copies_never_repeat(first, stem, ext, i, j);
    }
}

/// A copy's name, for a stem free of separators, is a plain name.
proof fn lemma_copy_name_is_plain(stem: Seq<u8>, n: nat)
    requires
        !stem.contains(SEPARATOR),
    ensures
        is_plain_name(copy_name(stem, n)),
{
    let a = copy_name(stem, n);
    let d = spec_decimal(n);
    lemma_decimal_digits(n);
    assert(a[stem.len() as int] == OPEN_PAREN);
    assert forall|i: int| 0 <= i < a.len() implies a[i] != SEPARATOR by {
        if i < stem.len() {
            assert(a[i] == stem[i]);
            if stem[i] == SEPARATOR {
                assert(stem.contains(stem[i]));
            }
        } else if i > stem.len() && i < a.len() - 1 {
            assert(a[i] == d[i - stem.len() - 1]);
            assert(is_digit_byte(d[i - stem.len() - 1]));
        }
    }
    assert(a.len() >= 3);
}

/// From any place with a file name, the next copy's place lies in the same
/// directory, whatever the stem, for a non-empty extension free of
/// separators.
pub proof fn lemma_retry_stays_in_directory(c: Seq<u8>, stem: Seq<u8>, ext: Seq<u8>, n: nat)
    requires
        spec_file_name(c) is Some,
        !stem.contains(SEPARATOR),
        ext.len() > 0,
        !ext.contains(SEPARATOR),
    ensures
        spec_retry(c, stem, ext, n) == spec_push(
            parent_dir(c),
            name_stem(copy_name(stem, n)) + seq![DOT] + ext,
        ),
        spec_file_name(spec_retry(c, stem, ext, n)) is Some,
        parent_dir(spec_retry(c, stem, ext, n)) == parent_dir(c),
{
    let a = copy_name(stem, n);
    let p = parent_dir(c);
    lemma_copy_name_is_plain(stem, n);
    lemma_set_file_name_is_push(c, a);
    lemma_set_extension_of_push_stem(p, a, ext);
    lemma_stem_with_extension_plain(a, ext);
    let f = name_stem(a) + seq![DOT] + ext;
    lemma_parent_dir_trimmed(c);
    lemma_parent_of_push(p, f);
    lemma_push_file_name(p, f);
}

/// Every place the trash tries for a file lies in the directory of the first
/// place, the trash directory, whatever the stem: each has a file name, and
/// the same directory is left once that name is removed.
pub proof fn lemma_destinations_stay_in_trash(
    first: Seq<u8>,
    stem: Seq<u8>,
    ext: Seq<u8>,
    k: nat,
)
    requires
        spec_file_name(first) is Some,
        !stem.contains(SEPARATOR),
        ext.len() > 0,
        !ext.contains(SEPARATOR),
    ensures
        spec_file_name(destination_after(first, stem, ext, k)) is Some,
        parent_dir(destination_after(first, stem, ext, k)) == parent_dir(first),
    decreases k,
{
    if k > 0 {
        let prev = destination_after(first, stem, ext, (k - 1) as nat);
        lemma_destinations_stay_in_trash(first, stem, ext, (k - 1) as nat);
        lemma_retry_stays_in_directory(prev, stem, ext, k);
    }
}

// ---------------------------------------------------------------------------
// Where metadata goes
// ---------------------------------------------------------------------------

/// The metadata file is the trashed name's stem, a dot and the metadata
/// extension, pushed onto the metadata directory.
proof fn lemma_metadata_file_as_stem(trash_info: Seq<u8>, name: Seq<u8>)
    requires
        is_plain_name(name),
    ensures
        spec_metadata_file(trash_info, name) == spec_push(
            trash_info,
            name_stem(name) + seq![DOT] + metadata_extension(
                match name_extension(name) {
                    Some(e) => e,
                    None => Seq::empty(),
                },
            ),
        ),
{
    reveal_strlit("info");
    reveal_strlit(".info");
    lemma_push_file_name(trash_info, name);
    let e = match name_extension(name) {
        Some(e) => e,
        None => Seq::<u8>::empty(),
    };
    assert(metadata_extension(e).len() > 0);
    lemma_set_extension_of_push_stem(trash_info, name, metadata_extension(e));
}

/// The metadata of a file whose name has no extension goes under the name
/// followed by `.info`.
#[verifier::spinoff_prover]
proof fn lemma_metadata_file_without_extension(trash_info: Seq<u8>, name: Seq<u8>)
    requires
        is_plain_name(name),
        name_extension(name) is None,
    ensures
        spec_metadata_file(trash_info, name) == spec_push(trash_info, name + ascii(".info"@)),
{
    reveal_strlit("info");
    reveal_strlit(".info");
    lemma_metadata_file_as_stem(trash_info, name);
    assert(name_stem(name) == name);
    assert(name + seq![DOT] + ascii("info"@) =~= name + ascii(".info"@));
}

/// The metadata of a file whose name has a non-empty extension goes under the
/// name followed by `.info`.
#[verifier::spinoff_prover]
proof fn lemma_metadata_file_with_extension(trash_info: Seq<u8>, name: Seq<u8>, e: Seq<u8>)
    requires
        is_plain_name(name),
        name_extension(name) == Some(e),
        e.len() > 0,
    ensures
        spec_metadata_file(trash_info, name) == spec_push(trash_info, name + ascii(".info"@)),
{
    reveal_strlit(".info");
    lemma_metadata_file_as_stem(trash_info, name);
    lemma_last_dot(name);
    let d = last_dot(name);
    assert(name_stem(name) =~= name.take(d));
    assert(e =~= name.skip(d + 1));
    assert(name =~= name.take(d) + seq![DOT] + e);
    assert(name.take(d) + seq![DOT] + (e + ascii(".info"@)) =~= name + ascii(".info"@));
}

/// A plain name followed by `.info` is a plain name whose extension is
/// `info`.
proof fn lemma_info_name(name: Seq<u8>)
    requires
        is_plain_name(name),
    ensures
        is_plain_name(name + ascii(".info"@)),
        name_extension(name + ascii(".info"@)) == Some(ascii("info"@)),
{
    reveal_strlit("info");
    reveal_strlit(".info");
    let full = name + ascii(".info"@);
    assert forall|i: int| 0 <= i < full.len() implies full[i] != SEPARATOR by {
        if i < name.len() {
            assert(full[i] == name[i]);
            if name[i] == SEPARATOR {
                assert(name.contains(name[i]));
            }
        }
    }
    assert(full.len() > 2);
    assert(full[name.len() as int] == DOT);
    lemma_last_dot_is(full, name.len() as int);
    assert(full.skip(name.len() as int + 1) =~= ascii("info"@));
}

/// The metadata of a trashed file is kept under the file's own name followed
/// by `.info`, in the metadata directory, so that its extension is `info`;
/// this holds for every name but one that ends in a dot.
pub proof fn lemma_metadata_file_name(trash_info: Seq<u8>, name: Seq<u8>)
    requires
        is_plain_name(name),
        name_extension(name) != Some(Seq::<u8>::empty()),
    ensures
        spec_metadata_file(trash_info, name) == spec_push(trash_info, name + ascii(".info"@)),
        spec_file_name(spec_metadata_file(trash_info, name)) == Some(name + ascii(".info"@)),
        spec_extension(spec_metadata_file(trash_info, name)) == Some(ascii("info"@)),
{
    match name_extension(name) {
        None => lemma_metadata_file_without_extension(trash_info, name),
        Some(e) => {
            assert(e.len() > 0) by {
                if e.len() == 0 {
                    assert(e =~= Seq::<u8>::empty());
                }
            }
            lemma_metadata_file_with_extension(trash_info, name, e);
        },
    }
    lemma_info_name(name);
    lemma_push_file_name(trash_info, name + ascii(".info"@));
}

} // verus!
