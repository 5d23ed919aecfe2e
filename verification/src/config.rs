//! Where the trash keeps its configuration and its directories.

use vstd::prelude::*;
use vstd::string::*;
use vstd::slice::slice_to_vec;
use vstd::utf8::{encode_utf8, is_ascii_chars};
use crate::path::{
    is_plain_name, lemma_push_file_name, lemma_push_name_span, lemma_set_extension_of_push,
    parent_dir, push, set_extension, spec_file_name, spec_is_absolute, spec_push, trim_len,
    with_extension, DOT, SEPARATOR,
};
use crate::text::{ascii, ascii_bytes, lemma_ascii_concat, lemma_ascii_contains, text_eq, utf8_bytes};

verus! {

/// The directories of a trash, as the bytes of their paths: the master
/// directory, and within it the directory that holds trashed files and the
/// one that holds their metadata.
#[derive(Debug)]
pub struct Directories {
    pub master_dir: Vec<u8>,
    pub trash_dir: Vec<u8>,
    pub trash_info: Vec<u8>,
}

/// The configuration of the trash.
#[derive(Debug)]
pub struct Config {
    pub copy_ext: String,
    pub dirs: Directories,
}

/// The paths that make up a trash rooted at a master directory.
#[derive(Debug)]
pub struct DirectoryLayout {
    /// Where trashed files go.
    pub files: Vec<u8>,
    /// Where their metadata goes.
    pub info: Vec<u8>,
    /// The file that keeps track of copies.
    pub metadata: Vec<u8>,
}

/// Why the configuration file could not be located.
#[derive(Debug)]
pub enum ConfigError {
    /// The system has no configuration directory for the user.
    ConfigDirNotFound,
}

/// What happened when the configuration file was opened, or what the user
/// answered when asked whether to create a new one.
#[derive(Debug)]
pub enum ConfigEvent {
    Opened,
    NotFound,
    OpenFailed,
    Answered(bool),
}

/// What to do next while fetching the configuration.
#[derive(Debug)]
pub enum ConfigAction {
    /// Read the configuration file that was opened.
    Read,
    /// Create a new configuration file (and the trash directories).
    Create,
    /// Ask the user whether a new configuration file should be created.
    AskToCreate,
    /// Give up.
    Exit,
}

/// The names that make up a trash and its configuration are plain names;
/// those that get an extension have no dot.
proof fn lemma_literal_names()
    ensures
        is_plain_name(ascii("files"@)),
        is_plain_name(ascii("info"@)),
        is_plain_name(ascii("metadata"@)),
        !ascii("metadata"@).contains(DOT),
        is_plain_name(ascii("trash-rs"@)),
        is_plain_name(ascii("config"@)),
        !ascii("config"@).contains(DOT),
        ascii("toml"@).len() > 0,
        !ascii("toml"@).contains(SEPARATOR),
        !ascii("info"@).contains(SEPARATOR),
        is_plain_name(ascii("metadata.info"@)),
        with_extension(ascii("config"@), ascii("toml"@)) == ascii("config.toml"@),
        with_extension(ascii("metadata"@), ascii("info"@)) == ascii("metadata.info"@),
{
    reveal_strlit("files");
    reveal_strlit("info");
    reveal_strlit("metadata");
    reveal_strlit("trash-rs");
    reveal_strlit("config");
    reveal_strlit("toml");
    reveal_strlit("metadata.info");
    reveal_strlit("config.toml");
    lemma_plain_literal("files"@);
    lemma_plain_literal("info"@);
    lemma_plain_literal("metadata"@);
    lemma_plain_literal("trash-rs"@);
    lemma_plain_literal("config"@);
    lemma_plain_literal("metadata.info"@);
    lemma_ascii_contains("metadata"@, '.');
    lemma_ascii_contains("config"@, '.');
    lemma_ascii_contains("toml"@, '/');
    lemma_ascii_contains("info"@, '/');
    if "metadata"@.contains('.') {
        let i = choose|i: int| 0 <= i < 8 && "metadata"@[i] == '.';
    }
    if "config"@.contains('.') {
        let i = choose|i: int| 0 <= i < 6 && "config"@[i] == '.';
    }
    if "toml"@.contains('/') {
        let i = choose|i: int| 0 <= i < 4 && "toml"@[i] == '/';
    }
    if "info"@.contains('/') {
        let i = choose|i: int| 0 <= i < 4 && "info"@[i] == '/';
    }
    lemma_ascii_concat("config"@, "toml"@);
    assert("config"@ + seq!['.'] + "toml"@ =~= "config.toml"@);
    lemma_ascii_concat("metadata"@, "info"@);
    assert("metadata"@ + seq!['.'] + "info"@ =~= "metadata.info"@);
}

/// The bytes of an ASCII name of more than two characters, free of `/`, form
/// a plain name.
proof fn lemma_plain_literal(cs: Seq<char>)
    requires
        is_ascii_chars(cs),
        cs.len() > 2,
        !cs.contains('/'),
    ensures
        is_plain_name(ascii(cs)),
{
    lemma_ascii_contains(cs, '/');
    assert(('/' as u8) == SEPARATOR);
    assert(ascii(cs).len() == cs.len());
    assert(ascii(cs) != seq![DOT]);
    assert(ascii(cs) != seq![DOT, DOT]);
}

/// The bytes of the ASCII literal `s`.
fn literal(s: &str) -> (r: Vec<u8>)
    requires
        is_ascii_chars(s@),
    ensures
        r@ == ascii(s@),
{
    ascii_bytes(s)
}

impl Config {
    /// The configuration of a trash rooted at `master_dir`: trashed files go
    /// to its `files` directory, their metadata to its `info` directory, and
    /// the copy extension is `copy`.
    pub fn new(master_dir: &[u8]) -> (c: Config)
        ensures
            c.copy_ext@ == "copy"@,
            c.dirs.master_dir@ == master_dir@,
            c.dirs.trash_dir@ == spec_push(master_dir@, ascii("files"@)),
            c.dirs.trash_info@ == spec_push(master_dir@, ascii("info"@)),
    {
        proof {
            reveal_strlit("files");
            reveal_strlit("info");
        }
        let tp = push(master_dir, literal("files").as_slice());
        let ti = push(master_dir, literal("info").as_slice());
        Config {
            copy_ext: String::from_str("copy"),
            dirs: Directories { master_dir: slice_to_vec(master_dir), trash_dir: tp, trash_info: ti },
        }
    }
}

/// Whether `d` has the form of a configuration directory that the system
/// reports: an absolute path, or `.config` (or, on macOS, `Application
/// Support`) pushed onto a home directory.
pub open spec fn is_config_dir_form(d: Seq<u8>) -> bool {
    ||| spec_is_absolute(d)
    ||| spec_file_name(d) == Some(ascii(".config"@))
    ||| spec_file_name(d) == Some(ascii("Application Support"@))
}

/// Calls `dirs_next::config_dir` and takes the bytes of the directory it
/// finds (`OsString::into_encoded_bytes`, the path's own bytes on Unix). The
/// crate reads the directory from the environment, so which directory comes
/// back is not stated; what is stated is its form, as the Unix sources show
/// it: on Linux it is `$XDG_CONFIG_HOME` when that is absolute and otherwise
/// the home directory joined with `.config` (`lin.rs`), on macOS the home
/// directory joined with `Library/Application Support` (`mac.rs`), and on
/// wasm there is none. (The Windows known-folder path is not covered, as
/// paths here are Unix paths.)
#[verifier::external_body]
fn user_config_dir() -> (r: Option<Vec<u8>>)
    ensures
        r matches Some(d) ==> is_config_dir_form(d@),
{
    dirs_next::config_dir().map(|p| p.into_os_string().into_encoded_bytes())
}

/// Calls `dirs_next::home_dir` and takes the bytes of the directory it finds
/// (`OsString::into_encoded_bytes`, the path's own bytes on Unix). The crate
/// reads the directory from the environment (`$HOME`) or the password
/// database, so nothing is stated of the result.
#[verifier::external_body]
fn user_home_dir() -> (r: Option<Vec<u8>>) {
    dirs_next::home_dir().map(|p| p.into_os_string().into_encoded_bytes())
}

/// Where the configuration file lives: `trash-rs/config.toml` in the user's
/// configuration directory, which the system is asked for (so in a directory
/// of the form the system gives for it).
pub fn find_conf() -> (r: Result<Vec<u8>, ConfigError>)
    ensures
        r matches Ok(p) ==> exists|d: Seq<u8>|
            is_config_dir_form(d) && p@ == spec_push(
                spec_push(d, ascii("trash-rs"@)),
                ascii("config.toml"@),
            ),
{
    let dir = user_config_dir();
    let r = match &dir {
        Some(d) => conf_location(Some(d.as_slice())),
        None => conf_location(None),
    };
    proof {
        if let Some(d) = dir {
            assert(r matches Ok(p) && is_config_dir_form(d@) && p@ == spec_push(
                spec_push(d@, ascii("trash-rs"@)),
                ascii("config.toml"@),
            ));
        }
    }
    r
}

/// Where the configuration file lives, given the user's configuration
/// directory: `trash-rs/config.toml` within it.
pub fn conf_location(config_dir: Option<&[u8]>) -> (r: Result<Vec<u8>, ConfigError>)
    ensures
        config_dir is None ==> r is Err,
        config_dir matches Some(d) ==> (r matches Ok(p) && p@ == spec_push(
            spec_push(d@, ascii("trash-rs"@)),
            ascii("config.toml"@),
        )),
{
    match config_dir {
        None => Err(ConfigError::ConfigDirNotFound),
        Some(d) => {
            proof {
                reveal_strlit("trash-rs");
                reveal_strlit("config");
                reveal_strlit("toml");
                lemma_literal_names();
            }
            let app_dir = push(d, literal("trash-rs").as_slice());
            let file = push(app_dir.as_slice(), literal("config").as_slice());
            let r = set_extension(file.as_slice(), literal("toml").as_slice());
            proof {
                lemma_set_extension_of_push(app_dir@, ascii("config"@), ascii("toml"@));
            }
            Ok(r)
        },
    }
}

/// The directories and files that make up a trash rooted at `md`.
pub fn directory_layout(md: &[u8]) -> (r: DirectoryLayout)
    ensures
        r.files@ == spec_push(md@, ascii("files"@)),
        r.info@ == spec_push(md@, ascii("info"@)),
        r.metadata@ == spec_push(md@, ascii("metadata.info"@)),
{
    proof {
        reveal_strlit("files");
        reveal_strlit("info");
        reveal_strlit("metadata");
        lemma_literal_names();
    }
    let files = push(md, literal("files").as_slice());
    let info = push(md, literal("info").as_slice());
    let meta = push(md, literal("metadata").as_slice());
    let metadata = set_extension(meta.as_slice(), literal("info").as_slice());
    proof {
        lemma_set_extension_of_push(md@, ascii("metadata"@), ascii("info"@));
    }
    DirectoryLayout { files, info, metadata }
}

/// The directories a configuration points to are the ones that make up the
/// trash at its master directory: `files` and `info` in it, beside the
/// `metadata.info` file.
pub proof fn lemma_config_matches_layout(md: Seq<u8>)
    ensures
        spec_file_name(spec_push(md, ascii("files"@))) == Some(ascii("files"@)),
        spec_file_name(spec_push(md, ascii("info"@))) == Some(ascii("info"@)),
        spec_file_name(spec_push(md, ascii("metadata.info"@))) == Some(ascii("metadata.info"@)),
        parent_dir(spec_push(md, ascii("files"@))) == parent_dir(spec_push(md, ascii("info"@))),
        parent_dir(spec_push(md, ascii("files"@))) == parent_dir(
            spec_push(md, ascii("metadata.info"@)),
        ),
{
    lemma_literal_names();
    lemma_push_file_name(md, ascii("files"@));
    lemma_push_file_name(md, ascii("info"@));
    lemma_push_file_name(md, ascii("metadata.info"@));
    lemma_push_parent(md, ascii("files"@));
    lemma_push_parent(md, ascii("info"@));
    lemma_push_parent(md, ascii("metadata.info"@));
}

/// The directory left of a plain name pushed onto a path depends on that path
/// alone.
proof fn lemma_push_parent(md: Seq<u8>, name: Seq<u8>)
    requires
        is_plain_name(name),
    ensures
        parent_dir(spec_push(md, name)) == ({
            let pre = if md.len() > 0 && md.last() != SEPARATOR { md + seq![SEPARATOR] } else { md };
            pre.take(trim_len(pre) as int)
        }),
{
    lemma_push_name_span(md, name);
}

/// Whether a line typed by the user leaves the master directory to its
/// default: it is empty, a newline, or a backslash followed by `n`.
pub open spec fn is_blank_answer(s: Seq<char>) -> bool {
    s == "\\n"@ || s == "\n"@ || s.len() == 0
}

/// The master directory of the trash: the directory the user typed (its
/// UTF-8 bytes), unless the answer was blank, in which case `.trash-rs` in
/// the home directory (none when there is no home directory).
pub fn choose_master_dir(desired_dir: &str, home: Option<&[u8]>) -> (r: Option<Vec<u8>>)
    ensures
        !is_blank_answer(desired_dir@) ==> (r matches Some(d) && d@ == encode_utf8(desired_dir@)),
        is_blank_answer(desired_dir@) ==> match home {
            None => r is None,
            Some(h) => (r matches Some(d) && d@ == spec_push(h@, ascii(".trash-rs"@))),
        },
{
    let blank = text_eq(desired_dir, "\\n") || text_eq(desired_dir, "\n") || desired_dir.unicode_len()
        == 0;
    if !blank {
        Some(utf8_bytes(desired_dir))
    } else {
        match home {
            Some(h) => {
                proof {
                    reveal_strlit(".trash-rs");
                }
                Some(push(h, literal(".trash-rs").as_slice()))
            },
            None => None,
        }
    }
}

/// The master directory of the trash for the answer the user typed: that
/// directory, unless the answer was blank, in which case the system is asked
/// for the home directory and `.trash-rs` in it is used (none when there is
/// no home directory).
pub fn create_master_dir(desired_dir: &str) -> (r: Option<Vec<u8>>)
    ensures
        !is_blank_answer(desired_dir@) ==> (r matches Some(d) && d@ == encode_utf8(desired_dir@)),
        is_blank_answer(desired_dir@) ==> (r matches Some(d) ==> exists|h: Seq<u8>|
            d@ == spec_push(h, ascii(".trash-rs"@))),
{
    let blank = text_eq(desired_dir, "\\n") || text_eq(desired_dir, "\n") || desired_dir.unicode_len()
        == 0;
    if !blank {
        return choose_master_dir(desired_dir, None);
    }
    let home = user_home_dir();
    let r = match &home {
        Some(h) => choose_master_dir(desired_dir, Some(h.as_slice())),
        None => choose_master_dir(desired_dir, None),
    };
    proof {
        if let Some(h) = home {
            assert(r matches Some(d) && d@ == spec_push(h@, ascii(".trash-rs"@)));
        }
    }
    r
}

/// Whether the user's answer is a yes: exactly `y` or `Y`.
pub fn parse_yn(answer: &str) -> (r: bool)
    ensures
        r == (answer@ == "y"@ || answer@ == "Y"@),
{
    text_eq(answer, "y") || text_eq(answer, "Y")
}

/// The next step in fetching the configuration: an opened file is read; a
/// missing one is created; on any other failure the user is asked, and a new
/// file is created on a yes, while a no gives up.
pub fn fetch_config(event: &ConfigEvent) -> (r: ConfigAction)
    ensures
        match event {
            ConfigEvent::Opened => r is Read,
            ConfigEvent::NotFound => r is Create,
            ConfigEvent::OpenFailed => r is AskToCreate,
            ConfigEvent::Answered(yes) => if *yes { r is Create } else { r is Exit },
        },
{
    match event {
        ConfigEvent::Opened => ConfigAction::Read,
        ConfigEvent::NotFound => ConfigAction::Create,
        ConfigEvent::OpenFailed => ConfigAction::AskToCreate,
        ConfigEvent::Answered(yes) => if *yes { ConfigAction::Create } else { ConfigAction::Exit },
    }
}

} // verus!
