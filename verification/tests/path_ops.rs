use trash_rs::path::{extension, file_name, file_stem, is_absolute, push, set_extension, set_file_name};

fn s(x: &str) -> Vec<u8> {
    x.as_bytes().to_vec()
}

#[test]
fn push_adds_a_separator_between() {
    assert_eq!(push("/a".as_bytes(), "b".as_bytes()), s("/a/b"));
    assert_eq!(push("/a/".as_bytes(), "b".as_bytes()), s("/a/b"));
    assert_eq!(push("".as_bytes(), "b".as_bytes()), s("b"));
    assert_eq!(push("a".as_bytes(), "".as_bytes()), s("a/"));
}

#[test]
fn push_of_an_absolute_path_replaces() {
    assert_eq!(push("/a".as_bytes(), "/c/d".as_bytes()), s("/c/d"));
}

#[test]
fn file_name_skips_trailing_separators_and_dots() {
    assert_eq!(file_name("foo.txt/.".as_bytes()), Some(s("foo.txt")));
    assert_eq!(file_name("foo.txt/.//".as_bytes()), Some(s("foo.txt")));
    assert_eq!(file_name("a//b//".as_bytes()), Some(s("b")));
    assert_eq!(file_name("/usr/bin/".as_bytes()), Some(s("bin")));
    assert_eq!(file_name("tmp/foo.txt".as_bytes()), Some(s("foo.txt")));
}

#[test]
fn file_name_is_none_for_parent_root_and_empty() {
    assert_eq!(file_name("foo.txt/..".as_bytes()), None);
    assert_eq!(file_name("/".as_bytes()), None);
    assert_eq!(file_name("".as_bytes()), None);
    assert_eq!(file_name(".".as_bytes()), None);
    assert_eq!(file_name("./".as_bytes()), None);
}

#[test]
fn stem_and_extension_split_at_the_last_dot() {
    assert_eq!(file_stem("dir/foo.rs".as_bytes()), Some(s("foo")));
    assert_eq!(extension("dir/foo.rs".as_bytes()), Some(s("rs")));
    assert_eq!(file_stem("foo.tar.gz".as_bytes()), Some(s("foo.tar")));
    assert_eq!(extension("foo.tar.gz".as_bytes()), Some(s("gz")));
    assert_eq!(file_stem(".bashrc".as_bytes()), Some(s(".bashrc")));
    assert_eq!(extension(".bashrc".as_bytes()), None);
    assert_eq!(file_stem("a.".as_bytes()), Some(s("a")));
    assert_eq!(extension("a.".as_bytes()), Some(s("")));
    assert_eq!(file_stem("plain".as_bytes()), Some(s("plain")));
    assert_eq!(extension("plain".as_bytes()), None);
    assert_eq!(file_stem("/".as_bytes()), None);
}

#[test]
fn set_extension_replaces_or_removes() {
    assert_eq!(set_extension("a/b.txt".as_bytes(), "md".as_bytes()), s("a/b.md"));
    assert_eq!(set_extension("a/b".as_bytes(), "md".as_bytes()), s("a/b.md"));
    assert_eq!(set_extension("a/b.txt".as_bytes(), "".as_bytes()), s("a/b"));
    assert_eq!(set_extension("a/b.txt/".as_bytes(), "md".as_bytes()), s("a/b.md"));
    assert_eq!(set_extension("/".as_bytes(), "md".as_bytes()), s("/"));
    assert_eq!(set_extension("x".as_bytes(), ".txt".as_bytes()), s("x..txt"));
}

#[test]
fn set_file_name_replaces_the_last_component() {
    assert_eq!(set_file_name("/x/y/a.txt".as_bytes(), "b".as_bytes()), s("/x/y/b"));
    assert_eq!(set_file_name("/x/y//a.txt".as_bytes(), "b".as_bytes()), s("/x/y/b"));
    assert_eq!(set_file_name("a.txt".as_bytes(), "b".as_bytes()), s("b"));
    assert_eq!(set_file_name("/a.txt".as_bytes(), "b".as_bytes()), s("/b"));
    assert_eq!(set_file_name("x/./y".as_bytes(), "z".as_bytes()), s("x/z"));
    assert_eq!(set_file_name("/".as_bytes(), "b".as_bytes()), s("/b"));
    assert_eq!(set_file_name("x/..".as_bytes(), "b".as_bytes()), s("x/../b"));
}

#[test]
fn absolute_paths_start_at_the_root() {
    assert!(is_absolute("/a".as_bytes()));
    assert!(!is_absolute("a/b".as_bytes()));
    assert!(!is_absolute("".as_bytes()));
}

#[test]
fn pushed_name_is_the_file_name() {
    for base in ["", "/", "/a", "a/b/", "x/.."] {
        let p = push(base.as_bytes(), "name.ext".as_bytes());
        assert_eq!(file_name(&p), Some(s("name.ext")));
    }
}

#[test]
fn set_extension_then_extension() {
    for p in ["a", "dir/b.txt", "c.d.e", ".hidden"] {
        let q = set_extension(p.as_bytes(), "md".as_bytes());
        assert_eq!(extension(&q), Some(s("md")));
    }
}

#[test]
fn paths_that_are_not_utf8_are_kept() {
    let dir: Vec<u8> = vec![b'/', b'h', 0xff, b'o'];
    let p = push(&dir, "a.txt".as_bytes());
    assert_eq!(p, vec![b'/', b'h', 0xff, b'o', b'/', b'a', b'.', b't', b'x', b't']);
    assert_eq!(file_name(&p), Some(s("a.txt")));
    let q = push("/t".as_bytes(), &[b'n', 0xfe, b'.', b'z']);
    assert_eq!(extension(&q), Some(s("z")));
    assert_eq!(file_stem(&q), Some(vec![b'n', 0xfe]));
    assert_eq!(set_extension(&q, "info".as_bytes()), vec![b'/', b't', b'/', b'n', 0xfe, b'.', b'i', b'n', b'f', b'o']);
}
