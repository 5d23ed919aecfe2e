use trash_rs::empty::perm_delete_files;
use trash_rs::config::Config;
use trash_rs::list::{entry_row, list_header, list_objects, list_row, ListEntry, ListError};
use trash_rs::trash::{trash_contains, TrashCopies, TrashFile, TrashHandler};

#[test]
fn trash_file_keeps_path_and_date() {
    let t = TrashFile::new(&b"/w/a.txt".to_vec(), &"2024-01-02 03:04:05".to_string());
    assert_eq!(t.path, b"/w/a.txt".to_vec());
    assert_eq!(t.date, "2024-01-02 03:04:05");
}

fn handler() -> TrashHandler {
    TrashHandler {
        files: vec![
            TrashCopies { name: "a.txt".to_string(), copies: 2 },
            TrashCopies { name: "b".to_string(), copies: 5 },
            TrashCopies { name: "a.txt".to_string(), copies: 9 },
        ],
    }
}

#[test]
fn trash_contains_finds_the_first_entry() {
    assert_eq!(trash_contains(&handler(), "a.txt"), (true, 2));
    assert_eq!(trash_contains(&handler(), "b"), (true, 5));
}

#[test]
fn trash_contains_reports_missing_names() {
    assert_eq!(trash_contains(&handler(), "c"), (false, 0));
    assert_eq!(trash_contains(&TrashHandler { files: vec![] }, "a.txt"), (false, 0));
}

#[test]
fn listing_heading_and_rows() {
    assert_eq!(list_header(), "Name      \t\tDate Modified\t\tOriginal Location");
    assert_eq!(
        list_row("a.txt.info", "2024-01-02 03:04:05", "/w/a.txt"),
        "a.txt.info\t\t2024-01-02 03:04:05\t/w/a.txt  "
    );
    assert_eq!(list_row("x", "d", "p"), "x         \t\td         \tp         ");
}

#[test]
fn listing_matches_the_format() {
    let (n, d, p) = ("b.info", "2020-05-06 07:08:09", "/home/u/b");
    assert_eq!(list_row(n, d, p), format!("{0: <10}\t\t{1: <10}\t{2: <10}", n, d, p));
    assert_eq!(
        list_header(),
        format!("{0: <10}\t\t{1: <10}\t\t{2: <10}", "Name", "Date Modified", "Original Location")
    );
}

fn entry(name: &[u8], path: &[u8], date: &str) -> ListEntry {
    ListEntry { name: name.to_vec(), record: TrashFile { path: path.to_vec(), date: date.to_string() } }
}

#[test]
fn listing_has_a_line_per_entry() {
    let entries = vec![entry(b"a.info", b"/a", "d1"), entry(b"b.info", b"/b", "d2")];
    let listing = list_objects(&entries);
    assert!(listing.error.is_none());
    assert_eq!(listing.lines.len(), 3);
    assert_eq!(listing.lines[0], list_header());
    assert_eq!(listing.lines[1], list_row("a.info", "d1", "/a"));
    assert_eq!(listing.lines[2], list_row("b.info", "d2", "/b"));
    let empty = list_objects(&vec![]);
    assert_eq!(empty.lines.len(), 1);
    assert!(empty.error.is_none());
}

#[test]
fn listing_stops_at_a_location_that_is_not_utf8() {
    let entries = vec![
        entry(b"a.info", b"/a", "d1"),
        entry(b"b.info", &[b'/', 0xff], "d2"),
        entry(b"c.info", b"/c", "d3"),
    ];
    let listing = list_objects(&entries);
    assert_eq!(listing.error, Some(ListError::NotUnicode));
    assert_eq!(listing.lines.len(), 2);
    assert_eq!(listing.lines[1], list_row("a.info", "d1", "/a"));
    assert_eq!(entry_row(&entries[1]), None);
}

#[test]
fn names_that_are_not_utf8_are_shown_empty() {
    let e = entry(&[b'x', 0xfe], b"/x", "d");
    assert_eq!(entry_row(&e), Some(list_row("", "d", "/x")));
}

#[test]
fn empty_works_on_the_operands() {
    let c = Config::new(b"/m");
    let files: Vec<String> = ["trash-rs", "empty", "a", "b"].iter().map(|x| x.to_string()).collect();
    let job = perm_delete_files(files, &c);
    assert_eq!(job.files, vec!["a".to_string(), "b".to_string()]);
    assert_eq!(job.trash_info, b"/m/info".to_vec());
}

#[test]
fn utf8_names_and_locations_are_shown_as_text() {
    let e = entry("é.info".as_bytes(), "/ü/x".as_bytes(), "d");
    assert_eq!(entry_row(&e), Some(list_row("é.info", "d", "/ü/x")));
}
